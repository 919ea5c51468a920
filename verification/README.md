# simulation

The rules of a deterministic, fixed-point battle simulator, verified with
Verus: the Q32.32 arithmetic and the build's fast trigonometry, the random
stream, the target trees and how a unit scores and chooses a target, where a
formation's members stand, how an attack is timed and where a burst's
projectiles land, who a hit strikes, the buildings a fight starts with, how
a unit's attack cycle and target search run from tick to tick, how a grouped
skill shares its targets among its slots, and the tables a layout's loadout is
compiled from.

## Layout

- `src/` is the verified library. Every function there carries a contract,
  and the laws the library keeps are public proof functions beside the code
  they speak of.
  - `fixed`, `trig`, `motion`: Q32.32 arithmetic, angles, the fast square
    root and arctangents, target scores and movement.
  - `random`: the build's xoshiro256** stream and its integer draws.
  - `quadtree`, `trees`: the target trees a search walks.
  - `rules`, `modifier`, `data`: unit descriptions and the officer,
    technology, equipment and level tables a loadout writes from.
  - `plan`, `module`, `layout`, `compile`, `formation`: turning a layout into
    placements, constructions and refusals.
  - `kernel`, `buildings`, `engagement`, `targeting`, `lock`, `attack`,
    `projectile`, `hits`, `order`: the fight's own rules.
  - `skill`, `search`, `cooling`, `ending`, `burst`: a unit's attack cycle
    on a tick, when it searches and what it keeps, the hold through its
    cooling, what ends an attack, and a projectile burst's schedule.
  - `group`, `releases`: how a grouped skill shares its targets among its
    slots and which of its shots go off on a tick.
  - `run`: how a run of ticks ends.
  - `fight`: a fight itself, built from a compiled layout and run tick by
    tick: each unit keeps or finds its target, runs its attack cycle and
    strikes while the target is in reach, and moves where the avoidance
    solver's answer sends it otherwise. The solver's answers are an input
    of a tick, not computed here.
  - `text`: the wording of refusals.
- `tests/` exercises the library from outside.
- `app/` reads YAML tables, tower configurations and unit descriptions, turns
  their floating-point metres, seconds and degrees into the integers the
  library holds, and draws a seed from the machine when none is given.
