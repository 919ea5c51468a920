//! A fight, tick by tick: every living unit in turn keeps or finds its
//! target, runs its attack cycle while the target is within reach, gated by
//! whether it faces it, turns toward it and strikes at the attack point, and
//! otherwise moves the way the avoidance solver's answer sends it.
use vstd::prelude::*;

use crate::Error;
use crate::compile::{config_named, CompiledLayout, Placement};
use crate::fixed::{
    clamp_i64, max_int, mdeg_to_degrees_q32, mdeg_to_degrees_q32_spec, min_int, native_time_units_to_steps,
    native_time_units_to_steps_spec, q32_mul, q32_mul_spec, q32_to_space_rounded, q32_to_space_rounded_spec,
    rotate_towards_q32, rotate_towards_q32_spec, rotation_distance_q32, rotation_distance_q32_spec, saturating_add,
    saturating_sub, space_to_q32, space_to_q32_spec, NATIVE_LOGIC_DELTA_Q32,
};
use crate::formation::{
    formation_seed_spec, generate_formation_positions, grid_spec, member_position, positions_computable,
    positions_outcome, standing_footprint,
};
use crate::kernel::{team_stream_seed, team_stream_seed_spec};
use crate::motion::{
    clamp_magnitude_q32_raw, clamp_magnitude_spec, edge_distance_spec, normal_visible_full_rotation_target_score_q32,
    normal_visible_full_rotation_target_score_spec,
};
use crate::quadtree::FightActorRef;
use crate::random::{inclusive_draw_spec, seeded_spec, GrRandom, RandomState};
use crate::rules::{accepts_spec, AttackPath, AttackTargets, UnitConfig, UnitConfigs, UnitDomain, WeaponMode};
use crate::run::{max_steps, max_steps_spec, EndReason};
use crate::skill::{
    cycle_rules_spec, out_of_reach_spec, OutOfReach, in_reach_spec, release_attack, released_spec, step_in_reach, AttackCycle, CycleRules,
    FightSkillPhase, InReach, MotionState,
};
use crate::text::{debug_quoted, debug_text, join3};
use crate::trig::{direction_degrees_q32_raw, direction_degrees_q32_raw_spec, native_q32_magnitude};

verus! {

/// One unit of the fight: its side, where it stands and faces, its size and
/// domain, what it may target and how far, the damage of a blow, its life,
/// the half-angle it strikes within and how far it turns in a tick, its
/// attack cycle and the unit it is locked on, by place in the fight.
#[derive(Debug, Clone, Copy, PartialEq, Eq, Structural)]
pub struct FightUnit {
    pub team: u32,
    pub x_q32: i64,
    pub z_q32: i64,
    pub rotation_q32: i64,
    pub radius: i64,
    pub domain: UnitDomain,
    pub targets: AttackTargets,
    pub min_range: i64,
    pub range: i64,
    pub damage: i64,
    pub life: i64,
    pub rules: CycleRules,
    pub backswing_time_units: u64,
    pub skill_count: u32,
    pub half_angle_q32: i64,
    pub turn_q32: i64,
    pub cycle: AttackCycle,
    pub lock: Option<u64>,
}

/// Where the avoidance solver sends a unit this tick: the point it publishes
/// for it and the speed it may cover toward it.
#[derive(Debug, Clone, Copy, PartialEq, Eq, Structural)]
pub struct AvoidanceVelocity {
    pub target_x_q32: i64,
    pub target_z_q32: i64,
    pub speed_q32: i64,
}

/// What a tick reports: a blow that struck, and a unit it killed.
#[derive(Debug, Clone, Copy, PartialEq, Eq, Structural)]
pub enum Event {
    Damage { source: u64, target: u64, amount: i64 },
    Died { unit: u64, source: u64 },
}

/// A fight in progress: its units, in the order they act, and each side's
/// random stream.
pub struct Fight {
    pub units: Vec<FightUnit>,
    pub blue: GrRandom,
    pub red: GrRandom,
}

/// What a fight is: its units and the state of each side's stream.
#[verifier::ext_equal]
pub struct FightView {
    pub units: Seq<FightUnit>,
    pub blue: RandomState,
    pub red: RandomState,
}

impl View for Fight {
    type V = FightView;

    open spec fn view(&self) -> FightView {
        FightView { units: self.units@, blue: self.blue@, red: self.red@ }
    }
}

/// Every lock names a unit of the fight.
pub open spec fn fight_wf(view: FightView) -> bool {
    forall|i: int| 0 <= i < view.units.len() ==> ((#[trigger] view.units[i]).lock matches Some(j) ==> j < view.units.len())
}

/// No unit of `units` holds a lock.
pub open spec fn unlocked(units: Seq<FightUnit>) -> bool {
    forall|i: int| 0 <= i < units.len() ==> (#[trigger] units[i]).lock is None
}

impl Fight {
    pub open spec fn wf(&self) -> bool {
        fight_wf(self@)
    }
}

/// The stream a side draws from.
pub open spec fn stream_of(view: FightView, team: u32) -> RandomState {
    if team == 0 {
        view.blue
    } else {
        view.red
    }
}

/// The fight with a side's stream replaced.
pub open spec fn with_stream(view: FightView, team: u32, state: RandomState) -> FightView {
    if team == 0 {
        FightView { blue: state, ..view }
    } else {
        FightView { red: state, ..view }
    }
}

/// How the unit at `i` scores the unit at `j` as a target: none for a unit
/// of its own side, a dead one, one of a domain its attack does not reach, or
/// one the selector does not see; else the selector's score.
#[verifier::opaque]
pub open spec fn score_of(units: Seq<FightUnit>, i: int, j: int) -> Option<i64> {
    let s = units[i];
    let t = units[j];
    if t.team == s.team || t.life <= 0 || !accepts_spec(s.targets, t.domain) {
        None
    } else {
        normal_visible_full_rotation_target_score_spec(
            s.x_q32,
            s.z_q32,
            s.radius,
            s.rotation_q32,
            t.x_q32,
            t.z_q32,
            t.radius,
            s.min_range,
            s.range,
        )
    }
}

/// The best of the first `k` units for the unit at `i`, with its score: the
/// least score, the first of equal ones.
pub open spec fn best_below(units: Seq<FightUnit>, i: int, k: int) -> Option<(int, i64)>
    decreases k,
{
    if k <= 0 {
        None
    } else {
        let before = best_below(units, i, k - 1);
        match score_of(units, i, k - 1) {
            None => before,
            Some(score) => match before {
                None => Some((k - 1, score)),
                Some(best) => if score < best.1 {
                    Some((k - 1, score))
                } else {
                    before
                },
            },
        }
    }
}

/// The selector's best is one of the units it looked at.
proof fn lemma_best_below_in_range(units: Seq<FightUnit>, i: int, k: int)
    ensures
        best_below(units, i, k) matches Some(best) ==> 0 <= best.0 < k,
    decreases k,
{
    if k > 0 {
        lemma_best_below_in_range(units, i, k - 1);
    }
}

/// The selector's pick among the first `k` units is the best scoring one: it
/// scores, no unit scores less, and every unit before it scores more; with
/// no pick, none of them scores at all.
pub proof fn lemma_the_selector_picks_the_least_score(units: Seq<FightUnit>, i: int, k: int)
    ensures
        best_below(units, i, k) matches Some(best) ==> {
            &&& 0 <= best.0 < k
            &&& score_of(units, i, best.0) == Some(best.1)
            &&& forall|j: int|
                0 <= j < k && (#[trigger] score_of(units, i, j)) is Some ==> score_of(units, i, j)->0 >= best.1
            &&& forall|j: int|
                0 <= j < best.0 && (#[trigger] score_of(units, i, j)) is Some ==> score_of(units, i, j)->0 > best.1
        },
        best_below(units, i, k) is None ==> forall|j: int| 0 <= j < k ==> (#[trigger] score_of(units, i, j)) is None,
    decreases k,
{
    if k > 0 {
        lemma_the_selector_picks_the_least_score(units, i, k - 1);
    }
}

/// A unit with no living lock takes the enemy the selector scores least in
/// the tick's snapshot, the first of equal ones, and none only when no enemy
/// scores.
pub proof fn lemma_a_unit_without_a_lock_takes_the_best_scored_enemy(
    snapshot: Seq<FightUnit>,
    units: Seq<FightUnit>,
    i: int,
)
    requires
        !(units[i].lock matches Some(j) && j < units.len() && units[j as int].life > 0),
    ensures
        target_of(snapshot, units, i) matches Some(chosen) ==> {
            &&& 0 <= chosen < snapshot.len()
            &&& score_of(snapshot, i, chosen) is Some
            &&& forall|j: int|
                0 <= j < snapshot.len() && (#[trigger] score_of(snapshot, i, j)) is Some ==> score_of(snapshot, i, j)->0
                    >= score_of(snapshot, i, chosen)->0
            &&& forall|j: int|
                0 <= j < chosen && (#[trigger] score_of(snapshot, i, j)) is Some ==> score_of(snapshot, i, j)->0
                    > score_of(snapshot, i, chosen)->0
        },
        target_of(snapshot, units, i) is None ==> forall|j: int|
            0 <= j < snapshot.len() ==> (#[trigger] score_of(snapshot, i, j)) is None,
{
    lemma_the_selector_picks_the_least_score(snapshot, i, snapshot.len() as int);
}

/// Only a living enemy of a domain the unit's attack reaches scores, and it
/// scores what the selector makes of it.
pub proof fn lemma_only_reachable_living_enemies_score(units: Seq<FightUnit>, i: int, j: int)
    ensures
        score_of(units, i, j) is Some ==> {
            &&& units[j].team != units[i].team
            &&& units[j].life > 0
            &&& accepts_spec(units[i].targets, units[j].domain)
            &&& score_of(units, i, j) == normal_visible_full_rotation_target_score_spec(
                units[i].x_q32,
                units[i].z_q32,
                units[i].radius,
                units[i].rotation_q32,
                units[j].x_q32,
                units[j].z_q32,
                units[j].radius,
                units[i].min_range,
                units[i].range,
            )
        },
{
    reveal(score_of);
}

/// A unit whose lock still lives keeps it, whatever the selector would say.
pub proof fn lemma_a_living_lock_is_kept(snapshot: Seq<FightUnit>, units: Seq<FightUnit>, i: int, j: u64)
    requires
        units[i].lock == Some(j),
        j < units.len(),
        units[j as int].life > 0,
    ensures
        target_of(snapshot, units, i) == Some(j as int),
{
}

/// The target the unit at `i` takes: the unit it is locked on while that
/// lives, else the best the selector finds in the tick's `snapshot`, the
/// fight as it stood when the tick began.
pub open spec fn target_of(snapshot: Seq<FightUnit>, units: Seq<FightUnit>, i: int) -> Option<int> {
    let u = units[i];
    if u.lock matches Some(j) && j < units.len() && units[j as int].life > 0 {
        Some(u.lock->0 as int)
    } else {
        match best_below(snapshot, i, snapshot.len() as int) {
            Some(best) => Some(best.0),
            None => None,
        }
    }
}

/// Where a unit stands after moving toward the point the solver published,
/// by at most the speed it published for one tick.
pub open spec fn moved_spec(u: FightUnit, avoid: AvoidanceVelocity) -> FightUnit {
    let maximum = q32_mul_spec(avoid.speed_q32 as int, NATIVE_LOGIC_DELTA_Q32 as int) as i64;
    let delta = clamp_magnitude_spec(
        clamp_i64(avoid.target_x_q32 - u.x_q32) as i64,
        clamp_i64(avoid.target_z_q32 - u.z_q32) as i64,
        maximum,
    );
    FightUnit {
        x_q32: clamp_i64(u.x_q32 + delta.0) as i64,
        z_q32: clamp_i64(u.z_q32 + delta.1) as i64,
        ..u
    }
}

/// The unit's cycle with its finished swing cleared: a swing whose last step
/// has passed is over.
pub open spec fn swing_cleared(cycle: AttackCycle, step: u64) -> AttackCycle {
    if cycle.backswing_finish_step matches Some(finish) && finish < step {
        AttackCycle { backswing_finish_step: None, ..cycle }
    } else {
        cycle
    }
}

/// A blow of `source` on the unit at `j`: its life down by the blow, the
/// damage reported, and its death when the blow killed it.
pub open spec fn struck_spec(units: Seq<FightUnit>, source: int, j: int) -> (Seq<FightUnit>, Seq<Event>) {
    let t = units[j];
    let amount = units[source].damage;
    let life = clamp_i64(t.life - amount) as i64;
    let damage = Event::Damage { source: source as u64, target: j as u64, amount };
    let events = if t.life > 0 && life <= 0 {
        seq![damage, Event::Died { unit: j as u64, source: source as u64 }]
    } else {
        seq![damage]
    };
    (units.update(j, FightUnit { life, ..t }), events)
}

/// Whether `t` is within `u`'s reach: the gap between their edges no less
/// than its least range and no more than its range.
#[verifier::opaque]
pub open spec fn reach_spec(u: FightUnit, t: FightUnit) -> bool {
    let gap = edge_distance_spec(u.x_q32, u.z_q32, u.radius, t.x_q32, t.z_q32, t.radius);
    space_to_q32_spec(u.min_range as int) <= gap <= space_to_q32_spec(u.range as int)
}

/// The bearing from `u` to `t`.
#[verifier::opaque]
pub open spec fn bearing_spec(u: FightUnit, t: FightUnit) -> i64 {
    direction_degrees_q32_raw_spec(clamp_i64(t.x_q32 - u.x_q32) as i64, clamp_i64(t.z_q32 - u.z_q32) as i64) as i64
}

/// Whether `u` faces `bearing` within its half-angle.
#[verifier::opaque]
pub open spec fn in_angle_spec(u: FightUnit, bearing: i64) -> bool {
    rotation_distance_q32_spec(u.rotation_q32 as int, bearing as int) <= u.half_angle_q32
}

/// Where `u` faces once turned toward `bearing` by at most its turn for a
/// tick.
#[verifier::opaque]
pub open spec fn turned_rotation(u: FightUnit, bearing: i64) -> i64 {
    rotate_towards_q32_spec(u.rotation_q32 as int, bearing as int, max_int(u.turn_q32 as int, 0)) as i64
}

/// `u` turned toward `bearing`; see [`turned_rotation`].
pub open spec fn turned_spec(u: FightUnit, bearing: i64) -> FightUnit {
    FightUnit { rotation_q32: turned_rotation(u, bearing), ..u }
}

/// A tick of the unit at `i`, now `u`, with the unit at `j` in reach at
/// `bearing`, its swing just `finished` or not: the attack cycle drawing from
/// its side's stream, gated by whether it faces the target; the lock dropped
/// if it gives up; the unit turned toward the target unless it has only just
/// entered its attack; and a blow struck at the attack point.
#[verifier::opaque]
pub open spec fn in_reach_tick_spec(
    view: FightView,
    i: int,
    u: FightUnit,
    j: int,
    finished: bool,
    bearing: i64,
    step: u64,
) -> (
    FightView,
    Seq<Event>,
) {
    let units = view.units;
    let (cycle, outcome, after) = in_reach_spec(
        u.cycle,
        u.rules,
        in_angle_spec(u, bearing),
        finished,
        FightActorRef::Unit(j as u64),
        step,
        stream_of(view, u.team),
    );
    let drawn = with_stream(view, u.team, after);
    match outcome {
        InReach::Rejected => (
            FightView { units: units.update(i, FightUnit { lock: None, cycle, ..u }), ..drawn },
            Seq::empty(),
        ),
        InReach::Engaged { entered_attack, release_now, .. } => {
            let facing = if entered_attack { u } else { turned_spec(u, bearing) };
            let locked = FightUnit { lock: Some(j as u64), cycle, ..facing };
            if release_now && cycle.pending is Some {
                let released = FightUnit {
                    cycle: released_spec(cycle, true, u.backswing_time_units, u.rules.quick_switch_target, false),
                    ..locked
                };
                let (struck, events) = struck_spec(units.update(i, released), i, j);
                (FightView { units: struck, ..drawn }, events)
            } else {
                (FightView { units: units.update(i, locked), ..drawn }, Seq::empty())
            }
        },
    }
}

/// A tick of the unit at `i`, now `u`, with the unit at `j` out of reach,
/// its swing just `finished` or not: a unit its cycle gives up on the target
/// for (a bodyless one that was attacking, or a bodyless striker whose swing
/// just ended) idles with no lock; any other keeps the lock and moves toward
/// the point the solver published.
#[verifier::opaque]
pub open spec fn moving_tick_spec(
    view: FightView,
    i: int,
    u: FightUnit,
    j: int,
    finished: bool,
    avoid: AvoidanceVelocity,
) -> FightView {
    match out_of_reach_spec(u.cycle, Seq::empty(), u.rules, false, false, finished, false) {
        OutOfReach::GivenUp => FightView {
            units: view.units.update(
                i,
                FightUnit {
                    lock: None,
                    cycle: AttackCycle {
                        motion: MotionState::Idle,
                        phase: FightSkillPhase::Idle,
                        hold_fire: false,
                        attacked_wall: None,
                        ..u.cycle
                    },
                    ..u
                },
            ),
            ..view
        },
        _ => {
            let moving = FightUnit {
                lock: Some(j as u64),
                cycle: AttackCycle { motion: MotionState::Moving, hold_fire: false, ..u.cycle },
                ..u
            };
            FightView { units: view.units.update(i, moved_spec(moving, avoid)), ..view }
        },
    }
}

/// One tick of the living unit at `i`: see [`unit_tick_spec`].
pub open spec fn living_tick_spec(view: FightView, snapshot: Seq<FightUnit>, i: int, step: u64, avoid: AvoidanceVelocity) -> (
    FightView,
    Seq<Event>,
) {
    let units = view.units;
    let u0 = units[i];
    let u = FightUnit { cycle: swing_cleared(u0.cycle, step), ..u0 };
    let finished = u.cycle != u0.cycle;
    match target_of(snapshot, units, i) {
        None => (
            FightView {
                units: units.update(
                    i,
                    FightUnit { lock: None, cycle: AttackCycle { motion: MotionState::Idle, ..u.cycle }, ..u },
                ),
                ..view
            },
            Seq::empty(),
        ),
        Some(j) => engaged_tick_spec(view, i, u, j, finished, step, avoid),
    }
}

/// A tick of the unit at `i`, now `u`, with a target at `j`: the attack
/// when the target is within reach, a move toward it otherwise.
#[verifier::opaque]
pub open spec fn engaged_tick_spec(
    view: FightView,
    i: int,
    u: FightUnit,
    j: int,
    finished: bool,
    step: u64,
    avoid: AvoidanceVelocity,
) -> (FightView, Seq<Event>) {
    let t = view.units[j];
    if reach_spec(u, t) {
        in_reach_tick_spec(view, i, u, j, finished, bearing_spec(u, t), step)
    } else {
        (moving_tick_spec(view, i, u, j, finished, avoid), Seq::empty())
    }
}

/// One tick of the unit at `i`, with the solver's answer for it: a dead unit
/// does nothing. A living one clears a swing that is over, keeps its lock
/// while its target lives or takes the selector's best in the tick's
/// `snapshot`, and idles with no
/// lock when there is none. With its target within its range it runs its
/// attack cycle, drawing from its side's stream, and strikes when the attack
/// point is reached; a cycle that gives the target up drops the lock. Out of
/// range it moves toward the point the solver published for it.
pub open spec fn unit_tick_spec(view: FightView, snapshot: Seq<FightUnit>, i: int, step: u64, avoid: AvoidanceVelocity) -> (
    FightView,
    Seq<Event>,
) {
    if view.units[i].life <= 0 {
        (view, Seq::empty())
    } else {
        living_tick_spec(view, snapshot, i, step, avoid)
    }
}

/// The fight after the first `k` units have taken their tick, and what they
/// reported, in order.
pub open spec fn ticks_spec(view: FightView, k: int, step: u64, avoidance: Seq<AvoidanceVelocity>) -> (
    FightView,
    Seq<Event>,
)
    decreases k,
{
    if k <= 0 {
        (view, Seq::empty())
    } else {
        let (before, events) = ticks_spec(view, k - 1, step, avoidance);
        let (after, more) = unit_tick_spec(before, view.units, k - 1, step, avoidance[k - 1]);
        (after, events + more)
    }
}

/// Every unit's interval settled once a side is alone: when fewer than two
/// sides are left, each living unit reads its description's interval, with no
/// stagger.
pub open spec fn settled_spec(units: Seq<FightUnit>) -> Seq<FightUnit> {
    if finished_spec(units) {
        Seq::new(
            units.len(),
            |i: int|
                if units[i].life > 0 {
                    FightUnit {
                        cycle: AttackCycle {
                            current_attack_interval: native_time_units_to_steps_spec(
                                units[i].rules.interval_time_units as int,
                            ) as u64,
                            ..units[i].cycle
                        },
                        ..units[i]
                    }
                } else {
                    units[i]
                },
        )
    } else {
        units
    }
}

/// Every unit stood down: idle, its skill idle and its lock dropped.
pub open spec fn stopped_spec(units: Seq<FightUnit>) -> Seq<FightUnit> {
    Seq::new(
        units.len(),
        |i: int|
            FightUnit {
                lock: None,
                cycle: AttackCycle { motion: MotionState::Idle, phase: FightSkillPhase::Idle, ..units[i].cycle },
                ..units[i]
            },
    )
}

/// A whole tick: intervals settled when a side is alone, then every unit in
/// turn, in the order of the fight; and every unit stood down when the tick
/// began with a winner or ends with fewer than two sides left.
#[verifier::opaque]
pub open spec fn step_spec(view: FightView, step: u64, avoidance: Seq<AvoidanceVelocity>) -> (
    FightView,
    Seq<Event>,
) {
    let settled = FightView { units: settled_spec(view.units), ..view };
    let decided = winner_spec(settled.units) is Some;
    let (ticked, events) = ticks_spec(settled, settled.units.len() as int, step, avoidance);
    if decided || finished_spec(ticked.units) {
        (FightView { units: stopped_spec(ticked.units), ..ticked }, events)
    } else {
        (ticked, events)
    }
}


/// A copy of the units, as the tick's snapshot.
fn copied(units: &Vec<FightUnit>) -> (copy: Vec<FightUnit>)
    ensures
        copy@ == units@,
{
    let mut copy: Vec<FightUnit> = Vec::new();
    let mut i: usize = 0;
    while i < units.len()
        invariant
            i <= units.len(),
            copy@ == units@.take(i as int),
        decreases units.len() - i,
    {
        copy.push(units[i]);
        proof {
            assert(units@.take(i as int + 1) =~= units@.take(i as int).push(units@[i as int]));
        }
        i = i + 1;
    }
    proof {
        assert(units@.take(units.len() as int) =~= units@);
    }
    copy
}

/// Whether `t` is within `u`'s reach; see [`reach_spec`].
fn within_reach(u: &FightUnit, t: &FightUnit) -> (within: bool)
    ensures
        within == reach_spec(*u, *t),
{
    reveal(reach_spec);
    let centre = native_q32_magnitude(saturating_sub(t.x_q32, u.x_q32), saturating_sub(t.z_q32, u.z_q32));
    let gap = saturating_sub(saturating_sub(centre, space_to_q32(u.radius)), space_to_q32(t.radius));
    let gap = if gap < 0 {
        0
    } else {
        gap
    };
    space_to_q32(u.min_range) <= gap && gap <= space_to_q32(u.range)
}

/// The selector's best target for the unit at `i` among `units`; see
/// [`best_below`].
fn select_target(units: &Vec<FightUnit>, i: usize) -> (best: Option<usize>)
    requires
        i < units.len(),
    ensures
        best == (match best_below(units@, i as int, units.len() as int) {
            Some(found) => Some(found.0 as usize),
            None => None::<usize>,
        }),
        best matches Some(j) ==> j < units.len(),
        best matches Some(j) ==> score_of(units@, i as int, j as int) is Some && forall|k: int|
            0 <= k < units.len() && (#[trigger] score_of(units@, i as int, k)) is Some ==> score_of(
                units@,
                i as int,
                k,
            )->0 >= score_of(units@, i as int, j as int)->0,
        best is None ==> forall|k: int| 0 <= k < units.len() ==> (#[trigger] score_of(units@, i as int, k)) is None,
{
    proof {
        lemma_the_selector_picks_the_least_score(units@, i as int, units.len() as int);
    }
    let s = units[i];
    let mut best: Option<(usize, i64)> = None;
    let mut k: usize = 0;
    while k < units.len()
        invariant
            i < units.len(),
            s == units@[i as int],
            k <= units.len(),
            (match best {
                Some(found) => Some((found.0 as int, found.1)),
                None => None::<(int, i64)>,
            }) == best_below(units@, i as int, k as int),
            best matches Some(found) ==> found.0 < k,
        decreases units.len() - k,
    {
        let t = units[k];
        let reaches = match t.domain {
            UnitDomain::Ground => s.targets.ground,
            UnitDomain::Air => s.targets.air,
        };
        let score = if t.team == s.team || t.life <= 0 || !reaches {
            None
        } else {
            normal_visible_full_rotation_target_score_q32(
                s.x_q32,
                s.z_q32,
                s.radius,
                s.rotation_q32,
                t.x_q32,
                t.z_q32,
                t.radius,
                s.min_range,
                s.range,
            )
        };
        assert(score == score_of(units@, i as int, k as int)) by {
            reveal(score_of);
        }
        match score {
            None => {},
            Some(value) => {
                match best {
                    None => {
                        best = Some((k, value));
                    },
                    Some(found) => {
                        if value < found.1 {
                            best = Some((k, value));
                        }
                    },
                }
            },
        }
        k = k + 1;
    }
    match best {
        Some(found) => Some(found.0),
        None => None,
    }
}


impl Fight {
    /// The fight with the unit at `i` replaced by `unit`.
    fn put(&mut self, i: usize, unit: FightUnit)
        requires
            i < old(self).units.len(),
        ensures
            final(self)@ == (FightView { units: old(self)@.units.update(i as int, unit), ..old(self)@ }),
    {
        self.units.set(i, unit);
    }

    /// The unit at `j` struck by the unit at `i`; see [`struck_spec`].
    fn strike(&mut self, i: usize, j: usize, events: &mut Vec<Event>)
        requires
            i < old(self).units.len(),
            j < old(self).units.len(),
        ensures
            final(self).units@ == struck_spec(old(self).units@, i as int, j as int).0,
            final(self).blue == old(self).blue,
            final(self).red == old(self).red,
            final(events)@ == old(events)@ + struck_spec(old(self).units@, i as int, j as int).1,
    {
        let amount = self.units[i].damage;
        let t = self.units[j];
        let life = saturating_sub(t.life, amount);
        self.units.set(j, FightUnit { life, ..t });
        let damage = Event::Damage { source: i as u64, target: j as u64, amount };
        events.push(damage);
        if t.life > 0 && life <= 0 {
            events.push(Event::Died { unit: j as u64, source: i as u64 });
        }
        proof {
            let stated = struck_spec(old(self).units@, i as int, j as int).1;
            assert(final(events)@ =~= old(events)@ + stated);
        }
    }

    /// One tick of the unit at `i`; see [`unit_tick_spec`].
    fn tick_unit(&mut self, snapshot: &Vec<FightUnit>, i: usize, step: u64, avoid: AvoidanceVelocity, events: &mut Vec<Event>)
        requires
            i < old(self).units.len(),
            snapshot.len() == old(self).units.len(),
        ensures
            final(self)@ == unit_tick_spec(old(self)@, snapshot@, i as int, step, avoid).0,
            final(events)@ == old(events)@ + unit_tick_spec(old(self)@, snapshot@, i as int, step, avoid).1,
            final(self).units.len() == old(self).units.len(),
    {
        let u0 = self.units[i];
        if u0.life <= 0 {
            assert(old(events)@ + Seq::<Event>::empty() =~= old(events)@);
            return;
        }
        let mut u = u0;
        let finished = match u0.cycle.backswing_finish_step {
            Some(finish) => finish < step,
            None => false,
        };
        if finished {
            u.cycle.backswing_finish_step = None;
        }
        assert(u.cycle == swing_cleared(u0.cycle, step));
        assert(finished == (u.cycle != u0.cycle));
        let target: Option<usize> = match u0.lock {
            Some(j) => {
                if j < self.units.len() as u64 && self.units[j as usize].life > 0 {
                    Some(j as usize)
                } else {
                    select_target(snapshot, i)
                }
            },
            None => select_target(snapshot, i),
        };
        proof {
            lemma_best_below_in_range(snapshot@, i as int, snapshot.len() as int);
        }
        assert(target_of(snapshot@, old(self).units@, i as int) matches Some(j) ==> 0 <= j < old(self).units.len());
        assert(target == (match target_of(snapshot@, old(self).units@, i as int) {
            Some(j) => Some(j as usize),
            None => None::<usize>,
        }));
        match target {
            None => {
                let idle = FightUnit { lock: None, cycle: AttackCycle { motion: MotionState::Idle, ..u.cycle }, ..u };
                self.put(i, idle);
                assert(old(events)@ + Seq::<Event>::empty() =~= old(events)@);
            },
            Some(j) => {
                self.tick_engaged(i, u, j, finished, step, avoid, events);
            },
        }
    }
}

impl Fight {
    /// See [`engaged_tick_spec`].
    fn tick_engaged(
        &mut self,
        i: usize,
        u: FightUnit,
        j: usize,
        finished: bool,
        step: u64,
        avoid: AvoidanceVelocity,
        events: &mut Vec<Event>,
    )
        requires
            i < old(self).units.len(),
            j < old(self).units.len(),
        ensures
            final(self)@ == engaged_tick_spec(old(self)@, i as int, u, j as int, finished, step, avoid).0,
            final(events)@ == old(events)@ + engaged_tick_spec(old(self)@, i as int, u, j as int, finished, step, avoid).1,
            final(self).units.len() == old(self).units.len(),
    {
        reveal(engaged_tick_spec);
        let t = self.units[j];
        if within_reach(&u, &t) {
            let bearing = direction_degrees_q32_raw(saturating_sub(t.x_q32, u.x_q32), saturating_sub(t.z_q32, u.z_q32));
            assert(bearing == bearing_spec(u, t)) by {
                reveal(bearing_spec);
            }
            self.tick_in_reach(i, u, j, finished, bearing, step, events);
        } else {
            self.tick_moving(i, u, j, finished, avoid);
            assert(old(events)@ + Seq::<Event>::empty() =~= old(events)@);
        }
    }
}

impl Fight {
    /// See [`in_reach_tick_spec`].
    fn tick_in_reach(
        &mut self,
        i: usize,
        u: FightUnit,
        j: usize,
        finished: bool,
        bearing: i64,
        step: u64,
        events: &mut Vec<Event>,
    )
        requires
            i < old(self).units.len(),
            j < old(self).units.len(),
        ensures
            final(self)@ == in_reach_tick_spec(old(self)@, i as int, u, j as int, finished, bearing, step).0,
            final(events)@ == old(events)@ + in_reach_tick_spec(old(self)@, i as int, u, j as int, finished, bearing, step).1,
            final(self).units.len() == old(self).units.len(),
    {
        reveal(in_reach_tick_spec);
        reveal(in_angle_spec);
        reveal(turned_rotation);
        let in_angle = rotation_distance_q32(u.rotation_q32, bearing) <= u.half_angle_q32;
        let mut cycle = u.cycle;
        let outcome = if u.team == 0 {
            step_in_reach(&mut cycle, &u.rules, in_angle, finished, FightActorRef::Unit(j as u64), step, &mut self.blue)
        } else {
            step_in_reach(&mut cycle, &u.rules, in_angle, finished, FightActorRef::Unit(j as u64), step, &mut self.red)
        };
        match outcome {
            InReach::Rejected => {
                self.units.set(i, FightUnit { lock: None, cycle, ..u });
                assert(old(events)@ + Seq::<Event>::empty() =~= old(events)@);
            },
            InReach::Engaged { entered_attack, release_now, .. } => {
                let facing = if entered_attack {
                    u
                } else {
                    let turn = if u.turn_q32 < 0 {
                        0
                    } else {
                        u.turn_q32
                    };
                    FightUnit { rotation_q32: rotate_towards_q32(u.rotation_q32, bearing, turn), ..u }
                };
                let mut locked = FightUnit { lock: Some(j as u64), cycle, ..facing };
                if release_now && cycle.pending.is_some() {
                    let _ = release_attack(
                        &mut locked.cycle,
                        true,
                        u.backswing_time_units,
                        u.rules.quick_switch_target,
                        false,
                    );
                    self.units.set(i, locked);
                    self.strike(i, j, events);
                } else {
                    self.units.set(i, locked);
                    assert(old(events)@ + Seq::<Event>::empty() =~= old(events)@);
                }
            },
        }
    }

    /// See [`moving_tick_spec`].
    fn tick_moving(&mut self, i: usize, u: FightUnit, j: usize, finished: bool, avoid: AvoidanceVelocity)
        requires
            i < old(self).units.len(),
            j < old(self).units.len(),
        ensures
            final(self)@ == moving_tick_spec(old(self)@, i as int, u, j as int, finished, avoid),
            final(self).units.len() == old(self).units.len(),
    {
        reveal(moving_tick_spec);
        let quiet = u.cycle.pending.is_none() && u.cycle.backswing_finish_step.is_none();
        let attacking_phase = match u.cycle.phase {
            FightSkillPhase::Attack => true,
            _ => false,
        };
        let attacking = match u.cycle.motion {
            MotionState::Attacking => true,
            _ => false,
        };
        let gives_up = (attacking && !u.rules.has_body && !u.cycle.hold_fire && quiet && (u.rules.melee_direct
            || attacking_phase)) || (finished && u.rules.melee_direct && !u.rules.has_body);
        if gives_up {
            self.units.set(
                i,
                FightUnit {
                    lock: None,
                    cycle: AttackCycle {
                        motion: MotionState::Idle,
                        phase: FightSkillPhase::Idle,
                        hold_fire: false,
                        attacked_wall: None,
                        ..u.cycle
                    },
                    ..u
                },
            );
            return;
        }
        let maximum = q32_mul(avoid.speed_q32, NATIVE_LOGIC_DELTA_Q32);
        let delta = clamp_magnitude_q32_raw(
            saturating_sub(avoid.target_x_q32, u.x_q32),
            saturating_sub(avoid.target_z_q32, u.z_q32),
            maximum,
        );
        let moved = FightUnit {
            lock: Some(j as u64),
            cycle: AttackCycle { motion: MotionState::Moving, hold_fire: false, ..u.cycle },
            x_q32: saturating_add(u.x_q32, delta.0),
            z_q32: saturating_add(u.z_q32, delta.1),
            ..u
        };
        self.units.set(i, moved);
    }
}

/// A tick of one unit keeps every lock on a unit of the fight.
proof fn lemma_tick_keeps_wf(view: FightView, snapshot: Seq<FightUnit>, i: int, step: u64, avoid: AvoidanceVelocity)
    requires
        fight_wf(view),
        0 <= i < view.units.len(),
        snapshot.len() == view.units.len(),
    ensures
        fight_wf(unit_tick_spec(view, snapshot, i, step, avoid).0),
        unit_tick_spec(view, snapshot, i, step, avoid).0.units.len() == view.units.len(),
{
    lemma_best_below_in_range(snapshot, i, snapshot.len() as int);
    let units = view.units;
    let u0 = units[i];
    let u = FightUnit { cycle: swing_cleared(u0.cycle, step), ..u0 };
    if u0.life > 0 {
        match target_of(snapshot, units, i) {
            None => {
                let after = unit_tick_spec(view, snapshot, i, step, avoid).0;
                assert forall|k: int| 0 <= k < after.units.len() implies ((#[trigger] after.units[k]).lock matches Some(
                    j,
                ) ==> j < after.units.len()) by {
                    if k != i {
                        assert(after.units[k] == view.units[k]);
                    }
                }
            },
            Some(j) => {
                reveal(engaged_tick_spec);
                let t = units[j];
                if reach_spec(u, t) {
                    lemma_in_reach_keeps_wf(view, i, u, j, u.cycle != u0.cycle, bearing_spec(u, t), step);
                } else {
                    lemma_moving_keeps_wf(view, i, u, j, u.cycle != u0.cycle, avoid);
                }
            },
        }
    }
}

proof fn lemma_in_reach_keeps_wf(view: FightView, i: int, u: FightUnit, j: int, finished: bool, bearing: i64, step: u64)
    requires
        fight_wf(view),
        0 <= i < view.units.len(),
        0 <= j < view.units.len(),
        u.lock == view.units[i].lock,
    ensures
        fight_wf(in_reach_tick_spec(view, i, u, j, finished, bearing, step).0),
        in_reach_tick_spec(view, i, u, j, finished, bearing, step).0.units.len() == view.units.len(),
{
    reveal(in_reach_tick_spec);
    let after = in_reach_tick_spec(view, i, u, j, finished, bearing, step).0;
    assert forall|k: int| 0 <= k < after.units.len() implies ((#[trigger] after.units[k]).lock matches Some(j)
        ==> j < after.units.len()) by {
        if k != i {
            assert(after.units[k].lock == view.units[k].lock);
        }
    }
}

proof fn lemma_moving_keeps_wf(view: FightView, i: int, u: FightUnit, j: int, finished: bool, avoid: AvoidanceVelocity)
    requires
        fight_wf(view),
        0 <= i < view.units.len(),
        0 <= j < view.units.len(),
    ensures
        fight_wf(moving_tick_spec(view, i, u, j, finished, avoid)),
        moving_tick_spec(view, i, u, j, finished, avoid).units.len() == view.units.len(),
{
    reveal(moving_tick_spec);
    let after = moving_tick_spec(view, i, u, j, finished, avoid);
    assert forall|k: int| 0 <= k < after.units.len() implies ((#[trigger] after.units[k]).lock matches Some(j)
        ==> j < after.units.len()) by {
        if k != i {
            assert(after.units[k] == view.units[k]);
        }
    }
}

/// The first `k` units' ticks keep every lock on a unit of the fight.
proof fn lemma_ticks_keep_wf(view: FightView, k: int, step: u64, avoidance: Seq<AvoidanceVelocity>)
    requires
        fight_wf(view),
        k <= view.units.len(),
    ensures
        fight_wf(ticks_spec(view, k, step, avoidance).0),
        ticks_spec(view, k, step, avoidance).0.units.len() == view.units.len(),
    decreases k,
{
    if k > 0 {
        lemma_ticks_keep_wf(view, k - 1, step, avoidance);
        let before = ticks_spec(view, k - 1, step, avoidance).0;
        lemma_tick_keeps_wf(before, view.units, k - 1, step, avoidance[k - 1]);
    }
}

impl Fight {
    /// Settles every interval when a side is alone; see [`settled_spec`].
    fn settle(&mut self)
        requires
            old(self).wf(),
        ensures
            final(self)@ == (FightView { units: settled_spec(old(self)@.units), ..old(self)@ }),
            final(self).wf(),
    {
        if !finished(&self.units) {
            return;
        }
        let ghost before = self.units@;
        let ghost whole = self@;
        let mut i: usize = 0;
        while i < self.units.len()
            invariant
                i <= self.units.len(),
                self.units.len() == before.len(),
                self.blue@ == whole.blue,
                self.red@ == whole.red,
                finished_spec(before),
                forall|k: int| 0 <= k < i ==> #[trigger] self.units@[k] == settled_spec(before)[k],
                forall|k: int| i <= k < self.units.len() ==> #[trigger] self.units@[k] == before[k],
            decreases self.units.len() - i,
        {
            let u = self.units[i];
            if u.life > 0 {
                let interval = native_time_units_to_steps(u.rules.interval_time_units);
                self.units.set(i, FightUnit { cycle: AttackCycle { current_attack_interval: interval, ..u.cycle }, ..u });
            }
            i = i + 1;
        }
        assert(self.units@ =~= settled_spec(before));
    }

    /// Stands every unit down; see [`stopped_spec`].
    fn stand_down(&mut self)
        ensures
            final(self)@ == (FightView { units: stopped_spec(old(self)@.units), ..old(self)@ }),
            final(self).wf(),
    {
        let ghost before = self.units@;
        let ghost whole = self@;
        let mut i: usize = 0;
        while i < self.units.len()
            invariant
                i <= self.units.len(),
                self.units.len() == before.len(),
                self.blue@ == whole.blue,
                self.red@ == whole.red,
                forall|k: int| 0 <= k < i ==> #[trigger] self.units@[k] == stopped_spec(before)[k],
                forall|k: int| i <= k < self.units.len() ==> #[trigger] self.units@[k] == before[k],
            decreases self.units.len() - i,
        {
            let u = self.units[i];
            self.units.set(
                i,
                FightUnit {
                    lock: None,
                    cycle: AttackCycle { motion: MotionState::Idle, phase: FightSkillPhase::Idle, ..u.cycle },
                    ..u
                },
            );
            i = i + 1;
        }
        assert(self.units@ =~= stopped_spec(before));
    }
}

impl Fight {
    /// Runs one tick, `step`, with the avoidance solver's answer for every
    /// unit, in the fight's order, and answers what the tick reported; see
    /// [`step_spec`]. An answer that is not one per unit is refused, and the
    /// fight is left as it was.
    pub fn step(&mut self, step: u64, avoidance: &Vec<AvoidanceVelocity>) -> (events: Result<Vec<Event>, Error>)
        requires
            old(self).wf(),
        ensures
            final(self).wf(),
            avoidance.len() != old(self).units.len() ==> events is Err && final(self)@ == old(self)@,
            avoidance.len() == old(self).units.len() ==> events is Ok && final(self)@ == step_spec(
                old(self)@,
                step,
                avoidance@,
            ).0 && events->Ok_0@ == step_spec(old(self)@, step, avoidance@).1,
    {
        if avoidance.len() != self.units.len() {
            return Err(Error::new(String::from_str("the avoidance answer is not one per unit")));
        }
        let ghost original = self@;
        self.settle();
        let decided = winner(&self.units).is_some();
        let snapshot = copied(&self.units);
        let ghost start = self@;
        let mut events: Vec<Event> = Vec::new();
        let mut i: usize = 0;
        while i < self.units.len()
            invariant
                i <= self.units.len(),
                self.units.len() == start.units.len(),
                avoidance.len() == start.units.len(),
                snapshot@ == start.units,
                self@ == ticks_spec(start, i as int, step, avoidance@).0,
                events@ == ticks_spec(start, i as int, step, avoidance@).1,
            decreases self.units.len() - i,
        {
            self.tick_unit(&snapshot, i, step, avoidance[i], &mut events);
            i = i + 1;
        }
        proof {
            lemma_ticks_keep_wf(start, self.units.len() as int, step, avoidance@);
        }
        if decided || finished(&self.units) {
            self.stand_down();
        }
        proof {
            reveal(step_spec);
        }
        Ok(events)
    }
}

/// What generating a formation's positions answers: the positions, or why
/// there are none; see [`positions_outcome`].
pub open spec fn positions_spec(placement: Placement, rules: UnitConfig, seed: i32) -> Result<Seq<(i64, i64)>, Seq<char>> {
    let width_raw = rules.formation.footprint.width as int;
    let depth_raw = rules.formation.footprint.depth as int;
    let slot_raw = rules.formation.slot_size as int;
    if width_raw % 1000 != 0 {
        Err("unit config field formation.footprint.width must use whole meters for layout placement"@)
    } else if depth_raw % 1000 != 0 {
        Err("unit config field formation.footprint.depth must use whole meters for layout placement"@)
    } else if slot_raw % 1000 != 0 {
        Err("unit config field formation.slot_size must use whole meters for member generation"@)
    } else {
        let (width, depth) = standing_footprint(rules, placement.rotated);
        match grid_spec(rules.formation.members as int, width, depth, slot_raw / 1000, rules.name@) {
            Err(message) => Err(message),
            Ok(grid) => Ok(
                Seq::new(
                    rules.formation.members as nat,
                    |m: int|
                        member_position(
                            m,
                            rules.formation.members as int,
                            grid,
                            depth,
                            placement,
                            seeded_spec(formation_seed_spec(seed, placement.formation_index)),
                        ),
                ),
            ),
        }
    }
}

/// A generation's answer as values: the positions, or the refusal's words.
pub open spec fn positions_answer(result: Result<Vec<(i64, i64)>, Error>) -> Result<Seq<(i64, i64)>, Seq<char>> {
    match result {
        Ok(positions) => Ok(positions@),
        Err(error) => Err(error.message@),
    }
}

proof fn lemma_positions_answer(placement: Placement, rules: UnitConfig, seed: i32, result: Result<Vec<(i64, i64)>, Error>)
    requires
        positions_outcome(placement, rules, seed, result),
    ensures
        positions_answer(result) == positions_spec(placement, rules, seed),
{
    if result is Ok {
        let stated = positions_spec(placement, rules, seed);
        assert(positions_answer(result)->Ok_0 =~= stated->Ok_0);
    }
}

/// A fresh attack cycle: idle, nothing waiting, free to attack at once.
pub open spec fn fresh_cycle() -> AttackCycle {
    AttackCycle {
        motion: MotionState::Idle,
        hold_fire: false,
        phase: FightSkillPhase::Idle,
        pending: None,
        backswing_finish_step: None,
        next_attack_step: 0,
        current_attack_interval: 0,
        attacked_wall: None,
    }
}

/// How many skills a unit's weapons make: one each for a group, else one.
pub open spec fn skill_count_spec(rules: UnitConfig) -> u32 {
    if rules.attack.weapons.mode is Group {
        rules.attack.weapons.indices.len() as u32
    } else {
        1
    }
}

/// The unit a placement puts `at` a position, as the fight reads it from
/// its description: facing the placement's way, turning a tick's share of
/// its rotation speed (none for a speed below zero), at full life, idle, with
/// no lock and no interval drawn yet.
pub open spec fn placed_unit(placement: Placement, rules: UnitConfig, at: (i64, i64)) -> FightUnit {
    FightUnit {
        team: placement.team,
        x_q32: at.0,
        z_q32: at.1,
        rotation_q32: mdeg_to_degrees_q32_spec(placement.rotation as int) as i64,
        radius: rules.collision_radius,
        domain: rules.domain,
        targets: rules.attack.targets,
        min_range: rules.attack.min_range,
        range: rules.attack.range,
        damage: rules.attack.base_damage,
        life: rules.max_life,
        rules: cycle_rules_spec(rules.attack, rules.has_body, rules.attack.timing.interval),
        backswing_time_units: rules.attack.timing.backswing,
        skill_count: skill_count_spec(rules),
        half_angle_q32: mdeg_to_degrees_q32_spec(rules.attack.attack_half_angle as int) as i64,
        turn_q32: max_int(
            q32_mul_spec(mdeg_to_degrees_q32_spec(rules.rotate_speed as int), NATIVE_LOGIC_DELTA_Q32 as int),
            0,
        ) as i64,
        cycle: fresh_cycle(),
        lock: None,
    }
}

/// Why the first `k` placements cannot be fought, if they cannot: the first
/// whose unit type has no description, or attacks by a path other than a
/// blow.
pub open spec fn unsupported_spec(placements: Seq<Placement>, units: UnitConfigs, k: int) -> Option<Seq<char>>
    decreases k,
{
    if k <= 0 {
        None
    } else {
        match unsupported_spec(placements, units, k - 1) {
            Some(message) => Some(message),
            None => {
                let placement = placements[k - 1];
                match config_named(units, placement.name@) {
                    None => Some("unit type "@ + debug_quoted(placement.name@) + " has no configuration"@),
                    Some(rules) => if rules.attack.path is Direct {
                        None
                    } else {
                        Some("unit type "@ + debug_quoted(placement.name@) + " attacks by a path this fight does not carry"@)
                    },
                }
            },
        }
    }
}

/// The units of the first `k` placements, formation by formation and each
/// member in the order it is created, or why one formation cannot be placed.
pub open spec fn generated_spec(placements: Seq<Placement>, units: UnitConfigs, seed: i32, k: int) -> Result<
    Seq<FightUnit>,
    Seq<char>,
>
    decreases k,
{
    if k <= 0 {
        Ok(Seq::empty())
    } else {
        match generated_spec(placements, units, seed, k - 1) {
            Err(message) => Err(message),
            Ok(before) => {
                let placement = placements[k - 1];
                let rules = config_named(units, placement.name@)->0;
                match positions_spec(placement, rules, seed) {
                    Err(message) => Err(message),
                    Ok(at) => Ok(before + at.map_values(|position: (i64, i64)| placed_unit(placement, rules, position))),
                }
            },
        }
    }
}

/// A unit's place in whole space units, rounded.
pub open spec fn place_of(u: FightUnit) -> (int, int) {
    (q32_to_space_rounded_spec(u.x_q32 as int), q32_to_space_rounded_spec(u.z_q32 as int))
}

/// Whether `a` comes before `b` in the fight's order: by side, then by its
/// place along, then across.
pub open spec fn key_before(a: FightUnit, b: FightUnit) -> bool {
    ||| a.team < b.team
    ||| a.team == b.team && place_of(a).1 < place_of(b).1
    ||| a.team == b.team && place_of(a).1 == place_of(b).1 && place_of(a).0 < place_of(b).0
}

/// Where `u` goes in the ordered `s`, looking from `p`: before the first unit
/// it comes before, after those it ties with.
pub open spec fn insert_position(s: Seq<FightUnit>, u: FightUnit, p: int) -> int
    decreases s.len() - p,
{
    if p >= s.len() {
        s.len() as int
    } else if key_before(u, s[p]) {
        p
    } else {
        insert_position(s, u, p + 1)
    }
}

/// `s` in the fight's order, keeping the order of units that tie.
pub open spec fn ordered_spec(s: Seq<FightUnit>) -> Seq<FightUnit>
    decreases s.len(),
{
    if s.len() == 0 {
        s
    } else {
        let before = ordered_spec(s.drop_last());
        before.insert(insert_position(before, s.last(), 0), s.last())
    }
}

/// Whether two neighbours of the same side stand on the same place.
pub open spec fn has_shared_place(s: Seq<FightUnit>) -> bool {
    exists|i: int| 0 <= i && i + 1 < s.len() && #[trigger] s[i].team == s[i + 1].team && place_of(s[i]) == place_of(
        s[i + 1],
    )
}

/// The stream after `count` more draws within `range`.
pub open spec fn draws_spec(state: RandomState, range: int, count: nat) -> RandomState
    decreases count,
{
    if count == 0 {
        state
    } else {
        inclusive_draw_spec(draws_spec(state, range, (count - 1) as nat), (1 - range) as i64, (range - 1) as i64).1
    }
}

/// The interval a unit starts with, and its side's stream after: with an
/// offset, one draw within it per skill, the first one staggering the
/// description's interval (at least a tick); with none, the description's
/// interval, at least a tick, and no draw.
pub open spec fn first_interval_spec(u: FightUnit, state: RandomState) -> (u64, RandomState) {
    let interval = native_time_units_to_steps_spec(u.rules.interval_time_units as int);
    let offset = native_time_units_to_steps_spec(u.rules.offset_time_units as int);
    if offset > 0 {
        if u.skill_count == 0 {
            (u.cycle.current_attack_interval, state)
        } else {
            let range = min_int(offset, i32::MAX as int);
            let (sample, after) = inclusive_draw_spec(state, (1 - range) as i64, (range - 1) as i64);
            (
                max_int(clamp_i64(min_int(interval, i64::MAX as int) + sample), 1) as u64,
                draws_spec(after, range, (u.skill_count - 1) as nat),
            )
        }
    } else {
        (max_int(interval, 1) as u64, state)
    }
}

/// The first `k` units with their intervals drawn, each from its side's
/// stream, and the streams after.
pub open spec fn drawn_spec(s: Seq<FightUnit>, blue: RandomState, red: RandomState, k: int) -> (
    Seq<FightUnit>,
    RandomState,
    RandomState,
)
    decreases k,
{
    if k <= 0 {
        (s, blue, red)
    } else {
        let (units, b, r) = drawn_spec(s, blue, red, k - 1);
        let u = units[k - 1];
        let state = if u.team == 0 { b } else { r };
        let (interval, after) = first_interval_spec(u, state);
        let units = units.update(k - 1, FightUnit { cycle: AttackCycle { current_attack_interval: interval, ..u.cycle }, ..u });
        if u.team == 0 {
            (units, after, r)
        } else {
            (units, b, after)
        }
    }
}

/// The fight a layout starts, or why it cannot: the placements checked,
/// their units generated, put in the fight's order, refused when two of a
/// side stand on one place, and given their first intervals from the sides'
/// streams, seeded by the round.
pub open spec fn start_spec(layout: CompiledLayout, units: UnitConfigs, seed: i32) -> Result<FightView, Seq<char>> {
    let placements = layout.placements@;
    match unsupported_spec(placements, units, placements.len() as int) {
        Some(message) => Err(message),
        None => match generated_spec(placements, units, seed, placements.len() as int) {
            Err(message) => Err(message),
            Ok(generated) => {
                let ordered = ordered_spec(generated);
                if has_shared_place(ordered) {
                    Err("two initial same-team units have equal world coordinates"@)
                } else {
                    let (drawn, blue, red) = drawn_spec(
                        ordered,
                        seeded_spec(team_stream_seed_spec(layout.round, 0)),
                        seeded_spec(team_stream_seed_spec(layout.round, 1)),
                        ordered.len() as int,
                    );
                    Ok(FightView { units: drawn, blue, red })
                }
            },
        },
    }
}

/// The description that a lookup found by name is the one the descriptions
/// hold under that name.
proof fn lemma_config_named(units: UnitConfigs, config: UnitConfig, name: Seq<char>)
    requires
        units.wf(),
        exists|i: int| 0 <= i < units.units.len() && units.units[i] == config && config.name@ == name,
    ensures
        config_named(units, name) == Some(config),
{
    let i = choose|i: int| 0 <= i < units.units.len() && units.units[i] == config && config.name@ == name;
    let j = choose|j: int| 0 <= j < units.units.len() && units.units[j].name@ == name;
    if i != j {
        if i < j {
            assert(units.units[i].name@ != units.units[j].name@);
        } else {
            assert(units.units[j].name@ != units.units[i].name@);
        }
    }
}

/// Placements that pass the checks all have a description.
proof fn lemma_supported_described(placements: Seq<Placement>, units: UnitConfigs, k: int, j: int)
    requires
        unsupported_spec(placements, units, k) is None,
        0 <= j < k,
    ensures
        config_named(units, placements[j].name@) is Some,
        config_named(units, placements[j].name@)->0.attack.path is Direct,
    decreases k,
{
    if j < k - 1 {
        lemma_supported_described(placements, units, k - 1, j);
    }
}

/// Checks every placement in order: its unit type must have a description,
/// and attack with blows; see [`unsupported_spec`].
fn check_placements(placements: &Vec<Placement>, units: &UnitConfigs) -> (result: Result<(), Error>)
    requires
        units.wf(),
    ensures
        match unsupported_spec(placements@, *units, placements.len() as int) {
            Some(message) => result matches Err(error) && error.message@ == message,
            None => result is Ok,
        },
{
    let mut k: usize = 0;
    while k < placements.len()
        invariant
            k <= placements.len(),
            units.wf(),
            unsupported_spec(placements@, *units, k as int) is None,
        decreases placements.len() - k,
    {
        let placement = &placements[k];
        match units.get(placement.name.as_str()) {
            None => {
                let quoted = debug_text(placement.name.as_str());
                let message = join3("unit type ", quoted.as_str(), " has no configuration");
                proof {
                    assert(config_named(*units, placement.name@) is None);
                    lemma_unsupported_stays(placements@, *units, k as int + 1, placements.len() as int);
                }
                return Err(Error::new(message));
            },
            Some(rules) => {
                proof {
                    lemma_config_named(*units, *rules, placement.name@);
                }
                let direct = match rules.attack.path {
                    AttackPath::Direct => true,
                    _ => false,
                };
                if !direct {
                    let quoted = debug_text(placement.name.as_str());
                    let message = join3("unit type ", quoted.as_str(), " attacks by a path this fight does not carry");
                    proof {
                        lemma_unsupported_stays(placements@, *units, k as int + 1, placements.len() as int);
                    }
                    return Err(Error::new(message));
                }
            },
        }
        k = k + 1;
    }
    Ok(())
}

/// Once a placement is refused, the first refusal stands for every longer
/// prefix.
proof fn lemma_unsupported_stays(placements: Seq<Placement>, units: UnitConfigs, k: int, n: int)
    requires
        1 <= k <= n,
        unsupported_spec(placements, units, k) is Some,
    ensures
        unsupported_spec(placements, units, n) == unsupported_spec(placements, units, k),
    decreases n - k,
{
    if n > k {
        lemma_unsupported_stays(placements, units, k, n - 1);
    }
}

/// The unit a placement puts at `at`; see [`placed_unit`].
fn place(placement: &Placement, rules: &UnitConfig, at: (i64, i64)) -> (unit: FightUnit)
    ensures
        unit == placed_unit(*placement, *rules, at),
{
    let skill_count = match rules.attack.weapons.mode {
        WeaponMode::Group => rules.attack.weapons.indices.len() as u32,
        _ => 1,
    };
    FightUnit {
        team: placement.team,
        x_q32: at.0,
        z_q32: at.1,
        rotation_q32: mdeg_to_degrees_q32(placement.rotation),
        radius: rules.collision_radius,
        domain: rules.domain,
        targets: rules.attack.targets,
        min_range: rules.attack.min_range,
        range: rules.attack.range,
        damage: rules.attack.base_damage,
        life: rules.max_life,
        rules: CycleRules::of(&rules.attack, rules.has_body, rules.attack.timing.interval),
        backswing_time_units: rules.attack.timing.backswing,
        skill_count,
        half_angle_q32: mdeg_to_degrees_q32(rules.attack.attack_half_angle),
        turn_q32: {
            let turn = q32_mul(mdeg_to_degrees_q32(rules.rotate_speed), NATIVE_LOGIC_DELTA_Q32);
            if turn < 0 {
                0
            } else {
                turn
            }
        },
        cycle: AttackCycle {
            motion: MotionState::Idle,
            hold_fire: false,
            phase: FightSkillPhase::Idle,
            pending: None,
            backswing_finish_step: None,
            next_attack_step: 0,
            current_attack_interval: 0,
            attacked_wall: None,
        },
        lock: None,
    }
}

/// Once a formation cannot be placed, that refusal stands for every longer
/// prefix.
proof fn lemma_generated_stays(placements: Seq<Placement>, units: UnitConfigs, seed: i32, k: int, n: int)
    requires
        1 <= k <= n,
        generated_spec(placements, units, seed, k) is Err,
    ensures
        generated_spec(placements, units, seed, n) == generated_spec(placements, units, seed, k),
    decreases n - k,
{
    if n > k {
        lemma_generated_stays(placements, units, seed, k, n - 1);
    }
}

/// Every placement's units, in order; see [`generated_spec`].
fn generate(placements: &Vec<Placement>, units: &UnitConfigs, seed: i32) -> (result: Result<Vec<FightUnit>, Error>)
    requires
        units.wf(),
        unsupported_spec(placements@, *units, placements.len() as int) is None,
        forall|j: int|
            0 <= j < placements.len() ==> positions_computable(
                #[trigger] placements@[j],
                config_named(*units, placements@[j].name@)->0,
            ),
    ensures
        match generated_spec(placements@, *units, seed, placements.len() as int) {
            Ok(generated) => result matches Ok(out) && out@ == generated,
            Err(message) => result matches Err(error) && error.message@ == message,
        },
{
    let mut out: Vec<FightUnit> = Vec::new();
    let mut k: usize = 0;
    while k < placements.len()
        invariant
            k <= placements.len(),
            units.wf(),
            unsupported_spec(placements@, *units, placements.len() as int) is None,
            forall|j: int|
                0 <= j < placements.len() ==> positions_computable(
                    #[trigger] placements@[j],
                    config_named(*units, placements@[j].name@)->0,
                ),
            generated_spec(placements@, *units, seed, k as int) == Ok::<Seq<FightUnit>, Seq<char>>(out@),
        decreases placements.len() - k,
    {
        let placement = &placements[k];
        proof {
            lemma_supported_described(placements@, *units, placements.len() as int, k as int);
        }
        let found = units.get(placement.name.as_str());
        proof {
            if found is None {
                assert(config_named(*units, placement.name@) is None);
            }
        }
        let rules = found.unwrap();
        proof {
            lemma_config_named(*units, *rules, placement.name@);
            assert(positions_computable(placements@[k as int], config_named(*units, placements@[k as int].name@)->0));
        }
        let positions = generate_formation_positions(placement, rules, seed);
        proof {
            lemma_positions_answer(*placement, *rules, seed, positions);
        }
        match positions {
            Err(error) => {
                proof {
                    lemma_generated_stays(placements@, *units, seed, k as int + 1, placements.len() as int);
                }
                return Err(error);
            },
            Ok(at) => {
                let ghost before = out@;
                let mut m: usize = 0;
                while m < at.len()
                    invariant
                        m <= at.len(),
                        out@ == before + at@.take(m as int).map_values(
                            |position: (i64, i64)| placed_unit(*placement, *rules, position),
                        ),
                    decreases at.len() - m,
                {
                    let unit = place(placement, rules, at[m]);
                    out.push(unit);
                    proof {
                        assert(at@.take(m as int + 1) =~= at@.take(m as int).push(at@[m as int]));
                        assert(out@ =~= before + at@.take(m as int + 1).map_values(
                            |position: (i64, i64)| placed_unit(*placement, *rules, position),
                        ));
                    }
                    m = m + 1;
                }
                proof {
                    assert(at@.take(at.len() as int) =~= at@);
                }
            },
        }
        k = k + 1;
    }
    Ok(out)
}

/// Whether `a` comes before `b` in the fight's order; see [`key_before`].
fn comes_before(a: &FightUnit, b: &FightUnit) -> (before: bool)
    ensures
        before == key_before(*a, *b),
{
    let ax = q32_to_space_rounded(a.x_q32);
    let az = q32_to_space_rounded(a.z_q32);
    let bx = q32_to_space_rounded(b.x_q32);
    let bz = q32_to_space_rounded(b.z_q32);
    a.team < b.team || (a.team == b.team && az < bz) || (a.team == b.team && az == bz && ax < bx)
}

/// The units in the fight's order, ties kept in the order given; see
/// [`ordered_spec`].
fn order(units: &Vec<FightUnit>) -> (out: Vec<FightUnit>)
    ensures
        out@ == ordered_spec(units@),
{
    let mut out: Vec<FightUnit> = Vec::new();
    let mut k: usize = 0;
    while k < units.len()
        invariant
            k <= units.len(),
            out@ == ordered_spec(units@.take(k as int)),
        decreases units.len() - k,
    {
        let u = units[k];
        let mut p: usize = 0;
        let mut found = false;
        while !found && p < out.len()
            invariant
                p <= out.len(),
                insert_position(out@, u, p as int) == insert_position(out@, u, 0),
                found ==> p < out.len() && key_before(u, out@[p as int]),
            decreases out.len() - p + if found { 0int } else { 1int },
        {
            if comes_before(&u, &out[p]) {
                found = true;
            } else {
                p = p + 1;
            }
        }
        proof {
            assert(insert_position(out@, u, p as int) == p);
            let next = units@.take(k as int + 1);
            assert(next.drop_last() =~= units@.take(k as int));
            assert(next.last() == u);
        }
        out.insert(p, u);
        k = k + 1;
    }
    proof {
        assert(units@.take(units.len() as int) =~= units@);
    }
    out
}

/// Whether two neighbours of a side stand on one place; see
/// [`has_shared_place`].
fn shares_place(units: &Vec<FightUnit>) -> (shared: bool)
    ensures
        shared == has_shared_place(units@),
{
    let mut i: usize = 0;
    while i < units.len() && i + 1 < units.len()
        invariant
            forall|j: int|
                0 <= j < i && j + 1 < units.len() ==> !(#[trigger] units@[j].team == units@[j + 1].team && place_of(
                    units@[j],
                ) == place_of(units@[j + 1])),
        decreases units.len() - i,
    {
        let a = units[i];
        let b = units[i + 1];
        if a.team == b.team && q32_to_space_rounded(a.x_q32) == q32_to_space_rounded(b.x_q32)
            && q32_to_space_rounded(a.z_q32) == q32_to_space_rounded(b.z_q32) {
            return true;
        }
        i = i + 1;
    }
    false
}

/// The interval a unit starts with, drawn from its side's stream; see
/// [`first_interval_spec`].
fn draw_interval(u: &FightUnit, random: &mut GrRandom) -> (interval: u64)
    ensures
        (interval, final(random)@) == first_interval_spec(*u, old(random)@),
{
    let interval = native_time_units_to_steps(u.rules.interval_time_units);
    let offset = native_time_units_to_steps(u.rules.offset_time_units);
    if offset == 0 {
        return if interval < 1 {
            1
        } else {
            interval
        };
    }
    if u.skill_count == 0 {
        return u.cycle.current_attack_interval;
    }
    let range: i32 = if offset > 2147483647u64 {
        2147483647i32
    } else {
        offset as i32
    };
    let sample = random.next_in_range(range);
    let ghost after = random@;
    let base: i64 = if interval > 9223372036854775807u64 {
        9223372036854775807i64
    } else {
        interval as i64
    };
    let staggered = saturating_add(base, sample as i64);
    let result: u64 = if staggered < 1 {
        1
    } else {
        staggered as u64
    };
    let mut drawn: u32 = 1;
    while drawn < u.skill_count
        invariant
            1 <= drawn <= u.skill_count,
            range > 0,
            random@ == draws_spec(after, range as int, (drawn - 1) as nat),
        decreases u.skill_count - drawn,
    {
        let _ = random.next_in_range(range);
        drawn = drawn + 1;
    }
    result
}

/// Generated units hold no lock.
proof fn lemma_generated_unlocked(placements: Seq<Placement>, units: UnitConfigs, seed: i32, k: int)
    ensures
        generated_spec(placements, units, seed, k) matches Ok(generated) ==> unlocked(generated),
    decreases k,
{
    if k > 0 {
        lemma_generated_unlocked(placements, units, seed, k - 1);
        if let Ok(generated) = generated_spec(placements, units, seed, k) {
            let before = generated_spec(placements, units, seed, k - 1)->Ok_0;
            assert forall|i: int| 0 <= i < generated.len() implies (#[trigger] generated[i]).lock is None by {
                if i >= before.len() {
                    assert(generated[i] == generated.subrange(before.len() as int, generated.len() as int)[i - before.len()]);
                }
            }
        }
    }
}

/// Putting units in order locks none of them.
proof fn lemma_ordered_unlocked(s: Seq<FightUnit>)
    requires
        unlocked(s),
    ensures
        unlocked(ordered_spec(s)),
        ordered_spec(s).len() == s.len(),
    decreases s.len(),
{
    if s.len() > 0 {
        let rest = s.drop_last();
        assert(unlocked(rest)) by {
            assert forall|i: int| 0 <= i < rest.len() implies (#[trigger] rest[i]).lock is None by {
                assert(rest[i] == s[i]);
            }
        }
        lemma_ordered_unlocked(rest);
        let before = ordered_spec(rest);
        let p = insert_position(before, s.last(), 0);
        lemma_insert_position_in_range(before, s.last(), 0);
        let after = before.insert(p, s.last());
        assert forall|i: int| 0 <= i < after.len() implies (#[trigger] after[i]).lock is None by {
            if i < p {
                assert(after[i] == before[i]);
            } else if i > p {
                assert(after[i] == before[i - 1]);
            }
        }
    }
}

proof fn lemma_insert_position_in_range(s: Seq<FightUnit>, u: FightUnit, p: int)
    requires
        0 <= p,
    ensures
        p <= s.len() ==> p <= insert_position(s, u, p) <= s.len(),
        p > s.len() ==> insert_position(s, u, p) == s.len(),
    decreases s.len() - p,
{
    if p < s.len() {
        lemma_insert_position_in_range(s, u, p + 1);
    }
}

/// Drawing intervals changes no lock, and no unit's place in the order.
proof fn lemma_drawn_keeps_locks(s: Seq<FightUnit>, blue: RandomState, red: RandomState, k: int)
    requires
        unlocked(s),
        k <= s.len(),
    ensures
        unlocked(drawn_spec(s, blue, red, k).0),
        drawn_spec(s, blue, red, k).0.len() == s.len(),
    decreases k,
{
    if k > 0 {
        lemma_drawn_keeps_locks(s, blue, red, k - 1);
    }
}

/// The fight a layout starts holds no lock.
proof fn lemma_fresh_locks(generated: Seq<FightUnit>, ordered: Seq<FightUnit>, blue: RandomState, red: RandomState)
    requires
        unlocked(generated),
        ordered == ordered_spec(generated),
    ensures
        fight_wf(
            FightView { units: drawn_spec(ordered, blue, red, ordered.len() as int).0, blue, red },
        ),
{
    lemma_ordered_unlocked(generated);
    lemma_drawn_keeps_locks(ordered, blue, red, ordered.len() as int);
}

impl Fight {
    /// The fight a compiled layout starts with its seed; see [`start_spec`].
    /// Refused when a unit type has no description or does not attack with
    /// blows, when a formation cannot be placed, and when two units of a side
    /// start on one place.
    pub fn new(layout: &CompiledLayout, units: &UnitConfigs, seed: i32) -> (fight: Result<Fight, Error>)
        requires
            units.wf(),
            forall|j: int|
                0 <= j < layout.placements.len() && (#[trigger] config_named(*units, layout.placements@[j].name@)) is Some
                    ==> positions_computable(layout.placements@[j], config_named(*units, layout.placements@[j].name@)->0),
        ensures
            match start_spec(*layout, *units, seed) {
                Ok(start) => fight matches Ok(f) && f@ == start && f.wf(),
                Err(message) => fight matches Err(error) && error.message@ == message,
            },
    {
        check_placements(&layout.placements, units)?;
        proof {
            assert forall|j: int| 0 <= j < layout.placements.len() implies positions_computable(
                #[trigger] layout.placements@[j],
                config_named(*units, layout.placements@[j].name@)->0,
            ) by {
                lemma_supported_described(layout.placements@, *units, layout.placements.len() as int, j);
            }
        }
        let generated = generate(&layout.placements, units, seed)?;
        let mut ordered = order(&generated);
        if shares_place(&ordered) {
            return Err(Error::new(String::from_str("two initial same-team units have equal world coordinates")));
        }
        let mut blue = GrRandom::new(team_stream_seed(layout.round, 0));
        let mut red = GrRandom::new(team_stream_seed(layout.round, 1));
        let ghost start = ordered@;
        let ghost blue0 = blue@;
        let ghost red0 = red@;
        let mut k: usize = 0;
        while k < ordered.len()
            invariant
                k <= ordered.len(),
                ordered.len() == start.len(),
                (ordered@, blue@, red@) == drawn_spec(start, blue0, red0, k as int),
            decreases ordered.len() - k,
        {
            let u = ordered[k];
            let interval = if u.team == 0 {
                draw_interval(&u, &mut blue)
            } else {
                draw_interval(&u, &mut red)
            };
            ordered.set(k, FightUnit { cycle: AttackCycle { current_attack_interval: interval, ..u.cycle }, ..u });
            k = k + 1;
        }
        let fight = Fight { units: ordered, blue, red };
        proof {
            lemma_generated_unlocked(layout.placements@, *units, seed, layout.placements.len() as int);
            lemma_fresh_locks(generated@, start, blue0, red0);
        }
        Ok(fight)
    }
}

/// Whether fewer than two sides have a unit left alive.
pub open spec fn finished_spec(units: Seq<FightUnit>) -> bool {
    !exists|i: int, j: int|
        0 <= i < units.len() && 0 <= j < units.len() && #[trigger] units[i].life > 0 && #[trigger] units[j].life > 0
            && units[i].team != units[j].team
}

/// Whether a side has a unit left alive.
pub open spec fn side_alive(units: Seq<FightUnit>, team: u32) -> bool {
    exists|i: int| 0 <= i < units.len() && #[trigger] units[i].team == team && units[i].life > 0
}

/// The side that won: blue with blue alone left alive, red with red alone.
pub open spec fn winner_spec(units: Seq<FightUnit>) -> Option<u32> {
    if side_alive(units, 0) && !side_alive(units, 1) {
        Some(0)
    } else if side_alive(units, 1) && !side_alive(units, 0) {
        Some(1)
    } else {
        None
    }
}

/// A run from tick `steps` on, with what it has reported so far: at the
/// time limit it ends there; otherwise the tick runs with the solver's
/// answer for it, and the run ends once fewer than two sides are left, every
/// interval settled. A run
/// whose answers run out, or with an answer not one per unit, is refused.
#[verifier::opaque]
pub open spec fn run_loop_spec(
    view: FightView,
    events: Seq<Event>,
    steps: int,
    answers: Seq<Vec<AvoidanceVelocity>>,
) -> Result<(FightView, Seq<Event>, int, EndReason), Seq<char>>
    decreases max_steps_spec() - steps,
{
    if steps >= max_steps_spec() || steps < 0 {
        Ok((view, events, steps, EndReason::ForcedTimeLimit))
    } else if steps >= answers.len() {
        Err("the avoidance answers ran out before the fight ended"@)
    } else if answers[steps].len() != view.units.len() {
        Err("the avoidance answer is not one per unit"@)
    } else {
        let (next, more) = step_spec(view, steps as u64, answers[steps]@);
        if finished_spec(next.units) {
            Ok((FightView { units: settled_spec(next.units), ..next }, events + more, steps + 1, EndReason::NaturalModuleDrain))
        } else {
            run_loop_spec(next, events + more, steps + 1, answers)
        }
    }
}

/// One level of [`run_loop_spec`], read off.
proof fn lemma_run_loop_unfolds(view: FightView, events: Seq<Event>, steps: int, answers: Seq<Vec<AvoidanceVelocity>>)
    ensures
        run_loop_spec(view, events, steps, answers) == if steps >= max_steps_spec() || steps < 0 {
            Ok((view, events, steps, EndReason::ForcedTimeLimit))
        } else if steps >= answers.len() {
            Err("the avoidance answers ran out before the fight ended"@)
        } else if answers[steps].len() != view.units.len() {
            Err("the avoidance answer is not one per unit"@)
        } else {
            let (next, more) = step_spec(view, steps as u64, answers[steps]@);
            if finished_spec(next.units) {
                Ok((FightView { units: settled_spec(next.units), ..next }, events + more, steps + 1, EndReason::NaturalModuleDrain))
            } else {
                run_loop_spec(next, events + more, steps + 1, answers)
            }
        },
{
    reveal_with_fuel(run_loop_spec, 2);
}

/// A whole run of a layout with its seed and the solver's answers, tick by
/// tick: the fight it starts, run from the first tick.
pub open spec fn run_spec(layout: CompiledLayout, units: UnitConfigs, seed: i32, answers: Seq<Vec<AvoidanceVelocity>>) -> Result<
    (FightView, Seq<Event>, int, EndReason),
    Seq<char>,
> {
    match start_spec(layout, units, seed) {
        Err(message) => Err(message),
        Ok(start) => run_loop_spec(start, Seq::empty(), 0, answers),
    }
}

/// How a run ended: the units as they stand, everything the ticks reported,
/// how many ticks ran, why it ended and which side won.
pub struct RunOutcome {
    pub units: Vec<FightUnit>,
    pub events: Vec<Event>,
    pub steps: u64,
    pub end: EndReason,
    pub winner: Option<u32>,
}

/// Whether fewer than two sides are left; see [`finished_spec`].
fn finished(units: &Vec<FightUnit>) -> (done: bool)
    ensures
        done == finished_spec(units@),
{
    let mut first: usize = 0;
    let mut found = false;
    while !found && first < units.len()
        invariant
            first <= units.len(),
            forall|k: int| 0 <= k < first ==> #[trigger] units@[k].life <= 0,
            found ==> first < units.len() && units@[first as int].life > 0,
        decreases units.len() - first + if found { 0int } else { 1int },
    {
        if units[first].life > 0 {
            found = true;
        } else {
            first = first + 1;
        }
    }
    if first >= units.len() {
        return true;
    }
    let team = units[first].team;
    let mut k: usize = 0;
    while k < units.len()
        invariant
            first < units.len(),
            units@[first as int].life > 0,
            units@[first as int].team == team,
            k <= units.len(),
            forall|m: int| 0 <= m < k && #[trigger] units@[m].life > 0 ==> units@[m].team == team,
        decreases units.len() - k,
    {
        if units[k].life > 0 && units[k].team != team {
            assert(units@[first as int].life > 0 && units@[k as int].life > 0);
            return false;
        }
        k = k + 1;
    }
    true
}

/// The side that won; see [`winner_spec`].
fn winner(units: &Vec<FightUnit>) -> (side: Option<u32>)
    ensures
        side == winner_spec(units@),
{
    let mut blue = false;
    let mut red = false;
    let mut k: usize = 0;
    while k < units.len()
        invariant
            k <= units.len(),
            blue == exists|i: int| 0 <= i < k && #[trigger] units@[i].team == 0 && units@[i].life > 0,
            red == exists|i: int| 0 <= i < k && #[trigger] units@[i].team == 1 && units@[i].life > 0,
        decreases units.len() - k,
    {
        if units[k].life > 0 {
            if units[k].team == 0 {
                blue = true;
            } else if units[k].team == 1 {
                red = true;
            }
        }
        k = k + 1;
    }
    if blue && !red {
        Some(0)
    } else if red && !blue {
        Some(1)
    } else {
        None
    }
}

/// Runs a layout with its seed to its end, tick by tick, with the solver's
/// answers one tick after another; see [`run_spec`].
pub fn run(layout: &CompiledLayout, units: &UnitConfigs, seed: i32, answers: &Vec<Vec<AvoidanceVelocity>>) -> (outcome:
    Result<RunOutcome, Error>)
    requires
        units.wf(),
        forall|j: int|
            0 <= j < layout.placements.len() && (#[trigger] config_named(*units, layout.placements@[j].name@)) is Some
                ==> positions_computable(layout.placements@[j], config_named(*units, layout.placements@[j].name@)->0),
    ensures
        match run_spec(*layout, *units, seed, answers@) {
            Ok(run) => outcome matches Ok(o) && o.units@ == run.0.units && o.events@ == run.1 && o.steps == run.2
                && o.end == run.3 && o.winner == winner_spec(run.0.units),
            Err(message) => outcome matches Err(error) && error.message@ == message,
        },
{
    let mut fight = Fight::new(layout, units, seed)?;
    let ghost start = fight@;
    assert(run_spec(*layout, *units, seed, answers@) == run_loop_spec(start, Seq::empty(), 0, answers@));
    let mut events: Vec<Event> = Vec::new();
    let mut steps: u64 = 0;
    let limit = max_steps();
    loop
        invariant
            fight.wf(),
            limit == max_steps_spec(),
            steps <= limit,
            run_loop_spec(fight@, events@, steps as int, answers@) == run_spec(*layout, *units, seed, answers@),
        decreases limit - steps,
    {
        proof {
            lemma_run_loop_unfolds(fight@, events@, steps as int, answers@);
        }
        if steps >= limit {
            let side = winner(&fight.units);
            return Ok(RunOutcome { units: fight.units, events, steps, end: EndReason::ForcedTimeLimit, winner: side });
        }
        if steps as usize >= answers.len() {
            return Err(Error::new(String::from_str("the avoidance answers ran out before the fight ended")));
        }
        let answer = &answers[steps as usize];
        if answer.len() != fight.units.len() {
            return Err(Error::new(String::from_str("the avoidance answer is not one per unit")));
        }
        let mut more = match fight.step(steps, answer) {
            Ok(more) => more,
            Err(error) => {
                return Err(error);
            },
        };
        events.append(&mut more);
        steps = steps + 1;
        if finished(&fight.units) {
            fight.settle();
            let side = winner(&fight.units);
            return Ok(RunOutcome { units: fight.units, events, steps, end: EndReason::NaturalModuleDrain, winner: side });
        }
    }
}

/// A run never goes past the time limit: however it ends, it has run no
/// more ticks than a fight may last.
pub proof fn lemma_a_fight_ends_by_the_time_limit(
    layout: CompiledLayout,
    units: UnitConfigs,
    seed: i32,
    answers: Seq<Vec<AvoidanceVelocity>>,
)
    ensures
        run_spec(layout, units, seed, answers) matches Ok(run) ==> 0 <= run.2 <= max_steps_spec(),
{
    if let Ok(start) = start_spec(layout, units, seed) {
        lemma_run_loop_bounded(start, Seq::empty(), 0, answers);
    }
}

proof fn lemma_run_loop_bounded(view: FightView, events: Seq<Event>, steps: int, answers: Seq<Vec<AvoidanceVelocity>>)
    requires
        0 <= steps,
    ensures
        run_loop_spec(view, events, steps, answers) matches Ok(run) ==> run.2 == steps && steps >= max_steps_spec()
            || steps < run.2 <= max_steps_spec(),
    decreases max_steps_spec() - steps,
{
    lemma_run_loop_unfolds(view, events, steps, answers);
    if steps < max_steps_spec() && steps < answers.len() && answers[steps].len() == view.units.len() {
        let (next, more) = step_spec(view, steps as u64, answers[steps]@);
        if !finished_spec(next.units) {
            lemma_run_loop_bounded(next, events + more, steps + 1, answers);
        }
    }
}

/// A blow never heals: when no unit deals negative damage, a tick leaves
/// every unit with no more life than it had.
pub proof fn lemma_a_tick_never_raises_life(view: FightView, step: u64, avoidance: Seq<AvoidanceVelocity>)
    requires
        forall|i: int| 0 <= i < view.units.len() ==> (#[trigger] view.units[i]).damage >= 0,
    ensures
        step_spec(view, step, avoidance).0.units.len() == view.units.len(),
        forall|i: int|
            0 <= i < view.units.len() ==> #[trigger] step_spec(view, step, avoidance).0.units[i].life <= view.units[i].life,
{
    reveal(step_spec);
    let settled = FightView { units: settled_spec(view.units), ..view };
    assert forall|i: int| 0 <= i < settled.units.len() implies (#[trigger] settled.units[i]).damage >= 0
        && settled.units[i].life == view.units[i].life && settled.units[i].damage == view.units[i].damage by {}
    lemma_ticks_never_raise_life(settled, settled.units.len() as int, step, avoidance);
}

proof fn lemma_ticks_never_raise_life(view: FightView, k: int, step: u64, avoidance: Seq<AvoidanceVelocity>)
    requires
        forall|i: int| 0 <= i < view.units.len() ==> (#[trigger] view.units[i]).damage >= 0,
        k <= view.units.len(),
    ensures
        ticks_spec(view, k, step, avoidance).0.units.len() == view.units.len(),
        forall|i: int| 0 <= i < view.units.len() ==> (#[trigger] ticks_spec(view, k, step, avoidance).0.units[i]).damage
            == view.units[i].damage,
        forall|i: int|
            0 <= i < view.units.len() ==> #[trigger] ticks_spec(view, k, step, avoidance).0.units[i].life
                <= view.units[i].life,
    decreases k,
{
    if k > 0 {
        lemma_ticks_never_raise_life(view, k - 1, step, avoidance);
        let before = ticks_spec(view, k - 1, step, avoidance).0;
        lemma_tick_never_raises_life(before, view.units, k - 1, step, avoidance[k - 1]);
        let after = ticks_spec(view, k, step, avoidance).0;
        assert forall|i: int| 0 <= i < view.units.len() implies #[trigger] after.units[i].life <= view.units[i].life by {
            assert(after.units[i].life <= before.units[i].life);
        }
    }
}

proof fn lemma_tick_never_raises_life(view: FightView, snapshot: Seq<FightUnit>, i: int, step: u64, avoid: AvoidanceVelocity)
    requires
        forall|k: int| 0 <= k < view.units.len() ==> (#[trigger] view.units[k]).damage >= 0,
        0 <= i < view.units.len(),
        snapshot.len() == view.units.len(),
    ensures
        unit_tick_spec(view, snapshot, i, step, avoid).0.units.len() == view.units.len(),
        forall|k: int|
            0 <= k < view.units.len() ==> (#[trigger] unit_tick_spec(view, snapshot, i, step, avoid).0.units[k]).damage
                == view.units[k].damage,
        forall|k: int|
            0 <= k < view.units.len() ==> #[trigger] unit_tick_spec(view, snapshot, i, step, avoid).0.units[k].life
                <= view.units[k].life,
{
    lemma_best_below_in_range(snapshot, i, snapshot.len() as int);
    if view.units[i].life > 0 {
        let units = view.units;
        let u0 = units[i];
        let u = FightUnit { cycle: swing_cleared(u0.cycle, step), ..u0 };
        if let Some(j) = target_of(snapshot, units, i) {
            reveal(engaged_tick_spec);
            lemma_in_reach_never_raises_life(view, i, u, j, u.cycle != u0.cycle, bearing_spec(u, units[j]), step);
            lemma_moving_keeps_life(view, i, u, j, u.cycle != u0.cycle, avoid);
        }
    }
}

proof fn lemma_in_reach_never_raises_life(view: FightView, i: int, u: FightUnit, j: int, finished: bool, bearing: i64, step: u64)
    requires
        forall|k: int| 0 <= k < view.units.len() ==> (#[trigger] view.units[k]).damage >= 0,
        0 <= i < view.units.len(),
        0 <= j < view.units.len(),
        u.life == view.units[i].life,
        u.damage == view.units[i].damage,
    ensures
        in_reach_tick_spec(view, i, u, j, finished, bearing, step).0.units.len() == view.units.len(),
        forall|k: int|
            0 <= k < view.units.len() ==> (#[trigger] in_reach_tick_spec(view, i, u, j, finished, bearing, step).0.units[k]).damage
                == view.units[k].damage,
        forall|k: int|
            0 <= k < view.units.len() ==> #[trigger] in_reach_tick_spec(view, i, u, j, finished, bearing, step).0.units[k].life
                <= view.units[k].life,
{
    reveal(in_reach_tick_spec);
}

proof fn lemma_moving_keeps_life(view: FightView, i: int, u: FightUnit, j: int, finished: bool, avoid: AvoidanceVelocity)
    requires
        0 <= i < view.units.len(),
        u.life == view.units[i].life,
        u.damage == view.units[i].damage,
    ensures
        moving_tick_spec(view, i, u, j, finished, avoid).units.len() == view.units.len(),
        forall|k: int|
            0 <= k < view.units.len() ==> (#[trigger] moving_tick_spec(view, i, u, j, finished, avoid).units[k]).damage
                == view.units[k].damage,
        forall|k: int|
            0 <= k < view.units.len() ==> #[trigger] moving_tick_spec(view, i, u, j, finished, avoid).units[k].life
                == view.units[k].life,
{
    reveal(moving_tick_spec);
}

} // verus!
