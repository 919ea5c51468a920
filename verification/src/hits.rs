//! Who a hit lands on.
//!
//! The one place the fight decides what a blow or a shot strikes: what it was
//! aimed at, if it strikes that wherever it stands, and every enemy its splash
//! reaches. What it does not yet decide, it refuses here.

use vstd::prelude::*;

use crate::Error;
use crate::buildings::BuildingState;
use crate::engagement::{building_alive, building_alive_spec, building_radius, building_radius_spec};
use crate::fixed::{clamp_i64, integer_sqrt_spec, magnitude, q32_to_space_rounded, q32_to_space_rounded_spec, saturating_add, saturating_sub};
use crate::kernel::{touches_spec, Reach};
use crate::quadtree::FightActorRef;
use crate::rules::UnitDomain;

verus! {

/// A unit as a hit sees it: its identity and side, where it stands in space
/// units, its collision radius, whether it lives, and where it stands.
#[derive(Debug, Clone, Copy, PartialEq, Eq, Structural)]
pub struct UnitTarget {
    pub id: u64,
    pub team: u32,
    pub x: i64,
    pub z: i64,
    pub radius: i64,
    pub alive: bool,
    pub domain: UnitDomain,
}

/// One hit: the team whose enemies it strikes, what it was aimed at, whether
/// it strikes that wherever it stands, the centre its splash is measured from
/// in space units, the splash's radius, and the domains it can touch.
#[derive(Debug, Clone, Copy)]
pub struct DamageHit {
    pub team: u32,
    pub aimed: FightActorRef,
    pub hits_aimed: bool,
    pub center: (i64, i64),
    pub splash_radius: i64,
    pub reach: Reach,
}

/// Whether the distance from `center` to `(x, z)` can be measured: the sum of
/// the saturated offsets' squares fits in `i128`.
pub open spec fn measurable(x: int, z: int, center: (i64, i64)) -> bool {
    let dx = clamp_i64(x - center.0);
    let dz = clamp_i64(z - center.1);
    dx * dx + dz * dz <= i128::MAX
}

/// How far `(x, z)` lies from `center`, in whole space units.
pub open spec fn distance_from(x: int, z: int, center: (i64, i64)) -> int {
    let dx = clamp_i64(x - center.0);
    let dz = clamp_i64(z - center.1);
    integer_sqrt_spec(dx * dx + dz * dz)
}

/// Whether a splash of `splash` reaches an object of `radius` at `(x, z)`:
/// its edge lies within the splash of `center`.
pub open spec fn splash_reaches(x: int, z: int, radius: int, center: (i64, i64), splash: i64) -> bool {
    clamp_i64(distance_from(x, z, center) - radius) <= splash
}

/// Where a building stands, in space units.
pub open spec fn building_x_spec(building: BuildingState) -> int {
    q32_to_space_rounded_spec(building.x_q32 as int)
}

/// Where a building stands, in space units.
pub open spec fn building_z_spec(building: BuildingState) -> int {
    q32_to_space_rounded_spec(building.z_q32 as int)
}

/// Whether a splash reaches a building.
pub open spec fn splash_reaches_building(building: BuildingState, hit: DamageHit) -> bool {
    splash_reaches(
        building_x_spec(building),
        building_z_spec(building),
        building_radius_spec(building),
        hit.center,
        hit.splash_radius,
    )
}

/// Whether a building is an enemy of the hit that still stands and may be
/// targeted.
pub open spec fn enemy_building(building: BuildingState, hit: DamageHit) -> bool {
    &&& building_alive_spec(building)
    &&& building.targetable
    &&& building.team_id != hit.team
}

/// Whether a unit is a living enemy of the hit of a domain it can touch.
pub open spec fn touchable_unit(unit: UnitTarget, hit: DamageHit) -> bool {
    &&& unit.alive
    &&& unit.team != hit.team
    &&& touches_spec(hit.reach, unit.domain)
}

/// The first position of a building of identity `id`, or the length when
/// there is none.
pub open spec fn first_building_with(buildings: Seq<BuildingState>, id: u64, from: int) -> int
    decreases buildings.len() - from,
{
    if from < 0 || from >= buildings.len() {
        buildings.len() as int
    } else if buildings[from].building_id == id {
        from
    } else {
        first_building_with(buildings, id, from + 1)
    }
}

/// Whether a hit aimed at a building splashes at all: it has a splash and
/// touches the ground.
pub open spec fn splashes_ground(hit: DamageHit) -> bool {
    hit.splash_radius != 0 && touches_spec(hit.reach, UnitDomain::Ground)
}

/// Whether a hit measures how far building `i` lies: the building aimed at,
/// or, for a splash on the ground, an enemy building.
pub open spec fn building_measured(buildings: Seq<BuildingState>, i: int, hit: DamageHit) -> bool {
    match hit.aimed {
        FightActorRef::Building(id) => i == first_building_with(buildings, id, 0) || (splashes_ground(hit)
            && buildings[i].building_id != id && enemy_building(buildings[i], hit)),
        FightActorRef::Unit(_) => hit.splash_radius > 0 && touches_spec(hit.reach, UnitDomain::Ground)
            && enemy_building(buildings[i], hit),
    }
}

/// Whether a hit measures how far a unit lies: a living enemy it can touch,
/// when it splashes.
pub open spec fn unit_measured(unit: UnitTarget, hit: DamageHit) -> bool {
    &&& touchable_unit(unit, hit)
    &&& match hit.aimed {
        FightActorRef::Building(_) => splashes_ground(hit),
        FightActorRef::Unit(_) => hit.splash_radius > 0,
    }
}

/// Whether a shot at building `id` splashes `building`: another enemy
/// building whose edge its splash reaches.
pub open spec fn building_splashed(building: BuildingState, id: u64, hit: DamageHit) -> bool {
    building.building_id != id && enemy_building(building, hit) && splash_reaches_building(building, hit)
}

/// The other enemy buildings a shot at building `id` splashes, in order.
pub open spec fn splashed_buildings(buildings: Seq<BuildingState>, id: u64, hit: DamageHit) -> Seq<FightActorRef>
    decreases buildings.len(),
{
    if buildings.len() == 0 {
        Seq::empty()
    } else {
        let earlier = splashed_buildings(buildings.drop_last(), id, hit);
        if building_splashed(buildings.last(), id, hit) {
            earlier.push(FightActorRef::Building(buildings.last().building_id))
        } else {
            earlier
        }
    }
}

/// Whether a unit is struck by a hit aimed at a unit: a living enemy it can
/// touch that it was aimed at and strikes wherever it stands, or that its
/// splash reaches.
pub open spec fn unit_struck(unit: UnitTarget, hit: DamageHit) -> bool {
    &&& touchable_unit(unit, hit)
    &&& ((hit.hits_aimed && hit.aimed == FightActorRef::Unit(unit.id)) || (hit.splash_radius > 0
        && splash_reaches(unit.x as int, unit.z as int, unit.radius as int, hit.center, hit.splash_radius)))
}

/// The units a hit aimed at a unit strikes, in the order given.
pub open spec fn struck_units(units: Seq<UnitTarget>, hit: DamageHit) -> Seq<FightActorRef>
    decreases units.len(),
{
    if units.len() == 0 {
        Seq::empty()
    } else {
        let earlier = struck_units(units.drop_last(), hit);
        if unit_struck(units.last(), hit) {
            earlier.push(FightActorRef::Unit(units.last().id))
        } else {
            earlier
        }
    }
}

/// What a hit strikes, in the order it strikes them, or why it is refused.
pub open spec fn damage_targets_spec(
    buildings: Seq<BuildingState>,
    units: Seq<UnitTarget>,
    hit: DamageHit,
) -> Result<Seq<FightActorRef>, Seq<char>> {
    match hit.aimed {
        FightActorRef::Building(id) => {
            let index = first_building_with(buildings, id, 0);
            if index >= buildings.len() {
                Err("damage target building is absent"@)
            } else {
                let aimed = buildings[index];
                let reached = distance_from(building_x_spec(aimed), building_z_spec(aimed), hit.center)
                    <= clamp_i64(building_radius_spec(aimed) + hit.splash_radius);
                let first = if reached {
                    seq![hit.aimed]
                } else {
                    Seq::empty()
                };
                if !splashes_ground(hit) {
                    Ok(first)
                } else if exists|i: int|
                    0 <= i < units.len() && touchable_unit(#[trigger] units[i], hit) && splash_reaches(
                        units[i].x as int,
                        units[i].z as int,
                        units[i].radius as int,
                        hit.center,
                        hit.splash_radius,
                    ) {
                    Err("splash from a shot at a building onto a unit is not closed"@)
                } else {
                    Ok(first + splashed_buildings(buildings, id, hit))
                }
            }
        },
        FightActorRef::Unit(_) => {
            if hit.splash_radius > 0 && touches_spec(hit.reach, UnitDomain::Ground) && exists|i: int|
                0 <= i < buildings.len() && enemy_building(#[trigger] buildings[i], hit)
                    && splash_reaches_building(buildings[i], hit) {
                Err("splash against a building is not closed"@)
            } else {
                Ok(struck_units(units, hit))
            }
        },
    }
}

/// How far `(x, z)` lies from `center`, in whole space units.
fn distance(x: i64, z: i64, center: (i64, i64)) -> (result: i64)
    requires
        measurable(x as int, z as int, center),
    ensures
        result == distance_from(x as int, z as int, center),
{
    magnitude(saturating_sub(x, center.0), saturating_sub(z, center.1))
}

/// Whether a splash of `splash` from `center` reaches an object of `radius`
/// at `(x, z)`.
fn reaches(x: i64, z: i64, radius: i64, center: (i64, i64), splash: i64) -> (result: bool)
    requires
        measurable(x as int, z as int, center),
    ensures
        result == splash_reaches(x as int, z as int, radius as int, center, splash),
{
    saturating_sub(distance(x, z, center), radius) <= splash
}

/// Whether a splash reaches a building.
fn reaches_building(building: &BuildingState, hit: &DamageHit) -> (result: bool)
    requires
        measurable(building_x_spec(*building), building_z_spec(*building), hit.center),
    ensures
        result == splash_reaches_building(*building, *hit),
{
    reaches(
        q32_to_space_rounded(building.x_q32),
        q32_to_space_rounded(building.z_q32),
        building_radius(building),
        hit.center,
        hit.splash_radius,
    )
}

/// Everything a hit strikes, in the order it strikes them.
///
/// A hit aimed at a building strikes it if its splash, measured from its
/// centre, reaches the building's edge, and for a splash on the ground every
/// other enemy building whose edge it reaches, in the order they are listed;
/// one whose splash would reach an enemy unit is refused, for that has not
/// been recorded. A hit aimed at a unit strikes, in the order `units` lists
/// them (the order the search lists them in), every living enemy it can
/// touch that it strikes wherever it stands or whose edge its splash reaches;
/// one whose splash would reach an enemy building is refused.
pub fn damage_targets(
    buildings: &Vec<BuildingState>,
    units: &Vec<UnitTarget>,
    hit: &DamageHit,
) -> (result: Result<Vec<FightActorRef>, Error>)
    requires
        forall|i: int|
            0 <= i < buildings.len() && building_measured(buildings@, i, *hit) ==> measurable(
                building_x_spec(#[trigger] buildings[i]),
                building_z_spec(buildings[i]),
                hit.center,
            ),
        forall|i: int|
            0 <= i < units.len() && unit_measured(#[trigger] units[i], *hit) ==> measurable(
                units[i].x as int,
                units[i].z as int,
                hit.center,
            ),
    ensures
        match damage_targets_spec(buildings@, units@, *hit) {
            Ok(struck) => result matches Ok(targets) && targets@ == struck,
            Err(message) => result matches Err(error) && error.message@ == message,
        },
{
    match hit.aimed {
        FightActorRef::Building(id) => {
            let mut index: usize = 0;
            while index < buildings.len() && buildings[index].building_id != id
                invariant
                    index <= buildings.len(),
                    first_building_with(buildings@, id, 0) == first_building_with(buildings@, id, index as int),
                decreases buildings.len() - index,
            {
                index = index + 1;
            }
            if index == buildings.len() {
                return Err(Error::new(String::from_str("damage target building is absent")));
            }
            let aimed = &buildings[index];
            let reached = distance(q32_to_space_rounded(aimed.x_q32), q32_to_space_rounded(aimed.z_q32), hit.center)
                <= saturating_add(building_radius(aimed), hit.splash_radius);
            let mut struck: Vec<FightActorRef> = Vec::new();
            if reached {
                struck.push(hit.aimed);
            }
            if hit.splash_radius == 0 || !hit.reach.touches(UnitDomain::Ground) {
                return Ok(struck);
            }
            proof {
                assert(first_building_with(buildings@, id, index as int) == index);
            }
            let mut k: usize = 0;
            while k < units.len()
                invariant
                    k <= units.len(),
                    splashes_ground(*hit),
                    hit.aimed == FightActorRef::Building(id),
                    index < buildings.len(),
                    first_building_with(buildings@, id, 0) == index,
                    forall|i: int|
                        0 <= i < units.len() && unit_measured(#[trigger] units[i], *hit) ==> measurable(
                            units[i].x as int,
                            units[i].z as int,
                            hit.center,
                        ),
                    forall|j: int|
                        0 <= j < k ==> !(touchable_unit(#[trigger] units[j], *hit) && splash_reaches(
                            units[j].x as int,
                            units[j].z as int,
                            units[j].radius as int,
                            hit.center,
                            hit.splash_radius,
                        )),
                decreases units.len() - k,
            {
                let unit = &units[k];
                if unit.alive && unit.team != hit.team && hit.reach.touches(unit.domain) {
                    assert(unit_measured(units[k as int], *hit));
                    if reaches(unit.x, unit.z, unit.radius, hit.center, hit.splash_radius) {
                        assert(touchable_unit(units[k as int], *hit) && splash_reaches(
                            units[k as int].x as int,
                            units[k as int].z as int,
                            units[k as int].radius as int,
                            hit.center,
                            hit.splash_radius,
                        ));
                        return Err(Error::new(String::from_str("splash from a shot at a building onto a unit is not closed")));
                    }
                }
                k = k + 1;
            }
            let ghost first = struck@;
            let mut i: usize = 0;
            while i < buildings.len()
                invariant
                    i <= buildings.len(),
                    splashes_ground(*hit),
                    hit.aimed == FightActorRef::Building(id),
                    forall|j: int|
                        0 <= j < buildings.len() && building_measured(buildings@, j, *hit) ==> measurable(
                            building_x_spec(#[trigger] buildings[j]),
                            building_z_spec(buildings[j]),
                            hit.center,
                        ),
                    struck@ == first + splashed_buildings(buildings@.take(i as int), id, *hit),
                decreases buildings.len() - i,
            {
                let other = &buildings[i];
                let ghost before = buildings@.take(i as int);
                proof {
                    assert(buildings@.take(i as int + 1).drop_last() =~= before);
                    assert(buildings@.take(i as int + 1).last() == buildings@[i as int]);
                }
                if other.building_id != id && building_alive(other) && other.targetable && other.team_id != hit.team {
                    assert(building_measured(buildings@, i as int, *hit));
                    if reaches_building(other, hit) {
                        struck.push(FightActorRef::Building(other.building_id));
                        proof {
                            assert(struck@ =~= first + splashed_buildings(buildings@.take(i as int + 1), id, *hit));
                        }
                    } else {
                        proof {
                            assert(splashed_buildings(buildings@.take(i as int + 1), id, *hit) == splashed_buildings(before, id, *hit));
                        }
                    }
                } else {
                    proof {
                        assert(splashed_buildings(buildings@.take(i as int + 1), id, *hit) == splashed_buildings(before, id, *hit));
                    }
                }
                i = i + 1;
            }
            proof {
                assert(buildings@.take(buildings.len() as int) =~= buildings@);
            }
            Ok(struck)
        },
        FightActorRef::Unit(_) => {
            let mut struck: Vec<FightActorRef> = Vec::new();
            let mut k: usize = 0;
            while k < units.len()
                invariant
                    k <= units.len(),
                    hit.aimed is Unit,
                    forall|i: int|
                        0 <= i < units.len() && unit_measured(#[trigger] units[i], *hit) ==> measurable(
                            units[i].x as int,
                            units[i].z as int,
                            hit.center,
                        ),
                    struck@ == struck_units(units@.take(k as int), *hit),
                decreases units.len() - k,
            {
                let unit = &units[k];
                let ghost before = units@.take(k as int);
                proof {
                    assert(units@.take(k as int + 1).drop_last() =~= before);
                    assert(units@.take(k as int + 1).last() == units@[k as int]);
                }
                let touched = unit.alive && unit.team != hit.team && hit.reach.touches(unit.domain);
                let struck_here = touched && ((hit.hits_aimed && hit.aimed == FightActorRef::Unit(unit.id)) || (
                hit.splash_radius > 0 && {
                    assert(unit_measured(units[k as int], *hit));
                    reaches(unit.x, unit.z, unit.radius, hit.center, hit.splash_radius)
                }));
                assert(struck_here == unit_struck(*unit, *hit));
                if struck_here {
                    struck.push(FightActorRef::Unit(unit.id));
                    proof {
                        assert(struck@ =~= struck_units(units@.take(k as int + 1), *hit));
                    }
                } else {
                    proof {
                        assert(struck_units(units@.take(k as int + 1), *hit) == struck_units(before, *hit));
                    }
                }
                k = k + 1;
            }
            proof {
                assert(units@.take(units.len() as int) =~= units@);
            }
            if hit.splash_radius > 0 && hit.reach.touches(UnitDomain::Ground) {
                let mut i: usize = 0;
                while i < buildings.len()
                    invariant
                        i <= buildings.len(),
                        hit.aimed is Unit,
                        hit.splash_radius > 0 && touches_spec(hit.reach, UnitDomain::Ground),
                        forall|j: int|
                            0 <= j < buildings.len() && building_measured(buildings@, j, *hit) ==> measurable(
                                building_x_spec(#[trigger] buildings[j]),
                                building_z_spec(buildings[j]),
                                hit.center,
                            ),
                        forall|j: int|
                            0 <= j < i ==> !(enemy_building(#[trigger] buildings[j], *hit) && splash_reaches_building(
                                buildings[j],
                                *hit,
                            )),
                    decreases buildings.len() - i,
                {
                    let building = &buildings[i];
                    if building_alive(building) && building.targetable && building.team_id != hit.team {
                        assert(building_measured(buildings@, i as int, *hit));
                        if reaches_building(building, hit) {
                            assert(enemy_building(buildings[i as int], *hit) && splash_reaches_building(buildings[i as int], *hit));
                            return Err(Error::new(String::from_str("splash against a building is not closed")));
                        }
                    }
                    i = i + 1;
                }
            }
            Ok(struck)
        },
    }
}

/// A hit aimed at a unit strikes nothing but living enemy units of a domain
/// it can touch, each one that the list holds.
pub proof fn lemma_a_hit_strikes_only_touchable_enemies(units: Seq<UnitTarget>, hit: DamageHit)
    ensures
        forall|k: int|
            0 <= k < struck_units(units, hit).len() ==> exists|i: int|
                0 <= i < units.len() && touchable_unit(#[trigger] units[i], hit) && #[trigger] struck_units(
                    units,
                    hit,
                )[k] == FightActorRef::Unit(units[i].id),
    decreases units.len(),
{
    if units.len() > 0 {
        let rest = units.drop_last();
        lemma_a_hit_strikes_only_touchable_enemies(rest, hit);
        assert forall|k: int| 0 <= k < struck_units(units, hit).len() implies exists|i: int|
            0 <= i < units.len() && touchable_unit(#[trigger] units[i], hit) && #[trigger] struck_units(
                units,
                hit,
            )[k] == FightActorRef::Unit(units[i].id) by {
            if k < struck_units(rest, hit).len() {
                let i = choose|i: int|
                    0 <= i < rest.len() && touchable_unit(#[trigger] rest[i], hit) && #[trigger] struck_units(
                        rest,
                        hit,
                    )[k] == FightActorRef::Unit(rest[i].id);
                assert(units[i] == rest[i]);
            } else {
                assert(units[units.len() - 1] == units.last());
            }
        }
    }
}

/// A shot at a building splashes nothing but other enemy buildings that
/// stand and may be targeted, each one that the list holds.
pub proof fn lemma_a_splash_strikes_only_enemy_buildings(buildings: Seq<BuildingState>, id: u64, hit: DamageHit)
    ensures
        forall|k: int|
            0 <= k < splashed_buildings(buildings, id, hit).len() ==> exists|i: int|
                0 <= i < buildings.len() && enemy_building(#[trigger] buildings[i], hit) && buildings[i].building_id
                    != id && #[trigger] splashed_buildings(buildings, id, hit)[k] == FightActorRef::Building(
                    buildings[i].building_id,
                ),
    decreases buildings.len(),
{
    if buildings.len() > 0 {
        let rest = buildings.drop_last();
        lemma_a_splash_strikes_only_enemy_buildings(rest, id, hit);
        assert forall|k: int| 0 <= k < splashed_buildings(buildings, id, hit).len() implies exists|i: int|
            0 <= i < buildings.len() && enemy_building(#[trigger] buildings[i], hit) && buildings[i].building_id
                != id && #[trigger] splashed_buildings(buildings, id, hit)[k] == FightActorRef::Building(
                buildings[i].building_id,
            ) by {
            if k < splashed_buildings(rest, id, hit).len() {
                let i = choose|i: int|
                    0 <= i < rest.len() && enemy_building(#[trigger] rest[i], hit) && rest[i].building_id != id
                        && #[trigger] splashed_buildings(rest, id, hit)[k] == FightActorRef::Building(
                        rest[i].building_id,
                    );
                assert(buildings[i] == rest[i]);
            } else {
                assert(buildings[buildings.len() - 1] == buildings.last());
            }
        }
    }
}

/// A hit that strikes what it was aimed at wherever it stands strikes the
/// unit it was aimed at, when that unit is a living enemy it can touch.
pub proof fn lemma_a_hit_strikes_the_unit_it_was_aimed_at(units: Seq<UnitTarget>, hit: DamageHit, i: int)
    requires
        0 <= i < units.len(),
        hit.hits_aimed,
        hit.aimed == FightActorRef::Unit(units[i].id),
        touchable_unit(units[i], hit),
    ensures
        struck_units(units, hit).contains(FightActorRef::Unit(units[i].id)),
    decreases units.len(),
{
    let rest = units.drop_last();
    if i < units.len() - 1 {
        assert(rest[i] == units[i]);
        lemma_a_hit_strikes_the_unit_it_was_aimed_at(rest, hit, i);
        let earlier = struck_units(rest, hit);
        let k = choose|k: int| 0 <= k < earlier.len() && earlier[k] == FightActorRef::Unit(units[i].id);
        if unit_struck(units.last(), hit) {
            assert(struck_units(units, hit)[k] == FightActorRef::Unit(units[i].id));
        }
    } else {
        assert(units.last() == units[i]);
        let all = struck_units(units, hit);
        assert(all[all.len() - 1] == FightActorRef::Unit(units[i].id));
    }
}

/// A shot's splash never counts the building it was aimed at among the
/// others it reaches.
proof fn lemma_the_splash_spares_the_aimed_building(buildings: Seq<BuildingState>, id: u64, hit: DamageHit)
    ensures
        !splashed_buildings(buildings, id, hit).contains(FightActorRef::Building(id)),
    decreases buildings.len(),
{
    if buildings.len() > 0 {
        lemma_the_splash_spares_the_aimed_building(buildings.drop_last(), id, hit);
        let earlier = splashed_buildings(buildings.drop_last(), id, hit);
        if building_splashed(buildings.last(), id, hit) {
            let now = earlier.push(FightActorRef::Building(buildings.last().building_id));
            assert forall|k: int| 0 <= k < now.len() implies now[k] != FightActorRef::Building(id) by {
                if k < earlier.len() {
                    assert(now[k] == earlier[k]);
                }
            }
        }
    }
}

/// A shot aimed at a building strikes that building, first of all, exactly
/// when the distance from where it lands to the building's centre is no more
/// than the building's radius and the splash's together.
pub proof fn lemma_a_shot_at_a_building_strikes_it_within_radius_and_splash(
    buildings: Seq<BuildingState>,
    units: Seq<UnitTarget>,
    hit: DamageHit,
    id: u64,
)
    requires
        hit.aimed == FightActorRef::Building(id),
        first_building_with(buildings, id, 0) < buildings.len(),
        i64::MIN <= building_radius_spec(buildings[first_building_with(buildings, id, 0)]) + hit.splash_radius
            <= i64::MAX,
    ensures
        ({
            let aimed = buildings[first_building_with(buildings, id, 0)];
            let within = distance_from(building_x_spec(aimed), building_z_spec(aimed), hit.center)
                <= building_radius_spec(aimed) + hit.splash_radius;
            damage_targets_spec(buildings, units, hit) matches Ok(struck) ==> {
                &&& struck.contains(hit.aimed) <==> within
                &&& within ==> struck[0] == hit.aimed
            }
        }),
{
    lemma_the_splash_spares_the_aimed_building(buildings, id, hit);
    let aimed = buildings[first_building_with(buildings, id, 0)];
    let within = distance_from(building_x_spec(aimed), building_z_spec(aimed), hit.center)
        <= building_radius_spec(aimed) + hit.splash_radius;
    let splashed = splashed_buildings(buildings, id, hit);
    if within {
        assert((seq![hit.aimed] + splashed)[0] == hit.aimed);
        assert(seq![hit.aimed].contains(hit.aimed)) by {
            assert(seq![hit.aimed][0] == hit.aimed);
        }
        assert((seq![hit.aimed] + splashed).contains(hit.aimed)) by {
            assert((seq![hit.aimed] + splashed)[0] == hit.aimed);
        }
    } else {
        assert(Seq::<FightActorRef>::empty() + splashed =~= splashed);
    }
}

} // verus!
