//! Whether a unit can fire at what it aims at, how its body and weapons turn
//! toward it, and which enemy construction stands in the way.

use vstd::prelude::*;

use crate::buildings::BuildingState;
use crate::fixed::{
    clamp_i64, degrees_q32_to_mdeg, degrees_q32_to_mdeg_spec, degrees_q32_to_unwrapped_mdeg,
    degrees_q32_to_unwrapped_mdeg_spec, distance_to_segment_q32, div_trunc, max_int,
    mdeg_to_degrees_q32, mdeg_to_degrees_q32_spec, q32_mul, q32_mul_spec, q32_to_space_rounded,
    q32_to_space_rounded_spec, rem_euclid, rotate_towards_q32, rotate_towards_q32_spec,
    rotate_towards_q32_unwrapped, rotate_towards_q32_unwrapped_spec, rotation_distance_q32,
    rotation_distance_q32_spec, saturating_add, saturating_sub, segment_fits, segment_offset_square,
    lemma_a_turn_moves_at_most_its_maximum, lemma_integer_sqrt_at_most, space_to_q32,
    space_to_q32_spec, FULL_TURN_Q32, NATIVE_LOGIC_DELTA_Q32,
};
use crate::motion::{normal_visible_full_rotation_target_score_q32, normal_visible_full_rotation_target_score_spec};
use crate::rules::UnitDomain;
use crate::trig::{
    direction_degrees_q32_raw, direction_degrees_q32_raw_spec, native_q32_magnitude,
    native_q32_magnitude_spec,
};

verus! {

/// The building type a layout's constructions stand as.
pub const CONSTRUCTION_BUILDING_TYPE: u32 = 3u32;

/// How far to either side of the line of fire a construction stands in the
/// way, in space units.
pub const WALL_IN_THE_WAY_WIDTH: i64 = 11_500i64;

/// What the fight reads of a unit or a building it aims at: its side, where
/// it stands and where the search last saw it, its radius in space units, and
/// whether it lives and may be targeted.
#[derive(Debug, Clone, Copy, PartialEq, Eq, Structural)]
pub struct FightActorView {
    pub team: u32,
    pub x_q32: i64,
    pub z_q32: i64,
    pub query_x_q32: i64,
    pub query_z_q32: i64,
    pub radius: i64,
    pub alive: bool,
    pub query_alive: bool,
    pub targetable: bool,
    pub domain: UnitDomain,
}

/// Whether a building still stands.
pub open spec fn building_alive_spec(building: BuildingState) -> bool {
    building.life > 0
}

/// Whether a building still stands: it has life left.
pub fn building_alive(building: &BuildingState) -> (alive: bool)
    ensures
        alive == building_alive_spec(*building),
{
    building.life > 0
}

/// A building's radius in space units: half its box, rounded.
pub open spec fn building_radius_spec(building: BuildingState) -> int {
    q32_to_space_rounded_spec(div_trunc(building.bounds_width as int, 2))
}

/// A building's radius in space units: half its box, rounded.
pub fn building_radius(building: &BuildingState) -> (radius: i64)
    ensures
        radius == building_radius_spec(*building),
{
    q32_to_space_rounded(building.bounds_width / 2)
}

/// How the fight sees a building it aims at: where it stands, on the ground.
pub fn building_view(building: &BuildingState) -> (view: FightActorView)
    ensures
        view.team == building.team_id,
        view.x_q32 == building.x_q32 && view.query_x_q32 == building.x_q32,
        view.z_q32 == building.z_q32 && view.query_z_q32 == building.z_q32,
        view.radius == building_radius_spec(*building),
        view.alive == building_alive_spec(*building),
        view.query_alive == building_alive_spec(*building),
        view.targetable == (building.targetable && building.available),
        view.domain == UnitDomain::Ground,
{
    FightActorView {
        team: building.team_id,
        x_q32: building.x_q32,
        z_q32: building.z_q32,
        query_x_q32: building.x_q32,
        query_z_q32: building.z_q32,
        radius: building_radius(building),
        alive: building_alive(building),
        query_alive: building_alive(building),
        targetable: building.targetable && building.available,
        domain: UnitDomain::Ground,
    }
}

/// The gap between a unit at `(x, z)` of `collision_radius` and `target`,
/// edge to edge in Q32.32 metres, and never below zero.
pub open spec fn edge_gap_spec(x_q32: i64, z_q32: i64, collision_radius: i64, target: FightActorView) -> int {
    let center = native_q32_magnitude_spec(
        clamp_i64(target.x_q32 - x_q32) as i64,
        clamp_i64(target.z_q32 - z_q32) as i64,
    );
    max_int(
        clamp_i64(clamp_i64(center - space_to_q32_spec(collision_radius as int)) - space_to_q32_spec(
            target.radius as int,
        )),
        0,
    )
}

/// Whether `target` lies within an attack's reach of a unit at `(x, z)`:
/// alive, targetable, and edge to edge no nearer than the attack's least
/// range and no farther than its range, both in space units.
pub open spec fn in_attack_range_spec(
    x_q32: i64,
    z_q32: i64,
    collision_radius: i64,
    min_range: i64,
    range: i64,
    target: FightActorView,
) -> bool {
    &&& target.alive
    &&& target.targetable
    &&& edge_gap_spec(x_q32, z_q32, collision_radius, target) >= space_to_q32_spec(min_range as int)
    &&& edge_gap_spec(x_q32, z_q32, collision_radius, target) <= space_to_q32_spec(range as int)
}

/// Whether `target` lies within an attack's reach of a unit at `(x, z)`.
pub fn target_in_attack_range(
    x_q32: i64,
    z_q32: i64,
    collision_radius: i64,
    min_range: i64,
    range: i64,
    target: &FightActorView,
) -> (result: bool)
    ensures
        result == in_attack_range_spec(x_q32, z_q32, collision_radius, min_range, range, *target),
{
    if !target.alive || !target.targetable {
        return false;
    }
    let center = native_q32_magnitude(saturating_sub(target.x_q32, x_q32), saturating_sub(target.z_q32, z_q32));
    let gap = saturating_sub(saturating_sub(center, space_to_q32(collision_radius)), space_to_q32(target.radius));
    let gap = if gap < 0 {
        0
    } else {
        gap
    };
    gap >= space_to_q32(min_range) && gap <= space_to_q32(range)
}

/// The bearing from `(x, z)` to `target`, in Q32.32 degrees.
pub open spec fn bearing_spec(x_q32: i64, z_q32: i64, target: FightActorView) -> int {
    direction_degrees_q32_raw_spec(clamp_i64(target.x_q32 - x_q32) as i64, clamp_i64(target.z_q32 - z_q32) as i64)
}

/// Whether a unit without a turning body, facing `body_rotation_q32` at
/// `(x, z)`, has a living `target` within its attack's half angle, in
/// millidegrees.
pub open spec fn in_attack_angle_spec(
    body_rotation_q32: i64,
    x_q32: i64,
    z_q32: i64,
    half_angle_mdeg: i64,
    target: FightActorView,
) -> bool {
    &&& target.alive
    &&& rotation_distance_q32_spec(body_rotation_q32 as int, bearing_spec(x_q32, z_q32, target))
        <= mdeg_to_degrees_q32_spec(half_angle_mdeg as int)
}

/// Whether a unit facing `body_rotation_q32` at `(x, z)` has a living
/// `target` within its attack's half angle.
pub fn target_in_attack_angle(
    body_rotation_q32: i64,
    x_q32: i64,
    z_q32: i64,
    half_angle_mdeg: i64,
    target: &FightActorView,
) -> (result: bool)
    ensures
        result == in_attack_angle_spec(body_rotation_q32, x_q32, z_q32, half_angle_mdeg, *target),
{
    target.alive && rotation_distance_q32(
        body_rotation_q32,
        direction_degrees_q32_raw(saturating_sub(target.x_q32, x_q32), saturating_sub(target.z_q32, z_q32)),
    ) <= mdeg_to_degrees_q32(half_angle_mdeg)
}

/// How far a unit turning `rotate_speed` millidegrees a second turns in one
/// tick, in Q32.32 degrees.
pub open spec fn turn_per_tick_spec(rotate_speed: i64) -> int {
    q32_mul_spec(mdeg_to_degrees_q32_spec(rotate_speed as int), NATIVE_LOGIC_DELTA_Q32 as int)
}

/// How far a unit turning `rotate_speed` millidegrees a second turns in one
/// tick, in Q32.32 degrees.
pub fn turn_per_tick(rotate_speed: i64) -> (turn: i64)
    requires
        rotate_speed >= 0,
    ensures
        turn == turn_per_tick_spec(rotate_speed),
        turn >= 0,
{
    proof {
        lemma_turn_per_tick_not_negative(rotate_speed);
    }
    q32_mul(mdeg_to_degrees_q32(rotate_speed), NATIVE_LOGIC_DELTA_Q32)
}

/// A unit that turns at a speed that is not negative turns no negative
/// amount in a tick.
proof fn lemma_turn_per_tick_not_negative(rotate_speed: i64)
    requires
        rotate_speed >= 0,
    ensures
        turn_per_tick_spec(rotate_speed) >= 0,
{
    vstd::arithmetic::div_mod::lemma_div_pos_is_pos(rotate_speed * crate::fixed::q32_scale(), 1000);
    let degrees = mdeg_to_degrees_q32_spec(rotate_speed as int);
    assert(degrees >= 0);
    assert(degrees * NATIVE_LOGIC_DELTA_Q32 >= 0) by (nonlinear_arith)
        requires
            degrees >= 0,
    ;
    vstd::arithmetic::div_mod::lemma_div_pos_is_pos(degrees * NATIVE_LOGIC_DELTA_Q32, crate::fixed::q32_scale());
}

/// In one tick a body turns no farther than its speed allows, whichever way
/// it turns and however far it has to go.
pub proof fn lemma_a_body_turns_at_most_its_speed(rotation_q32: i64, target_q32: i64, rotate_speed: i64)
    requires
        rotate_speed >= 0,
    ensures
        rotation_distance_q32_spec(rotation_q32 as int, turned_body_spec(rotation_q32, target_q32, rotate_speed).0 as int)
            <= turn_per_tick_spec(rotate_speed),
{
    lemma_turn_per_tick_not_negative(rotate_speed);
    lemma_a_turn_moves_at_most_its_maximum(rotation_q32 as int, target_q32 as int, turn_per_tick_spec(rotate_speed));
}

/// Where one tick of turning toward `target_q32` leaves a body facing
/// `rotation_q32`: the new bearing in Q32.32 degrees within a turn, and in
/// millidegrees, which reads a full turn when a limited step stops a hair
/// short of one.
pub open spec fn turned_body_spec(rotation_q32: i64, target_q32: i64, rotate_speed: i64) -> (i64, i64) {
    let maximum = turn_per_tick_spec(rotate_speed);
    let limited = rotation_distance_q32_spec(rotation_q32 as int, target_q32 as int) > maximum;
    let unwrapped = rotate_towards_q32_unwrapped_spec(rotation_q32 as int, target_q32 as int, maximum);
    let wrapped = unwrapped % FULL_TURN_Q32 as int;
    let millidegrees = if limited && unwrapped < FULL_TURN_Q32 && degrees_q32_to_unwrapped_mdeg_spec(unwrapped)
        == 360_000 {
        360_000
    } else {
        degrees_q32_to_mdeg_spec(wrapped)
    };
    (wrapped as i64, millidegrees as i64)
}

/// One tick of a body turning toward `target_q32` at `rotate_speed`
/// millidegrees a second.
pub fn turn_body_towards(rotation_q32: i64, target_q32: i64, rotate_speed: i64) -> (result: (i64, i64))
    requires
        rotate_speed >= 0,
    ensures
        result == turned_body_spec(rotation_q32, target_q32, rotate_speed),
        0 <= result.0 < FULL_TURN_Q32,
{
    let maximum = turn_per_tick(rotate_speed);
    let limited = rotation_distance_q32(rotation_q32, target_q32) > maximum;
    let unwrapped = rotate_towards_q32_unwrapped(rotation_q32, target_q32, maximum);
    let wrapped = rem_euclid(unwrapped, FULL_TURN_Q32);
    let millidegrees = if limited && unwrapped < FULL_TURN_Q32 && degrees_q32_to_unwrapped_mdeg(unwrapped)
        == 360_000 {
        360_000
    } else {
        degrees_q32_to_mdeg(wrapped)
    };
    (wrapped, millidegrees)
}

/// One tick of every weapon turning toward `target_q32` at `rotate_speed`
/// millidegrees a second.
pub fn turn_weapons_towards(rotations: &mut Vec<i64>, target_q32: i64, rotate_speed: i64)
    requires
        rotate_speed >= 0,
    ensures
        final(rotations).len() == old(rotations).len(),
        forall|i: int| 0 <= i < old(rotations).len() ==> #[trigger] final(rotations)[i] == rotate_towards_q32_spec(
            old(rotations)[i] as int,
            target_q32 as int,
            turn_per_tick_spec(rotate_speed),
        ),
{
    let maximum = turn_per_tick(rotate_speed);
    let ghost before = rotations@;
    let mut i: usize = 0;
    while i < rotations.len()
        invariant
            i <= rotations.len(),
            rotations.len() == before.len(),
            maximum == turn_per_tick_spec(rotate_speed),
            maximum >= 0,
            forall|j: int| 0 <= j < i ==> #[trigger] rotations[j] == rotate_towards_q32_spec(
                before[j] as int,
                target_q32 as int,
                maximum as int,
            ),
            forall|j: int| i <= j < rotations.len() ==> rotations[j] == before[j],
        decreases rotations.len() - i,
    {
        let turned = rotate_towards_q32(rotations[i], target_q32, maximum);
        rotations.set(i, turned);
        i = i + 1;
    }
}

/// Whether a unit has weapons and every one of them points within the half
/// angle, in millidegrees, of `target_q32`.
pub open spec fn weapons_in_attack_angle_spec(rotations: Seq<i64>, target_q32: i64, half_angle_mdeg: i64) -> bool {
    &&& rotations.len() > 0
    &&& forall|i: int| 0 <= i < rotations.len() ==> rotation_distance_q32_spec(
        #[trigger] rotations[i] as int,
        target_q32 as int,
    ) <= mdeg_to_degrees_q32_spec(half_angle_mdeg as int)
}

/// Whether a unit has weapons and every one of them points within the half
/// angle of `target_q32`.
pub fn weapons_in_attack_angle(rotations: &Vec<i64>, target_q32: i64, half_angle_mdeg: i64) -> (result: bool)
    ensures
        result == weapons_in_attack_angle_spec(rotations@, target_q32, half_angle_mdeg),
{
    if rotations.len() == 0 {
        return false;
    }
    let half_angle = mdeg_to_degrees_q32(half_angle_mdeg);
    let mut i: usize = 0;
    while i < rotations.len()
        invariant
            i <= rotations.len(),
            half_angle == mdeg_to_degrees_q32_spec(half_angle_mdeg as int),
            forall|j: int| 0 <= j < i ==> rotation_distance_q32_spec(#[trigger] rotations@[j] as int, target_q32 as int)
                <= half_angle,
        decreases rotations.len() - i,
    {
        if rotation_distance_q32(rotations[i], target_q32) > half_angle {
            return false;
        }
        i = i + 1;
    }
    true
}

/// How far a building stands from a unit at `(x, z)`, centre to centre, in
/// Q32.32 metres.
pub open spec fn building_distance_spec(building: BuildingState, x_q32: i64, z_q32: i64) -> int {
    native_q32_magnitude_spec(
        clamp_i64(building.x_q32 - x_q32) as i64,
        clamp_i64(building.z_q32 - z_q32) as i64,
    ) as int
}

/// Whether a building is an enemy construction that still stands, may be
/// targeted, and lies within `reach_q32` of a unit at `(x, z)` edge to edge.
pub open spec fn wall_within_reach(building: BuildingState, team: u32, x_q32: i64, z_q32: i64, reach_q32: int) -> bool {
    &&& building.building_type_id == CONSTRUCTION_BUILDING_TYPE
    &&& building.team_id != team
    &&& building_alive_spec(building)
    &&& building.targetable
    &&& building_distance_spec(building, x_q32, z_q32) <= clamp_i64(
        reach_q32 + div_trunc(building.bounds_width as int, 2),
    )
}

/// The reach, in Q32.32 metres, within which a unit of `range` and
/// `collision_radius`, in space units, finds a construction in its way.
pub open spec fn wall_reach_spec(range: i64, collision_radius: i64) -> int {
    space_to_q32_spec(clamp_i64(range + collision_radius))
}

/// Whether a building stands in the way of a unit at `(x, z)` firing at
/// `(aim_x, aim_z)`: within reach, and within the width of the line of fire.
pub open spec fn wall_in_the_way_of(
    building: BuildingState,
    team: u32,
    from: (i64, i64),
    aim: (i64, i64),
    reach_q32: int,
) -> bool {
    &&& wall_within_reach(building, team, from.0, from.1, reach_q32)
    &&& segment_offset_square(from, aim, (building.x_q32, building.z_q32)) < (space_to_q32_spec(
        WALL_IN_THE_WAY_WIDTH as int,
    ) + 1) * (space_to_q32_spec(WALL_IN_THE_WAY_WIDTH as int) + 1)
}

/// Which enemy construction stands between a unit of `team` at `from` and
/// what it aims at, at `aim`: of those within the unit's reach edge to edge
/// and within the width of the line of fire, the nearest to the unit, the
/// first listed of equally near ones; none when none does.
pub fn wall_in_the_way(
    buildings: &Vec<BuildingState>,
    team: u32,
    from: (i64, i64),
    aim: (i64, i64),
    range: i64,
    collision_radius: i64,
) -> (result: Option<u64>)
    requires
        forall|i: int|
            0 <= i < buildings.len() && wall_within_reach(
                #[trigger] buildings[i],
                team,
                from.0,
                from.1,
                wall_reach_spec(range, collision_radius),
            ) ==> segment_fits(from, aim, (buildings[i].x_q32, buildings[i].z_q32)),
    ensures
        ({
            let reach = wall_reach_spec(range, collision_radius);
            match result {
                None => forall|i: int| 0 <= i < buildings.len() ==> !wall_in_the_way_of(#[trigger] buildings[i], team, from, aim, reach),
                Some(id) => exists|i: int|
                    0 <= i < buildings.len() && wall_in_the_way_of(#[trigger] buildings[i], team, from, aim, reach)
                        && buildings[i].building_id == id && (forall|j: int|
                        0 <= j < buildings.len() && wall_in_the_way_of(#[trigger] buildings[j], team, from, aim, reach)
                            ==> building_distance_spec(buildings[j], from.0, from.1) >= building_distance_spec(
                            buildings[i],
                            from.0,
                            from.1,
                        ) && (j < i ==> building_distance_spec(buildings[j], from.0, from.1)
                            > building_distance_spec(buildings[i], from.0, from.1))),
            }
        }),
{
    let reach = space_to_q32(saturating_add(range, collision_radius));
    let width = space_to_q32(WALL_IN_THE_WAY_WIDTH);
    let ghost spec_reach = wall_reach_spec(range, collision_radius);
    let mut nearest: Option<(i64, u64)> = None;
    let ghost mut nearest_index: int = 0;
    let mut i: usize = 0;
    while i < buildings.len()
        invariant
            i <= buildings.len(),
            reach == spec_reach,
            spec_reach == wall_reach_spec(range, collision_radius),
            width == space_to_q32_spec(WALL_IN_THE_WAY_WIDTH as int),
            forall|k: int|
                0 <= k < buildings.len() && wall_within_reach(#[trigger] buildings[k], team, from.0, from.1, spec_reach)
                    ==> segment_fits(from, aim, (buildings[k].x_q32, buildings[k].z_q32)),
            match nearest {
                None => forall|k: int| 0 <= k < i ==> !wall_in_the_way_of(#[trigger] buildings[k], team, from, aim, spec_reach),
                Some((distance, id)) => {
                    &&& 0 <= nearest_index < i
                    &&& wall_in_the_way_of(buildings[nearest_index], team, from, aim, spec_reach)
                    &&& buildings[nearest_index].building_id == id
                    &&& distance == building_distance_spec(buildings[nearest_index], from.0, from.1)
                    &&& forall|k: int|
                        0 <= k < i && wall_in_the_way_of(#[trigger] buildings[k], team, from, aim, spec_reach)
                            ==> building_distance_spec(buildings[k], from.0, from.1) >= distance && (k
                            < nearest_index ==> building_distance_spec(buildings[k], from.0, from.1) > distance)
                },
            },
        decreases buildings.len() - i,
    {
        let building = &buildings[i];
        if building.building_type_id == CONSTRUCTION_BUILDING_TYPE && building.team_id != team && building_alive(building)
            && building.targetable {
            let distance = native_q32_magnitude(
                saturating_sub(building.x_q32, from.0),
                saturating_sub(building.z_q32, from.1),
            );
            if distance <= saturating_add(reach, building.bounds_width / 2) {
                assert(wall_within_reach(buildings[i as int], team, from.0, from.1, spec_reach));
                let gap = distance_to_segment_q32(from, aim, (building.x_q32, building.z_q32));
                proof {
                    lemma_integer_sqrt_at_most(
                        segment_offset_square(from, aim, (building.x_q32, building.z_q32)),
                        gap as int,
                        width as int,
                    );
                }
                if gap <= width {
                    let closer = match nearest {
                        None => true,
                        Some((best, _)) => distance < best,
                    };
                    if closer {
                        nearest = Some((distance, building.building_id));
                        proof {
                            nearest_index = i as int;
                        }
                    }
                }
            }
        }
        i = i + 1;
    }
    match nearest {
        None => None,
        Some((_, id)) => {
            assert(wall_in_the_way_of(buildings[nearest_index], team, from, aim, spec_reach));
            Some(id)
        },
    }
}

/// Where a unit searches for a target from, and what it searches with: the
/// point and bearing the search last saw it at, its radius, and its attack's
/// least range and range, in space units.
#[derive(Debug, Clone, Copy, PartialEq, Eq, Structural)]
pub struct SearchOrigin {
    pub x_q32: i64,
    pub z_q32: i64,
    pub rotation_q32: i64,
    pub radius: i64,
    pub min_range: i64,
    pub range: i64,
}

/// How a searching unit scores a building, lower being better; none when the
/// building is out of its reach.
pub open spec fn building_score_spec(building: BuildingState, origin: SearchOrigin) -> Option<i64> {
    normal_visible_full_rotation_target_score_spec(
        origin.x_q32,
        origin.z_q32,
        origin.radius,
        origin.rotation_q32,
        building.x_q32,
        building.z_q32,
        building_radius_spec(building) as i64,
        origin.min_range,
        origin.range,
    )
}

/// Whether a building of `team_id` is one a search may settle on: it stands,
/// may be targeted, and scores.
pub open spec fn scored_building(building: BuildingState, team_id: u32, origin: SearchOrigin) -> bool {
    &&& building.team_id == team_id
    &&& building_alive_spec(building)
    &&& building.targetable
    &&& building_score_spec(building, origin) is Some
}

/// The building of `team_id` a unit searching from `origin` settles on: of
/// those that stand, may be targeted and score, the best scored, the first
/// listed of equal ones; none for an attack that cannot strike the ground, or
/// when none scores.
pub fn select_building_target(
    buildings: &Vec<BuildingState>,
    team_id: u32,
    strikes_ground: bool,
    origin: &SearchOrigin,
) -> (result: Option<u64>)
    ensures
        match result {
            None => !strikes_ground || forall|i: int|
                0 <= i < buildings.len() ==> !scored_building(#[trigger] buildings[i], team_id, *origin),
            Some(id) => strikes_ground && exists|i: int|
                0 <= i < buildings.len() && scored_building(#[trigger] buildings[i], team_id, *origin)
                    && buildings[i].building_id == id && (forall|j: int|
                    0 <= j < buildings.len() && scored_building(#[trigger] buildings[j], team_id, *origin)
                        ==> building_score_spec(buildings[j], *origin)->0 >= building_score_spec(
                        buildings[i],
                        *origin,
                    )->0 && (j < i ==> building_score_spec(buildings[j], *origin)->0 > building_score_spec(
                        buildings[i],
                        *origin,
                    )->0)),
        },
{
    if !strikes_ground {
        return None;
    }
    let mut best: Option<(u64, i64)> = None;
    let ghost mut best_index: int = 0;
    let mut i: usize = 0;
    while i < buildings.len()
        invariant
            i <= buildings.len(),
            match best {
                None => forall|k: int| 0 <= k < i ==> !scored_building(#[trigger] buildings[k], team_id, *origin),
                Some((id, score)) => {
                    &&& 0 <= best_index < i
                    &&& scored_building(buildings[best_index], team_id, *origin)
                    &&& buildings[best_index].building_id == id
                    &&& building_score_spec(buildings[best_index], *origin) == Some(score)
                    &&& forall|k: int|
                        0 <= k < i && scored_building(#[trigger] buildings[k], team_id, *origin)
                            ==> building_score_spec(buildings[k], *origin)->0 >= score && (k < best_index
                            ==> building_score_spec(buildings[k], *origin)->0 > score)
                },
            },
        decreases buildings.len() - i,
    {
        let building = &buildings[i];
        if building.team_id == team_id && building_alive(building) && building.targetable {
            let scored = normal_visible_full_rotation_target_score_q32(
                origin.x_q32,
                origin.z_q32,
                origin.radius,
                origin.rotation_q32,
                building.x_q32,
                building.z_q32,
                building_radius(building),
                origin.min_range,
                origin.range,
            );
            match scored {
                Some(score) => {
                    let better = match best {
                        None => true,
                        Some((_, best_score)) => score < best_score,
                    };
                    if better {
                        best = Some((building.building_id, score));
                        proof {
                            best_index = i as int;
                        }
                    }
                },
                None => {},
            }
        }
        i = i + 1;
    }
    match best {
        None => None,
        Some((id, _)) => {
            assert(scored_building(buildings[best_index], team_id, *origin));
            Some(id)
        },
    }
}

/// Strikes a unit's `life` for `amount`: the life left, lowered by it,
/// saturated and never below zero, and the life it lost.
pub fn strike_life(life: i64, amount: i64) -> (result: (i64, i64))
    ensures
        result.0 == max_int(clamp_i64(life - amount), 0),
        result.1 == life - result.0,
{
    let left = saturating_sub(life, amount);
    let left = if left < 0 {
        0
    } else {
        left
    };
    (left, life - left)
}

/// Whether a building takes part in avoidance as a tower does: its data
/// enables collision and it is not a construction, whose avoidance is its
/// own layer's.
pub fn rvo_collides(building: &BuildingState) -> (result: bool)
    ensures
        result == (building.collision_enabled && building.building_type_id != CONSTRUCTION_BUILDING_TYPE),
{
    building.collision_enabled && building.building_type_id != CONSTRUCTION_BUILDING_TYPE
}

} // verus!
