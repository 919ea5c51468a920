use simulation::buildings::{strike_building, BuildingState};
use simulation::engagement::{
    building_view, rvo_collides, select_building_target, strike_life, target_in_attack_angle, SearchOrigin, target_in_attack_range, turn_body_towards, turn_weapons_towards,
    wall_in_the_way, weapons_in_attack_angle, FightActorView,
};
use simulation::fixed::{FULL_TURN_Q32, Q32_ONE};
use simulation::rules::UnitDomain;
use simulation::trig::direction_degrees_q32_raw;

fn construction(building_id: u64, team_id: u32, x_metres: i64, z_metres: i64) -> BuildingState {
    BuildingState {
        building_id,
        team_id,
        building_type_id: 3,
        x_q32: x_metres * Q32_ONE,
        z_q32: z_metres * Q32_ONE,
        bounds_width: 2 * Q32_ONE,
        bounds_height: 2 * Q32_ONE,
        life: 100,
        maximum_life: 100,
        available: true,
        targetable: true,
        collision_enabled: true,
    }
}

fn unit_at(x_metres: i64, radius: i64, alive: bool) -> FightActorView {
    FightActorView {
        team: 1,
        x_q32: x_metres * Q32_ONE,
        z_q32: 0,
        query_x_q32: x_metres * Q32_ONE,
        query_z_q32: 0,
        radius,
        alive,
        query_alive: alive,
        targetable: alive,
        domain: UnitDomain::Ground,
    }
}

#[test]
fn a_building_is_seen_on_the_ground_with_half_its_box_as_radius() {
    let mut building = construction(7, 1, 3, -4);
    building.available = false;
    let view = building_view(&building);
    assert_eq!(view.team, 1);
    assert_eq!((view.x_q32, view.z_q32), (3 * Q32_ONE, -4 * Q32_ONE));
    assert_eq!(view.radius, 1_000);
    assert!(view.alive);
    assert!(!view.targetable);
    assert_eq!(view.domain, UnitDomain::Ground);
    building.life = 0;
    assert!(!building_view(&building).alive);
}

#[test]
fn a_target_is_in_range_edge_to_edge() {
    // Ten metres apart, a metre of radius each: eight metres edge to edge.
    let target = unit_at(10, 1_000, true);
    assert!(target_in_attack_range(0, 0, 1_000, 0, 9_000, &target));
    assert!(!target_in_attack_range(0, 0, 1_000, 0, 7_000, &target));
    assert!(!target_in_attack_range(0, 0, 1_000, 8_500, 20_000, &target));
    assert!(!target_in_attack_range(0, 0, 1_000, 0, 9_000, &unit_at(10, 1_000, false)));
}

#[test]
fn a_target_inside_the_attacker_is_at_no_distance() {
    let target = unit_at(1, 1_000, true);
    assert!(target_in_attack_range(0, 0, 1_000, 0, 0, &target));
}

#[test]
fn a_target_is_in_the_attack_angle_when_the_body_faces_it() {
    let target = unit_at(10, 1_000, true);
    let bearing = direction_degrees_q32_raw(10 * Q32_ONE, 0);
    assert!(target_in_attack_angle(bearing, 0, 0, 5_000, &target));
    let away = (bearing + 90 * Q32_ONE) % FULL_TURN_Q32;
    assert!(!target_in_attack_angle(away, 0, 0, 5_000, &target));
    assert!(target_in_attack_angle(away, 0, 0, 180_000, &target));
    assert!(!target_in_attack_angle(bearing, 0, 0, 5_000, &unit_at(10, 1_000, false)));
}

#[test]
fn a_body_turns_at_most_its_speed_in_a_tick() {
    // Ninety degrees a second for one twentieth of a second: four and a half.
    let (turned, millidegrees) = turn_body_towards(0, 90 * Q32_ONE, 90_000);
    assert!(turned > 4 * Q32_ONE && turned < 5 * Q32_ONE);
    assert!((4_499..=4_500).contains(&millidegrees));
    let (reached, reached_mdeg) = turn_body_towards(0, Q32_ONE, 90_000);
    assert_eq!(reached, Q32_ONE);
    assert_eq!(reached_mdeg, 1_000);
}

#[test]
fn a_body_turns_the_short_way_round() {
    let (turned, _) = turn_body_towards(Q32_ONE, 359 * Q32_ONE, 90_000);
    assert_eq!(turned, 359 * Q32_ONE);
    let (turned, _) = turn_body_towards(0, 270 * Q32_ONE, 90_000);
    assert!(turned > 355 * Q32_ONE && turned < FULL_TURN_Q32);
}

#[test]
fn every_weapon_turns_toward_the_target() {
    let mut rotations = vec![0, 10 * Q32_ONE, 180 * Q32_ONE];
    turn_weapons_towards(&mut rotations, 10 * Q32_ONE, 4_000_000);
    assert_eq!(rotations, vec![10 * Q32_ONE; 3]);
    assert!(weapons_in_attack_angle(&rotations, 10 * Q32_ONE, 0));
    assert!(!weapons_in_attack_angle(&Vec::new(), 10 * Q32_ONE, 180_000));
    assert!(!weapons_in_attack_angle(&vec![10 * Q32_ONE, 40 * Q32_ONE], 10 * Q32_ONE, 20_000));
}

#[test]
fn the_nearest_enemy_construction_on_the_line_of_fire_is_in_the_way() {
    let buildings = vec![
        construction(1, 1, 30, 0),
        construction(2, 1, 20, 0),
        construction(3, 0, 10, 0),
        construction(4, 1, 15, 40),
    ];
    let found = wall_in_the_way(&buildings, 0, (0, 0), (50 * Q32_ONE, 0), 60_000, 1_000);
    assert_eq!(found, Some(2));
    let short = wall_in_the_way(&buildings, 0, (0, 0), (50 * Q32_ONE, 0), 5_000, 1_000);
    assert_eq!(short, None);
}

#[test]
fn a_construction_beside_the_line_of_fire_is_not_in_the_way() {
    let buildings = vec![construction(1, 1, 20, 30), construction(2, 1, 20, 11)];
    assert_eq!(wall_in_the_way(&buildings, 0, (0, 0), (50 * Q32_ONE, 0), 60_000, 1_000), Some(2));
    let far = vec![construction(1, 1, 20, 30), construction(2, 1, 20, 12)];
    assert_eq!(wall_in_the_way(&far, 0, (0, 0), (50 * Q32_ONE, 0), 60_000, 1_000), None);
}

#[test]
fn of_two_constructions_equally_near_the_first_listed_is_in_the_way() {
    let buildings = vec![construction(5, 1, 20, 1), construction(6, 1, 20, -1)];
    assert_eq!(wall_in_the_way(&buildings, 0, (0, 0), (50 * Q32_ONE, 0), 60_000, 1_000), Some(5));
}

fn origin(range: i64) -> SearchOrigin {
    SearchOrigin { x_q32: 0, z_q32: 0, rotation_q32: 0, radius: 1_000, min_range: 0, range }
}

#[test]
fn a_search_settles_on_the_best_scored_standing_building_of_the_team() {
    let mut fallen = construction(1, 1, 5, 0);
    fallen.life = 0;
    let mut hidden = construction(2, 1, 6, 0);
    hidden.targetable = false;
    let buildings = vec![fallen, hidden, construction(3, 0, 7, 0), construction(4, 1, 20, 0), construction(5, 1, 9, 0)];
    assert_eq!(select_building_target(&buildings, 1, true, &origin(60_000)), Some(5));
    assert_eq!(select_building_target(&buildings, 1, false, &origin(60_000)), None);
    assert_eq!(select_building_target(&buildings, 2, true, &origin(60_000)), None);
}

#[test]
fn a_building_beyond_the_range_scores_worse_and_one_inside_the_least_range_not_at_all() {
    let buildings = vec![construction(4, 1, 50, 0), construction(5, 1, 30, 0)];
    assert_eq!(select_building_target(&buildings, 1, true, &origin(10_000)), Some(5));
    let near_only = SearchOrigin { min_range: 60_000, ..origin(80_000) };
    assert_eq!(select_building_target(&buildings, 1, true, &near_only), None);
}

#[test]
fn a_blow_lowers_a_building_to_no_less_than_nothing_and_fells_it() {
    let mut building = construction(1, 1, 0, 0);
    assert_eq!(strike_building(&mut building, 30).unwrap(), (30, false));
    assert_eq!(building.life, 70);
    assert!(building.targetable);
    assert_eq!(strike_building(&mut building, 500).unwrap(), (70, true));
    assert_eq!(building.life, 0);
    assert!(!building.targetable);
    assert_eq!(strike_building(&mut building, 5).unwrap(), (0, false));
}

#[test]
fn a_blow_beyond_i32_is_refused() {
    let mut building = construction(1, 1, 0, 0);
    let error = strike_building(&mut building, i64::from(i32::MAX) + 1).unwrap_err();
    assert_eq!(error.message, "building damage exceeds i32");
    assert_eq!(building.life, 100);
}

#[test]
fn a_unit_loses_no_more_life_than_it_has() {
    assert_eq!(strike_life(100, 30), (70, 30));
    assert_eq!(strike_life(20, 30), (0, 20));
    assert_eq!(strike_life(0, 30), (0, 0));
}

#[test]
fn only_a_colliding_building_that_is_not_a_construction_avoids_as_a_tower() {
    let mut tower = construction(1, 1, 0, 0);
    assert!(!rvo_collides(&tower));
    tower.building_type_id = 1;
    assert!(rvo_collides(&tower));
    tower.collision_enabled = false;
    assert!(!rvo_collides(&tower));
}
