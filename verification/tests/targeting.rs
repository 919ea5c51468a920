use simulation::buildings::BuildingState;
use simulation::engagement::{turn_body_towards, weapons_in_attack_angle, FightActorView, SearchOrigin};
use simulation::fixed::{degrees_q32_to_mdeg, mdeg_to_degrees_q32, space_to_q32, Q32_ONE};
use simulation::hits::{damage_targets, DamageHit, UnitTarget};
use simulation::kernel::Reach;
use simulation::quadtree::FightActorRef;
use simulation::rules::{AttackTargets, UnitDomain};
use simulation::targeting::{
    rank_group_unit_targets, select_normal_target, select_normal_unit_target, Candidate,
};

const GROUND: AttackTargets = AttackTargets { ground: true, air: false };

/// An Arclight at the origin facing along its own bearing of zero: a metre
/// and a half of radius and a hundred and twenty metres of range.
fn arclight_origin() -> SearchOrigin {
    SearchOrigin { x_q32: 0, z_q32: 0, rotation_q32: 0, radius: 1_500, min_range: 0, range: 120_000 }
}

fn view(team: u32, x: i64, z: i64) -> FightActorView {
    FightActorView {
        team,
        x_q32: space_to_q32(x),
        z_q32: space_to_q32(z),
        query_x_q32: space_to_q32(x),
        query_z_q32: space_to_q32(z),
        radius: 1_500,
        alive: true,
        query_alive: true,
        targetable: true,
        domain: UnitDomain::Ground,
    }
}

fn unit(id: u64, team: u32, x: i64, z: i64) -> Candidate {
    Candidate { listed_team: team, target: FightActorRef::Unit(id), view: Some(view(team, x, z)) }
}

#[test]
fn positive_body_rotation_exposes_the_exact_full_turn_for_one_tick() {
    // A body that turns six degrees a tick.
    let speed = 120_000;
    let (rotation_q32, rotation) = turn_body_towards(mdeg_to_degrees_q32(354_000), mdeg_to_degrees_q32(30_000), speed);
    assert_eq!(degrees_q32_to_mdeg(rotation_q32), 0);
    assert_eq!(rotation, 360_000);

    let (_, rotation) = turn_body_towards(rotation_q32, mdeg_to_degrees_q32(30_000), speed);
    assert_eq!(rotation, 6_000);
}

#[test]
fn rhino_attack_angle_requires_every_weapon_and_accepts_the_boundary() {
    // A Rhino's attack reaches forty degrees either side.
    let half_angle = 40_000;
    let target = 0;
    let mut rotations = vec![0, 41_i64 << 32];
    assert!(!weapons_in_attack_angle(&rotations, target, half_angle));
    rotations[1] = 40_i64 << 32;
    assert!(weapons_in_attack_angle(&rotations, target, half_angle));
}

#[test]
fn normal_selector_keeps_the_first_native_quadtree_candidate_on_equal_score() {
    let candidates = vec![unit(1, 0, 0, 0), unit(2, 1, -20_000, 100_000), unit(3, 1, 20_000, 100_000)];
    let chosen = select_normal_unit_target(&candidates, 0, GROUND, &arclight_origin(), true, false);
    assert_eq!(chosen.unwrap(), Some(2));
}

#[test]
fn normal_selector_refuses_a_building_best_candidate() {
    let building = Candidate { listed_team: 1, target: FightActorRef::Building(3), view: Some(view(1, 0, 20_000)) };
    let candidates = vec![unit(1, 0, 0, 0), building, unit(2, 1, 0, 100_000)];
    let error = select_normal_unit_target(&candidates, 0, GROUND, &arclight_origin(), true, false).unwrap_err();
    assert!(error.message.contains("selector chose building"));
    assert_eq!(error.message, "Normal selector chose building 3, but this caller requires a unit");
}

#[test]
fn normal_selector_scores_the_start_of_tick_snapshot() {
    let mut candidates = vec![unit(1, 0, 0, 0), unit(2, 1, 0, 20_000), unit(3, 1, 0, 40_000)];
    let origin = arclight_origin();
    assert_eq!(select_normal_unit_target(&candidates, 0, GROUND, &origin, true, false).unwrap(), Some(2));

    // They move within the tick; the search still sees where they stood.
    candidates[1].view.as_mut().unwrap().z_q32 = space_to_q32(100_000);
    candidates[2].view.as_mut().unwrap().z_q32 = space_to_q32(10_000);
    assert_eq!(select_normal_unit_target(&candidates, 0, GROUND, &origin, true, false).unwrap(), Some(2));
    // Read live, the one that came nearer is chosen.
    assert_eq!(select_normal_unit_target(&candidates, 0, GROUND, &origin, true, true).unwrap(), Some(3));
}

#[test]
fn a_search_settles_on_nothing_when_no_enemy_lives_or_none_can_be_hit() {
    let candidates = vec![unit(2, 1, 0, 20_000)];
    let origin = arclight_origin();
    assert_eq!(select_normal_target(&candidates, 0, GROUND, &origin, false, false), None);
    let air_only = AttackTargets { ground: false, air: true };
    assert_eq!(select_normal_target(&candidates, 0, air_only, &origin, true, false), None);
    let mut dead = candidates.clone();
    dead[0].view.as_mut().unwrap().query_alive = false;
    assert_eq!(select_normal_target(&dead, 0, GROUND, &origin, true, false), None);
    let gone = vec![Candidate { listed_team: 1, target: FightActorRef::Unit(2), view: None }];
    assert_eq!(select_normal_target(&gone, 0, GROUND, &origin, true, false), None);
    let own = vec![unit(2, 0, 0, 20_000)];
    assert_eq!(select_normal_target(&own, 0, GROUND, &origin, true, false), None);
}

#[test]
fn a_grouped_skill_ranks_enemy_units_best_first_and_keeps_ties_in_search_order() {
    let building = Candidate { listed_team: 1, target: FightActorRef::Building(9), view: Some(view(1, 0, 5_000)) };
    let candidates = vec![
        unit(1, 0, 0, 1_000),
        unit(4, 1, 0, 60_000),
        building,
        unit(5, 1, -10_000, 30_000),
        unit(6, 1, 10_000, 30_000),
        unit(7, 1, 0, 200_000),
    ];
    let ranked = rank_group_unit_targets(&candidates, 0, GROUND, &arclight_origin(), false);
    assert_eq!(ranked, vec![5, 6, 4, 7]);
}

#[test]
fn direct_splash_refuses_a_building_before_unit_damage() {
    let tower = BuildingState {
        building_id: 1,
        team_id: 1,
        building_type_id: 1,
        x_q32: space_to_q32(1_000),
        z_q32: space_to_q32(20_000),
        bounds_width: 4 * Q32_ONE,
        bounds_height: 4 * Q32_ONE,
        life: 5_000,
        maximum_life: 5_000,
        available: true,
        targetable: true,
        collision_enabled: true,
    };
    let target = UnitTarget { id: 2, team: 1, x: 0, z: 20_000, radius: 1_500, alive: true, domain: UnitDomain::Ground };
    let hit = DamageHit {
        team: 0,
        aimed: FightActorRef::Unit(2),
        hits_aimed: true,
        center: (0, 20_000),
        splash_radius: 3_000,
        reach: Reach::Targets(GROUND),
    };
    let error = damage_targets(&vec![tower], &vec![target], &hit).unwrap_err();
    assert!(error.message.contains("splash against a building is not closed"));
}
