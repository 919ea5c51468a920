use simulation::buildings::BuildingState;
use simulation::fixed::Q32_ONE;
use simulation::hits::{damage_targets, DamageHit, UnitTarget};
use simulation::kernel::Reach;
use simulation::quadtree::FightActorRef;
use simulation::rules::{AttackTargets, UnitDomain};

fn block(building_id: u64, team_id: u32, x_metres: i64) -> BuildingState {
    BuildingState {
        building_id,
        team_id,
        building_type_id: 3,
        x_q32: x_metres * Q32_ONE,
        z_q32: 0,
        bounds_width: 2 * Q32_ONE,
        bounds_height: 2 * Q32_ONE,
        life: 100,
        maximum_life: 100,
        available: true,
        targetable: true,
        collision_enabled: true,
    }
}

fn unit(id: u64, team: u32, x: i64, domain: UnitDomain) -> UnitTarget {
    UnitTarget { id, team, x, z: 0, radius: 1_000, alive: true, domain }
}

fn ground_only() -> Reach {
    Reach::Targets(AttackTargets { ground: true, air: false })
}

fn at_unit(aimed: u64, center: (i64, i64), splash_radius: i64) -> DamageHit {
    DamageHit {
        team: 0,
        aimed: FightActorRef::Unit(aimed),
        hits_aimed: true,
        center,
        splash_radius,
        reach: ground_only(),
    }
}

fn at_building(aimed: u64, center: (i64, i64), splash_radius: i64) -> DamageHit {
    DamageHit {
        team: 0,
        aimed: FightActorRef::Building(aimed),
        hits_aimed: true,
        center,
        splash_radius,
        reach: ground_only(),
    }
}

#[test]
fn a_blow_without_splash_strikes_only_what_it_was_aimed_at() {
    let units = vec![unit(7, 1, 10_000, UnitDomain::Ground), unit(8, 1, 10_500, UnitDomain::Ground)];
    let struck = damage_targets(&Vec::new(), &units, &at_unit(8, (10_500, 0), 0)).unwrap();
    assert_eq!(struck, vec![FightActorRef::Unit(8)]);
}

#[test]
fn a_splash_strikes_every_touchable_enemy_it_reaches_in_search_order() {
    let mut dead = unit(4, 1, 10_000, UnitDomain::Ground);
    dead.alive = false;
    let units = vec![
        unit(9, 1, 12_500, UnitDomain::Ground),
        unit(3, 0, 10_000, UnitDomain::Ground),
        dead,
        unit(5, 1, 10_000, UnitDomain::Air),
        unit(2, 1, 10_000, UnitDomain::Ground),
        unit(6, 1, 20_000, UnitDomain::Ground),
    ];
    let struck = damage_targets(&Vec::new(), &units, &at_unit(2, (10_000, 0), 2_000)).unwrap();
    assert_eq!(struck, vec![FightActorRef::Unit(9), FightActorRef::Unit(2)]);
}

#[test]
fn a_projectile_that_missed_strikes_its_target_only_if_the_splash_reaches_it() {
    let units = vec![unit(2, 1, 10_000, UnitDomain::Ground)];
    let mut hit = at_unit(2, (20_000, 0), 2_000);
    hit.hits_aimed = false;
    assert_eq!(damage_targets(&Vec::new(), &units, &hit).unwrap(), Vec::new());
    hit.center = (12_500, 0);
    assert_eq!(damage_targets(&Vec::new(), &units, &hit).unwrap(), vec![FightActorRef::Unit(2)]);
}

#[test]
fn a_splash_at_a_unit_that_reaches_an_enemy_building_is_refused() {
    let units = vec![unit(2, 1, 10_000, UnitDomain::Ground)];
    let buildings = vec![block(1, 1, 12)];
    let error = damage_targets(&buildings, &units, &at_unit(2, (10_000, 0), 2_000)).unwrap_err();
    assert_eq!(error.message, "splash against a building is not closed");
    let friendly = vec![block(1, 0, 12)];
    assert_eq!(damage_targets(&friendly, &units, &at_unit(2, (10_000, 0), 2_000)).unwrap(), vec![FightActorRef::Unit(2)]);
}

#[test]
fn a_shot_at_a_building_splashes_the_enemy_buildings_beside_it() {
    let buildings = vec![block(1, 1, 10), block(2, 1, 20), block(3, 1, 19), block(4, 0, 11)];
    let struck = damage_targets(&buildings, &Vec::new(), &at_building(1, (10_000, 0), 8_000)).unwrap();
    assert_eq!(struck, vec![FightActorRef::Building(1), FightActorRef::Building(3)]);
    let without_splash = damage_targets(&buildings, &Vec::new(), &at_building(1, (10_000, 0), 0)).unwrap();
    assert_eq!(without_splash, vec![FightActorRef::Building(1)]);
}

#[test]
fn a_shot_that_lands_beside_a_building_does_not_strike_it() {
    let buildings = vec![block(1, 1, 10)];
    let struck = damage_targets(&buildings, &Vec::new(), &at_building(1, (30_000, 0), 0)).unwrap();
    assert_eq!(struck, Vec::new());
}

#[test]
fn a_shot_at_a_missing_building_is_refused() {
    let error = damage_targets(&vec![block(1, 1, 10)], &Vec::new(), &at_building(9, (10_000, 0), 0)).unwrap_err();
    assert_eq!(error.message, "damage target building is absent");
}

#[test]
fn a_splash_at_a_building_that_reaches_an_enemy_unit_is_refused() {
    let buildings = vec![block(1, 1, 10)];
    let units = vec![unit(2, 1, 14_000, UnitDomain::Ground)];
    let error = damage_targets(&buildings, &units, &at_building(1, (10_000, 0), 4_000)).unwrap_err();
    assert_eq!(error.message, "splash from a shot at a building onto a unit is not closed");
}
