use simulation::fixed::Q32_ONE;
use simulation::kernel::Reach;
use simulation::projectile::Projectile;
use simulation::quadtree::{FightActorRef, ObjectKind};
use simulation::rules::UnitDomain;

fn shot(target_x_metres: i64, speed: i64) -> Projectile {
    Projectile {
        id: 1,
        team: 0,
        owner: 7,
        target_kind: ObjectKind::Unit,
        target: 9,
        x: 0,
        y: 0,
        z: 0,
        x_q32: 0,
        y_q32: 0,
        z_q32: 0,
        cached_target_x: target_x_metres * 1_000,
        cached_target_y: 0,
        cached_target_z: 0,
        cached_target_x_q32: target_x_metres * Q32_ONE,
        cached_target_y_q32: 0,
        cached_target_z_q32: 0,
        cached_target_radius: 1_000,
        speed,
        damage: 100,
        life: 40,
        lock_target: true,
    }
}

#[test]
fn a_projectile_flies_its_speed_for_a_twentieth_of_a_second_toward_its_target() {
    // Sixty metres a second: three metres a tick.
    let mut projectile = shot(10, 60_000);
    assert!(!projectile.fly());
    assert!((2_990..=3_000).contains(&projectile.x), "{}", projectile.x);
    assert_eq!((projectile.y, projectile.z), (0, 0));
    assert!(!projectile.fly());
    assert!(!projectile.fly());
    assert!((8_990..=9_000).contains(&projectile.x), "{}", projectile.x);
    // A hair more than the target's metre of radius remains: it flies what
    // remains, and then it has arrived and stays put.
    assert!(!projectile.fly());
    assert!((9_990..=10_000).contains(&projectile.x), "{}", projectile.x);
    let before = projectile;
    assert!(projectile.fly());
    assert_eq!(projectile, before);
}

#[test]
fn a_projectile_never_flies_past_its_target() {
    let mut projectile = shot(2, 60_000);
    assert!(!projectile.fly());
    assert!((1_990..=2_010).contains(&projectile.x), "{}", projectile.x);
    assert!(projectile.fly());
}

#[test]
fn a_projectile_follows_a_living_target_and_lands_its_hit_there() {
    let mut projectile = shot(10, 60_000);
    projectile.follow(5_000, -5_000, 5 * Q32_ONE, -5 * Q32_ONE, 70_000, 1_500);
    assert_eq!((projectile.cached_target_x, projectile.cached_target_y, projectile.cached_target_z), (5_000, 70_000, -5_000));
    assert_eq!(projectile.cached_target_y_q32, 70 * Q32_ONE);
    assert_eq!(projectile.cached_target_radius, 1_500);

    let hit = projectile.hit(1, 2_000, UnitDomain::Air);
    assert_eq!(hit.team, 1);
    assert_eq!(hit.aimed, FightActorRef::Unit(9));
    assert_eq!(hit.reach, Reach::Domain(UnitDomain::Air));
    assert!(hit.hits_aimed);
    assert_eq!(hit.center, (0, 0));
    assert_eq!(hit.splash_radius, 2_000);

    projectile.target_kind = ObjectKind::Building;
    let hit = projectile.hit(1, 0, UnitDomain::Air);
    assert_eq!(hit.aimed, FightActorRef::Building(9));
    assert_eq!(hit.reach, Reach::Domain(UnitDomain::Ground));
}
