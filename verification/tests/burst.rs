use simulation::burst::{burst_releases, drain_due_projectiles, PendingProjectileRelease};
use simulation::quadtree::{FightActorRef, ObjectKind};

#[test]
fn a_burst_spaces_its_releases_and_takes_its_weapons_in_turn() {
    let offsets = vec![(0, 0), (5, -5), (-3, 2)];
    let releases = burst_releases(FightActorRef::Building(9), 100, 200, &offsets, 10, 2, 2).unwrap();
    let release = |step: u64, x: i64, z: i64, weapon_index: usize| PendingProjectileRelease {
        step,
        target_kind: ObjectKind::Building,
        target: 9,
        target_x_q32: x,
        target_z_q32: z,
        weapon_index,
    };
    assert_eq!(releases, vec![release(10, 100, 200, 0), release(12, 105, 195, 1), release(14, 97, 202, 0)]);
}

#[test]
fn a_burst_without_offsets_is_refused_and_an_aim_saturates() {
    assert!(burst_releases(FightActorRef::Unit(1), 0, 0, &Vec::new(), 10, 2, 1).is_err());
    let releases = burst_releases(FightActorRef::Unit(1), i64::MAX, i64::MIN, &vec![(0, 0), (1, -1)], u64::MAX - 1, 3, 1).unwrap();
    assert_eq!(releases[1].target_x_q32, i64::MAX);
    assert_eq!(releases[1].target_z_q32, i64::MIN);
    assert_eq!(releases[1].step, u64::MAX);
    assert_eq!(releases[1].target_kind, ObjectKind::Unit);
}

#[test]
fn due_projectiles_are_drained_in_order_and_the_last_finishes_the_burst() {
    let mut pending = burst_releases(FightActorRef::Unit(3), 0, 0, &vec![(0, 0), (1, 1), (2, 2)], 10, 2, 1).unwrap();
    let (due, finished) = drain_due_projectiles(&mut pending, 12);
    assert_eq!(due.iter().map(|release| release.step).collect::<Vec<_>>(), vec![10, 12]);
    assert!(!finished);
    assert_eq!(pending.len(), 1);
    let (due, finished) = drain_due_projectiles(&mut pending, 13);
    assert!(due.is_empty() && !finished);
    let (due, finished) = drain_due_projectiles(&mut pending, 14);
    assert_eq!(due.len(), 1);
    assert!(finished);
    assert!(pending.is_empty());
}
