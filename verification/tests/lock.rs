use simulation::lock::TargetLock;
use simulation::quadtree::FightActorRef;

fn unit(id: u64) -> FightActorRef {
    FightActorRef::Unit(id)
}

fn building(id: u64) -> FightActorRef {
    FightActorRef::Building(id)
}

fn ungrouped(lock_target: Option<FightActorRef>, in_the_way: Option<(u64, FightActorRef)>) -> TargetLock {
    TargetLock { lock_target, in_the_way, group_skill_targets: Vec::new(), group_in_the_way: Vec::new() }
}

#[test]
fn the_weapons_fire_at_a_wall_found_for_the_current_lock() {
    assert_eq!(ungrouped(Some(unit(5)), Some((9, unit(5)))).attack_target(), Some(building(9)));
}

#[test]
fn a_wall_found_for_another_lock_no_longer_answers() {
    assert_eq!(ungrouped(Some(unit(6)), Some((9, unit(5)))).attack_target(), Some(unit(6)));
    assert_eq!(ungrouped(None, Some((9, unit(5)))).attack_target(), None);
    assert_eq!(ungrouped(Some(unit(6)), None).attack_target(), Some(unit(6)));
}

#[test]
fn a_grouped_slot_fires_at_the_wall_found_for_its_own_unit() {
    let lock = TargetLock {
        lock_target: Some(unit(2)),
        in_the_way: None,
        group_skill_targets: vec![Some(2), Some(3), None],
        group_in_the_way: vec![Some((9, 2)), Some((9, 4)), Some((8, 3))],
    };
    assert_eq!(lock.group_attack_target(0), Some(building(9)));
    assert_eq!(lock.group_attack_target(1), Some(unit(3)));
    assert_eq!(lock.group_attack_target(2), None);
    assert_eq!(lock.group_attack_target(7), None);
}

#[test]
fn a_core_fires_at_its_first_slot_else_its_highest_else_the_weapons_target() {
    let mut lock = TargetLock {
        lock_target: Some(unit(2)),
        in_the_way: Some((9, unit(2))),
        group_skill_targets: vec![Some(3), Some(4), Some(5), None],
        group_in_the_way: vec![None, None, None, None],
    };
    assert_eq!(lock.mechanical_attack_target(), Some(unit(3)));
    assert_eq!(lock.mechanical_lock_target(), Some(unit(3)));
    lock.group_skill_targets[0] = None;
    assert_eq!(lock.mechanical_attack_target(), Some(unit(5)));
    assert_eq!(lock.mechanical_lock_target(), Some(unit(5)));
    lock.group_skill_targets = vec![None; 4];
    assert_eq!(lock.mechanical_attack_target(), Some(building(9)));
    assert_eq!(lock.mechanical_lock_target(), Some(unit(2)));
}

#[test]
fn dropping_the_lock_keeps_the_construction_found_for_it() {
    let mut lock = TargetLock {
        lock_target: Some(unit(5)),
        in_the_way: Some((9, unit(5))),
        group_skill_targets: vec![Some(5), Some(6)],
        group_in_the_way: vec![Some((9, 5)), None],
    };
    lock.drop_lock();
    assert_eq!(lock.lock_target, None);
    assert_eq!(lock.in_the_way, Some((9, unit(5))));
    assert_eq!(lock.group_skill_targets, vec![None, None]);
    assert_eq!(lock.group_in_the_way, vec![None, None]);
    assert_eq!(lock.attack_target(), None);
}

#[test]
fn each_weapon_is_read_aiming_at_what_it_fires_at() {
    let grouped = TargetLock {
        lock_target: Some(unit(5)),
        in_the_way: None,
        group_skill_targets: vec![None, Some(6)],
        group_in_the_way: vec![None, Some((9, 6))],
    };
    assert_eq!(grouped.weapon_aim(true, 0, None, None), Some(unit(5)));
    assert_eq!(grouped.weapon_aim(true, 1, None, None), Some(building(9)));
    assert_eq!(grouped.weapon_aim(true, 2, None, None), None);
    let idle = ungrouped(None, None);
    assert_eq!(idle.weapon_aim(false, 0, Some(4), Some(unit(3))), Some(building(4)));
    assert_eq!(idle.weapon_aim(false, 0, None, Some(unit(3))), Some(unit(3)));
    let locked = ungrouped(Some(unit(2)), None);
    assert_eq!(locked.weapon_aim(false, 0, Some(4), Some(unit(3))), Some(unit(2)));
}
