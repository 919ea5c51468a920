use simulation::group::{GroupSlots, PendingRelease};
use simulation::lock::TargetLock;
use simulation::quadtree::FightActorRef;
use simulation::releases::due_group_releases;

fn release(slot: usize, step: u64, target: FightActorRef) -> (usize, PendingRelease) {
    (slot, PendingRelease { step, target })
}

#[test]
fn due_shots_and_ready_slots_go_off_in_order_of_slot() {
    let mut slots = GroupSlots {
        targets: vec![Some(1), Some(2), Some(3)],
        next_attack_steps: vec![0, 10, 8],
        prepare_ready_steps: vec![0, 0, 0],
        pending_releases: vec![
            release(2, 9, FightActorRef::Unit(3)),
            release(1, 12, FightActorRef::Unit(2)),
            release(1, 10, FightActorRef::Unit(7)),
        ],
        lock_target: None,
    };
    let lock = TargetLock {
        lock_target: None,
        in_the_way: None,
        group_skill_targets: vec![Some(1), Some(2), Some(3)],
        group_in_the_way: vec![None, None, Some((40, 3))],
    };
    let due = due_group_releases(&mut slots, &lock, 10);
    assert_eq!(
        due,
        vec![
            release(1, 10, FightActorRef::Unit(7)),
            release(1, 10, FightActorRef::Unit(2)),
            release(2, 9, FightActorRef::Building(40)),
            release(2, 10, FightActorRef::Building(40)),
        ]
    );
    assert_eq!(slots.pending_releases, vec![release(1, 12, FightActorRef::Unit(2))]);
}

#[test]
fn a_slot_not_ready_after_preparing_waits() {
    let mut slots = GroupSlots {
        targets: vec![Some(1), Some(2)],
        next_attack_steps: vec![0, 5],
        prepare_ready_steps: vec![0, 11],
        pending_releases: Vec::new(),
        lock_target: None,
    };
    let lock = TargetLock {
        lock_target: None,
        in_the_way: None,
        group_skill_targets: vec![Some(1), Some(2)],
        group_in_the_way: Vec::new(),
    };
    assert!(due_group_releases(&mut slots, &lock, 10).is_empty());
    assert_eq!(due_group_releases(&mut slots, &lock, 11), vec![release(1, 11, FightActorRef::Unit(2))]);
}
