use simulation::group::{
    allocation_due, rank_for_core, share_group_targets, update_group_skill_targets, Allocation, GroupSlots,
    PendingRelease, RankedUnit,
};
use simulation::quadtree::FightActorRef;

fn slots(targets: Vec<Option<u64>>, next_attack_steps: Vec<u64>) -> GroupSlots {
    let count = targets.len();
    GroupSlots {
        targets,
        next_attack_steps,
        prepare_ready_steps: vec![0; count],
        pending_releases: Vec::new(),
        lock_target: None,
    }
}

fn allocation(ranked: Vec<u64>, core_ranked: Vec<u64>, current_target: Option<u64>, allow_same_target: bool) -> Allocation {
    Allocation { ranked, core_ranked, current_target, prepare_steps: 4, allow_same_target, step: 10 }
}

#[test]
fn empty_slots_seed_the_core_with_the_lock_and_give_children_first_shots() {
    let mut group = slots(vec![None, None, None], vec![0, 0, 0]);
    share_group_targets(&mut group, &allocation(vec![7, 5, 9], vec![7, 5], Some(7), false));
    assert_eq!(group.targets, vec![Some(7), Some(5), Some(9)]);
    assert_eq!(
        group.pending_releases,
        vec![
            (1, PendingRelease { step: 15, target: FightActorRef::Unit(5) }),
            (2, PendingRelease { step: 15, target: FightActorRef::Unit(9) }),
        ]
    );
    assert_eq!(group.prepare_ready_steps, vec![0, 0, 0]);
    assert_eq!(group.lock_target, Some(FightActorRef::Unit(9)));
}

#[test]
fn an_empty_core_swaps_with_the_child_holding_a_unit_in_its_range() {
    let mut group = slots(vec![None, Some(5), Some(3)], vec![0, 0, 0]);
    group.lock_target = Some(FightActorRef::Unit(3));
    share_group_targets(&mut group, &allocation(vec![9, 5, 3], vec![5], None, false));
    assert_eq!(group.targets, vec![Some(5), Some(9), Some(3)]);
    assert_eq!(group.prepare_ready_steps, vec![15, 15, 0]);
    assert!(group.pending_releases.is_empty());
    assert_eq!(group.lock_target, Some(FightActorRef::Unit(9)));
}

#[test]
fn a_slot_after_an_intervening_attack_is_served_first() {
    let mut group = slots(vec![Some(1), Some(2), Some(3), Some(4)], vec![0, 0, 5, 11]);
    share_group_targets(&mut group, &allocation(vec![1, 3, 8, 9], vec![1], None, false));
    assert_eq!(group.targets, vec![Some(1), Some(9), Some(3), Some(8)]);
    assert!(group.pending_releases.is_empty());
    assert_eq!(group.lock_target, Some(FightActorRef::Unit(8)));
}

#[test]
fn without_an_intervening_attack_slots_are_served_in_order() {
    let mut group = slots(vec![Some(1), Some(2), Some(3), Some(4)], vec![0, 0, 0, 11]);
    share_group_targets(&mut group, &allocation(vec![1, 3, 8, 9], vec![1], None, false));
    assert_eq!(group.targets, vec![Some(1), Some(8), Some(3), Some(9)]);
    assert_eq!(group.lock_target, Some(FightActorRef::Unit(9)));
}

#[test]
fn a_shared_unit_is_handed_to_a_child_when_every_ranked_unit_is_taken() {
    let mut group = slots(vec![Some(1), Some(2)], vec![0, 0]);
    share_group_targets(&mut group, &allocation(vec![1], vec![1], None, true));
    assert_eq!(group.targets, vec![Some(1), Some(1)]);
    assert_eq!(group.lock_target, Some(FightActorRef::Unit(1)));
}

#[test]
fn a_child_is_left_empty_when_units_may_not_be_shared() {
    let mut group = slots(vec![Some(1), Some(2)], vec![0, 0]);
    group.lock_target = Some(FightActorRef::Unit(1));
    share_group_targets(&mut group, &allocation(vec![1], vec![1], None, false));
    assert_eq!(group.targets, vec![Some(1), None]);
    assert_eq!(group.lock_target, None);
}

#[test]
fn slots_that_keep_their_units_leave_the_lock_alone() {
    let mut group = slots(vec![Some(1), Some(3)], vec![0, 0]);
    group.lock_target = Some(FightActorRef::Building(40));
    share_group_targets(&mut group, &allocation(vec![1, 3], vec![1], None, false));
    assert_eq!(group.targets, vec![Some(1), Some(3)]);
    assert_eq!(group.lock_target, Some(FightActorRef::Building(40)));
}

#[test]
fn every_slot_ends_holding_a_ranked_unit_or_nothing_and_no_two_alike() {
    let mut group = slots(vec![Some(1), Some(2), Some(3), Some(4), Some(6)], vec![0, 0, 0, 0, 0]);
    share_group_targets(&mut group, &allocation(vec![3, 1, 8], vec![3, 1], None, false));
    assert_eq!(group.targets, vec![Some(1), Some(8), Some(3), None, None]);
    for (index, target) in group.targets.iter().enumerate() {
        if let Some(unit) = target {
            assert!([3, 1, 8].contains(unit));
            assert!(group.targets.iter().enumerate().all(|(other, held)| other == index || held != target));
        }
    }
}

#[test]
fn a_sharing_out_is_due_on_a_death_or_when_the_core_enters_its_attack() {
    assert!(allocation_due(&vec![Some(1), None], false, true));
    assert!(!allocation_due(&vec![Some(1), None], true, false));
    assert!(allocation_due(&vec![Some(1), Some(2)], true, false));
    assert!(!allocation_due(&vec![Some(1), Some(2)], false, true));
}

#[test]
fn a_sharing_out_that_is_not_due_leaves_the_slots() {
    let mut group = slots(vec![Some(1), Some(2)], vec![0, 0]);
    let shared = update_group_skill_targets(&mut group, false, true, &allocation(vec![9], vec![9], None, false));
    assert!(!shared);
    assert_eq!(group.targets, vec![Some(1), Some(2)]);
    let shared = update_group_skill_targets(&mut group, true, false, &allocation(vec![9], vec![9], None, false));
    assert!(shared);
    assert_eq!(group.targets, vec![Some(9), None]);
}

#[test]
fn the_core_ranks_only_units_within_its_range() {
    let half_metre: i64 = 1 << 31;
    let three_metres: i64 = 3 << 32;
    let units = vec![
        RankedUnit { id: 4, x_q32: three_metres, z_q32: 0, radius: 0 },
        RankedUnit { id: 2, x_q32: half_metre, z_q32: 0, radius: 0 },
        RankedUnit { id: 6, x_q32: 0, z_q32: three_metres, radius: 2500 },
    ];
    let (ranked, core) = rank_for_core(&units, 0, 0, 0, 1000);
    assert_eq!(ranked, vec![4, 2, 6]);
    assert_eq!(core, vec![2, 6]);
}

#[test]
fn dropping_the_lock_empties_every_slot() {
    let mut group = slots(vec![Some(1), Some(2)], vec![12, 14]);
    group.prepare_ready_steps = vec![9, 9];
    group.pending_releases = vec![(1, PendingRelease { step: 15, target: FightActorRef::Unit(2) })];
    group.lock_target = Some(FightActorRef::Unit(2));
    group.drop_lock();
    assert_eq!(group.targets, vec![None, None]);
    assert_eq!(group.next_attack_steps, vec![0, 0]);
    assert_eq!(group.prepare_ready_steps, vec![0, 0]);
    assert!(group.pending_releases.is_empty());
    assert_eq!(group.lock_target, None);
}
