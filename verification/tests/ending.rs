use simulation::ending::{
    end_before_attack, end_completed_laser_kill, end_on_stale_target, end_terminal_handoff, engage_wall_in_the_way,
    start_bodyless_skill, AttackEnding,
};
use simulation::group::{GroupSlots, PendingRelease};
use simulation::lock::TargetLock;
use simulation::quadtree::FightActorRef;
use simulation::search::TargetSearch;
use simulation::skill::{AttackCycle, FightSkillPhase, MotionState};

fn cycle(phase: FightSkillPhase) -> AttackCycle {
    AttackCycle {
        motion: MotionState::Attacking,
        hold_fire: false,
        phase,
        pending: None,
        backswing_finish_step: None,
        next_attack_step: 0,
        current_attack_interval: 0,
        attacked_wall: None,
    }
}

fn search() -> TargetSearch {
    TargetSearch {
        search_target_time: 6,
        searched_this_tick: false,
        lock_is_terminal_handoff: false,
        laser_attack_count: 0,
        retarget_after_own_direct_kill: false,
    }
}

fn no_group() -> GroupSlots {
    GroupSlots {
        targets: Vec::new(),
        next_attack_steps: Vec::new(),
        prepare_ready_steps: Vec::new(),
        pending_releases: Vec::new(),
        lock_target: None,
    }
}

fn lock(target: FightActorRef, in_the_way: Option<(u64, FightActorRef)>) -> TargetLock {
    TargetLock { lock_target: Some(target), in_the_way, group_skill_targets: Vec::new(), group_in_the_way: Vec::new() }
}

#[test]
fn a_fallen_block_ends_the_attack_on_it() {
    let mut state = cycle(FightSkillPhase::Attack);
    state.attacked_wall = Some(4);
    let mut timer = search();
    let mut targets = lock(FightActorRef::Unit(7), Some((4, FightActorRef::Unit(7))));
    let mut group = no_group();
    let ending = end_before_attack(&mut state, &mut timer, &mut targets, &mut group, true, false, None, 10);
    assert_eq!(ending, Some(AttackEnding::BlockFell { fallen_attack_target: Some(4) }));
    assert_eq!(state.motion, MotionState::Idle);
    assert_eq!(state.phase, FightSkillPhase::Idle);
    assert_eq!(state.attacked_wall, None);
    assert_eq!(targets.lock_target, None);
    assert_eq!(timer.search_target_time, 0);
}

#[test]
fn a_bodyless_unit_reads_no_fallen_target_and_a_standing_block_ends_nothing() {
    let mut state = cycle(FightSkillPhase::Attack);
    state.attacked_wall = Some(4);
    let mut timer = search();
    let mut targets = lock(FightActorRef::Unit(7), Some((4, FightActorRef::Unit(7))));
    let mut group = no_group();
    assert_eq!(end_before_attack(&mut state, &mut timer, &mut targets, &mut group, false, true, Some(4), 10), None);
    assert_eq!(targets.lock_target, Some(FightActorRef::Unit(7)));
    let ending = end_before_attack(&mut state, &mut timer, &mut targets, &mut group, false, false, None, 10);
    assert_eq!(ending, Some(AttackEnding::BlockFell { fallen_attack_target: None }));
}

#[test]
fn a_block_coming_into_the_line_ends_a_preparation() {
    let mut state = cycle(FightSkillPhase::Prepare { finish_step: 16 });
    state.pending = Some(PendingRelease { step: 16, target: FightActorRef::Unit(7) });
    let mut timer = search();
    let mut targets = lock(FightActorRef::Unit(7), None);
    let mut group = no_group();
    assert_eq!(end_before_attack(&mut state, &mut timer, &mut targets, &mut group, false, true, None, 10), None);
    let ending = end_before_attack(&mut state, &mut timer, &mut targets, &mut group, false, true, Some(3), 10);
    assert_eq!(ending, Some(AttackEnding::WallInterrupts));
    assert_eq!(state.pending, None);
    assert_eq!(state.motion, MotionState::Idle);
}

#[test]
fn a_nearer_block_between_blows_ends_the_attack_on_the_other() {
    let mut state = cycle(FightSkillPhase::Attack);
    state.backswing_finish_step = Some(9);
    let mut timer = search();
    let mut targets = lock(FightActorRef::Unit(7), Some((4, FightActorRef::Unit(7))));
    let mut group = no_group();
    assert_eq!(end_before_attack(&mut state, &mut timer, &mut targets, &mut group, false, true, Some(4), 10), None);
    let ending = end_before_attack(&mut state, &mut timer, &mut targets, &mut group, false, true, Some(3), 10);
    assert_eq!(ending, Some(AttackEnding::WallInterrupts));
}

#[test]
fn the_weapons_and_each_slot_take_the_block_in_their_line() {
    let mut targets = TargetLock {
        lock_target: Some(FightActorRef::Unit(7)),
        in_the_way: None,
        group_skill_targets: vec![Some(7), None, Some(8)],
        group_in_the_way: Vec::new(),
    };
    engage_wall_in_the_way(&mut targets, Some(4), &vec![Some(4), Some(5), None]);
    assert_eq!(targets.in_the_way, Some((4, FightActorRef::Unit(7))));
    assert_eq!(targets.group_in_the_way, vec![Some((4, 7)), None, None]);
    assert_eq!(targets.attack_target(), Some(FightActorRef::Building(4)));
    targets.lock_target = Some(FightActorRef::Building(9));
    engage_wall_in_the_way(&mut targets, Some(4), &vec![None, None, None]);
    assert_eq!(targets.in_the_way, None);
}

#[test]
fn the_hand_off_at_the_end_lasts_one_tick() {
    let mut state = cycle(FightSkillPhase::Attack);
    let mut timer = search();
    timer.lock_is_terminal_handoff = true;
    let mut targets = lock(FightActorRef::Unit(3), None);
    let mut group = no_group();
    assert!(!end_terminal_handoff(&mut state, &mut timer, &mut targets, &mut group));
    targets.lock_target = Some(FightActorRef::Building(1));
    assert!(end_terminal_handoff(&mut state, &mut timer, &mut targets, &mut group));
    assert_eq!(targets.lock_target, None);
    assert!(!timer.lock_is_terminal_handoff);
    assert_eq!(state.motion, MotionState::Idle);
}

#[test]
fn a_laser_that_killed_its_target_drops_it_and_keeps_moving_as_it_was() {
    let mut state = cycle(FightSkillPhase::Attack);
    let mut timer = search();
    timer.retarget_after_own_direct_kill = true;
    timer.laser_attack_count = 3;
    let mut targets = lock(FightActorRef::Unit(3), None);
    let mut group = no_group();
    assert!(!end_completed_laser_kill(&mut state, &mut timer, &mut targets, &mut group, false, false));
    assert!(!end_completed_laser_kill(&mut state, &mut timer, &mut targets, &mut group, true, true));
    assert!(end_completed_laser_kill(&mut state, &mut timer, &mut targets, &mut group, true, false));
    assert_eq!(targets.lock_target, None);
    assert_eq!(timer.laser_attack_count, 0);
    assert!(!timer.retarget_after_own_direct_kill);
    assert_eq!(state.motion, MotionState::Attacking);
    assert_eq!(state.phase, FightSkillPhase::Idle);
}

#[test]
fn a_dead_target_is_given_up_unless_the_unit_switches_at_once() {
    let mut state = cycle(FightSkillPhase::Attack);
    let mut targets = lock(FightActorRef::Unit(3), None);
    let mut group = no_group();
    assert!(!end_on_stale_target(&mut state, &mut targets, &mut group, false, true));
    assert!(!end_on_stale_target(&mut state, &mut targets, &mut group, true, false));
    assert!(end_on_stale_target(&mut state, &mut targets, &mut group, false, false));
    assert_eq!(state.motion, MotionState::Idle);
    assert_eq!(targets.lock_target, None);
}

#[test]
fn a_bodyless_attacker_starts_its_skill_before_searching() {
    let mut state = cycle(FightSkillPhase::Idle);
    assert!(!start_bodyless_skill(&mut state, true, true, 400, 10));
    assert!(!start_bodyless_skill(&mut state, false, false, 400, 10));
    assert!(start_bodyless_skill(&mut state, false, true, 400, 10));
    assert_eq!(state.phase, FightSkillPhase::Prepare { finish_step: 14 });
    assert!(!start_bodyless_skill(&mut state, false, true, 400, 11));
}
