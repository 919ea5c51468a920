use simulation::lock::TargetLock;
use simulation::quadtree::FightActorRef;
use simulation::group::{GroupSlots, PendingRelease};
use simulation::search::{
    after_own_kill, exit_fight_on_death, quick_switch_outside_area, search_due, settle_search, settled_pick, SwitchReading, TargetSearch,
    SEARCH_TARGET_RESET_TICKS,
};
use simulation::skill::{AttackCycle, FightSkillPhase, MotionState};

fn search(time: i32) -> TargetSearch {
    TargetSearch {
        search_target_time: time,
        searched_this_tick: false,
        lock_is_terminal_handoff: true,
        laser_attack_count: 4,
        retarget_after_own_direct_kill: true,
    }
}

fn cycle(motion: MotionState, phase: FightSkillPhase) -> AttackCycle {
    AttackCycle {
        motion,
        hold_fire: false,
        phase,
        pending: None,
        backswing_finish_step: None,
        next_attack_step: 8,
        current_attack_interval: 0,
        attacked_wall: None,
    }
}

fn lock(target: Option<FightActorRef>) -> TargetLock {
    TargetLock { lock_target: target, in_the_way: None, group_skill_targets: Vec::new(), group_in_the_way: Vec::new() }
}

#[test]
fn an_idle_skill_counts_down_and_searches_when_its_timer_runs_out() {
    let mut timer = search(1);
    let mut state = cycle(MotionState::Idle, FightSkillPhase::Idle);
    assert!(!search_due(&mut timer, &mut state, false, true, 10));
    assert_eq!(timer.search_target_time, 0);
    assert!(search_due(&mut timer, &mut state, false, true, 11));
    assert!(timer.searched_this_tick);
}

#[test]
fn a_busy_skill_searches_only_when_it_switches_and_its_target_is_gone() {
    let mut timer = search(0);
    let mut state = cycle(MotionState::Attacking, FightSkillPhase::Attack);
    assert!(!search_due(&mut timer, &mut state, false, true, 10));
    assert!(!search_due(&mut timer, &mut state, false, false, 10));
    assert!(!search_due(&mut timer, &mut state, true, true, 10));
    assert!(search_due(&mut timer, &mut state, true, false, 10));
}

#[test]
fn a_swing_at_a_gone_target_is_waited_out_unless_the_skill_switches() {
    let mut timer = search(5);
    let mut state = cycle(MotionState::Attacking, FightSkillPhase::Idle);
    state.backswing_finish_step = Some(12);
    assert!(!search_due(&mut timer, &mut state, false, false, 10));
    assert_eq!(state.backswing_finish_step, Some(12));
    assert!(search_due(&mut timer, &mut state, true, false, 10));
    assert_eq!(state.backswing_finish_step, None);
    assert_eq!(timer.search_target_time, 5);
}

#[test]
fn a_construction_found_is_locked_on_at_once() {
    let mut timer = search(0);
    let mut state = cycle(MotionState::Attacking, FightSkillPhase::Attack);
    let mut targets = lock(Some(FightActorRef::Unit(1)));
    settle_search(&mut timer, &mut state, &mut targets, Some(FightActorRef::Building(9)), true, false, true, 10);
    assert_eq!(targets.lock_target, Some(FightActorRef::Building(9)));
    assert_eq!(state.phase, FightSkillPhase::Idle);
    assert_eq!(timer.search_target_time, SEARCH_TARGET_RESET_TICKS);
    assert_eq!(timer.laser_attack_count, 0);
    assert!(!timer.lock_is_terminal_handoff);
    assert!(!timer.retarget_after_own_direct_kill);
}

#[test]
fn an_attacking_unit_keeps_its_lock_and_an_idle_one_takes_what_was_found() {
    let mut timer = search(0);
    let mut state = cycle(MotionState::Attacking, FightSkillPhase::Idle);
    let mut targets = lock(Some(FightActorRef::Unit(1)));
    settle_search(&mut timer, &mut state, &mut targets, Some(FightActorRef::Unit(2)), true, false, true, 10);
    assert_eq!(targets.lock_target, Some(FightActorRef::Unit(1)));
    assert_eq!(timer.laser_attack_count, 4);
    state.motion = MotionState::Idle;
    settle_search(&mut timer, &mut state, &mut targets, Some(FightActorRef::Unit(2)), true, false, true, 10);
    assert_eq!(targets.lock_target, Some(FightActorRef::Unit(2)));
    assert_eq!(timer.laser_attack_count, 0);
}

#[test]
fn a_unit_that_dies_leaves_the_fight() {
    let mut timer = search(0);
    let mut state = cycle(MotionState::Attacking, FightSkillPhase::Attack);
    state.pending = Some(PendingRelease { step: 12, target: FightActorRef::Unit(1) });
    state.attacked_wall = Some(4);
    state.hold_fire = true;
    let mut targets = TargetLock {
        lock_target: Some(FightActorRef::Unit(1)),
        in_the_way: None,
        group_skill_targets: vec![Some(1), Some(2)],
        group_in_the_way: vec![None, Some((4, 2))],
    };
    let mut group = GroupSlots {
        targets: vec![Some(1), Some(2)],
        next_attack_steps: vec![3, 4],
        prepare_ready_steps: vec![5, 6],
        pending_releases: vec![(1, PendingRelease { step: 12, target: FightActorRef::Unit(2) })],
        lock_target: Some(FightActorRef::Unit(2)),
    };
    exit_fight_on_death(&mut state, &mut timer, &mut targets, &mut group);
    assert_eq!(state.motion, MotionState::Idle);
    assert_eq!(state.phase, FightSkillPhase::Idle);
    assert_eq!(state.pending, None);
    assert_eq!(state.attacked_wall, None);
    assert!(!state.hold_fire);
    assert_eq!(state.next_attack_step, 8);
    assert_eq!(timer.search_target_time, SEARCH_TARGET_RESET_TICKS);
    assert_eq!(timer.laser_attack_count, 0);
    assert_eq!(targets.lock_target, None);
    assert_eq!(targets.group_skill_targets, vec![None, None]);
    assert_eq!(targets.group_in_the_way, vec![None, None]);
    assert_eq!(group.targets, vec![None, None]);
    assert_eq!(group.next_attack_steps, vec![0, 0]);
    assert!(group.pending_releases.is_empty());
}

fn reading(selected: Option<FightActorRef>, selected_in_area: bool) -> SwitchReading {
    SwitchReading {
        target_in_attack_range: true,
        target_alive: true,
        target_in_attack_area: false,
        projectiles_pending: false,
        normal_weapons: true,
        selected,
        selected_in_area,
    }
}

fn empty_group() -> GroupSlots {
    GroupSlots {
        targets: Vec::new(),
        next_attack_steps: Vec::new(),
        prepare_ready_steps: Vec::new(),
        pending_releases: Vec::new(),
        lock_target: None,
    }
}

#[test]
fn a_pick_that_died_during_the_tick_gives_way_to_the_live_pick() {
    let first = Some(FightActorRef::Unit(1));
    let live = Some(FightActorRef::Unit(2));
    assert_eq!(settled_pick(false, first, true, live), live);
    assert_eq!(settled_pick(false, first, false, live), first);
    assert_eq!(settled_pick(true, first, true, live), first);
    assert_eq!(settled_pick(false, None, true, live), None);
}

#[test]
fn a_quick_switcher_moves_to_a_unit_in_its_area() {
    let mut timer = search(3);
    let mut state = cycle(MotionState::Attacking, FightSkillPhase::Attack);
    let mut targets = lock(Some(FightActorRef::Unit(1)));
    let mut group = empty_group();
    let idle = quick_switch_outside_area(
        &mut state, &mut timer, &mut targets, &mut group, true, true,
        reading(Some(FightActorRef::Unit(6)), true), false,
    );
    assert!(!idle);
    assert_eq!(targets.lock_target, Some(FightActorRef::Unit(6)));
    assert_eq!(timer.laser_attack_count, 0);
    assert_eq!(timer.search_target_time, SEARCH_TARGET_RESET_TICKS);
}

#[test]
fn a_quick_switcher_with_nothing_in_its_area_gives_up() {
    let mut timer = search(3);
    let mut state = cycle(MotionState::Attacking, FightSkillPhase::Attack);
    let mut targets = lock(Some(FightActorRef::Unit(1)));
    let mut group = empty_group();
    let idle = quick_switch_outside_area(
        &mut state, &mut timer, &mut targets, &mut group, true, true,
        reading(Some(FightActorRef::Unit(6)), false), false,
    );
    assert!(idle);
    assert_eq!(targets.lock_target, None);
    assert_eq!(state.motion, MotionState::Idle);
    assert_eq!(state.phase, FightSkillPhase::Idle);
}

#[test]
fn no_switch_is_asked_while_the_target_is_in_the_area_or_without_quick_switching() {
    let mut timer = search(3);
    let mut state = cycle(MotionState::Attacking, FightSkillPhase::Attack);
    let mut targets = lock(Some(FightActorRef::Unit(1)));
    let mut group = empty_group();
    let mut in_area = reading(Some(FightActorRef::Unit(6)), true);
    in_area.target_in_attack_area = true;
    assert!(!quick_switch_outside_area(&mut state, &mut timer, &mut targets, &mut group, true, true, in_area, false));
    assert!(!quick_switch_outside_area(
        &mut state, &mut timer, &mut targets, &mut group, true, false,
        reading(Some(FightActorRef::Unit(6)), true), false,
    ));
    assert!(!quick_switch_outside_area(
        &mut state, &mut timer, &mut targets, &mut group, false, true,
        reading(Some(FightActorRef::Unit(6)), true), false,
    ));
    assert_eq!(targets.lock_target, Some(FightActorRef::Unit(1)));
    assert_eq!(timer.search_target_time, 3);
}

#[test]
fn a_blow_that_kills_a_unit_marks_a_new_target_and_a_beam_idles() {
    let mut timer = search(3);
    let mut state = cycle(MotionState::Attacking, FightSkillPhase::Attack);
    assert!(!after_own_kill(&mut state, &mut timer, FightActorRef::Building(2), true, false, false));
    assert!(!after_own_kill(&mut state, &mut timer, FightActorRef::Unit(2), false, false, false));
    assert!(after_own_kill(&mut state, &mut timer, FightActorRef::Unit(2), true, false, false));
    assert!(timer.retarget_after_own_direct_kill);
    assert_eq!(state.motion, MotionState::Attacking);
    assert!(after_own_kill(&mut state, &mut timer, FightActorRef::Unit(2), true, false, true));
    assert_eq!(state.motion, MotionState::Idle);
}
