use simulation::group::{GroupSlots, PendingRelease};
use simulation::lock::TargetLock;
use simulation::quadtree::FightActorRef;
use simulation::random::GrRandom;
use simulation::skill::{
    core_has_entered_attack, core_idles_while_children_attack, finish_prepare, step_out_of_reach, OutOfReach, phase_after_backswing, release_attack, start_phase, step_in_reach, AttackCycle,
    CycleRules, FightSkillPhase, InReach, MotionState,
};

fn cycle(motion: MotionState, phase: FightSkillPhase) -> AttackCycle {
    AttackCycle {
        motion,
        hold_fire: false,
        phase,
        pending: None,
        backswing_finish_step: None,
        next_attack_step: 10,
        current_attack_interval: 0,
        attacked_wall: None,
    }
}

fn rules(has_body: bool, prepare: u64, attack_point: u64) -> CycleRules {
    CycleRules {
        has_body,
        melee_direct: false,
        holds_fire_on_entry: true,
        quick_switch_target: false,
        prepare_time_units: prepare,
        attack_point_time_units: attack_point,
        interval_time_units: 6_200,
        offset_time_units: 0,
    }
}

fn engaged(entered_attack: bool, release_now: bool, clear_hold_after_motion: bool) -> InReach {
    InReach::Engaged { entered_attack, release_now, clear_hold_after_motion }
}

#[test]
fn a_unit_entering_its_attack_launches_nothing_that_tick() {
    let mut random = GrRandom::new(7);
    let mut state = cycle(MotionState::Moving, FightSkillPhase::Attack);
    let outcome = step_in_reach(&mut state, &rules(true, 0, 300), true, false, FightActorRef::Unit(4), 10, &mut random);
    assert_eq!(outcome, engaged(true, false, false));
    assert_eq!(state.motion, MotionState::Attacking);
    assert_eq!(state.pending, None);
}

#[test]
fn a_quick_switching_unit_launches_as_it_enters() {
    let mut random = GrRandom::new(7);
    let mut state = cycle(MotionState::Idle, FightSkillPhase::Attack);
    let mut switching = rules(true, 0, 0);
    switching.quick_switch_target = true;
    let outcome = step_in_reach(&mut state, &switching, true, false, FightActorRef::Unit(4), 10, &mut random);
    assert_eq!(outcome, engaged(true, true, false));
    assert_eq!(state.pending, Some(PendingRelease { step: 10, target: FightActorRef::Unit(4) }));
}

#[test]
fn an_idle_skill_in_angle_starts_preparing() {
    let mut random = GrRandom::new(7);
    let mut state = cycle(MotionState::Attacking, FightSkillPhase::Idle);
    let outcome = step_in_reach(&mut state, &rules(true, 400, 300), true, false, FightActorRef::Unit(4), 10, &mut random);
    assert_eq!(outcome, engaged(false, false, false));
    assert_eq!(state.phase, FightSkillPhase::Prepare { finish_step: 14 });
    assert_eq!(state.pending, None);
}

#[test]
fn a_skill_without_preparation_attacks_on_the_tick_it_starts() {
    let mut random = GrRandom::new(7);
    let mut state = cycle(MotionState::Attacking, FightSkillPhase::Idle);
    let outcome = step_in_reach(&mut state, &rules(true, 0, 300), true, false, FightActorRef::Building(8), 10, &mut random);
    assert_eq!(outcome, engaged(false, false, false));
    assert_eq!(state.phase, FightSkillPhase::Attack);
    assert_eq!(state.pending, Some(PendingRelease { step: 13, target: FightActorRef::Building(8) }));
    assert_eq!(state.next_attack_step, 72);
    assert_eq!(state.current_attack_interval, 62);
    assert_eq!(state.attacked_wall, Some(8));
}

#[test]
fn an_attack_not_yet_due_waits() {
    let mut random = GrRandom::new(7);
    let mut state = cycle(MotionState::Attacking, FightSkillPhase::Attack);
    state.next_attack_step = 30;
    let outcome = step_in_reach(&mut state, &rules(true, 0, 300), true, false, FightActorRef::Unit(4), 10, &mut random);
    assert_eq!(outcome, engaged(false, false, false));
    assert_eq!(state.pending, None);
    assert_eq!(state.next_attack_step, 30);
}

#[test]
fn a_waiting_attack_is_released_on_its_tick_and_never_replaced() {
    let mut random = GrRandom::new(7);
    let mut state = cycle(MotionState::Attacking, FightSkillPhase::Attack);
    state.pending = Some(PendingRelease { step: 10, target: FightActorRef::Unit(2) });
    let outcome = step_in_reach(&mut state, &rules(true, 0, 300), true, false, FightActorRef::Unit(4), 10, &mut random);
    assert_eq!(outcome, engaged(false, true, false));
    assert_eq!(state.pending, Some(PendingRelease { step: 10, target: FightActorRef::Unit(2) }));
}

#[test]
fn a_bodyless_unit_entering_out_of_angle_holds_fire() {
    let mut random = GrRandom::new(7);
    let mut state = cycle(MotionState::Moving, FightSkillPhase::Idle);
    let outcome = step_in_reach(&mut state, &rules(false, 0, 300), false, false, FightActorRef::Unit(4), 10, &mut random);
    assert_eq!(outcome, engaged(true, false, false));
    assert!(state.hold_fire);
    let outcome = step_in_reach(&mut state, &rules(false, 0, 300), true, false, FightActorRef::Unit(4), 11, &mut random);
    assert_eq!(outcome, engaged(false, false, true));
    assert_eq!(state.pending, None);
}

#[test]
fn a_bodyless_unit_out_of_angle_gives_the_target_up() {
    let mut random = GrRandom::new(7);
    let mut state = cycle(MotionState::Attacking, FightSkillPhase::Attack);
    state.attacked_wall = Some(3);
    let outcome = step_in_reach(&mut state, &rules(false, 0, 300), false, false, FightActorRef::Unit(4), 10, &mut random);
    assert_eq!(outcome, InReach::Rejected);
    assert_eq!(state.motion, MotionState::Idle);
    assert_eq!(state.phase, FightSkillPhase::Idle);
    assert_eq!(state.attacked_wall, None);
}

#[test]
fn a_bodyless_striker_reentering_out_of_angle_after_its_swing_gives_up() {
    let mut random = GrRandom::new(7);
    let mut state = cycle(MotionState::Idle, FightSkillPhase::Attack);
    let mut striker = rules(false, 0, 300);
    striker.melee_direct = true;
    let outcome = step_in_reach(&mut state, &striker, false, true, FightActorRef::Unit(4), 10, &mut random);
    assert_eq!(outcome, InReach::Rejected);
    assert_eq!(state.motion, MotionState::Idle);
}

#[test]
fn the_phase_moves_from_preparing_to_attacking() {
    assert_eq!(start_phase(0, 10), FightSkillPhase::Attack);
    assert_eq!(start_phase(400, 10), FightSkillPhase::Prepare { finish_step: 14 });
    assert_eq!(finish_prepare(FightSkillPhase::Prepare { finish_step: 14 }, 13), FightSkillPhase::Prepare { finish_step: 14 });
    assert_eq!(finish_prepare(FightSkillPhase::Prepare { finish_step: 14 }, 14), FightSkillPhase::Attack);
    assert_eq!(finish_prepare(FightSkillPhase::Idle, 14), FightSkillPhase::Idle);
    assert_eq!(phase_after_backswing(true), FightSkillPhase::Attack);
    assert_eq!(phase_after_backswing(false), FightSkillPhase::Idle);
    assert!(core_has_entered_attack(FightSkillPhase::Prepare { finish_step: 14 }, 13));
    assert!(!core_has_entered_attack(FightSkillPhase::Prepare { finish_step: 14 }, 12));
    assert!(core_has_entered_attack(FightSkillPhase::Attack, 0));
    assert!(!core_has_entered_attack(FightSkillPhase::Idle, 0));
}

#[test]
fn a_released_attack_starts_its_backswing() {
    let mut state = cycle(MotionState::Attacking, FightSkillPhase::Attack);
    state.pending = Some(PendingRelease { step: 13, target: FightActorRef::Unit(4) });
    let released = release_attack(&mut state, true, 300, false, false).unwrap();
    assert_eq!(released, Some(PendingRelease { step: 13, target: FightActorRef::Unit(4) }));
    assert_eq!(state.pending, None);
    assert_eq!(state.backswing_finish_step, Some(16));
    assert_eq!(state.phase, FightSkillPhase::Attack);
}

#[test]
fn an_attack_without_backswing_idles_a_plain_skill_and_a_refused_one_is_dropped() {
    let mut state = cycle(MotionState::Attacking, FightSkillPhase::Attack);
    state.pending = Some(PendingRelease { step: 13, target: FightActorRef::Unit(4) });
    assert!(release_attack(&mut state, true, 0, false, false).unwrap().is_some());
    assert_eq!(state.phase, FightSkillPhase::Idle);
    assert_eq!(state.backswing_finish_step, None);
    state.pending = Some(PendingRelease { step: 14, target: FightActorRef::Unit(4) });
    state.phase = FightSkillPhase::Attack;
    assert!(release_attack(&mut state, true, 0, false, true).unwrap().is_some());
    assert_eq!(state.phase, FightSkillPhase::Attack);
    state.pending = Some(PendingRelease { step: 15, target: FightActorRef::Unit(4) });
    assert_eq!(release_attack(&mut state, false, 300, false, false).unwrap(), None);
    assert_eq!(state.pending, None);
    assert_eq!(state.phase, FightSkillPhase::Idle);
    assert!(release_attack(&mut state, true, 300, false, false).is_err());
}

fn group_of(targets: Vec<Option<u64>>) -> GroupSlots {
    let count = targets.len();
    GroupSlots {
        targets,
        next_attack_steps: vec![0; count],
        prepare_ready_steps: vec![0; count],
        pending_releases: Vec::new(),
        lock_target: None,
    }
}

fn lock_of(target: u64) -> TargetLock {
    TargetLock {
        lock_target: Some(FightActorRef::Unit(target)),
        in_the_way: None,
        group_skill_targets: Vec::new(),
        group_in_the_way: Vec::new(),
    }
}

#[test]
fn a_group_whose_children_attack_holds_its_ground_out_of_reach() {
    let mut state = cycle(MotionState::Attacking, FightSkillPhase::Attack);
    let mut targets = lock_of(4);
    let mut group = group_of(vec![None, Some(4)]);
    assert!(core_idles_while_children_attack(true, &state, &group.targets));
    assert!(!core_idles_while_children_attack(false, &state, &group.targets));
    let outcome = step_out_of_reach(&mut state, &mut targets, &mut group, &rules(true, 0, 0), true, false, false, false);
    assert_eq!(outcome, OutOfReach::GroupHolds);
    assert_eq!(state.motion, MotionState::Attacking);
}

#[test]
fn a_bodyless_attacker_out_of_reach_gives_up_and_a_bodied_one_moves() {
    let mut state = cycle(MotionState::Attacking, FightSkillPhase::Attack);
    let mut targets = lock_of(4);
    let mut group = group_of(Vec::new());
    let outcome = step_out_of_reach(&mut state, &mut targets, &mut group, &rules(false, 0, 0), false, false, false, false);
    assert_eq!(outcome, OutOfReach::GivenUp);
    assert_eq!(state.motion, MotionState::Idle);
    assert_eq!(targets.lock_target, None);
    let mut state = cycle(MotionState::Attacking, FightSkillPhase::Attack);
    let mut targets = lock_of(4);
    let outcome = step_out_of_reach(&mut state, &mut targets, &mut group, &rules(true, 0, 0), false, false, false, false);
    assert_eq!(outcome, OutOfReach::Moves { track_weapons: true, entered_move: true });
    assert_eq!(state.motion, MotionState::Moving);
    let outcome = step_out_of_reach(&mut state, &mut targets, &mut group, &rules(true, 0, 0), false, false, false, true);
    assert_eq!(outcome, OutOfReach::Moves { track_weapons: true, entered_move: false });
    let mut idle = cycle(MotionState::Idle, FightSkillPhase::Idle);
    let outcome = step_out_of_reach(&mut idle, &mut targets, &mut group, &rules(true, 0, 0), false, false, false, false);
    assert_eq!(outcome, OutOfReach::Moves { track_weapons: false, entered_move: true });
}
