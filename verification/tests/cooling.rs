use simulation::cooling::{hold_through_cooling, watch_cooling, CoolingHold};
use simulation::lock::TargetLock;
use simulation::quadtree::FightActorRef;
use simulation::search::TargetSearch;
use simulation::skill::{AttackCycle, FightSkillPhase, MotionState};

fn parts() -> (AttackCycle, TargetSearch, TargetLock) {
    (
        AttackCycle {
            motion: MotionState::Attacking,
            hold_fire: false,
            phase: FightSkillPhase::Attack,
            pending: None,
            backswing_finish_step: None,
            next_attack_step: 0,
            current_attack_interval: 0,
            attacked_wall: None,
        },
        TargetSearch {
            search_target_time: 7,
            searched_this_tick: false,
            lock_is_terminal_handoff: false,
            laser_attack_count: 0,
            retarget_after_own_direct_kill: false,
        },
        TargetLock {
            lock_target: Some(FightActorRef::Unit(2)),
            in_the_way: None,
            group_skill_targets: Vec::new(),
            group_in_the_way: Vec::new(),
        },
    )
}

#[test]
fn a_death_after_the_cooling_starts_no_hold() {
    let (mut cycle, mut search, mut lock) = parts();
    let mut cooling = CoolingHold { hold: None, until_step: None, candidate: None };
    assert!(!hold_through_cooling(&mut cooling, &mut cycle, &mut search, &mut lock, true, Some(FightActorRef::Unit(5)), false, 400, 10));
    let mut cooling = CoolingHold { hold: None, until_step: Some(8), candidate: None };
    assert!(!hold_through_cooling(&mut cooling, &mut cycle, &mut search, &mut lock, true, Some(FightActorRef::Unit(5)), false, 400, 10));
    assert_eq!(lock.lock_target, Some(FightActorRef::Unit(2)));
    assert_eq!(cycle.motion, MotionState::Attacking);
}

#[test]
fn a_replacement_in_reach_is_taken_at_once() {
    let (mut cycle, mut search, mut lock) = parts();
    let mut cooling = CoolingHold { hold: None, until_step: Some(9), candidate: None };
    assert!(!hold_through_cooling(&mut cooling, &mut cycle, &mut search, &mut lock, true, Some(FightActorRef::Unit(5)), true, 400, 10));
    assert!(!hold_through_cooling(&mut cooling, &mut cycle, &mut search, &mut lock, true, None, false, 400, 10));
    assert_eq!(cooling, CoolingHold { hold: None, until_step: Some(9), candidate: None });
}

#[test]
fn a_marksman_idles_five_ticks_and_is_free_on_the_sixth() {
    let (mut cycle, mut search, mut lock) = parts();
    let mut cooling = CoolingHold { hold: None, until_step: Some(9), candidate: None };
    for step in 10..14 {
        let candidate = Some(FightActorRef::Unit(step));
        assert!(hold_through_cooling(&mut cooling, &mut cycle, &mut search, &mut lock, true, candidate, false, 400, step));
        assert_eq!(cooling.candidate, Some(FightActorRef::Unit(10)));
        assert_eq!(cooling.hold, Some(10));
    }
    assert_eq!(lock.lock_target, None);
    assert_eq!(cycle.motion, MotionState::Idle);
    assert_eq!(cycle.phase, FightSkillPhase::Idle);
    assert_eq!(search.search_target_time, 0);
    assert!(hold_through_cooling(&mut cooling, &mut cycle, &mut search, &mut lock, true, None, false, 400, 14));
    assert_eq!(cooling.candidate, None);
    assert!(!hold_through_cooling(&mut cooling, &mut cycle, &mut search, &mut lock, true, None, false, 400, 15));
    assert_eq!(cooling, CoolingHold { hold: None, until_step: None, candidate: None });
}

#[test]
fn a_quick_switcher_with_a_cooling_watches_its_burst_target() {
    let mut cooling = CoolingHold { hold: Some(3), until_step: None, candidate: Some(FightActorRef::Unit(1)) };
    assert!(!watch_cooling(&mut cooling, true, true, true, 0, 300, 10));
    assert!(!watch_cooling(&mut cooling, false, true, true, 400, 300, 10));
    assert_eq!(cooling.hold, Some(3));
    assert!(watch_cooling(&mut cooling, true, true, true, 400, 300, 10));
    assert_eq!(cooling, CoolingHold { hold: None, until_step: Some(12), candidate: None });
    assert!(watch_cooling(&mut cooling, true, true, true, 400, 0, 10));
    assert_eq!(cooling.until_step, Some(10));
}
