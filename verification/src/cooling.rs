//! Holding a unit through its cooling when its target dies.
//!
//! A target that dies while the attack fired at it is still running starts a
//! hold, seen on the tick after the death, unless the best replacement can be
//! attacked at once. During the hold the unit idles without a lock, its weapon
//! switched to the replacement, for the cooling's length; the tick it ends
//! the weapon clears, and the tick after the hold is over.

use vstd::prelude::*;

use crate::fixed::{clamp_int, native_time_units_to_steps, native_time_units_to_steps_spec};
use crate::lock::TargetLock;
use crate::quadtree::FightActorRef;
use crate::search::TargetSearch;
use crate::skill::{AttackCycle, FightSkillPhase, MotionState};

verus! {

/// A cooling hold: the tick it began, the last tick of the cooling that
/// follows a shot, and the target the weapon switched to.
#[derive(Debug, Clone, Copy, PartialEq, Eq, Structural)]
pub struct CoolingHold {
    pub hold: Option<u64>,
    pub until_step: Option<u64>,
    pub candidate: Option<FightActorRef>,
}

/// The tick a hold began, when one is running or starts on `step`: a
/// running hold's; else, within a tick after a shot's cooling, the tick of a
/// death of the target that leaves a best replacement out of the attack's
/// area.
pub open spec fn hold_start(
    cooling: CoolingHold,
    target_dead: bool,
    candidate: Option<FightActorRef>,
    candidate_in_area: bool,
    step: u64,
) -> Option<u64> {
    match cooling.hold {
        Some(started) => Some(started),
        None => match cooling.until_step {
            None => None,
            Some(until) => if !target_dead || step > clamp_int(until + 1, 0, u64::MAX as int) {
                None
            } else if candidate is None || candidate_in_area {
                None
            } else {
                Some(step)
            },
        },
    }
}

/// `start + ticks`, saturated.
pub open spec fn hold_end(start: u64, ticks: int) -> int {
    clamp_int(start + ticks, 0, u64::MAX as int)
}

/// Whether the unit is held on `step`.
pub open spec fn held_spec(
    cooling: CoolingHold,
    target_dead: bool,
    candidate: Option<FightActorRef>,
    candidate_in_area: bool,
    cooling_time_units: u64,
    step: u64,
) -> bool {
    match hold_start(cooling, target_dead, candidate, candidate_in_area, step) {
        Some(started) => step <= hold_end(started, native_time_units_to_steps_spec(cooling_time_units as int)),
        None => false,
    }
}

/// Holds a unit through its cooling; answers whether it is held on `step`.
///
/// `candidate` is the selector's best target with live positions, and
/// `candidate_in_area` whether the attack could hit it at once. A held unit
/// idles: no lock, an idle skill searching at once, the weapon switched to the
/// replacement chosen when the hold began, or to `candidate`, until the
/// cooling's last tick, and to nothing on it. A hold past its cooling is
/// cleared, as is everything it kept.
pub fn hold_through_cooling(
    cooling: &mut CoolingHold,
    cycle: &mut AttackCycle,
    search: &mut TargetSearch,
    lock: &mut TargetLock,
    target_dead: bool,
    candidate: Option<FightActorRef>,
    candidate_in_area: bool,
    cooling_time_units: u64,
    step: u64,
) -> (held: bool)
    ensures
        held == held_spec(*old(cooling), target_dead, candidate, candidate_in_area, cooling_time_units, step),
        held ==> {
            let started = hold_start(*old(cooling), target_dead, candidate, candidate_in_area, step)->0;
            let end = hold_end(started, native_time_units_to_steps_spec(cooling_time_units as int));
            &&& final(cooling).hold == Some(started)
            &&& final(cooling).until_step == old(cooling).until_step
            &&& final(cooling).candidate == if step < end {
                if old(cooling).candidate is Some {
                    old(cooling).candidate
                } else {
                    candidate
                }
            } else {
                None
            }
            &&& final(lock).lock_target is None
            &&& *final(cycle) == (AttackCycle {
                motion: MotionState::Idle,
                phase: FightSkillPhase::Idle,
                ..*old(cycle)
            })
            &&& *final(search) == (TargetSearch { search_target_time: 0, ..*old(search) })
        },
        !held && hold_start(*old(cooling), target_dead, candidate, candidate_in_area, step) is Some
            ==> *final(cooling) == (CoolingHold { hold: None, until_step: None, candidate: None }),
        !held && hold_start(*old(cooling), target_dead, candidate, candidate_in_area, step) is None
            ==> *final(cooling) == *old(cooling),
        !held ==> *final(cycle) == *old(cycle) && *final(search) == *old(search) && final(lock).lock_target
            == old(lock).lock_target,
        final(lock).in_the_way == old(lock).in_the_way,
        final(lock).group_skill_targets@ == old(lock).group_skill_targets@,
        final(lock).group_in_the_way@ == old(lock).group_in_the_way@,
{
    let started = match cooling.hold {
        Some(started) => started,
        None => {
            let until = match cooling.until_step {
                Some(until) => until,
                None => {
                    return false;
                },
            };
            let after = if until == u64::MAX {
                u64::MAX
            } else {
                until + 1
            };
            if !target_dead || step > after {
                return false;
            }
            let in_area = match candidate {
                Some(_) => candidate_in_area,
                None => true,
            };
            if in_area {
                return false;
            }
            step
        },
    };
    let cooling_steps = native_time_units_to_steps(cooling_time_units);
    let end = if cooling_steps > u64::MAX - started {
        u64::MAX
    } else {
        started + cooling_steps
    };
    if step > end {
        cooling.hold = None;
        cooling.until_step = None;
        cooling.candidate = None;
        return false;
    }
    let kept = if step < end {
        match cooling.candidate {
            Some(kept) => Some(kept),
            None => candidate,
        }
    } else {
        None
    };
    lock.lock_target = None;
    cooling.candidate = kept;
    cooling.hold = Some(started);
    cycle.motion = MotionState::Idle;
    cycle.phase = FightSkillPhase::Idle;
    search.search_target_time = 0;
    true
}


/// Starts watching a burst's target at its release: for a unit with a body
/// that switches targets at once, with its weapons firing together and a
/// cooling that lasts, the attack runs on until the tick before its attack
/// point has passed again, and a target that dies by then may start a hold.
/// Answers whether it watches.
pub fn watch_cooling(
    cooling: &mut CoolingHold,
    has_body: bool,
    quick_switch_target: bool,
    normal_weapons: bool,
    cooling_time_units: u64,
    attack_point_time_units: u64,
    step: u64,
) -> (watching: bool)
    ensures
        watching == (has_body && quick_switch_target && normal_weapons && cooling_time_units > 0),
        watching ==> *final(cooling) == (CoolingHold {
            hold: None,
            until_step: Some(
                hold_end(
                    step,
                    if native_time_units_to_steps_spec(attack_point_time_units as int) > 0 {
                        native_time_units_to_steps_spec(attack_point_time_units as int) - 1
                    } else {
                        0
                    },
                ) as u64,
            ),
            candidate: None,
        }),
        !watching ==> *final(cooling) == *old(cooling),
{
    if !(has_body && quick_switch_target && normal_weapons && cooling_time_units > 0) {
        return false;
    }
    let attack_point_steps = native_time_units_to_steps(attack_point_time_units);
    let wait = if attack_point_steps > 0 {
        attack_point_steps - 1
    } else {
        0
    };
    let until = if wait > u64::MAX - step {
        u64::MAX
    } else {
        step + wait
    };
    cooling.until_step = Some(until);
    cooling.hold = None;
    cooling.candidate = None;
    true
}

} // verus!
