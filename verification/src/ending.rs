//! What ends a unit's attack before its tick's work, and the construction
//! its weapons take in the lock's place.
//!
//! A construction that falls ends the attack on it, and the lock with it.
//! A construction that comes into the line of fire while an attack on a unit
//! is being prepared, or a nearer one between two blows on another, ends
//! that attack too. An idle skill hands its weapons the construction standing
//! between the unit and its lock, and each grouped slot the one standing
//! between the unit and that slot's unit.

use vstd::prelude::*;

use crate::group::GroupSlots;
use crate::lock::{attack_target_spec, TargetLock};
use crate::quadtree::FightActorRef;
use crate::search::TargetSearch;
use crate::skill::{start_phase, start_phase_spec, AttackCycle, FightSkillPhase, MotionState};

verus! {

/// Why an attack ended: the construction it was on fell, the unit still
/// aiming at it when it has a body; or a construction came into the line of
/// fire.
#[derive(Debug, Clone, Copy, PartialEq, Eq, Structural)]
pub enum AttackEnding {
    BlockFell { fallen_attack_target: Option<u64> },
    WallInterrupts,
}

/// Whether no swing runs on `step`.
pub open spec fn swing_over(backswing_finish_step: Option<u64>, step: u64) -> bool {
    backswing_finish_step matches Some(finish) ==> finish < step
}

/// The construction whose fall ends the attack: the one the weapons fire at,
/// found in the line of fire, attacked since the lock was taken, no longer
/// standing, with nothing waiting or swinging, for a unit without a group.
pub open spec fn fallen_block(lock: TargetLock, cycle: AttackCycle, building_alive: bool, step: u64) -> Option<u64> {
    match attack_target_spec(lock.lock_target, lock.in_the_way) {
        Some(FightActorRef::Building(building)) => if lock.group_skill_targets.len() == 0 && cycle.attacked_wall
            == Some(building) && cycle.pending is None && swing_over(cycle.backswing_finish_step, step)
            && (lock.in_the_way matches Some((wall, _)) && wall == building) && !building_alive {
            Some(building)
        } else {
            None
        },
        _ => None,
    }
}

/// The construction found for the current lock, if any.
pub open spec fn held_wall(lock: TargetLock) -> Option<u64> {
    match lock.in_the_way {
        Some((wall, found_for)) => if lock.lock_target == Some(found_for) {
            Some(wall)
        } else {
            None
        },
        None => None,
    }
}

/// Whether a construction in the line of fire ends the attack on the unit
/// locked: while preparing with none held, any construction now in the way;
/// between two blows with one held, a different one now in the way.
pub open spec fn wall_interrupts(lock: TargetLock, cycle: AttackCycle, wall_for_lock: Option<u64>, step: u64) -> bool {
    let between_blows = cycle.phase != FightSkillPhase::Idle && swing_over(cycle.backswing_finish_step, step);
    match lock.lock_target {
        Some(FightActorRef::Unit(_)) => if lock.group_skill_targets.len() != 0 {
            false
        } else if cycle.phase is Prepare && held_wall(lock) is None {
            wall_for_lock is Some
        } else if between_blows && held_wall(lock) is Some {
            wall_for_lock matches Some(wall) && wall != held_wall(lock)->0
        } else {
            false
        },
        _ => false,
    }
}

/// Ends the attack when the construction it was on has fallen, or when a
/// construction in the line of fire interrupts it; see [`fallen_block`] and
/// [`wall_interrupts`]. `building_alive` says whether the construction the
/// weapons fire at still stands, and `wall_for_lock` which construction
/// stands in the line of fire to the lock now.
///
/// An ended attack leaves the unit idle without a lock, its groups' slots
/// empty, its skill idle and searching on the next tick, and no swing; an
/// interrupted one also drops the attack waiting. Nothing changes otherwise.
pub fn end_before_attack(
    cycle: &mut AttackCycle,
    search: &mut TargetSearch,
    lock: &mut TargetLock,
    slots: &mut GroupSlots,
    has_body: bool,
    building_alive: bool,
    wall_for_lock: Option<u64>,
    step: u64,
) -> (ending: Option<AttackEnding>)
    ensures
        ending == if fallen_block(*old(lock), *old(cycle), building_alive, step) is Some {
            Some(
                AttackEnding::BlockFell {
                    fallen_attack_target: if has_body {
                        fallen_block(*old(lock), *old(cycle), building_alive, step)
                    } else {
                        None
                    },
                },
            )
        } else if wall_interrupts(*old(lock), *old(cycle), wall_for_lock, step) {
            Some(AttackEnding::WallInterrupts)
        } else {
            None
        },
        ending is None ==> *final(cycle) == *old(cycle) && *final(search) == *old(search) && final(lock).lock_target
            == old(lock).lock_target && final(slots).targets@ == old(slots).targets@,
        ending is Some ==> {
            &&& final(lock).lock_target is None
            &&& final(slots).lock_target is None
            &&& forall|i: int| 0 <= i < final(slots).targets.len() ==> #[trigger] final(slots).targets@[i] is None
            &&& final(slots).pending_releases@.len() == 0
            &&& *final(search) == (TargetSearch { search_target_time: 0, ..*old(search) })
            &&& *final(cycle) == (AttackCycle {
                motion: MotionState::Idle,
                phase: FightSkillPhase::Idle,
                attacked_wall: None,
                backswing_finish_step: None,
                pending: if ending == Some(AttackEnding::WallInterrupts) {
                    None
                } else {
                    old(cycle).pending
                },
                ..*old(cycle)
            })
        },
        final(lock).in_the_way == old(lock).in_the_way,
{
    let quiet_swing = match cycle.backswing_finish_step {
        Some(finish) => finish < step,
        None => true,
    };
    let fallen = match lock.attack_target() {
        Some(FightActorRef::Building(building)) => {
            let found = match lock.in_the_way {
                Some((wall, _)) => wall == building,
                None => false,
            };
            if lock.group_skill_targets.len() == 0 && cycle.attacked_wall == Some(building) && cycle.pending.is_none()
                && quiet_swing && found && !building_alive {
                Some(building)
            } else {
                None
            }
        },
        _ => None,
    };
    let ending = match fallen {
        Some(building) => Some(AttackEnding::BlockFell { fallen_attack_target: if has_body { Some(building) } else { None } }),
        None => {
            let held = match lock.in_the_way {
                Some((wall, found_for)) => if lock.lock_target == Some(found_for) {
                    Some(wall)
                } else {
                    None
                },
                None => None,
            };
            let between_blows = cycle.phase != FightSkillPhase::Idle && quiet_swing;
            let preparing = match cycle.phase {
                FightSkillPhase::Prepare { .. } => true,
                _ => false,
            };
            let interrupts = match lock.lock_target {
                Some(FightActorRef::Unit(_)) => if lock.group_skill_targets.len() != 0 {
                    false
                } else if preparing && held.is_none() {
                    wall_for_lock.is_some()
                } else {
                    match (held, wall_for_lock) {
                        (Some(held), Some(wall)) => between_blows && wall != held,
                        _ => false,
                    }
                },
                _ => false,
            };
            if interrupts {
                Some(AttackEnding::WallInterrupts)
            } else {
                None
            }
        },
    };
    match ending {
        Some(why) => {
            lock.drop_lock();
            slots.drop_lock();
            cycle.motion = MotionState::Idle;
            cycle.phase = FightSkillPhase::Idle;
            cycle.attacked_wall = None;
            cycle.backswing_finish_step = None;
            if why == AttackEnding::WallInterrupts {
                cycle.pending = None;
            }
            search.search_target_time = 0;
        },
        None => {},
    }
    ending
}

/// Hands the weapons the construction standing between the unit and its
/// lock, `wall_for_lock`, when the lock is a unit, and nothing otherwise;
/// and each grouped slot holding a unit the construction `group_walls` names
/// for it, when a group has slots.
pub fn engage_wall_in_the_way(lock: &mut TargetLock, wall_for_lock: Option<u64>, group_walls: &Vec<Option<u64>>)
    requires
        group_walls.len() == old(lock).group_skill_targets.len(),
    ensures
        final(lock).lock_target == old(lock).lock_target,
        final(lock).in_the_way == match old(lock).lock_target {
            Some(FightActorRef::Unit(unit)) => match wall_for_lock {
                Some(wall) => Some((wall, FightActorRef::Unit(unit))),
                None => None,
            },
            _ => None,
        },
        final(lock).group_skill_targets@ == old(lock).group_skill_targets@,
        old(lock).group_skill_targets.len() == 0 ==> final(lock).group_in_the_way@ == old(lock).group_in_the_way@,
        old(lock).group_skill_targets.len() != 0 ==> final(lock).group_in_the_way.len() == old(lock).group_skill_targets.len()
            && forall|i: int|
            0 <= i < final(lock).group_in_the_way.len() ==> #[trigger] final(lock).group_in_the_way@[i] == match (
                old(lock).group_skill_targets@[i],
                group_walls@[i],
            ) {
                (Some(unit), Some(wall)) => Some((wall, unit)),
                _ => None,
            },
{
    lock.in_the_way = match lock.lock_target {
        Some(FightActorRef::Unit(unit)) => match wall_for_lock {
            Some(wall) => Some((wall, FightActorRef::Unit(unit))),
            None => None,
        },
        _ => None,
    };
    if lock.group_skill_targets.len() == 0 {
        return;
    }
    let mut found: Vec<Option<(u64, u64)>> = Vec::new();
    let mut i: usize = 0;
    while i < lock.group_skill_targets.len()
        invariant
            i <= lock.group_skill_targets.len(),
            group_walls.len() == lock.group_skill_targets.len(),
            found.len() == i,
            forall|k: int|
                0 <= k < i ==> #[trigger] found@[k] == match (lock.group_skill_targets@[k], group_walls@[k]) {
                    (Some(unit), Some(wall)) => Some((wall, unit)),
                    _ => None,
                },
        decreases lock.group_skill_targets.len() - i,
    {
        let slot = match (lock.group_skill_targets[i], group_walls[i]) {
            (Some(unit), Some(wall)) => Some((wall, unit)),
            _ => None,
        };
        found.push(slot);
        i = i + 1;
    }
    lock.group_in_the_way = found;
}


/// Whether the lock was dropped: no lock, no grouped slot holding a unit,
/// no shot waiting, and the construction found for the lock kept.
pub open spec fn dropped(
    lock: TargetLock,
    slots: GroupSlots,
    final_lock: TargetLock,
    final_slots: GroupSlots,
) -> bool {
    &&& final_lock.lock_target is None
    &&& final_lock.in_the_way == lock.in_the_way
    &&& forall|i: int| 0 <= i < final_lock.group_skill_targets.len() ==> #[trigger] final_lock.group_skill_targets@[i] is None
    &&& final_slots.lock_target is None
    &&& forall|i: int| 0 <= i < final_slots.targets.len() ==> #[trigger] final_slots.targets@[i] is None
    &&& final_slots.pending_releases@.len() == 0
}

/// Ends the one-tick hand-off at a match's end: a unit locked on a building
/// only to expose the defeated team's core drops it and idles. Answers
/// whether it did.
pub fn end_terminal_handoff(
    cycle: &mut AttackCycle,
    search: &mut TargetSearch,
    lock: &mut TargetLock,
    slots: &mut GroupSlots,
) -> (ended: bool)
    ensures
        ended == (old(lock).lock_target matches Some(FightActorRef::Building(_)) && old(search).lock_is_terminal_handoff),
        ended ==> dropped(*old(lock), *old(slots), *final(lock), *final(slots)) && *final(cycle) == (AttackCycle {
            motion: MotionState::Idle,
            phase: FightSkillPhase::Idle,
            attacked_wall: None,
            ..*old(cycle)
        }) && *final(search) == (TargetSearch { lock_is_terminal_handoff: false, ..*old(search) }),
        !ended ==> *final(cycle) == *old(cycle) && *final(search) == *old(search) && final(lock).lock_target
            == old(lock).lock_target && final(slots).targets@ == old(slots).targets@,
{
    let on_building = match lock.lock_target {
        Some(FightActorRef::Building(_)) => true,
        _ => false,
    };
    if !(on_building && search.lock_is_terminal_handoff) {
        return false;
    }
    lock.drop_lock();
    slots.drop_lock();
    cycle.attacked_wall = None;
    cycle.motion = MotionState::Idle;
    cycle.phase = FightSkillPhase::Idle;
    search.lock_is_terminal_handoff = false;
    true
}

/// Ends a laser's attack on a target it killed itself: the lock drops, the
/// skill idles and the laser's count of hits starts over; the unit keeps
/// its motion. Answers whether it did.
pub fn end_completed_laser_kill(
    cycle: &mut AttackCycle,
    search: &mut TargetSearch,
    lock: &mut TargetLock,
    slots: &mut GroupSlots,
    is_laser: bool,
    attack_target_alive: bool,
) -> (ended: bool)
    ensures
        ended == (old(search).retarget_after_own_direct_kill && is_laser && attack_target_spec(
            old(lock).lock_target,
            old(lock).in_the_way,
        ) is Some && !attack_target_alive),
        ended ==> dropped(*old(lock), *old(slots), *final(lock), *final(slots)) && *final(cycle) == (AttackCycle {
            phase: FightSkillPhase::Idle,
            attacked_wall: None,
            ..*old(cycle)
        }) && *final(search) == (TargetSearch {
            laser_attack_count: 0,
            retarget_after_own_direct_kill: false,
            ..*old(search)
        }),
        !ended ==> *final(cycle) == *old(cycle) && *final(search) == *old(search) && final(lock).lock_target
            == old(lock).lock_target && final(slots).targets@ == old(slots).targets@,
{
    if !(search.retarget_after_own_direct_kill && is_laser && lock.attack_target().is_some() && !attack_target_alive) {
        return false;
    }
    lock.drop_lock();
    slots.drop_lock();
    cycle.attacked_wall = None;
    cycle.phase = FightSkillPhase::Idle;
    search.laser_attack_count = 0;
    search.retarget_after_own_direct_kill = false;
    true
}

/// Whether the target an attacking unit fires at has gone stale: it is
/// dead, and the unit neither holds fire nor has an attack waiting or
/// swinging.
pub open spec fn stale_target(cycle: AttackCycle, lock: TargetLock, attack_target_alive: bool) -> bool {
    &&& cycle.motion == MotionState::Attacking
    &&& !cycle.hold_fire
    &&& cycle.pending is None
    &&& cycle.backswing_finish_step is None
    &&& attack_target_spec(lock.lock_target, lock.in_the_way) is Some
    &&& !attack_target_alive
}

/// Ends the attack on a stale target for a unit that does not switch
/// targets at once: it drops its lock and idles. Answers whether it did.
pub fn end_on_stale_target(
    cycle: &mut AttackCycle,
    lock: &mut TargetLock,
    slots: &mut GroupSlots,
    quick_switch_target: bool,
    attack_target_alive: bool,
) -> (ended: bool)
    ensures
        ended == (stale_target(*old(cycle), *old(lock), attack_target_alive) && !quick_switch_target),
        ended ==> dropped(*old(lock), *old(slots), *final(lock), *final(slots)) && *final(cycle) == (AttackCycle {
            motion: MotionState::Idle,
            phase: FightSkillPhase::Idle,
            attacked_wall: None,
            ..*old(cycle)
        }),
        !ended ==> *final(cycle) == *old(cycle) && final(lock).lock_target == old(lock).lock_target
            && final(slots).targets@ == old(slots).targets@,
{
    let stale = cycle.motion == MotionState::Attacking && !cycle.hold_fire && cycle.pending.is_none()
        && cycle.backswing_finish_step.is_none() && lock.attack_target().is_some() && !attack_target_alive;
    if !stale || quick_switch_target {
        return false;
    }
    lock.drop_lock();
    slots.drop_lock();
    cycle.attacked_wall = None;
    cycle.motion = MotionState::Idle;
    cycle.phase = FightSkillPhase::Idle;
    true
}

/// Starts a bodyless unit's idle skill before its search when it attacks
/// and its target is in its attack's area, with nothing held, waiting or
/// swinging; `attack_target_in_area` is false for a unit whose weapons have
/// no target. Answers whether it did.
pub fn start_bodyless_skill(
    cycle: &mut AttackCycle,
    has_body: bool,
    attack_target_in_area: bool,
    prepare_time_units: u64,
    step: u64,
) -> (started: bool)
    ensures
        started == (cycle_starts_bodyless(*old(cycle), has_body, attack_target_in_area)),
        started ==> *final(cycle) == (AttackCycle { phase: start_phase_spec(prepare_time_units, step), ..*old(cycle) }),
        !started ==> *final(cycle) == *old(cycle),
{
    if !(cycle.motion == MotionState::Attacking && cycle.phase == FightSkillPhase::Idle && !has_body
        && !cycle.hold_fire && cycle.pending.is_none() && cycle.backswing_finish_step.is_none()
        && attack_target_in_area) {
        return false;
    }
    cycle.phase = start_phase(prepare_time_units, step);
    true
}

/// Whether a bodyless unit's idle skill starts before its search.
pub open spec fn cycle_starts_bodyless(cycle: AttackCycle, has_body: bool, attack_target_in_area: bool) -> bool {
    &&& cycle.motion == MotionState::Attacking
    &&& cycle.phase == FightSkillPhase::Idle
    &&& !has_body
    &&& !cycle.hold_fire
    &&& cycle.pending is None
    &&& cycle.backswing_finish_step is None
    &&& attack_target_in_area
}

} // verus!
