//! When a unit's skill searches for its target, and what it does with what
//! the search finds.
//!
//! A skill that is preparing or attacking does not search, unless it
//! switches targets at once and its target is gone. One whose target lives
//! counts its timer down and searches when it runs out. A search that finds
//! a construction locks on it at once; one that finds a unit, or nothing,
//! leaves an attacking unit the lock it has, and otherwise takes what it
//! found.

use vstd::prelude::*;

use crate::group::GroupSlots;
use crate::lock::{attack_target_spec, TargetLock};
use crate::quadtree::FightActorRef;
use crate::skill::{AttackCycle, FightSkillPhase, MotionState};

verus! {

/// The ticks a skill waits between two searches.
pub const SEARCH_TARGET_RESET_TICKS: i32 = 10i32;

/// A skill's search: the ticks until it searches again, whether it searched
/// this tick, whether its lock is the one-tick hand-off at a match's end, the
/// laser's count of hits on one target, and whether a laser that killed its
/// own target is to take another.
#[derive(Debug, Clone, Copy, PartialEq, Eq, Structural)]
pub struct TargetSearch {
    pub search_target_time: i32,
    pub searched_this_tick: bool,
    pub lock_is_terminal_handoff: bool,
    pub laser_attack_count: u64,
    pub retarget_after_own_direct_kill: bool,
}

/// Whether a skill is preparing or attacking.
pub open spec fn busy(phase: FightSkillPhase) -> bool {
    phase is Prepare || phase is Attack
}

/// Whether the skill searches on `step`, the backswing after it, and its
/// timer after it: a skill whose target is gone while it still swings waits
/// out the swing, unless it switches targets at once and its next attack is
/// past due, which ends the swing; a skill preparing or attacking waits,
/// unless it switches at once and its target is gone; one whose target lives
/// counts its timer down, and searches once it has run out.
pub open spec fn searches_spec(
    search: TargetSearch,
    cycle: AttackCycle,
    quick_switch_target: bool,
    target_alive: bool,
    step: u64,
) -> (bool, Option<u64>, int) {
    let swinging = cycle.backswing_finish_step matches Some(finish) && finish >= step;
    let time = search.search_target_time as int;
    if !target_alive && swinging && !(quick_switch_target && step > cycle.next_attack_step) {
        (false, cycle.backswing_finish_step, time)
    } else {
        let backswing = if !target_alive && swinging {
            None
        } else {
            cycle.backswing_finish_step
        };
        if busy(cycle.phase) && (!quick_switch_target || target_alive) {
            (false, backswing, time)
        } else if target_alive && time > 0 {
            (false, backswing, time - 1)
        } else {
            (true, backswing, time)
        }
    }
}

/// Decides whether the skill searches for its target on `step`; see
/// [`searches_spec`]. Marks the search as made when it is.
pub fn search_due(
    search: &mut TargetSearch,
    cycle: &mut AttackCycle,
    quick_switch_target: bool,
    target_alive: bool,
    step: u64,
) -> (due: bool)
    ensures
        ({
            let (searches, backswing, time) = searches_spec(
                *old(search),
                *old(cycle),
                quick_switch_target,
                target_alive,
                step,
            );
            &&& due == searches
            &&& *final(cycle) == (AttackCycle { backswing_finish_step: backswing, ..*old(cycle) })
            &&& final(search).search_target_time == time
            &&& final(search).searched_this_tick == (old(search).searched_this_tick || due)
            &&& final(search).lock_is_terminal_handoff == old(search).lock_is_terminal_handoff
            &&& final(search).laser_attack_count == old(search).laser_attack_count
            &&& final(search).retarget_after_own_direct_kill == old(search).retarget_after_own_direct_kill
        }),
{
    let swinging = match cycle.backswing_finish_step {
        Some(finish) => finish >= step,
        None => false,
    };
    if !target_alive && swinging {
        if !(quick_switch_target && step > cycle.next_attack_step) {
            return false;
        }
        cycle.backswing_finish_step = None;
    }
    let busy_phase = match cycle.phase {
        FightSkillPhase::Idle => false,
        _ => true,
    };
    if busy_phase && (!quick_switch_target || target_alive) {
        return false;
    }
    if target_alive && search.search_target_time > 0 {
        search.search_target_time = search.search_target_time - 1;
        return false;
    }
    search.searched_this_tick = true;
    true
}

/// What a search that found `selected` leaves the lock as: a construction
/// is taken at once; an attacking unit whose target lives, not holding fire,
/// with nothing waiting or swinging, keeps its lock, unless it switches
/// targets at once and cannot keep attacking its target from where its
/// skill stands; otherwise what was found is taken.
pub open spec fn settled_lock_spec(
    lock_target: Option<FightActorRef>,
    cycle: AttackCycle,
    selected: Option<FightActorRef>,
    target_alive: bool,
    quick_switch_target: bool,
    attack_target_in_area: bool,
    step: u64,
) -> Option<FightActorRef> {
    match selected {
        Some(FightActorRef::Building(building)) => Some(FightActorRef::Building(building)),
        _ => {
            let retains = quick_switch_target && cycle.phase == FightSkillPhase::Idle && step >= cycle.next_attack_step
                && attack_target_in_area;
            if target_alive && (!quick_switch_target || retains) && cycle.motion == MotionState::Attacking
                && !cycle.hold_fire && cycle.pending is None && cycle.backswing_finish_step is None && selected
                != lock_target {
                lock_target
            } else {
                selected
            }
        },
    }
}

/// Settles a search that found `selected`: the lock becomes what
/// [`settled_lock_spec`] says, the timer starts over, the hand-off and a
/// laser's own-kill retarget are over, and a laser's count of hits starts
/// over when a construction is found or what the weapons fire at changes. A
/// construction found idles the skill, to attack it from the start. Whether
/// `attack_target_in_area` says if what the weapons fire at is in the
/// attack's area.
pub fn settle_search(
    search: &mut TargetSearch,
    cycle: &mut AttackCycle,
    lock: &mut TargetLock,
    selected: Option<FightActorRef>,
    target_alive: bool,
    quick_switch_target: bool,
    attack_target_in_area: bool,
    step: u64,
)
    ensures
        final(lock).lock_target == settled_lock_spec(
            old(lock).lock_target,
            *old(cycle),
            selected,
            target_alive,
            quick_switch_target,
            attack_target_in_area,
            step,
        ),
        final(lock).in_the_way == old(lock).in_the_way,
        final(lock).group_skill_targets@ == old(lock).group_skill_targets@,
        final(lock).group_in_the_way@ == old(lock).group_in_the_way@,
        final(search).search_target_time == SEARCH_TARGET_RESET_TICKS,
        !final(search).lock_is_terminal_handoff,
        !final(search).retarget_after_own_direct_kill,
        final(search).searched_this_tick == old(search).searched_this_tick,
        final(search).laser_attack_count == if selected matches Some(FightActorRef::Building(_)) || attack_target_spec(
            old(lock).lock_target,
            old(lock).in_the_way,
        ) != final(lock).lock_target {
            0
        } else {
            old(search).laser_attack_count
        },
        *final(cycle) == if selected matches Some(FightActorRef::Building(_)) {
            AttackCycle { phase: FightSkillPhase::Idle, ..*old(cycle) }
        } else {
            *old(cycle)
        },
{
    search.lock_is_terminal_handoff = false;
    search.search_target_time = SEARCH_TARGET_RESET_TICKS;
    search.retarget_after_own_direct_kill = false;
    match selected {
        Some(FightActorRef::Building(building)) => {
            lock.lock_target = Some(FightActorRef::Building(building));
            cycle.phase = FightSkillPhase::Idle;
            search.laser_attack_count = 0;
            return;
        },
        _ => {},
    }
    let retains = quick_switch_target && cycle.phase == FightSkillPhase::Idle && step >= cycle.next_attack_step
        && attack_target_in_area;
    let keeps = target_alive && (!quick_switch_target || retains) && cycle.motion == MotionState::Attacking
        && !cycle.hold_fire && cycle.pending.is_none() && cycle.backswing_finish_step.is_none() && selected
        != lock.lock_target;
    let settled = if keeps {
        lock.lock_target
    } else {
        selected
    };
    if lock.attack_target() != settled {
        search.laser_attack_count = 0;
    }
    lock.lock_target = settled;
}


/// Takes a unit that has died out of the fight: idle, with no attack
/// waiting, no lock, no construction attacked, not holding fire, its skill
/// idle and searching afresh after the full wait, its laser and hand-off
/// state cleared, and every grouped slot empty, unscheduled and with no shot
/// waiting.
pub fn exit_fight_on_death(
    cycle: &mut AttackCycle,
    search: &mut TargetSearch,
    lock: &mut TargetLock,
    slots: &mut GroupSlots,
)
    ensures
        *final(cycle) == (AttackCycle {
            motion: MotionState::Idle,
            hold_fire: false,
            phase: FightSkillPhase::Idle,
            pending: None,
            attacked_wall: None,
            ..*old(cycle)
        }),
        *final(search) == (TargetSearch {
            search_target_time: SEARCH_TARGET_RESET_TICKS,
            lock_is_terminal_handoff: false,
            laser_attack_count: 0,
            retarget_after_own_direct_kill: false,
            ..*old(search)
        }),
        final(lock).lock_target is None,
        final(lock).in_the_way == old(lock).in_the_way,
        final(lock).group_skill_targets.len() == old(lock).group_skill_targets.len(),
        forall|i: int| 0 <= i < final(lock).group_skill_targets.len() ==> #[trigger] final(lock).group_skill_targets@[i] is None,
        final(lock).group_in_the_way.len() == old(lock).group_in_the_way.len(),
        forall|i: int| 0 <= i < final(lock).group_in_the_way.len() ==> #[trigger] final(lock).group_in_the_way@[i] is None,
        final(slots).lock_target is None,
        final(slots).targets.len() == old(slots).targets.len(),
        forall|i: int| 0 <= i < final(slots).targets.len() ==> #[trigger] final(slots).targets@[i] is None,
        final(slots).next_attack_steps.len() == old(slots).next_attack_steps.len(),
        forall|i: int| 0 <= i < final(slots).next_attack_steps.len() ==> #[trigger] final(slots).next_attack_steps@[i] == 0,
        final(slots).prepare_ready_steps.len() == old(slots).prepare_ready_steps.len(),
        forall|i: int|
            0 <= i < final(slots).prepare_ready_steps.len() ==> #[trigger] final(slots).prepare_ready_steps@[i] == 0,
        final(slots).pending_releases@.len() == 0,
{
    cycle.motion = MotionState::Idle;
    cycle.hold_fire = false;
    cycle.phase = FightSkillPhase::Idle;
    cycle.pending = None;
    cycle.attacked_wall = None;
    search.search_target_time = SEARCH_TARGET_RESET_TICKS;
    search.lock_is_terminal_handoff = false;
    search.laser_attack_count = 0;
    search.retarget_after_own_direct_kill = false;
    lock.drop_lock();
    slots.drop_lock();
}


/// The selector's answer a search settles on: its pick, except that a pick
/// made from the positions at the tick's start that has died during the tick
/// gives way to the pick made from live positions.
pub fn settled_pick(
    used_live_positions: bool,
    pick: Option<FightActorRef>,
    pick_died_during_tick: bool,
    live_pick: Option<FightActorRef>,
) -> (selected: Option<FightActorRef>)
    ensures
        selected == if !used_live_positions && pick is Some && pick_died_during_tick {
            live_pick
        } else {
            pick
        },
{
    if !used_live_positions && pick.is_some() && pick_died_during_tick {
        live_pick
    } else {
        pick
    }
}

/// What a quick-switching unit reads of its weapons' unit target and of the
/// fight when it asks whether to switch: whether the target is within its
/// attack's range, alive, and in its attack's area; whether projectiles of
/// its burst are still to be released; whether its weapons fire together as
/// one; and the unit the selector settled on, with whether it is in the
/// attack's area.
#[derive(Debug, Clone, Copy, PartialEq, Eq, Structural)]
pub struct SwitchReading {
    pub target_in_attack_range: bool,
    pub target_alive: bool,
    pub target_in_attack_area: bool,
    pub projectiles_pending: bool,
    pub normal_weapons: bool,
    pub selected: Option<FightActorRef>,
    pub selected_in_area: bool,
}

/// Whether a quick switch away from a unit target out of the attack's area
/// is asked: the weapons fire at a unit, the skill is attacking (or is idle
/// while the unit attacks out of range) or a phase override is allowed, the
/// unit has a body and switches at once with its weapons firing together,
/// no projectile of its burst waits, a target that is gone belongs to an
/// attacking unit unless overridden, and the target has left the area.
pub open spec fn switch_asked(
    lock: TargetLock,
    cycle: AttackCycle,
    has_body: bool,
    quick_switch_target: bool,
    reading: SwitchReading,
    allow_phase_override: bool,
) -> bool {
    let in_attacking_phase = cycle.phase == FightSkillPhase::Attack || (cycle.phase == FightSkillPhase::Idle
        && cycle.motion == MotionState::Attacking && !reading.target_in_attack_range);
    &&& attack_target_spec(lock.lock_target, lock.in_the_way) matches Some(FightActorRef::Unit(_))
    &&& allow_phase_override || in_attacking_phase
    &&& has_body
    &&& quick_switch_target
    &&& reading.normal_weapons
    &&& !reading.projectiles_pending
    &&& allow_phase_override || reading.target_alive || cycle.motion == MotionState::Attacking
    &&& !reading.target_in_attack_area
}

/// The unit a switch moves to: the settled unit when it is in the attack's
/// area, else none.
pub open spec fn switch_to(reading: SwitchReading) -> Option<u64> {
    match reading.selected {
        Some(FightActorRef::Unit(unit)) => if reading.selected_in_area {
            Some(unit)
        } else {
            None
        },
        _ => None,
    }
}

/// Switches a quick-switching unit whose unit target has left its attack's
/// area to the settled unit when that one is in the area; when none is, the
/// unit gives up: it drops its lock and idles with nothing waiting. Either
/// way its search starts over. Answers whether it went idle; a switch not
/// asked changes nothing and answers no.
pub fn quick_switch_outside_area(
    cycle: &mut AttackCycle,
    search: &mut TargetSearch,
    lock: &mut TargetLock,
    slots: &mut GroupSlots,
    has_body: bool,
    quick_switch_target: bool,
    reading: SwitchReading,
    allow_phase_override: bool,
) -> (entered_idle: bool)
    ensures
        !switch_asked(*old(lock), *old(cycle), has_body, quick_switch_target, reading, allow_phase_override) ==> {
            &&& !entered_idle
            &&& *final(cycle) == *old(cycle)
            &&& *final(search) == *old(search)
            &&& final(lock).lock_target == old(lock).lock_target
            &&& final(lock).group_skill_targets@ == old(lock).group_skill_targets@
            &&& final(lock).group_in_the_way@ == old(lock).group_in_the_way@
            &&& final(slots).targets@ == old(slots).targets@
            &&& final(slots).pending_releases@ == old(slots).pending_releases@
        },
        switch_asked(*old(lock), *old(cycle), has_body, quick_switch_target, reading, allow_phase_override) ==> {
            &&& entered_idle == (switch_to(reading) is None)
            &&& final(search).search_target_time == SEARCH_TARGET_RESET_TICKS
            &&& !final(search).retarget_after_own_direct_kill
            &&& final(search).lock_is_terminal_handoff == old(search).lock_is_terminal_handoff
            &&& switch_to(reading) matches Some(unit) ==> {
                &&& final(lock).lock_target == Some(FightActorRef::Unit(unit))
                &&& final(lock).group_skill_targets@ == old(lock).group_skill_targets@
                &&& *final(cycle) == *old(cycle)
                &&& final(search).laser_attack_count == if attack_target_spec(old(lock).lock_target, old(lock).in_the_way)
                    == Some(FightActorRef::Unit(unit)) {
                    old(search).laser_attack_count
                } else {
                    0
                }
            }
            &&& switch_to(reading) is None ==> {
                &&& final(lock).lock_target is None
                &&& forall|i: int|
                    0 <= i < final(lock).group_skill_targets.len() ==> #[trigger] final(lock).group_skill_targets@[i] is None
                &&& final(slots).lock_target is None
                &&& forall|i: int| 0 <= i < final(slots).targets.len() ==> #[trigger] final(slots).targets@[i] is None
                &&& final(slots).pending_releases@.len() == 0
                &&& *final(cycle) == (AttackCycle {
                    motion: MotionState::Idle,
                    phase: FightSkillPhase::Idle,
                    pending: None,
                    attacked_wall: None,
                    ..*old(cycle)
                })
                &&& final(search).laser_attack_count == old(search).laser_attack_count
            }
        },
        final(lock).in_the_way == old(lock).in_the_way,
{
    let on_unit = match lock.attack_target() {
        Some(FightActorRef::Unit(_)) => true,
        _ => false,
    };
    let in_attacking_phase = cycle.phase == FightSkillPhase::Attack || (cycle.phase == FightSkillPhase::Idle
        && cycle.motion == MotionState::Attacking && !reading.target_in_attack_range);
    if !on_unit || (!allow_phase_override && !in_attacking_phase) || !has_body || !quick_switch_target
        || !reading.normal_weapons || reading.projectiles_pending || (!allow_phase_override && !reading.target_alive
        && cycle.motion != MotionState::Attacking) || reading.target_in_attack_area {
        return false;
    }
    let switched = match reading.selected {
        Some(FightActorRef::Unit(unit)) => if reading.selected_in_area {
            Some(unit)
        } else {
            None
        },
        _ => None,
    };
    let entered_idle = match switched {
        Some(unit) => {
            if lock.attack_target() != Some(FightActorRef::Unit(unit)) {
                search.laser_attack_count = 0;
            }
            lock.lock_target = Some(FightActorRef::Unit(unit));
            false
        },
        None => {
            lock.drop_lock();
            slots.drop_lock();
            cycle.attacked_wall = None;
            cycle.motion = MotionState::Idle;
            cycle.phase = FightSkillPhase::Idle;
            cycle.pending = None;
            true
        },
    };
    search.search_target_time = SEARCH_TARGET_RESET_TICKS;
    search.retarget_after_own_direct_kill = false;
    entered_idle
}


/// Marks a direct blow or a beam that killed the unit it struck for a new
/// target; a beam's unit also goes idle. A construction felled is left to
/// the fallen-block rule, and a target that was already dead, or still
/// lives, changes nothing. Answers whether it was marked.
pub fn after_own_kill(
    cycle: &mut AttackCycle,
    search: &mut TargetSearch,
    target: FightActorRef,
    target_was_alive: bool,
    target_alive_now: bool,
    is_laser: bool,
) -> (killed: bool)
    ensures
        killed == (target_was_alive && !target_alive_now && target is Unit),
        killed ==> *final(search) == (TargetSearch { retarget_after_own_direct_kill: true, ..*old(search) }),
        killed ==> *final(cycle) == if is_laser {
            AttackCycle { motion: MotionState::Idle, ..*old(cycle) }
        } else {
            *old(cycle)
        },
        !killed ==> *final(cycle) == *old(cycle) && *final(search) == *old(search),
{
    let killed = target_was_alive && !target_alive_now && match target {
        FightActorRef::Unit(_) => true,
        FightActorRef::Building(_) => false,
    };
    if killed {
        search.retarget_after_own_direct_kill = true;
        if is_laser {
            cycle.motion = MotionState::Idle;
        }
    }
    killed
}

} // verus!
