//! A unit's attack cycle on a tick its target is in reach: whether it enters
//! its attack, holds fire while it turns, gives up the target, starts its
//! skill's preparation, and launches an attack, with the interval drawn for
//! the next.

use vstd::prelude::*;

use crate::attack::{sample_attack_interval, stagger_range, staggered_interval};
use crate::fixed::{clamp_int, native_time_units_to_steps, native_time_units_to_steps_spec};
use crate::Error;
use crate::group::{GroupSlots, PendingRelease};
use crate::lock::TargetLock;
use crate::quadtree::FightActorRef;
use crate::random::{inclusive_draw_spec, GrRandom, RandomState};
use crate::rules::{AttackConfig, AttackPath};

verus! {

/// What a unit's body is doing.
#[derive(Debug, Clone, Copy, PartialEq, Eq, Structural)]
pub enum MotionState {
    Idle,
    Moving,
    Attacking,
}

/// Where a unit's skill stands: idle, preparing until a tick, or attacking.
#[derive(Debug, Clone, Copy, PartialEq, Eq, Structural)]
pub enum FightSkillPhase {
    Idle,
    Prepare { finish_step: u64 },
    Attack,
}

/// A unit's attack cycle: its motion, whether it holds fire while it turns,
/// its skill's phase, the attack waiting to be released, when its backswing
/// ends, when it may next attack and the interval it waited, and the
/// construction it has launched an attack at.
#[derive(Debug, Clone, Copy, PartialEq, Eq, Structural)]
pub struct AttackCycle {
    pub motion: MotionState,
    pub hold_fire: bool,
    pub phase: FightSkillPhase,
    pub pending: Option<PendingRelease>,
    pub backswing_finish_step: Option<u64>,
    pub next_attack_step: u64,
    pub current_attack_interval: u64,
    pub attacked_wall: Option<u64>,
}

/// What the cycle reads of a unit: whether it has a body, whether its skill
/// is a melee strike, whether a bodyless unit entering its attack out of
/// angle holds fire with this skill (a projectile, a melee strike or a
/// laser), whether it switches targets at once, and the skill's preparation,
/// attack point, interval and interval offset in time units.
#[derive(Debug, Clone, Copy, PartialEq, Eq, Structural)]
pub struct CycleRules {
    pub has_body: bool,
    pub melee_direct: bool,
    pub holds_fire_on_entry: bool,
    pub quick_switch_target: bool,
    pub prepare_time_units: u64,
    pub attack_point_time_units: u64,
    pub interval_time_units: u64,
    pub offset_time_units: u64,
}

/// How a tick with the target in reach ends: the unit gave the target up and
/// went idle, its lock to be dropped; or it is attacking, having just entered
/// its attack or not, with an attack to release on this very tick or not,
/// and with its hold on fire to be cleared once it has turned or not.
#[derive(Debug, Clone, Copy, PartialEq, Eq, Structural)]
pub enum InReach {
    Rejected,
    Engaged { entered_attack: bool, release_now: bool, clear_hold_after_motion: bool },
}

/// Whether a skill is a melee strike.
pub open spec fn melee_direct_spec(attack: AttackConfig) -> bool {
    attack.path is Direct && attack.melee
}

/// The cycle's reading of a unit with this attack, whose interval, corrected
/// by its loadout, is `interval_time_units`.
pub open spec fn cycle_rules_spec(attack: AttackConfig, has_body: bool, interval_time_units: u64) -> CycleRules {
    CycleRules {
        has_body,
        melee_direct: melee_direct_spec(attack),
        holds_fire_on_entry: attack.path is Projectile || melee_direct_spec(attack) || attack.path is Laser,
        quick_switch_target: attack.quick_switch_target,
        prepare_time_units: attack.timing.prepare,
        attack_point_time_units: attack.timing.attack_point,
        interval_time_units,
        offset_time_units: attack.timing.interval_offset,
    }
}

impl CycleRules {
    /// What the cycle reads of a unit with `attack`.
    pub fn of(attack: &AttackConfig, has_body: bool, interval_time_units: u64) -> (rules: Self)
        ensures
            rules == cycle_rules_spec(*attack, has_body, interval_time_units),
    {
        let melee_direct = match attack.path {
            AttackPath::Direct => attack.melee,
            _ => false,
        };
        let holds_fire_on_entry = match attack.path {
            AttackPath::Projectile { .. } => true,
            AttackPath::Laser { .. } => true,
            _ => melee_direct,
        };
        CycleRules {
            has_body,
            melee_direct,
            holds_fire_on_entry,
            quick_switch_target: attack.quick_switch_target,
            prepare_time_units: attack.timing.prepare,
            attack_point_time_units: attack.timing.attack_point,
            interval_time_units,
            offset_time_units: attack.timing.interval_offset,
        }
    }
}

/// `step + ticks`, saturated at `u64::MAX`.
pub open spec fn after_ticks(step: u64, ticks: int) -> u64 {
    clamp_int(step + ticks, 0, u64::MAX as int) as u64
}

/// The phase a skill starts in at `step`: attacking at once when it prepares
/// for no whole tick, else preparing until the tick its preparation ends.
pub open spec fn start_phase_spec(prepare_time_units: u64, step: u64) -> FightSkillPhase {
    let prepare_steps = native_time_units_to_steps_spec(prepare_time_units as int);
    if prepare_steps == 0 {
        FightSkillPhase::Attack
    } else {
        FightSkillPhase::Prepare { finish_step: after_ticks(step, prepare_steps) }
    }
}

/// The phase a skill starts in at `step`.
pub fn start_phase(prepare_time_units: u64, step: u64) -> (phase: FightSkillPhase)
    ensures
        phase == start_phase_spec(prepare_time_units, step),
{
    let prepare_steps = native_time_units_to_steps(prepare_time_units);
    if prepare_steps == 0 {
        FightSkillPhase::Attack
    } else {
        let finish_step = if prepare_steps > u64::MAX - step {
            u64::MAX
        } else {
            step + prepare_steps
        };
        FightSkillPhase::Prepare { finish_step }
    }
}

/// A preparation that has ended by `step` becomes the attack.
pub open spec fn finish_prepare_spec(phase: FightSkillPhase, step: u64) -> FightSkillPhase {
    match phase {
        FightSkillPhase::Prepare { finish_step } => if finish_step <= step {
            FightSkillPhase::Attack
        } else {
            phase
        },
        _ => phase,
    }
}

/// A preparation that has ended by `step` becomes the attack.
pub fn finish_prepare(phase: FightSkillPhase, step: u64) -> (next: FightSkillPhase)
    ensures
        next == finish_prepare_spec(phase, step),
{
    match phase {
        FightSkillPhase::Prepare { finish_step } => if finish_step <= step {
            FightSkillPhase::Attack
        } else {
            phase
        },
        _ => phase,
    }
}

/// The phase once a backswing is over: a skill that switches targets at once
/// attacks again, any other goes idle.
pub fn phase_after_backswing(quick_switch_target: bool) -> (phase: FightSkillPhase)
    ensures
        phase == if quick_switch_target {
            FightSkillPhase::Attack
        } else {
            FightSkillPhase::Idle
        },
{
    if quick_switch_target {
        FightSkillPhase::Attack
    } else {
        FightSkillPhase::Idle
    }
}

/// Whether a grouped skill's core has entered its attack by the tick after
/// `step`: it is attacking, or its preparation ends by then.
pub open spec fn entered_attack_spec(phase: FightSkillPhase, step: u64) -> bool {
    match phase {
        FightSkillPhase::Attack => true,
        FightSkillPhase::Prepare { finish_step } => finish_step <= after_ticks(step, 1),
        FightSkillPhase::Idle => false,
    }
}

/// Whether a grouped skill's core has entered its attack by the tick after
/// `step`.
pub fn core_has_entered_attack(phase: FightSkillPhase, step: u64) -> (entered: bool)
    ensures
        entered == entered_attack_spec(phase, step),
{
    match phase {
        FightSkillPhase::Attack => true,
        FightSkillPhase::Prepare { finish_step } => {
            let next = if step == u64::MAX {
                u64::MAX
            } else {
                step + 1
            };
            finish_step <= next
        },
        FightSkillPhase::Idle => false,
    }
}

/// When the attack after one launched at `step` may come, the interval it
/// waits, and the random stream after the stagger's draw: the interval in
/// ticks, moved by a draw in `(-offset, offset)` ticks when the offset covers
/// a tick, and at least one tick.
pub open spec fn stagger_spec(state: RandomState, interval_time_units: u64, offset_time_units: u64, step: u64) -> (
    u64,
    u64,
    RandomState,
) {
    let interval_steps = native_time_units_to_steps_spec(interval_time_units as int);
    let offset_steps = native_time_units_to_steps_spec(offset_time_units as int);
    let (sample, after) = inclusive_draw_spec(
        state,
        (1 - stagger_range(offset_steps)) as i64,
        (stagger_range(offset_steps) - 1) as i64,
    );
    let interval = if offset_steps == 0 {
        staggered_interval(interval_steps, 0)
    } else {
        staggered_interval(interval_steps, sample as int)
    };
    (after_ticks(step, interval), interval as u64, if offset_steps == 0 {
        state
    } else {
        after
    })
}

/// The cycle with its motion and phase idle and no construction attacked.
pub open spec fn given_up(cycle: AttackCycle) -> AttackCycle {
    AttackCycle { motion: MotionState::Idle, phase: FightSkillPhase::Idle, attacked_wall: None, ..cycle }
}

/// What a tick with `target` in reach does to the cycle, how it ends, and
/// the random stream after it.
///
/// The unit enters its attack if it was not attacking. A bodyless melee
/// striker whose swing has just ended and that re-enters its attack out of
/// angle gives the target up. A bodyless unit entering its attack out of
/// angle with a skill that holds fire holds it. A bodyless unit already
/// attacking, not holding fire, out of angle and with no attack waiting or
/// swinging gives the target up too. Otherwise an idle skill in angle, with
/// nothing waiting or swinging, starts its phase; and a skill attacking in
/// angle, not holding fire, with nothing waiting or swinging, that did not
/// just start preparing, and whose next attack is due, launches an attack
/// released at the attack point, draws the interval to the next, and
/// remembers a construction it attacks. An entering unit launches only when
/// it switches targets at once.
pub open spec fn in_reach_spec(
    cycle: AttackCycle,
    rules: CycleRules,
    in_attack_angle: bool,
    backswing_just_finished: bool,
    target: FightActorRef,
    step: u64,
    random: RandomState,
) -> (AttackCycle, InReach, RandomState) {
    let entered_attack = cycle.motion != MotionState::Attacking;
    let quiet = cycle.pending is None && cycle.backswing_finish_step is None;
    let hold_fire = if entered_attack {
        !rules.has_body && !in_attack_angle && rules.holds_fire_on_entry
    } else {
        cycle.hold_fire
    };
    if entered_attack && backswing_just_finished && rules.melee_direct && !rules.has_body && !in_attack_angle {
        (given_up(cycle), InReach::Rejected, random)
    } else if !rules.has_body && !entered_attack && !hold_fire && !in_attack_angle && quiet {
        (given_up(cycle), InReach::Rejected, random)
    } else {
        let clear_hold_after_motion = hold_fire && in_attack_angle;
        let starts_skill = !entered_attack && !hold_fire && in_attack_angle && quiet && cycle.phase
            == FightSkillPhase::Idle;
        let phase = if starts_skill {
            start_phase_spec(rules.prepare_time_units, step)
        } else {
            cycle.phase
        };
        let entered_skill_phase = starts_skill && native_time_units_to_steps_spec(rules.prepare_time_units as int)
            > 0;
        let launches = (!entered_attack || rules.quick_switch_target) && !hold_fire && in_attack_angle && quiet
            && phase == FightSkillPhase::Attack && !entered_skill_phase && step >= cycle.next_attack_step;
        let attacking = AttackCycle { motion: MotionState::Attacking, hold_fire, phase, ..cycle };
        if launches {
            let (next_attack_step, interval, after) = stagger_spec(
                random,
                rules.interval_time_units,
                rules.offset_time_units,
                step,
            );
            let release_step = after_ticks(
                step,
                native_time_units_to_steps_spec(rules.attack_point_time_units as int),
            );
            (
                AttackCycle {
                    pending: Some(PendingRelease { step: release_step, target }),
                    next_attack_step,
                    current_attack_interval: interval,
                    attacked_wall: match target {
                        FightActorRef::Building(building) => Some(building),
                        FightActorRef::Unit(_) => cycle.attacked_wall,
                    },
                    ..attacking
                },
                InReach::Engaged { entered_attack, release_now: release_step == step, clear_hold_after_motion },
                after,
            )
        } else {
            (
                attacking,
                InReach::Engaged {
                    entered_attack,
                    release_now: cycle.pending matches Some(pending) && pending.step == step,
                    clear_hold_after_motion,
                },
                random,
            )
        }
    }
}

/// Runs the attack cycle for a tick with `target` in reach; see
/// [`in_reach_spec`]. The interval to the next attack is drawn from the
/// team's `random` stream, and only when an attack is launched.
pub fn step_in_reach(
    cycle: &mut AttackCycle,
    rules: &CycleRules,
    in_attack_angle: bool,
    backswing_just_finished: bool,
    target: FightActorRef,
    step: u64,
    random: &mut GrRandom,
) -> (outcome: InReach)
    ensures
        (*final(cycle), outcome, final(random)@) == in_reach_spec(
            *old(cycle),
            *rules,
            in_attack_angle,
            backswing_just_finished,
            target,
            step,
            old(random)@,
        ),
{
    let entered_attack = cycle.motion != MotionState::Attacking;
    cycle.motion = MotionState::Attacking;
    if entered_attack && backswing_just_finished && rules.melee_direct && !rules.has_body && !in_attack_angle {
        cycle.motion = MotionState::Idle;
        cycle.phase = FightSkillPhase::Idle;
        cycle.attacked_wall = None;
        return InReach::Rejected;
    }
    if entered_attack {
        cycle.hold_fire = !rules.has_body && !in_attack_angle && rules.holds_fire_on_entry;
    }
    let quiet = cycle.pending.is_none() && cycle.backswing_finish_step.is_none();
    if !rules.has_body && !entered_attack && !cycle.hold_fire && !in_attack_angle && quiet {
        cycle.motion = MotionState::Idle;
        cycle.phase = FightSkillPhase::Idle;
        cycle.attacked_wall = None;
        return InReach::Rejected;
    }
    let clear_hold_after_motion = cycle.hold_fire && in_attack_angle;
    let mut entered_skill_phase = false;
    if !entered_attack && !cycle.hold_fire && in_attack_angle && quiet && cycle.phase == FightSkillPhase::Idle {
        cycle.phase = start_phase(rules.prepare_time_units, step);
        entered_skill_phase = native_time_units_to_steps(rules.prepare_time_units) > 0;
    }
    if (!entered_attack || rules.quick_switch_target) && !cycle.hold_fire && in_attack_angle && quiet
        && cycle.phase == FightSkillPhase::Attack && !entered_skill_phase && step >= cycle.next_attack_step {
        let (next_attack_step, interval) = sample_attack_interval(
            random,
            rules.interval_time_units,
            rules.offset_time_units,
            step,
        );
        let attack_point_steps = native_time_units_to_steps(rules.attack_point_time_units);
        let release_step = if attack_point_steps > u64::MAX - step {
            u64::MAX
        } else {
            step + attack_point_steps
        };
        cycle.next_attack_step = next_attack_step;
        cycle.current_attack_interval = interval;
        cycle.pending = Some(PendingRelease { step: release_step, target });
        match target {
            FightActorRef::Building(building) => {
                cycle.attacked_wall = Some(building);
            },
            FightActorRef::Unit(_) => {},
        }
        return InReach::Engaged { entered_attack, release_now: release_step == step, clear_hold_after_motion };
    }
    let release_now = match cycle.pending {
        Some(pending) => pending.step == step,
        None => false,
    };
    InReach::Engaged { entered_attack, release_now, clear_hold_after_motion }
}


/// A tick in reach never replaces nor drops an attack waiting to be
/// released, and draws from the random stream only when it launches one.
pub proof fn lemma_a_waiting_attack_is_kept(
    cycle: AttackCycle,
    rules: CycleRules,
    in_attack_angle: bool,
    backswing_just_finished: bool,
    target: FightActorRef,
    step: u64,
    random: RandomState,
)
    ensures
        ({
            let (after, _, stream) = in_reach_spec(cycle, rules, in_attack_angle, backswing_just_finished, target, step, random);
            &&& cycle.pending is Some ==> after.pending == cycle.pending && stream == random
            &&& after.pending == cycle.pending ==> stream == random
        }),
{
}

/// A unit entering its attack launches an attack on that tick only when its
/// skill switches targets at once.
pub proof fn lemma_an_entering_unit_launches_only_when_it_switches_at_once(
    cycle: AttackCycle,
    rules: CycleRules,
    in_attack_angle: bool,
    backswing_just_finished: bool,
    target: FightActorRef,
    step: u64,
    random: RandomState,
)
    requires
        cycle.motion != MotionState::Attacking,
        !rules.quick_switch_target,
    ensures
        in_reach_spec(cycle, rules, in_attack_angle, backswing_just_finished, target, step, random).0.pending
            == cycle.pending,
{
}

/// An attack launched at `step` waits at least a tick before the next: the
/// next may come no earlier than the tick after, saturating at the last tick,
/// and the interval it waits is at least one tick.
pub proof fn lemma_the_next_attack_waits_at_least_a_tick(
    cycle: AttackCycle,
    rules: CycleRules,
    in_attack_angle: bool,
    backswing_just_finished: bool,
    target: FightActorRef,
    step: u64,
    random: RandomState,
)
    requires
        cycle.pending is None,
        in_reach_spec(cycle, rules, in_attack_angle, backswing_just_finished, target, step, random).0.pending is Some,
    ensures
        ({
            let after = in_reach_spec(cycle, rules, in_attack_angle, backswing_just_finished, target, step, random).0;
            &&& after.current_attack_interval >= 1
            &&& after.next_attack_step == after_ticks(step, after.current_attack_interval as int)
            &&& after.next_attack_step > step || after.next_attack_step == u64::MAX
            &&& after.pending->0.step >= step
            &&& after.pending->0.target == target
        }),
{
}


/// The cycle after the attack waiting is released, checked at its attack
/// point: one the check refuses is dropped and the skill idles; one it
/// passes starts the backswing, when the skill has one, and leaves the skill
/// attacking when it swings, switches targets at once or fires a laser, and
/// idle otherwise.
pub open spec fn released_spec(
    cycle: AttackCycle,
    attackable: bool,
    backswing_time_units: u64,
    quick_switch_target: bool,
    is_laser: bool,
) -> AttackCycle {
    if !attackable {
        AttackCycle { pending: None, phase: FightSkillPhase::Idle, ..cycle }
    } else {
        let backswing_steps = native_time_units_to_steps_spec(backswing_time_units as int);
        let backswing = if backswing_steps > 0 {
            Some(after_ticks(cycle.pending->0.step, backswing_steps))
        } else {
            None
        };
        AttackCycle {
            pending: None,
            backswing_finish_step: backswing,
            phase: if backswing is None && !quick_switch_target && !is_laser {
                FightSkillPhase::Idle
            } else {
                FightSkillPhase::Attack
            },
            ..cycle
        }
    }
}

/// Releases the attack waiting, checked at its attack point; see
/// [`released_spec`]. Answers the attack to perform, or none when the check
/// refused it; with no attack waiting it is refused as an error.
pub fn release_attack(
    cycle: &mut AttackCycle,
    attackable: bool,
    backswing_time_units: u64,
    quick_switch_target: bool,
    is_laser: bool,
) -> (released: Result<Option<PendingRelease>, Error>)
    ensures
        old(cycle).pending is None ==> released is Err && *final(cycle) == *old(cycle),
        old(cycle).pending is Some ==> released == Ok::<Option<PendingRelease>, Error>(if attackable {
            old(cycle).pending
        } else {
            None
        }) && *final(cycle) == released_spec(
            *old(cycle),
            attackable,
            backswing_time_units,
            quick_switch_target,
            is_laser,
        ),
{
    let pending = match cycle.pending {
        Some(pending) => pending,
        None => {
            return Err(Error::new(String::from_str("attack release has no pending action")));
        },
    };
    cycle.pending = None;
    if !attackable {
        cycle.phase = FightSkillPhase::Idle;
        return Ok(None);
    }
    let backswing_steps = native_time_units_to_steps(backswing_time_units);
    cycle.backswing_finish_step = if backswing_steps > 0 {
        Some(if backswing_steps > u64::MAX - pending.step {
            u64::MAX
        } else {
            pending.step + backswing_steps
        })
    } else {
        None
    };
    cycle.phase = if cycle.backswing_finish_step.is_none() && !quick_switch_target && !is_laser {
        FightSkillPhase::Idle
    } else {
        FightSkillPhase::Attack
    };
    Ok(Some(pending))
}


/// How a tick with the target out of reach ends: a group whose children
/// still attack holds its ground facing its deployment; the unit gave the
/// target up and went idle; or it moves, tracking its target with its
/// weapons or not, and only from the next tick when it has just started.
#[derive(Debug, Clone, Copy, PartialEq, Eq, Structural)]
pub enum OutOfReach {
    GroupHolds,
    GivenUp,
    Moves { track_weapons: bool, entered_move: bool },
}

/// Whether a child slot holds a unit.
pub open spec fn child_holds_unit(targets: Seq<Option<u64>>) -> bool {
    exists|i: int| 1 <= i < targets.len() && #[trigger] targets[i] is Some
}

/// How a tick with the target out of reach ends, for a unit whose weapons
/// fire as a group (`grouped`) or not, whose attack point was just refused,
/// whose swing just ended, and whose target is nearer than the attack's
/// least range (`below_min_range`).
pub open spec fn out_of_reach_spec(
    cycle: AttackCycle,
    targets: Seq<Option<u64>>,
    rules: CycleRules,
    grouped: bool,
    attack_point_rejected: bool,
    backswing_just_finished: bool,
    below_min_range: bool,
) -> OutOfReach {
    let quiet = cycle.pending is None && cycle.backswing_finish_step is None;
    if grouped && cycle.motion == MotionState::Attacking && child_holds_unit(targets) {
        OutOfReach::GroupHolds
    } else if cycle.motion == MotionState::Attacking && !rules.has_body && !cycle.hold_fire && quiet && (
    rules.melee_direct || cycle.phase == FightSkillPhase::Attack) {
        OutOfReach::GivenUp
    } else if attack_point_rejected && rules.melee_direct && !rules.has_body && cycle.motion == MotionState::Attacking
        && quiet {
        OutOfReach::GivenUp
    } else if backswing_just_finished && rules.melee_direct && !rules.has_body {
        OutOfReach::GivenUp
    } else {
        let entered_move = cycle.motion != MotionState::Moving;
        OutOfReach::Moves {
            track_weapons: cycle.motion != MotionState::Idle && !(entered_move && below_min_range),
            entered_move,
        }
    }
}

/// Runs the attack cycle for a tick with the target out of reach; see
/// [`out_of_reach_spec`]. A unit that gives up drops its lock and idles,
/// holding no fire; one that moves holds no fire either.
pub fn step_out_of_reach(
    cycle: &mut AttackCycle,
    lock: &mut TargetLock,
    slots: &mut GroupSlots,
    rules: &CycleRules,
    grouped: bool,
    attack_point_rejected: bool,
    backswing_just_finished: bool,
    below_min_range: bool,
) -> (outcome: OutOfReach)
    ensures
        outcome == out_of_reach_spec(
            *old(cycle),
            old(slots).targets@,
            *rules,
            grouped,
            attack_point_rejected,
            backswing_just_finished,
            below_min_range,
        ),
        outcome == OutOfReach::GroupHolds ==> *final(cycle) == *old(cycle) && final(slots).targets@ == old(
            slots,
        ).targets@ && final(lock).lock_target == old(lock).lock_target,
        outcome == OutOfReach::GivenUp ==> {
            &&& *final(cycle) == (AttackCycle {
                motion: MotionState::Idle,
                phase: FightSkillPhase::Idle,
                hold_fire: false,
                attacked_wall: None,
                ..*old(cycle)
            })
            &&& final(lock).lock_target is None
            &&& final(slots).lock_target is None
            &&& forall|i: int| 0 <= i < final(slots).targets.len() ==> #[trigger] final(slots).targets@[i] is None
        },
        outcome is Moves ==> *final(cycle) == (AttackCycle { motion: MotionState::Moving, hold_fire: false, ..*old(cycle) })
            && final(slots).targets@ == old(slots).targets@ && final(lock).lock_target == old(lock).lock_target,
{
    let mut child_holds = false;
    let mut i: usize = 1;
    while i < slots.targets.len()
        invariant
            1 <= i,
            child_holds == exists|k: int| 1 <= k < i && k < slots.targets.len() && #[trigger] slots.targets@[k] is Some,
        decreases slots.targets.len() - i,
    {
        if slots.targets[i].is_some() {
            child_holds = true;
        }
        i = i + 1;
    }
    let quiet = cycle.pending.is_none() && cycle.backswing_finish_step.is_none();
    if grouped && cycle.motion == MotionState::Attacking && child_holds {
        return OutOfReach::GroupHolds;
    }
    let gives_up = (cycle.motion == MotionState::Attacking && !rules.has_body && !cycle.hold_fire && quiet && (
    rules.melee_direct || cycle.phase == FightSkillPhase::Attack)) || (attack_point_rejected && rules.melee_direct
        && !rules.has_body && cycle.motion == MotionState::Attacking && quiet) || (backswing_just_finished
        && rules.melee_direct && !rules.has_body);
    if gives_up {
        lock.drop_lock();
        slots.drop_lock();
        cycle.motion = MotionState::Idle;
        cycle.phase = FightSkillPhase::Idle;
        cycle.hold_fire = false;
        cycle.attacked_wall = None;
        return OutOfReach::GivenUp;
    }
    let entered_move = cycle.motion != MotionState::Moving;
    let track_weapons = cycle.motion != MotionState::Idle && !(entered_move && below_min_range);
    cycle.motion = MotionState::Moving;
    cycle.hold_fire = false;
    OutOfReach::Moves { track_weapons, entered_move }
}


/// Whether a grouped skill's core, holding no unit while a child does, sits
/// the tick out facing its deployment, wherever its target stands.
pub fn core_idles_while_children_attack(grouped: bool, cycle: &AttackCycle, targets: &Vec<Option<u64>>) -> (idles: bool)
    ensures
        idles == (grouped && cycle.motion == MotionState::Attacking && targets.len() > 0 && targets@[0] is None
            && child_holds_unit(targets@)),
{
    if !(grouped && cycle.motion == MotionState::Attacking && targets.len() > 0 && targets[0].is_none()) {
        return false;
    }
    let mut i: usize = 1;
    while i < targets.len()
        invariant
            1 <= i <= targets.len(),
            grouped && cycle.motion == MotionState::Attacking && targets@[0] is None,
            forall|k: int| 1 <= k < i ==> #[trigger] targets@[k] is None,
        decreases targets.len() - i,
    {
        if targets[i].is_some() {
            assert(targets@[i as int] is Some);
            return true;
        }
        i = i + 1;
    }
    false
}

} // verus!
