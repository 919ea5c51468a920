//! How a grouped skill shares the units it may fire at among its slots.
//!
//! A grouped skill fires several weapons, each from a slot that holds a unit:
//! the first slot, the core, is the mech's own, and the others are its
//! children. When a slot is empty or its unit is gone, the skill hands out
//! the ranked units again, best first, each to one slot, keeping every slot
//! whose unit is still a candidate. The core takes only units within its
//! range; a child takes any ranked unit.

use std::collections::BTreeSet;

use vstd::prelude::*;

use crate::fixed::{clamp_i64, min_int, saturating_sub, space_to_q32, space_to_q32_spec};
use crate::quadtree::FightActorRef;
use crate::trig::{native_q32_magnitude, native_q32_magnitude_spec};

verus! {

broadcast use {vstd::std_specs::btree::group_btree_axioms, vstd::laws_cmp::group_laws_cmp};

/// A child slot's first shot: at which step it is released, and at what.
#[derive(Debug, Clone, Copy, PartialEq, Eq, Structural)]
pub struct PendingRelease {
    pub step: u64,
    pub target: FightActorRef,
}

/// A grouped skill's slots: the unit each holds, the step each next attacks
/// and is ready after preparing, the child shots waiting to be released, and
/// the mech's lock.
#[derive(Debug, Clone)]
pub struct GroupSlots {
    pub targets: Vec<Option<u64>>,
    pub next_attack_steps: Vec<u64>,
    pub prepare_ready_steps: Vec<u64>,
    pub pending_releases: Vec<(usize, PendingRelease)>,
    pub lock_target: Option<FightActorRef>,
}

/// What one sharing-out reads: the units the skill may fire at, best first;
/// those of them within the core's range; the unit the mech is locked on;
/// the ticks a shot prepares for; whether two slots may share a unit; and the
/// tick it happens on.
#[derive(Debug, Clone)]
pub struct Allocation {
    pub ranked: Vec<u64>,
    pub core_ranked: Vec<u64>,
    pub current_target: Option<u64>,
    pub prepare_steps: u64,
    pub allow_same_target: bool,
    pub step: u64,
}

/// `a + b`, saturated at `u64::MAX`.
pub open spec fn saturating_sum(a: int, b: int) -> int {
    min_int(a + b, u64::MAX as int)
}

/// The step a shot handed out at `step` is ready after preparing.
pub open spec fn ready_step(step: u64, prepare_steps: u64) -> u64 {
    saturating_sum(saturating_sum(step as int, prepare_steps as int), 1) as u64
}

/// Whether every slot is empty.
pub open spec fn all_empty(targets: Seq<Option<u64>>) -> bool {
    forall|i: int| 0 <= i < targets.len() ==> #[trigger] targets[i] is None
}

/// Whether some slot is empty.
pub open spec fn some_empty(targets: Seq<Option<u64>>) -> bool {
    exists|i: int| 0 <= i < targets.len() && #[trigger] targets[i] is None
}

/// Whether a sharing-out is due: every slot holds a unit and one of them has
/// died, or a slot is empty and the core has entered its attack.
pub open spec fn allocation_due_spec(targets: Seq<Option<u64>>, has_dead_target: bool, core_has_entered_attack: bool) -> bool {
    if some_empty(targets) {
        core_has_entered_attack
    } else {
        has_dead_target
    }
}

/// The slots as the sharing-out starts from them: empty ones stay empty,
/// except that when all are empty the core takes the unit the mech is locked
/// on.
pub open spec fn seeded(targets: Seq<Option<u64>>, current_target: Option<u64>) -> Seq<Option<u64>> {
    if all_empty(targets) && targets.len() > 0 {
        targets.update(0, current_target)
    } else {
        targets
    }
}

/// Whether slot `i` holds no unit the skill may still fire at.
pub open spec fn slot_invalid(previous: Seq<Option<u64>>, ranked: Seq<u64>, i: int) -> bool {
    previous[i] is None || !ranked.contains(previous[i]->0)
}

/// Whether child slot `index` lost its unit just as it was to attack again,
/// with an earlier child that lost its own and, between them, one that kept
/// its unit and has attacked: such a slot is handed a unit before the
/// others.
pub open spec fn follows_intervening_attack(
    previous: Seq<Option<u64>>,
    next_attack_steps: Seq<u64>,
    ranked: Seq<u64>,
    step: u64,
    index: int,
) -> bool {
    &&& slot_invalid(previous, ranked, index)
    &&& next_attack_steps[index] == saturating_sum(step as int, 1)
    &&& exists|earlier: int|
        1 <= earlier < index && #[trigger] slot_invalid(previous, ranked, earlier) && exists|middle: int|
            earlier < middle < index && !#[trigger] slot_invalid(previous, ranked, middle)
                && next_attack_steps[middle] > 0 && next_attack_steps[middle] <= step
}

/// The first `count` slots, in order.
pub open spec fn slots_upto(count: int) -> Seq<int>
    decreases count,
{
    if count <= 0 {
        Seq::empty()
    } else {
        slots_upto(count - 1).push(count - 1)
    }
}

/// Of the first `count` slots, in order, those that do (`urgent`) or do not
/// follow an intervening attack.
pub open spec fn slots_by_urgency(
    previous: Seq<Option<u64>>,
    next_attack_steps: Seq<u64>,
    ranked: Seq<u64>,
    step: u64,
    urgent: bool,
    count: int,
) -> Seq<int>
    decreases count,
{
    if count <= 0 {
        Seq::empty()
    } else {
        let earlier = slots_by_urgency(previous, next_attack_steps, ranked, step, urgent, count - 1);
        if follows_intervening_attack(previous, next_attack_steps, ranked, step, count - 1) == urgent {
            earlier.push(count - 1)
        } else {
            earlier
        }
    }
}

/// The first of `candidates` from position `from` on that is not in `used`.
pub open spec fn first_unused(candidates: Seq<u64>, used: Set<u64>, from: int) -> Option<u64>
    decreases candidates.len() - from,
{
    if from < 0 || from >= candidates.len() {
        None
    } else if !used.contains(candidates[from]) {
        Some(candidates[from])
    } else {
        first_unused(candidates, used, from + 1)
    }
}

/// Whether a slot after the core holds `unit`.
pub open spec fn held_by_child(targets: Seq<Option<u64>>, unit: u64) -> bool {
    exists|i: int| 1 <= i < targets.len() && #[trigger] targets[i] == Some(unit)
}

/// The first of `candidates` from position `from` on that a child holds.
pub open spec fn first_held_by_child(candidates: Seq<u64>, targets: Seq<Option<u64>>, from: int) -> Option<u64>
    decreases candidates.len() - from,
{
    if from < 0 || from >= candidates.len() {
        None
    } else if held_by_child(targets, candidates[from]) {
        Some(candidates[from])
    } else {
        first_held_by_child(candidates, targets, from + 1)
    }
}

/// The first slot from `from` on that holds `unit`, or the number of slots.
pub open spec fn slot_holding(targets: Seq<Option<u64>>, unit: u64, from: int) -> int
    decreases targets.len() - from,
{
    if from < 0 || from >= targets.len() {
        targets.len() as int
    } else if targets[from] == Some(unit) {
        from
    } else {
        slot_holding(targets, unit, from + 1)
    }
}

/// The ranked units some slot holds.
pub open spec fn held_ranked(targets: Seq<Option<u64>>, ranked: Seq<u64>) -> Set<u64> {
    Set::new(|unit: u64| ranked.contains(unit) && exists|i: int| 0 <= i < targets.len() && #[trigger] targets[i] == Some(unit))
}

/// Where a sharing-out stands: the units the slots hold, the units taken, the
/// ready steps, the child shots waiting, and the highest slot it changed.
pub type Sharing = (Seq<Option<u64>>, Set<u64>, Seq<u64>, Seq<(usize, PendingRelease)>, Option<int>);

/// The highest of a changed slot and the highest changed before it.
pub open spec fn highest(changed: Option<int>, index: int) -> Option<int> {
    match changed {
        Some(before) => Some(if before < index { index } else { before }),
        None => Some(index),
    }
}

/// The core's swap, when it is due: an empty core while the children hold
/// units, a best unit nobody holds that the core cannot reach, and a unit in
/// the core's range that a child holds. The core takes the child's unit and
/// the child the free one, both ready after preparing.
pub open spec fn swapped(
    start: Sharing,
    core_was_empty: bool,
    entry_all_empty: bool,
    allocation: Allocation,
) -> (Sharing, Set<int>) {
    let (targets, used, ready, pending, changed) = start;
    let global = first_unused(allocation.ranked@, used, 0);
    let donor = first_held_by_child(allocation.core_ranked@, targets, 0);
    if core_was_empty && !entry_all_empty && global is Some && !allocation.core_ranked@.contains(
        global->0,
    ) && donor is Some {
        let donor_index = slot_holding(targets, donor->0, 0);
        let at = ready_step(allocation.step, allocation.prepare_steps);
        (
            (
                targets.update(0, donor).update(donor_index, global),
                used.insert(global->0),
                ready.update(0, at).update(donor_index, at),
                pending,
                highest(highest(changed, 0), donor_index),
            ),
            set![0int, donor_index],
        )
    } else {
        (start, Set::empty())
    }
}

/// What slot `index` is handed when it holds no candidate: the best
/// candidate nobody has taken, else, where two slots may share a unit and
/// this is a child or every ranked unit is taken, the best candidate.
pub open spec fn replacement_for(
    candidates: Seq<u64>,
    used: Set<u64>,
    index: int,
    no_unused_global_target: bool,
    allocation: Allocation,
) -> Option<u64> {
    match first_unused(candidates, used, 0) {
        Some(unit) => Some(unit),
        None => if allocation.allow_same_target && (index != 0 || no_unused_global_target) && candidates.len() > 0 {
            Some(candidates[0])
        } else {
            None
        },
    }
}

/// One slot's turn: a slot the swap set, or one whose unit is still a
/// candidate, is left; any other is handed its replacement, and a child that
/// was empty is given its first shot.
pub open spec fn share_slot(
    state: Sharing,
    index: int,
    previous: Seq<Option<u64>>,
    core_was_empty: bool,
    swapped_slots: Set<int>,
    no_unused_global_target: bool,
    allocation: Allocation,
) -> Sharing {
    let (targets, used, ready, pending, changed) = state;
    let candidates = if index == 0 && !core_was_empty {
        allocation.core_ranked@
    } else {
        allocation.ranked@
    };
    if swapped_slots.contains(index) {
        state
    } else if targets[index] is Some && candidates.contains(targets[index]->0) {
        state
    } else {
        let replacement = replacement_for(candidates, used, index, no_unused_global_target, allocation);
        let targets = targets.update(index, replacement);
        match replacement {
            Some(unit) => (
                targets,
                used.insert(unit),
                ready,
                if index != 0 && previous[index] is None {
                    pending.push(
                        (
                            index as usize,
                            PendingRelease {
                                step: ready_step(allocation.step, allocation.prepare_steps),
                                target: FightActorRef::Unit(unit),
                            },
                        ),
                    )
                } else {
                    pending
                },
                highest(changed, index),
            ),
            None => (targets, used, ready, pending, highest(changed, index)),
        }
    }
}

/// The slots' turns in `order`, one after another.
pub open spec fn share_all(
    state: Sharing,
    order: Seq<int>,
    previous: Seq<Option<u64>>,
    core_was_empty: bool,
    swapped_slots: Set<int>,
    no_unused_global_target: bool,
    allocation: Allocation,
) -> Sharing
    decreases order.len(),
{
    if order.len() == 0 {
        state
    } else {
        share_slot(
            share_all(state, order.drop_last(), previous, core_was_empty, swapped_slots, no_unused_global_target, allocation),
            order.last(),
            previous,
            core_was_empty,
            swapped_slots,
            no_unused_global_target,
            allocation,
        )
    }
}

/// The order the slots take their turns in: in order of slot, except that
/// when some slot held a unit and the core keeps its own, the slots that
/// follow an intervening attack go first.
pub open spec fn turn_order(
    previous: Seq<Option<u64>>,
    entry_all_empty: bool,
    next_attack_steps: Seq<u64>,
    allocation: Allocation,
) -> Seq<int> {
    let count = previous.len() as int;
    let core_keeps = count > 0 && previous[0] is Some && allocation.core_ranked@.contains(previous[0]->0);
    if !entry_all_empty && core_keeps {
        slots_by_urgency(previous, next_attack_steps, allocation.ranked@, allocation.step, true, count)
            + slots_by_urgency(previous, next_attack_steps, allocation.ranked@, allocation.step, false, count)
    } else {
        slots_upto(count)
    }
}

/// What a sharing-out starts from: the slots as seeded, the ranked units they
/// hold, and the ready steps and waiting shots as they were.
pub open spec fn sharing_start(
    entry: Seq<Option<u64>>,
    ready: Seq<u64>,
    pending: Seq<(usize, PendingRelease)>,
    allocation: Allocation,
) -> Sharing {
    let previous = seeded(entry, allocation.current_target);
    (previous, held_ranked(previous, allocation.ranked@), ready, pending, None)
}

/// Whether every ranked unit was held when the sharing-out began.
pub open spec fn every_ranked_held(held: Set<u64>, ranked: Seq<u64>) -> bool {
    forall|i: int| 0 <= i < ranked.len() ==> held.contains(#[trigger] ranked[i])
}

/// What a sharing-out leaves: the units the slots hold, the ready steps, the
/// child shots waiting, and the lock, which becomes the unit of the highest
/// slot it changed and is left when it changed none.
pub open spec fn shared_spec(
    entry: Seq<Option<u64>>,
    next_attack_steps: Seq<u64>,
    ready: Seq<u64>,
    pending: Seq<(usize, PendingRelease)>,
    lock_target: Option<FightActorRef>,
    allocation: Allocation,
) -> (Seq<Option<u64>>, Seq<u64>, Seq<(usize, PendingRelease)>, Option<FightActorRef>) {
    let start = sharing_start(entry, ready, pending, allocation);
    let previous = start.0;
    let no_unused_global_target = every_ranked_held(start.1, allocation.ranked@);
    let core_was_empty = entry.len() > 0 && entry[0] is None;
    let (after_swap, swapped_slots) = swapped(start, core_was_empty, all_empty(entry), allocation);
    let order = turn_order(previous, all_empty(entry), next_attack_steps, allocation);
    let (targets, _, ready, pending, changed) = share_all(
        after_swap,
        order,
        previous,
        core_was_empty,
        swapped_slots,
        no_unused_global_target,
        allocation,
    );
    (
        targets,
        ready,
        pending,
        match changed {
            Some(index) => match targets[index] {
                Some(unit) => Some(FightActorRef::Unit(unit)),
                None => None,
            },
            None => lock_target,
        },
    )
}

/// Whether `unit` is one of `list`.
fn listed(list: &Vec<u64>, unit: u64) -> (result: bool)
    ensures
        result == list@.contains(unit),
{
    let mut i: usize = 0;
    while i < list.len()
        invariant
            i <= list.len(),
            forall|k: int| 0 <= k < i ==> list@[k] != unit,
        decreases list.len() - i,
    {
        if list[i] == unit {
            assert(list@[i as int] == unit);
            return true;
        }
        i = i + 1;
    }
    false
}

/// The first of `candidates` nobody has taken.
fn first_unused_of(candidates: &Vec<u64>, used: &BTreeSet<u64>) -> (result: Option<u64>)
    ensures
        result == first_unused(candidates@, used@, 0),
{
    let mut i: usize = 0;
    while i < candidates.len()
        invariant
            i <= candidates.len(),
            first_unused(candidates@, used@, 0) == first_unused(candidates@, used@, i as int),
        decreases candidates.len() - i,
    {
        if !used.contains(&candidates[i]) {
            return Some(candidates[i]);
        }
        i = i + 1;
    }
    None
}

/// Whether a slot after the core holds `unit`.
fn child_holds(targets: &Vec<Option<u64>>, unit: u64) -> (result: bool)
    ensures
        result == held_by_child(targets@, unit),
{
    let mut i: usize = 1;
    while i < targets.len()
        invariant
            1 <= i,
            forall|k: int| 1 <= k < i && k < targets.len() ==> targets@[k] != Some(unit),
        decreases targets.len() - i,
    {
        if targets[i] == Some(unit) {
            assert(targets@[i as int] == Some(unit));
            return true;
        }
        i = i + 1;
    }
    false
}

/// The first of `candidates` a child holds.
fn first_held_by_child_of(candidates: &Vec<u64>, targets: &Vec<Option<u64>>) -> (result: Option<u64>)
    ensures
        result == first_held_by_child(candidates@, targets@, 0),
{
    let mut i: usize = 0;
    while i < candidates.len()
        invariant
            i <= candidates.len(),
            first_held_by_child(candidates@, targets@, 0) == first_held_by_child(candidates@, targets@, i as int),
        decreases candidates.len() - i,
    {
        if child_holds(targets, candidates[i]) {
            return Some(candidates[i]);
        }
        i = i + 1;
    }
    None
}

/// The first slot that holds `unit`, or the number of slots.
fn slot_holding_of(targets: &Vec<Option<u64>>, unit: u64) -> (result: usize)
    ensures
        result == slot_holding(targets@, unit, 0),
{
    let mut i: usize = 0;
    while i < targets.len()
        invariant
            i <= targets.len(),
            slot_holding(targets@, unit, 0) == slot_holding(targets@, unit, i as int),
        decreases targets.len() - i,
    {
        if targets[i] == Some(unit) {
            return i;
        }
        i = i + 1;
    }
    i
}

/// What [`slot_holding`] finds when it finds anything: a slot holding the
/// unit, at or after `from`.
proof fn lemma_slot_holding(targets: Seq<Option<u64>>, unit: u64, from: int)
    requires
        0 <= from <= targets.len(),
    ensures
        from <= slot_holding(targets, unit, from) <= targets.len(),
        slot_holding(targets, unit, from) < targets.len() ==> targets[slot_holding(targets, unit, from)] == Some(unit),
        (exists|i: int| from <= i < targets.len() && targets[i] == Some(unit)) ==> slot_holding(targets, unit, from)
            < targets.len(),
    decreases targets.len() - from,
{
    if from < targets.len() && targets[from] != Some(unit) {
        lemma_slot_holding(targets, unit, from + 1);
        if exists|i: int| from <= i < targets.len() && targets[i] == Some(unit) {
            let i = choose|i: int| from <= i < targets.len() && targets[i] == Some(unit);
            assert(from + 1 <= i);
        }
    }
}

/// What [`first_held_by_child`] finds: a candidate a child holds.
proof fn lemma_first_held_by_child(candidates: Seq<u64>, targets: Seq<Option<u64>>, from: int)
    requires
        0 <= from,
    ensures
        first_held_by_child(candidates, targets, from) matches Some(unit) ==> held_by_child(targets, unit)
            && candidates.contains(unit),
    decreases candidates.len() - from,
{
    if from < candidates.len() {
        if held_by_child(targets, candidates[from]) {
            assert(candidates[from] == candidates[from]);
        } else {
            lemma_first_held_by_child(candidates, targets, from + 1);
        }
    }
}

/// Whether slot `index` holds no unit the skill may still fire at.
fn invalid_slot(previous: &Vec<Option<u64>>, ranked: &Vec<u64>, index: usize) -> (result: bool)
    requires
        index < previous.len(),
    ensures
        result == slot_invalid(previous@, ranked@, index as int),
{
    match previous[index] {
        None => true,
        Some(unit) => !listed(ranked, unit),
    }
}

/// Whether child slot `index` follows an intervening attack.
fn follows(
    previous: &Vec<Option<u64>>,
    next_attack_steps: &Vec<u64>,
    ranked: &Vec<u64>,
    step: u64,
    index: usize,
) -> (result: bool)
    requires
        index < previous.len(),
        previous.len() == next_attack_steps.len(),
    ensures
        result == follows_intervening_attack(previous@, next_attack_steps@, ranked@, step, index as int),
{
    let next = if step == u64::MAX {
        u64::MAX
    } else {
        step + 1
    };
    if !invalid_slot(previous, ranked, index) || next_attack_steps[index] != next {
        return false;
    }
    let mut earlier: usize = 1;
    while earlier < index
        invariant
            1 <= earlier,
            index < previous.len(),
            previous.len() == next_attack_steps.len(),
            slot_invalid(previous@, ranked@, index as int),
            next_attack_steps@[index as int] == saturating_sum(step as int, 1),
            forall|e: int|
                1 <= e < earlier && e < index ==> !(#[trigger] slot_invalid(previous@, ranked@, e) && exists|middle: int|
                    e < middle < index && !#[trigger] slot_invalid(previous@, ranked@, middle)
                        && next_attack_steps@[middle] > 0 && next_attack_steps@[middle] <= step),
        decreases index - earlier,
    {
        if invalid_slot(previous, ranked, earlier) {
            let mut middle: usize = earlier + 1;
            while middle < index
                invariant
                    1 <= earlier < middle,
                    earlier < index < previous.len(),
                    previous.len() == next_attack_steps.len(),
                    slot_invalid(previous@, ranked@, earlier as int),
                    slot_invalid(previous@, ranked@, index as int),
                    next_attack_steps@[index as int] == saturating_sum(step as int, 1),
                    forall|m: int|
                        earlier < m < middle && m < index ==> !(!#[trigger] slot_invalid(previous@, ranked@, m)
                            && next_attack_steps@[m] > 0 && next_attack_steps@[m] <= step),
                decreases index - middle,
            {
                if !invalid_slot(previous, ranked, middle) && next_attack_steps[middle] > 0
                    && next_attack_steps[middle] <= step {
                    assert(!slot_invalid(previous@, ranked@, middle as int));
                    assert(slot_invalid(previous@, ranked@, earlier as int));
                    let ghost e = earlier as int;
                    let ghost m = middle as int;
                    assert(1 <= e < index && slot_invalid(previous@, ranked@, e) && e < m < index
                        && !slot_invalid(previous@, ranked@, m) && next_attack_steps@[m] > 0
                        && next_attack_steps@[m] <= step);
                    return true;
                }
                middle = middle + 1;
            }
        }
        earlier = earlier + 1;
    }
    false
}


/// Slot numbers as positions.
pub open spec fn positions(order: Seq<usize>) -> Seq<int> {
    order.map_values(|index: usize| index as int)
}

/// Every slot [`slots_by_urgency`] lists is one of the first `count`.
proof fn lemma_urgency_in_range(
    previous: Seq<Option<u64>>,
    next_attack_steps: Seq<u64>,
    ranked: Seq<u64>,
    step: u64,
    urgent: bool,
    count: int,
)
    ensures
        forall|k: int|
            0 <= k < slots_by_urgency(previous, next_attack_steps, ranked, step, urgent, count).len() ==> 0
                <= #[trigger] slots_by_urgency(previous, next_attack_steps, ranked, step, urgent, count)[k] < count,
    decreases count,
{
    if count > 0 {
        lemma_urgency_in_range(previous, next_attack_steps, ranked, step, urgent, count - 1);
        let earlier = slots_by_urgency(previous, next_attack_steps, ranked, step, urgent, count - 1);
        let now = slots_by_urgency(previous, next_attack_steps, ranked, step, urgent, count);
        assert forall|k: int| 0 <= k < now.len() implies 0 <= #[trigger] now[k] < count by {
            if k < earlier.len() {
                assert(now[k] == earlier[k]);
            }
        }
    }
}

/// [`slots_upto`] lists the first `count` slots, each at its own place.
proof fn lemma_slots_upto(count: int)
    requires
        0 <= count,
    ensures
        slots_upto(count).len() == count,
        forall|k: int| 0 <= k < count ==> #[trigger] slots_upto(count)[k] == k,
    decreases count,
{
    if count > 0 {
        lemma_slots_upto(count - 1);
    }
}

/// Whether every slot is empty.
fn every_empty(targets: &Vec<Option<u64>>) -> (result: bool)
    ensures
        result == all_empty(targets@),
{
    let mut i: usize = 0;
    while i < targets.len()
        invariant
            i <= targets.len(),
            forall|k: int| 0 <= k < i ==> #[trigger] targets@[k] is None,
        decreases targets.len() - i,
    {
        if targets[i].is_some() {
            return false;
        }
        i = i + 1;
    }
    true
}

/// Appends to `order` the slots that do (`urgent`) or do not follow an
/// intervening attack, in order of slot.
fn push_by_urgency(
    previous: &Vec<Option<u64>>,
    next_attack_steps: &Vec<u64>,
    ranked: &Vec<u64>,
    step: u64,
    urgent: bool,
    order: &mut Vec<usize>,
)
    requires
        previous.len() == next_attack_steps.len(),
    ensures
        positions(final(order)@) == positions(old(order)@) + slots_by_urgency(
            previous@,
            next_attack_steps@,
            ranked@,
            step,
            urgent,
            previous.len() as int,
        ),
{
    let mut index: usize = 0;
    while index < previous.len()
        invariant
            index <= previous.len(),
            previous.len() == next_attack_steps.len(),
            positions(order@) == positions(old(order)@) + slots_by_urgency(
                previous@,
                next_attack_steps@,
                ranked@,
                step,
                urgent,
                index as int,
            ),
        decreases previous.len() - index,
    {
        let ghost before = order@;
        if follows(previous, next_attack_steps, ranked, step, index) == urgent {
            order.push(index);
            assert(positions(order@) =~= positions(before).push(index as int));
        }
        assert(positions(order@) =~= positions(old(order)@) + slots_by_urgency(
            previous@,
            next_attack_steps@,
            ranked@,
            step,
            urgent,
            index + 1,
        ));
        index = index + 1;
    }
}

/// The order the slots take their turns in.
fn turn_order_of(
    previous: &Vec<Option<u64>>,
    entry_all_empty: bool,
    next_attack_steps: &Vec<u64>,
    allocation: &Allocation,
) -> (order: Vec<usize>)
    requires
        previous.len() == next_attack_steps.len(),
    ensures
        positions(order@) == turn_order(previous@, entry_all_empty, next_attack_steps@, *allocation),
        forall|k: int| 0 <= k < order.len() ==> #[trigger] order@[k] < previous.len(),
{
    let mut order: Vec<usize> = Vec::new();
    let core_keeps = previous.len() > 0 && match previous[0] {
        Some(unit) => listed(&allocation.core_ranked, unit),
        None => false,
    };
    proof {
        lemma_urgency_in_range(previous@, next_attack_steps@, allocation.ranked@, allocation.step, true, previous.len() as int);
        lemma_urgency_in_range(previous@, next_attack_steps@, allocation.ranked@, allocation.step, false, previous.len() as int);
        lemma_slots_upto(previous.len() as int);
    }
    if !entry_all_empty && core_keeps {
        assert(positions(order@) =~= Seq::<int>::empty());
        push_by_urgency(previous, next_attack_steps, &allocation.ranked, allocation.step, true, &mut order);
        push_by_urgency(previous, next_attack_steps, &allocation.ranked, allocation.step, false, &mut order);
        assert(positions(order@) =~= turn_order(previous@, entry_all_empty, next_attack_steps@, *allocation));
    } else {
        let mut index: usize = 0;
        while index < previous.len()
            invariant
                index <= previous.len(),
                positions(order@) == slots_upto(index as int),
            decreases previous.len() - index,
        {
            let ghost before = order@;
            order.push(index);
            assert(positions(order@) =~= positions(before).push(index as int));
            index = index + 1;
        }
    }
    assert forall|k: int| 0 <= k < order.len() implies #[trigger] order@[k] < previous.len() by {
        assert(positions(order@)[k] == order@[k] as int);
    }
    order
}


/// A changed slot as a position.
pub open spec fn position_of(changed: Option<usize>) -> Option<int> {
    match changed {
        Some(index) => Some(index as int),
        None => None,
    }
}

/// The slots a swap set: the core and the donor.
pub open spec fn swapped_set(donor_index: Option<usize>) -> Set<int> {
    match donor_index {
        Some(index) => set![0int, index as int],
        None => Set::empty(),
    }
}

/// The step a shot handed out at `step` is ready after preparing.
fn ready_at(step: u64, prepare_steps: u64) -> (at: u64)
    ensures
        at == ready_step(step, prepare_steps),
{
    let prepared = if step > u64::MAX - prepare_steps {
        u64::MAX
    } else {
        step + prepare_steps
    };
    if prepared == u64::MAX {
        u64::MAX
    } else {
        prepared + 1
    }
}

/// The ranked units some slot holds.
fn held_ranked_of(targets: &Vec<Option<u64>>, ranked: &Vec<u64>) -> (used: BTreeSet<u64>)
    ensures
        used@ == held_ranked(targets@, ranked@),
{
    let mut used: BTreeSet<u64> = BTreeSet::new();
    let mut i: usize = 0;
    while i < targets.len()
        invariant
            i <= targets.len(),
            used@ == Set::new(
                |unit: u64|
                    ranked@.contains(unit) && exists|k: int| 0 <= k < i && #[trigger] targets@[k] == Some(unit),
            ),
        decreases targets.len() - i,
    {
        let ghost before = used@;
        if let Some(unit) = targets[i] {
            if listed(ranked, unit) {
                used.insert(unit);
            }
        }
        assert(used@ =~= Set::new(
            |unit: u64|
                ranked@.contains(unit) && exists|k: int| 0 <= k < i + 1 && #[trigger] targets@[k] == Some(unit),
        )) by {
            assert forall|unit: u64|
                (ranked@.contains(unit) && exists|k: int| 0 <= k < i + 1 && #[trigger] targets@[k] == Some(unit))
                    implies used@.contains(unit) by {
                let k = choose|k: int| 0 <= k < i + 1 && #[trigger] targets@[k] == Some(unit);
                if k < i {
                    assert(before.contains(unit));
                }
            }
        }
        i = i + 1;
    }
    assert(used@ =~= held_ranked(targets@, ranked@));
    used
}

/// Whether every ranked unit is in `used`.
fn every_ranked_in(used: &BTreeSet<u64>, ranked: &Vec<u64>) -> (result: bool)
    ensures
        result == every_ranked_held(used@, ranked@),
{
    let mut i: usize = 0;
    while i < ranked.len()
        invariant
            i <= ranked.len(),
            forall|k: int| 0 <= k < i ==> used@.contains(#[trigger] ranked@[k]),
        decreases ranked.len() - i,
    {
        if !used.contains(&ranked[i]) {
            return false;
        }
        i = i + 1;
    }
    true
}

/// One slot's turn in a sharing-out.
fn take_turn(
    targets: &mut Vec<Option<u64>>,
    used: &mut BTreeSet<u64>,
    pending: &mut Vec<(usize, PendingRelease)>,
    changed: &mut Option<usize>,
    ready: &Vec<u64>,
    index: usize,
    previous: &Vec<Option<u64>>,
    core_was_empty: bool,
    donor_index: Option<usize>,
    no_unused_global_target: bool,
    allocation: &Allocation,
)
    requires
        index < old(targets).len(),
        previous.len() == old(targets).len(),
        *old(changed) matches Some(c) ==> c < old(targets).len(),
    ensures
        final(targets).len() == old(targets).len(),
        *final(changed) matches Some(c) ==> c < final(targets).len(),
        (final(targets)@, final(used)@, ready@, final(pending)@, position_of(*final(changed))) == share_slot(
            (old(targets)@, old(used)@, ready@, old(pending)@, position_of(*old(changed))),
            index as int,
            previous@,
            core_was_empty,
            swapped_set(donor_index),
            no_unused_global_target,
            *allocation,
        ),
{
    let swapped_here = match donor_index {
        Some(donor) => index == 0 || index == donor,
        None => false,
    };
    if swapped_here {
        return;
    }
    let candidates = if index == 0 && !core_was_empty {
        &allocation.core_ranked
    } else {
        &allocation.ranked
    };
    let retained = match targets[index] {
        Some(unit) => listed(candidates, unit),
        None => false,
    };
    if retained {
        return;
    }
    let replacement = match first_unused_of(candidates, used) {
        Some(unit) => Some(unit),
        None => if allocation.allow_same_target && (index != 0 || no_unused_global_target) && candidates.len() > 0 {
            Some(candidates[0])
        } else {
            None
        },
    };
    targets.set(index, replacement);
    if let Some(unit) = replacement {
        used.insert(unit);
        if index != 0 && previous[index].is_none() {
            let at = ready_at(allocation.step, allocation.prepare_steps);
            pending.push((index, PendingRelease { step: at, target: FightActorRef::Unit(unit) }));
        }
    }
    let highest_index = match *changed {
        Some(before) => if before < index {
            index
        } else {
            before
        },
        None => index,
    };
    *changed = Some(highest_index);
}


/// A copy of the slots.
fn copy_slots(targets: &Vec<Option<u64>>) -> (copy: Vec<Option<u64>>)
    ensures
        copy@ == targets@,
{
    let mut copy: Vec<Option<u64>> = Vec::new();
    let mut i: usize = 0;
    while i < targets.len()
        invariant
            i <= targets.len(),
            copy@ == targets@.subrange(0, i as int),
        decreases targets.len() - i,
    {
        copy.push(targets[i]);
        assert(copy@ =~= targets@.subrange(0, i + 1));
        i = i + 1;
    }
    assert(copy@ =~= targets@);
    copy
}

/// Shares the ranked units out among a grouped skill's slots.
///
/// When every slot is empty the core is first given the unit the mech is
/// locked on. An empty core whose children hold units may swap with a child:
/// when the best unit nobody holds is out of the core's range and a unit in
/// it is held by a child, the core takes that one and the child the free
/// one. Then each slot whose unit is no longer a candidate is handed the
/// best candidate nobody has taken (or, where units may be shared, the best
/// one), a child that was empty is given its first shot, and the lock moves
/// to the unit of the highest slot changed.
pub fn share_group_targets(slots: &mut GroupSlots, allocation: &Allocation)
    requires
        old(slots).next_attack_steps.len() == old(slots).targets.len(),
        old(slots).prepare_ready_steps.len() == old(slots).targets.len(),
    ensures
        (final(slots).targets@, final(slots).prepare_ready_steps@, final(slots).pending_releases@, final(slots).lock_target)
            == shared_spec(
            old(slots).targets@,
            old(slots).next_attack_steps@,
            old(slots).prepare_ready_steps@,
            old(slots).pending_releases@,
            old(slots).lock_target,
            *allocation,
        ),
        final(slots).next_attack_steps@ == old(slots).next_attack_steps@,
{
    let ghost entry = slots.targets@;
    let count = slots.targets.len();
    let core_was_empty = count > 0 && slots.targets[0].is_none();
    let entry_all_empty = every_empty(&slots.targets);
    if entry_all_empty && count > 0 {
        slots.targets.set(0, allocation.current_target);
    }
    let previous = copy_slots(&slots.targets);
    assert(previous@ == seeded(entry, allocation.current_target));
    let mut used = held_ranked_of(&previous, &allocation.ranked);
    let no_unused_global_target = every_ranked_in(&used, &allocation.ranked);
    let ghost start = sharing_start(entry, slots.prepare_ready_steps@, slots.pending_releases@, *allocation);
    let ghost swap = swapped(start, core_was_empty, entry_all_empty, *allocation);
    let mut changed: Option<usize> = None;
    let mut donor_index: Option<usize> = None;
    if core_was_empty && !entry_all_empty {
        if let Some(global) = first_unused_of(&allocation.ranked, &used) {
            if !listed(&allocation.core_ranked, global) {
                if let Some(donor) = first_held_by_child_of(&allocation.core_ranked, &slots.targets) {
                    let index = slot_holding_of(&slots.targets, donor);
                    proof {
                        lemma_first_held_by_child(allocation.core_ranked@, slots.targets@, 0);
                        lemma_slot_holding(slots.targets@, donor, 0);
                    }
                    let at = ready_at(allocation.step, allocation.prepare_steps);
                    slots.targets.set(0, Some(donor));
                    slots.targets.set(index, Some(global));
                    slots.prepare_ready_steps.set(0, at);
                    slots.prepare_ready_steps.set(index, at);
                    used.insert(global);
                    changed = Some(if index > 0 { index } else { 0 });
                    donor_index = Some(index);
                }
            }
        }
    }
    assert((slots.targets@, used@, slots.prepare_ready_steps@, slots.pending_releases@, position_of(changed))
        == swap.0);
    assert(swapped_set(donor_index) == swap.1);
    let order = turn_order_of(&previous, entry_all_empty, &slots.next_attack_steps, allocation);
    let ghost spec_order = turn_order(previous@, entry_all_empty, slots.next_attack_steps@, *allocation);
    let mut k: usize = 0;
    assert(spec_order.take(0) =~= Seq::<int>::empty());
    while k < order.len()
        invariant
            k <= order.len(),
            positions(order@) == spec_order,
            forall|j: int| 0 <= j < order.len() ==> #[trigger] order@[j] < previous.len(),
            previous.len() == count,
            slots.targets.len() == count,
            slots.next_attack_steps@ == old(slots).next_attack_steps@,
            slots.lock_target == old(slots).lock_target,
            changed matches Some(c) ==> c < count,
            (slots.targets@, used@, slots.prepare_ready_steps@, slots.pending_releases@, position_of(changed))
                == share_all(
                swap.0,
                spec_order.take(k as int),
                previous@,
                core_was_empty,
                swapped_set(donor_index),
                no_unused_global_target,
                *allocation,
            ),
        decreases order.len() - k,
    {
        let index = order[k];
        assert(spec_order.take(k + 1).drop_last() =~= spec_order.take(k as int));
        assert(spec_order.take(k + 1).last() == index as int);
        take_turn(
            &mut slots.targets,
            &mut used,
            &mut slots.pending_releases,
            &mut changed,
            &slots.prepare_ready_steps,
            index,
            &previous,
            core_was_empty,
            donor_index,
            no_unused_global_target,
            allocation,
        );
        k = k + 1;
    }
    assert(spec_order.take(order.len() as int) =~= spec_order);
    if let Some(index) = changed {
        slots.lock_target = match slots.targets[index] {
            Some(unit) => Some(FightActorRef::Unit(unit)),
            None => None,
        };
    }
}


/// A ranked unit where the core measures it from: its identity, its place in
/// Q32.32 metres and its collision radius in space units.
#[derive(Debug, Clone, Copy, PartialEq, Eq, Structural)]
pub struct RankedUnit {
    pub id: u64,
    pub x_q32: i64,
    pub z_q32: i64,
    pub radius: i64,
}

/// Whether `unit` lies within the core's range of a mech at `(x, z)` of
/// `collision_radius`: the distance between centres, less both radii, each
/// step saturated, no farther than `range`, in space units.
pub open spec fn within_core_range_spec(x_q32: i64, z_q32: i64, collision_radius: i64, range: i64, unit: RankedUnit) -> bool {
    let center = native_q32_magnitude_spec(clamp_i64(unit.x_q32 - x_q32) as i64, clamp_i64(unit.z_q32 - z_q32) as i64);
    clamp_i64(clamp_i64(center - space_to_q32_spec(collision_radius as int)) - space_to_q32_spec(unit.radius as int))
        <= space_to_q32_spec(range as int)
}

/// The identities of `units`, in order, that lie within the core's range.
pub open spec fn core_ranked_spec(units: Seq<RankedUnit>, x_q32: i64, z_q32: i64, collision_radius: i64, range: i64) -> Seq<u64>
    decreases units.len(),
{
    if units.len() == 0 {
        Seq::empty()
    } else {
        let earlier = core_ranked_spec(units.drop_last(), x_q32, z_q32, collision_radius, range);
        if within_core_range_spec(x_q32, z_q32, collision_radius, range, units.last()) {
            earlier.push(units.last().id)
        } else {
            earlier
        }
    }
}

/// The core's list holds an identity exactly when some unit of that identity
/// lies within its range.
proof fn lemma_core_list_membership(units: Seq<RankedUnit>, x_q32: i64, z_q32: i64, collision_radius: i64, range: i64)
    ensures
        forall|id: u64|
            #![trigger core_ranked_spec(units, x_q32, z_q32, collision_radius, range).contains(id)]
            core_ranked_spec(units, x_q32, z_q32, collision_radius, range).contains(id) <==> exists|k: int|
                0 <= k < units.len() && (#[trigger] units[k]).id == id && within_core_range_spec(
                    x_q32,
                    z_q32,
                    collision_radius,
                    range,
                    units[k],
                ),
    decreases units.len(),
{
    if units.len() > 0 {
        let rest = units.drop_last();
        lemma_core_list_membership(rest, x_q32, z_q32, collision_radius, range);
        let earlier = core_ranked_spec(rest, x_q32, z_q32, collision_radius, range);
        let now = core_ranked_spec(units, x_q32, z_q32, collision_radius, range);
        assert forall|id: u64| now.contains(id) <==> exists|k: int|
            0 <= k < units.len() && (#[trigger] units[k]).id == id && within_core_range_spec(
                x_q32,
                z_q32,
                collision_radius,
                range,
                units[k],
            ) by {
            if now.contains(id) {
                let p = choose|p: int| 0 <= p < now.len() && now[p] == id;
                if p < earlier.len() {
                    assert(earlier[p] == id);
                    assert(earlier.contains(id));
                    let k = choose|k: int|
                        0 <= k < rest.len() && (#[trigger] rest[k]).id == id && within_core_range_spec(
                            x_q32,
                            z_q32,
                            collision_radius,
                            range,
                            rest[k],
                        );
                    assert(units[k] == rest[k]);
                } else {
                    assert(units[units.len() - 1].id == id);
                }
            }
            if exists|k: int|
                0 <= k < units.len() && (#[trigger] units[k]).id == id && within_core_range_spec(
                    x_q32,
                    z_q32,
                    collision_radius,
                    range,
                    units[k],
                ) {
                let k = choose|k: int|
                    0 <= k < units.len() && (#[trigger] units[k]).id == id && within_core_range_spec(
                        x_q32,
                        z_q32,
                        collision_radius,
                        range,
                        units[k],
                    );
                if k < units.len() - 1 {
                    assert(rest[k] == units[k]);
                    assert(earlier.contains(id));
                    let p = choose|p: int| 0 <= p < earlier.len() && earlier[p] == id;
                    if within_core_range_spec(x_q32, z_q32, collision_radius, range, units.last()) {
                        assert(now[p] == id);
                    }
                } else {
                    assert(now[now.len() - 1] == id);
                }
            }
        }
    }
}

/// A non-negative distance in space units is a non-negative Q32.32 one, and
/// a longer one is no shorter.
proof fn lemma_space_to_q32_grows(a: int, b: int)
    requires
        0 <= a <= b,
    ensures
        0 <= space_to_q32_spec(a) <= space_to_q32_spec(b),
{
    assert(0 <= a * 0x1_0000_0000 <= b * 0x1_0000_0000) by (nonlinear_arith)
        requires
            0 <= a <= b,
    ;
    vstd::arithmetic::div_mod::lemma_div_is_ordered(a * 0x1_0000_0000, b * 0x1_0000_0000, 1000);
    vstd::arithmetic::div_mod::lemma_div_pos_is_pos(a * 0x1_0000_0000, 1000);
}

/// The core lists a unit exactly when the distance between the two centres,
/// less the core's collision radius and the unit's own, is within the core's
/// range: the gap between their edges, for a core and a unit of no negative
/// size, each listed by its own identity.
pub proof fn lemma_the_core_lists_the_units_its_edge_reaches(
    units: Seq<RankedUnit>,
    x_q32: i64,
    z_q32: i64,
    collision_radius: i64,
    range: i64,
    k: int,
)
    requires
        0 <= k < units.len(),
        collision_radius >= 0,
        units[k].radius >= 0,
        forall|a: int, b: int| 0 <= a < b < units.len() ==> units[a].id != units[b].id,
    ensures
        core_ranked_spec(units, x_q32, z_q32, collision_radius, range).contains(units[k].id) <==> native_q32_magnitude_spec(
            clamp_i64(units[k].x_q32 - x_q32) as i64,
            clamp_i64(units[k].z_q32 - z_q32) as i64,
        ) - space_to_q32_spec(collision_radius as int) - space_to_q32_spec(units[k].radius as int)
            <= space_to_q32_spec(range as int),
{
    lemma_core_list_membership(units, x_q32, z_q32, collision_radius, range);
    lemma_space_to_q32_grows(0, collision_radius as int);
    lemma_space_to_q32_grows(0, units[k].radius as int);
    let id = units[k].id;
    if core_ranked_spec(units, x_q32, z_q32, collision_radius, range).contains(id) {
        let m = choose|m: int|
            0 <= m < units.len() && (#[trigger] units[m]).id == id && within_core_range_spec(
                x_q32,
                z_q32,
                collision_radius,
                range,
                units[m],
            );
        if m != k {
            if m < k {
                assert(units[m].id != units[k].id);
            } else {
                assert(units[k].id != units[m].id);
            }
        }
    } else {
        assert(!within_core_range_spec(x_q32, z_q32, collision_radius, range, units[k]));
    }
}

/// A core of larger collision radius keeps every unit a smaller one lists:
/// its edge lies no farther from any of them.
pub proof fn lemma_a_wider_core_keeps_every_unit(
    units: Seq<RankedUnit>,
    x_q32: i64,
    z_q32: i64,
    smaller: i64,
    larger: i64,
    range: i64,
)
    requires
        0 <= smaller <= larger,
        forall|m: int| 0 <= m < units.len() ==> (#[trigger] units[m]).radius >= 0,
        forall|a: int, b: int| 0 <= a < b < units.len() ==> units[a].id != units[b].id,
    ensures
        forall|id: u64|
            core_ranked_spec(units, x_q32, z_q32, smaller, range).contains(id) ==> core_ranked_spec(
                units,
                x_q32,
                z_q32,
                larger,
                range,
            ).contains(id),
{
    lemma_core_list_membership(units, x_q32, z_q32, smaller, range);
    lemma_core_list_membership(units, x_q32, z_q32, larger, range);
    lemma_space_to_q32_grows(smaller as int, larger as int);
    assert forall|id: u64| core_ranked_spec(units, x_q32, z_q32, smaller, range).contains(id) implies core_ranked_spec(
        units,
        x_q32,
        z_q32,
        larger,
        range,
    ).contains(id) by {
        let k = choose|k: int|
            0 <= k < units.len() && (#[trigger] units[k]).id == id && within_core_range_spec(
                x_q32,
                z_q32,
                smaller,
                range,
                units[k],
            );
        lemma_the_core_lists_the_units_its_edge_reaches(units, x_q32, z_q32, smaller, range, k);
        lemma_the_core_lists_the_units_its_edge_reaches(units, x_q32, z_q32, larger, range, k);
    }
}

/// The identities of `units`, in order.
pub open spec fn ranked_ids(units: Seq<RankedUnit>) -> Seq<u64> {
    units.map_values(|unit: RankedUnit| unit.id)
}

/// The ranked units, best first, and those of them within the core's range
/// of a mech at `(x, z)` of `collision_radius` whose attack reaches `range`.
pub fn rank_for_core(units: &Vec<RankedUnit>, x_q32: i64, z_q32: i64, collision_radius: i64, range: i64) -> (ranked: (
    Vec<u64>,
    Vec<u64>,
))
    ensures
        ranked.0@ == ranked_ids(units@),
        ranked.1@ == core_ranked_spec(units@, x_q32, z_q32, collision_radius, range),
{
    let mut all: Vec<u64> = Vec::new();
    let mut core: Vec<u64> = Vec::new();
    let mut i: usize = 0;
    while i < units.len()
        invariant
            i <= units.len(),
            all@ == ranked_ids(units@.subrange(0, i as int)),
            core@ == core_ranked_spec(units@.subrange(0, i as int), x_q32, z_q32, collision_radius, range),
        decreases units.len() - i,
    {
        let unit = units[i];
        assert(units@.subrange(0, i + 1).drop_last() =~= units@.subrange(0, i as int));
        all.push(unit.id);
        let center = native_q32_magnitude(saturating_sub(unit.x_q32, x_q32), saturating_sub(unit.z_q32, z_q32));
        let gap = saturating_sub(saturating_sub(center, space_to_q32(collision_radius)), space_to_q32(unit.radius));
        if gap <= space_to_q32(range) {
            core.push(unit.id);
        }
        assert(all@ =~= ranked_ids(units@.subrange(0, i + 1)));
        i = i + 1;
    }
    assert(units@.subrange(0, units.len() as int) =~= units@);
    (all, core)
}

/// Whether a sharing-out is due.
pub fn allocation_due(targets: &Vec<Option<u64>>, has_dead_target: bool, core_has_entered_attack: bool) -> (due: bool)
    ensures
        due == allocation_due_spec(targets@, has_dead_target, core_has_entered_attack),
{
    let mut i: usize = 0;
    while i < targets.len()
        invariant
            i <= targets.len(),
            forall|k: int| 0 <= k < i ==> #[trigger] targets@[k] is Some,
        decreases targets.len() - i,
    {
        if targets[i].is_none() {
            assert(targets@[i as int] is None);
            return core_has_entered_attack;
        }
        i = i + 1;
    }
    has_dead_target
}

/// Shares the ranked units out among the slots when a sharing-out is due:
/// when every slot holds a unit and one of them has died, or when a slot is
/// empty and the core has entered its attack. Answers whether it did; when
/// it did not, the slots are left as they were.
pub fn update_group_skill_targets(
    slots: &mut GroupSlots,
    has_dead_target: bool,
    core_has_entered_attack: bool,
    allocation: &Allocation,
) -> (shared: bool)
    requires
        old(slots).next_attack_steps.len() == old(slots).targets.len(),
        old(slots).prepare_ready_steps.len() == old(slots).targets.len(),
    ensures
        shared == allocation_due_spec(old(slots).targets@, has_dead_target, core_has_entered_attack),
        shared ==> (final(slots).targets@, final(slots).prepare_ready_steps@, final(slots).pending_releases@,
            final(slots).lock_target) == shared_spec(
            old(slots).targets@,
            old(slots).next_attack_steps@,
            old(slots).prepare_ready_steps@,
            old(slots).pending_releases@,
            old(slots).lock_target,
            *allocation,
        ),
        !shared ==> *final(slots) == *old(slots),
        final(slots).next_attack_steps@ == old(slots).next_attack_steps@,
{
    if !allocation_due(&slots.targets, has_dead_target, core_has_entered_attack) {
        return false;
    }
    share_group_targets(slots, allocation);
    true
}


/// What [`first_unused`] finds is one of the candidates.
proof fn lemma_first_unused(candidates: Seq<u64>, used: Set<u64>, from: int)
    requires
        0 <= from,
    ensures
        first_unused(candidates, used, from) matches Some(unit) ==> candidates.contains(unit) && !used.contains(unit),
    decreases candidates.len() - from,
{
    if from < candidates.len() {
        if !used.contains(candidates[from]) {
            assert(candidates[from] == candidates[from]);
        } else {
            lemma_first_unused(candidates, used, from + 1);
        }
    }
}

/// The candidates of slot `index`: the units within the core's range for a
/// core that held a unit, every ranked unit otherwise.
pub open spec fn candidates_of(index: int, core_was_empty: bool, allocation: Allocation) -> Seq<u64> {
    if index == 0 && !core_was_empty {
        allocation.core_ranked@
    } else {
        allocation.ranked@
    }
}

/// Whether a slot holds one of the ranked units, or nothing.
pub open spec fn holds_ranked_or_nothing(slot: Option<u64>, ranked: Seq<u64>) -> bool {
    slot matches Some(unit) ==> ranked.contains(unit)
}

/// Whether every unit within the core's range is one of the ranked units.
pub open spec fn core_among_ranked(allocation: Allocation) -> bool {
    forall|unit: u64| allocation.core_ranked@.contains(unit) ==> allocation.ranked@.contains(unit)
}

/// Turns leave every slot they did not visit as it was, and each slot they
/// visited, or that the swap set, holding a ranked unit or nothing.
proof fn lemma_share_all_holds_ranked(
    state: Sharing,
    order: Seq<int>,
    previous: Seq<Option<u64>>,
    core_was_empty: bool,
    swapped_slots: Set<int>,
    no_unused_global_target: bool,
    allocation: Allocation,
)
    requires
        core_among_ranked(allocation),
        forall|k: int| 0 <= k < order.len() ==> 0 <= #[trigger] order[k] < state.0.len(),
        forall|j: int|
            0 <= j < state.0.len() && swapped_slots.contains(j) ==> holds_ranked_or_nothing(
                #[trigger] state.0[j],
                allocation.ranked@,
            ),
    ensures
        share_all(state, order, previous, core_was_empty, swapped_slots, no_unused_global_target, allocation).0.len()
            == state.0.len(),
        forall|j: int|
            0 <= j < state.0.len() && (swapped_slots.contains(j) || order.contains(j)) ==> holds_ranked_or_nothing(
                #[trigger] share_all(
                    state,
                    order,
                    previous,
                    core_was_empty,
                    swapped_slots,
                    no_unused_global_target,
                    allocation,
                ).0[j],
                allocation.ranked@,
            ),
    decreases order.len(),
{
    if order.len() > 0 {
        let rest = order.drop_last();
        lemma_share_all_holds_ranked(
            state,
            rest,
            previous,
            core_was_empty,
            swapped_slots,
            no_unused_global_target,
            allocation,
        );
        let inner = share_all(state, rest, previous, core_was_empty, swapped_slots, no_unused_global_target, allocation);
        let index = order.last();
        let outer = share_slot(inner, index, previous, core_was_empty, swapped_slots, no_unused_global_target, allocation);
        assert(outer == share_all(state, order, previous, core_was_empty, swapped_slots, no_unused_global_target, allocation));
        let candidates = candidates_of(index, core_was_empty, allocation);
        lemma_first_unused(candidates, inner.1, 0);
        assert forall|j: int|
            0 <= j < state.0.len() && (swapped_slots.contains(j) || order.contains(j)) implies holds_ranked_or_nothing(
                #[trigger] outer.0[j],
                allocation.ranked@,
            ) by {
            if j == index {
                if swapped_slots.contains(index) {
                } else if inner.0[index] is Some && candidates.contains(inner.0[index]->0) {
                } else {
                    let replacement = replacement_for(candidates, inner.1, index, no_unused_global_target, allocation);
                    if replacement is Some && first_unused(candidates, inner.1, 0) is None {
                        assert(candidates.contains(candidates[0]));
                    }
                }
            } else {
                assert(outer.0[j] == inner.0[j]);
                if order.contains(j) && !swapped_slots.contains(j) {
                    let k = choose|k: int| 0 <= k < order.len() && order[k] == j;
                    assert(rest[k] == j);
                }
            }
        }
    }
}

/// Slot `i`, one of the first `count`, is listed among those that do, or
/// those that do not, follow an intervening attack, as it does or does not.
proof fn lemma_urgency_covers(
    previous: Seq<Option<u64>>,
    next_attack_steps: Seq<u64>,
    ranked: Seq<u64>,
    step: u64,
    count: int,
    i: int,
)
    requires
        0 <= i < count,
    ensures
        slots_by_urgency(
            previous,
            next_attack_steps,
            ranked,
            step,
            follows_intervening_attack(previous, next_attack_steps, ranked, step, i),
            count,
        ).contains(i),
    decreases count,
{
    let urgent = follows_intervening_attack(previous, next_attack_steps, ranked, step, i);
    let now = slots_by_urgency(previous, next_attack_steps, ranked, step, urgent, count);
    let earlier = slots_by_urgency(previous, next_attack_steps, ranked, step, urgent, count - 1);
    if i < count - 1 {
        lemma_urgency_covers(previous, next_attack_steps, ranked, step, count - 1, i);
        let k = choose|k: int| 0 <= k < earlier.len() && earlier[k] == i;
        assert(now[k] == i);
    } else {
        assert(now[now.len() - 1] == i);
    }
}

/// Every slot takes a turn.
proof fn lemma_turn_order_covers(
    previous: Seq<Option<u64>>,
    entry_all_empty: bool,
    next_attack_steps: Seq<u64>,
    allocation: Allocation,
)
    ensures
        forall|i: int| 0 <= i < previous.len() ==> #[trigger] turn_order(previous, entry_all_empty, next_attack_steps, allocation).contains(i),
        forall|k: int|
            0 <= k < turn_order(previous, entry_all_empty, next_attack_steps, allocation).len() ==> 0
                <= #[trigger] turn_order(previous, entry_all_empty, next_attack_steps, allocation)[k] < previous.len(),
{
    let count = previous.len() as int;
    let order = turn_order(previous, entry_all_empty, next_attack_steps, allocation);
    let urgent = slots_by_urgency(previous, next_attack_steps, allocation.ranked@, allocation.step, true, count);
    let calm = slots_by_urgency(previous, next_attack_steps, allocation.ranked@, allocation.step, false, count);
    lemma_slots_upto(count);
    lemma_urgency_in_range(previous, next_attack_steps, allocation.ranked@, allocation.step, true, count);
    lemma_urgency_in_range(previous, next_attack_steps, allocation.ranked@, allocation.step, false, count);
    let core_keeps = count > 0 && previous[0] is Some && allocation.core_ranked@.contains(previous[0]->0);
    if !entry_all_empty && core_keeps {
        assert(order == urgent + calm);
        assert forall|i: int| 0 <= i < count implies #[trigger] order.contains(i) by {
            let urgency = follows_intervening_attack(previous, next_attack_steps, allocation.ranked@, allocation.step, i);
            lemma_urgency_covers(previous, next_attack_steps, allocation.ranked@, allocation.step, count, i);
            assert(slots_by_urgency(previous, next_attack_steps, allocation.ranked@, allocation.step, urgency, count).contains(i));
            if urgency {
                assert(urgent.contains(i));
                let k = choose|k: int| 0 <= k < urgent.len() && urgent[k] == i;
                assert(order[k] == i);
            } else {
                assert(calm.contains(i));
                let k = choose|k: int| 0 <= k < calm.len() && calm[k] == i;
                assert(order[urgent.len() + k] == i);
            }
        }
        assert forall|k: int| 0 <= k < order.len() implies 0 <= #[trigger] order[k] < count by {
            if k < urgent.len() {
                assert(order[k] == urgent[k]);
            } else {
                assert(order[k] == calm[k - urgent.len()]);
            }
        }
    } else {
        assert forall|i: int| 0 <= i < count implies #[trigger] order.contains(i) by {
            assert(order[i] == i);
        }
    }
}

/// After a sharing-out every slot holds one of the ranked units, or nothing,
/// where every unit within the core's range is itself ranked.
pub proof fn lemma_every_slot_holds_a_ranked_unit(
    entry: Seq<Option<u64>>,
    next_attack_steps: Seq<u64>,
    ready: Seq<u64>,
    pending: Seq<(usize, PendingRelease)>,
    lock_target: Option<FightActorRef>,
    allocation: Allocation,
)
    requires
        core_among_ranked(allocation),
    ensures
        shared_spec(entry, next_attack_steps, ready, pending, lock_target, allocation).0.len() == entry.len(),
        forall|i: int|
            0 <= i < entry.len() ==> holds_ranked_or_nothing(
                #[trigger] shared_spec(entry, next_attack_steps, ready, pending, lock_target, allocation).0[i],
                allocation.ranked@,
            ),
{
    let start = sharing_start(entry, ready, pending, allocation);
    let previous = start.0;
    let core_was_empty = entry.len() > 0 && entry[0] is None;
    let no_unused_global_target = every_ranked_held(start.1, allocation.ranked@);
    let (after_swap, swapped_slots) = swapped(start, core_was_empty, all_empty(entry), allocation);
    let order = turn_order(previous, all_empty(entry), next_attack_steps, allocation);
    lemma_turn_order_covers(previous, all_empty(entry), next_attack_steps, allocation);
    let global = first_unused(allocation.ranked@, start.1, 0);
    let donor = first_held_by_child(allocation.core_ranked@, start.0, 0);
    lemma_first_unused(allocation.ranked@, start.1, 0);
    lemma_first_held_by_child(allocation.core_ranked@, start.0, 0);
    if donor is Some {
        lemma_slot_holding(start.0, donor->0, 0);
    }
    assert(after_swap.0.len() == entry.len());
    assert forall|j: int|
        0 <= j < after_swap.0.len() && swapped_slots.contains(j) implies holds_ranked_or_nothing(
            #[trigger] after_swap.0[j],
            allocation.ranked@,
        ) by {}
    lemma_share_all_holds_ranked(
        after_swap,
        order,
        previous,
        core_was_empty,
        swapped_slots,
        no_unused_global_target,
        allocation,
    );
}


/// Turns never take from slot `i` a unit that is one of its candidates.
proof fn lemma_share_all_retains(
    state: Sharing,
    order: Seq<int>,
    previous: Seq<Option<u64>>,
    core_was_empty: bool,
    swapped_slots: Set<int>,
    no_unused_global_target: bool,
    allocation: Allocation,
    i: int,
    unit: u64,
)
    requires
        0 <= i < state.0.len(),
        state.0[i] == Some(unit),
        candidates_of(i, core_was_empty, allocation).contains(unit),
        forall|k: int| 0 <= k < order.len() ==> 0 <= #[trigger] order[k] < state.0.len(),
    ensures
        share_all(state, order, previous, core_was_empty, swapped_slots, no_unused_global_target, allocation).0[i]
            == Some(unit),
        share_all(state, order, previous, core_was_empty, swapped_slots, no_unused_global_target, allocation).0.len()
            == state.0.len(),
    decreases order.len(),
{
    if order.len() > 0 {
        lemma_share_all_retains(
            state,
            order.drop_last(),
            previous,
            core_was_empty,
            swapped_slots,
            no_unused_global_target,
            allocation,
            i,
            unit,
        );
        let inner = share_all(
            state,
            order.drop_last(),
            previous,
            core_was_empty,
            swapped_slots,
            no_unused_global_target,
            allocation,
        );
        assert(share_all(state, order, previous, core_was_empty, swapped_slots, no_unused_global_target, allocation)
            == share_slot(inner, order.last(), previous, core_was_empty, swapped_slots, no_unused_global_target, allocation));
        assert(0 <= order[order.len() - 1] < state.0.len());
    }
}

/// When the core holds a unit, a sharing-out leaves every slot whose unit is
/// still one of its candidates holding it: the core keeps a unit within its
/// range, a child any ranked unit.
pub proof fn lemma_a_slot_keeps_a_unit_it_may_still_fire_at(
    entry: Seq<Option<u64>>,
    next_attack_steps: Seq<u64>,
    ready: Seq<u64>,
    pending: Seq<(usize, PendingRelease)>,
    lock_target: Option<FightActorRef>,
    allocation: Allocation,
    i: int,
)
    requires
        entry.len() > 0,
        entry[0] is Some,
        0 <= i < entry.len(),
        entry[i] is Some,
        candidates_of(i, false, allocation).contains(entry[i]->0),
    ensures
        shared_spec(entry, next_attack_steps, ready, pending, lock_target, allocation).0[i] == entry[i],
{
    let start = sharing_start(entry, ready, pending, allocation);
    assert(!all_empty(entry));
    assert(start.0 == entry);
    let no_unused_global_target = every_ranked_held(start.1, allocation.ranked@);
    let (after_swap, swapped_slots) = swapped(start, false, false, allocation);
    let order = turn_order(start.0, false, next_attack_steps, allocation);
    lemma_turn_order_covers(start.0, false, next_attack_steps, allocation);
    lemma_share_all_retains(
        after_swap,
        order,
        start.0,
        false,
        swapped_slots,
        no_unused_global_target,
        allocation,
        i,
        entry[i]->0,
    );
}


/// Whether no two slots hold the same unit.
pub open spec fn distinct_units(targets: Seq<Option<u64>>) -> bool {
    forall|j: int, k: int|
        0 <= j < targets.len() && 0 <= k < targets.len() && j != k && #[trigger] targets[j] is Some ==> targets[j]
            != #[trigger] targets[k]
}

/// Whether every ranked unit a slot holds is among those taken.
pub open spec fn taken_recorded(targets: Seq<Option<u64>>, used: Set<u64>, ranked: Seq<u64>) -> bool {
    forall|j: int|
        0 <= j < targets.len() && #[trigger] targets[j] is Some && ranked.contains(targets[j]->0) ==> used.contains(
            targets[j]->0,
        )
}

/// Where units may not be shared, turns keep the slots' units apart and
/// every ranked unit a slot holds among those taken.
proof fn lemma_share_all_keeps_units_apart(
    state: Sharing,
    order: Seq<int>,
    previous: Seq<Option<u64>>,
    core_was_empty: bool,
    swapped_slots: Set<int>,
    no_unused_global_target: bool,
    allocation: Allocation,
)
    requires
        !allocation.allow_same_target,
        core_among_ranked(allocation),
        distinct_units(state.0),
        taken_recorded(state.0, state.1, allocation.ranked@),
        forall|k: int| 0 <= k < order.len() ==> 0 <= #[trigger] order[k] < state.0.len(),
    ensures
        share_all(state, order, previous, core_was_empty, swapped_slots, no_unused_global_target, allocation).0.len()
            == state.0.len(),
        distinct_units(
            share_all(state, order, previous, core_was_empty, swapped_slots, no_unused_global_target, allocation).0,
        ),
        taken_recorded(
            share_all(state, order, previous, core_was_empty, swapped_slots, no_unused_global_target, allocation).0,
            share_all(state, order, previous, core_was_empty, swapped_slots, no_unused_global_target, allocation).1,
            allocation.ranked@,
        ),
    decreases order.len(),
{
    if order.len() > 0 {
        let rest = order.drop_last();
        lemma_share_all_keeps_units_apart(
            state,
            rest,
            previous,
            core_was_empty,
            swapped_slots,
            no_unused_global_target,
            allocation,
        );
        let inner = share_all(state, rest, previous, core_was_empty, swapped_slots, no_unused_global_target, allocation);
        let index = order.last();
        assert(0 <= order[order.len() - 1] < state.0.len());
        let outer = share_slot(inner, index, previous, core_was_empty, swapped_slots, no_unused_global_target, allocation);
        assert(outer == share_all(state, order, previous, core_was_empty, swapped_slots, no_unused_global_target, allocation));
        let candidates = candidates_of(index, core_was_empty, allocation);
        lemma_first_unused(candidates, inner.1, 0);
        if !swapped_slots.contains(index) && !(inner.0[index] is Some && candidates.contains(inner.0[index]->0)) {
            let replacement = first_unused(candidates, inner.1, 0);
            match replacement {
                Some(unit) => {
                    assert(allocation.ranked@.contains(unit));
                    assert forall|j: int, k: int|
                        0 <= j < outer.0.len() && 0 <= k < outer.0.len() && j != k && #[trigger] outer.0[j] is Some
                            implies outer.0[j] != #[trigger] outer.0[k] by {
                        if j == index {
                            if inner.0[k] == Some(unit) {
                                assert(inner.1.contains(unit));
                            }
                        } else if k == index {
                            if inner.0[j] == Some(unit) {
                                assert(inner.1.contains(unit));
                            }
                        } else {
                            assert(outer.0[j] == inner.0[j]);
                            assert(outer.0[k] == inner.0[k]);
                        }
                    }
                    assert forall|j: int|
                        0 <= j < outer.0.len() && #[trigger] outer.0[j] is Some && allocation.ranked@.contains(
                            outer.0[j]->0,
                        ) implies outer.1.contains(outer.0[j]->0) by {
                        if j != index {
                            assert(outer.0[j] == inner.0[j]);
                        }
                    }
                },
                None => {
                    assert forall|j: int, k: int|
                        0 <= j < outer.0.len() && 0 <= k < outer.0.len() && j != k && #[trigger] outer.0[j] is Some
                            implies outer.0[j] != #[trigger] outer.0[k] by {
                        assert(outer.0[j] == inner.0[j]);
                        if k != index {
                            assert(outer.0[k] == inner.0[k]);
                        }
                    }
                    assert forall|j: int|
                        0 <= j < outer.0.len() && #[trigger] outer.0[j] is Some && allocation.ranked@.contains(
                            outer.0[j]->0,
                        ) implies outer.1.contains(outer.0[j]->0) by {
                        assert(outer.0[j] == inner.0[j]);
                    }
                },
            }
        }
    }
}

/// Where units may not be shared, a sharing-out leaves no two slots holding
/// the same unit, when none did before and every unit within the core's
/// range is itself ranked.
pub proof fn lemma_no_two_slots_share_a_unit(
    entry: Seq<Option<u64>>,
    next_attack_steps: Seq<u64>,
    ready: Seq<u64>,
    pending: Seq<(usize, PendingRelease)>,
    lock_target: Option<FightActorRef>,
    allocation: Allocation,
)
    requires
        !allocation.allow_same_target,
        core_among_ranked(allocation),
        distinct_units(entry),
    ensures
        distinct_units(shared_spec(entry, next_attack_steps, ready, pending, lock_target, allocation).0),
{
    let start = sharing_start(entry, ready, pending, allocation);
    let previous = start.0;
    let core_was_empty = entry.len() > 0 && entry[0] is None;
    let no_unused_global_target = every_ranked_held(start.1, allocation.ranked@);
    let (after_swap, swapped_slots) = swapped(start, core_was_empty, all_empty(entry), allocation);
    let order = turn_order(previous, all_empty(entry), next_attack_steps, allocation);
    lemma_turn_order_covers(previous, all_empty(entry), next_attack_steps, allocation);
    assert(distinct_units(previous)) by {
        if all_empty(entry) && entry.len() > 0 {
            assert forall|j: int, k: int|
                0 <= j < previous.len() && 0 <= k < previous.len() && j != k && #[trigger] previous[j] is Some
                    implies previous[j] != #[trigger] previous[k] by {
                assert(j == 0);
                assert(entry[k] is None);
            }
        }
    }
    let global = first_unused(allocation.ranked@, start.1, 0);
    let donor = first_held_by_child(allocation.core_ranked@, start.0, 0);
    lemma_first_unused(allocation.ranked@, start.1, 0);
    lemma_first_held_by_child(allocation.core_ranked@, start.0, 0);
    if core_was_empty && !all_empty(entry) && global is Some && !allocation.core_ranked@.contains(global->0)
        && donor is Some {
        let g = global->0;
        let d = donor->0;
        lemma_slot_holding(start.0, d, 0);
        let di = slot_holding(start.0, d, 0);
        assert(previous == entry);
        assert(1 <= di < previous.len()) by {
            assert(previous[0] is None);
        }
        assert(allocation.ranked@.contains(g));
        assert(allocation.ranked@.contains(d));
        assert forall|j: int| 0 <= j < previous.len() && j != di implies previous[j] != Some(d) by {
            assert(previous[di] == Some(d));
        }
        assert forall|j: int| 0 <= j < previous.len() implies previous[j] != Some(g) by {
            if previous[j] == Some(g) {
                assert(start.1.contains(g));
            }
        }
        let moved = after_swap.0;
        assert(moved == previous.update(0, Some(d)).update(di, Some(g)));
        assert forall|j: int, k: int|
            0 <= j < moved.len() && 0 <= k < moved.len() && j != k && #[trigger] moved[j] is Some implies moved[j]
                != #[trigger] moved[k] by {
            if j != 0 && j != di && k != 0 && k != di {
                assert(moved[j] == previous[j]);
                assert(moved[k] == previous[k]);
            } else if j != 0 && j != di {
                assert(moved[j] == previous[j]);
            } else if k != 0 && k != di {
                assert(moved[k] == previous[k]);
            }
        }
        assert forall|j: int|
            0 <= j < moved.len() && #[trigger] moved[j] is Some && allocation.ranked@.contains(moved[j]->0) implies after_swap.1.contains(
                moved[j]->0,
            ) by {
            if j != 0 && j != di {
                assert(moved[j] == previous[j]);
            }
        }
    } else {
        assert(after_swap.0 == previous);
        assert forall|j: int|
            0 <= j < previous.len() && #[trigger] previous[j] is Some && allocation.ranked@.contains(previous[j]->0) implies start.1.contains(
                previous[j]->0,
            ) by {}
    }
    lemma_share_all_keeps_units_apart(
        after_swap,
        order,
        previous,
        core_was_empty,
        swapped_slots,
        no_unused_global_target,
        allocation,
    );
}


impl GroupSlots {
    /// Drops the mech's lock: no slot holds a unit, none is scheduled or
    /// preparing, and no child shot waits.
    pub fn drop_lock(&mut self)
        ensures
            final(self).lock_target is None,
            final(self).targets.len() == old(self).targets.len(),
            forall|i: int| 0 <= i < final(self).targets.len() ==> #[trigger] final(self).targets@[i] is None,
            final(self).next_attack_steps.len() == old(self).next_attack_steps.len(),
            forall|i: int| 0 <= i < final(self).next_attack_steps.len() ==> #[trigger] final(self).next_attack_steps@[i] == 0,
            final(self).prepare_ready_steps.len() == old(self).prepare_ready_steps.len(),
            forall|i: int|
                0 <= i < final(self).prepare_ready_steps.len() ==> #[trigger] final(self).prepare_ready_steps@[i] == 0,
            final(self).pending_releases@.len() == 0,
    {
        self.lock_target = None;
        self.pending_releases = Vec::new();
        let mut i: usize = 0;
        while i < self.targets.len()
            invariant
                i <= self.targets.len(),
                self.targets.len() == old(self).targets.len(),
                self.next_attack_steps@ == old(self).next_attack_steps@,
                self.prepare_ready_steps@ == old(self).prepare_ready_steps@,
                self.lock_target is None,
                self.pending_releases@.len() == 0,
                forall|k: int| 0 <= k < i ==> #[trigger] self.targets@[k] is None,
            decreases self.targets.len() - i,
        {
            self.targets.set(i, None);
            i = i + 1;
        }
        let mut j: usize = 0;
        while j < self.next_attack_steps.len()
            invariant
                j <= self.next_attack_steps.len(),
                self.next_attack_steps.len() == old(self).next_attack_steps.len(),
                self.targets.len() == old(self).targets.len(),
                self.prepare_ready_steps@ == old(self).prepare_ready_steps@,
                self.lock_target is None,
                self.pending_releases@.len() == 0,
                forall|k: int| 0 <= k < self.targets.len() ==> #[trigger] self.targets@[k] is None,
                forall|k: int| 0 <= k < j ==> #[trigger] self.next_attack_steps@[k] == 0,
            decreases self.next_attack_steps.len() - j,
        {
            self.next_attack_steps.set(j, 0);
            j = j + 1;
        }
        let mut r: usize = 0;
        while r < self.prepare_ready_steps.len()
            invariant
                r <= self.prepare_ready_steps.len(),
                self.prepare_ready_steps.len() == old(self).prepare_ready_steps.len(),
                self.next_attack_steps.len() == old(self).next_attack_steps.len(),
                self.targets.len() == old(self).targets.len(),
                self.lock_target is None,
                self.pending_releases@.len() == 0,
                forall|k: int| 0 <= k < self.targets.len() ==> #[trigger] self.targets@[k] is None,
                forall|k: int| 0 <= k < self.next_attack_steps.len() ==> #[trigger] self.next_attack_steps@[k] == 0,
                forall|k: int| 0 <= k < r ==> #[trigger] self.prepare_ready_steps@[k] == 0,
            decreases self.prepare_ready_steps.len() - r,
        {
            self.prepare_ready_steps.set(r, 0);
            r = r + 1;
        }
    }
}

} // verus!
