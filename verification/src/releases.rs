//! Which of a grouped skill's shots go off on a tick: the child shots that
//! were waiting and are now due, and each child slot whose interval is over
//! and that is ready after preparing, in order of slot.

use vstd::multiset::Multiset;
use vstd::prelude::*;

use crate::group::{GroupSlots, PendingRelease};
use crate::lock::{group_attack_target_spec, TargetLock};
use crate::order::{lemma_ordering_ascends_and_keeps_every_entry, order_by_key, ordered_by_key, values_of};
use crate::quadtree::FightActorRef;

verus! {

/// A waiting shot, by slot.
pub type SlotRelease = (usize, PendingRelease);

/// The waiting shots due by `step`, in the order they waited.
pub open spec fn due_now(pending: Seq<SlotRelease>, step: u64) -> Seq<SlotRelease>
    decreases pending.len(),
{
    if pending.len() == 0 {
        Seq::empty()
    } else {
        let earlier = due_now(pending.drop_last(), step);
        if pending.last().1.step <= step {
            earlier.push(pending.last())
        } else {
            earlier
        }
    }
}

/// The waiting shots not yet due by `step`, in the order they waited.
pub open spec fn not_yet_due(pending: Seq<SlotRelease>, step: u64) -> Seq<SlotRelease>
    decreases pending.len(),
{
    if pending.len() == 0 {
        Seq::empty()
    } else {
        let earlier = not_yet_due(pending.drop_last(), step);
        if pending.last().1.step <= step {
            earlier
        } else {
            earlier.push(pending.last())
        }
    }
}

/// The shots of the child slots below `count` whose interval is over by
/// `step`, that are ready after preparing and that fire at something, in
/// order of slot.
pub open spec fn scheduled_releases(
    next_attack_steps: Seq<u64>,
    prepare_ready_steps: Seq<u64>,
    targets: Seq<Option<u64>>,
    in_the_way: Seq<Option<(u64, u64)>>,
    step: u64,
    count: int,
) -> Seq<SlotRelease>
    decreases count,
{
    if count <= 1 {
        Seq::empty()
    } else {
        let earlier = scheduled_releases(next_attack_steps, prepare_ready_steps, targets, in_the_way, step, count - 1);
        let slot = count - 1;
        let target = group_attack_target_spec(targets, in_the_way, slot);
        if next_attack_steps[slot] > 0 && next_attack_steps[slot] <= step && prepare_ready_steps[slot] <= step
            && target is Some {
            earlier.push((slot as usize, PendingRelease { step, target: target->0 }))
        } else {
            earlier
        }
    }
}

/// The unit a target names, if it is a unit.
pub open spec fn unit_of(target: FightActorRef) -> Option<u64> {
    match target {
        FightActorRef::Unit(unit) => Some(unit),
        FightActorRef::Building(_) => None,
    }
}

/// A shot fires at what its slot fires at now when the slot still holds the
/// unit the shot names: a construction found in the way since is fired at in
/// its place.
pub open spec fn retargeted(release: SlotRelease, targets: Seq<Option<u64>>, in_the_way: Seq<Option<(u64, u64)>>) -> SlotRelease {
    let slot = release.0 as int;
    let held = if slot < targets.len() {
        targets[slot]
    } else {
        None
    };
    let now = group_attack_target_spec(targets, in_the_way, slot);
    if unit_of(release.1.target) == held && now is Some {
        (release.0, PendingRelease { step: release.1.step, target: now->0 })
    } else {
        release
    }
}

/// Each shot keyed by its slot.
pub open spec fn keyed_by_slot(releases: Seq<SlotRelease>) -> Seq<(i64, SlotRelease)> {
    releases.map_values(|release: SlotRelease| (release.0 as i64, release))
}

/// The shots that go off by `step`: those waiting and due, then the
/// scheduled ones, each firing at what its slot fires at now, in order of
/// slot, those of one slot in that order.
pub open spec fn group_releases_spec(
    pending: Seq<SlotRelease>,
    next_attack_steps: Seq<u64>,
    prepare_ready_steps: Seq<u64>,
    targets: Seq<Option<u64>>,
    in_the_way: Seq<Option<(u64, u64)>>,
    step: u64,
) -> Seq<SlotRelease> {
    let gathered = due_now(pending, step) + scheduled_releases(
        next_attack_steps,
        prepare_ready_steps,
        targets,
        in_the_way,
        step,
        targets.len() as int,
    );
    values_of(
        ordered_by_key(keyed_by_slot(gathered.map_values(|release: SlotRelease| retargeted(release, targets, in_the_way)))),
    )
}

/// Takes from the waiting shots those due by `step`, keeping the rest in
/// order, and answers the shots that go off on the tick: the due ones and
/// each child slot whose interval is over and that is ready after preparing,
/// each firing at what its slot now fires at, in order of slot.
pub fn due_group_releases(slots: &mut GroupSlots, lock: &TargetLock, step: u64) -> (due: Vec<SlotRelease>)
    requires
        lock.group_skill_targets.len() <= old(slots).next_attack_steps.len(),
        lock.group_skill_targets.len() <= old(slots).prepare_ready_steps.len(),
    ensures
        due@ == group_releases_spec(
            old(slots).pending_releases@,
            old(slots).next_attack_steps@,
            old(slots).prepare_ready_steps@,
            lock.group_skill_targets@,
            lock.group_in_the_way@,
            step,
        ),
        final(slots).pending_releases@ == not_yet_due(old(slots).pending_releases@, step),
        final(slots).targets@ == old(slots).targets@,
        final(slots).next_attack_steps@ == old(slots).next_attack_steps@,
        final(slots).prepare_ready_steps@ == old(slots).prepare_ready_steps@,
        final(slots).lock_target == old(slots).lock_target,
{
    let ghost pending = slots.pending_releases@;
    let mut gathered: Vec<SlotRelease> = Vec::new();
    let mut kept: Vec<SlotRelease> = Vec::new();
    let mut i: usize = 0;
    while i < slots.pending_releases.len()
        invariant
            i <= slots.pending_releases.len(),
            slots.pending_releases@ == pending,
            gathered@ == due_now(pending.take(i as int), step),
            kept@ == not_yet_due(pending.take(i as int), step),
        decreases slots.pending_releases.len() - i,
    {
        let release = slots.pending_releases[i];
        assert(pending.take(i + 1).drop_last() =~= pending.take(i as int));
        if release.1.step <= step {
            gathered.push(release);
        } else {
            kept.push(release);
        }
        i = i + 1;
    }
    assert(pending.take(pending.len() as int) =~= pending);
    let ghost due_part = gathered@;
    let targets = &lock.group_skill_targets;
    let mut slot: usize = 1;
    let ghost scheduled_from = gathered@.len();
    while slot < targets.len()
        invariant
            1 <= slot,
            targets@ == lock.group_skill_targets@,
            slot <= targets.len() || targets.len() == 0,
            targets.len() == 0 ==> slot == 1,
            targets.len() <= slots.next_attack_steps.len(),
            targets.len() <= slots.prepare_ready_steps.len(),
            gathered@ == due_part + scheduled_releases(
                slots.next_attack_steps@,
                slots.prepare_ready_steps@,
                targets@,
                lock.group_in_the_way@,
                step,
                slot as int,
            ),
        decreases targets.len() - slot,
    {
        let next = slots.next_attack_steps[slot];
        let ready = slots.prepare_ready_steps[slot];
        let ghost earlier = scheduled_releases(
            slots.next_attack_steps@,
            slots.prepare_ready_steps@,
            targets@,
            lock.group_in_the_way@,
            step,
            slot as int,
        );
        let ghost later = scheduled_releases(
            slots.next_attack_steps@,
            slots.prepare_ready_steps@,
            targets@,
            lock.group_in_the_way@,
            step,
            slot + 1,
        );
        let target = lock.group_attack_target(slot);
        assert(later == (if slots.next_attack_steps@[slot as int] > 0 && slots.next_attack_steps@[slot as int] <= step
            && slots.prepare_ready_steps@[slot as int] <= step && group_attack_target_spec(targets@, lock.group_in_the_way@, slot as int) is Some {
            earlier.push((slot, PendingRelease { step, target: group_attack_target_spec(targets@, lock.group_in_the_way@, slot as int)->0 }))
        } else {
            earlier
        }));
        assert(next == slots.next_attack_steps@[slot as int]);
        assert(ready == slots.prepare_ready_steps@[slot as int]);
        if next > 0 && next <= step && ready <= step && target.is_some() {
            let release = match target {
                Some(target) => (slot, PendingRelease { step, target }),
                None => (slot, PendingRelease { step, target: FightActorRef::Unit(0) }),
            };
            assert(later == earlier.push(release));
            gathered.push(release);
            assert(gathered@ =~= due_part + later);
        } else {
            assert(later == earlier);
        }
        slot = slot + 1;
    }
    let ghost all = gathered@;
    assert(all == due_part + scheduled_releases(
        slots.next_attack_steps@,
        slots.prepare_ready_steps@,
        targets@,
        lock.group_in_the_way@,
        step,
        targets.len() as int,
    )) by {
        if targets.len() == 0 {
            assert(slot == 1);
        }
    }
    let mut keyed: Vec<(i64, SlotRelease)> = Vec::new();
    let mut k: usize = 0;
    while k < gathered.len()
        invariant
            k <= gathered.len(),
            gathered@ == all,
            targets@ == lock.group_skill_targets@,
            keyed@ == keyed_by_slot(
                all.take(k as int).map_values(|release: SlotRelease| retargeted(release, targets@, lock.group_in_the_way@)),
            ),
        decreases gathered.len() - k,
    {
        let release = gathered[k];
        let held = if release.0 < targets.len() {
            targets[release.0]
        } else {
            None
        };
        let now = lock.group_attack_target(release.0);
        let same_unit = match (release.1.target, held) {
            (FightActorRef::Unit(unit), Some(slot_unit)) => unit == slot_unit,
            (FightActorRef::Building(_), None) => true,
            _ => false,
        };
        let moved = match now {
            Some(target) => if same_unit {
                (release.0, PendingRelease { step: release.1.step, target })
            } else {
                release
            },
            None => release,
        };
        assert(moved == retargeted(release, targets@, lock.group_in_the_way@));
        keyed.push((#[verifier::truncate] (release.0 as i64), moved));
        assert(keyed@ =~= keyed_by_slot(
            all.take(k + 1).map_values(|release: SlotRelease| retargeted(release, targets@, lock.group_in_the_way@)),
        ));
        k = k + 1;
    }
    assert(all.take(all.len() as int) =~= all);
    let ordered = order_by_key(&keyed);
    let mut due: Vec<SlotRelease> = Vec::new();
    let mut m: usize = 0;
    while m < ordered.len()
        invariant
            m <= ordered.len(),
            due@ == values_of(ordered@.take(m as int)),
        decreases ordered.len() - m,
    {
        due.push(ordered[m].1);
        assert(due@ =~= values_of(ordered@.take(m + 1)));
        m = m + 1;
    }
    assert(ordered@.take(ordered.len() as int) =~= ordered@);
    slots.pending_releases = kept;
    due
}


/// Every waiting shot either goes off or keeps waiting, never both: the due
/// ones are due by `step`, the kept ones are not, and together they are the
/// waiting ones, each as often as it waited.
pub proof fn lemma_a_waiting_shot_goes_off_or_keeps_waiting(pending: Seq<SlotRelease>, step: u64)
    ensures
        due_now(pending, step).to_multiset().add(not_yet_due(pending, step).to_multiset()) == pending.to_multiset(),
        forall|k: int| 0 <= k < due_now(pending, step).len() ==> #[trigger] due_now(pending, step)[k].1.step <= step,
        forall|k: int|
            0 <= k < not_yet_due(pending, step).len() ==> #[trigger] not_yet_due(pending, step)[k].1.step > step,
    decreases pending.len(),
{
    broadcast use vstd::seq_lib::group_to_multiset_ensures;

    if pending.len() == 0 {
        assert(due_now(pending, step).to_multiset() =~= Multiset::empty());
        assert(not_yet_due(pending, step).to_multiset() =~= Multiset::empty());
        assert(pending.to_multiset() =~= Multiset::empty());
    } else {
        let rest = pending.drop_last();
        let last = pending.last();
        lemma_a_waiting_shot_goes_off_or_keeps_waiting(rest, step);
        assert(rest.push(last) =~= pending);
        let due = due_now(rest, step);
        let kept = not_yet_due(rest, step);
        if last.1.step <= step {
            assert(due_now(pending, step).to_multiset() =~= due.to_multiset().insert(last));
            assert(due_now(pending, step).to_multiset().add(not_yet_due(pending, step).to_multiset())
                =~= pending.to_multiset());
        } else {
            assert(not_yet_due(pending, step).to_multiset() =~= kept.to_multiset().insert(last));
            assert(due_now(pending, step).to_multiset().add(not_yet_due(pending, step).to_multiset())
                =~= pending.to_multiset());
        }
    }
}

/// The scheduled shots are of child slots below `count`.
proof fn lemma_scheduled_slots(
    next_attack_steps: Seq<u64>,
    prepare_ready_steps: Seq<u64>,
    targets: Seq<Option<u64>>,
    in_the_way: Seq<Option<(u64, u64)>>,
    step: u64,
    count: int,
)
    requires
        count <= usize::MAX,
    ensures
        forall|k: int|
            0 <= k < scheduled_releases(next_attack_steps, prepare_ready_steps, targets, in_the_way, step, count).len()
                ==> 1 <= #[trigger] scheduled_releases(
                next_attack_steps,
                prepare_ready_steps,
                targets,
                in_the_way,
                step,
                count,
            )[k].0 < count,
    decreases count,
{
    if count > 1 {
        lemma_scheduled_slots(next_attack_steps, prepare_ready_steps, targets, in_the_way, step, count - 1);
        let earlier = scheduled_releases(next_attack_steps, prepare_ready_steps, targets, in_the_way, step, count - 1);
        let now = scheduled_releases(next_attack_steps, prepare_ready_steps, targets, in_the_way, step, count);
        assert forall|k: int| 0 <= k < now.len() implies 1 <= #[trigger] now[k].0 < count by {
            if k < earlier.len() {
                assert(now[k] == earlier[k]);
            }
        }
    }
}

/// Whether a keyed shot is keyed by its own slot, no larger than `i64::MAX`.
pub open spec fn keyed_by_own_slot(entry: (i64, SlotRelease)) -> bool {
    entry.1.0 <= i64::MAX && entry.0 == entry.1.0 as i64
}

/// The shots that go off on a tick come in order of slot, where every slot
/// index fits in `i64`.
pub proof fn lemma_releases_come_in_order_of_slot(
    pending: Seq<SlotRelease>,
    next_attack_steps: Seq<u64>,
    prepare_ready_steps: Seq<u64>,
    targets: Seq<Option<u64>>,
    in_the_way: Seq<Option<(u64, u64)>>,
    step: u64,
)
    requires
        forall|k: int| 0 <= k < pending.len() ==> #[trigger] pending[k].0 <= i64::MAX,
        targets.len() <= i64::MAX,
        targets.len() <= usize::MAX,
    ensures
        forall|i: int, j: int|
            0 <= i <= j < group_releases_spec(pending, next_attack_steps, prepare_ready_steps, targets, in_the_way, step).len()
                ==> (#[trigger] group_releases_spec(
                pending,
                next_attack_steps,
                prepare_ready_steps,
                targets,
                in_the_way,
                step,
            )[i]).0 <= (#[trigger] group_releases_spec(
                pending,
                next_attack_steps,
                prepare_ready_steps,
                targets,
                in_the_way,
                step,
            )[j]).0,
{
    broadcast use vstd::seq_lib::group_to_multiset_ensures;

    let due = due_now(pending, step);
    let scheduled = scheduled_releases(
        next_attack_steps,
        prepare_ready_steps,
        targets,
        in_the_way,
        step,
        targets.len() as int,
    );
    let gathered = due + scheduled;
    let mapped = gathered.map_values(|release: SlotRelease| retargeted(release, targets, in_the_way));
    let keyed = keyed_by_slot(mapped);
    let ordered = ordered_by_key(keyed);
    let result = values_of(ordered);
    assert(result == group_releases_spec(pending, next_attack_steps, prepare_ready_steps, targets, in_the_way, step));
    lemma_a_waiting_shot_goes_off_or_keeps_waiting(pending, step);
    lemma_scheduled_slots(next_attack_steps, prepare_ready_steps, targets, in_the_way, step, targets.len() as int);
    assert forall|k: int| 0 <= k < due.len() implies #[trigger] due[k].0 <= i64::MAX by {
        assert(due.contains(due[k]));
        assert(due.to_multiset().count(due[k]) > 0);
        assert(pending.to_multiset().count(due[k]) > 0);
        assert(pending.contains(due[k]));
    }
    assert forall|k: int| 0 <= k < keyed.len() implies keyed_by_own_slot(#[trigger] keyed[k]) by {
        if k < due.len() {
            assert(gathered[k] == due[k]);
        } else {
            assert(gathered[k] == scheduled[k - due.len()]);
        }
    }
    lemma_ordering_ascends_and_keeps_every_entry(keyed);
    assert forall|k: int| 0 <= k < ordered.len() implies keyed_by_own_slot(#[trigger] ordered[k]) by {
        assert(ordered.contains(ordered[k]));
        assert(ordered.to_multiset().count(ordered[k]) > 0);
        assert(keyed.to_multiset().count(ordered[k]) > 0);
        assert(keyed.contains(ordered[k]));
    }
    assert forall|i: int, j: int| 0 <= i <= j < result.len() implies (#[trigger] result[i]).0 <= (#[trigger] result[j]).0 by {
        assert(keyed_by_own_slot(ordered[i]));
        assert(keyed_by_own_slot(ordered[j]));
        assert(ordered[i].0 <= ordered[j].0);
    }
}

} // verus!
