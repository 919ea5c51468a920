//! A projectile burst's schedule: one release per drawn offset, spaced by
//! the release interval, each from the next weapon in turn, aimed at the
//! target moved by its offset.

use vstd::prelude::*;

use crate::Error;
use crate::fixed::clamp_i64;
use crate::quadtree::{FightActorRef, ObjectKind};

verus! {

/// One projectile of a burst waiting to be released: the tick, what it is
/// fired at, the point it is aimed at in Q32.32 metres, and the weapon it
/// leaves.
#[derive(Debug, Clone, Copy, PartialEq, Eq, Structural)]
pub struct PendingProjectileRelease {
    pub step: u64,
    pub target_kind: ObjectKind,
    pub target: u64,
    pub target_x_q32: i64,
    pub target_z_q32: i64,
    pub weapon_index: usize,
}

/// The kind of object a target names.
pub open spec fn kind_of(target: FightActorRef) -> ObjectKind {
    match target {
        FightActorRef::Unit(_) => ObjectKind::Unit,
        FightActorRef::Building(_) => ObjectKind::Building,
    }
}

/// The identity a target names.
pub open spec fn id_of(target: FightActorRef) -> u64 {
    match target {
        FightActorRef::Unit(id) => id,
        FightActorRef::Building(id) => id,
    }
}

/// The release of the burst's `index`th projectile: `index` intervals after
/// `step`, saturated, aimed at the target's point moved by `offset`,
/// saturated, from weapon `index` modulo the weapons.
pub open spec fn burst_release_spec(
    target: FightActorRef,
    target_x_q32: i64,
    target_z_q32: i64,
    offset: (i64, i64),
    step: u64,
    interval_steps: u64,
    weapon_count: u32,
    index: int,
) -> PendingProjectileRelease {
    let spacing = if interval_steps * index > u64::MAX {
        u64::MAX as int
    } else {
        interval_steps * index
    };
    PendingProjectileRelease {
        step: if step + spacing > u64::MAX {
            u64::MAX
        } else {
            (step + spacing) as u64
        },
        target_kind: kind_of(target),
        target: id_of(target),
        target_x_q32: clamp_i64(target_x_q32 + offset.0) as i64,
        target_z_q32: clamp_i64(target_z_q32 + offset.1) as i64,
        weapon_index: (index % weapon_count as int) as usize,
    }
}

/// The burst's releases, one per offset in order, the first on `step`; a
/// burst with no offset is refused.
pub fn burst_releases(
    target: FightActorRef,
    target_x_q32: i64,
    target_z_q32: i64,
    offsets: &Vec<(i64, i64)>,
    step: u64,
    interval_steps: u64,
    weapon_count: u32,
) -> (releases: Result<Vec<PendingProjectileRelease>, Error>)
    requires
        weapon_count > 0,
    ensures
        offsets.len() == 0 <==> releases is Err,
        releases matches Ok(list) ==> list.len() == offsets.len() && forall|i: int|
            0 <= i < list.len() ==> #[trigger] list@[i] == burst_release_spec(
                target,
                target_x_q32,
                target_z_q32,
                offsets@[i],
                step,
                interval_steps,
                weapon_count,
                i,
            ),
{
    if offsets.len() == 0 {
        return Err(Error::new(String::from_str("projectile burst contains no release")));
    }
    let target_kind = match target {
        FightActorRef::Unit(_) => ObjectKind::Unit,
        FightActorRef::Building(_) => ObjectKind::Building,
    };
    let id = target.id();
    let mut releases: Vec<PendingProjectileRelease> = Vec::new();
    let mut index: usize = 0;
    while index < offsets.len()
        invariant
            index <= offsets.len(),
            weapon_count > 0,
            target_kind == kind_of(target),
            id == id_of(target),
            releases.len() == index,
            forall|i: int|
                0 <= i < index ==> #[trigger] releases@[i] == burst_release_spec(
                    target,
                    target_x_q32,
                    target_z_q32,
                    offsets@[i],
                    step,
                    interval_steps,
                    weapon_count,
                    i,
                ),
        decreases offsets.len() - index,
    {
        let (x, z) = offsets[index];
        let spacing: u64 = if index as u64 == 0 || interval_steps <= u64::MAX / (index as u64) {
            proof {
                if index > 0 {
                    assert(interval_steps * (index as int) <= u64::MAX) by (nonlinear_arith)
                        requires
                            interval_steps <= (u64::MAX as int) / (index as int),
                            index > 0,
                    ;
                }
            }
            interval_steps * (index as u64)
        } else {
            proof {
                assert(interval_steps * (index as int) > u64::MAX) by (nonlinear_arith)
                    requires
                        interval_steps > (u64::MAX as int) / (index as int),
                        index > 0,
                ;
            }
            u64::MAX
        };
        let at = if spacing > u64::MAX - step {
            u64::MAX
        } else {
            step + spacing
        };
        let aim_x = if x > 0 && target_x_q32 > i64::MAX - x {
            i64::MAX
        } else if x < 0 && target_x_q32 < i64::MIN - x {
            i64::MIN
        } else {
            target_x_q32 + x
        };
        let aim_z = if z > 0 && target_z_q32 > i64::MAX - z {
            i64::MAX
        } else if z < 0 && target_z_q32 < i64::MIN - z {
            i64::MIN
        } else {
            target_z_q32 + z
        };
        let weapon_index = index % (weapon_count as usize);
        releases.push(
            PendingProjectileRelease {
                step: at,
                target_kind,
                target: id,
                target_x_q32: aim_x,
                target_z_q32: aim_z,
                weapon_index,
            },
        );
        index = index + 1;
    }
    Ok(releases)
}


/// The burst's releases due by `step`, in order.
pub open spec fn projectiles_due(pending: Seq<PendingProjectileRelease>, step: u64) -> Seq<PendingProjectileRelease>
    decreases pending.len(),
{
    if pending.len() == 0 {
        Seq::empty()
    } else if pending.last().step <= step {
        projectiles_due(pending.drop_last(), step).push(pending.last())
    } else {
        projectiles_due(pending.drop_last(), step)
    }
}

/// The burst's releases not yet due by `step`, in order.
pub open spec fn projectiles_waiting(pending: Seq<PendingProjectileRelease>, step: u64) -> Seq<
    PendingProjectileRelease,
>
    decreases pending.len(),
{
    if pending.len() == 0 {
        Seq::empty()
    } else if pending.last().step <= step {
        projectiles_waiting(pending.drop_last(), step)
    } else {
        projectiles_waiting(pending.drop_last(), step).push(pending.last())
    }
}

/// Takes the burst's releases due by `step` from those waiting, keeping the
/// rest in order. Answers the due ones, in order, and whether the burst has
/// just finished: some were due and none waits.
pub fn drain_due_projectiles(pending: &mut Vec<PendingProjectileRelease>, step: u64) -> (drained: (
    Vec<PendingProjectileRelease>,
    bool,
))
    ensures
        drained.0@ == projectiles_due(old(pending)@, step),
        final(pending)@ == projectiles_waiting(old(pending)@, step),
        drained.1 == (drained.0.len() > 0 && final(pending).len() == 0),
{
    let ghost start = pending@;
    let mut due: Vec<PendingProjectileRelease> = Vec::new();
    let mut kept: Vec<PendingProjectileRelease> = Vec::new();
    let mut i: usize = 0;
    while i < pending.len()
        invariant
            i <= pending.len(),
            pending@ == start,
            due@ == projectiles_due(start.take(i as int), step),
            kept@ == projectiles_waiting(start.take(i as int), step),
        decreases pending.len() - i,
    {
        let release = pending[i];
        assert(start.take(i + 1).drop_last() =~= start.take(i as int));
        if release.step <= step {
            due.push(release);
        } else {
            kept.push(release);
        }
        i = i + 1;
    }
    assert(start.take(start.len() as int) =~= start);
    *pending = kept;
    let finished = due.len() > 0 && pending.len() == 0;
    (due, finished)
}

} // verus!
