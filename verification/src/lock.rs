//! What a unit's weapons fire at, as against what its body is directed at.
//!
//! A unit's search finds a target, its lock, which it moves toward and faces.
//! Its weapons fire at the lock unless an enemy construction stands in the
//! line of fire, found for that very lock; a grouped skill's slots each hold
//! a unit, and each fires at the construction found in its own line of fire
//! for that unit, or at the unit. A construction found for another lock, or
//! for another unit, no longer answers, without anyone having to clear it.

use vstd::prelude::*;

use crate::quadtree::FightActorRef;

verus! {

/// A unit's targets: its lock, the construction in the line of fire with the
/// lock it was found for, and each grouped slot's unit and the construction
/// in its line of fire with the unit it was found for.
#[derive(Debug, Clone)]
pub struct TargetLock {
    pub lock_target: Option<FightActorRef>,
    pub in_the_way: Option<(u64, FightActorRef)>,
    pub group_skill_targets: Vec<Option<u64>>,
    pub group_in_the_way: Vec<Option<(u64, u64)>>,
}

/// What the weapons fire at: the construction in the way when it was found
/// for the current lock, and the lock otherwise.
pub open spec fn attack_target_spec(
    lock_target: Option<FightActorRef>,
    in_the_way: Option<(u64, FightActorRef)>,
) -> Option<FightActorRef> {
    match in_the_way {
        Some((building, found_for)) => if lock_target == Some(found_for) {
            Some(FightActorRef::Building(building))
        } else {
            lock_target
        },
        None => lock_target,
    }
}

/// What grouped slot `slot` fires at: nothing when it holds no unit; the
/// construction in its way when it was found for that unit; the unit
/// otherwise.
pub open spec fn group_attack_target_spec(
    targets: Seq<Option<u64>>,
    in_the_way: Seq<Option<(u64, u64)>>,
    slot: int,
) -> Option<FightActorRef> {
    if 0 <= slot < targets.len() && targets[slot] is Some {
        let unit = targets[slot]->0;
        if 0 <= slot < in_the_way.len() {
            match in_the_way[slot] {
                Some((building, found_for)) => if found_for == unit {
                    Some(FightActorRef::Building(building))
                } else {
                    Some(FightActorRef::Unit(unit))
                },
                None => Some(FightActorRef::Unit(unit)),
            }
        } else {
            Some(FightActorRef::Unit(unit))
        }
    } else {
        None
    }
}

/// What the highest of the first `count` slots that fires at anything fires
/// at.
pub open spec fn highest_group_attack(
    targets: Seq<Option<u64>>,
    in_the_way: Seq<Option<(u64, u64)>>,
    count: int,
) -> Option<FightActorRef>
    decreases count,
{
    if count <= 0 {
        None
    } else if group_attack_target_spec(targets, in_the_way, count - 1) is Some {
        group_attack_target_spec(targets, in_the_way, count - 1)
    } else {
        highest_group_attack(targets, in_the_way, count - 1)
    }
}

/// The unit of the highest of the first `count` slots that holds one.
pub open spec fn highest_group_unit(targets: Seq<Option<u64>>, count: int) -> Option<u64>
    decreases count,
{
    if count <= 0 {
        None
    } else if targets[count - 1] is Some {
        targets[count - 1]
    } else {
        highest_group_unit(targets, count - 1)
    }
}

impl TargetLock {
    /// What the weapons fire at: the construction in the way when it was
    /// found for the current lock, and the lock otherwise.
    pub fn attack_target(&self) -> (result: Option<FightActorRef>)
        ensures
            result == attack_target_spec(self.lock_target, self.in_the_way),
    {
        match self.in_the_way {
            Some((building, found_for)) => {
                if self.lock_target == Some(found_for) {
                    Some(FightActorRef::Building(building))
                } else {
                    self.lock_target
                }
            },
            None => self.lock_target,
        }
    }

    /// What one grouped slot fires at.
    pub fn group_attack_target(&self, slot: usize) -> (result: Option<FightActorRef>)
        ensures
            result == group_attack_target_spec(self.group_skill_targets@, self.group_in_the_way@, slot as int),
    {
        if slot >= self.group_skill_targets.len() {
            return None;
        }
        match self.group_skill_targets[slot] {
            None => None,
            Some(unit) => {
                if slot < self.group_in_the_way.len() {
                    match self.group_in_the_way[slot] {
                        Some((building, found_for)) => {
                            if found_for == unit {
                                return Some(FightActorRef::Building(building));
                            }
                        },
                        None => {},
                    }
                }
                Some(FightActorRef::Unit(unit))
            },
        }
    }

    /// What a grouped skill's core fires at: its first slot's target, else
    /// the highest slot's that has one, else what the weapons fire at.
    pub fn mechanical_attack_target(&self) -> (result: Option<FightActorRef>)
        ensures
            result == if group_attack_target_spec(self.group_skill_targets@, self.group_in_the_way@, 0) is Some {
                group_attack_target_spec(self.group_skill_targets@, self.group_in_the_way@, 0)
            } else if highest_group_attack(
                self.group_skill_targets@,
                self.group_in_the_way@,
                self.group_skill_targets.len() as int,
            ) is Some {
                highest_group_attack(
                    self.group_skill_targets@,
                    self.group_in_the_way@,
                    self.group_skill_targets.len() as int,
                )
            } else {
                attack_target_spec(self.lock_target, self.in_the_way)
            },
    {
        let first = self.group_attack_target(0);
        if first.is_some() {
            return first;
        }
        let mut slot = self.group_skill_targets.len();
        while slot > 0
            invariant
                slot <= self.group_skill_targets.len(),
                group_attack_target_spec(self.group_skill_targets@, self.group_in_the_way@, 0) is None,
                highest_group_attack(self.group_skill_targets@, self.group_in_the_way@, self.group_skill_targets.len() as int)
                    == highest_group_attack(self.group_skill_targets@, self.group_in_the_way@, slot as int),
            decreases slot,
        {
            let found = self.group_attack_target(slot - 1);
            if found.is_some() {
                return found;
            }
            slot = slot - 1;
        }
        self.attack_target()
    }

    /// What the mech's body is directed at: its first slot's unit, else the
    /// highest slot's that holds one, else its lock.
    pub fn mechanical_lock_target(&self) -> (result: Option<FightActorRef>)
        ensures
            result == if self.group_skill_targets.len() > 0 && self.group_skill_targets[0] is Some {
                Some(FightActorRef::Unit(self.group_skill_targets[0]->0))
            } else if highest_group_unit(self.group_skill_targets@, self.group_skill_targets.len() as int) is Some {
                Some(FightActorRef::Unit(highest_group_unit(self.group_skill_targets@, self.group_skill_targets.len() as int)->0))
            } else {
                self.lock_target
            },
    {
        if self.group_skill_targets.len() > 0 {
            match self.group_skill_targets[0] {
                Some(unit) => {
                    return Some(FightActorRef::Unit(unit));
                },
                None => {},
            }
        }
        let mut slot = self.group_skill_targets.len();
        while slot > 0
            invariant
                slot <= self.group_skill_targets.len(),
                !(self.group_skill_targets.len() > 0 && self.group_skill_targets[0] is Some),
                highest_group_unit(self.group_skill_targets@, self.group_skill_targets.len() as int) == highest_group_unit(
                    self.group_skill_targets@,
                    slot as int,
                ),
            decreases slot,
        {
            match self.group_skill_targets[slot - 1] {
                Some(unit) => {
                    return Some(FightActorRef::Unit(unit));
                },
                None => {},
            }
            slot = slot - 1;
        }
        self.lock_target
    }
}


impl TargetLock {
    /// Drops the lock: the lock and every grouped slot's unit and
    /// construction are gone. The construction found for the lock stays, and
    /// answers nothing while no lock matches it.
    pub fn drop_lock(&mut self)
        ensures
            final(self).lock_target is None,
            final(self).in_the_way == old(self).in_the_way,
            final(self).group_skill_targets.len() == old(self).group_skill_targets.len(),
            forall|i: int| 0 <= i < final(self).group_skill_targets.len() ==> #[trigger] final(self).group_skill_targets@[i] is None,
            final(self).group_in_the_way.len() == old(self).group_in_the_way.len(),
            forall|i: int| 0 <= i < final(self).group_in_the_way.len() ==> #[trigger] final(self).group_in_the_way@[i] is None,
    {
        self.lock_target = None;
        let mut i: usize = 0;
        while i < self.group_skill_targets.len()
            invariant
                i <= self.group_skill_targets.len(),
                self.group_skill_targets.len() == old(self).group_skill_targets.len(),
                self.lock_target is None,
                self.in_the_way == old(self).in_the_way,
                self.group_in_the_way@ == old(self).group_in_the_way@,
                forall|k: int| 0 <= k < i ==> #[trigger] self.group_skill_targets@[k] is None,
            decreases self.group_skill_targets.len() - i,
        {
            self.group_skill_targets.set(i, None);
            i = i + 1;
        }
        let mut j: usize = 0;
        while j < self.group_in_the_way.len()
            invariant
                j <= self.group_in_the_way.len(),
                self.group_skill_targets.len() == old(self).group_skill_targets.len(),
                self.group_in_the_way.len() == old(self).group_in_the_way.len(),
                self.lock_target is None,
                self.in_the_way == old(self).in_the_way,
                forall|k: int| 0 <= k < self.group_skill_targets.len() ==> #[trigger] self.group_skill_targets@[k] is None,
                forall|k: int| 0 <= k < j ==> #[trigger] self.group_in_the_way@[k] is None,
            decreases self.group_in_the_way.len() - j,
        {
            self.group_in_the_way.set(j, None);
            j = j + 1;
        }
    }
}


/// What weapon `weapon_index` is read aiming at: a group's slot at what it
/// fires at, the core at the weapons' target when its slot has none; any
/// other weapon at the weapons' target, else, without a lock, at the
/// construction whose fall ended its attack, else at the target held through
/// its cooling.
pub open spec fn weapon_aim_spec(
    lock: TargetLock,
    grouped: bool,
    weapon_index: int,
    fallen_attack_target: Option<u64>,
    cooling_candidate: Option<FightActorRef>,
) -> Option<FightActorRef> {
    let weapons = attack_target_spec(lock.lock_target, lock.in_the_way);
    if grouped {
        let slot = group_attack_target_spec(lock.group_skill_targets@, lock.group_in_the_way@, weapon_index);
        if slot is Some {
            slot
        } else if weapon_index == 0 {
            weapons
        } else {
            None
        }
    } else if weapons is Some {
        weapons
    } else if lock.lock_target is Some {
        None
    } else {
        match fallen_attack_target {
            Some(building) => Some(FightActorRef::Building(building)),
            None => cooling_candidate,
        }
    }
}

impl TargetLock {
    /// What weapon `weapon_index` is read aiming at; see [`weapon_aim_spec`].
    pub fn weapon_aim(
        &self,
        grouped: bool,
        weapon_index: usize,
        fallen_attack_target: Option<u64>,
        cooling_candidate: Option<FightActorRef>,
    ) -> (aim: Option<FightActorRef>)
        ensures
            aim == weapon_aim_spec(*self, grouped, weapon_index as int, fallen_attack_target, cooling_candidate),
    {
        let weapons = self.attack_target();
        if grouped {
            let slot = self.group_attack_target(weapon_index);
            if slot.is_some() {
                slot
            } else if weapon_index == 0 {
                weapons
            } else {
                None
            }
        } else if weapons.is_some() {
            weapons
        } else if self.lock_target.is_some() {
            None
        } else {
            match fallen_attack_target {
                Some(building) => Some(FightActorRef::Building(building)),
                None => cooling_candidate,
            }
        }
    }
}

} // verus!
