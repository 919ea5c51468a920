//! What a loadout writes onto a unit: a correction to one of the numbers the
//! fight derives, in the channel a recording keeps it in.

use vstd::prelude::*;

verus! {

/// Where a correction is kept: the description's own base, the unit's
/// numbers, or its skill's.
#[derive(Debug, Clone, Copy, PartialEq, Eq, Structural)]
pub enum Channel {
    Base,
    Unit,
    Skill,
}

/// Which derived number a correction corrects.
#[derive(Debug, Clone, Copy, PartialEq, Eq, Structural)]
pub enum Index {
    MaxLife,
    AttackDamage,
    AttackRange,
    AttackInterval,
    MoveSpeed,
}

/// How a number is corrected.
#[derive(Debug, Clone, Copy, PartialEq, Eq, Structural)]
pub enum Correction {
    /// A Q32.32 rate, split by its sign into what enhances and what impairs.
    Rate { add: i64, reduce: i64 },
    /// A value added in the number's own quantized units.
    Value(i64),
    /// A Q32.32 rating the base is multiplied by.
    Rating(i64),
}

/// One correction, tagged with the module that wrote it.
#[derive(Debug, Clone, Copy)]
pub struct Entry {
    pub index: Index,
    pub source: &'static str,
    pub correction: Correction,
}

} // verus!
