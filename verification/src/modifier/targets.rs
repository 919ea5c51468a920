//! Which units a row reaches, by its targeting category.
//!
//! Officers, equipment, energy-tower skills and reinforcements all ask one
//! question of a row's category, so a category means the same thing whichever
//! table names it.

use vstd::prelude::*;

use crate::Error;
use crate::rules::UnitConfig;
use crate::text::{decimal, decimal_spec, join, join3};

verus! {

/// A row's targeting category, for the categories this build resolves.
#[derive(Debug, Clone)]
pub enum Targets {
    /// Category 0: every unit.
    Every,
    /// Categories 1 and 10: the units the row lists.
    Listed(Vec<String>),
    /// Category 3: a unit whose main skill is a melee attack.
    Melee,
    /// Category 4: a unit whose main skill is not.
    Ranged,
    /// A category this build does not resolve, with what to say about it.
    Refused(String),
}

/// Whether a list of unit names holds `name`.
pub open spec fn lists(units: Seq<String>, name: Seq<char>) -> bool {
    exists|i: int| 0 <= i < units.len() && (#[trigger] units[i])@ == name
}

/// What a refusal of category `mech_type` says of a row `who` describes.
pub open spec fn category_refusal(mech_type: int, who: Seq<char>) -> Seq<char> {
    if mech_type == 11 {
        who + " corrects a tower, a shield or a mine rather than a unit"@
    } else {
        who + " targets mech_type "@ + decimal_spec(mech_type) + ", which this build does not read"@
    }
}

/// Whether `targets` is the category `mech_type` names for a row listing
/// `units`, described as `who`.
pub open spec fn targets_of(targets: Targets, mech_type: int, units: Seq<String>, who: Seq<char>) -> bool {
    if mech_type == 0 {
        targets == Targets::Every
    } else if mech_type == 1 || mech_type == 10 {
        targets matches Targets::Listed(listed) && listed@ == units
    } else if mech_type == 3 {
        targets == Targets::Melee
    } else if mech_type == 4 {
        targets == Targets::Ranged
    } else {
        targets matches Targets::Refused(reason) && reason@ == category_refusal(mech_type, who)
    }
}

/// Whether `units` holds `name`.
pub fn lists_name(units: &Vec<String>, name: &String) -> (result: bool)
    ensures
        result == lists(units@, name@),
{
    let mut i: usize = 0;
    while i < units.len()
        invariant
            i <= units.len(),
            forall|k: int| 0 <= k < i ==> units[k]@ != name@,
        decreases units.len() - i,
    {
        if units[i] == *name {
            return true;
        }
        i = i + 1;
    }
    false
}

/// A copy of a list of names.
pub fn copy_names(units: &Vec<String>) -> (copy: Vec<String>)
    ensures
        copy@ == units@,
{
    let mut copy: Vec<String> = Vec::new();
    let mut i: usize = 0;
    while i < units.len()
        invariant
            i <= units.len(),
            copy@ == units@.take(i as int),
        decreases units.len() - i,
    {
        copy.push(units[i].clone());
        assert(copy@ =~= units@.take(i as int + 1));
        i = i + 1;
    }
    assert(units@.take(units.len() as int) =~= units@);
    copy
}

impl Targets {
    /// The category `mech_type` names, for a row `who` describes.
    ///
    /// Category 11 corrects a tower, a shield or a mine; it is refused so that
    /// a row of it is never applied to every unit.
    pub fn of(mech_type: i32, units: &Vec<String>, who: &str) -> (targets: Self)
        ensures
            targets_of(targets, mech_type as int, units@, who@),
    {
        match mech_type {
            0 => Targets::Every,
            1 | 10 => Targets::Listed(copy_names(units)),
            3 => Targets::Melee,
            4 => Targets::Ranged,
            11 => Targets::Refused(join(who, " corrects a tower, a shield or a mine rather than a unit")),
            other => {
                let head = join(who, " targets mech_type ");
                let number = decimal(other as i64);
                Targets::Refused(join3(head.as_str(), number.as_str(), ", which this build does not read"))
            },
        }
    }

    /// Whether the row writes onto this unit, or the refusal of a category
    /// this build does not resolve.
    pub fn reaches(&self, unit: &UnitConfig) -> (result: Result<bool, Error>)
        ensures
            match self {
                Targets::Every => result == Ok::<bool, Error>(true),
                Targets::Listed(units) => result == Ok::<bool, Error>(lists(units@, unit.name@)),
                Targets::Melee => result == Ok::<bool, Error>(unit.attack.melee),
                Targets::Ranged => result == Ok::<bool, Error>(!unit.attack.melee),
                Targets::Refused(reason) => result matches Err(error) && error.message@ == reason@,
            },
    {
        match self {
            Targets::Every => Ok(true),
            Targets::Listed(units) => Ok(lists_name(units, &unit.name)),
            Targets::Melee => Ok(unit.attack.melee),
            Targets::Ranged => Ok(!unit.attack.melee),
            Targets::Refused(reason) => Err(Error::new(reason.clone())),
        }
    }
}

} // verus!
