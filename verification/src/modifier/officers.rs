//! What an officer writes onto a unit, and onto which units.
//!
//! The officer effect table is the build's own, one row an officer. This turns
//! a row into the corrections a unit's numbers take, for the units the row
//! reaches.
//!
//! An officer this build cannot apply is refused by name rather than partly
//! applied: a field that corrects a number no mechanism here reads, or a
//! targeting category the build's data does not enumerate. A fight is not
//! fought with half an officer on it.

use std::collections::BTreeMap;

use vstd::prelude::*;

use crate::Error;
use crate::data::{Channel, Correction, Entry, Index};
use crate::modifier::effects::{
    KILLS, PROJECTILE, SPLASH, VALUE_ELSEWHERE, Fields, corrections, corrections_spec, fields_routable,
};
use crate::modifier::targets::{copy_names, lists, lists_name};
use crate::text::{decimal, decimal_spec, debug_quoted, debug_text, join, join3, trimmed, trimmed_spec};

verus! {

broadcast use {vstd::std_specs::btree::group_btree_axioms, vstd::laws_cmp::group_laws_cmp};

/// The module that tags every entry a loadout writes, so that taking the
/// loadout away takes its corrections with it.
pub const SOURCE: &'static str = "Modifier";

/// Why a field that belongs to a tower, a shield, a mine, a clock or a side
/// is refused.
pub const ELSEWHERE: &'static str = "it corrects a tower, a shield, a mine, a deployment clock or a side's experience rather than a unit's own number, and no mechanism here reads one";

/// One row of the officer effect table, with every field the table writes.
#[derive(Debug, Clone)]
pub struct OfficerRow {
    pub id: i32,
    pub name: String,
    pub mech_type: i32,
    pub units: Vec<String>,
    pub damage_rate: Option<i64>,
    pub damage_rate_by_kill_count: Option<i64>,
    pub life_rate: Option<i64>,
    pub life_rate_by_kill_count: Option<i64>,
    pub attack_interval_rate: Option<i64>,
    pub attack_range_rate: Option<i64>,
    pub projectile_life_rate: Option<i64>,
    pub tower_life_rate: Option<i64>,
    pub energy_shield_rate: Option<i64>,
    pub land_mine_rate: Option<i64>,
    pub super_deployment_time_rate: Option<i64>,
    pub attack_range_value: Option<i64>,
    pub min_attack_range_value: Option<i64>,
    pub attack_interval_value: Option<i64>,
    pub splash_range_value: Option<i64>,
    pub projectile_speed_value: Option<i64>,
    pub speed_value: Option<i64>,
    pub extra_life: Option<i64>,
    pub exp_rate: Option<i64>,
}

/// The officer effect table as it was read: what it declares itself to be,
/// and its rows.
#[derive(Debug, Clone)]
pub struct OfficerTable {
    pub schema: String,
    pub game_build: String,
    pub officers: Vec<OfficerRow>,
}

/// Which units an officer reaches.
#[derive(Debug, Clone)]
pub enum Targets {
    /// Category 0: every unit.
    Every,
    /// Categories 1 and 10: the units the row lists.
    Listed(Vec<String>),
    /// A category this build does not resolve, with what to say about it.
    Refused(String),
}

/// One officer's combat effect.
#[derive(Debug)]
pub struct Officer {
    /// Which units the row reaches.
    pub targets: Targets,
    /// What it writes, or why this build will not apply it. The table loads
    /// whole either way: an officer nobody holds refuses nothing.
    pub effect: Result<Vec<(Channel, Index, Correction)>, String>,
}

/// The fields a row shares with every other source of corrections.
pub open spec fn row_fields(row: OfficerRow) -> Fields {
    Fields {
        life_rate: row.life_rate,
        damage_rate: row.damage_rate,
        attack_range_rate: row.attack_range_rate,
        attack_interval_rate: row.attack_interval_rate,
        attack_range_value: row.attack_range_value,
        attack_interval_value: row.attack_interval_value,
        speed_value: row.speed_value,
    }
}

/// The fields only an officer carries, each with its name and why it is
/// refused, in the order they are asked.
pub open spec fn unsupported_fields(row: OfficerRow) -> Seq<(Option<i64>, Seq<char>, Seq<char>)> {
    seq![
        (row.min_attack_range_value, "min_attack_range_value"@, VALUE_ELSEWHERE@),
        (row.splash_range_value, "splash_range_value"@, SPLASH@),
        (row.projectile_speed_value, "projectile_speed_value"@, PROJECTILE@),
        (row.projectile_life_rate, "projectile_life_rate"@, PROJECTILE@),
        (row.damage_rate_by_kill_count, "damage_rate_by_kill_count"@, KILLS@),
        (row.life_rate_by_kill_count, "life_rate_by_kill_count"@, KILLS@),
        (row.tower_life_rate, "tower_life_rate"@, ELSEWHERE@),
        (row.energy_shield_rate, "energy_shield_rate"@, ELSEWHERE@),
        (row.land_mine_rate, "land_mine_rate"@, ELSEWHERE@),
        (row.super_deployment_time_rate, "super_deployment_time_rate"@, ELSEWHERE@),
        (row.extra_life, "extra_life"@, ELSEWHERE@),
        (row.exp_rate, "exp_rate"@, ELSEWHERE@),
    ]
}

/// Whether an optional field is set to something other than zero.
pub open spec fn nonzero(value: Option<i64>) -> bool {
    value matches Some(v) && v != 0
}

/// The first of these fields that is set, from position `from` on, as its
/// name and why it is refused.
pub open spec fn first_set(fields: Seq<(Option<i64>, Seq<char>, Seq<char>)>, from: int) -> Option<
    (Seq<char>, Seq<char>),
>
    decreases fields.len() - from,
{
    if from >= fields.len() || from < 0 {
        None
    } else if nonzero(fields[from].0) {
        Some((fields[from].1, fields[from].2))
    } else {
        first_set(fields, from + 1)
    }
}

/// How a row names its officer in a refusal.
pub open spec fn officer_named(row: OfficerRow) -> Seq<char> {
    "officer "@ + decimal_spec(row.id as int) + " ("@ + row.name@ + ")"@
}

/// Why a row's effect is refused, if it is.
pub open spec fn officer_block(row: OfficerRow) -> Option<Seq<char>> {
    match first_set(unsupported_fields(row), 0) {
        Some((field, why)) => Some(officer_named(row) + " writes "@ + field + ", and "@ + why),
        None => None,
    }
}

/// Whether `effect` is what a row writes, or its refusal.
pub open spec fn effect_of(effect: Result<Vec<(Channel, Index, Correction)>, String>, row: OfficerRow) -> bool {
    match officer_block(row) {
        Some(why) => effect matches Err(reason) && reason@ == why,
        None => effect matches Ok(written) && written@ == corrections_spec(row_fields(row)),
    }
}

/// Whether `targets` is the category a row names.
pub open spec fn officer_targets_of(targets: Targets, row: OfficerRow) -> bool {
    if row.mech_type == 0 {
        targets == Targets::Every
    } else if row.mech_type == 1 || row.mech_type == 10 {
        targets matches Targets::Listed(listed) && listed@ == row.units@
    } else if row.mech_type == 11 {
        targets matches Targets::Refused(reason) && reason@ == officer_named(row)
            + " corrects a tower, a shield or a mine rather than a unit"@
    } else if row.mech_type == 4 {
        targets matches Targets::Refused(reason) && reason@ == officer_named(row)
            + " targets ranged units, which neither the build's data nor docs/rules/officer_effects.md enumerates"@
    } else {
        targets matches Targets::Refused(reason) && reason@ == officer_named(row) + " targets mech_type "@
            + decimal_spec(row.mech_type as int) + ", which this build does not read"@
    }
}

/// Whether `officer` is what a row makes of one.
pub open spec fn officer_of(officer: Officer, row: OfficerRow) -> bool {
    officer_targets_of(officer.targets, row) && effect_of(officer.effect, row)
}

/// Whether every rate of a row can be routed by its sign.
pub open spec fn row_routable(row: OfficerRow) -> bool {
    fields_routable(row_fields(row))
}

/// How a row names its officer in a refusal.
fn named(row: &OfficerRow) -> (text: String)
    ensures
        text@ == officer_named(*row),
{
    let number = decimal(row.id as i64);
    let head = join3("officer ", number.as_str(), " (");
    join3(head.as_str(), row.name.as_str(), ")")
}

/// What a row writes, or why this build will not apply it.
///
/// The fields an officer shares with every other source are the shared
/// ones'; the ones only an officer carries are refused here, each with what
/// it would take to support it.
pub fn corrections_of(row: &OfficerRow) -> (effect: Result<Vec<(Channel, Index, Correction)>, String>)
    requires
        row_routable(*row),
    ensures
        effect_of(effect, *row),
{
    let unsupported: Vec<(Option<i64>, &str, &str)> = vec![
        (row.min_attack_range_value, "min_attack_range_value", VALUE_ELSEWHERE),
        (row.splash_range_value, "splash_range_value", SPLASH),
        (row.projectile_speed_value, "projectile_speed_value", PROJECTILE),
        (row.projectile_life_rate, "projectile_life_rate", PROJECTILE),
        (row.damage_rate_by_kill_count, "damage_rate_by_kill_count", KILLS),
        (row.life_rate_by_kill_count, "life_rate_by_kill_count", KILLS),
        (row.tower_life_rate, "tower_life_rate", ELSEWHERE),
        (row.energy_shield_rate, "energy_shield_rate", ELSEWHERE),
        (row.land_mine_rate, "land_mine_rate", ELSEWHERE),
        (row.super_deployment_time_rate, "super_deployment_time_rate", ELSEWHERE),
        (row.extra_life, "extra_life", ELSEWHERE),
        (row.exp_rate, "exp_rate", ELSEWHERE),
    ];
    let ghost listed = unsupported_fields(*row);
    assert(unsupported@.len() == listed.len());
    assert(forall|k: int| 0 <= k < listed.len() ==> unsupported@[k].0 == listed[k].0
        && unsupported@[k].1@ == listed[k].1 && unsupported@[k].2@ == listed[k].2);
    let mut k: usize = 0;
    while k < unsupported.len()
        invariant
            k <= unsupported.len(),
            unsupported@.len() == listed.len(),
            listed == unsupported_fields(*row),
            forall|a: int| 0 <= a < listed.len() ==> unsupported@[a].0 == listed[a].0
                && unsupported@[a].1@ == listed[a].1 && unsupported@[a].2@ == listed[a].2,
            first_set(listed, 0) == first_set(listed, k as int),
        decreases unsupported.len() - k,
    {
        let (value, field, why) = unsupported[k];
        let is_set = match value {
            Some(v) => v != 0,
            None => false,
        };
        if is_set {
            let head = join3(named(row).as_str(), " writes ", field);
            return Err(join3(head.as_str(), ", and ", why));
        }
        k = k + 1;
    }
    Ok(
        corrections(
            Fields {
                life_rate: row.life_rate,
                damage_rate: row.damage_rate,
                attack_range_rate: row.attack_range_rate,
                attack_interval_rate: row.attack_interval_rate,
                attack_range_value: row.attack_range_value,
                attack_interval_value: row.attack_interval_value,
                speed_value: row.speed_value,
            },
        ),
    )
}

/// Whether an officer reaches a unit of type `unit_type`, or the refusal of a
/// category this build does not resolve.
pub open spec fn officer_reaches(officer: Officer, unit_type: Seq<char>) -> Result<bool, Seq<char>> {
    match officer.targets {
        Targets::Every => Ok(true),
        Targets::Listed(units) => Ok(lists(units@, unit_type)),
        Targets::Refused(reason) => Err(reason@),
    }
}

impl Officer {
    /// The officer a row describes.
    pub fn of(row: &OfficerRow) -> (officer: Self)
        requires
            row_routable(*row),
        ensures
            officer_of(officer, *row),
    {
        let targets = match row.mech_type {
            0 => Targets::Every,
            1 | 10 => Targets::Listed(copy_names(&row.units)),
            11 => Targets::Refused(join(named(row).as_str(), " corrects a tower, a shield or a mine rather than a unit")),
            4 => Targets::Refused(
                join(
                    named(row).as_str(),
                    " targets ranged units, which neither the build's data nor docs/rules/officer_effects.md enumerates",
                ),
            ),
            other => {
                let head = join(named(row).as_str(), " targets mech_type ");
                let number = decimal(other as i64);
                Targets::Refused(join3(head.as_str(), number.as_str(), ", which this build does not read"))
            },
        };
        Officer { targets, effect: corrections_of(row) }
    }

    /// Whether this officer writes onto the given unit type.
    ///
    /// A refused category is an error only where the caller asks, which it
    /// does only for an officer that writes something.
    pub fn reaches(&self, unit_type: &str) -> (result: Result<bool, Error>)
        ensures
            match officer_reaches(*self, unit_type@) {
                Ok(reached) => result == Ok::<bool, Error>(reached),
                Err(reason) => result matches Err(error) && error.message@ == reason,
            },
    {
        match &self.targets {
            Targets::Every => Ok(true),
            Targets::Listed(units) => Ok(lists_name(units, &String::from_str(unit_type))),
            Targets::Refused(reason) => Err(Error::new(reason.clone())),
        }
    }
}

/// Every officer's combat effect, by the id a layout compiles to.
#[derive(Debug)]
pub struct OfficerEffects {
    pub officers: BTreeMap<i32, Officer>,
}

/// The first row, looking at the first `count`, whose id an earlier row
/// already holds.
pub open spec fn first_repeat(ids: Seq<i32>, count: int) -> Option<int>
    decreases count,
{
    if count <= 0 {
        None
    } else if first_repeat(ids, count - 1) is Some {
        first_repeat(ids, count - 1)
    } else if exists|j: int| 0 <= j < count - 1 && #[trigger] ids[j] == ids[count - 1] {
        Some(count - 1)
    } else {
        None
    }
}

/// The ids of a table's rows, in order.
pub open spec fn officer_ids(rows: Seq<OfficerRow>) -> Seq<i32> {
    rows.map_values(|row: OfficerRow| row.id)
}

/// Whether `officers` holds exactly the rows' officers, each by its id.
pub open spec fn officers_hold(officers: Map<i32, Officer>, rows: Seq<OfficerRow>) -> bool {
    &&& forall|id: i32| officers.contains_key(id) <==> exists|k: int| 0 <= k < rows.len() && rows[k].id == id
    &&& forall|k: int| 0 <= k < rows.len() ==> officer_of(#[trigger] officers[rows[k].id], rows[k])
}

/// What an officer writes onto a unit, tagged with its source.
pub open spec fn tagged(written: Seq<(Channel, Index, Correction)>) -> Seq<(Channel, Entry)> {
    written.map_values(
        |entry: (Channel, Index, Correction)|
            (entry.0, Entry { index: entry.1, source: SOURCE, correction: entry.2 }),
    )
}

/// What one held officer writes onto a unit of type `unit_type`, or why the
/// side holding it is refused.
pub open spec fn officer_step(officer: Officer, unit_type: Seq<char>) -> Result<Seq<(Channel, Entry)>, Seq<char>> {
    match officer.effect {
        Err(why) => Err(why@),
        Ok(written) => if written.len() == 0 {
            Ok(Seq::empty())
        } else {
            match officer_reaches(officer, unit_type) {
                Err(reason) => Err(reason),
                Ok(false) => Ok(Seq::empty()),
                Ok(true) => Ok(tagged(written@)),
            }
        },
    }
}

/// Everything the officers `held` write onto a unit of type `unit_type`, in
/// the order they are held, or the first refusal.
pub open spec fn officer_corrections(officers: Map<i32, Officer>, held: Seq<i32>, unit_type: Seq<char>) -> Result<
    Seq<(Channel, Entry)>,
    Seq<char>,
>
    decreases held.len(),
{
    if held.len() == 0 {
        Ok(Seq::empty())
    } else {
        match officer_corrections(officers, held.drop_last(), unit_type) {
            Err(reason) => Err(reason),
            Ok(earlier) => if !officers.contains_key(held.last()) {
                Ok(earlier)
            } else {
                match officer_step(officers[held.last()], unit_type) {
                    Err(reason) => Err(reason),
                    Ok(written) => Ok(earlier + written),
                }
            },
        }
    }
}

impl OfficerEffects {
    /// The effects of a table as it was read, once it is known to be the
    /// table this build reads and to hold each officer once.
    pub fn load(table: OfficerTable) -> (result: Result<Self, Error>)
        requires
            forall|k: int| 0 <= k < table.officers.len() ==> row_routable(#[trigger] table.officers[k]),
        ensures
            table.schema@ != "mechcore.officer_effects"@ ==> (result matches Err(error) && error.message@
                == "officer effect table declares schema "@ + debug_quoted(table.schema@)),
            table.schema@ == "mechcore.officer_effects"@ && trimmed_spec(table.game_build@).len() == 0
                ==> (result matches Err(error) && error.message@
                == "officer effect table declares no game build"@),
            table.schema@ == "mechcore.officer_effects"@ && trimmed_spec(table.game_build@).len() != 0
                ==> match first_repeat(officer_ids(table.officers@), table.officers.len() as int) {
                Some(k) => (result matches Err(error) && error.message@ == "officer effect table holds officer "@
                    + decimal_spec(table.officers[k].id as int) + " twice"@),
                None => (result matches Ok(effects) && officers_hold(effects.officers@, table.officers@)),
            },
    {
        if !(table.schema == String::from_str("mechcore.officer_effects")) {
            let quoted = debug_text(table.schema.as_str());
            return Err(Error::new(join("officer effect table declares schema ", quoted.as_str())));
        }
        if trimmed(table.game_build.as_str()).is_empty() {
            return Err(Error::new(String::from_str("officer effect table declares no game build")));
        }
        let rows = &table.officers;
        let ghost ids = officer_ids(rows@);
        let mut officers: BTreeMap<i32, Officer> = BTreeMap::new();
        let mut i: usize = 0;
        while i < rows.len()
            invariant
                i <= rows.len(),
                ids == officer_ids(rows@),
                rows@ == table.officers@,
                table.schema@ == "mechcore.officer_effects"@,
                trimmed_spec(table.game_build@).len() != 0,
                forall|k: int| 0 <= k < rows.len() ==> row_routable(#[trigger] rows[k]),
                first_repeat(ids, i as int) is None,
                forall|id: i32| officers@.contains_key(id) <==> exists|k: int| 0 <= k < i && rows[k].id == id,
                forall|k: int| 0 <= k < i ==> officer_of(#[trigger] officers@[rows[k].id], rows[k]),
            decreases rows.len() - i,
        {
            let id = rows[i].id;
            let officer = Officer::of(&rows[i]);
            let previous = officers.insert(id, officer);
            if previous.is_some() {
                proof {
                    let j = choose|j: int| 0 <= j < i && rows[j].id == id;
                    assert(ids[j] == ids[i as int]);
                    lemma_first_repeat_settles(ids, i + 1, rows.len() as int);
                }
                let number = decimal(id as i64);
                return Err(Error::new(join3("officer effect table holds officer ", number.as_str(), " twice")));
            }
            proof {
                assert(!(exists|j: int| 0 <= j < i && ids[j] == ids[i as int])) by {
                    if exists|j: int| 0 <= j < i && ids[j] == ids[i as int] {
                        let j = choose|j: int| 0 <= j < i && ids[j] == ids[i as int];
                        assert(rows[j].id == id);
                    }
                }
                assert forall|k: int| 0 <= k < i + 1 implies officer_of(#[trigger] officers@[rows[k].id], rows[k]) by {
                    if k < i {
                        assert(rows[k].id != id);
                    }
                }
            }
            i = i + 1;
        }
        Ok(OfficerEffects { officers })
    }

    /// Every correction the officers `held` write onto one unit type, in the
    /// order they are held.
    ///
    /// An id the table does not hold writes nothing: the table carries the
    /// officers that correct a unit's numbers. An officer whose effect is
    /// refused, or which writes something and whose category is refused,
    /// refuses the whole answer by name rather than being partly applied.
    pub fn corrections(&self, held: &Vec<i32>, unit_type: &str) -> (result: Result<Vec<(Channel, Entry)>, Error>)
        ensures
            match officer_corrections(self.officers@, held@, unit_type@) {
                Ok(written) => (result matches Ok(list) && list@ == written),
                Err(reason) => (result matches Err(error) && error.message@ == reason),
            },
    {
        let mut written: Vec<(Channel, Entry)> = Vec::new();
        let mut i: usize = 0;
        while i < held.len()
            invariant
                i <= held.len(),
                officer_corrections(self.officers@, held@.take(i as int), unit_type@) == Ok::<
                    Seq<(Channel, Entry)>,
                    Seq<char>,
                >(written@),
            decreases held.len() - i,
        {
            assert(held@.take(i as int + 1).drop_last() =~= held@.take(i as int));
            let id = held[i];
            match self.officers.get(&id) {
                None => {},
                Some(officer) => {
                    match &officer.effect {
                        Err(why) => {
                            proof {
                                lemma_officer_corrections_settle(self.officers@, held@, unit_type@, i + 1);
                            }
                            return Err(Error::new(why.clone()));
                        },
                        Ok(list) => {
                            if list.len() != 0 {
                                let reached = officer.reaches(unit_type);
                                match reached {
                                    Err(error) => {
                                        proof {
                                            lemma_officer_corrections_settle(
                                                self.officers@,
                                                held@,
                                                unit_type@,
                                                i + 1,
                                            );
                                        }
                                        return Err(error);
                                    },
                                    Ok(false) => {},
                                    Ok(true) => {
                                        let ghost before = written@;
                                        let mut j: usize = 0;
                                        while j < list.len()
                                            invariant
                                                j <= list.len(),
                                                written@ == before + tagged(list@).take(j as int),
                                            decreases list.len() - j,
                                        {
                                            let (channel, index, correction) = list[j];
                                            written.push(
                                                (channel, Entry { index, source: SOURCE, correction }),
                                            );
                                            assert(tagged(list@).take(j as int + 1) =~= tagged(list@).take(
                                                j as int,
                                            ).push(tagged(list@)[j as int]));
                                            j = j + 1;
                                        }
                                        assert(tagged(list@).take(list.len() as int) =~= tagged(list@));
                                    },
                                }
                            }
                        },
                    }
                },
            }
            i = i + 1;
        }
        assert(held@.take(held.len() as int) =~= held@);
        Ok(written)
    }
}

/// Once the first ids of a table repeat one another, every longer prefix
/// finds the same repeat first.
pub proof fn lemma_first_repeat_settles(ids: Seq<i32>, count: int, longer: int)
    requires
        first_repeat(ids, count) is Some,
        count <= longer,
    ensures
        first_repeat(ids, longer) == first_repeat(ids, count),
    decreases longer - count,
{
    if count < longer {
        lemma_first_repeat_settles(ids, count, longer - 1);
    }
}

/// Once an officer held early refuses the answer, holding more changes
/// nothing.
pub proof fn lemma_officer_corrections_settle(
    officers: Map<i32, Officer>,
    held: Seq<i32>,
    unit_type: Seq<char>,
    count: int,
)
    requires
        0 <= count <= held.len(),
        officer_corrections(officers, held.take(count), unit_type) is Err,
    ensures
        officer_corrections(officers, held, unit_type) == officer_corrections(officers, held.take(count), unit_type),
    decreases held.len() - count,
{
    if count < held.len() {
        assert(held.take(count + 1).drop_last() =~= held.take(count));
        lemma_officer_corrections_settle(officers, held, unit_type, count + 1);
    } else {
        assert(held.take(count) =~= held);
    }
}

/// Holding two lists of officers one after the other writes what each list
/// writes, one after the other: an officer held twice writes twice.
pub proof fn lemma_officer_corrections_concatenate(
    officers: Map<i32, Officer>,
    first: Seq<i32>,
    second: Seq<i32>,
    unit_type: Seq<char>,
)
    requires
        officer_corrections(officers, first, unit_type) is Ok,
        officer_corrections(officers, second, unit_type) is Ok,
    ensures
        officer_corrections(officers, first + second, unit_type) == Ok::<Seq<(Channel, Entry)>, Seq<char>>(
            officer_corrections(officers, first, unit_type)->Ok_0 + officer_corrections(officers, second, unit_type)->Ok_0,
        ),
    decreases second.len(),
{
    if second.len() == 0 {
        assert(first + second =~= first);
        assert(officer_corrections(officers, first, unit_type)->Ok_0 + Seq::<(Channel, Entry)>::empty()
            =~= officer_corrections(officers, first, unit_type)->Ok_0);
    } else {
        assert((first + second).drop_last() =~= first + second.drop_last());
        assert((first + second).last() == second.last());
        lemma_officer_corrections_concatenate(officers, first, second.drop_last(), unit_type);
        let a = officer_corrections(officers, first, unit_type)->Ok_0;
        let b = officer_corrections(officers, second.drop_last(), unit_type)->Ok_0;
        if officers.contains_key(second.last()) {
            let step = officer_step(officers[second.last()], unit_type)->Ok_0;
            assert(a + b + step =~= a + (b + step));
        }
    }
}


/// Holding two lists of officers one after the other answers what the first
/// list answers when it is refused; else what the second answers when it is
/// refused; else what each writes, one after the other.
pub proof fn lemma_officer_lists_held_in_turn(
    officers: Map<i32, Officer>,
    first: Seq<i32>,
    second: Seq<i32>,
    unit_type: Seq<char>,
)
    ensures
        officer_corrections(officers, first + second, unit_type) == match officer_corrections(officers, first, unit_type) {
            Err(reason) => Err(reason),
            Ok(before) => match officer_corrections(officers, second, unit_type) {
                Err(reason) => Err(reason),
                Ok(after) => Ok::<Seq<(Channel, Entry)>, Seq<char>>(before + after),
            },
        },
    decreases second.len(),
{
    if second.len() == 0 {
        assert(first + second =~= first);
        if let Ok(before) = officer_corrections(officers, first, unit_type) {
            assert(before + Seq::<(Channel, Entry)>::empty() =~= before);
        }
    } else {
        assert((first + second).drop_last() =~= first + second.drop_last());
        assert((first + second).last() == second.last());
        lemma_officer_lists_held_in_turn(officers, first, second.drop_last(), unit_type);
        if let Ok(before) = officer_corrections(officers, first, unit_type) {
            if let Ok(middle) = officer_corrections(officers, second.drop_last(), unit_type) {
                if officers.contains_key(second.last()) {
                    if let Ok(step) = officer_step(officers[second.last()], unit_type) {
                        assert(before + middle + step =~= before + (middle + step));
                    }
                }
            }
        }
    }
}

} // verus!
