//! What a technology writes onto the unit that researched it.
//!
//! The technology effect table is the build's own. Its fields are the ones an
//! officer writes, because both answer the same interface. A technology
//! belongs to one unit type, and writes onto the units its row names and onto
//! nothing else.
//!
//! An effect is a list indexed by the unit's rank, and this reads rank one. A
//! technology whose list holds more than one entry is refused rather than read
//! at index zero, because which index a fight reads for a given rank is not
//! established.

use std::collections::BTreeMap;

use vstd::prelude::*;

use crate::Error;
use crate::data::{Channel, Correction, Entry, Index};
use crate::modifier::effects::{
    PROJECTILE, SPLASH, VALUE_ELSEWHERE, Fields, corrections, corrections_spec, fields_routable,
};
use crate::modifier::officers::{SOURCE, first_repeat, lemma_first_repeat_settles, tagged};
use crate::text::{decimal, decimal_spec, debug_quoted, debug_text, join, join3};

verus! {

broadcast use {vstd::std_specs::btree::group_btree_axioms, vstd::laws_cmp::group_laws_cmp};

/// One row of the technology effect table. Every effect is a list because a
/// technology's effect can grow with the unit's rank.
#[derive(Debug, Clone)]
pub struct TechnologyRow {
    pub id: i32,
    pub name: String,
    pub unit: String,
    pub life_rate: Vec<i64>,
    pub damage_rate: Vec<i64>,
    pub speed_value: Vec<i64>,
    pub min_attack_range_value: Vec<i64>,
    pub attack_range_value: Vec<i64>,
    pub attack_range_rate: Vec<i64>,
    pub attack_interval_value: Vec<i64>,
    pub attack_interval_rate: Vec<i64>,
    pub splash_range_value: Vec<i64>,
    pub projectile_speed_value: Vec<i64>,
    pub projectile_life_rate: Vec<i64>,
}

/// The technology effect table as it was read.
#[derive(Debug, Clone)]
pub struct TechnologyTable {
    pub schema: String,
    pub technologies: Vec<TechnologyRow>,
}

/// One technology's combat effect.
#[derive(Debug)]
pub struct Technology {
    /// The unit type whose numbers it corrects.
    pub unit: String,
    /// What it writes, or why this build will not apply it.
    pub effect: Result<Vec<(Channel, Index, Correction)>, String>,
}

/// What a list holds at rank one, when that is set.
pub open spec fn at_rank_one(values: Seq<i64>) -> Option<i64> {
    if values.len() > 0 && values[0] != 0 {
        Some(values[0])
    } else {
        None
    }
}

/// The fields a row writes at rank one.
pub open spec fn technology_fields(row: TechnologyRow) -> Fields {
    Fields {
        life_rate: at_rank_one(row.life_rate@),
        damage_rate: at_rank_one(row.damage_rate@),
        attack_range_rate: at_rank_one(row.attack_range_rate@),
        attack_interval_rate: at_rank_one(row.attack_interval_rate@),
        attack_range_value: at_rank_one(row.attack_range_value@),
        attack_interval_value: at_rank_one(row.attack_interval_value@),
        speed_value: at_rank_one(row.speed_value@),
    }
}

/// Every list of a row, with its name, in the order they are asked.
pub open spec fn technology_lists(row: TechnologyRow) -> Seq<(Seq<i64>, Seq<char>)> {
    seq![
        (row.life_rate@, "life_rate"@),
        (row.damage_rate@, "damage_rate"@),
        (row.speed_value@, "speed_value"@),
        (row.min_attack_range_value@, "min_attack_range_value"@),
        (row.attack_range_value@, "attack_range_value"@),
        (row.attack_range_rate@, "attack_range_rate"@),
        (row.attack_interval_value@, "attack_interval_value"@),
        (row.attack_interval_rate@, "attack_interval_rate"@),
        (row.splash_range_value@, "splash_range_value"@),
        (row.projectile_speed_value@, "projectile_speed_value"@),
        (row.projectile_life_rate@, "projectile_life_rate"@),
    ]
}

/// The lists only a few sources carry, each with why it is refused.
pub open spec fn technology_unsupported(row: TechnologyRow) -> Seq<(Seq<i64>, Seq<char>, Seq<char>)> {
    seq![
        (row.min_attack_range_value@, "min_attack_range_value"@, VALUE_ELSEWHERE@),
        (row.splash_range_value@, "splash_range_value"@, SPLASH@),
        (row.projectile_speed_value@, "projectile_speed_value"@, PROJECTILE@),
        (row.projectile_life_rate@, "projectile_life_rate"@, PROJECTILE@),
    ]
}

/// The first list, from position `from` on, that holds more than one entry.
pub open spec fn first_growing(lists: Seq<(Seq<i64>, Seq<char>)>, from: int) -> Option<Seq<char>>
    decreases lists.len() - from,
{
    if from >= lists.len() || from < 0 {
        None
    } else if lists[from].0.len() > 1 {
        Some(lists[from].1)
    } else {
        first_growing(lists, from + 1)
    }
}

/// Whether a list holds anything but zero.
pub open spec fn any_set(values: Seq<i64>) -> bool {
    exists|i: int| 0 <= i < values.len() && values[i] != 0
}

/// The first list, from position `from` on, that holds anything but zero, as
/// its name and why it is refused.
pub open spec fn first_nonzero(lists: Seq<(Seq<i64>, Seq<char>, Seq<char>)>, from: int) -> Option<
    (Seq<char>, Seq<char>),
>
    decreases lists.len() - from,
{
    if from >= lists.len() || from < 0 {
        None
    } else if any_set(lists[from].0) {
        Some((lists[from].1, lists[from].2))
    } else {
        first_nonzero(lists, from + 1)
    }
}

/// How a row names its technology in a refusal.
pub open spec fn technology_named(row: TechnologyRow) -> Seq<char> {
    "technology "@ + decimal_spec(row.id as int) + " ("@ + row.name@ + ")"@
}

/// Why a row's effect is refused, if it is.
pub open spec fn technology_block(row: TechnologyRow) -> Option<Seq<char>> {
    match first_growing(technology_lists(row), 0) {
        Some(field) => Some(technology_named(row)
            + " grows with the unit's rank, and which entry of "@ + field
            + " a fight reads for a given rank is not established: see the unresolved questions in docs/rules/technology_effects.md"@),
        None => match first_nonzero(technology_unsupported(row), 0) {
            Some((field, why)) => Some(technology_named(row) + " writes "@ + field + ", and "@ + why),
            None => None,
        },
    }
}

/// Whether `effect` is what a row writes at rank one, or its refusal.
pub open spec fn technology_effect_of(effect: Result<Vec<(Channel, Index, Correction)>, String>, row: TechnologyRow) -> bool {
    match technology_block(row) {
        Some(why) => effect matches Err(reason) && reason@ == why,
        None => effect matches Ok(written) && written@ == corrections_spec(technology_fields(row)),
    }
}

/// Whether every rate of a row at rank one can be routed by its sign.
pub open spec fn technology_routable(row: TechnologyRow) -> bool {
    fields_routable(technology_fields(row))
}

/// The value a list holds at rank one, when that is set.
fn rank_one(values: &Vec<i64>) -> (result: Option<i64>)
    ensures
        result == at_rank_one(values@),
{
    if values.len() > 0 && values[0] != 0 {
        Some(values[0])
    } else {
        None
    }
}

/// Whether a list holds anything but zero.
fn holds_nonzero(values: &Vec<i64>) -> (result: bool)
    ensures
        result == any_set(values@),
{
    let mut i: usize = 0;
    while i < values.len()
        invariant
            i <= values.len(),
            forall|k: int| 0 <= k < i ==> values[k] == 0,
        decreases values.len() - i,
    {
        if values[i] != 0 {
            return true;
        }
        i = i + 1;
    }
    false
}

/// How a row names its technology in a refusal.
fn technology_name(row: &TechnologyRow) -> (text: String)
    ensures
        text@ == technology_named(*row),
{
    let number = decimal(row.id as i64);
    let head = join3("technology ", number.as_str(), " (");
    join3(head.as_str(), row.name.as_str(), ")")
}

/// What a row writes at rank one, or why this build will not apply it.
pub fn corrections_of(row: &TechnologyRow) -> (effect: Result<Vec<(Channel, Index, Correction)>, String>)
    requires
        technology_routable(*row),
    ensures
        technology_effect_of(effect, *row),
{
    let every: Vec<(&Vec<i64>, &str)> = vec![
        (&row.life_rate, "life_rate"),
        (&row.damage_rate, "damage_rate"),
        (&row.speed_value, "speed_value"),
        (&row.min_attack_range_value, "min_attack_range_value"),
        (&row.attack_range_value, "attack_range_value"),
        (&row.attack_range_rate, "attack_range_rate"),
        (&row.attack_interval_value, "attack_interval_value"),
        (&row.attack_interval_rate, "attack_interval_rate"),
        (&row.splash_range_value, "splash_range_value"),
        (&row.projectile_speed_value, "projectile_speed_value"),
        (&row.projectile_life_rate, "projectile_life_rate"),
    ];
    let ghost lists = technology_lists(*row);
    assert(forall|k: int| 0 <= k < lists.len() ==> every@[k].0@ == lists[k].0 && every@[k].1@ == lists[k].1);
    let mut k: usize = 0;
    while k < every.len()
        invariant
            k <= every.len(),
            every@.len() == lists.len(),
            lists == technology_lists(*row),
            forall|a: int| 0 <= a < lists.len() ==> every@[a].0@ == lists[a].0 && every@[a].1@ == lists[a].1,
            first_growing(lists, 0) == first_growing(lists, k as int),
        decreases every.len() - k,
    {
        let (values, field) = every[k];
        if values.len() > 1 {
            let head = join3(technology_name(row).as_str(), " grows with the unit's rank, and which entry of ", field);
            return Err(
                join(
                    head.as_str(),
                    " a fight reads for a given rank is not established: see the unresolved questions in docs/rules/technology_effects.md",
                ),
            );
        }
        k = k + 1;
    }
    let unsupported: Vec<(&Vec<i64>, &str, &str)> = vec![
        (&row.min_attack_range_value, "min_attack_range_value", VALUE_ELSEWHERE),
        (&row.splash_range_value, "splash_range_value", SPLASH),
        (&row.projectile_speed_value, "projectile_speed_value", PROJECTILE),
        (&row.projectile_life_rate, "projectile_life_rate", PROJECTILE),
    ];
    let ghost refused = technology_unsupported(*row);
    assert(forall|a: int| 0 <= a < refused.len() ==> unsupported@[a].0@ == refused[a].0
        && unsupported@[a].1@ == refused[a].1 && unsupported@[a].2@ == refused[a].2);
    let mut k: usize = 0;
    while k < unsupported.len()
        invariant
            k <= unsupported.len(),
            unsupported@.len() == refused.len(),
            refused == technology_unsupported(*row),
            first_growing(technology_lists(*row), 0) is None,
            forall|a: int| 0 <= a < refused.len() ==> unsupported@[a].0@ == refused[a].0
                && unsupported@[a].1@ == refused[a].1 && unsupported@[a].2@ == refused[a].2,
            first_nonzero(refused, 0) == first_nonzero(refused, k as int),
        decreases unsupported.len() - k,
    {
        let (values, field, why) = unsupported[k];
        if holds_nonzero(values) {
            let head = join3(technology_name(row).as_str(), " writes ", field);
            return Err(join3(head.as_str(), ", and ", why));
        }
        k = k + 1;
    }
    Ok(
        corrections(
            Fields {
                life_rate: rank_one(&row.life_rate),
                damage_rate: rank_one(&row.damage_rate),
                attack_range_rate: rank_one(&row.attack_range_rate),
                attack_interval_rate: rank_one(&row.attack_interval_rate),
                attack_range_value: rank_one(&row.attack_range_value),
                attack_interval_value: rank_one(&row.attack_interval_value),
                speed_value: rank_one(&row.speed_value),
            },
        ),
    )
}

/// Every technology's combat effect, by the id a layout compiles to.
#[derive(Debug)]
pub struct TechnologyEffects {
    pub technologies: BTreeMap<i32, Technology>,
}

/// The ids of a table's rows, in order.
pub open spec fn technology_ids(rows: Seq<TechnologyRow>) -> Seq<i32> {
    rows.map_values(|row: TechnologyRow| row.id)
}

/// Whether `technologies` holds exactly the rows' technologies, each by its id.
pub open spec fn technologies_hold(technologies: Map<i32, Technology>, rows: Seq<TechnologyRow>) -> bool {
    &&& forall|id: i32| technologies.contains_key(id) <==> exists|k: int| 0 <= k < rows.len() && rows[k].id == id
    &&& forall|k: int| 0 <= k < rows.len() ==> {
        let technology = #[trigger] technologies[rows[k].id];
        &&& technology.unit@ == rows[k].unit@
        &&& technology_effect_of(technology.effect, rows[k])
    }
}

/// Everything the technologies `held` write onto a unit of type `unit_type`,
/// in the order they are held, or the first refusal. A technology of another
/// unit type writes nothing.
pub open spec fn technology_corrections(
    technologies: Map<i32, Technology>,
    held: Seq<i32>,
    unit_type: Seq<char>,
) -> Result<Seq<(Channel, Entry)>, Seq<char>>
    decreases held.len(),
{
    if held.len() == 0 {
        Ok(Seq::empty())
    } else {
        match technology_corrections(technologies, held.drop_last(), unit_type) {
            Err(reason) => Err(reason),
            Ok(earlier) => if !technologies.contains_key(held.last())
                || technologies[held.last()].unit@ != unit_type {
                Ok(earlier)
            } else {
                match technologies[held.last()].effect {
                    Err(why) => Err(why@),
                    Ok(written) => Ok(earlier + tagged(written@)),
                }
            },
        }
    }
}

/// Once a technology held early refuses the answer, holding more changes
/// nothing.
pub proof fn lemma_technology_corrections_settle(
    technologies: Map<i32, Technology>,
    held: Seq<i32>,
    unit_type: Seq<char>,
    count: int,
)
    requires
        0 <= count <= held.len(),
        technology_corrections(technologies, held.take(count), unit_type) is Err,
    ensures
        technology_corrections(technologies, held, unit_type) == technology_corrections(
            technologies,
            held.take(count),
            unit_type,
        ),
    decreases held.len() - count,
{
    if count < held.len() {
        assert(held.take(count + 1).drop_last() =~= held.take(count));
        lemma_technology_corrections_settle(technologies, held, unit_type, count + 1);
    } else {
        assert(held.take(count) =~= held);
    }
}

impl TechnologyEffects {
    /// The effects of a table as it was read, once it is known to be the
    /// table this build reads and to hold each technology once.
    pub fn load(table: TechnologyTable) -> (result: Result<Self, Error>)
        requires
            forall|k: int| 0 <= k < table.technologies.len() ==> technology_routable(#[trigger] table.technologies[k]),
        ensures
            table.schema@ != "mechcore.technology_effects"@ ==> (result matches Err(error) && error.message@
                == "technology effect table declares schema "@ + debug_quoted(table.schema@)),
            table.schema@ == "mechcore.technology_effects"@ ==> match first_repeat(
                technology_ids(table.technologies@),
                table.technologies.len() as int,
            ) {
                Some(k) => (result matches Err(error) && error.message@
                    == "technology effect table holds technology "@ + decimal_spec(table.technologies[k].id as int)
                    + " twice"@),
                None => (result matches Ok(effects) && technologies_hold(
                    effects.technologies@,
                    table.technologies@,
                )),
            },
    {
        if !(table.schema == String::from_str("mechcore.technology_effects")) {
            let quoted = debug_text(table.schema.as_str());
            return Err(Error::new(join("technology effect table declares schema ", quoted.as_str())));
        }
        let rows = &table.technologies;
        let ghost ids = technology_ids(rows@);
        let mut technologies: BTreeMap<i32, Technology> = BTreeMap::new();
        let mut i: usize = 0;
        while i < rows.len()
            invariant
                i <= rows.len(),
                ids == technology_ids(rows@),
                rows@ == table.technologies@,
                table.schema@ == "mechcore.technology_effects"@,
                forall|k: int| 0 <= k < rows.len() ==> technology_routable(#[trigger] rows[k]),
                first_repeat(ids, i as int) is None,
                forall|id: i32| technologies@.contains_key(id) <==> exists|k: int| 0 <= k < i && rows[k].id == id,
                forall|k: int| 0 <= k < i ==> {
                    let technology = #[trigger] technologies@[rows[k].id];
                    &&& technology.unit@ == rows[k].unit@
                    &&& technology_effect_of(technology.effect, rows[k])
                },
            decreases rows.len() - i,
        {
            let id = rows[i].id;
            let technology = Technology { unit: rows[i].unit.clone(), effect: corrections_of(&rows[i]) };
            let previous = technologies.insert(id, technology);
            if previous.is_some() {
                proof {
                    let j = choose|j: int| 0 <= j < i && rows[j].id == id;
                    assert(ids[j] == ids[i as int]);
                    lemma_first_repeat_settles(ids, i + 1, rows.len() as int);
                }
                let number = decimal(id as i64);
                return Err(
                    Error::new(join3("technology effect table holds technology ", number.as_str(), " twice")),
                );
            }
            proof {
                assert(!(exists|j: int| 0 <= j < i && ids[j] == ids[i as int])) by {
                    if exists|j: int| 0 <= j < i && ids[j] == ids[i as int] {
                        let j = choose|j: int| 0 <= j < i && ids[j] == ids[i as int];
                        assert(rows[j].id == id);
                    }
                }
                assert forall|k: int| 0 <= k < i + 1 implies {
                    let technology = #[trigger] technologies@[rows[k].id];
                    &&& technology.unit@ == rows[k].unit@
                    &&& technology_effect_of(technology.effect, rows[k])
                } by {
                    if k < i {
                        assert(rows[k].id != id);
                    }
                }
            }
            i = i + 1;
        }
        Ok(TechnologyEffects { technologies })
    }

    /// Every correction the technologies `held` write onto one unit type, in
    /// the order they are held.
    ///
    /// An id the table does not hold writes nothing: the table carries the
    /// technologies that correct a unit's numbers. A technology of this unit
    /// type that this build cannot apply refuses the whole answer by name.
    pub fn corrections(&self, held: &Vec<i32>, unit_type: &str) -> (result: Result<Vec<(Channel, Entry)>, Error>)
        ensures
            match technology_corrections(self.technologies@, held@, unit_type@) {
                Ok(written) => (result matches Ok(list) && list@ == written),
                Err(reason) => (result matches Err(error) && error.message@ == reason),
            },
    {
        let wanted = String::from_str(unit_type);
        let mut written: Vec<(Channel, Entry)> = Vec::new();
        let mut i: usize = 0;
        while i < held.len()
            invariant
                i <= held.len(),
                wanted@ == unit_type@,
                technology_corrections(self.technologies@, held@.take(i as int), unit_type@) == Ok::<
                    Seq<(Channel, Entry)>,
                    Seq<char>,
                >(written@),
            decreases held.len() - i,
        {
            assert(held@.take(i as int + 1).drop_last() =~= held@.take(i as int));
            let id = held[i];
            match self.technologies.get(&id) {
                None => {},
                Some(technology) => {
                    if technology.unit == wanted {
                        match &technology.effect {
                            Err(why) => {
                                proof {
                                    lemma_technology_corrections_settle(
                                        self.technologies@,
                                        held@,
                                        unit_type@,
                                        i + 1,
                                    );
                                }
                                return Err(Error::new(why.clone()));
                            },
                            Ok(list) => {
                                let ghost before = written@;
                                let mut j: usize = 0;
                                while j < list.len()
                                    invariant
                                        j <= list.len(),
                                        written@ == before + tagged(list@).take(j as int),
                                    decreases list.len() - j,
                                {
                                    let (channel, index, correction) = list[j];
                                    written.push((channel, Entry { index, source: SOURCE, correction }));
                                    assert(tagged(list@).take(j as int + 1) =~= tagged(list@).take(j as int).push(
                                        tagged(list@)[j as int],
                                    ));
                                    j = j + 1;
                                }
                                assert(tagged(list@).take(list.len() as int) =~= tagged(list@));
                            },
                        }
                    }
                },
            }
            i = i + 1;
        }
        assert(held@.take(held.len() as int) =~= held@);
        Ok(written)
    }
}

/// Holding two lists of technologies one after the other writes what each
/// list writes, one after the other.
pub proof fn lemma_technology_corrections_concatenate(
    technologies: Map<i32, Technology>,
    first: Seq<i32>,
    second: Seq<i32>,
    unit_type: Seq<char>,
)
    requires
        technology_corrections(technologies, first, unit_type) is Ok,
        technology_corrections(technologies, second, unit_type) is Ok,
    ensures
        technology_corrections(technologies, first + second, unit_type) == Ok::<Seq<(Channel, Entry)>, Seq<char>>(
            technology_corrections(technologies, first, unit_type)->Ok_0 + technology_corrections(
                technologies,
                second,
                unit_type,
            )->Ok_0,
        ),
    decreases second.len(),
{
    if second.len() == 0 {
        assert(first + second =~= first);
        assert(technology_corrections(technologies, first, unit_type)->Ok_0 + Seq::<(Channel, Entry)>::empty()
            =~= technology_corrections(technologies, first, unit_type)->Ok_0);
    } else {
        assert((first + second).drop_last() =~= first + second.drop_last());
        assert((first + second).last() == second.last());
        lemma_technology_corrections_concatenate(technologies, first, second.drop_last(), unit_type);
        let a = technology_corrections(technologies, first, unit_type)->Ok_0;
        let b = technology_corrections(technologies, second.drop_last(), unit_type)->Ok_0;
        if technologies.contains_key(second.last()) && technologies[second.last()].unit@ == unit_type {
            let step = tagged(technologies[second.last()].effect->Ok_0@);
            assert(a + b + step =~= a + (b + step));
        }
    }
}


/// Holding two lists of technologies one after the other answers what the
/// first list answers when it is refused; else what the second answers when
/// it is refused; else what each writes, one after the other.
pub proof fn lemma_technology_lists_held_in_turn(
    technologies: Map<i32, Technology>,
    first: Seq<i32>,
    second: Seq<i32>,
    unit_type: Seq<char>,
)
    ensures
        technology_corrections(technologies, first + second, unit_type) == match technology_corrections(
            technologies,
            first,
            unit_type,
        ) {
            Err(reason) => Err(reason),
            Ok(before) => match technology_corrections(technologies, second, unit_type) {
                Err(reason) => Err(reason),
                Ok(after) => Ok::<Seq<(Channel, Entry)>, Seq<char>>(before + after),
            },
        },
    decreases second.len(),
{
    if second.len() == 0 {
        assert(first + second =~= first);
        if let Ok(before) = technology_corrections(technologies, first, unit_type) {
            assert(before + Seq::<(Channel, Entry)>::empty() =~= before);
        }
    } else {
        assert((first + second).drop_last() =~= first + second.drop_last());
        assert((first + second).last() == second.last());
        lemma_technology_lists_held_in_turn(technologies, first, second.drop_last(), unit_type);
        if let Ok(before) = technology_corrections(technologies, first, unit_type) {
            if let Ok(middle) = technology_corrections(technologies, second.drop_last(), unit_type) {
                if technologies.contains_key(second.last()) && technologies[second.last()].unit@ == unit_type {
                    if let Ok(written) = technologies[second.last()].effect {
                        assert(before + middle + tagged(written@) =~= before + (middle + tagged(written@)));
                    }
                }
            }
        }
    }
}

} // verus!
