//! What an equipment writes onto the unit that wears it.
//!
//! The equipment effect table holds the build's ordinary equipment rows. An
//! equipment writes through the writers an officer's correction goes through,
//! so a row becomes the corrections an officer's fields make, in the same
//! channels, and sums with an officer's there.
//!
//! An equipment this build cannot apply is refused by name rather than partly
//! applied: an item of another class, a lifetime this build has not measured,
//! a field no mechanism here reads, and a targeting this build does not
//! resolve.

use std::collections::BTreeMap;

use vstd::prelude::*;

use crate::Error;
use crate::data::{Channel, Correction, Entry, Index};
use crate::modifier::effects::{
    PROJECTILE, SPLASH, VALUE_ELSEWHERE, Fields, corrections, corrections_spec, fields_routable,
};
use crate::modifier::officers::{SOURCE, first_repeat, first_set, lemma_first_repeat_settles, tagged};
use crate::modifier::targets::{Targets, targets_of};
use crate::rules::UnitConfig;
use crate::text::{
    debug_int_list, debug_ints, debug_quoted, debug_text, decimal, decimal_spec, join, join3,
};

verus! {

broadcast use {vstd::std_specs::btree::group_btree_axioms, vstd::laws_cmp::group_laws_cmp};

/// One row of the equipment effect table. Every field but the id, the name
/// and the targeting is zero or false unless the row sets it.
#[derive(Debug, Clone)]
pub struct EquipmentRow {
    pub id: i32,
    pub name: String,
    pub mech_type: Vec<i32>,
    pub units: Vec<i32>,
    pub main_skill_effect: bool,
    pub extra_skill_effect: bool,
    pub permanent_effect: bool,
    pub important_unit: bool,
    pub round_duration: i32,
    pub life_rate: Option<i64>,
    pub damage_rate: Option<i64>,
    pub attack_range_rate: Option<i64>,
    pub attack_interval_rate: Option<i64>,
    pub projectile_life_rate: Option<i64>,
    pub attack_range_value: Option<i64>,
    pub min_attack_range_value: Option<i64>,
    pub attack_interval_value: Option<i64>,
    pub splash_range_value: Option<i64>,
    pub projectile_speed_value: Option<i64>,
    pub speed_value: Option<i64>,
    pub exp_rate: Option<i64>,
    pub grade_upper_limit: Option<i64>,
}

/// The equipment effect table as it was read.
#[derive(Debug, Clone)]
pub struct EquipmentTable {
    pub schema: String,
    pub equipment: Vec<EquipmentRow>,
}

/// One equipment's combat effect.
#[derive(Debug)]
pub struct Equipment {
    /// Which units the row reaches.
    pub targets: Targets,
    /// What it writes, or why this build will not apply it.
    pub effect: Result<Vec<(Channel, Index, Correction)>, String>,
}

/// The fields a row shares with every other source of corrections.
pub open spec fn equipment_fields(row: EquipmentRow) -> Fields {
    Fields {
        life_rate: row.life_rate,
        damage_rate: row.damage_rate,
        attack_range_rate: row.attack_range_rate,
        attack_interval_rate: row.attack_interval_rate,
        attack_range_value: row.attack_range_value,
        attack_interval_value: row.attack_interval_value,
        speed_value: row.speed_value,
    }
}

/// The fields no mechanism here reads, each with why it is refused.
pub open spec fn equipment_unsupported(row: EquipmentRow) -> Seq<(Option<i64>, Seq<char>, Seq<char>)> {
    seq![
        (row.min_attack_range_value, "min_attack_range_value"@, VALUE_ELSEWHERE@),
        (row.splash_range_value, "splash_range_value"@, SPLASH@),
        (row.projectile_speed_value, "projectile_speed_value"@, PROJECTILE@),
        (row.projectile_life_rate, "projectile_life_rate"@, PROJECTILE@),
        (row.exp_rate, "exp_rate"@, VALUE_ELSEWHERE@),
        (row.grade_upper_limit, "grade_upper_limit"@, VALUE_ELSEWHERE@),
    ]
}

/// How a row names its equipment in a refusal.
pub open spec fn equipment_named(row: EquipmentRow) -> Seq<char> {
    "equipment "@ + decimal_spec(row.id as int) + " ("@ + row.name@ + ")"@
}

/// Why a row's effect is refused, if it is, for a row described as `who`.
pub open spec fn equipment_block(row: EquipmentRow, who: Seq<char>) -> Option<Seq<char>> {
    if !row.main_skill_effect {
        Some(who + " leaves the main skill out, and no other skill is simulated"@)
    } else if row.round_duration != 0 {
        Some(who + " sets round_duration, whose effect is not established"@)
    } else if row.permanent_effect {
        Some(who + " sets permanent_effect, whose effect is not established"@)
    } else if row.important_unit {
        Some(who + " sets important_unit, whose effect is not established"@)
    } else {
        match first_set(equipment_unsupported(row), 0) {
            Some((field, why)) => Some(who + " writes "@ + field + ", and "@ + why),
            None => None,
        }
    }
}

/// Whether `effect` is what a row described as `who` writes, or its refusal.
pub open spec fn equipment_effect_of(
    effect: Result<Vec<(Channel, Index, Correction)>, String>,
    row: EquipmentRow,
    who: Seq<char>,
) -> bool {
    match equipment_block(row, who) {
        Some(why) => effect matches Err(reason) && reason@ == why,
        None => effect matches Ok(written) && written@ == corrections_spec(equipment_fields(row)),
    }
}

/// Whether `targets` is what a row's targeting makes, for a row described as
/// `who`: one category and no listed units is that category, anything else
/// is refused.
pub open spec fn equipment_targets_of(targets: Targets, row: EquipmentRow, who: Seq<char>) -> bool {
    if row.mech_type.len() == 1 && row.units.len() == 0 {
        targets_of(targets, row.mech_type[0] as int, Seq::empty(), who)
    } else {
        targets matches Targets::Refused(reason) && reason@ == who + " targets mech_type "@ + debug_int_list(
            row.mech_type@,
        ) + " and units "@ + debug_int_list(row.units@) + ", which this build does not read"@
    }
}

/// Whether `equipment` is what a row makes of one.
pub open spec fn equipment_of(equipment: Equipment, row: EquipmentRow) -> bool {
    &&& equipment_targets_of(equipment.targets, row, equipment_named(row))
    &&& equipment_effect_of(equipment.effect, row, equipment_named(row))
}

/// Whether every rate of a row can be routed by its sign.
pub open spec fn equipment_routable(row: EquipmentRow) -> bool {
    fields_routable(equipment_fields(row))
}

/// What a row written as `who` writes, or why this build will not apply it.
///
/// A unit has one skill here, its main one, so a row reaches it only through
/// its main-skill flag; the extra-skill flag names skills this build does not
/// give a unit and is read neither way.
pub fn corrections_of(row: &EquipmentRow, who: &str) -> (effect: Result<Vec<(Channel, Index, Correction)>, String>)
    requires
        equipment_routable(*row),
    ensures
        equipment_effect_of(effect, *row, who@),
{
    if !row.main_skill_effect {
        return Err(join(who, " leaves the main skill out, and no other skill is simulated"));
    }
    if row.round_duration != 0 {
        return Err(join(who, " sets round_duration, whose effect is not established"));
    }
    if row.permanent_effect {
        return Err(join(who, " sets permanent_effect, whose effect is not established"));
    }
    if row.important_unit {
        return Err(join(who, " sets important_unit, whose effect is not established"));
    }
    let unsupported: Vec<(Option<i64>, &str, &str)> = vec![
        (row.min_attack_range_value, "min_attack_range_value", VALUE_ELSEWHERE),
        (row.splash_range_value, "splash_range_value", SPLASH),
        (row.projectile_speed_value, "projectile_speed_value", PROJECTILE),
        (row.projectile_life_rate, "projectile_life_rate", PROJECTILE),
        (row.exp_rate, "exp_rate", VALUE_ELSEWHERE),
        (row.grade_upper_limit, "grade_upper_limit", VALUE_ELSEWHERE),
    ];
    let ghost listed = equipment_unsupported(*row);
    assert(forall|k: int| 0 <= k < listed.len() ==> unsupported@[k].0 == listed[k].0
        && unsupported@[k].1@ == listed[k].1 && unsupported@[k].2@ == listed[k].2);
    let mut k: usize = 0;
    while k < unsupported.len()
        invariant
            k <= unsupported.len(),
            unsupported@.len() == listed.len(),
            listed == equipment_unsupported(*row),
            row.main_skill_effect && row.round_duration == 0 && !row.permanent_effect && !row.important_unit,
            forall|a: int| 0 <= a < listed.len() ==> unsupported@[a].0 == listed[a].0
                && unsupported@[a].1@ == listed[a].1 && unsupported@[a].2@ == listed[a].2,
            first_set(listed, 0) == first_set(listed, k as int),
        decreases unsupported.len() - k,
    {
        let (value, field, why) = unsupported[k];
        let is_set = match value {
            Some(v) => v != 0,
            None => false,
        };
        if is_set {
            let head = join3(who, " writes ", field);
            return Err(join3(head.as_str(), ", and ", why));
        }
        k = k + 1;
    }
    Ok(
        corrections(
            Fields {
                life_rate: row.life_rate,
                damage_rate: row.damage_rate,
                attack_range_rate: row.attack_range_rate,
                attack_interval_rate: row.attack_interval_rate,
                attack_range_value: row.attack_range_value,
                attack_interval_value: row.attack_interval_value,
                speed_value: row.speed_value,
            },
        ),
    )
}

impl Equipment {
    /// The equipment a row describes.
    pub fn of(row: &EquipmentRow) -> (equipment: Self)
        requires
            equipment_routable(*row),
        ensures
            equipment_of(equipment, *row),
    {
        let number = decimal(row.id as i64);
        let head = join3("equipment ", number.as_str(), " (");
        let who = join3(head.as_str(), row.name.as_str(), ")");
        let targets = if row.mech_type.len() == 1 && row.units.len() == 0 {
            let none: Vec<String> = Vec::new();
            proof {
                assert(none@ =~= Seq::<String>::empty());
            }
            Targets::of(row.mech_type[0], &none, who.as_str())
        } else {
            let kinds = debug_ints(&row.mech_type);
            let units = debug_ints(&row.units);
            let first = join3(who.as_str(), " targets mech_type ", kinds.as_str());
            let second = join3(first.as_str(), " and units ", units.as_str());
            Targets::Refused(join(second.as_str(), ", which this build does not read"))
        };
        let effect = corrections_of(row, who.as_str());
        Equipment { targets, effect }
    }
}

/// Every ordinary equipment's combat effect, by the id a layout compiles to,
/// and the name of every equipment the catalogue holds, for a refusal.
#[derive(Debug)]
pub struct EquipmentEffects {
    pub equipment: BTreeMap<i32, Equipment>,
    pub names: Vec<(i32, String)>,
}

/// The ids of a table's rows, in order.
pub open spec fn equipment_ids(rows: Seq<EquipmentRow>) -> Seq<i32> {
    rows.map_values(|row: EquipmentRow| row.id)
}

/// Whether `equipment` holds exactly the rows' equipment, each by its id.
pub open spec fn equipment_hold(equipment: Map<i32, Equipment>, rows: Seq<EquipmentRow>) -> bool {
    &&& forall|id: i32| equipment.contains_key(id) <==> exists|k: int| 0 <= k < rows.len() && rows[k].id == id
    &&& forall|k: int| 0 <= k < rows.len() ==> equipment_of(#[trigger] equipment[rows[k].id], rows[k])
}

/// The name the catalogue gives equipment `id`: the first entry for it, or
/// "unnamed".
pub open spec fn catalogue_name(names: Seq<(i32, String)>, id: i32) -> Seq<char>
    decreases names.len(),
{
    if names.len() == 0 {
        "unnamed"@
    } else if names[0].0 == id {
        names[0].1@
    } else {
        catalogue_name(names.drop_first(), id)
    }
}

/// What equipment `id` writes onto `unit` in `round`, or why it is refused.
pub open spec fn equipment_corrections(
    effects: EquipmentEffects,
    id: i32,
    unit: UnitConfig,
    round: i32,
) -> Result<Seq<(Channel, Entry)>, Seq<char>> {
    if !effects.equipment@.contains_key(id) {
        Err("equipment "@ + decimal_spec(id as int) + " ("@ + catalogue_name(effects.names@, id)
            + ") is not an ordinary EquipmentData row: its effect belongs to another equipment class, which no mechanism here reads"@)
    } else if round != 1 {
        Err("equipment "@ + decimal_spec(id as int) + " is worn in round "@ + decimal_spec(round as int)
            + ", and what its durability does after round 1 is not established"@)
    } else {
        let equipment = effects.equipment@[id];
        match equipment.effect {
            Err(why) => Err(why@),
            Ok(written) => match equipment.targets {
                Targets::Refused(reason) => Err(reason@),
                Targets::Every => Ok(tagged(written@)),
                Targets::Listed(units) => if crate::modifier::targets::lists(units@, unit.name@) {
                    Ok(tagged(written@))
                } else {
                    Ok(Seq::empty())
                },
                Targets::Melee => if unit.attack.melee {
                    Ok(tagged(written@))
                } else {
                    Ok(Seq::empty())
                },
                Targets::Ranged => if !unit.attack.melee {
                    Ok(tagged(written@))
                } else {
                    Ok(Seq::empty())
                },
            },
        }
    }
}

/// The name the catalogue gives equipment `id`, or "unnamed".
fn name_of(names: &Vec<(i32, String)>, id: i32) -> (name: String)
    ensures
        name@ == catalogue_name(names@, id),
{
    let mut i: usize = 0;
    assert(names@.skip(0) =~= names@);
    while i < names.len()
        invariant
            i <= names.len(),
            catalogue_name(names@, id) == catalogue_name(names@.skip(i as int), id),
        decreases names.len() - i,
    {
        assert(names@.skip(i as int).drop_first() =~= names@.skip(i as int + 1));
        if names[i].0 == id {
            return names[i].1.clone();
        }
        i = i + 1;
    }
    String::from_str("unnamed")
}

impl EquipmentEffects {
    /// The effects of a table as it was read, once it is known to be the
    /// table this build reads and to hold each equipment once, beside the
    /// catalogue's names.
    pub fn load(table: EquipmentTable, names: Vec<(i32, String)>) -> (result: Result<Self, Error>)
        requires
            forall|k: int| 0 <= k < table.equipment.len() ==> equipment_routable(#[trigger] table.equipment[k]),
        ensures
            table.schema@ != "mechcore.equipment_effects"@ ==> (result matches Err(error) && error.message@
                == "equipment effect table declares schema "@ + debug_quoted(table.schema@)),
            table.schema@ == "mechcore.equipment_effects"@ ==> match first_repeat(
                equipment_ids(table.equipment@),
                table.equipment.len() as int,
            ) {
                Some(k) => (result matches Err(error) && error.message@ == "equipment effect table holds equipment "@
                    + decimal_spec(table.equipment[k].id as int) + " twice"@),
                None => (result matches Ok(effects) && equipment_hold(effects.equipment@, table.equipment@)
                    && effects.names@ == names@),
            },
    {
        if !(table.schema == String::from_str("mechcore.equipment_effects")) {
            let quoted = debug_text(table.schema.as_str());
            return Err(Error::new(join("equipment effect table declares schema ", quoted.as_str())));
        }
        let rows = &table.equipment;
        let ghost ids = equipment_ids(rows@);
        let mut equipment: BTreeMap<i32, Equipment> = BTreeMap::new();
        let mut i: usize = 0;
        while i < rows.len()
            invariant
                i <= rows.len(),
                ids == equipment_ids(rows@),
                rows@ == table.equipment@,
                table.schema@ == "mechcore.equipment_effects"@,
                forall|k: int| 0 <= k < rows.len() ==> equipment_routable(#[trigger] rows[k]),
                first_repeat(ids, i as int) is None,
                forall|id: i32| equipment@.contains_key(id) <==> exists|k: int| 0 <= k < i && rows[k].id == id,
                forall|k: int| 0 <= k < i ==> equipment_of(#[trigger] equipment@[rows[k].id], rows[k]),
            decreases rows.len() - i,
        {
            let id = rows[i].id;
            let item = Equipment::of(&rows[i]);
            let previous = equipment.insert(id, item);
            if previous.is_some() {
                proof {
                    let j = choose|j: int| 0 <= j < i && rows[j].id == id;
                    assert(ids[j] == ids[i as int]);
                    lemma_first_repeat_settles(ids, i + 1, rows.len() as int);
                }
                let number = decimal(id as i64);
                return Err(Error::new(join3("equipment effect table holds equipment ", number.as_str(), " twice")));
            }
            proof {
                assert(!(exists|j: int| 0 <= j < i && ids[j] == ids[i as int])) by {
                    if exists|j: int| 0 <= j < i && ids[j] == ids[i as int] {
                        let j = choose|j: int| 0 <= j < i && ids[j] == ids[i as int];
                        assert(rows[j].id == id);
                    }
                }
                assert forall|k: int| 0 <= k < i + 1 implies equipment_of(#[trigger] equipment@[rows[k].id], rows[k]) by {
                    if k < i {
                        assert(rows[k].id != id);
                    }
                }
            }
            i = i + 1;
        }
        Ok(EquipmentEffects { equipment, names })
    }

    /// What one equipment writes onto the unit wearing it, in `round`.
    ///
    /// An equipment that is not an ordinary row, that is worn past the first
    /// round, that this build cannot apply or whose targeting is refused
    /// refuses the answer by name rather than being partly applied.
    pub fn corrections(&self, id: i32, unit: &UnitConfig, round: i32) -> (result: Result<Vec<(Channel, Entry)>, Error>)
        ensures
            match equipment_corrections(*self, id, *unit, round) {
                Ok(written) => (result matches Ok(list) && list@ == written),
                Err(reason) => (result matches Err(error) && error.message@ == reason),
            },
    {
        let found = self.equipment.get(&id);
        match found {
            None => {
                let name = name_of(&self.names, id);
                let number = decimal(id as i64);
                let head = join3("equipment ", number.as_str(), " (");
                return Err(
                    Error::new(
                        join3(
                            head.as_str(),
                            name.as_str(),
                            ") is not an ordinary EquipmentData row: its effect belongs to another equipment class, which no mechanism here reads",
                        ),
                    ),
                );
            },
            Some(equipment) => {
                if round != 1 {
                    let number = decimal(id as i64);
                    let worn = decimal(round as i64);
                    let head = join3("equipment ", number.as_str(), " is worn in round ");
                    return Err(
                        Error::new(
                            join3(
                                head.as_str(),
                                worn.as_str(),
                                ", and what its durability does after round 1 is not established",
                            ),
                        ),
                    );
                }
                match &equipment.effect {
                    Err(why) => Err(Error::new(why.clone())),
                    Ok(list) => {
                        let reached = equipment.targets.reaches(unit)?;
                        let mut written: Vec<(Channel, Entry)> = Vec::new();
                        if reached {
                            let mut j: usize = 0;
                            while j < list.len()
                                invariant
                                    j <= list.len(),
                                    written@ == tagged(list@).take(j as int),
                                decreases list.len() - j,
                            {
                                let (channel, index, correction) = list[j];
                                written.push((channel, Entry { index, source: SOURCE, correction }));
                                assert(tagged(list@).take(j as int + 1) =~= tagged(list@).take(j as int).push(
                                    tagged(list@)[j as int],
                                ));
                                j = j + 1;
                            }
                            assert(tagged(list@).take(list.len() as int) =~= tagged(list@));
                        }
                        Ok(written)
                    },
                }
            },
        }
    }
}

} // verus!
