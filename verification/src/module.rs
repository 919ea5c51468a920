//! The fight's modules, and what each one is responsible for understanding.
//!
//! The build runs its fight as 35 modules with one lifecycle, and this table
//! carries a module for each, implemented or not. A module that is not
//! implemented still claims the layout fields it would understand and refuses
//! them, which is what makes the closure a property of this table rather than
//! a hand-written list of rejections.

use vstd::prelude::*;

use crate::plan::SidePlan;
use crate::text::{join, join3};

verus! {

/// A layout field a fight has to understand before it can be fought.
#[derive(Clone, Copy, Debug, PartialEq, Eq, Structural, PartialOrd, Ord)]
pub enum Field {
    Officers,
    UnitTechnologies,
    EnergyTowerSkills,
    TowerStrengthenLevels,
    BattleSkills,
    Constructions,
    Contraptions,
    AirdropShields,
    Terrains,
    UnitLevel,
    UnitEquipment,
    Travelling,
}

/// Every field, in declaration order.
pub open spec fn every_field() -> Seq<Field> {
    seq![
        Field::Officers,
        Field::UnitTechnologies,
        Field::EnergyTowerSkills,
        Field::TowerStrengthenLevels,
        Field::BattleSkills,
        Field::Constructions,
        Field::Contraptions,
        Field::AirdropShields,
        Field::Terrains,
        Field::UnitLevel,
        Field::UnitEquipment,
        Field::Travelling,
    ]
}

/// The document's own name for a field.
pub open spec fn field_name(field: Field) -> &'static str {
    match field {
        Field::Officers => "officers",
        Field::UnitTechnologies => "unit technologies",
        Field::EnergyTowerSkills => "energy tower skills",
        Field::TowerStrengthenLevels => "tower strengthen levels",
        Field::BattleSkills => "battle skills",
        Field::Constructions => "constructions",
        Field::Contraptions => "contraptions",
        Field::AirdropShields => "airdrop shields",
        Field::Terrains => "terrains",
        Field::UnitLevel => "units above level one",
        Field::UnitEquipment => "unit equipment",
        Field::Travelling => "travelling units",
    }
}

/// Whether a side plan carries a field.
pub open spec fn carried_spec(field: Field, side: SidePlan) -> bool {
    match field {
        Field::Officers => side.officers.len() != 0,
        Field::UnitTechnologies => side.unit_technologies.len() != 0,
        Field::EnergyTowerSkills => side.energy_tower_skills != 0,
        Field::TowerStrengthenLevels => exists|i: int|
            0 <= i < side.tower_strengthen_levels.len() && side.tower_strengthen_levels[i] != 0,
        Field::BattleSkills => side.battle_skills != 0,
        Field::Constructions => side.constructions.len() != 0,
        Field::Contraptions => side.contraptions != 0,
        Field::AirdropShields => side.airdrop_shields != 0,
        Field::Terrains => side.terrains != 0,
        Field::UnitLevel => exists|i: int| 0 <= i < side.units.len() && side.units[i].level != Some(1i32),
        Field::UnitEquipment => exists|i: int| 0 <= i < side.units.len() && side.units[i].equipment.len() != 0,
        Field::Travelling => exists|i: int| 0 <= i < side.units.len() && side.units[i].travelling,
    }
}

impl Field {
    /// The document's own name for the field, so a refusal names what the
    /// caller wrote.
    pub fn name(self) -> (name: &'static str)
        ensures
            name == field_name(self),
    {
        match self {
            Field::Officers => "officers",
            Field::UnitTechnologies => "unit technologies",
            Field::EnergyTowerSkills => "energy tower skills",
            Field::TowerStrengthenLevels => "tower strengthen levels",
            Field::BattleSkills => "battle skills",
            Field::Constructions => "constructions",
            Field::Contraptions => "contraptions",
            Field::AirdropShields => "airdrop shields",
            Field::Terrains => "terrains",
            Field::UnitLevel => "units above level one",
            Field::UnitEquipment => "unit equipment",
            Field::Travelling => "travelling units",
        }
    }

    /// Whether a side plan carries this field.
    pub fn carried(self, side: &SidePlan) -> (result: bool)
        ensures
            result == carried_spec(self, *side),
    {
        match self {
            Field::Officers => side.officers.len() != 0,
            Field::UnitTechnologies => side.unit_technologies.len() != 0,
            Field::EnergyTowerSkills => side.energy_tower_skills != 0,
            Field::TowerStrengthenLevels => {
                let levels = &side.tower_strengthen_levels;
                let mut i: usize = 0;
                while i < levels.len()
                    invariant
                        i <= levels.len(),
                        levels@ == side.tower_strengthen_levels@,
                        self == Field::TowerStrengthenLevels,
                        forall|k: int| 0 <= k < i ==> levels[k] == 0,
                    decreases levels.len() - i,
                {
                    if levels[i] != 0 {
                        assert(side.tower_strengthen_levels[i as int] != 0);
                        return true;
                    }
                    i = i + 1;
                }
                false
            },
            Field::BattleSkills => side.battle_skills != 0,
            Field::Constructions => side.constructions.len() != 0,
            Field::Contraptions => side.contraptions != 0,
            Field::AirdropShields => side.airdrop_shields != 0,
            Field::Terrains => side.terrains != 0,
            Field::UnitLevel | Field::UnitEquipment | Field::Travelling => {
                let units = &side.units;
                let mut i: usize = 0;
                while i < units.len()
                    invariant
                        i <= units.len(),
                        units@ == side.units@,
                        self == Field::UnitLevel || self == Field::UnitEquipment || self == Field::Travelling,
                        forall|k: int| 0 <= k < i ==> !unit_carries(self, units[k]),
                    decreases units.len() - i,
                {
                    let unit = &units[i];
                    let carries = match self {
                        Field::UnitLevel => unit.level != Some(1i32),
                        Field::UnitEquipment => unit.equipment.len() != 0,
                        _ => unit.travelling,
                    };
                    if carries {
                        assert(unit_carries(self, units[i as int]));
                        return true;
                    }
                    i = i + 1;
                }
                false
            },
        }
    }
}

/// Whether one placement carries one of the fields that sit on a unit.
pub open spec fn unit_carries(field: Field, unit: crate::plan::Placement) -> bool {
    match field {
        Field::UnitLevel => unit.level != Some(1i32),
        Field::UnitEquipment => unit.equipment.len() != 0,
        _ => unit.travelling,
    }
}

/// One module of the fight.
#[derive(Debug)]
pub struct Module {
    /// The build's name for it, which is what a refusal says.
    pub native: &'static str,
    /// The layout fields this module is responsible for understanding.
    pub claims: Vec<Field>,
    /// Whether this simulator implements it.
    pub implemented: bool,
}

/// The fields module `i` of the table claims.
pub open spec fn module_claims(i: int) -> Seq<Field> {
    if i == 0 {
        seq![Field::Officers, Field::UnitTechnologies, Field::UnitEquipment, Field::UnitLevel]
    } else if i == 1 {
        seq![Field::AirdropShields]
    } else if i == 4 {
        seq![Field::EnergyTowerSkills, Field::TowerStrengthenLevels]
    } else if i == 8 {
        seq![Field::BattleSkills]
    } else if i == 12 {
        seq![Field::Constructions]
    } else if i == 17 {
        seq![Field::Contraptions]
    } else if i == 25 {
        seq![Field::Terrains]
    } else if i == 31 {
        seq![Field::Travelling]
    } else {
        Seq::empty()
    }
}

/// Whether module `i` of the table is implemented.
pub open spec fn module_implemented(i: int) -> bool {
    i == 13 || i == 15 || i == 16 || i == 24
}

/// The build's name for module `i` of the table.
pub open spec fn module_native(i: int) -> &'static str {
    if i == 0 { "Loadout" }
    else if i == 1 { "AdvancedEnergyShieldSystem" }
    else if i == 2 { "AutoRecoverySystem" }
    else if i == 3 { "BuffSystem" }
    else if i == 4 { "BuildingSystem" }
    else if i == 5 { "BurrowSystem" }
    else if i == 6 { "ClearRangeItemSystem" }
    else if i == 7 { "CloakSystem" }
    else if i == 8 { "CommanderSkillSystem" }
    else if i == 9 { "DeadEffectSystem" }
    else if i == 10 { "ExpSystem" }
    else if i == 11 { "ExtraSkillSystem" }
    else if i == 12 { "FightConstructionSystem" }
    else if i == 13 { "FightCoreSystem" }
    else if i == 14 { "FightEffectSystem" }
    else if i == 15 { "FightGroupSystem" }
    else if i == 16 { "FightTeamSystem" }
    else if i == 17 { "InterceptSystem" }
    else if i == 18 { "IterationEffectSystem" }
    else if i == 19 { "LifeChangeEffectSystem" }
    else if i == 20 { "MechGrounpSystem" }
    else if i == 21 { "MineSystem" }
    else if i == 22 { "MoveAbilityRangeItemSystem" }
    else if i == 23 { "MoveAbilitySummonSystem" }
    else if i == 24 { "ProjectileSystem" }
    else if i == 25 { "RangeItemSystem" }
    else if i == 26 { "ReactiveArmorSystem" }
    else if i == 27 { "RecoveryEffectSystem" }
    else if i == 28 { "SiegeModeEffectSystem" }
    else if i == 29 { "StealthTechSystem" }
    else if i == 30 { "SummonSystem" }
    else if i == 31 { "SuperDeploymentSystem" }
    else if i == 32 { "SupportUnitSystem" }
    else if i == 33 { "TeamTranslationSystem" }
    else if i == 34 { "TechnologySystem" }
    else { "WreckageRecoverySystem" }
}

/// How many modules the table holds.
pub open spec fn module_count() -> int {
    36
}

/// The module that claims a field.
pub open spec fn owner(field: Field) -> int {
    match field {
        Field::Officers | Field::UnitTechnologies | Field::UnitEquipment | Field::UnitLevel => 0,
        Field::AirdropShields => 1,
        Field::EnergyTowerSkills | Field::TowerStrengthenLevels => 4,
        Field::BattleSkills => 8,
        Field::Constructions => 12,
        Field::Contraptions => 17,
        Field::Terrains => 25,
        Field::Travelling => 31,
    }
}

/// Whether `table` is the module table, entry by entry.
pub open spec fn is_module_table(table: Seq<Module>) -> bool {
    &&& table.len() == module_count()
    &&& forall|i: int| 0 <= i < module_count() ==> {
        &&& (#[trigger] table[i]).native == module_native(i)
        &&& table[i].claims@ == module_claims(i)
        &&& table[i].implemented == module_implemented(i)
    }
}

/// One module that claims nothing.
fn unclaimed(native: &'static str, implemented: bool) -> (module: Module)
    ensures
        module.native == native,
        module.claims@ == Seq::<Field>::empty(),
        module.implemented == implemented,
{
    Module { native, claims: Vec::new(), implemented }
}

/// The build's fight modules, and the one step that is not one of them.
///
/// `Loadout` is not a module of the build: officers, technologies, equipment
/// and levels are applied to a unit as the fight is built rather than inside
/// it, so the simulator applies them in one step of its own. The build's 35
/// follow in name order. Which module a field is claimed by is this
/// simulator's arrangement; the names are the build's.
pub fn modules() -> (table: Vec<Module>)
    ensures
        is_module_table(table@),
{
    let mut table: Vec<Module> = Vec::new();
    table.push(Module {
        native: "Loadout",
        claims: vec![Field::Officers, Field::UnitTechnologies, Field::UnitEquipment, Field::UnitLevel],
        implemented: false,
    });
    table.push(Module { native: "AdvancedEnergyShieldSystem", claims: vec![Field::AirdropShields], implemented: false });
    table.push(unclaimed("AutoRecoverySystem", false));
    table.push(unclaimed("BuffSystem", false));
    table.push(Module {
        native: "BuildingSystem",
        claims: vec![Field::EnergyTowerSkills, Field::TowerStrengthenLevels],
        implemented: false,
    });
    table.push(unclaimed("BurrowSystem", false));
    table.push(unclaimed("ClearRangeItemSystem", false));
    table.push(unclaimed("CloakSystem", false));
    table.push(Module { native: "CommanderSkillSystem", claims: vec![Field::BattleSkills], implemented: false });
    table.push(unclaimed("DeadEffectSystem", false));
    table.push(unclaimed("ExpSystem", false));
    table.push(unclaimed("ExtraSkillSystem", false));
    table.push(Module { native: "FightConstructionSystem", claims: vec![Field::Constructions], implemented: false });
    // The only module implemented in full: units, their movement, their
    // targets, their attacks and what those do.
    table.push(unclaimed("FightCoreSystem", true));
    table.push(unclaimed("FightEffectSystem", false));
    table.push(unclaimed("FightGroupSystem", true));
    table.push(unclaimed("FightTeamSystem", true));
    table.push(Module { native: "InterceptSystem", claims: vec![Field::Contraptions], implemented: false });
    table.push(unclaimed("IterationEffectSystem", false));
    table.push(unclaimed("LifeChangeEffectSystem", false));
    table.push(unclaimed("MechGrounpSystem", false));
    table.push(unclaimed("MineSystem", false));
    table.push(unclaimed("MoveAbilityRangeItemSystem", false));
    table.push(unclaimed("MoveAbilitySummonSystem", false));
    table.push(unclaimed("ProjectileSystem", true));
    table.push(Module { native: "RangeItemSystem", claims: vec![Field::Terrains], implemented: false });
    table.push(unclaimed("ReactiveArmorSystem", false));
    table.push(unclaimed("RecoveryEffectSystem", false));
    table.push(unclaimed("SiegeModeEffectSystem", false));
    table.push(unclaimed("StealthTechSystem", false));
    table.push(unclaimed("SummonSystem", false));
    table.push(Module { native: "SuperDeploymentSystem", claims: vec![Field::Travelling], implemented: false });
    table.push(unclaimed("SupportUnitSystem", false));
    table.push(unclaimed("TeamTranslationSystem", false));
    table.push(unclaimed("TechnologySystem", false));
    table.push(unclaimed("WreckageRecoverySystem", false));
    proof {
        assert forall|i: int| 0 <= i < module_count() implies {
            &&& (#[trigger] table@[i]).native == module_native(i)
            &&& table@[i].claims@ == module_claims(i)
            &&& table@[i].implemented == module_implemented(i)
        } by {
            assert(table@[i].claims@ =~= module_claims(i));
        }
    }
    table
}

/// Every field is claimed by exactly one module of the table, the one
/// `owner` names, and every claim in the table is of a field: the claims
/// number twelve, one a field. A mechanism nobody owns would be refused by
/// nothing.
pub proof fn lemma_every_field_claimed_once(field: Field)
    ensures
        0 <= owner(field) < module_count(),
        module_claims(owner(field)).contains(field),
        forall|i: int| 0 <= i < module_count() && i != owner(field) ==> !(#[trigger] module_claims(i)).contains(field),
        claimed_count(module_count()) == every_field().len(),
{
    assert(module_claims(owner(field))[module_claims(owner(field)).index_of(field)] == field) by {
        match field {
            Field::Officers => assert(module_claims(0)[0] == field),
            Field::UnitTechnologies => assert(module_claims(0)[1] == field),
            Field::UnitEquipment => assert(module_claims(0)[2] == field),
            Field::UnitLevel => assert(module_claims(0)[3] == field),
            Field::AirdropShields => assert(module_claims(1)[0] == field),
            Field::EnergyTowerSkills => assert(module_claims(4)[0] == field),
            Field::TowerStrengthenLevels => assert(module_claims(4)[1] == field),
            Field::BattleSkills => assert(module_claims(8)[0] == field),
            Field::Constructions => assert(module_claims(12)[0] == field),
            Field::Contraptions => assert(module_claims(17)[0] == field),
            Field::Terrains => assert(module_claims(25)[0] == field),
            Field::Travelling => assert(module_claims(31)[0] == field),
        }
    }
    assert forall|i: int| 0 <= i < module_count() && i != owner(field) implies !(#[trigger] module_claims(i)).contains(
        field,
    ) by {
        if module_claims(i).contains(field) {
            let k = choose|k: int| 0 <= k < module_claims(i).len() && module_claims(i)[k] == field;
            assert(module_claims(i)[k] == field);
        }
    }
    assert(claimed_count(module_count()) == 12) by {
        reveal_with_fuel(claimed_count, 37);
    }
}

/// How many claims the first `count` modules of the table make.
pub open spec fn claimed_count(count: int) -> int
    decreases count,
{
    if count <= 0 {
        0
    } else {
        claimed_count(count - 1) + module_claims(count - 1).len()
    }
}

/// The fields of `fields` that a side carries and that no implemented module
/// understands, in order, each with the module that owes it.
pub open spec fn unsupported_among(fields: Seq<Field>, side: SidePlan) -> Seq<(Field, &'static str)>
    decreases fields.len(),
{
    if fields.len() == 0 {
        Seq::empty()
    } else {
        let last = fields.last();
        let earlier = unsupported_among(fields.drop_last(), side);
        if carried_spec(last, side) && !module_implemented(owner(last)) {
            earlier.push((last, module_native(owner(last))))
        } else {
            earlier
        }
    }
}

/// Every field a side carries that no implemented module understands, in
/// field order, each with the module that owes it.
pub open spec fn unsupported_spec(side: SidePlan) -> Seq<(Field, &'static str)> {
    unsupported_among(every_field(), side)
}

/// Every field, in declaration order.
pub fn every_field_list() -> (fields: Vec<Field>)
    ensures
        fields@ == every_field(),
{
    let fields = vec![
        Field::Officers,
        Field::UnitTechnologies,
        Field::EnergyTowerSkills,
        Field::TowerStrengthenLevels,
        Field::BattleSkills,
        Field::Constructions,
        Field::Contraptions,
        Field::AirdropShields,
        Field::Terrains,
        Field::UnitLevel,
        Field::UnitEquipment,
        Field::Travelling,
    ];
    assert(fields@ =~= every_field());
    fields
}

/// The position in the table of the module that claims `field`.
pub fn owner_of(table: &Vec<Module>, field: Field) -> (index: usize)
    requires
        is_module_table(table@),
    ensures
        index == owner(field),
{
    proof {
        lemma_every_field_claimed_once(field);
    }
    let mut i: usize = 0;
    while i < table.len()
        invariant
            i <= owner(field),
            is_module_table(table@),
            0 <= owner(field) < module_count(),
            module_claims(owner(field)).contains(field),
            forall|k: int| 0 <= k < module_count() && k != owner(field) ==> !(#[trigger] module_claims(k)).contains(field),
        decreases table.len() - i,
    {
        let claims = &table[i].claims;
        let mut j: usize = 0;
        while j < claims.len()
            invariant
                j <= claims.len(),
                claims@ == module_claims(i as int),
                forall|k: int| 0 <= k < j ==> claims@[k] != field,
            decreases claims.len() - j,
        {
            if claims[j] == field {
                assert(module_claims(i as int).contains(field));
                return i;
            }
            j = j + 1;
        }
        assert(!module_claims(i as int).contains(field));
        i = i + 1;
    }
    i
}

/// Every field this side carries that no implemented module understands,
/// with the module that owes it, in field order.
///
/// A side inside the closure answers an empty list, which is the only thing
/// a caller has to test.
pub fn unsupported(side: &SidePlan) -> (missing: Vec<(Field, &'static str)>)
    ensures
        missing@ == unsupported_spec(*side),
{
    let table = modules();
    let fields = every_field_list();
    let mut missing: Vec<(Field, &'static str)> = Vec::new();
    let mut i: usize = 0;
    while i < fields.len()
        invariant
            i <= fields.len(),
            fields@ == every_field(),
            is_module_table(table@),
            missing@ == unsupported_among(fields@.take(i as int), *side),
        decreases fields.len() - i,
    {
        let field = fields[i];
        assert(fields@.take(i as int + 1).drop_last() =~= fields@.take(i as int));
        let index = owner_of(&table, field);
        if field.carried(side) && !table[index].implemented {
            missing.push((field, table[index].native));
        }
        i = i + 1;
    }
    assert(fields@.take(fields.len() as int) =~= fields@);
    missing
}

/// How one missing field is listed: its name and the module that owes it.
pub open spec fn listed_one(entry: (Field, &'static str)) -> Seq<char> {
    field_name(entry.0)@ + " ("@ + entry.1@ + ")"@
}

/// The missing fields listed one after another, with a comma between two.
pub open spec fn listed(missing: Seq<(Field, &'static str)>) -> Seq<char>
    decreases missing.len(),
{
    if missing.len() == 0 {
        Seq::empty()
    } else if missing.len() == 1 {
        listed_one(missing[0])
    } else {
        listed(missing.drop_last()) + ", "@ + listed_one(missing.last())
    }
}

/// What a refusal says: every field at once, each with the module that owes
/// it.
///
/// Naming all of them rather than the first is what lets a caller see how far
/// a deployment is from being fought.
pub fn refusal(side_name: &str, missing: &Vec<(Field, &'static str)>) -> (text: String)
    ensures
        text@ == "side "@ + side_name@ + " needs modules this build has not implemented: "@ + listed(missing@),
{
    let mut text = join3("side ", side_name, " needs modules this build has not implemented: ");
    let ghost head = text@;
    let mut i: usize = 0;
    while i < missing.len()
        invariant
            i <= missing.len(),
            text@ == head + listed(missing@.take(i as int)),
        decreases missing.len() - i,
    {
        let (field, module) = missing[i];
        assert(missing@.take(i as int + 1).drop_last() =~= missing@.take(i as int));
        if i > 0 {
            text.append(", ");
        }
        let item = join3(field.name(), " (", module);
        text.append(item.as_str());
        text.append(")");
        proof {
            assert(text@ =~= head + listed(missing@.take(i as int + 1)));
        }
        i = i + 1;
    }
    assert(missing@.take(missing.len() as int) =~= missing@);
    text
}

} // verus!
