//! A layout's sides, compiled into what the fight places: each formation in
//! the one world both sides share with what its loadout writes onto it, each
//! construction as the buildings it is, and every reason the layout is
//! refused, named at once.

use vstd::prelude::*;

use crate::Error;
use crate::data::{Channel, Entry};
use crate::layout::{
    ConstructionBuilding, Constructions, Refusals, buildings_of, construction_named, joined, offsets_spec,
    row_skill, skill_check,
};
use crate::module::{refusal, unsupported, unsupported_spec, listed};
use std::collections::BTreeMap;
use crate::modifier::equipment::{EquipmentEffects, equipment_corrections};
use crate::modifier::officers::{OfficerEffects, officer_corrections};
use crate::modifier::technologies::{TechnologyEffects, technology_corrections};
use crate::plan;
use crate::rules::{UnitConfig, UnitConfigs, unfired_reason, whole_meters_spec};
use crate::text::{debug_quoted, debug_text, decimal, decimal_spec, join, join3};

verus! {

broadcast use {vstd::std_specs::btree::group_btree_axioms, vstd::laws_cmp::group_laws_cmp};

/// One formation as the fight places it.
#[derive(Debug)]
pub struct Placement {
    pub team: u32,
    pub unit_id: u64,
    pub formation_id: u64,
    /// The formation's position among its side's units.
    pub formation_index: i32,
    pub name: String,
    pub world_x: i64,
    pub world_z: i64,
    /// Millidegrees.
    pub rotation: i64,
    pub rotated: bool,
    /// The formation's level, one to nine.
    pub level: i64,
    /// What the side's loadout wrote onto this formation, in the channel each
    /// correction belongs to.
    pub corrections: Vec<(Channel, Entry)>,
}

/// The tables a side's corrections are read from, and the round an
/// equipment's lifetime is read in.
#[derive(Debug)]
pub struct Loadouts {
    pub officers: OfficerEffects,
    pub technologies: TechnologyEffects,
    pub equipment: EquipmentEffects,
    pub round: i32,
}

/// A refusal kept once: added unless the same words are already kept.
pub open spec fn keep(before: Seq<Seq<char>>, why: Seq<char>) -> Seq<Seq<char>> {
    if before.contains(why) {
        before
    } else {
        before.push(why)
    }
}

/// The answer a table gave, with its refusal said of side `side_name`.
pub open spec fn on_side(
    side_name: Seq<char>,
    answer: Result<Seq<(Channel, Entry)>, Seq<char>>,
) -> Result<Seq<(Channel, Entry)>, Seq<char>> {
    match answer {
        Ok(written) => Ok(written),
        Err(message) => Err("side "@ + side_name + ": "@ + message),
    }
}

/// Every question a formation's loadout asks, in order: each officer of the
/// side, each unit technology of the side, and each equipment the formation
/// wears, each on its own.
pub open spec fn loadout_answers(
    side_name: Seq<char>,
    unit_type: Seq<char>,
    equipment: Seq<i32>,
    rules: UnitConfig,
    side: plan::SidePlan,
    loadouts: Loadouts,
) -> Seq<Result<Seq<(Channel, Entry)>, Seq<char>>> {
    side.officers@.map_values(
        |id: i32| on_side(side_name, officer_corrections(loadouts.officers.officers@, seq![id], rules.name@)),
    ) + side.unit_technologies@.map_values(
        |id: i32|
            on_side(side_name, technology_corrections(loadouts.technologies.technologies@, seq![id], unit_type)),
    ) + equipment.map_values(
        |id: i32| on_side(side_name, equipment_corrections(loadouts.equipment, id, rules, loadouts.round)),
    )
}

/// The refusals kept after every refused answer is kept in turn.
pub open spec fn keep_all(before: Seq<Seq<char>>, answers: Seq<Result<Seq<(Channel, Entry)>, Seq<char>>>) -> Seq<
    Seq<char>,
>
    decreases answers.len(),
{
    if answers.len() == 0 {
        before
    } else {
        let kept = keep_all(before, answers.drop_last());
        match answers.last() {
            Err(message) => keep(kept, message),
            Ok(_) => kept,
        }
    }
}

/// Everything the answers write, in order, when none was refused.
pub open spec fn all_written(answers: Seq<Result<Seq<(Channel, Entry)>, Seq<char>>>) -> Option<Seq<(Channel, Entry)>>
    decreases answers.len(),
{
    if answers.len() == 0 {
        Some(Seq::empty())
    } else {
        match (all_written(answers.drop_last()), answers.last()) {
            (Some(earlier), Ok(written)) => Some(earlier + written),
            _ => None,
        }
    }
}

/// Whether an answer given is the answer the table's contract states.
pub open spec fn answered(given: Result<Vec<(Channel, Entry)>, Error>, stated: Result<Seq<(Channel, Entry)>, Seq<char>>) -> bool {
    match (given, stated) {
        (Ok(list), Ok(written)) => list@ == written,
        (Err(error), Err(message)) => error.message@ == message,
        _ => false,
    }
}

/// An answer with its refusal said of side `side_name`.
fn said_of_side(side_name: &str, answer: Result<Vec<(Channel, Entry)>, Error>) -> (said: Result<Vec<(Channel, Entry)>, Error>)
    ensures
        match answer {
            Ok(list) => said matches Ok(same) && same@ == list@,
            Err(error) => said matches Err(refusal) && refusal.message@ == "side "@ + side_name@ + ": "@
                + error.message@,
        },
{
    match answer {
        Ok(list) => Ok(list),
        Err(error) => Err(Error::new(join3("side ", side_name, join(": ", error.message.as_str()).as_str()))),
    }
}

/// What this side's loadout and a formation's equipment write onto it.
///
/// Each officer, technology and equipment is asked on its own, so a refusal
/// names every one this build cannot apply; `None` when any was refused.
pub fn loadout(
    side_name: &str,
    unit_type: &str,
    equipment: &Vec<i32>,
    rules: &UnitConfig,
    side: &plan::SidePlan,
    loadouts: &Loadouts,
    refused: &mut Refusals,
) -> (written: Option<Vec<(Channel, Entry)>>)
    ensures
        ({
            let answers = loadout_answers(side_name@, unit_type@, equipment@, *rules, *side, *loadouts);
            &&& final(refused)@ == keep_all(old(refused)@, answers)
            &&& match all_written(answers) {
                Some(all) => (written matches Some(list) && list@ == all),
                None => written is None,
            }
        }),
{
    let ghost answers = loadout_answers(side_name@, unit_type@, equipment@, *rules, *side, *loadouts);
    let officers = &side.officers;
    let technologies = &side.unit_technologies;
    let mut asked: Vec<Result<Vec<(Channel, Entry)>, Error>> = Vec::new();
    let mut i: usize = 0;
    while i < officers.len()
        invariant
            i <= officers.len(),
            answers == loadout_answers(side_name@, unit_type@, equipment@, *rules, *side, *loadouts),
            officers@ == side.officers@,
            asked.len() == i,
            forall|k: int| 0 <= k < i ==> answered(#[trigger] asked[k], answers[k]),
        decreases officers.len() - i,
    {
        let one = vec![officers[i]];
        assert(one@ =~= seq![officers[i as int]]);
        let answer = loadouts.officers.corrections(&one, rules.name.as_str());
        asked.push(said_of_side(side_name, answer));
        i = i + 1;
    }
    let mut i: usize = 0;
    while i < technologies.len()
        invariant
            i <= technologies.len(),
            answers == loadout_answers(side_name@, unit_type@, equipment@, *rules, *side, *loadouts),
            technologies@ == side.unit_technologies@,
            asked.len() == side.officers.len() + i,
            forall|k: int| 0 <= k < asked.len() ==> answered(#[trigger] asked[k], answers[k]),
        decreases technologies.len() - i,
    {
        let one = vec![technologies[i]];
        assert(one@ =~= seq![technologies[i as int]]);
        let answer = loadouts.technologies.corrections(&one, unit_type);
        asked.push(said_of_side(side_name, answer));
        i = i + 1;
    }
    let mut i: usize = 0;
    while i < equipment.len()
        invariant
            i <= equipment.len(),
            answers == loadout_answers(side_name@, unit_type@, equipment@, *rules, *side, *loadouts),
            asked.len() == side.officers.len() + side.unit_technologies.len() + i,
            forall|k: int| 0 <= k < asked.len() ==> answered(#[trigger] asked[k], answers[k]),
        decreases equipment.len() - i,
    {
        let answer = loadouts.equipment.corrections(equipment[i], rules, loadouts.round);
        asked.push(said_of_side(side_name, answer));
        i = i + 1;
    }
    assert(asked.len() == answers.len());
    let mut corrections: Vec<(Channel, Entry)> = Vec::new();
    let mut resolved = true;
    let mut i: usize = 0;
    while i < asked.len()
        invariant
            i <= asked.len(),
            asked.len() == answers.len(),
            forall|k: int| 0 <= k < asked.len() ==> answered(#[trigger] asked[k], answers[k]),
            refused@ == keep_all(old(refused)@, answers.take(i as int)),
            resolved <==> all_written(answers.take(i as int)) is Some,
            resolved ==> all_written(answers.take(i as int)) == Some(corrections@),
        decreases asked.len() - i,
    {
        assert(answers.take(i as int + 1).drop_last() =~= answers.take(i as int));
        assert(answered(asked[i as int], answers[i as int]));
        match &asked[i] {
            Ok(list) => {
                let mut j: usize = 0;
                let ghost before = corrections@;
                while j < list.len()
                    invariant
                        j <= list.len(),
                        corrections@ == before + list@.take(j as int),
                    decreases list.len() - j,
                {
                    corrections.push(list[j]);
                    assert(list@.take(j as int + 1) =~= list@.take(j as int).push(list@[j as int]));
                    j = j + 1;
                }
                assert(list@.take(list.len() as int) =~= list@);
            },
            Err(error) => {
                refused.push(error.message.clone());
                resolved = false;
            },
        }
        i = i + 1;
    }
    assert(answers.take(asked.len() as int) =~= answers);
    if resolved {
        Some(corrections)
    } else {
        None
    }
}

/// The footprint a formation declares, as the layout writes it in a refusal.
pub open spec fn footprint_text(footprint: Option<(i64, i64)>) -> Seq<char> {
    match footprint {
        None => "None"@,
        Some((width, depth)) => "Some(("@ + decimal_spec(width as int) + ", "@ + decimal_spec(depth as int) + "))"@,
    }
}

/// Whether a formation's declared footprint matches its unit's description,
/// in whole metres, or why not.
pub open spec fn footprint_check(side_name: Seq<char>, formation: plan::Placement, rules: UnitConfig) -> Option<
    Seq<char>,
> {
    let width = whole_meters_spec(rules.formation.footprint.width as int,
        "unit config field formation.footprint.width must use whole meters for layout placement"@);
    let depth = whole_meters_spec(rules.formation.footprint.depth as int,
        "unit config field formation.footprint.depth must use whole meters for layout placement"@);
    match (width, depth) {
        (Err(message), _) => Some(message),
        (Ok(_), Err(message)) => Some(message),
        (Ok(w), Ok(d)) => if formation.footprint == Some((w as i64, d as i64)) {
            None
        } else {
            Some("side "@ + side_name + " unit type "@ + debug_quoted(formation.name@) + " layout footprint "@
                + footprint_text(formation.footprint) + " does not match simulator configuration ("@
                + decimal_spec(w) + ", "@ + decimal_spec(d) + ")"@)
        },
    }
}

/// Refuses a formation whose declared footprint is not its unit's.
pub fn validate_formation_footprint(side_name: &str, formation: &plan::Placement, rules: &UnitConfig) -> (result: Result<(), Error>)
    ensures
        match footprint_check(side_name@, *formation, *rules) {
            None => result is Ok,
            Some(message) => (result matches Err(error) && error.message@ == message),
        },
{
    let configured = rules.formation_footprint_meters()?;
    if formation.footprint == Some(configured) {
        return Ok(());
    }
    let declared = match formation.footprint {
        None => String::from_str("None"),
        Some((width, depth)) => {
            let w = decimal(width);
            let d = decimal(depth);
            let head = join3("Some((", w.as_str(), ", ");
            join3(head.as_str(), d.as_str(), "))")
        },
    };
    let quoted = debug_text(formation.name.as_str());
    let w = decimal(configured.0);
    let d = decimal(configured.1);
    let first = join3("side ", side_name, " unit type ");
    let second = join3(first.as_str(), quoted.as_str(), " layout footprint ");
    let third = join3(second.as_str(), declared.as_str(), " does not match simulator configuration (");
    let fourth = join3(third.as_str(), w.as_str(), ", ");
    Err(Error::new(join3(fourth.as_str(), d.as_str(), ")")))
}

/// A refusal kept, when there is one.
pub open spec fn keep_some(before: Seq<Seq<char>>, why: Option<Seq<char>>) -> Seq<Seq<char>> {
    match why {
        Some(message) => keep(before, message),
        None => before,
    }
}

/// The description of the unit type a formation names, when the
/// descriptions hold one.
pub open spec fn config_named(units: UnitConfigs, name: Seq<char>) -> Option<UnitConfig> {
    if exists|i: int| 0 <= i < units.units.len() && units.units[i].name@ == name {
        Some(units.units[choose|i: int| 0 <= i < units.units.len() && units.units[i].name@ == name])
    } else {
        None
    }
}

/// Why the kernel cannot fire a formation's unit, said of its side.
pub open spec fn fired_refusal(side_name: Seq<char>, rules: UnitConfig) -> Option<Seq<char>> {
    match unfired_reason(rules.attack) {
        None => None,
        Some(why) => Some("side "@ + side_name + ": "@ + "unit "@ + debug_quoted(rules.name@) + " "@ + why
            + ", which the kernel does not"@),
    }
}

/// Why a formation's position among its side's units does not fit the
/// build's integer.
pub open spec fn index_refusal(index: int) -> Option<Seq<char>> {
    if index > i32::MAX {
        Some("formation index exceeds the native integer range"@)
    } else {
        None
    }
}

/// What compiling one formation keeps as refusals, after `before`.
pub open spec fn formation_refusals(
    side_name: Seq<char>,
    index: int,
    formation: plan::Placement,
    units: UnitConfigs,
    side: plan::SidePlan,
    loadouts: Loadouts,
    before: Seq<Seq<char>>,
) -> Seq<Seq<char>> {
    if !(formation.native is Unit) {
        keep(before, "side "@ + side_name + " holds a placement that is not a unit"@)
    } else {
        match config_named(units, formation.name@) {
            None => keep(before, "side "@ + side_name + " unit type "@ + debug_quoted(formation.name@)
                + " has no unit configuration"@),
            Some(rules) => {
                let fired = keep_some(before, fired_refusal(side_name, rules));
                let fits = keep_some(fired, footprint_check(side_name, formation, rules));
                let loaded = keep_all(
                    fits,
                    loadout_answers(side_name, formation.name@, formation.equipment@, rules, side, loadouts),
                );
                keep_some(loaded, index_refusal(index))
            },
        }
    }
}

/// Whether `placed` is what compiling one formation of `team`, at position
/// `index` among its side's units, places.
pub open spec fn formation_placed(
    side_name: Seq<char>,
    team: u32,
    index: int,
    formation: plan::Placement,
    units: UnitConfigs,
    side: plan::SidePlan,
    loadouts: Loadouts,
    placed: Option<Placement>,
) -> bool {
    if !(formation.native is Unit) || config_named(units, formation.name@) is None {
        placed is None
    } else {
        let rules = config_named(units, formation.name@)->0;
        let written = all_written(
            loadout_answers(side_name, formation.name@, formation.equipment@, rules, side, loadouts),
        );
        if fired_refusal(side_name, rules) is Some || footprint_check(side_name, formation, rules) is Some
            || written is None || index_refusal(index) is Some {
            placed is None
        } else {
            placed matches Some(placement) && {
                &&& placement.team == team
                &&& placement.unit_id == 0
                &&& placement.formation_id == 0
                &&& placement.formation_index == index
                &&& placement.name@ == formation.name@
                &&& placement.world_x == (if team == 0 { formation.position.x as int } else { -formation.position.x })
                &&& placement.world_z == (if team == 0 { formation.position.y as int } else { -formation.position.y })
                &&& placement.rotation == (if team == 0 { 0int } else { 180_000int })
                &&& placement.rotated == formation.rotated
                &&& placement.level == (match formation.level { Some(level) => level as int, None => 1int })
                &&& placement.corrections@ == written->0
            }
        }
    }
}

/// One formation as the fight places it, or nothing with every reason it
/// cannot be placed kept.
pub fn compile_formation(
    side_name: &str,
    team: u32,
    index: usize,
    formation: &plan::Placement,
    units: &UnitConfigs,
    side: &plan::SidePlan,
    loadouts: &Loadouts,
    refused: &mut Refusals,
) -> (placed: Option<Placement>)
    requires
        units.wf(),
    ensures
        final(refused)@ == formation_refusals(side_name@, index as int, *formation, *units, *side, *loadouts, old(refused)@),
        formation_placed(side_name@, team, index as int, *formation, *units, *side, *loadouts, placed),
{
    let is_unit = match formation.native {
        plan::NativeFormation::Unit(_) => true,
        _ => false,
    };
    if !is_unit {
        refused.push(join3("side ", side_name, " holds a placement that is not a unit"));
        return None;
    }
    let rules = match units.get(formation.name.as_str()) {
        None => {
            let quoted = debug_text(formation.name.as_str());
            let head = join3("side ", side_name, " unit type ");
            refused.push(join3(head.as_str(), quoted.as_str(), " has no unit configuration"));
            proof {
                assert(config_named(*units, formation.name@) is None);
            }
            return None;
        },
        Some(rules) => rules,
    };
    proof {
        let i = choose|i: int| 0 <= i < units.units.len() && units.units[i] == *rules && rules.name@ == formation.name@;
        let j = choose|j: int| 0 <= j < units.units.len() && units.units[j].name@ == formation.name@;
        if i != j {
            if i < j {
                assert(units.units[i].name@ != units.units[j].name@);
            } else {
                assert(units.units[j].name@ != units.units[i].name@);
            }
        }
        assert(config_named(*units, formation.name@) == Some(*rules));
    }
    let fired = match rules.fired() {
        Ok(()) => true,
        Err(error) => {
            let said = join3("side ", side_name, join(": ", error.message.as_str()).as_str());
            assert(said@ =~= fired_refusal(side_name@, *rules)->0);
            refused.push(said);
            false
        },
    };
    let fits = match validate_formation_footprint(side_name, formation, rules) {
        Ok(()) => true,
        Err(error) => {
            refused.push(error.message);
            false
        },
    };
    let level: i64 = match formation.level {
        Some(level) => level as i64,
        None => 1,
    };
    let corrections = loadout(side_name, formation.name.as_str(), &formation.equipment, rules, side, loadouts, refused);
    let index_fits = index <= i32::MAX as usize;
    if !index_fits {
        refused.push(String::from_str("formation index exceeds the native integer range"));
    }
    if !fired || !fits || !index_fits {
        return None;
    }
    let corrections = match corrections {
        None => {
            return None;
        },
        Some(corrections) => corrections,
    };
    let local_x = formation.position.x as i64;
    let local_z = formation.position.y as i64;
    let (world_x, world_z, rotation) = if team == 0 {
        (local_x, local_z, 0i64)
    } else {
        (-local_x, -local_z, 180_000i64)
    };
    Some(
        Placement {
            team,
            unit_id: 0,
            formation_id: 0,
            formation_index: index as i32,
            name: formation.name.clone(),
            world_x,
            world_z,
            rotation,
            rotated: formation.rotated,
            level,
            corrections,
        },
    )
}

/// Why one placement of a side's constructions is refused, if the table
/// refuses it.
pub open spec fn construction_refusal(constructions: Constructions, placement: plan::Placement) -> Option<Seq<char>> {
    match placement.native {
        plan::NativeFormation::Construction(id) => if !constructions.rows@.contains_key(id) {
            Some("construction "@ + decimal_spec(id as int) + " ("@ + debug_quoted(placement.name@)
                + ") is not in the construction table"@)
        } else {
            let row = constructions.rows@[id];
            if row.damage != 0 && skill_check(constructions.skills@, row) is Some {
                skill_check(constructions.skills@, row)
            } else if offsets_spec(row) is None {
                Some(construction_named(row) + " places "@ + decimal_spec(row.count as int) + " objects over "@
                    + decimal_spec(row.real_row_count as int) + " rows, and where they stand is not measured"@)
            } else {
                None
            }
        },
        _ => Some("placement "@ + debug_quoted(placement.name@) + " is not a construction"@),
    }
}

/// Whether a placement's construction fires a skill.
pub open spec fn construction_fires(constructions: Constructions, placement: plan::Placement) -> bool {
    placement.native matches plan::NativeFormation::Construction(id) && constructions.rows@[id].damage != 0
}

/// Whether a side carries officers or unit technologies, which a firing
/// construction is refused beside.
pub open spec fn loaded(side: plan::SidePlan) -> bool {
    side.officers.len() != 0 || side.unit_technologies.len() != 0
}

/// Why a firing construction is refused beside a side's loadout.
pub open spec fn firing_refusal(side_name: Seq<char>, placement: plan::Placement) -> Seq<char> {
    "side "@ + side_name + ": "@ + debug_quoted(placement.name@)
        + " fires a skill, and whether the side's officers and technologies reach it is not measured"@
}

/// Whether a placement of a side's constructions reaches the fight.
pub open spec fn construction_accepted(constructions: Constructions, placement: plan::Placement, side: plan::SidePlan) -> bool {
    construction_refusal(constructions, placement) is None && !(construction_fires(constructions, placement) && loaded(side))
}

/// What compiling a side's constructions keeps as refusals, after `before`.
pub open spec fn constructions_kept(
    before: Seq<Seq<char>>,
    constructions: Constructions,
    side_name: Seq<char>,
    side: plan::SidePlan,
    placements: Seq<plan::Placement>,
) -> Seq<Seq<char>>
    decreases placements.len(),
{
    if placements.len() == 0 {
        before
    } else {
        let kept = constructions_kept(before, constructions, side_name, side, placements.drop_last());
        let placement = placements.last();
        match construction_refusal(constructions, placement) {
            Some(message) => keep(kept, "side "@ + side_name + ": "@ + message),
            None => if construction_fires(constructions, placement) && loaded(side) {
                keep(kept, firing_refusal(side_name, placement))
            } else {
                kept
            },
        }
    }
}

/// Blocks of buildings, one after another.
pub open spec fn flatten(blocks: Seq<Seq<ConstructionBuilding>>) -> Seq<ConstructionBuilding>
    decreases blocks.len(),
{
    if blocks.len() == 0 {
        Seq::empty()
    } else {
        flatten(blocks.drop_last()) + blocks.last()
    }
}

/// Whether `block` is what one placement of a side's constructions adds to
/// the fight: nothing when it is refused, its buildings otherwise.
pub open spec fn block_of(
    block: Seq<ConstructionBuilding>,
    constructions: Constructions,
    team: u32,
    placement: plan::Placement,
    side: plan::SidePlan,
) -> bool {
    if construction_accepted(constructions, placement, side) {
        let row = constructions.rows@[placement.native->Construction_0];
        buildings_of(block, team, placement, row, offsets_spec(row)->0, row_skill(constructions, row))
    } else {
        block.len() == 0
    }
}

/// Whether a building list holds a building that fires.
fn any_fires(buildings: &Vec<ConstructionBuilding>) -> (result: bool)
    ensures
        result == exists|k: int| 0 <= k < buildings.len() && buildings[k].skill is Some,
{
    let mut k: usize = 0;
    while k < buildings.len()
        invariant
            k <= buildings.len(),
            forall|a: int| 0 <= a < k ==> buildings[a].skill is None,
        decreases buildings.len() - k,
    {
        if buildings[k].skill.is_some() {
            return true;
        }
        k = k + 1;
    }
    false
}

/// What the table's answer for a placement says of its refusal and its
/// buildings.
proof fn lemma_buildings_answer(
    constructions: Constructions,
    team: u32,
    placement: plan::Placement,
    answer: Result<Vec<ConstructionBuilding>, Error>,
)
    requires
        crate::layout::buildings_outcome(constructions, team, placement, answer),
    ensures
        answer is Err <==> construction_refusal(constructions, placement) is Some,
        answer matches Err(error) ==> Some(error.message@) == construction_refusal(constructions, placement),
        answer matches Ok(list) ==> {
            let row = constructions.rows@[placement.native->Construction_0];
            &&& placement.native is Construction
            &&& offsets_spec(row) is Some
            &&& buildings_of(list@, team, placement, row, offsets_spec(row)->0, row_skill(constructions, row))
        },
{
}

/// A row's offsets, when known, are at least one.
proof fn lemma_offsets_nonempty(row: crate::layout::ConstructionRow)
    requires
        offsets_spec(row) is Some,
    ensures
        offsets_spec(row)->0.len() >= 1,
{
}

/// The buildings a side's constructions put on the board, with every
/// construction that is refused kept as a refusal said of the side.
///
/// A firing construction on a side that carries officers or technologies is
/// refused rather than fought without them: whether they reach its skill is
/// not measured.
pub fn compile_constructions(
    side_name: &str,
    team: u32,
    side: &plan::SidePlan,
    table: &Constructions,
    refused: &mut Refusals,
) -> (built: Vec<ConstructionBuilding>)
    ensures
        final(refused)@ == constructions_kept(old(refused)@, *table, side_name@, *side, side.constructions@),
        exists|blocks: Seq<Seq<ConstructionBuilding>>| {
            &&& blocks.len() == side.constructions.len()
            &&& built@ == flatten(blocks)
            &&& forall|k: int| 0 <= k < blocks.len() ==> block_of(#[trigger] blocks[k], *table, team, side.constructions[k], *side)
        },
{
    let placements = &side.constructions;
    let mut built: Vec<ConstructionBuilding> = Vec::new();
    let ghost mut blocks: Seq<Seq<ConstructionBuilding>> = Seq::empty();
    let mut i: usize = 0;
    while i < placements.len()
        invariant
            i <= placements.len(),
            placements@ == side.constructions@,
            refused@ == constructions_kept(old(refused)@, *table, side_name@, *side, placements@.take(i as int)),
            blocks.len() == i,
            built@ == flatten(blocks),
            forall|k: int| 0 <= k < i ==> block_of(#[trigger] blocks[k], *table, team, placements[k], *side),
        decreases placements.len() - i,
    {
        assert(placements@.take(i as int + 1).drop_last() =~= placements@.take(i as int));
        let placement = &placements[i];
        let answer = table.buildings(team, placement);
        proof {
            lemma_buildings_answer(*table, team, *placement, answer);
        }
        match answer {
            Err(error) => {
                let said = join3("side ", side_name, join(": ", error.message.as_str()).as_str());
                assert(said@ =~= "side "@ + side_name@ + ": "@ + error.message@);
                refused.push(said);
                proof {
                    assert(blocks.push(Seq::empty()).drop_last() =~= blocks);
                    assert(flatten(blocks.push(Seq::empty())) =~= flatten(blocks));
                    blocks = blocks.push(Seq::empty());
                }
            },
            Ok(buildings) => {
                proof {
                    let id = placement.native->Construction_0;
                    let row = table.rows@[id];
                    lemma_offsets_nonempty(row);
                }
                let fires = any_fires(&buildings);
                proof {
                    let row = table.rows@[placement.native->Construction_0];
                    if row.damage != 0 {
                        assert(buildings@[0].skill is Some);
                    }
                    assert(fires == construction_fires(*table, *placement));
                }
                if fires && (side.officers.len() != 0 || side.unit_technologies.len() != 0) {
                    let quoted = debug_text(placement.name.as_str());
                    let head = join3("side ", side_name, ": ");
                    let said = join3(
                        head.as_str(),
                        quoted.as_str(),
                        " fires a skill, and whether the side's officers and technologies reach it is not measured",
                    );
                    assert(said@ =~= firing_refusal(side_name@, *placement));
                    refused.push(said);
                    proof {
                        assert(blocks.push(Seq::empty()).drop_last() =~= blocks);
                        assert(flatten(blocks.push(Seq::empty())) =~= flatten(blocks));
                        blocks = blocks.push(Seq::empty());
                    }
                } else {
                    let ghost block = buildings@;
                    let mut buildings = buildings;
                    let ghost before = built@;
                    built.append(&mut buildings);
                    proof {
                        assert(blocks.push(block).drop_last() =~= blocks);
                        assert(built@ =~= flatten(blocks.push(block)));
                        blocks = blocks.push(block);
                    }
                }
            },
        }
        i = i + 1;
    }
    assert(placements@.take(placements.len() as int) =~= placements@);
    built
}

/// What compiling a side's formations keeps as refusals, after `before`.
pub open spec fn formations_kept(
    before: Seq<Seq<char>>,
    side_name: Seq<char>,
    formations: Seq<plan::Placement>,
    units: UnitConfigs,
    side: plan::SidePlan,
    loadouts: Loadouts,
) -> Seq<Seq<char>>
    decreases formations.len(),
{
    if formations.len() == 0 {
        before
    } else {
        formation_refusals(
            side_name,
            formations.len() - 1,
            formations.last(),
            units,
            side,
            loadouts,
            formations_kept(before, side_name, formations.drop_last(), units, side, loadouts),
        )
    }
}

/// A side's tower strengthen levels as the bytes the fight holds, or the
/// first that does not fit one, from position `from` on.
pub open spec fn tower_levels_from(levels: Seq<i32>, from: int) -> Result<Seq<u8>, Seq<char>>
    decreases levels.len() - from,
{
    if from >= levels.len() || from < 0 {
        Ok(Seq::empty())
    } else if !(0 <= levels[from] <= 255) {
        Err("a tower strengthen level of "@ + decimal_spec(levels[from] as int))
    } else {
        match tower_levels_from(levels, from + 1) {
            Ok(rest) => Ok(seq![levels[from] as u8] + rest),
            Err(message) => Err(message),
        }
    }
}

/// What the module registry keeps as a refusal of a side, after `before`.
pub open spec fn registry_kept(before: Seq<Seq<char>>, side_name: Seq<char>, side: plan::SidePlan) -> Seq<Seq<char>> {
    let missing = unsupported_spec(side);
    if missing.len() != 0 {
        keep(before, "side "@ + side_name + " needs modules this build has not implemented: "@ + listed(missing))
    } else {
        before
    }
}

/// What compiling a side keeps as refusals, after `before`: its formations,
/// its constructions, then its tower levels.
pub open spec fn side_kept(
    before: Seq<Seq<char>>,
    side_name: Seq<char>,
    side: plan::SidePlan,
    units: UnitConfigs,
    loadouts: Loadouts,
    table: Constructions,
) -> Seq<Seq<char>> {
    let formed = formations_kept(before, side_name, side.units@, units, side, loadouts);
    let built = constructions_kept(formed, table, side_name, side, side.constructions@);
    match tower_levels_from(side.tower_strengthen_levels@, 0) {
        Err(message) => keep(built, message),
        Ok(_) => built,
    }
}

/// The placements of the formations that were placed, in order.
pub open spec fn somes(placed: Seq<Option<Placement>>) -> Seq<Placement>
    decreases placed.len(),
{
    if placed.len() == 0 {
        Seq::empty()
    } else {
        match placed.last() {
            Some(placement) => somes(placed.drop_last()).push(placement),
            None => somes(placed.drop_last()),
        }
    }
}

/// Whether `placed` holds, for each formation of a side, what compiling it
/// places.
pub open spec fn side_placed(
    placed: Seq<Option<Placement>>,
    side_name: Seq<char>,
    team: u32,
    side: plan::SidePlan,
    units: UnitConfigs,
    loadouts: Loadouts,
) -> bool {
    &&& placed.len() == side.units.len()
    &&& forall|k: int| 0 <= k < placed.len() ==> formation_placed(side_name, team, k, side.units[k], units, side, loadouts, #[trigger] placed[k])
}

/// Whether `blocks` holds, for each construction of a side, what compiling
/// it adds.
pub open spec fn side_built(blocks: Seq<Seq<ConstructionBuilding>>, team: u32, side: plan::SidePlan, table: Constructions) -> bool {
    &&& blocks.len() == side.constructions.len()
    &&& forall|k: int| 0 <= k < blocks.len() ==> block_of(#[trigger] blocks[k], table, team, side.constructions[k], side)
}

/// A side's tower strengthen levels as bytes, or the first that does not fit.
pub fn tower_levels(levels: &Vec<i32>) -> (result: Result<Vec<u8>, Error>)
    ensures
        match tower_levels_from(levels@, 0) {
            Ok(bytes) => (result matches Ok(list) && list@ == bytes),
            Err(message) => (result matches Err(error) && error.message@ == message),
        },
{
    let mut bytes: Vec<u8> = Vec::new();
    let mut i: usize = 0;
    while i < levels.len()
        invariant
            i <= levels.len(),
            forall|k: int| 0 <= k < i ==> 0 <= #[trigger] levels[k] <= 255,
            bytes@.len() == i,
            forall|k: int| 0 <= k < i ==> bytes@[k] == levels[k] as u8,
        decreases levels.len() - i,
    {
        if levels[i] < 0 || levels[i] > 255 {
            proof {
                lemma_tower_levels_reach(levels@, i as int);
            }
            let number = decimal(levels[i] as i64);
            return Err(Error::new(join("a tower strengthen level of ", number.as_str())));
        }
        bytes.push(levels[i] as u8);
        i = i + 1;
    }
    proof {
        lemma_tower_levels_all(levels@, 0, bytes@);
    }
    Ok(bytes)
}

/// Every level before `at` fits a byte, so reading from the start reaches
/// `at`'s answer.
proof fn lemma_tower_levels_reach(levels: Seq<i32>, at: int)
    requires
        0 <= at < levels.len(),
        forall|k: int| 0 <= k < at ==> 0 <= #[trigger] levels[k] <= 255,
        !(0 <= levels[at] <= 255),
    ensures
        tower_levels_from(levels, 0) == Err::<Seq<u8>, Seq<char>>("a tower strengthen level of "@ + decimal_spec(levels[at] as int)),
    decreases at,
{
    lemma_tower_levels_reach_from(levels, 0, at);
}

proof fn lemma_tower_levels_reach_from(levels: Seq<i32>, from: int, at: int)
    requires
        0 <= from <= at < levels.len(),
        forall|k: int| 0 <= k < at ==> 0 <= #[trigger] levels[k] <= 255,
        !(0 <= levels[at] <= 255),
    ensures
        tower_levels_from(levels, from) == Err::<Seq<u8>, Seq<char>>("a tower strengthen level of "@ + decimal_spec(levels[at] as int)),
    decreases at - from,
{
    if from < at {
        lemma_tower_levels_reach_from(levels, from + 1, at);
    }
}

/// When every level fits a byte, the bytes are the levels.
proof fn lemma_tower_levels_all(levels: Seq<i32>, from: int, bytes: Seq<u8>)
    requires
        0 <= from <= levels.len(),
        forall|k: int| 0 <= k < levels.len() ==> 0 <= #[trigger] levels[k] <= 255,
        bytes.len() == levels.len(),
        forall|k: int| 0 <= k < levels.len() ==> bytes[k] == levels[k] as u8,
    ensures
        tower_levels_from(levels, from) == Ok::<Seq<u8>, Seq<char>>(bytes.subrange(from, levels.len() as int)),
    decreases levels.len() - from,
{
    if from < levels.len() {
        lemma_tower_levels_all(levels, from + 1, bytes);
        assert(seq![levels[from] as u8] + bytes.subrange(from + 1, levels.len() as int) =~= bytes.subrange(
            from,
            levels.len() as int,
        ));
    } else {
        assert(bytes.subrange(from, levels.len() as int) =~= Seq::<u8>::empty());
    }
}

/// Keeping refusals never forgets one kept before.
pub proof fn lemma_keep_all_grows(before: Seq<Seq<char>>, answers: Seq<Result<Seq<(Channel, Entry)>, Seq<char>>>)
    ensures
        keep_all(before, answers).len() >= before.len(),
    decreases answers.len(),
{
    if answers.len() > 0 {
        lemma_keep_all_grows(before, answers.drop_last());
    }
}

/// Compiling formations never forgets a refusal kept before.
pub proof fn lemma_formations_kept_grows(
    before: Seq<Seq<char>>,
    side_name: Seq<char>,
    formations: Seq<plan::Placement>,
    units: UnitConfigs,
    side: plan::SidePlan,
    loadouts: Loadouts,
)
    ensures
        formations_kept(before, side_name, formations, units, side, loadouts).len() >= before.len(),
    decreases formations.len(),
{
    if formations.len() > 0 {
        let earlier = formations_kept(before, side_name, formations.drop_last(), units, side, loadouts);
        lemma_formations_kept_grows(before, side_name, formations.drop_last(), units, side, loadouts);
        let formation = formations.last();
        if formation.native is Unit {
            match config_named(units, formation.name@) {
                Some(rules) => {
                    let fired = keep_some(earlier, fired_refusal(side_name, rules));
                    let fits = keep_some(fired, footprint_check(side_name, formation, rules));
                    lemma_keep_all_grows(
                        fits,
                        loadout_answers(side_name, formation.name@, formation.equipment@, rules, side, loadouts),
                    );
                },
                None => {},
            }
        }
    }
}

/// Compiling constructions never forgets a refusal kept before.
pub proof fn lemma_constructions_kept_grows(
    before: Seq<Seq<char>>,
    table: Constructions,
    side_name: Seq<char>,
    side: plan::SidePlan,
    placements: Seq<plan::Placement>,
)
    ensures
        constructions_kept(before, table, side_name, side, placements).len() >= before.len(),
    decreases placements.len(),
{
    if placements.len() > 0 {
        lemma_constructions_kept_grows(before, table, side_name, side, placements.drop_last());
    }
}

/// Compiling a side never forgets a refusal kept before, and a side whose
/// tower levels do not fit is refused.
pub proof fn lemma_side_kept_grows(
    before: Seq<Seq<char>>,
    side_name: Seq<char>,
    side: plan::SidePlan,
    units: UnitConfigs,
    loadouts: Loadouts,
    table: Constructions,
)
    ensures
        side_kept(before, side_name, side, units, loadouts, table).len() >= before.len(),
        tower_levels_from(side.tower_strengthen_levels@, 0) is Err ==> side_kept(
            before,
            side_name,
            side,
            units,
            loadouts,
            table,
        ).len() >= 1,
{
    lemma_formations_kept_grows(before, side_name, side.units@, units, side, loadouts);
    let formed = formations_kept(before, side_name, side.units@, units, side, loadouts);
    lemma_constructions_kept_grows(formed, table, side_name, side, side.constructions@);
}

/// A compiled layout: its round, every formation and building the fight
/// places, and each side's tower strengthen levels.
#[derive(Debug)]
pub struct CompiledLayout {
    pub round: u32,
    pub placements: Vec<Placement>,
    pub constructions: Vec<ConstructionBuilding>,
    pub tower_levels: BTreeMap<u32, Vec<u8>>,
}

/// A layout as its document compiles it: its seed, when it carries one, its
/// round, and its two sides.
#[derive(Debug, Clone)]
pub struct LayoutPlan {
    pub seed: Option<i32>,
    pub round: i32,
    pub blue: plan::SidePlan,
    pub red: plan::SidePlan,
}

/// Compiles one side's formations, constructions and tower levels onto what
/// is compiled so far.
pub fn compile_side(
    side_name: &str,
    team: u32,
    side: &plan::SidePlan,
    units: &UnitConfigs,
    loadouts: &Loadouts,
    table: &Constructions,
    refused: &mut Refusals,
    placements: &mut Vec<Placement>,
    constructions: &mut Vec<ConstructionBuilding>,
    levels: &mut BTreeMap<u32, Vec<u8>>,
)
    requires
        units.wf(),
    ensures
        final(refused)@ == side_kept(old(refused)@, side_name@, *side, *units, *loadouts, *table),
        exists|placed: Seq<Option<Placement>>| side_placed(placed, side_name@, team, *side, *units, *loadouts)
            && final(placements)@ == old(placements)@ + somes(placed),
        exists|blocks: Seq<Seq<ConstructionBuilding>>| side_built(blocks, team, *side, *table)
            && final(constructions)@ == old(constructions)@ + flatten(blocks),
        match tower_levels_from(side.tower_strengthen_levels@, 0) {
            Ok(bytes) => final(levels)@ == old(levels)@.insert(team, final(levels)@[team]) && final(levels)@[team]@ == bytes,
            Err(_) => final(levels)@ == old(levels)@,
        },
{
    let formations = &side.units;
    let ghost start = placements@;
    let ghost mut placed: Seq<Option<Placement>> = Seq::empty();
    let mut i: usize = 0;
    while i < formations.len()
        invariant
            i <= formations.len(),
            units.wf(),
            formations@ == side.units@,
            refused@ == formations_kept(old(refused)@, side_name@, formations@.take(i as int), *units, *side, *loadouts),
            placed.len() == i,
            forall|k: int| 0 <= k < i ==> formation_placed(side_name@, team, k, side.units[k], *units, *side, *loadouts, #[trigger] placed[k]),
            placements@ == start + somes(placed),
        decreases formations.len() - i,
    {
        assert(formations@.take(i as int + 1).drop_last() =~= formations@.take(i as int));
        let compiled = compile_formation(side_name, team, i, &formations[i], units, side, loadouts, refused);
        proof {
            assert(placed.push(compiled).drop_last() =~= placed);
        }
        match compiled {
            Some(placement) => {
                placements.push(placement);
            },
            None => {},
        }
        proof {
            placed = placed.push(compiled);
        }
        i = i + 1;
    }
    assert(formations@.take(formations.len() as int) =~= formations@);
    assert(side_placed(placed, side_name@, team, *side, *units, *loadouts));
    let mut built = compile_constructions(side_name, team, side, table, refused);
    let ghost blocks = choose|blocks: Seq<Seq<ConstructionBuilding>>| {
        &&& blocks.len() == side.constructions.len()
        &&& built@ == flatten(blocks)
        &&& forall|k: int| 0 <= k < blocks.len() ==> block_of(#[trigger] blocks[k], *table, team, side.constructions[k], *side)
    };
    assert(side_built(blocks, team, *side, *table));
    constructions.append(&mut built);
    let answer = tower_levels(&side.tower_strengthen_levels);
    match answer {
        Ok(bytes) => {
            levels.insert(team, bytes);
        },
        Err(error) => {
            refused.push(error.message);
        },
    }
}

/// Every refusal compiling a layout keeps, in order: the module registry's
/// for each side, then each side's own.
pub open spec fn layout_refusals(plan: LayoutPlan, units: UnitConfigs, loadouts: Loadouts, table: Constructions) -> Seq<
    Seq<char>,
> {
    let registered = registry_kept(registry_kept(Seq::empty(), "blue"@, plan.blue), "red"@, plan.red);
    let blue = side_kept(registered, "blue"@, plan.blue, units, loadouts, table);
    side_kept(blue, "red"@, plan.red, units, loadouts, table)
}

/// A layout's plan, compiled: its seed, and what the fight places, or every
/// reason it cannot be fought as one refusal.
///
/// Both sides are asked everything before either is refused. The registry
/// speaks first, one clause a side naming every field it owes; what it lets
/// through is then refused formation by formation.
pub fn compile_with_seed(
    plan: &LayoutPlan,
    units: &UnitConfigs,
    loadouts: &Loadouts,
    table: &Constructions,
) -> (result: Result<(Option<i32>, CompiledLayout), Error>)
    requires
        units.wf(),
        plan.round >= 0,
    ensures
        ({
            let refusals = layout_refusals(*plan, *units, *loadouts, *table);
            match result {
                Err(error) => refusals.len() != 0 && error.message@ == joined(refusals),
                Ok((seed, layout)) => {
                    &&& refusals.len() == 0
                    &&& seed == plan.seed
                    &&& layout.round == plan.round
                    &&& exists|blue: Seq<Option<Placement>>, red: Seq<Option<Placement>>|
                        side_placed(blue, "blue"@, 0, plan.blue, *units, *loadouts) && side_placed(
                            red,
                            "red"@,
                            1,
                            plan.red,
                            *units,
                            *loadouts,
                        ) && layout.placements@ == somes(blue) + somes(red)
                    &&& exists|blue: Seq<Seq<ConstructionBuilding>>, red: Seq<Seq<ConstructionBuilding>>|
                        side_built(blue, 0, plan.blue, *table) && side_built(red, 1, plan.red, *table)
                            && layout.constructions@ == flatten(blue) + flatten(red)
                    &&& forall|team: u32| layout.tower_levels@.contains_key(team) <==> (team == 0 || team == 1)
                    &&& tower_levels_from(plan.blue.tower_strengthen_levels@, 0) == Ok::<Seq<u8>, Seq<char>>(
                        layout.tower_levels@[0]@,
                    )
                    &&& tower_levels_from(plan.red.tower_strengthen_levels@, 0) == Ok::<Seq<u8>, Seq<char>>(
                        layout.tower_levels@[1]@,
                    )
                },
            }
        }),
{
    let mut refused = Refusals::new();
    let missing = unsupported(&plan.blue);
    if missing.len() != 0 {
        refused.push(refusal("blue", &missing));
    }
    let missing = unsupported(&plan.red);
    if missing.len() != 0 {
        refused.push(refusal("red", &missing));
    }
    let mut placements: Vec<Placement> = Vec::new();
    let mut constructions: Vec<ConstructionBuilding> = Vec::new();
    let mut levels: BTreeMap<u32, Vec<u8>> = BTreeMap::new();
    let ghost registered = refused@;
    compile_side("blue", 0, &plan.blue, units, loadouts, table, &mut refused, &mut placements, &mut constructions, &mut levels);
    let ghost after_blue = refused@;
    let ghost placed_blue = placements@;
    let ghost built_blue = constructions@;
    let ghost levels_blue = levels@;
    compile_side("red", 1, &plan.red, units, loadouts, table, &mut refused, &mut placements, &mut constructions, &mut levels);
    proof {
        lemma_side_kept_grows(registered, "blue"@, plan.blue, *units, *loadouts, *table);
        lemma_side_kept_grows(after_blue, "red"@, plan.red, *units, *loadouts, *table);
        let blue = choose|placed: Seq<Option<Placement>>| side_placed(placed, "blue"@, 0, plan.blue, *units, *loadouts)
            && placed_blue == Seq::<Placement>::empty() + somes(placed);
        let red = choose|placed: Seq<Option<Placement>>| side_placed(placed, "red"@, 1, plan.red, *units, *loadouts)
            && placements@ == placed_blue + somes(placed);
        assert(placements@ =~= somes(blue) + somes(red));
        let blue_blocks = choose|blocks: Seq<Seq<ConstructionBuilding>>| side_built(blocks, 0, plan.blue, *table)
            && built_blue == Seq::<ConstructionBuilding>::empty() + flatten(blocks);
        let red_blocks = choose|blocks: Seq<Seq<ConstructionBuilding>>| side_built(blocks, 1, plan.red, *table)
            && constructions@ == built_blue + flatten(blocks);
        assert(constructions@ =~= flatten(blue_blocks) + flatten(red_blocks));
    }
    refused.settle()?;
    Ok((plan.seed, CompiledLayout { round: plan.round as u32, placements, constructions, tower_levels: levels }))
}

} // verus!
