//! A layout as the fight places it: where each formation stands in the one
//! world both sides share, what a side's constructions become, and every
//! reason a layout is refused, gathered rather than stopped at.

use std::collections::BTreeMap;

use vstd::prelude::*;

use crate::Error;
use crate::modifier::effects::{fixed_to, fixed_to_spec};
use crate::modifier::officers::{first_repeat, lemma_first_repeat_settles};
use crate::plan::{NativeFormation, Placement};
use crate::rules::{AttackConfig, AttackPath, WeaponMode, same_attack};
use crate::text::{concat_spec, debug_quoted, debug_text, decimal, decimal_spec, join, join3};

verus! {

broadcast use {vstd::std_specs::btree::group_btree_axioms, vstd::laws_cmp::group_laws_cmp};

/// Everything a layout is refused for, gathered rather than stopped at.
///
/// A caller wants to know how far a deployment is from being fought, not its
/// first step, so compiling goes on past a refusal and names every one. The
/// same refusal is named once.
#[derive(Debug)]
pub struct Refusals {
    pub reasons: Vec<String>,
}

/// The texts of a list of refusals, in order.
pub open spec fn texts(reasons: Seq<String>) -> Seq<Seq<char>> {
    reasons.map_values(|reason: String| reason@)
}

/// Whether no refusal is named twice.
pub open spec fn named_once(reasons: Seq<Seq<char>>) -> bool {
    forall|i: int, j: int| 0 <= i < j < reasons.len() ==> reasons[i] != reasons[j]
}

/// The refusals one after another, with "; " between two.
pub open spec fn joined(reasons: Seq<Seq<char>>) -> Seq<char>
    decreases reasons.len(),
{
    if reasons.len() == 0 {
        Seq::empty()
    } else if reasons.len() == 1 {
        reasons[0]
    } else {
        joined(reasons.drop_last()) + "; "@ + reasons.last()
    }
}

impl Refusals {
    /// The refusals, as text.
    pub open spec fn view(&self) -> Seq<Seq<char>> {
        texts(self.reasons@)
    }

    /// Nothing refused yet.
    pub fn new() -> (refusals: Self)
        ensures
            refusals@ == Seq::<Seq<char>>::empty(),
    {
        Refusals { reasons: Vec::new() }
    }

    /// Keeps a refusal, unless the same words are already kept.
    pub fn push(&mut self, why: String)
        ensures
            final(self)@ == if old(self)@.contains(why@) {
                old(self)@
            } else {
                old(self)@.push(why@)
            },
    {
        let mut i: usize = 0;
        while i < self.reasons.len()
            invariant
                i <= self.reasons.len(),
                self@ == old(self)@,
                forall|k: int| 0 <= k < i ==> self.reasons[k]@ != why@,
            decreases self.reasons.len() - i,
        {
            if self.reasons[i] == why {
                assert(self@[i as int] == why@);
                return;
            }
            i = i + 1;
        }
        proof {
            assert(!self@.contains(why@)) by {
                if self@.contains(why@) {
                    let k = choose|k: int| 0 <= k < self@.len() && self@[k] == why@;
                    assert(self.reasons[k]@ == why@);
                }
            }
        }
        self.reasons.push(why);
        assert(self@ =~= old(self)@.push(why@));
    }

    /// The value, or nothing with its refusal kept.
    pub fn hold<T>(&mut self, result: Result<T, Error>) -> (value: Option<T>)
        ensures
            match result {
                Ok(v) => value == Some(v) && final(self)@ == old(self)@,
                Err(error) => value is None && final(self)@ == if old(self)@.contains(error.message@) {
                    old(self)@
                } else {
                    old(self)@.push(error.message@)
                },
            },
    {
        match result {
            Ok(v) => Some(v),
            Err(error) => {
                self.push(error.message);
                None
            },
        }
    }

    /// Whether anything was refused, and if so every refusal as one error.
    pub fn settle(self) -> (result: Result<(), Error>)
        ensures
            self@.len() == 0 ==> result is Ok,
            self@.len() != 0 ==> (result matches Err(error) && error.message@ == joined(self@)),
    {
        if self.reasons.len() == 0 {
            return Ok(());
        }
        let mut text = String::new();
        let mut i: usize = 0;
        while i < self.reasons.len()
            invariant
                i <= self.reasons.len(),
                text@ == joined(self@.take(i as int)),
            decreases self.reasons.len() - i,
        {
            assert(self@.take(i as int + 1).drop_last() =~= self@.take(i as int));
            if i > 0 {
                text.append("; ");
            }
            text.append(self.reasons[i].as_str());
            proof {
                if i == 0 {
                    assert(text@ =~= joined(self@.take(1)));
                } else {
                    assert(text@ =~= joined(self@.take(i as int + 1)));
                }
            }
            i = i + 1;
        }
        assert(self@.take(self.reasons.len() as int) =~= self@);
        Err(Error::new(text))
    }
}

/// A refusal kept once stays named once: keeping another refusal never names
/// one twice.
pub proof fn lemma_a_refusal_is_named_once(before: Seq<Seq<char>>, why: Seq<char>)
    requires
        named_once(before),
    ensures
        named_once(if before.contains(why) {
            before
        } else {
            before.push(why)
        }),
{
    if !before.contains(why) {
        let after = before.push(why);
        assert forall|i: int, j: int| 0 <= i < j < after.len() implies after[i] != after[j] by {
            if j == before.len() {
                assert(after[i] == before[i]);
                assert(before.contains(before[i]));
            }
        }
    }
}

/// Space units to the metre.
pub const SPACE: i64 = 1000i64;

/// A Q32.32 length in space units. Every radius in the table is a whole
/// number of metres, so this is exact for them.
pub fn fixed_to_space(raw: i64) -> (result: i64)
    ensures
        result == fixed_to_spec(raw as int, 1000),
{
    fixed_to(raw, SPACE)
}

/// The build type every construction is: `Special`.
pub const SPECIAL: u32 = 3u32;

/// The spacing between the objects of one construction, in metres, for the
/// constructions whose geometry has been measured: by construction id.
pub open spec fn measured_spacing_spec() -> Seq<(i32, i64)> {
    seq![(1i32, 12i64)]
}

/// The measured spacings. Adding one means measuring it.
pub fn measured_spacing() -> (spacing: Vec<(i32, i64)>)
    ensures
        spacing@ == measured_spacing_spec(),
{
    let spacing = vec![(1i32, 12i64)];
    assert(spacing@ =~= measured_spacing_spec());
    spacing
}

/// One row of the construction table, whole.
#[derive(Debug, Clone)]
pub struct ConstructionRow {
    pub id: i32,
    pub name: String,
    pub layout_name: Option<String>,
    pub count: i32,
    pub max_life: i32,
    pub damage: i32,
    pub durability: i32,
    pub block_width: i32,
    pub space: i32,
    pub grid_column_count: i32,
    pub grid_row_count: i32,
    pub real_row_count: i32,
    pub rotate_speed: i32,
    pub skill_id: i32,
    pub exp: i32,
    pub sell_supply: i32,
    pub pathfinding_collider_priority: i32,
    pub default_actor_visibility: i32,
    /// Q32.32 metres.
    pub radius: i64,
    pub path_radius: i64,
    /// Q32.32 degrees.
    pub attack_angle: i64,
    pub special_damage_reduce_rate: i64,
    pub has_durability: bool,
    pub can_be_bought: bool,
    pub can_be_sold: bool,
    pub can_be_effected_by_tower_buff: bool,
    pub enable_search_target: bool,
    pub quick_search_target: bool,
}

/// The spacing measured for construction `id`, the first entry for it.
pub open spec fn spacing_of(measured: Seq<(i32, i64)>, id: i32) -> Option<i64>
    decreases measured.len(),
{
    if measured.len() == 0 {
        None
    } else if measured[0].0 == id {
        Some(measured[0].1)
    } else {
        spacing_of(measured.drop_first(), id)
    }
}

/// Where a row's objects stand relative to the placement, in whole metres
/// along x, if that is known.
pub open spec fn offsets_spec(row: ConstructionRow) -> Option<Seq<i64>> {
    if row.count == 1 {
        Some(seq![0i64])
    } else {
        match spacing_of(measured_spacing_spec(), row.id) {
            None => None,
            Some(spacing) => if row.real_row_count != 1 || row.count % 2 == 0 || row.count < 1 {
                None
            } else {
                let middle = (row.count - 1) / 2;
                Some(Seq::new(row.count as nat, |k: int| ((k - middle) * spacing) as i64))
            },
        }
    }
}

impl ConstructionRow {
    /// Where this construction's objects stand, relative to the placement, in
    /// whole metres along x.
    ///
    /// One object stands on the placement itself, whatever the row. More than
    /// one is answered only for a row whose spacing was measured and which
    /// places them in a single row: more rows are a second dimension nobody
    /// has read back, and an even count has no object on the placement to
    /// measure the others from.
    pub fn offsets(&self) -> (offsets: Option<Vec<i64>>)
        ensures
            match offsets_spec(*self) {
                None => offsets is None,
                Some(expected) => (offsets matches Some(list) && list@ == expected),
            },
    {
        if self.count == 1 {
            let only = vec![0i64];
            assert(only@ =~= seq![0i64]);
            return Some(only);
        }
        let measured = measured_spacing();
        let mut found: Option<i64> = None;
        let mut i: usize = 0;
        assert(measured@.skip(0) =~= measured@);
        while i < measured.len()
            invariant
                i <= measured.len(),
                measured@ == measured_spacing_spec(),
                found is None ==> spacing_of(measured@, self.id) == spacing_of(measured@.skip(i as int), self.id),
                found is Some ==> spacing_of(measured@, self.id) == found,
            decreases measured.len() - i,
        {
            assert(measured@.skip(i as int).drop_first() =~= measured@.skip(i as int + 1));
            if found.is_none() && measured[i].0 == self.id {
                found = Some(measured[i].1);
            }
            i = i + 1;
        }
        assert(measured@.skip(measured.len() as int) =~= Seq::<(i32, i64)>::empty());
        let spacing = match found {
            None => {
                return None;
            },
            Some(spacing) => spacing,
        };
        if self.real_row_count != 1 || self.count % 2 == 0 || self.count < 1 {
            return None;
        }
        assert(spacing == 12);
        let middle: i64 = ((self.count - 1) / 2) as i64;
        let mut offsets: Vec<i64> = Vec::new();
        let mut k: i64 = 0;
        while k < self.count as i64
            invariant
                0 <= k <= self.count,
                self.count >= 1,
                spacing == 12,
                middle == (self.count - 1) / 2,
                offsets@ =~= Seq::new(k as nat, |a: int| ((a - middle) * spacing) as i64),
            decreases self.count - k,
        {
            offsets.push((k - middle) * spacing);
            k = k + 1;
        }
        Some(offsets)
    }
}

/// One skill a construction fires, as the table carries it.
#[derive(Debug, Clone)]
pub struct SkillRow {
    pub id: i32,
    pub name: String,
    pub attack: AttackConfig,
}

/// Whether two construction rows hold the same values.
pub open spec fn same_row(a: ConstructionRow, b: ConstructionRow) -> bool {
    &&& a.id == b.id
    &&& a.name@ == b.name@
    &&& match (a.layout_name, b.layout_name) {
        (Some(x), Some(y)) => x@ == y@,
        (None, None) => true,
        _ => false,
    }
    &&& a.count == b.count
    &&& a.max_life == b.max_life
    &&& a.damage == b.damage
    &&& a.durability == b.durability
    &&& a.block_width == b.block_width
    &&& a.space == b.space
    &&& a.grid_column_count == b.grid_column_count
    &&& a.grid_row_count == b.grid_row_count
    &&& a.real_row_count == b.real_row_count
    &&& a.rotate_speed == b.rotate_speed
    &&& a.skill_id == b.skill_id
    &&& a.exp == b.exp
    &&& a.sell_supply == b.sell_supply
    &&& a.pathfinding_collider_priority == b.pathfinding_collider_priority
    &&& a.default_actor_visibility == b.default_actor_visibility
    &&& a.radius == b.radius
    &&& a.path_radius == b.path_radius
    &&& a.attack_angle == b.attack_angle
    &&& a.special_damage_reduce_rate == b.special_damage_reduce_rate
    &&& a.has_durability == b.has_durability
    &&& a.can_be_bought == b.can_be_bought
    &&& a.can_be_sold == b.can_be_sold
    &&& a.can_be_effected_by_tower_buff == b.can_be_effected_by_tower_buff
    &&& a.enable_search_target == b.enable_search_target
    &&& a.quick_search_target == b.quick_search_target
}

/// Whether two skill rows hold the same values.
pub open spec fn same_skill(a: SkillRow, b: SkillRow) -> bool {
    &&& a.id == b.id
    &&& a.name@ == b.name@
    &&& same_attack(a.attack, b.attack)
}

impl ConstructionRow {
    /// A copy of this row.
    pub fn duplicate(&self) -> (copy: Self)
        ensures
            same_row(copy, *self),
    {
        ConstructionRow {
            id: self.id,
            name: self.name.clone(),
            layout_name: match &self.layout_name {
                Some(name) => Some(name.clone()),
                None => None,
            },
            count: self.count,
            max_life: self.max_life,
            damage: self.damage,
            durability: self.durability,
            block_width: self.block_width,
            space: self.space,
            grid_column_count: self.grid_column_count,
            grid_row_count: self.grid_row_count,
            real_row_count: self.real_row_count,
            rotate_speed: self.rotate_speed,
            skill_id: self.skill_id,
            exp: self.exp,
            sell_supply: self.sell_supply,
            pathfinding_collider_priority: self.pathfinding_collider_priority,
            default_actor_visibility: self.default_actor_visibility,
            radius: self.radius,
            path_radius: self.path_radius,
            attack_angle: self.attack_angle,
            special_damage_reduce_rate: self.special_damage_reduce_rate,
            has_durability: self.has_durability,
            can_be_bought: self.can_be_bought,
            can_be_sold: self.can_be_sold,
            can_be_effected_by_tower_buff: self.can_be_effected_by_tower_buff,
            enable_search_target: self.enable_search_target,
            quick_search_target: self.quick_search_target,
        }
    }
}

impl SkillRow {
    /// A copy of this row.
    pub fn duplicate(&self) -> (copy: Self)
        ensures
            same_skill(copy, *self),
    {
        SkillRow { id: self.id, name: self.name.clone(), attack: self.attack.duplicate() }
    }
}

/// The construction table as it was read.
#[derive(Debug, Clone)]
pub struct ConstructionTable {
    pub schema: String,
    pub constructions: Vec<ConstructionRow>,
    pub skills: Vec<SkillRow>,
}

/// One building a construction places. Every length is in space units.
#[derive(Debug)]
pub struct ConstructionBuilding {
    pub team: u32,
    pub building_type_id: u32,
    pub x: i64,
    pub z: i64,
    /// Half the box a recording reports, which is the row's own radius.
    pub radius: i64,
    pub life: i32,
    /// Whether a unit looking for something to shoot may find this one.
    pub searchable: bool,
    /// The avoidance layer the other side avoids it on.
    pub collider_priority: i32,
    /// What it fires, when it fires anything.
    pub skill: Option<AttackConfig>,
    /// Degrees a second its weapon turns at.
    pub rotate_speed: i32,
    /// Whether a tower's loss writes its buff on this building too.
    pub tower_buff: bool,
}

/// Every construction the build holds, and every skill one fires, by id.
#[derive(Debug)]
pub struct Constructions {
    pub rows: BTreeMap<i32, ConstructionRow>,
    pub skills: BTreeMap<i32, SkillRow>,
}

/// How a refusal names a construction row.
pub open spec fn construction_named(row: ConstructionRow) -> Seq<char> {
    "construction "@ + decimal_spec(row.id as int) + " ("@ + row.name@ + ")"@
}

/// Whether a skill runs as the measured constructions run theirs: no wind-up,
/// swing or cooling, one weapon that is not grouped, and one projectile with
/// no scatter and no climb.
pub open spec fn simple_skill(attack: AttackConfig) -> bool {
    &&& attack.timing.initial_cooldown == 0
    &&& attack.timing.prepare == 0
    &&& attack.timing.attack_point == 0
    &&& attack.timing.backswing == 0
    &&& attack.timing.cooling == 0
    &&& attack.weapons.indices.len() == 1
    &&& attack.weapons.mode != WeaponMode::Group
    &&& attack.path matches AttackPath::Projectile { count, target_offset_radius, pre_flight_height, .. }
        && count == 1 && target_offset_radius == 0 && pre_flight_height == 0
}

/// A Q32.32 angle in whole millidegrees, truncated.
pub open spec fn q32_millidegrees(raw: int) -> int {
    crate::fixed::div_trunc(raw * 1000, crate::fixed::q32_scale())
}

/// Why a row's skill is refused, if it is.
pub open spec fn skill_check(skills: Map<i32, SkillRow>, row: ConstructionRow) -> Option<Seq<char>> {
    let named = construction_named(row);
    if !skills.contains_key(row.skill_id) {
        Some(named + " attacks for "@ + decimal_spec(row.damage as int) + " with skill "@ + decimal_spec(
            row.skill_id as int,
        ) + ", which the table does not carry"@)
    } else {
        let skill = skills[row.skill_id];
        if skill.attack.base_damage != row.damage {
            Some(named + " deals "@ + decimal_spec(row.damage as int) + " and its skill "@ + decimal_spec(
                skill.id as int,
            ) + " ("@ + skill.name@ + ") says "@ + decimal_spec(skill.attack.base_damage as int))
        } else if skill.attack.attack_half_angle * crate::fixed::q32_scale() != row.attack_angle * 1000 {
            Some(named + " turns "@ + decimal_spec(q32_millidegrees(row.attack_angle as int))
                + " millidegrees and its skill "@ + decimal_spec(skill.id as int) + " says "@ + decimal_spec(
                skill.attack.attack_half_angle as int,
            ))
        } else if !simple_skill(skill.attack) {
            Some(named + " fires skill "@ + decimal_spec(skill.id as int) + " ("@ + skill.name@
                + "), whose timing or projectile no measured construction has"@)
        } else {
            None
        }
    }
}

/// Whether `building` is the one a placement of `row` puts `offset` metres
/// along x from the placement, for `team`, firing `skill`.
pub open spec fn building_at(
    building: ConstructionBuilding,
    team: u32,
    placement: Placement,
    row: ConstructionRow,
    offset: i64,
    skill: Option<AttackConfig>,
) -> bool {
    let centre_x: int = if team == 0 { placement.position.x as int } else { -placement.position.x };
    let centre_z: int = if team == 0 { placement.position.y as int } else { -placement.position.y };
    &&& building.team == team
    &&& building.building_type_id == SPECIAL
    &&& building.x == (centre_x + offset) * 1000
    &&& building.z == centre_z * 1000
    &&& building.radius == fixed_to_spec(row.radius as int, 1000)
    &&& building.life == row.max_life
    &&& building.searchable == row.enable_search_target
    &&& building.collider_priority == row.pathfinding_collider_priority
    &&& building.rotate_speed == row.rotate_speed
    &&& building.tower_buff == row.can_be_effected_by_tower_buff
    &&& match skill {
        None => building.skill is None,
        Some(attack) => building.skill matches Some(fired) && same_attack(fired, attack),
    }
}

/// Whether `buildings` are the buildings one placement of `row` puts on the
/// board for `team`, one at each of `offsets`, each firing `skill`.
pub open spec fn buildings_of(
    buildings: Seq<ConstructionBuilding>,
    team: u32,
    placement: Placement,
    row: ConstructionRow,
    offsets: Seq<i64>,
    skill: Option<AttackConfig>,
) -> bool {
    &&& buildings.len() == offsets.len()
    &&& forall|k: int| 0 <= k < buildings.len() ==> building_at(#[trigger] buildings[k], team, placement, row, offsets[k], skill)
}

/// The skill a row that attacks fires, as the table carries it, where it
/// is one the fight can run.
pub open spec fn row_skill(constructions: Constructions, row: ConstructionRow) -> Option<AttackConfig> {
    if row.damage == 0 {
        None
    } else {
        Some(constructions.skills@[row.skill_id].attack)
    }
}

/// What one placement becomes, or why it is refused.
pub open spec fn buildings_outcome(
    constructions: Constructions,
    team: u32,
    placement: Placement,
    buildings: Result<Vec<ConstructionBuilding>, Error>,
) -> bool {
    match placement.native {
        NativeFormation::Construction(id) => if !constructions.rows@.contains_key(id) {
            buildings matches Err(error) && error.message@ == "construction "@ + decimal_spec(id as int) + " ("@
                + debug_quoted(placement.name@) + ") is not in the construction table"@
        } else {
            let row = constructions.rows@[id];
            if row.damage != 0 && skill_check(constructions.skills@, row) is Some {
                buildings matches Err(error) && Some(error.message@) == skill_check(constructions.skills@, row)
            } else {
                match offsets_spec(row) {
                    None => buildings matches Err(error) && error.message@ == construction_named(row) + " places "@
                        + decimal_spec(row.count as int) + " objects over "@ + decimal_spec(row.real_row_count as int)
                        + " rows, and where they stand is not measured"@,
                    Some(offsets) => buildings matches Ok(list) && buildings_of(
                        list@,
                        team,
                        placement,
                        row,
                        offsets,
                        row_skill(constructions, row),
                    ),
                }
            }
        },
        _ => buildings matches Err(error) && error.message@ == "placement "@ + debug_quoted(placement.name@)
            + " is not a construction"@,
    }
}

/// How a refusal names a construction row.
fn construction_name(row: &ConstructionRow) -> (text: String)
    ensures
        text@ == construction_named(*row),
{
    let number = decimal(row.id as i64);
    let head = join3("construction ", number.as_str(), " (");
    join3(head.as_str(), row.name.as_str(), ")")
}

/// `first` + `second` + `third` + `fourth` + `fifth`.
fn join5(first: &str, second: &str, third: &str, fourth: &str, fifth: &str) -> (text: String)
    ensures
        text@ == first@ + second@ + third@ + fourth@ + fifth@,
{
    let head = join3(first, second, third);
    join3(head.as_str(), fourth, fifth)
}

impl Constructions {
    /// The construction table as it was read, once it is known to be the
    /// table this build reads and to hold each construction and each skill
    /// once.
    pub fn load(table: ConstructionTable) -> (result: Result<Self, Error>)
        ensures
            table.schema@ != "mechcore.constructions"@ ==> (result matches Err(error) && error.message@
                == "construction table declares schema "@ + debug_quoted(table.schema@)),
            table.schema@ == "mechcore.constructions"@ ==> match first_repeat(
                table.constructions@.map_values(|row: ConstructionRow| row.id),
                table.constructions.len() as int,
            ) {
                Some(k) => (result matches Err(error) && error.message@ == "construction table holds construction "@
                    + decimal_spec(table.constructions[k].id as int) + " twice"@),
                None => match first_repeat(
                    table.skills@.map_values(|skill: SkillRow| skill.id),
                    table.skills.len() as int,
                ) {
                    Some(k) => (result matches Err(error) && error.message@ == "construction table holds skill "@
                        + decimal_spec(table.skills[k].id as int) + " twice"@),
                    None => (result matches Ok(constructions) && (forall|id: i32|
                        constructions.rows@.contains_key(id) <==> exists|k: int|
                            0 <= k < table.constructions.len() && table.constructions[k].id == id) && (forall|id: i32|
                        constructions.skills@.contains_key(id) <==> exists|k: int|
                            0 <= k < table.skills.len() && table.skills[k].id == id) && (forall|k: int|
                        0 <= k < table.constructions.len() ==> same_row(
                            constructions.rows@[#[trigger] table.constructions[k].id],
                            table.constructions[k],
                        )) && (forall|k: int|
                        0 <= k < table.skills.len() ==> same_skill(
                            constructions.skills@[#[trigger] table.skills[k].id],
                            table.skills[k],
                        ))),
                },
            },
    {
        if !(table.schema == String::from_str("mechcore.constructions")) {
            let quoted = debug_text(table.schema.as_str());
            return Err(Error::new(join("construction table declares schema ", quoted.as_str())));
        }
        let row_list = &table.constructions;
        let skill_list = &table.skills;
        let ghost ids = row_list@.map_values(|row: ConstructionRow| row.id);
        let mut rows: BTreeMap<i32, ConstructionRow> = BTreeMap::new();
        let mut i: usize = 0;
        while i < row_list.len()
            invariant
                i <= row_list.len(),
                row_list@ == table.constructions@,
                table.schema@ == "mechcore.constructions"@,
                ids == row_list@.map_values(|row: ConstructionRow| row.id),
                first_repeat(ids, i as int) is None,
                forall|id: i32| rows@.contains_key(id) <==> exists|k: int| 0 <= k < i && row_list[k].id == id,
                forall|k: int| 0 <= k < i ==> same_row(rows@[#[trigger] row_list[k].id], row_list[k]),
            decreases row_list.len() - i,
        {
            let id = row_list[i].id;
            let ghost before = rows@;
            let previous = rows.insert(id, row_list[i].duplicate());
            if previous.is_some() {
                proof {
                    let j = choose|j: int| 0 <= j < i && row_list[j].id == id;
                    assert(ids[j] == ids[i as int]);
                    lemma_first_repeat_settles(ids, i + 1, row_list.len() as int);
                }
                let number = decimal(id as i64);
                return Err(Error::new(join3("construction table holds construction ", number.as_str(), " twice")));
            }
            proof {
                assert(!(exists|j: int| 0 <= j < i && ids[j] == ids[i as int])) by {
                    if exists|j: int| 0 <= j < i && ids[j] == ids[i as int] {
                        let j = choose|j: int| 0 <= j < i && ids[j] == ids[i as int];
                        assert(row_list[j].id == id);
                    }
                }
                assert forall|k: int| 0 <= k < i + 1 implies same_row(rows@[#[trigger] row_list[k].id], row_list[k]) by {
                    if k < i {
                        assert(before.contains_key(row_list[k].id));
                        assert(row_list[k].id != id);
                    }
                }
            }
            i = i + 1;
        }
        let ghost skill_ids = skill_list@.map_values(|skill: SkillRow| skill.id);
        let mut skills: BTreeMap<i32, SkillRow> = BTreeMap::new();
        let mut i: usize = 0;
        while i < skill_list.len()
            invariant
                i <= skill_list.len(),
                skill_list@ == table.skills@,
                row_list@ == table.constructions@,
                table.schema@ == "mechcore.constructions"@,
                first_repeat(ids, row_list.len() as int) is None,
                ids == row_list@.map_values(|row: ConstructionRow| row.id),
                forall|id: i32| rows@.contains_key(id) <==> exists|k: int| 0 <= k < row_list.len() && row_list[k].id == id,
                skill_ids == skill_list@.map_values(|skill: SkillRow| skill.id),
                first_repeat(skill_ids, i as int) is None,
                forall|id: i32| skills@.contains_key(id) <==> exists|k: int| 0 <= k < i && skill_list[k].id == id,
                forall|k: int| 0 <= k < row_list.len() ==> same_row(rows@[#[trigger] row_list[k].id], row_list[k]),
                forall|k: int| 0 <= k < i ==> same_skill(skills@[#[trigger] skill_list[k].id], skill_list[k]),
            decreases skill_list.len() - i,
        {
            let id = skill_list[i].id;
            let ghost before = skills@;
            let previous = skills.insert(id, skill_list[i].duplicate());
            if previous.is_some() {
                proof {
                    let j = choose|j: int| 0 <= j < i && skill_list[j].id == id;
                    assert(skill_ids[j] == skill_ids[i as int]);
                    lemma_first_repeat_settles(skill_ids, i + 1, skill_list.len() as int);
                }
                let number = decimal(id as i64);
                return Err(Error::new(join3("construction table holds skill ", number.as_str(), " twice")));
            }
            proof {
                assert(!(exists|j: int| 0 <= j < i && skill_ids[j] == skill_ids[i as int])) by {
                    if exists|j: int| 0 <= j < i && skill_ids[j] == skill_ids[i as int] {
                        let j = choose|j: int| 0 <= j < i && skill_ids[j] == skill_ids[i as int];
                        assert(skill_list[j].id == id);
                    }
                }
                assert forall|k: int| 0 <= k < i + 1 implies same_skill(skills@[#[trigger] skill_list[k].id], skill_list[k]) by {
                    if k < i {
                        assert(before.contains_key(skill_list[k].id));
                        assert(skill_list[k].id != id);
                    }
                }
            }
            i = i + 1;
        }
        Ok(Constructions { rows, skills })
    }
}

impl Constructions {
    /// The skill a construction that attacks fires, checked against the two
    /// numbers the construction's row holds for it and against what the
    /// measured constructions do.
    pub fn skill(&self, row: &ConstructionRow, named: &str) -> (result: Result<AttackConfig, Error>)
        requires
            named@ == construction_named(*row),
        ensures
            match skill_check(self.skills@, *row) {
                Some(message) => (result matches Err(error) && error.message@ == message),
                None => (result matches Ok(attack) && same_attack(attack, self.skills@[row.skill_id].attack)),
            },
    {
        let skill = match self.skills.get(&row.skill_id) {
            None => {
                let damage = decimal(row.damage as i64);
                let id = decimal(row.skill_id as i64);
                let head = join5(named, " attacks for ", damage.as_str(), " with skill ", id.as_str());
                return Err(Error::new(join(head.as_str(), ", which the table does not carry")));
            },
            Some(skill) => skill,
        };
        let attack = &skill.attack;
        if attack.base_damage != row.damage as i64 {
            let damage = decimal(row.damage as i64);
            let id = decimal(skill.id as i64);
            let said = decimal(attack.base_damage);
            let head = join5(named, " deals ", damage.as_str(), " and its skill ", id.as_str());
            return Err(Error::new(join5(head.as_str(), " (", skill.name.as_str(), ") says ", said.as_str())));
        }
        let half: i128 = attack.attack_half_angle as i128 * 0x1_0000_0000i128;
        let turned: i128 = row.attack_angle as i128 * 1000;
        if half != turned {
            let millidegrees: i64 = (turned / 0x1_0000_0000i128) as i64;
            let angle = decimal(millidegrees);
            let id = decimal(skill.id as i64);
            let said = decimal(attack.attack_half_angle);
            let head = join5(named, " turns ", angle.as_str(), " millidegrees and its skill ", id.as_str());
            return Err(Error::new(join3(head.as_str(), " says ", said.as_str())));
        }
        let timing = attack.timing;
        let projectile = match &attack.path {
            AttackPath::Projectile { count, target_offset_radius, pre_flight_height, .. } => *count == 1
                && *target_offset_radius == 0 && *pre_flight_height == 0,
            _ => false,
        };
        let grouped = match attack.weapons.mode {
            WeaponMode::Group => true,
            _ => false,
        };
        let simple = timing.initial_cooldown == 0 && timing.prepare == 0 && timing.attack_point == 0
            && timing.backswing == 0 && timing.cooling == 0 && attack.weapons.indices.len() == 1 && !grouped
            && projectile;
        if !simple {
            let id = decimal(skill.id as i64);
            return Err(
                Error::new(
                    join5(
                        named,
                        " fires skill ",
                        id.as_str(),
                        " (",
                        join(skill.name.as_str(), "), whose timing or projectile no measured construction has").as_str(),
                    ),
                ),
            );
        }
        Ok(attack.duplicate())
    }

    /// The buildings one placement puts on the board.
    ///
    /// A construction whose skill the fight cannot run, or where whose
    /// objects stand has not been measured, is refused by name.
    pub fn buildings(&self, team: u32, placement: &Placement) -> (result: Result<Vec<ConstructionBuilding>, Error>)
        ensures
            buildings_outcome(*self, team, *placement, result),
    {
        let id = match placement.native {
            NativeFormation::Construction(id) => id,
            _ => {
                let quoted = debug_text(placement.name.as_str());
                return Err(Error::new(join3("placement ", quoted.as_str(), " is not a construction")));
            },
        };
        let row = match self.rows.get(&id) {
            None => {
                let number = decimal(id as i64);
                let quoted = debug_text(placement.name.as_str());
                let head = join3("construction ", number.as_str(), " (");
                return Err(Error::new(join3(head.as_str(), quoted.as_str(), ") is not in the construction table")));
            },
            Some(row) => row,
        };
        let named = construction_name(row);
        let skill = if row.damage == 0 {
            None
        } else {
            Some(self.skill(row, named.as_str())?)
        };
        let offsets = match row.offsets() {
            None => {
                let count = decimal(row.count as i64);
                let rows = decimal(row.real_row_count as i64);
                let head = join5(named.as_str(), " places ", count.as_str(), " objects over ", rows.as_str());
                return Err(Error::new(join(head.as_str(), " rows, and where they stand is not measured")));
            },
            Some(offsets) => offsets,
        };
        let local_x = placement.position.x as i64;
        let local_z = placement.position.y as i64;
        let (centre_x, centre_z) = if team == 0 {
            (local_x, local_z)
        } else {
            (-local_x, -local_z)
        };
        let radius = fixed_to_space(row.radius);
        proof {
            reveal_with_fuel(spacing_of, 3);
            assert(measured_spacing_spec().drop_first() =~= Seq::<(i32, i64)>::empty());
            assert forall|a: int| 0 <= a < offsets.len() implies -12 * row.count <= #[trigger] offsets[a] <= 12 * row.count by {
                if row.count != 1 {
                    let middle = (row.count - 1) / 2;
                    assert(offsets@[a] == ((a - middle) * 12) as i64);
                    assert(-12 * row.count <= (a - middle) * 12 <= 12 * row.count) by (nonlinear_arith)
                        requires
                            0 <= a < row.count,
                            middle == (row.count - 1) / 2,
                            row.count >= 1,
                    ;
                }
            }
        }
        let mut built: Vec<ConstructionBuilding> = Vec::new();
        let mut k: usize = 0;
        while k < offsets.len()
            invariant
                k <= offsets.len(),
                offsets_spec(*row) == Some(offsets@),
                row.count >= 1,
                offsets.len() == row.count,
                forall|a: int| 0 <= a < offsets.len() ==> -12 * row.count <= #[trigger] offsets[a] <= 12 * row.count,
                centre_x == (if team == 0 { placement.position.x as int } else { -placement.position.x }),
                centre_z == (if team == 0 { placement.position.y as int } else { -placement.position.y }),
                radius == fixed_to_spec(row.radius as int, 1000),
                match skill {
                    None => row.damage == 0,
                    Some(attack) => row.damage != 0 && same_attack(attack, self.skills@[row.skill_id].attack),
                },
                forall|a: int| 0 <= a < k ==> building_at(#[trigger] built@[a], team, *placement, *row, offsets@[a], row_skill(*self, *row)),
                built.len() == k,
            decreases offsets.len() - k,
        {
            let fired = match &skill {
                None => None,
                Some(attack) => Some(attack.duplicate()),
            };
            built.push(
                ConstructionBuilding {
                    team,
                    building_type_id: SPECIAL,
                    x: (centre_x + offsets[k]) * SPACE,
                    z: centre_z * SPACE,
                    radius,
                    life: row.max_life,
                    searchable: row.enable_search_target,
                    collider_priority: row.pathfinding_collider_priority,
                    skill: fired,
                    rotate_speed: row.rotate_speed,
                    tower_buff: row.can_be_effected_by_tower_buff,
                },
            );
            k = k + 1;
        }
        Ok(built)
    }
}

} // verus!
