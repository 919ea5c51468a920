//! The map's towers, and every building a fight starts with.
//!
//! A building's identity is its place in `(team, type, x, z)` order over the
//! map's towers and a layout's constructions together, counted from one, so
//! two buildings cannot stand in the same place.

use std::collections::{BTreeMap, BTreeSet};

use vstd::prelude::*;

use crate::Error;
use crate::fixed::{clamp_i64, space_to_q32, space_to_q32_spec};
use crate::layout::ConstructionBuilding;
use crate::text::{join, join3};

verus! {

broadcast use {vstd::std_specs::btree::group_btree_axioms, vstd::laws_cmp::group_laws_cmp};

/// One of the map's towers, in space units.
#[derive(Debug, Clone, Copy, PartialEq, Eq, Structural)]
pub struct BuildingConfig {
    pub team_id: u32,
    pub building_type_id: u32,
    pub x: i64,
    pub z: i64,
    pub life: i64,
    pub radius: i64,
    pub collision_enabled: bool,
}

/// One strengthen level: the life it adds, the buff row its loss writes, and
/// how many seconds that buff lasts.
#[derive(Debug, Clone, Copy, PartialEq, Eq, Structural)]
pub struct TowerLevel {
    pub level: u8,
    pub life: i64,
    pub buff: i32,
    pub duration: u32,
}

/// The buff a tower's loss writes on its side.
#[derive(Debug, Clone)]
pub struct DestroyedBuff {
    pub name: String,
    pub buff_divide: i32,
    pub additive: bool,
    pub max_additive_stack: i32,
    pub can_affect_construction: bool,
    pub clear_when_technologies_disabled: bool,
    pub move_speed_rate: i64,
    pub damage_rate: i64,
    pub amplify_damage_rate: i64,
    pub can_affect_tower: bool,
}

/// The map's towers, what strengthening one adds and what losing one writes.
#[derive(Debug, Clone)]
pub struct TowersConfig {
    pub schema: String,
    pub buildings: Vec<BuildingConfig>,
    pub destroyed_buff: DestroyedBuff,
    pub levels: Vec<TowerLevel>,
}

/// Why a tower configuration is refused, if it is.
pub open spec fn towers_check(towers: TowersConfig) -> Option<Seq<char>> {
    if towers.schema@ != "mechcore.towers"@ {
        Some("unsupported tower config type"@)
    } else if towers.buildings.len() == 0 {
        Some("tower config must contain native building rows"@)
    } else if exists|i: int| 0 <= i < towers.levels.len() && towers.levels[i].level != i {
        Some("the tower levels are not 0 onwards in order"@)
    } else if towers.destroyed_buff.max_additive_stack != 0 {
        Some(towers.destroyed_buff.name@ + " bounds its additive stack, which is not read"@)
    } else if first_bad_building(towers.buildings@, 0) < towers.buildings.len() {
        let building = towers.buildings[first_bad_building(towers.buildings@, 0)];
        if building.team_id > 1 || building.building_type_id == 0 || building.life <= 0 {
            Some("a tower building contains invalid identities or life"@)
        } else {
            Some("unit config field radius cannot be represented exactly by the kernel"@)
        }
    } else {
        None
    }
}

/// Whether a tower row is refused, and for what: its identity or life first.
pub open spec fn bad_building(building: BuildingConfig) -> bool {
    building.team_id > 1 || building.building_type_id == 0 || building.life <= 0 || building.radius <= 0
}

/// The first refused tower row from position `from` on.
pub open spec fn first_bad_building(buildings: Seq<BuildingConfig>, from: int) -> int
    decreases buildings.len() - from,
{
    if from >= buildings.len() || from < 0 {
        buildings.len() as int
    } else if bad_building(buildings[from]) {
        from
    } else {
        first_bad_building(buildings, from + 1)
    }
}

impl TowersConfig {
    /// Refuses a tower configuration this build does not read, with the first
    /// reason.
    pub fn validate(&self) -> (result: Result<(), Error>)
        ensures
            match towers_check(*self) {
                None => result is Ok,
                Some(message) => (result matches Err(error) && error.message@ == message),
            },
    {
        if !(self.schema == String::from_str("mechcore.towers")) {
            return Err(Error::new(String::from_str("unsupported tower config type")));
        }
        if self.buildings.len() == 0 {
            return Err(Error::new(String::from_str("tower config must contain native building rows")));
        }
        let mut i: usize = 0;
        while i < self.levels.len()
            invariant
                i <= self.levels.len(),
                self.schema@ == "mechcore.towers"@,
                self.buildings.len() > 0,
                forall|k: int| 0 <= k < i ==> self.levels[k].level == k,
            decreases self.levels.len() - i,
        {
            if self.levels[i].level as usize != i {
                assert(self.levels[i as int].level != i);
                return Err(Error::new(String::from_str("the tower levels are not 0 onwards in order")));
            }
            i = i + 1;
        }
        if self.destroyed_buff.max_additive_stack != 0 {
            return Err(Error::new(join(self.destroyed_buff.name.as_str(), " bounds its additive stack, which is not read")));
        }
        let mut i: usize = 0;
        while i < self.buildings.len()
            invariant
                i <= self.buildings.len(),
                self.schema@ == "mechcore.towers"@,
                self.buildings.len() > 0,
                forall|k: int| 0 <= k < self.levels.len() ==> self.levels[k].level == k,
                self.destroyed_buff.max_additive_stack == 0,
                first_bad_building(self.buildings@, 0) == first_bad_building(self.buildings@, i as int),
            decreases self.buildings.len() - i,
        {
            let building = self.buildings[i];
            assert(building == self.buildings@[i as int]);
            if building.team_id > 1 || building.building_type_id == 0 || building.life <= 0 {
                return Err(Error::new(String::from_str("a tower building contains invalid identities or life")));
            }
            if building.radius <= 0 {
                return Err(Error::new(String::from_str("unit config field radius cannot be represented exactly by the kernel")));
            }
            assert(!bad_building(self.buildings@[i as int]));
            i = i + 1;
        }
        proof {
            assert(first_bad_building(self.buildings@, self.buildings.len() as int) == self.buildings.len());
        }
        Ok(())
    }
}

/// One building before it is given an identity, from either source.
#[derive(Debug, Clone, Copy, PartialEq, Eq, Structural)]
pub struct RawBuilding {
    pub team_id: u32,
    pub building_type_id: u32,
    pub x: i64,
    pub z: i64,
    pub radius: i64,
    pub life: i64,
    pub collision_enabled: bool,
    pub searchable: bool,
    /// A construction's avoidance layer; none for a tower.
    pub collider_priority: Option<i32>,
}

/// A building as the fight starts it: its identity, where it stands in Q32.32
/// metres, its box, its life, and whether it can be targeted.
#[derive(Debug, Clone, Copy, PartialEq, Eq, Structural)]
pub struct BuildingState {
    pub building_id: u64,
    pub team_id: u32,
    pub building_type_id: u32,
    pub x_q32: i64,
    pub z_q32: i64,
    pub bounds_width: i64,
    pub bounds_height: i64,
    pub life: i32,
    pub maximum_life: i32,
    pub available: bool,
    pub targetable: bool,
    pub collision_enabled: bool,
}

/// Every building a fight starts with, and what a unit may do about each.
#[derive(Debug)]
pub struct InitialBuildings {
    pub states: Vec<BuildingState>,
    /// The ones a unit looking for a target may not find.
    pub unsearchable: BTreeSet<u64>,
    /// Each construction's avoidance layer, by building.
    pub colliders: BTreeMap<u64, i32>,
}

/// Whether building `a` comes before building `b` in `(team, type, x, z)`
/// order.
pub open spec fn key_before(a: RawBuilding, b: RawBuilding) -> bool {
    a.team_id < b.team_id || (a.team_id == b.team_id && (a.building_type_id < b.building_type_id || (
    a.building_type_id == b.building_type_id && (a.x < b.x || (a.x == b.x && a.z < b.z)))))
}

/// Whether two buildings stand in the same place of the same team and type.
pub open spec fn same_key(a: RawBuilding, b: RawBuilding) -> bool {
    a.team_id == b.team_id && a.building_type_id == b.building_type_id && a.x == b.x && a.z == b.z
}

/// How many of the buildings come before `building` in key order.
pub open spec fn rank(raw: Seq<RawBuilding>, building: RawBuilding, count: int) -> int
    decreases count,
{
    if count <= 0 {
        0
    } else {
        rank(raw, building, count - 1) + if key_before(raw[count - 1], building) { 1int } else { 0int }
    }
}

/// The building rows the towers and constructions make, towers first.
pub open spec fn raw_buildings(towers: Seq<BuildingConfig>, constructions: Seq<ConstructionBuilding>) -> Seq<RawBuilding> {
    towers.map_values(
        |building: BuildingConfig|
            RawBuilding {
                team_id: building.team_id,
                building_type_id: building.building_type_id,
                x: building.x,
                z: building.z,
                radius: building.radius,
                life: building.life,
                collision_enabled: building.collision_enabled,
                searchable: true,
                collider_priority: None,
            },
    ) + constructions.map_values(
        |building: ConstructionBuilding|
            RawBuilding {
                team_id: building.team,
                building_type_id: building.building_type_id,
                x: building.x,
                z: building.z,
                radius: building.radius,
                life: building.life as i64,
                collision_enabled: true,
                searchable: building.searchable,
                collider_priority: Some(building.collider_priority),
            },
    )
}

/// Whether `state` is how the fight starts building `raw`, whose identity is
/// `id`.
pub open spec fn state_of(state: BuildingState, raw: RawBuilding, id: u64) -> bool {
    &&& state.building_id == id
    &&& state.team_id == raw.team_id
    &&& state.building_type_id == raw.building_type_id
    &&& state.x_q32 == space_to_q32_spec(raw.x as int)
    &&& state.z_q32 == space_to_q32_spec(raw.z as int)
    &&& state.bounds_width == space_to_q32_spec(clamp_i64(raw.radius * 2))
    &&& state.bounds_height == space_to_q32_spec(clamp_i64(raw.radius * 2))
    &&& state.life == raw.life
    &&& state.maximum_life == raw.life
    &&& state.available
    &&& state.targetable == (raw.life > 0)
    &&& state.collision_enabled == raw.collision_enabled
}

/// The rows of two sources, towers first.
fn raw_rows(towers: &Vec<BuildingConfig>, constructions: &Vec<ConstructionBuilding>) -> (raw: Vec<RawBuilding>)
    ensures
        raw@ == raw_buildings(towers@, constructions@),
{
    let mut raw: Vec<RawBuilding> = Vec::new();
    let ghost expected = raw_buildings(towers@, constructions@);
    let mut i: usize = 0;
    while i < towers.len()
        invariant
            i <= towers.len(),
            expected == raw_buildings(towers@, constructions@),
            raw@ == expected.take(i as int),
        decreases towers.len() - i,
    {
        let building = towers[i];
        raw.push(RawBuilding {
            team_id: building.team_id,
            building_type_id: building.building_type_id,
            x: building.x,
            z: building.z,
            radius: building.radius,
            life: building.life,
            collision_enabled: building.collision_enabled,
            searchable: true,
            collider_priority: None,
        });
        assert(raw@ =~= expected.take(i as int + 1));
        i = i + 1;
    }
    let mut j: usize = 0;
    while j < constructions.len()
        invariant
            j <= constructions.len(),
            expected == raw_buildings(towers@, constructions@),
            raw@ == expected.take(towers.len() + j),
        decreases constructions.len() - j,
    {
        let building = &constructions[j];
        raw.push(RawBuilding {
            team_id: building.team,
            building_type_id: building.building_type_id,
            x: building.x,
            z: building.z,
            radius: building.radius,
            life: building.life as i64,
            collision_enabled: true,
            searchable: building.searchable,
            collider_priority: Some(building.collider_priority),
        });
        assert(raw@ =~= expected.take(towers.len() + j + 1));
        j = j + 1;
    }
    assert(raw@ =~= expected);
    raw
}

/// Whether `a` comes before `b` in key order.
fn before(a: &RawBuilding, b: &RawBuilding) -> (result: bool)
    ensures
        result == key_before(*a, *b),
{
    a.team_id < b.team_id || (a.team_id == b.team_id && (a.building_type_id < b.building_type_id || (
    a.building_type_id == b.building_type_id && (a.x < b.x || (a.x == b.x && a.z < b.z)))))
}

/// Every building the fight starts with: the map's towers and what a
/// layout's constructions place, each given its place in key order as its
/// identity.
pub fn initialize_buildings(towers: &Vec<BuildingConfig>, constructions: &Vec<ConstructionBuilding>) -> (result: Result<
    InitialBuildings,
    Error,
>)
    requires
        towers.len() + constructions.len() < u64::MAX,
    ensures
        ({
            let raw = raw_buildings(towers@, constructions@);
            if exists|i: int, j: int| 0 <= i < j < raw.len() && same_key(raw[i], raw[j]) {
                result matches Err(error) && error.message@ == "two buildings stand in the same place"@
            } else if exists|i: int| 0 <= i < raw.len() && !(i32::MIN <= #[trigger] raw[i].life <= i32::MAX) {
                result matches Err(error) && error.message@ == "building life exceeds i32"@
            } else {
                result matches Ok(initial) && {
                    &&& initial.states.len() == raw.len()
                    &&& forall|i: int| 0 <= i < raw.len() ==> state_of(
                        #[trigger] initial.states[i],
                        raw[i],
                        (rank(raw, raw[i], raw.len() as int) + 1) as u64,
                    )
                    &&& forall|id: u64| initial.unsearchable@.contains(id) <==> exists|i: int|
                        0 <= i < raw.len() && !raw[i].searchable && initial.states[i].building_id == id
                    &&& forall|id: u64| initial.colliders@.contains_key(id) <==> exists|i: int|
                        0 <= i < raw.len() && raw[i].collider_priority is Some && initial.states[i].building_id == id
                }
            }
        }),
{
    let raw = raw_rows(towers, constructions);
    let ghost all = raw@;
    let mut i: usize = 0;
    while i < raw.len()
        invariant
            i <= raw.len(),
            raw@ == all,
            all == raw_buildings(towers@, constructions@),
            forall|a: int, b: int| 0 <= a < b < raw.len() && a < i ==> !same_key(raw[a], raw[b]),
        decreases raw.len() - i,
    {
        let mut j: usize = i + 1;
        while j < raw.len()
            invariant
                i < j <= raw.len(),
                raw@ == all,
                all == raw_buildings(towers@, constructions@),
                forall|b: int| i < b < j ==> !same_key(raw[i as int], raw[b]),
            decreases raw.len() - j,
        {
            let a = raw[i];
            let b = raw[j];
            if a.team_id == b.team_id && a.building_type_id == b.building_type_id && a.x == b.x && a.z == b.z {
                assert(same_key(raw[i as int], raw[j as int]));
                return Err(Error::new(String::from_str("two buildings stand in the same place")));
            }
            j = j + 1;
        }
        i = i + 1;
    }
    let mut i: usize = 0;
    while i < raw.len()
        invariant
            i <= raw.len(),
            raw@ == all,
            all == raw_buildings(towers@, constructions@),
            forall|a: int, b: int| 0 <= a < b < raw.len() ==> !same_key(raw[a], raw[b]),
            forall|a: int| 0 <= a < i ==> i32::MIN <= #[trigger] raw[a].life <= i32::MAX,
        decreases raw.len() - i,
    {
        if raw[i].life < i32::MIN as i64 || raw[i].life > i32::MAX as i64 {
            assert(!(i32::MIN <= raw[i as int].life <= i32::MAX));
            return Err(Error::new(String::from_str("building life exceeds i32")));
        }
        i = i + 1;
    }
    let mut states: Vec<BuildingState> = Vec::new();
    let mut unsearchable: BTreeSet<u64> = BTreeSet::new();
    let mut colliders: BTreeMap<u64, i32> = BTreeMap::new();
    let mut i: usize = 0;
    while i < raw.len()
        invariant
            i <= raw.len(),
            raw@ == all,
            all == raw_buildings(towers@, constructions@),
            forall|a: int, b: int| 0 <= a < b < raw.len() ==> !same_key(raw[a], raw[b]),
            raw.len() < u64::MAX,
            forall|a: int| 0 <= a < raw.len() ==> i32::MIN <= #[trigger] raw[a].life <= i32::MAX,
            states.len() == i,
            forall|a: int| 0 <= a < i ==> state_of(#[trigger] states[a], raw[a], (rank(all, raw[a], raw.len() as int) + 1) as u64),
            forall|id: u64| unsearchable@.contains(id) <==> exists|a: int|
                0 <= a < i && !raw[a].searchable && states[a].building_id == id,
            forall|id: u64| colliders@.contains_key(id) <==> exists|a: int|
                0 <= a < i && raw[a].collider_priority is Some && states[a].building_id == id,
        decreases raw.len() - i,
    {
        let building = raw[i];
        let ghost old_states = states@;
        let mut count: u64 = 0;
        let mut k: usize = 0;
        while k < raw.len()
            invariant
                k <= raw.len(),
                raw@ == all,
                raw.len() < u64::MAX,
                building == all[i as int],
                count == rank(all, building, k as int),
                count <= k,
            decreases raw.len() - k,
        {
            if before(&raw[k], &building) {
                count = count + 1;
            }
            k = k + 1;
        }
        let id = count + 1;
        let doubled = crate::fixed::saturating_mul(building.radius, 2);
        let extent = space_to_q32(doubled);
        states.push(BuildingState {
            building_id: id,
            team_id: building.team_id,
            building_type_id: building.building_type_id,
            x_q32: space_to_q32(building.x),
            z_q32: space_to_q32(building.z),
            bounds_width: extent,
            bounds_height: extent,
            life: building.life as i32,
            maximum_life: building.life as i32,
            available: true,
            targetable: building.life > 0,
            collision_enabled: building.collision_enabled,
        });
        let ghost old_colliders = colliders@;
        let ghost old_unsearchable = unsearchable@;
        if !building.searchable {
            unsearchable.insert(id);
        }
        match building.collider_priority {
            Some(priority) => {
                colliders.insert(id, priority);
            },
            None => {},
        }
        proof {
            assert(states@[i as int].building_id == id);
            assert forall|id2: u64| colliders@.contains_key(id2) <==> exists|a: int|
                0 <= a < i + 1 && raw[a].collider_priority is Some && states[a].building_id == id2 by {
                if colliders@.contains_key(id2) {
                    if old_colliders.contains_key(id2) {
                        let a = choose|a: int| 0 <= a < i && raw[a].collider_priority is Some && old_states[a].building_id == id2;
                        assert(states@[a] == old_states[a]);
                        assert(raw[a].collider_priority is Some && states[a].building_id == id2);
                    } else {
                        assert(raw[i as int].collider_priority is Some && states[i as int].building_id == id2);
                    }
                }
                if exists|a: int| 0 <= a < i + 1 && raw[a].collider_priority is Some && states[a].building_id == id2 {
                    let a = choose|a: int| 0 <= a < i + 1 && raw[a].collider_priority is Some && states[a].building_id == id2;
                    if a < i {
                        assert(states@[a] == old_states[a]);
                        assert(old_colliders.contains_key(id2));
                    }
                }
            }
            assert forall|id2: u64| unsearchable@.contains(id2) <==> exists|a: int|
                0 <= a < i + 1 && !raw[a].searchable && states[a].building_id == id2 by {
                if unsearchable@.contains(id2) {
                    if old_unsearchable.contains(id2) {
                        let a = choose|a: int| 0 <= a < i && !raw[a].searchable && old_states[a].building_id == id2;
                        assert(states@[a] == old_states[a]);
                        assert(!raw[a].searchable && states[a].building_id == id2);
                    } else {
                        assert(!raw[i as int].searchable && states[i as int].building_id == id2);
                    }
                }
                if exists|a: int| 0 <= a < i + 1 && !raw[a].searchable && states[a].building_id == id2 {
                    let a = choose|a: int| 0 <= a < i + 1 && !raw[a].searchable && states[a].building_id == id2;
                    if a < i {
                        assert(states@[a] == old_states[a]);
                        assert(old_unsearchable.contains(id2));
                    }
                }
            }
        }
        i = i + 1;
    }
    proof {
        assert(!(exists|a: int, b: int| 0 <= a < b < all.len() && same_key(all[a], all[b])));
        assert(!(exists|a: int| 0 <= a < all.len() && !(i32::MIN <= #[trigger] all[a].life <= i32::MAX)));
    }
    let initial = InitialBuildings { states, unsearchable, colliders };
    proof {
        let raw = raw_buildings(towers@, constructions@);
        assert(raw == all);
        assert(initial.states.len() == raw.len());
        assert(forall|i: int| 0 <= i < raw.len() ==> state_of(
            #[trigger] initial.states[i], raw[i], (rank(raw, raw[i], raw.len() as int) + 1) as u64));
        assert(forall|id: u64| initial.unsearchable@.contains(id) <==> exists|i: int|
            0 <= i < raw.len() && !raw[i].searchable && initial.states[i].building_id == id);
        assert(forall|id: u64| initial.colliders@.contains_key(id) <==> exists|i: int|
            0 <= i < raw.len() && raw[i].collider_priority is Some && initial.states[i].building_id == id);
    }
    Ok(initial)
}

/// A building's life after a hit of `damage`: lowered by it, saturated, and
/// never below zero.
pub open spec fn struck_building_life(life: i32, damage: i32) -> int {
    let lowered = life - damage;
    let saturated = if lowered < i32::MIN {
        i32::MIN as int
    } else if lowered > i32::MAX {
        i32::MAX as int
    } else {
        lowered
    };
    if saturated < 0 {
        0
    } else {
        saturated
    }
}

/// Strikes a building for `amount`: its life falls by it, to no less than
/// zero, and a building this fells can no longer be targeted. Answers the
/// life it lost and whether it fell; a blow beyond `i32` is refused and
/// leaves the building as it was.
pub fn strike_building(building: &mut BuildingState, amount: i64) -> (result: Result<(i64, bool), Error>)
    ensures
        !(i32::MIN <= amount <= i32::MAX) ==> (result matches Err(error) && error.message@
            == "building damage exceeds i32"@ && *final(building) == *old(building)),
        i32::MIN <= amount <= i32::MAX ==> ({
            let life = struck_building_life(old(building).life, amount as i32);
            let fell = old(building).life > 0 && life == 0;
            &&& result matches Ok((lost, fallen)) && lost == old(building).life - life && fallen == fell
            &&& *final(building) == BuildingState {
                life: life as i32,
                targetable: if fell {
                    false
                } else {
                    old(building).targetable
                },
                ..*old(building)
            }
        }),
{
    if amount < i32::MIN as i64 || amount > i32::MAX as i64 {
        return Err(Error::new(String::from_str("building damage exceeds i32")));
    }
    let damage = amount as i32;
    let previous = building.life;
    let difference = previous as i64 - damage as i64;
    let lowered: i32 = if difference < i32::MIN as i64 {
        i32::MIN
    } else if difference > i32::MAX as i64 {
        i32::MAX
    } else {
        difference as i32
    };
    let life = if lowered < 0 {
        0
    } else {
        lowered
    };
    building.life = life;
    let fell = previous > 0 && life == 0;
    if fell {
        building.targetable = false;
    }
    Ok(((previous - life) as i64, fell))
}

/// Key order is transitive.
proof fn lemma_key_before_transitive(a: RawBuilding, b: RawBuilding, c: RawBuilding)
    requires
        key_before(a, b),
        key_before(b, c),
    ensures
        key_before(a, c),
{
}

/// A rank counts at most the buildings it looks at, and one fewer when the
/// building itself is among them.
proof fn lemma_rank_bounded(raw: Seq<RawBuilding>, building: RawBuilding, count: int)
    requires
        0 <= count <= raw.len(),
    ensures
        0 <= rank(raw, building, count) <= count,
        (exists|j: int| 0 <= j < count && raw[j] == building) ==> rank(raw, building, count) <= count - 1,
    decreases count,
{
    if count > 0 {
        lemma_rank_bounded(raw, building, count - 1);
        if exists|j: int| 0 <= j < count && raw[j] == building {
            let j = choose|j: int| 0 <= j < count && raw[j] == building;
            if j < count - 1 {
                assert(exists|k: int| 0 <= k < count - 1 && raw[k] == building);
            }
        }
    }
}

/// A building after another in key order ranks above it, by at least one
/// once the earlier one is among those counted.
proof fn lemma_rank_increases(raw: Seq<RawBuilding>, a: RawBuilding, b: RawBuilding, i: int, count: int)
    requires
        key_before(a, b),
        0 <= i < raw.len(),
        raw[i] == a,
        0 <= count <= raw.len(),
    ensures
        rank(raw, b, count) >= rank(raw, a, count),
        count > i ==> rank(raw, b, count) >= rank(raw, a, count) + 1,
    decreases count,
{
    if count > 0 {
        lemma_rank_increases(raw, a, b, i, count - 1);
        if key_before(raw[count - 1], a) {
            lemma_key_before_transitive(raw[count - 1], a, b);
        }
    }
}

/// The identities [`initialize_buildings`] gives are one to the number of
/// buildings and no two alike: each building's place in key order, counted
/// from one, over buildings no two of which stand in the same place.
pub proof fn lemma_identities_are_distinct_and_one_based(raw: Seq<RawBuilding>)
    requires
        forall|i: int, j: int| 0 <= i < j < raw.len() ==> !same_key(raw[i], raw[j]),
    ensures
        forall|i: int| 0 <= i < raw.len() ==> 1 <= #[trigger] rank(raw, raw[i], raw.len() as int) + 1 <= raw.len(),
        forall|i: int, j: int|
            0 <= i < raw.len() && 0 <= j < raw.len() && i != j ==> #[trigger] rank(raw, raw[i], raw.len() as int)
                != #[trigger] rank(raw, raw[j], raw.len() as int),
{
    assert forall|i: int| 0 <= i < raw.len() implies 1 <= #[trigger] rank(raw, raw[i], raw.len() as int) + 1
        <= raw.len() by {
        assert(0 <= i < raw.len() && raw[i] == raw[i]);
        lemma_rank_bounded(raw, raw[i], raw.len() as int);
    }
    assert forall|i: int, j: int|
        0 <= i < raw.len() && 0 <= j < raw.len() && i != j implies #[trigger] rank(raw, raw[i], raw.len() as int)
            != #[trigger] rank(raw, raw[j], raw.len() as int) by {
        let (first, second) = if i < j {
            (i, j)
        } else {
            (j, i)
        };
        assert(!same_key(raw[first], raw[second]));
        if key_before(raw[i], raw[j]) {
            lemma_rank_increases(raw, raw[i], raw[j], i, raw.len() as int);
        } else {
            assert(key_before(raw[j], raw[i]));
            lemma_rank_increases(raw, raw[j], raw[i], j, raw.len() as int);
        }
    }
}

} // verus!
