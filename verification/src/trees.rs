//! The target trees a fight starts with: one for each team, holding every
//! building of the team a search may find, by identity, and then every unit
//! of the team, in the order of their identities.

use std::collections::{BTreeMap, BTreeSet};

use vstd::prelude::*;

use crate::buildings::BuildingState;
use crate::engagement::{building_radius, building_radius_spec};
use crate::quadtree::{around_spec, range_spec, ranged, FightActorRef, TargetActorQuadtree};

verus! {

broadcast use {vstd::std_specs::btree::group_btree_axioms, vstd::laws_cmp::group_laws_cmp};

/// A unit as its team's tree holds it: its identity and team, where it
/// stands in Q32.32 metres, and its collision radius in space units.
#[derive(Debug, Clone, Copy, PartialEq, Eq, Structural)]
pub struct TreeUnit {
    pub id: u64,
    pub team: u32,
    pub x_q32: i64,
    pub z_q32: i64,
    pub radius: i64,
}

/// Whether the team's tree holds a building of this identity: one of the
/// team's that a search may find.
pub open spec fn tree_building(buildings: Seq<BuildingState>, unsearchable: Set<u64>, team: u32, id: u64) -> bool {
    exists|i: int|
        0 <= i < buildings.len() && #[trigger] buildings[i].building_id == id && buildings[i].team_id == team
            && !unsearchable.contains(id)
}

/// Whether the team's tree holds a unit of this identity: one of the team's.
pub open spec fn tree_unit(units: Seq<TreeUnit>, team: u32, id: u64) -> bool {
    exists|i: int| 0 <= i < units.len() && #[trigger] units[i].id == id && units[i].team == team
}

/// Whether the team's tree holds `candidate`.
pub open spec fn tree_member(
    units: Seq<TreeUnit>,
    buildings: Seq<BuildingState>,
    unsearchable: Set<u64>,
    team: u32,
    candidate: FightActorRef,
) -> bool {
    match candidate {
        FightActorRef::Unit(id) => tree_unit(units, team, id),
        FightActorRef::Building(id) => tree_building(buildings, unsearchable, team, id),
    }
}

/// Whether some unit or building belongs to `team`.
pub open spec fn team_present(units: Seq<TreeUnit>, buildings: Seq<BuildingState>, team: u32) -> bool {
    (exists|i: int| 0 <= i < units.len() && #[trigger] units[i].team == team) || (exists|i: int|
        0 <= i < buildings.len() && #[trigger] buildings[i].team_id == team)
}

/// Whether no two units, and no two buildings, share an identity.
pub open spec fn identities_distinct(units: Seq<TreeUnit>, buildings: Seq<BuildingState>) -> bool {
    &&& forall|i: int, j: int| 0 <= i < j < units.len() ==> #[trigger] units[i].id != #[trigger] units[j].id
    &&& forall|i: int, j: int|
        0 <= i < j < buildings.len() ==> #[trigger] buildings[i].building_id != #[trigger] buildings[j].building_id
}

/// Whether `tree` is the team's tree: shaped as one, holding each of the
/// team's members once and nothing else, each with the box around where it
/// stands.
pub open spec fn is_team_tree(
    tree: TargetActorQuadtree,
    units: Seq<TreeUnit>,
    buildings: Seq<BuildingState>,
    unsearchable: Set<u64>,
    team: u32,
) -> bool {
    &&& tree.wf()
    &&& forall|candidate: FightActorRef|
        #[trigger] ranged(tree.ranges@, candidate) <==> tree_member(units, buildings, unsearchable, team, candidate)
    &&& forall|i: int|
        0 <= i < units.len() && units[i].team == team ==> range_spec(
            tree.ranges@,
            FightActorRef::Unit(#[trigger] units[i].id),
        ) == around_spec(units[i].x_q32, units[i].z_q32, units[i].radius)
    &&& forall|i: int|
        0 <= i < buildings.len() && tree_building(buildings, unsearchable, team, buildings[i].building_id)
            && buildings[i].team_id == team ==> range_spec(
            tree.ranges@,
            FightActorRef::Building(#[trigger] buildings[i].building_id),
        ) == around_spec(buildings[i].x_q32, buildings[i].z_q32, building_radius_spec(buildings[i]) as i64)
}

/// Whether a building is one of the team's that a search may find, with an
/// identity after `after`.
pub open spec fn waiting_building(building: BuildingState, unsearchable: Set<u64>, team: u32, after: Option<u64>) -> bool {
    &&& building.team_id == team
    &&& !unsearchable.contains(building.building_id)
    &&& match after {
        None => true,
        Some(last) => building.building_id > last,
    }
}

/// The team's tree.
fn team_tree(
    units: &Vec<TreeUnit>,
    buildings: &Vec<BuildingState>,
    unsearchable: &BTreeSet<u64>,
    team: u32,
) -> (tree: TargetActorQuadtree)
    requires
        identities_distinct(units@, buildings@),
    ensures
        is_team_tree(tree, units@, buildings@, unsearchable@, team),
{
    let mut tree = TargetActorQuadtree::new();
    let mut last: Option<u64> = None;
    loop
        invariant
            identities_distinct(units@, buildings@),
            tree.wf(),
            forall|candidate: FightActorRef|
                #[trigger] ranged(tree.ranges@, candidate) <==> (candidate is Building && tree_building(
                    buildings@,
                    unsearchable@,
                    team,
                    candidate->Building_0,
                ) && !(forall|i: int|
                    0 <= i < buildings.len() && buildings[i].building_id == candidate->Building_0 ==> waiting_building(
                        buildings[i],
                        unsearchable@,
                        team,
                        last,
                    ))),
            forall|i: int|
                0 <= i < buildings.len() && #[trigger] ranged(tree.ranges@, FightActorRef::Building(buildings[i].building_id))
                    ==> range_spec(tree.ranges@, FightActorRef::Building(buildings[i].building_id)) == around_spec(
                    buildings[i].x_q32,
                    buildings[i].z_q32,
                    building_radius_spec(buildings[i]) as i64,
                ),
        ensures
            identities_distinct(units@, buildings@),
            tree.wf(),
            forall|candidate: FightActorRef|
                #[trigger] ranged(tree.ranges@, candidate) <==> (candidate is Building && tree_building(
                    buildings@,
                    unsearchable@,
                    team,
                    candidate->Building_0,
                )),
            forall|i: int|
                0 <= i < buildings.len() && #[trigger] ranged(tree.ranges@, FightActorRef::Building(buildings[i].building_id))
                    ==> range_spec(tree.ranges@, FightActorRef::Building(buildings[i].building_id)) == around_spec(
                    buildings[i].x_q32,
                    buildings[i].z_q32,
                    building_radius_spec(buildings[i]) as i64,
                ),
        decreases
            match last {
                None => 0x1_0000_0000_0000_0000int,
                Some(id) => u64::MAX - id,
            },
    {
        let mut next: Option<usize> = None;
        let mut i: usize = 0;
        while i < buildings.len()
            invariant
                i <= buildings.len(),
                match next {
                    None => forall|k: int| 0 <= k < i ==> !waiting_building(#[trigger] buildings[k], unsearchable@, team, last),
                    Some(n) => {
                        &&& n < i
                        &&& waiting_building(buildings[n as int], unsearchable@, team, last)
                        &&& forall|k: int|
                            0 <= k < i && waiting_building(#[trigger] buildings[k], unsearchable@, team, last)
                                ==> buildings[n as int].building_id <= buildings[k].building_id
                    },
                },
            decreases buildings.len() - i,
        {
            let building = &buildings[i];
            let waiting = building.team_id == team && !unsearchable.contains(&building.building_id) && match last {
                None => true,
                Some(id) => building.building_id > id,
            };
            if waiting {
                let earlier = match next {
                    None => true,
                    Some(n) => building.building_id < buildings[n].building_id,
                };
                if earlier {
                    next = Some(i);
                }
            }
            i = i + 1;
        }
        match next {
            None => {
                proof {
                    assert forall|candidate: FightActorRef|
                        #[trigger] ranged(tree.ranges@, candidate) <==> (candidate is Building && tree_building(
                            buildings@,
                            unsearchable@,
                            team,
                            candidate->Building_0,
                        )) by {
                        if candidate is Building && tree_building(buildings@, unsearchable@, team, candidate->Building_0) {
                            let k = choose|k: int|
                                0 <= k < buildings.len() && #[trigger] buildings[k].building_id == candidate->Building_0
                                    && buildings[k].team_id == team && !unsearchable@.contains(candidate->Building_0);
                            assert(!waiting_building(buildings[k], unsearchable@, team, last));
                        }
                    }
                }
                break;
            },
            Some(n) => {
                let building = &buildings[n];
                let id = building.building_id;
                let ghost before = tree.ranges@;
                proof {
                    assert(!ranged(tree.ranges@, FightActorRef::Building(id))) by {
                        if ranged(tree.ranges@, FightActorRef::Building(id)) {
                            assert(waiting_building(buildings[n as int], unsearchable@, team, last));
                        }
                    }
                }
                tree.insert(FightActorRef::Building(id), building.x_q32, building.z_q32, building_radius(building));
                proof {
                    let new_last = Some(id);
                    assert forall|candidate: FightActorRef|
                        #[trigger] ranged(tree.ranges@, candidate) <==> (candidate is Building && tree_building(
                            buildings@,
                            unsearchable@,
                            team,
                            candidate->Building_0,
                        ) && !(forall|i: int|
                            0 <= i < buildings.len() && buildings[i].building_id == candidate->Building_0
                                ==> waiting_building(buildings[i], unsearchable@, team, new_last))) by {
                        if candidate == FightActorRef::Building(id) {
                            assert(buildings[n as int].building_id == id);
                        } else if candidate is Building {
                            let other = candidate->Building_0;
                            if tree_building(buildings@, unsearchable@, team, other) {
                                let k = choose|k: int|
                                    0 <= k < buildings.len() && #[trigger] buildings[k].building_id == other
                                        && buildings[k].team_id == team && !unsearchable@.contains(other);
                                if waiting_building(buildings[k], unsearchable@, team, last) {
                                    assert(buildings[n as int].building_id <= other);
                                }
                            }
                        }
                    }
                    assert forall|i: int|
                        0 <= i < buildings.len() && #[trigger] ranged(
                            tree.ranges@,
                            FightActorRef::Building(buildings[i].building_id),
                        ) implies range_spec(tree.ranges@, FightActorRef::Building(buildings[i].building_id))
                        == around_spec(buildings[i].x_q32, buildings[i].z_q32, building_radius_spec(buildings[i]) as i64) by {
                        if buildings[i].building_id == id {
                            if i != n {
                                assert(buildings[i].building_id != buildings[n as int].building_id);
                            }
                        } else {
                            assert(ranged(before, FightActorRef::Building(buildings[i].building_id)));
                        }
                    }
                }
                last = Some(id);
            },
        }
    }
    let ghost buildings_only = tree.ranges@;
    let mut i: usize = 0;
    while i < units.len()
        invariant
            i <= units.len(),
            identities_distinct(units@, buildings@),
            tree.wf(),
            forall|candidate: FightActorRef|
                #[trigger] ranged(tree.ranges@, candidate) <==> match candidate {
                    FightActorRef::Building(id) => tree_building(buildings@, unsearchable@, team, id),
                    FightActorRef::Unit(id) => exists|k: int|
                        0 <= k < i && #[trigger] units[k].id == id && units[k].team == team,
                },
            forall|k: int|
                0 <= k < buildings.len() && #[trigger] ranged(tree.ranges@, FightActorRef::Building(buildings[k].building_id))
                    ==> range_spec(tree.ranges@, FightActorRef::Building(buildings[k].building_id)) == around_spec(
                    buildings[k].x_q32,
                    buildings[k].z_q32,
                    building_radius_spec(buildings[k]) as i64,
                ),
            forall|k: int|
                0 <= k < i && units[k].team == team ==> range_spec(tree.ranges@, FightActorRef::Unit(#[trigger] units[k].id))
                    == around_spec(units[k].x_q32, units[k].z_q32, units[k].radius),
        decreases units.len() - i,
    {
        let unit = &units[i];
        if unit.team == team {
            let ghost before = tree.ranges@;
            proof {
                assert(!ranged(tree.ranges@, FightActorRef::Unit(unit.id))) by {
                    if ranged(tree.ranges@, FightActorRef::Unit(unit.id)) {
                        let k = choose|k: int| 0 <= k < i && #[trigger] units[k].id == unit.id && units[k].team == team;
                        assert(units[k].id != units[i as int].id);
                    }
                }
            }
            tree.insert(FightActorRef::Unit(unit.id), unit.x_q32, unit.z_q32, unit.radius);
            proof {
                assert forall|candidate: FightActorRef|
                    #[trigger] ranged(tree.ranges@, candidate) <==> match candidate {
                        FightActorRef::Building(id) => tree_building(buildings@, unsearchable@, team, id),
                        FightActorRef::Unit(id) => exists|k: int|
                            0 <= k < i + 1 && #[trigger] units[k].id == id && units[k].team == team,
                    } by {
                    if candidate == FightActorRef::Unit(unit.id) {
                        assert(units[i as int].id == unit.id);
                    }
                }
                assert forall|k: int|
                    0 <= k < buildings.len() && #[trigger] ranged(
                        tree.ranges@,
                        FightActorRef::Building(buildings[k].building_id),
                    ) implies range_spec(tree.ranges@, FightActorRef::Building(buildings[k].building_id))
                    == around_spec(buildings[k].x_q32, buildings[k].z_q32, building_radius_spec(buildings[k]) as i64) by {
                    assert(ranged(before, FightActorRef::Building(buildings[k].building_id)));
                }
                assert forall|k: int|
                    0 <= k < i + 1 && units[k].team == team implies range_spec(
                    tree.ranges@,
                    FightActorRef::Unit(#[trigger] units[k].id),
                ) == around_spec(units[k].x_q32, units[k].z_q32, units[k].radius) by {
                    if k < i {
                        assert(units[k].id != units[i as int].id);
                        assert(ranged(before, FightActorRef::Unit(units[k].id)));
                    }
                }
            }
        } else {
            proof {
                assert forall|candidate: FightActorRef|
                    #[trigger] ranged(tree.ranges@, candidate) <==> match candidate {
                        FightActorRef::Building(id) => tree_building(buildings@, unsearchable@, team, id),
                        FightActorRef::Unit(id) => exists|k: int|
                            0 <= k < i + 1 && #[trigger] units[k].id == id && units[k].team == team,
                    } by {
                    if candidate is Unit && (exists|k: int|
                        0 <= k < i + 1 && #[trigger] units[k].id == candidate->Unit_0 && units[k].team == team) {
                        let k = choose|k: int|
                            0 <= k < i + 1 && #[trigger] units[k].id == candidate->Unit_0 && units[k].team == team;
                        assert(k < i);
                    }
                }
            }
        }
        i = i + 1;
    }
    proof {
        assert forall|i: int|
            0 <= i < buildings.len() && tree_building(buildings@, unsearchable@, team, buildings[i].building_id)
                && buildings[i].team_id == team implies range_spec(
            tree.ranges@,
            FightActorRef::Building(#[trigger] buildings[i].building_id),
        ) == around_spec(buildings[i].x_q32, buildings[i].z_q32, building_radius_spec(buildings[i]) as i64) by {
            assert(ranged(tree.ranges@, FightActorRef::Building(buildings[i].building_id)));
        }
    }
    tree
}

/// The target trees a fight starts with: one for each team that has a unit or
/// a building, holding each of the team's units and each of its buildings a
/// search may find, each with the box around where it stands. Buildings go
/// in first, in the order of their identities, then units in the order given,
/// which is the order of their identities.
pub fn initialize_target_quadtrees(
    units: &Vec<TreeUnit>,
    buildings: &Vec<BuildingState>,
    unsearchable: &BTreeSet<u64>,
) -> (trees: BTreeMap<u32, TargetActorQuadtree>)
    requires
        identities_distinct(units@, buildings@),
    ensures
        forall|team: u32| #[trigger] trees@.contains_key(team) <==> team_present(units@, buildings@, team),
        forall|team: u32|
            #[trigger] trees@.contains_key(team) ==> is_team_tree(trees@[team], units@, buildings@, unsearchable@, team),
{
    let mut trees: BTreeMap<u32, TargetActorQuadtree> = BTreeMap::new();
    let mut i: usize = 0;
    while i < units.len()
        invariant
            i <= units.len(),
            identities_distinct(units@, buildings@),
            forall|team: u32| #[trigger] trees@.contains_key(team) <==> exists|k: int|
                0 <= k < i && #[trigger] units[k].team == team,
            forall|team: u32|
                #[trigger] trees@.contains_key(team) ==> is_team_tree(trees@[team], units@, buildings@, unsearchable@, team),
        decreases units.len() - i,
    {
        let team = units[i].team;
        if !trees.contains_key(&team) {
            let tree = team_tree(units, buildings, unsearchable, team);
            trees.insert(team, tree);
        }
        proof {
            assert forall|other: u32| #[trigger] trees@.contains_key(other) <==> exists|k: int|
                0 <= k < i + 1 && #[trigger] units[k].team == other by {
                if other == team {
                    assert(units[i as int].team == team);
                }
            }
        }
        i = i + 1;
    }
    let mut j: usize = 0;
    while j < buildings.len()
        invariant
            j <= buildings.len(),
            identities_distinct(units@, buildings@),
            forall|team: u32| #[trigger] trees@.contains_key(team) <==> ((exists|k: int|
                0 <= k < units.len() && #[trigger] units[k].team == team) || (exists|k: int|
                0 <= k < j && #[trigger] buildings[k].team_id == team)),
            forall|team: u32|
                #[trigger] trees@.contains_key(team) ==> is_team_tree(trees@[team], units@, buildings@, unsearchable@, team),
        decreases buildings.len() - j,
    {
        let team = buildings[j].team_id;
        if !trees.contains_key(&team) {
            let tree = team_tree(units, buildings, unsearchable, team);
            trees.insert(team, tree);
        }
        proof {
            assert forall|other: u32| #[trigger] trees@.contains_key(other) <==> ((exists|k: int|
                0 <= k < units.len() && #[trigger] units[k].team == other) || (exists|k: int|
                0 <= k < j + 1 && #[trigger] buildings[k].team_id == other)) by {
                if other == team {
                    assert(buildings[j as int].team_id == team);
                }
            }
        }
        j = j + 1;
    }
    trees
}

} // verus!
