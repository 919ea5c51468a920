use std::collections::BTreeSet;

use simulation::buildings::BuildingState;
use simulation::fixed::Q32_ONE;
use simulation::quadtree::FightActorRef;
use simulation::trees::{initialize_target_quadtrees, TreeUnit};

fn building(building_id: u64, team_id: u32, x_metres: i64) -> BuildingState {
    BuildingState {
        building_id,
        team_id,
        building_type_id: 3,
        x_q32: x_metres * Q32_ONE,
        z_q32: 0,
        bounds_width: 2 * Q32_ONE,
        bounds_height: 2 * Q32_ONE,
        life: 100,
        maximum_life: 100,
        available: true,
        targetable: true,
        collision_enabled: true,
    }
}

fn unit(id: u64, team: u32, x_metres: i64, z_metres: i64) -> TreeUnit {
    TreeUnit { id, team, x_q32: x_metres * Q32_ONE, z_q32: z_metres * Q32_ONE, radius: 1_000 }
}

#[test]
fn each_team_gets_a_tree_of_its_buildings_by_identity_then_its_units() {
    let units = vec![unit(1, 0, 0, 0), unit(2, 1, 10, 10), unit(3, 1, -10, 5)];
    let buildings = vec![building(8, 1, 20), building(7, 1, -20), building(5, 1, 0), building(9, 2, 30)];
    let unsearchable = BTreeSet::from([5_u64]);
    let trees = initialize_target_quadtrees(&units, &buildings, &unsearchable);
    assert_eq!(trees.keys().copied().collect::<Vec<_>>(), vec![0, 1, 2]);
    assert_eq!(trees[&0].query_order(), vec![FightActorRef::Unit(1)]);
    assert_eq!(
        trees[&1].query_order(),
        vec![
            FightActorRef::Building(7),
            FightActorRef::Building(8),
            FightActorRef::Unit(2),
            FightActorRef::Unit(3),
        ]
    );
    assert_eq!(trees[&2].query_order(), vec![FightActorRef::Building(9)]);
}

#[test]
fn a_team_with_nothing_a_search_can_find_still_gets_an_empty_tree() {
    let buildings = vec![building(5, 3, 0)];
    let unsearchable = BTreeSet::from([5_u64]);
    let trees = initialize_target_quadtrees(&Vec::new(), &buildings, &unsearchable);
    assert_eq!(trees.len(), 1);
    assert!(trees[&3].query_order().is_empty());
}
