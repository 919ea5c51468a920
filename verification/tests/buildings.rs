use simulation::buildings::{
    initialize_buildings, BuildingConfig, DestroyedBuff, TowerLevel, TowersConfig,
};
use simulation::fixed::Q32_ONE;
use simulation::layout::ConstructionBuilding;

fn tower(team_id: u32, building_type_id: u32, z: i64) -> BuildingConfig {
    BuildingConfig { team_id, building_type_id, x: 0, z, life: 5_000, radius: 4_000, collision_enabled: true }
}

fn block(team: u32, x: i64, z: i64) -> ConstructionBuilding {
    ConstructionBuilding {
        team,
        building_type_id: 3,
        x,
        z,
        radius: 4_000,
        life: 1_112,
        searchable: false,
        collider_priority: 5,
        skill: None,
        rotate_speed: 0,
        tower_buff: false,
    }
}

fn towers() -> TowersConfig {
    TowersConfig {
        schema: "mechcore.towers".to_owned(),
        buildings: vec![tower(0, 1, -100_000), tower(1, 1, 100_000)],
        destroyed_buff: DestroyedBuff {
            name: "Tower Destroyed".to_owned(),
            buff_divide: 1,
            additive: true,
            max_additive_stack: 0,
            can_affect_construction: true,
            clear_when_technologies_disabled: false,
            move_speed_rate: 0,
            damage_rate: 0,
            amplify_damage_rate: 0,
            can_affect_tower: false,
        },
        levels: vec![
            TowerLevel { level: 0, life: 0, buff: 1, duration: 10 },
            TowerLevel { level: 1, life: 1_000, buff: 2, duration: 12 },
        ],
    }
}

#[test]
fn a_building_is_numbered_by_its_place_in_team_type_and_position_order() {
    let towers = vec![tower(1, 1, 100_000), tower(0, 2, -100_000)];
    let blocks = vec![block(0, 12_000, -50_000), block(0, 0, -50_000)];
    let initial = initialize_buildings(&towers, &blocks).unwrap();
    let ids = initial.states.iter().map(|state| state.building_id).collect::<Vec<_>>();
    assert_eq!(ids, vec![4, 1, 3, 2]);
    let first = &initial.states[0];
    assert_eq!((first.team_id, first.building_type_id), (1, 1));
    assert_eq!((first.x_q32, first.z_q32), (0, 100 * Q32_ONE));
    assert_eq!((first.bounds_width, first.bounds_height), (8 * Q32_ONE, 8 * Q32_ONE));
    assert_eq!((first.life, first.maximum_life), (5_000, 5_000));
    assert!(first.available && first.targetable && first.collision_enabled);
    assert_eq!(initial.unsearchable.iter().copied().collect::<Vec<_>>(), vec![2, 3]);
    assert_eq!(initial.colliders.iter().map(|(&id, &priority)| (id, priority)).collect::<Vec<_>>(), vec![(2, 5), (3, 5)]);
}

#[test]
fn two_buildings_in_one_place_are_refused() {
    let towers = vec![tower(0, 3, -50_000)];
    let blocks = vec![block(0, 0, -50_000)];
    let error = initialize_buildings(&towers, &blocks).unwrap_err();
    assert_eq!(error.message, "two buildings stand in the same place");
}

#[test]
fn a_life_beyond_i32_is_refused() {
    let mut giant = tower(0, 1, 0);
    giant.life = i64::from(i32::MAX) + 1;
    let error = initialize_buildings(&vec![giant], &Vec::new()).unwrap_err();
    assert_eq!(error.message, "building life exceeds i32");
}

#[test]
fn a_building_without_life_cannot_be_targeted() {
    let mut ruin = tower(0, 1, 0);
    ruin.life = 0;
    let initial = initialize_buildings(&vec![ruin], &Vec::new()).unwrap();
    assert!(!initial.states[0].targetable);
}

#[test]
fn the_tower_configuration_this_build_reads_is_accepted() {
    assert!(towers().validate().is_ok());
}

#[test]
fn a_tower_configuration_is_refused_for_the_first_thing_wrong_with_it() {
    let mut wrong = towers();
    wrong.schema = "mechcore.units".to_owned();
    assert_eq!(wrong.validate().unwrap_err().message, "unsupported tower config type");

    let mut empty = towers();
    empty.buildings.clear();
    assert_eq!(empty.validate().unwrap_err().message, "tower config must contain native building rows");

    let mut skipped = towers();
    skipped.levels[1].level = 2;
    assert_eq!(skipped.validate().unwrap_err().message, "the tower levels are not 0 onwards in order");

    let mut stacked = towers();
    stacked.destroyed_buff.max_additive_stack = 3;
    assert_eq!(stacked.validate().unwrap_err().message, "Tower Destroyed bounds its additive stack, which is not read");

    let mut nameless = towers();
    nameless.buildings[1].building_type_id = 0;
    assert_eq!(nameless.validate().unwrap_err().message, "a tower building contains invalid identities or life");

    let mut flat = towers();
    flat.buildings[0].radius = 0;
    assert_eq!(
        flat.validate().unwrap_err().message,
        "unit config field radius cannot be represented exactly by the kernel"
    );
}
