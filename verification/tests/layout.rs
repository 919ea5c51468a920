use simulation::compile::{LayoutPlan, Loadouts, Placement as Placed, compile_with_seed};
use simulation::data::Channel;
use simulation::formation::generate_formation_positions;
use simulation::kernel::rvo_profile;
use simulation::layout::{ConstructionRow, ConstructionTable, Constructions, Refusals, SkillRow, fixed_to_space};
use simulation::modifier::equipment::{EquipmentEffects, EquipmentTable};
use simulation::modifier::officers::{OfficerEffects, OfficerRow, OfficerTable};
use simulation::modifier::technologies::{TechnologyEffects, TechnologyTable};
use simulation::plan::{NativeFormation, Placement, Position, SidePlan};
use simulation::rules::{
    AttackConfig, AttackPath, AttackTargets, AttackTiming, FormationConfig, FormationFootprint, Magazine, RvoConfig, RvoSize,
    UnitConfig, UnitConfigs, UnitDomain, WeaponMode, WeaponTopology,
};
use simulation::Error;

fn wall_row() -> ConstructionRow {
    ConstructionRow {
        id: 1,
        name: "Defensive Wall".to_owned(),
        layout_name: Some("defensive_wall".to_owned()),
        count: 5,
        max_life: 1112,
        damage: 0,
        durability: 0,
        block_width: 12,
        space: 0,
        grid_column_count: 5,
        grid_row_count: 1,
        real_row_count: 1,
        rotate_speed: 0,
        skill_id: 0,
        exp: 0,
        sell_supply: 0,
        pathfinding_collider_priority: 5,
        default_actor_visibility: 0,
        radius: 4 << 32,
        path_radius: 4 << 32,
        attack_angle: 0,
        special_damage_reduce_rate: 0,
        has_durability: false,
        can_be_bought: true,
        can_be_sold: true,
        can_be_effected_by_tower_buff: false,
        enable_search_target: false,
        quick_search_target: false,
    }
}

fn construction_table() -> Constructions {
    let mut barrier = wall_row();
    barrier.id = 4;
    barrier.name = "Magnetic Barrier".to_owned();
    barrier.count = 10;
    barrier.real_row_count = 2;
    let mut turret = wall_row();
    turret.id = 2;
    turret.name = "Anti-Armor Turret".to_owned();
    turret.layout_name = Some("anti_armor_turret".to_owned());
    turret.count = 1;
    turret.grid_column_count = 1;
    turret.max_life = 3600;
    turret.damage = 2748;
    turret.skill_id = 2001;
    turret.radius = 12 << 32;
    turret.attack_angle = 45 << 32;
    turret.enable_search_target = true;
    let mut cannon = unit("anti_armor_turret", 9).attack;
    cannon.base_damage = 2748;
    cannon.range = 125_000;
    cannon.attack_half_angle = 45_000;
    cannon.magazine = Some(Magazine { capacity: 6, reload: 8_000 });
    cannon.path = AttackPath::Projectile {
        count: 1,
        release_interval: 0,
        speed: 60_000,
        target_offset_radius: 0,
        evenly_allocate_targets: false,
        extra_search_range: 0,
        pre_flight_height: 0,
        simulated_motion: false,
        interceptible: false,
        max_life: 4_000,
    };
    Constructions::load(ConstructionTable {
        schema: "mechcore.constructions".to_owned(),
        constructions: vec![wall_row(), barrier, turret],
        skills: vec![SkillRow { id: 2001, name: "Armor Piercer".to_owned(), attack: cannon }],
    })
    .unwrap()
}

#[test]
fn a_turret_carries_its_skill() {
    let table = construction_table();
    let built = table.buildings(0, &construction("anti_armor_turret", 2, -140, -100)).unwrap();
    assert_eq!(built.len(), 1);
    let skill = built[0].skill.as_ref().expect("a turret fires");
    assert_eq!(skill.base_damage, 2748);
    assert_eq!(skill.range, 125_000);
    assert_eq!(skill.magazine.map(|magazine| magazine.capacity), Some(6));
    assert_eq!(built[0].radius, 12_000);
}

fn construction(name: &str, id: i32, x: i32, y: i32) -> Placement {
    Placement {
        name: name.to_owned(),
        native: NativeFormation::Construction(id),
        footprint: None,
        position: Position { x, y },
        index: Some(0),
        level: None,
        rotated: false,
        equipment: Vec::new(),
        travelling: false,
    }
}

#[test]
fn a_wall_is_five_blocks_twelve_metres_apart() {
    let table = construction_table();
    let built = table.buildings(0, &construction("defensive_wall", 1, -140, -55)).unwrap();
    assert_eq!(
        built.iter().map(|building| (building.x / 1_000, building.z / 1_000)).collect::<Vec<_>>(),
        [(-164, -55), (-152, -55), (-140, -55), (-128, -55), (-116, -55)]
    );
    for building in &built {
        assert_eq!(building.life, 1112);
        assert!(!building.searchable, "a wall is not something a unit searches for");
        assert_eq!(building.radius, 4_000, "4 metres, half of the 8 m box");
        assert_eq!(building.building_type_id, 3, "BuildingType.Special");
    }
}

#[test]
fn reds_wall_is_turned_around_with_the_rest_of_its_board() {
    let table = construction_table();
    let built = table.buildings(1, &construction("defensive_wall", 1, 140, -55)).unwrap();
    assert_eq!(
        built.iter().map(|building| (building.x / 1_000, building.z / 1_000)).collect::<Vec<_>>(),
        [(-164, 55), (-152, 55), (-140, 55), (-128, 55), (-116, 55)]
    );
}

#[test]
fn a_construction_with_two_rows_is_refused() {
    let table = construction_table();
    let refusal = table.buildings(0, &construction("magnetic_barrier", 4, -145, -55)).unwrap_err().message;
    assert!(refusal.contains("10 objects over 2 rows"), "{refusal}");
    let missing = table.buildings(0, &construction("anti_air_turret", 9, 0, 0)).unwrap_err().message;
    assert_eq!(missing, "construction 9 (\"anti_air_turret\") is not in the construction table");
}

#[test]
fn one_object_stands_on_its_placement_and_an_even_row_is_unmeasured() {
    let mut single = wall_row();
    single.id = 2;
    single.count = 1;
    assert_eq!(single.offsets(), Some(vec![0]));
    let mut even = wall_row();
    even.count = 4;
    assert_eq!(even.offsets(), None);
    let mut unmeasured = wall_row();
    unmeasured.id = 3;
    assert_eq!(unmeasured.offsets(), None);
    assert_eq!(wall_row().offsets(), Some(vec![-24, -12, 0, 12, 24]));
    assert_eq!(fixed_to_space(12 << 32), 12_000);
}

#[test]
fn a_refusal_is_named_once_and_all_are_named_together() {
    let mut refused = Refusals::new();
    refused.push("side blue: one".to_owned());
    refused.push("side red: two".to_owned());
    refused.push("side blue: one".to_owned());
    assert_eq!(refused.hold::<i32>(Ok(4)), Some(4));
    assert_eq!(refused.hold::<i32>(Err(Error::new("side red: two".to_owned()))), None);
    assert_eq!(refused.reasons.len(), 2);
    assert_eq!(refused.settle().unwrap_err().message, "side blue: one; side red: two");
    assert!(Refusals::new().settle().is_ok());
}

fn unit(name: &str, id: u32) -> UnitConfig {
    UnitConfig {
        schema: "mechcore.unit".to_owned(),
        name: name.to_owned(),
        unit_type_id: id,
        formation: FormationConfig {
            members: 5,
            slot_size: 4_000,
            footprint: FormationFootprint { width: 8_000, depth: 12_000 },
        },
        domain: UnitDomain::Ground,
        max_life: 1_000,
        collision_radius: 1_000,
        move_speed: 7_000,
        rotate_speed: 180_000,
        has_body: false,
        independent_aim: None,
        rvo: RvoConfig { outer_radius: 2_000, inner_radius: 1_500, size: RvoSize::S, collider_priority: 1, priority_q32: 0 },
        attack: AttackConfig {
            base_damage: 100,
            min_range: 0,
            range: 120_000,
            attack_half_angle: 10_000,
            targets: AttackTargets { ground: true, air: false },
            lock_target: true,
            quick_switch_target: false,
            timing: AttackTiming {
                interval: 2_000,
                interval_offset: 0,
                initial_cooldown: 0,
                prepare: 0,
                attack_point: 0,
                backswing: 0,
                cooling: 0,
            },
            splash_radius: 0,
            weapons: WeaponTopology {
                mode: WeaponMode::Normal,
                indices: vec![0],
                per_skill: 1,
                fusillade: None,
                allow_same_target: None,
                rotation_speed: None,
            },
            melee: false,
            path: AttackPath::Direct,
            magazine: None,
        },
    }
}

fn formation(name: &str, x: i32, y: i32) -> Placement {
    Placement {
        name: name.to_owned(),
        native: NativeFormation::Unit(1),
        footprint: Some((8, 12)),
        position: Position { x, y },
        index: Some(0),
        level: Some(1),
        rotated: false,
        equipment: Vec::new(),
        travelling: false,
    }
}

fn side(units: Vec<Placement>) -> SidePlan {
    SidePlan {
        officers: Vec::new(),
        unit_technologies: Vec::new(),
        energy_tower_skills: 0,
        tower_strengthen_levels: Vec::new(),
        battle_skills: 0,
        constructions: Vec::new(),
        contraptions: 0,
        airdrop_shields: 0,
        terrains: 0,
        units,
    }
}

fn loadouts() -> Loadouts {
    let mut offensive = OfficerRow {
        id: 20002,
        name: "Advanced Offensive Tactics".to_owned(),
        mech_type: 0,
        units: Vec::new(),
        damage_rate: Some(1_288_490_188),
        damage_rate_by_kill_count: None,
        life_rate: None,
        life_rate_by_kill_count: None,
        attack_interval_rate: None,
        attack_range_rate: None,
        projectile_life_rate: None,
        tower_life_rate: None,
        energy_shield_rate: None,
        land_mine_rate: None,
        super_deployment_time_rate: None,
        attack_range_value: None,
        min_attack_range_value: None,
        attack_interval_value: None,
        splash_range_value: None,
        projectile_speed_value: None,
        speed_value: None,
        extra_life: None,
        exp_rate: None,
    };
    let mut berserk = offensive.clone();
    berserk.id = 30502;
    berserk.name = "Berserk Rhino".to_owned();
    berserk.damage_rate = None;
    berserk.damage_rate_by_kill_count = Some(1);
    offensive.units = Vec::new();
    Loadouts {
        officers: OfficerEffects::load(OfficerTable {
            schema: "mechcore.officer_effects".to_owned(),
            game_build: "1.11.1.3.2259".to_owned(),
            officers: vec![offensive, berserk],
        })
        .unwrap(),
        technologies: TechnologyEffects::load(TechnologyTable {
            schema: "mechcore.technology_effects".to_owned(),
            technologies: Vec::new(),
        })
        .unwrap(),
        equipment: EquipmentEffects::load(
            EquipmentTable { schema: "mechcore.equipment_effects".to_owned(), equipment: Vec::new() },
            Vec::new(),
        )
        .unwrap(),
        round: 1,
    }
}

/// A Crawler: twenty-four members in a footprint of 49 by 20 metres.
fn crawler() -> UnitConfig {
    let mut crawler = unit("crawler", 4);
    crawler.formation = FormationConfig {
        members: 24,
        slot_size: 6_000,
        footprint: FormationFootprint { width: 49_000, depth: 20_000 },
    };
    crawler
}

fn crawler_formation(x: i32, y: i32) -> Placement {
    let mut placed = formation("crawler", x, y);
    placed.footprint = Some((49, 20));
    placed
}

fn units() -> UnitConfigs {
    UnitConfigs::from_configs(vec![unit("marksman", 1), unit("arclight", 2), unit("rhino", 3), crawler()]).unwrap()
}

fn plan(blue: SidePlan, red: SidePlan) -> LayoutPlan {
    LayoutPlan { seed: Some(17), round: 1, blue, red }
}

#[test]
fn mod_compiles_side_local_positions_into_one_world() {
    let (seed, layout) = compile_with_seed(
        &plan(side(vec![formation("marksman", 0, -50)]), side(vec![formation("arclight", 0, -50)])),
        &units(),
        &loadouts(),
        &construction_table(),
    )
    .unwrap();
    assert_eq!(seed, Some(17));
    assert_eq!(layout.round, 1);
    assert_eq!(layout.placements[0].world_z, -50);
    assert_eq!(layout.placements[1].world_z, 50);
    assert_eq!(layout.placements[1].rotation, 180_000);
    assert_eq!(layout.placements[0].unit_id, 0);
    assert_eq!(layout.placements[0].formation_index, 0);
    assert_eq!(layout.tower_levels.len(), 2);
}

#[test]
fn mod_formation_index_preserves_native_declaration_order_before_seeded_generation() {
    let (_, layout) = compile_with_seed(
        &plan(
            side(vec![formation("arclight", 20, -100), formation("rhino", -15, -105)]),
            side(vec![formation("arclight", 0, -50)]),
        ),
        &units(),
        &loadouts(),
        &construction_table(),
    )
    .unwrap();
    assert_eq!(layout.placements.len(), 3);
    assert_eq!(layout.placements[0].name, "arclight");
    assert_eq!(layout.placements[0].formation_index, 0);
    assert_eq!(layout.placements[1].name, "rhino");
    assert_eq!(layout.placements[1].formation_index, 1);
    assert_eq!(layout.placements[2].formation_index, 0);
    assert!(layout.placements.iter().all(|placement| placement.unit_id == 0 && placement.formation_id == 0));
}

#[test]
fn an_officer_refuses_the_side_that_holds_it_and_every_refusal_is_named() {
    let mut blue = side(vec![formation("marksman", 0, -50), formation("wasp", 0, -60)]);
    blue.officers = vec![30502];
    let mut wrong = formation("arclight", 0, -50);
    wrong.footprint = Some((9, 9));
    let refused = compile_with_seed(&plan(blue, side(vec![wrong])), &units(), &loadouts(), &construction_table())
        .unwrap_err()
        .message;
    assert!(refused.starts_with("side blue needs modules this build has not implemented: officers (Loadout)"), "{refused}");
    assert!(refused.contains("side blue: officer 30502 (Berserk Rhino) writes damage_rate_by_kill_count"), "{refused}");
    assert!(refused.contains("side blue unit type \"wasp\" has no unit configuration"), "{refused}");
    assert!(
        refused.contains(
            "side red unit type \"arclight\" layout footprint Some((9, 9)) does not match simulator configuration (8, 12)"
        ),
        "{refused}"
    );
}

#[test]
fn a_wall_reaches_the_fight_as_five_buildings_and_bad_levels_are_refused() {
    let mut blue = side(vec![formation("marksman", 0, -50)]);
    blue.constructions = vec![construction("defensive_wall", 1, 140, -105)];
    let refused = compile_with_seed(&plan(blue.clone(), side(vec![formation("arclight", 0, -50)])), &units(), &loadouts(), &construction_table())
        .unwrap_err()
        .message;
    assert!(refused.contains("constructions (FightConstructionSystem)"), "{refused}");
    blue.tower_strengthen_levels = vec![1, 300];
    let refused = compile_with_seed(&plan(blue, side(Vec::new())), &units(), &loadouts(), &construction_table())
        .unwrap_err()
        .message;
    assert!(refused.contains("a tower strengthen level of 300"), "{refused}");
}

#[test]
fn a_formation_fills_its_rows_front_first_and_jitters_each_member() {
    let placed = Placed {
        team: 0,
        unit_id: 0,
        formation_id: 0,
        formation_index: 0,
        name: "marksman".to_owned(),
        world_x: 10,
        world_z: -50,
        rotation: 0,
        rotated: false,
        level: 1,
        corrections: Vec::<(Channel, simulation::data::Entry)>::new(),
    };
    let rules = unit("marksman", 1);
    let positions = generate_formation_positions(&placed, &rules, 17).unwrap();
    assert_eq!(positions.len(), 5);
    let tenth = 0x1999_9999_i64;
    let q = 1_i64 << 32;
    // Two columns of four metres across an eight-metre footprint, three rows
    // of four metres along twelve; the last row holds one member.
    let expected_frame = [(-2, 4), (2, 4), (-2, 0), (2, 0), (0, -4)];
    for (position, (x, z)) in positions.iter().zip(expected_frame) {
        let jitter_x = position.0 - (10 + x) * q;
        let jitter_z = position.1 - (-50 + z) * q;
        assert_eq!(jitter_x % tenth, 0);
        assert!((-7..=7).contains(&(jitter_x / tenth)), "{jitter_x}");
        assert!((-7..=7).contains(&(jitter_z / tenth)), "{jitter_z}");
    }
    let again = generate_formation_positions(&placed, &rules, 17).unwrap();
    assert_eq!(positions, again);

    let mut wide = rules.clone();
    wide.formation.slot_size = 9_000;
    assert_eq!(
        generate_formation_positions(&placed, &wide, 17).unwrap_err().message,
        "unit \"marksman\" formation slot size exceeds its footprint width"
    );
}

#[test]
fn the_avoidance_world_reads_a_units_radii_in_q32_metres() {
    let profile = rvo_profile(&unit("marksman", 1));
    assert_eq!(profile.outer_radius_q32, 2 * (1_i64 << 32));
    assert_eq!(profile.inner_radius_q32, 3 * (1_i64 << 31));
    assert_eq!(profile.size, RvoSize::S);
    assert_eq!(profile.collider_priority, 1);
    assert_eq!(profile.priority_q32, 0);
}

fn compile_plan(blue: SidePlan, red: SidePlan) -> Result<simulation::compile::CompiledLayout, Error> {
    compile_with_seed(&plan(blue, red), &units(), &loadouts(), &construction_table()).map(|(_, layout)| layout)
}

#[test]
fn mod_rejects_persistent_terrains_outside_simulator_closure() {
    let mut blue = side(vec![formation("marksman", 0, -50)]);
    blue.terrains = 1;
    assert_eq!(
        compile_plan(blue, side(vec![formation("arclight", 0, -50)])).unwrap_err().message,
        "side blue needs modules this build has not implemented: terrains (RangeItemSystem)"
    );
}

#[test]
fn mod_compiles_multi_member_formations_as_one_deployment_placement() {
    let layout = compile_plan(side(vec![crawler_formation(5, -50)]), side(vec![formation("arclight", 0, -50)])).unwrap();
    assert_eq!(layout.placements.len(), 2);
    assert_eq!(layout.placements[0].name, "crawler");
}

#[test]
fn mod_rotated_formation_swaps_config_footprint_without_rotating_unit_facing() {
    let mut rotated = crawler_formation(0, -105);
    rotated.rotated = true;
    let layout = compile_plan(side(vec![formation("marksman", 0, -50)]), side(vec![rotated])).unwrap();
    let red = &layout.placements[1];
    assert!(red.rotated);
    assert_eq!((red.world_x, red.world_z), (0, 105));
    assert_eq!(red.rotation, 180_000);
}

#[test]
fn an_officer_this_build_cannot_apply_refuses_the_side_that_holds_it() {
    let mut blue = side(vec![formation("marksman", 0, -50)]);
    blue.officers = vec![30502];
    let refused = compile_plan(blue, side(vec![formation("arclight", 0, -50)])).unwrap_err().message;
    assert!(refused.contains("side blue"), "{refused}");
    assert!(refused.contains("30502"), "{refused}");
    assert!(refused.contains("kills"), "{refused}");
}

#[test]
fn a_magnetic_barrier_refuses_the_side_that_placed_it() {
    let mut blue = side(vec![formation("marksman", 0, -50)]);
    blue.constructions = vec![construction("magnetic_barrier", 4, -145, -55)];
    let refused = compile_plan(blue, side(vec![formation("arclight", 0, -50)])).unwrap_err().message;
    assert!(refused.contains("side blue"), "{refused}");
    assert!(refused.contains("construction 4"), "{refused}");
    assert!(refused.contains("10 objects over 2 rows"), "{refused}");
}

#[test]
fn a_refusal_names_everything_the_layout_is_refused_for() {
    let mut blue = side(vec![formation("marksman", 0, -50), formation("marksman", 20, -50)]);
    blue.officers = vec![30502];
    blue.terrains = 1;
    let red = side(vec![formation("sandworm", 0, -160), formation("war_factory", 75, -165)]);
    let refused = compile_plan(blue, red).unwrap_err().message;
    let clauses: Vec<&str> = refused.split("; ").collect();
    assert_eq!(clauses.len(), 4, "{refused}");
    assert!(clauses[0].contains("terrains (RangeItemSystem)"), "{refused}");
    assert!(clauses[1].contains("30502"), "{refused}");
    assert!(clauses[2].contains("\"sandworm\" has no unit configuration"), "{refused}");
    assert!(clauses[3].contains("\"war_factory\" has no unit configuration"), "{refused}");
}
