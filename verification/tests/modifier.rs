use simulation::data::{Channel, Correction, Index};
use simulation::modifier::effects::{Fields, corrections, fixed_to};
use simulation::modifier::equipment::{EquipmentEffects, EquipmentRow, EquipmentTable};
use simulation::modifier::levels::{LevelEffects, LevelRow, LevelTable};
use simulation::modifier::officers::{OfficerEffects, OfficerRow, OfficerTable};
use simulation::modifier::targets::Targets;
use simulation::modifier::technologies::{TechnologyEffects, TechnologyRow, TechnologyTable};
use simulation::rules::{
    AttackConfig, AttackPath, AttackTargets, AttackTiming, FormationConfig, FormationFootprint, RvoConfig,
    RvoSize, UnitConfig, UnitDomain, WeaponMode, WeaponTopology,
};

const ADVANCED_OFFENSIVE_TACTICS: i32 = 20002;
const ADVANCED_DEFENSIVE_TACTICS: i32 = 20001;
const ADVANCED_TARGETING_SYSTEM: i32 = 20006;
const ADVANCED_POWER_SYSTEM: i32 = 20004;
const AERIAL_SPECIALIST: i32 = 20021;
const THIRTY_PERCENT: i64 = 1_288_490_188;

fn officer(id: i32, name: &str, mech_type: i32) -> OfficerRow {
    OfficerRow {
        id,
        name: name.to_owned(),
        mech_type,
        units: Vec::new(),
        damage_rate: None,
        damage_rate_by_kill_count: None,
        life_rate: None,
        life_rate_by_kill_count: None,
        attack_interval_rate: None,
        attack_range_rate: None,
        projectile_life_rate: None,
        tower_life_rate: None,
        energy_shield_rate: None,
        land_mine_rate: None,
        super_deployment_time_rate: None,
        attack_range_value: None,
        min_attack_range_value: None,
        attack_interval_value: None,
        splash_range_value: None,
        projectile_speed_value: None,
        speed_value: None,
        extra_life: None,
        exp_rate: None,
    }
}

/// The officers the table holds that these cases read, as the build's table
/// writes them.
fn officer_table() -> OfficerEffects {
    let mut offensive = officer(ADVANCED_OFFENSIVE_TACTICS, "Advanced Offensive Tactics", 0);
    offensive.damage_rate = Some(THIRTY_PERCENT);
    let mut defensive = officer(ADVANCED_DEFENSIVE_TACTICS, "Advanced Defensive Tactics", 0);
    defensive.life_rate = Some(THIRTY_PERCENT);
    let mut targeting = officer(ADVANCED_TARGETING_SYSTEM, "Advanced Targeting System", 4);
    targeting.attack_range_value = Some(10 << 32);
    let mut power = officer(ADVANCED_POWER_SYSTEM, "Advanced Power System", 0);
    power.speed_value = Some(3);
    let mut aerial = officer(AERIAL_SPECIALIST, "Aerial Specialist", 1);
    aerial.units = vec!["wasp".to_owned(), "phoenix".to_owned(), "phantom_ray".to_owned()];
    aerial.damage_rate = Some(858_993_459);
    aerial.life_rate = Some(858_993_459);
    let mut berserk = officer(30502, "Berserk Rhino", 1);
    berserk.units = vec!["rhino".to_owned()];
    berserk.damage_rate_by_kill_count = Some(THIRTY_PERCENT);
    OfficerEffects::load(OfficerTable {
        schema: "mechcore.officer_effects".to_owned(),
        game_build: "1.11.1.3.2259".to_owned(),
        officers: vec![offensive, defensive, targeting, power, aerial, berserk],
    })
    .unwrap()
}

#[test]
fn a_plain_integer_is_a_value_in_the_unit_channel() {
    let table = officer_table();
    let speed = table.corrections(&vec![ADVANCED_POWER_SYSTEM], "marksman").unwrap();
    assert_eq!(speed.len(), 1);
    assert_eq!(speed[0].0, Channel::Unit);
    assert_eq!(speed[0].1.index, Index::MoveSpeed);
    assert_eq!(speed[0].1.correction, Correction::Value(3_000));
}

#[test]
fn a_rate_lands_in_the_channel_its_recording_keeps_it_in() {
    let table = officer_table();
    let damage = table.corrections(&vec![ADVANCED_OFFENSIVE_TACTICS], "marksman").unwrap();
    assert_eq!(damage.len(), 1);
    assert_eq!(damage[0].0, Channel::Skill);
    assert_eq!(damage[0].1.index, Index::AttackDamage);
    assert_eq!(damage[0].1.correction, Correction::Rate { add: THIRTY_PERCENT, reduce: 0 });

    let life = table.corrections(&vec![ADVANCED_DEFENSIVE_TACTICS], "rhino").unwrap();
    assert_eq!(life.len(), 1);
    assert_eq!(life[0].0, Channel::Unit, "life is a unit's number");
    assert_eq!(life[0].1.index, Index::MaxLife);
}

#[test]
fn holding_one_officer_twice_writes_it_twice() {
    let table = officer_table();
    let held = vec![ADVANCED_OFFENSIVE_TACTICS, ADVANCED_OFFENSIVE_TACTICS];
    assert_eq!(table.corrections(&held, "marksman").unwrap().len(), 2);
}

#[test]
fn an_officer_reaches_only_the_units_its_row_lists() {
    let table = officer_table();
    assert_eq!(
        table.corrections(&vec![AERIAL_SPECIALIST], "wasp").unwrap().len(),
        2,
        "an air unit takes both of its rates"
    );
    assert!(
        table.corrections(&vec![AERIAL_SPECIALIST], "marksman").unwrap().is_empty(),
        "a ground unit takes neither"
    );
}

#[test]
fn an_officer_this_build_cannot_apply_is_refused_by_name() {
    let table = officer_table();
    let refused = table.corrections(&vec![ADVANCED_TARGETING_SYSTEM], "marksman").unwrap_err().message;
    assert!(refused.contains("20006"), "{refused}");
    assert!(refused.contains("ranged units"), "{refused}");
}

#[test]
fn an_officer_with_no_combat_effect_writes_nothing() {
    let table = officer_table();
    assert!(table.corrections(&vec![10001], "marksman").unwrap().is_empty());
}

#[test]
fn an_officer_counting_kills_is_refused_for_what_it_writes() {
    let table = officer_table();
    let refused = table.corrections(&vec![30502], "marksman").unwrap_err().message;
    assert_eq!(
        refused,
        "officer 30502 (Berserk Rhino) writes damage_rate_by_kill_count, and no mechanism here counts a unit's kills"
    );
}

#[test]
fn officers_held_one_after_another_write_one_after_another() {
    let table = officer_table();
    let both = table
        .corrections(&vec![ADVANCED_POWER_SYSTEM, ADVANCED_OFFENSIVE_TACTICS], "marksman")
        .unwrap();
    let first = table.corrections(&vec![ADVANCED_POWER_SYSTEM], "marksman").unwrap();
    let second = table.corrections(&vec![ADVANCED_OFFENSIVE_TACTICS], "marksman").unwrap();
    assert_eq!(both.len(), first.len() + second.len());
    assert_eq!(both[0].1.correction, first[0].1.correction);
    assert_eq!(both[1].1.correction, second[0].1.correction);
    assert_eq!(both[1].1.source, "Modifier");
}

#[test]
fn an_officer_table_is_refused_for_its_schema_its_build_and_a_repeat() {
    let rows = || vec![officer(1, "One", 0), officer(1, "Again", 0)];
    let wrong = OfficerEffects::load(OfficerTable {
        schema: "other".to_owned(),
        game_build: "b".to_owned(),
        officers: Vec::new(),
    })
    .unwrap_err();
    assert_eq!(wrong.message, "officer effect table declares schema \"other\"");
    let unbuilt = OfficerEffects::load(OfficerTable {
        schema: "mechcore.officer_effects".to_owned(),
        game_build: "  ".to_owned(),
        officers: Vec::new(),
    })
    .unwrap_err();
    assert_eq!(unbuilt.message, "officer effect table declares no game build");
    let repeated = OfficerEffects::load(OfficerTable {
        schema: "mechcore.officer_effects".to_owned(),
        game_build: "b".to_owned(),
        officers: rows(),
    })
    .unwrap_err();
    assert_eq!(repeated.message, "officer effect table holds officer 1 twice");
}

fn technology(id: i32, name: &str, unit: &str) -> TechnologyRow {
    TechnologyRow {
        id,
        name: name.to_owned(),
        unit: unit.to_owned(),
        life_rate: Vec::new(),
        damage_rate: Vec::new(),
        speed_value: Vec::new(),
        min_attack_range_value: Vec::new(),
        attack_range_value: Vec::new(),
        attack_range_rate: Vec::new(),
        attack_interval_value: Vec::new(),
        attack_interval_rate: Vec::new(),
        splash_range_value: Vec::new(),
        projectile_speed_value: Vec::new(),
        projectile_life_rate: Vec::new(),
    }
}

const RANGE_ENHANCEMENT: i32 = 10202;
const ELITE_MARKSMAN: i32 = 10801;
const GRENADE_LAUNCHER: i32 = 3109;

fn technology_table() -> TechnologyEffects {
    let mut range = technology(RANGE_ENHANCEMENT, "Range Enhancement", "marksman");
    range.attack_range_value = vec![40 << 32];
    let mut elite = technology(ELITE_MARKSMAN, "Elite Marksman", "fortress");
    elite.damage_rate = vec![429_496_730, 858_993_459, 1_288_490_189];
    let mut grenade = technology(GRENADE_LAUNCHER, "Grenade Launcher", "fang");
    grenade.splash_range_value = vec![3 << 32];
    TechnologyEffects::load(TechnologyTable {
        schema: "mechcore.technology_effects".to_owned(),
        technologies: vec![range, elite, grenade],
    })
    .unwrap()
}

#[test]
fn a_technology_writes_onto_the_unit_whose_table_row_names_it() {
    let table = technology_table();
    let written = table.corrections(&vec![RANGE_ENHANCEMENT], "marksman").unwrap();
    assert_eq!(written.len(), 1);
    assert_eq!(written[0].0, Channel::Skill);
    assert_eq!(written[0].1.index, Index::AttackRange);
    assert_eq!(written[0].1.correction, Correction::Value(40_000));

    assert!(
        table.corrections(&vec![RANGE_ENHANCEMENT], "arclight").unwrap().is_empty(),
        "another unit's Range Enhancement is another row"
    );
}

#[test]
fn a_technology_that_grows_with_rank_is_refused() {
    let table = technology_table();
    let refused = table.corrections(&vec![ELITE_MARKSMAN], "fortress").unwrap_err().message;
    assert!(refused.contains("10801"), "{refused}");
    assert!(refused.contains("rank"), "{refused}");
}

#[test]
fn a_technology_correcting_a_number_this_build_lacks_is_refused() {
    let table = technology_table();
    let refused = table.corrections(&vec![GRENADE_LAUNCHER], "fang").unwrap_err().message;
    assert!(refused.contains("splash_range_value"), "{refused}");
}

#[test]
fn a_technology_with_no_correction_writes_nothing() {
    let table = technology_table();
    assert!(table.corrections(&vec![1201], "fortress").unwrap().is_empty());
}

#[test]
fn a_technology_table_holds_each_technology_once() {
    let refused = TechnologyEffects::load(TechnologyTable {
        schema: "mechcore.technology_effects".to_owned(),
        technologies: vec![technology(5, "A", "marksman"), technology(5, "B", "rhino")],
    })
    .unwrap_err();
    assert_eq!(refused.message, "technology effect table holds technology 5 twice");
}

fn level_table() -> LevelEffects {
    LevelEffects::load(LevelTable {
        schema: "mechcore.unit_levels".to_owned(),
        game_build: "1.11.1.3.2259".to_owned(),
        levels: (1..=9)
            .map(|level| LevelRow {
                level,
                life_rating: i64::from(level) << 32,
                damage_rating: i64::from(level) << 32,
            })
            .collect(),
    })
    .unwrap()
}

#[test]
fn levels_outside_the_extracted_table_are_refused() {
    let table = level_table();
    for level in [0, 10] {
        let error = table.corrections(level).unwrap_err().message;
        assert!(error.contains(&format!("unit level {level}")), "{error}");
    }
}

#[test]
fn a_level_rating_of_one_writes_nothing() {
    let table = level_table();
    assert!(table.corrections(1).unwrap().is_empty());
    let second = table.corrections(2).unwrap();
    assert_eq!(second.len(), 2);
    assert_eq!(second[0].0, Channel::Base);
    assert_eq!(second[0].1.index, Index::MaxLife);
    assert_eq!(second[0].1.correction, Correction::Rating(2 << 32));
    assert_eq!(second[1].1.index, Index::AttackDamage);
    assert_eq!(second[1].1.source, "Modifier.Level");
}

#[test]
fn a_level_table_must_cover_one_through_nine_with_positive_ratings() {
    let rows = |levels: Vec<i32>, rating: i64| LevelTable {
        schema: "mechcore.unit_levels".to_owned(),
        game_build: "1.11.1.3.2259".to_owned(),
        levels: levels
            .into_iter()
            .map(|level| LevelRow { level, life_rating: rating, damage_rating: rating })
            .collect(),
    };
    assert_eq!(
        LevelEffects::load(rows((1..=8).collect(), 1 << 32)).unwrap_err().message,
        "unit level table must contain levels 1 through 9"
    );
    assert_eq!(
        LevelEffects::load(rows((1..=9).collect(), 0)).unwrap_err().message,
        "unit level ratings must be positive"
    );
    assert_eq!(
        LevelEffects::load(rows(vec![1, 2, 2], 1 << 32)).unwrap_err().message,
        "unit level table repeats a level"
    );
    let mut wrong = rows((1..=9).collect(), 1 << 32);
    wrong.game_build = "1.0".to_owned();
    assert_eq!(
        LevelEffects::load(wrong).unwrap_err().message,
        "unit level table has an unsupported schema or build"
    );
}

#[test]
fn a_rate_is_routed_by_its_sign_and_a_value_by_its_quantum() {
    assert_eq!(fixed_to(40 << 32, 1_000), 40_000);
    assert_eq!(fixed_to(-(3 << 31), 2_000), -3_000);
    assert_eq!(fixed_to(i64::MAX, 2_000), 4_294_967_295_999);
    assert_eq!(fixed_to(i64::MAX, i64::MAX), i64::MAX);
    assert_eq!(fixed_to(i64::MIN, i64::MAX), i64::MAX);
    let written = corrections(Fields {
        life_rate: Some(-THIRTY_PERCENT),
        damage_rate: Some(0),
        attack_range_rate: None,
        attack_interval_rate: Some(THIRTY_PERCENT),
        attack_range_value: None,
        attack_interval_value: Some(1 << 31),
        speed_value: Some(i64::MAX),
    });
    assert_eq!(
        written,
        vec![
            (Channel::Skill, Index::AttackInterval, Correction::Rate { add: THIRTY_PERCENT, reduce: 0 }),
            (Channel::Unit, Index::MaxLife, Correction::Rate { add: 0, reduce: THIRTY_PERCENT }),
            (Channel::Skill, Index::AttackInterval, Correction::Value(1_000)),
            (Channel::Unit, Index::MoveSpeed, Correction::Value(i64::MAX)),
        ]
    );
}

pub fn unit(name: &str, melee: bool) -> UnitConfig {
    UnitConfig {
        schema: "mechcore.unit".to_owned(),
        name: name.to_owned(),
        unit_type_id: 1,
        formation: FormationConfig {
            members: 1,
            slot_size: 8_000,
            footprint: FormationFootprint { width: 8_000, depth: 8_000 },
        },
        domain: UnitDomain::Ground,
        max_life: 1_622,
        collision_radius: 1_500,
        move_speed: 7_000,
        rotate_speed: 180_000,
        has_body: true,
        independent_aim: None,
        rvo: RvoConfig { outer_radius: 2_000, inner_radius: 1_500, size: RvoSize::M, collider_priority: 2, priority_q32: 1 << 31 },
        attack: AttackConfig {
            base_damage: 2_329,
            min_range: 0,
            range: 120_000,
            attack_half_angle: 10_000,
            targets: AttackTargets { ground: true, air: true },
            lock_target: true,
            quick_switch_target: false,
            timing: AttackTiming {
                interval: 2_000,
                interval_offset: 1_200,
                initial_cooldown: 0,
                prepare: 0,
                attack_point: 0,
                backswing: 0,
                cooling: 0,
            },
            splash_radius: 0,
            weapons: WeaponTopology {
                mode: WeaponMode::Normal,
                indices: vec![0],
                per_skill: 1,
                fusillade: None,
                allow_same_target: None,
                rotation_speed: None,
            },
            melee,
            path: AttackPath::Direct,
            magazine: None,
        },
    }
}

fn equipment(id: i32, name: &str, mech_type: i32) -> EquipmentRow {
    EquipmentRow {
        id,
        name: name.to_owned(),
        mech_type: vec![mech_type],
        units: Vec::new(),
        main_skill_effect: true,
        extra_skill_effect: false,
        permanent_effect: false,
        important_unit: false,
        round_duration: 0,
        life_rate: None,
        damage_rate: None,
        attack_range_rate: None,
        attack_interval_rate: None,
        projectile_life_rate: None,
        attack_range_value: None,
        min_attack_range_value: None,
        attack_interval_value: None,
        splash_range_value: None,
        projectile_speed_value: None,
        speed_value: None,
        exp_rate: None,
        grade_upper_limit: None,
    }
}

const LASER_SIGHTS: i32 = 13_030_001;
const HEAVY_ARMOR: i32 = 13_030_002;
const DOMINION_CORE: i32 = 13_030_010;
const RAPID_LOADER: i32 = 13_030_011;
const BARRIER: i32 = 1_307_001;

fn equipment_table() -> EquipmentEffects {
    let mut laser = equipment(LASER_SIGHTS, "Laser Sights", 4);
    laser.attack_range_value = Some(40 << 32);
    let mut armor = equipment(HEAVY_ARMOR, "Heavy Armor", 0);
    armor.life_rate = Some(THIRTY_PERCENT);
    let mut core = equipment(DOMINION_CORE, "Dominion Core", 0);
    core.important_unit = true;
    let mut loader = equipment(RAPID_LOADER, "Rapid Loader", 0);
    loader.round_duration = 2;
    EquipmentEffects::load(
        EquipmentTable {
            schema: "mechcore.equipment_effects".to_owned(),
            equipment: vec![laser, armor, core, loader],
        },
        vec![(BARRIER, "barrier".to_owned())],
    )
    .unwrap()
}

#[test]
fn a_ranged_equipment_writes_nothing_onto_a_melee_unit() {
    let table = equipment_table();
    assert!(table.corrections(LASER_SIGHTS, &unit("rhino", true), 1).unwrap().is_empty());
    let written = table.corrections(LASER_SIGHTS, &unit("steel_ball", false), 1).unwrap();
    assert_eq!(written.len(), 1);
    assert_eq!(written[0].1.correction, Correction::Value(40_000));
}

#[test]
fn an_equipment_this_build_cannot_apply_is_refused_by_name() {
    let table = equipment_table();
    let marksman = unit("marksman", false);
    for (id, round, said) in [
        (BARRIER, 1, "barrier"),
        (RAPID_LOADER, 1, "round_duration"),
        (DOMINION_CORE, 1, "important_unit"),
        (HEAVY_ARMOR, 2, "durability"),
    ] {
        let refused = table.corrections(id, &marksman, round).unwrap_err().message;
        assert!(refused.contains(&id.to_string()), "{refused}");
        assert!(refused.contains(said), "{refused}");
    }
    assert!(table.corrections(99, &marksman, 1).unwrap_err().message.contains("(unnamed)"));
}

#[test]
fn an_equipment_rate_lands_in_the_officers_channel() {
    let table = equipment_table();
    let written = table.corrections(HEAVY_ARMOR, &unit("marksman", false), 1).unwrap();
    assert_eq!(written.len(), 1);
    assert_eq!(written[0].0, Channel::Unit);
    assert_eq!(written[0].1.index, Index::MaxLife);
}

#[test]
fn a_category_is_resolved_by_its_number() {
    let listed = vec!["wasp".to_owned()];
    assert!(matches!(Targets::of(0, &listed, "row"), Targets::Every));
    assert!(matches!(Targets::of(10, &listed, "row"), Targets::Listed(units) if units == listed));
    match Targets::of(11, &listed, "row 5") {
        Targets::Refused(reason) => assert_eq!(reason, "row 5 corrects a tower, a shield or a mine rather than a unit"),
        _ => panic!("category 11 is refused"),
    }
    match Targets::of(-2, &listed, "row 5") {
        Targets::Refused(reason) => {
            assert_eq!(reason, "row 5 targets mech_type -2, which this build does not read")
        }
        _ => panic!("an unknown category is refused"),
    }
    assert_eq!(Targets::Melee.reaches(&unit("rhino", true)).unwrap(), true);
    assert_eq!(Targets::Ranged.reaches(&unit("rhino", true)).unwrap(), false);
    assert_eq!(Targets::Listed(listed).reaches(&unit("wasp", false)).unwrap(), true);
}

#[test]
fn an_equipment_targeting_several_categories_is_refused_with_its_lists_written_out() {
    let mut odd = equipment(LASER_SIGHTS, "Laser Sights", 1);
    odd.mech_type = vec![1, -2];
    odd.units = vec![3];
    let table = EquipmentEffects::load(
        EquipmentTable { schema: "mechcore.equipment_effects".to_owned(), equipment: vec![odd] },
        Vec::new(),
    )
    .unwrap();
    let refusal = table.corrections(LASER_SIGHTS, &unit("steel_ball", false), 1).unwrap_err();
    assert!(
        refusal.message.ends_with(" targets mech_type [1, -2] and units [3], which this build does not read"),
        "{}",
        refusal.message
    );
    let mut empty = equipment(HEAVY_ARMOR, "Heavy Armor", 0);
    empty.mech_type = Vec::new();
    let table = EquipmentEffects::load(
        EquipmentTable { schema: "mechcore.equipment_effects".to_owned(), equipment: vec![empty] },
        Vec::new(),
    )
    .unwrap();
    let refusal = table.corrections(HEAVY_ARMOR, &unit("steel_ball", false), 1).unwrap_err();
    assert!(refusal.message.contains("targets mech_type [] and units []"), "{}", refusal.message);
}

#[test]
fn a_build_of_unicode_whitespace_alone_is_no_build() {
    let table = |build: &str| OfficerTable {
        schema: "mechcore.officer_effects".to_owned(),
        game_build: build.to_owned(),
        officers: Vec::new(),
    };
    let unbuilt = OfficerEffects::load(table("\u{3000}\t\u{2028}\u{a0}")).unwrap_err();
    assert_eq!(unbuilt.message, "officer effect table declares no game build");
    assert!(OfficerEffects::load(table("\u{3000}2259\u{85}")).is_ok());
}
