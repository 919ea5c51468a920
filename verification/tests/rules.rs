use simulation::skill::CycleRules;
use simulation::rules::{
    AttackConfig, AttackPath, AttackTargets, AttackTiming, FormationConfig, FormationFootprint, RvoConfig, RvoSize,
    UnitConfig, UnitConfigs, UnitDomain, WeaponMode, WeaponTopology,
};

fn unit(name: &str, id: u32) -> UnitConfig {
    UnitConfig {
        schema: "mechcore.unit".to_owned(),
        name: name.to_owned(),
        unit_type_id: id,
        formation: FormationConfig {
            members: 4,
            slot_size: 4_000,
            footprint: FormationFootprint { width: 8_000, depth: 8_000 },
        },
        domain: UnitDomain::Ground,
        max_life: 1_000,
        collision_radius: 1_000,
        move_speed: 7_000,
        rotate_speed: 180_000,
        has_body: false,
        independent_aim: None,
        rvo: RvoConfig { outer_radius: 2_000, inner_radius: 1_500, size: RvoSize::S, collider_priority: 1, priority_q32: 0 },
        attack: AttackConfig {
            base_damage: 100,
            min_range: 0,
            range: 12_000,
            attack_half_angle: 360_000,
            targets: AttackTargets { ground: true, air: false },
            lock_target: false,
            quick_switch_target: true,
            timing: AttackTiming {
                interval: 2_000,
                interval_offset: 0,
                initial_cooldown: 0,
                prepare: 0,
                attack_point: 0,
                backswing: 0,
                cooling: 0,
            },
            splash_radius: 0,
            weapons: WeaponTopology {
                mode: WeaponMode::Normal,
                indices: vec![0, 1],
                per_skill: 2,
                fusillade: None,
                allow_same_target: None,
                rotation_speed: None,
            },
            melee: true,
            path: AttackPath::Direct,
            magazine: None,
        },
    }
}

#[test]
fn a_valid_description_passes_and_every_rule_is_checked_in_order() {
    assert!(unit("crawler", 7).validate().is_ok());

    let mut schema = unit("crawler", 7);
    schema.schema = "mechcore.tower".to_owned();
    assert_eq!(schema.validate().unwrap_err().message, "unsupported unit config type");

    let mut blank = unit(" \t", 7);
    blank.max_life = 5;
    assert_eq!(blank.validate().unwrap_err().message, "unit config for \" \\t\" contains invalid values");

    let mut negative = unit("crawler", 7);
    negative.move_speed = -1;
    assert_eq!(
        negative.validate().unwrap_err().message,
        "unit config field move_speed cannot be represented exactly by the kernel"
    );

    let mut slot = unit("crawler", 7);
    slot.formation.slot_size = 4_500;
    assert_eq!(
        slot.validate().unwrap_err().message,
        "unit config field formation.slot_size must use whole meters for member generation"
    );

    let mut aim = unit("crawler", 7);
    aim.independent_aim = Some(true);
    assert_eq!(
        aim.validate().unwrap_err().message,
        "independent_aim is not applicable when the unit has no mech body"
    );

    let mut radii = unit("crawler", 7);
    radii.rvo.inner_radius = 3_000;
    assert_eq!(radii.validate().unwrap_err().message, "rvo.inner_radius cannot exceed rvo.outer_radius");

    let mut priority = unit("crawler", 7);
    priority.rvo.collider_priority = 11;
    assert_eq!(
        priority.validate().unwrap_err().message,
        "rvo collider_priority or priority is outside its native range"
    );
}

#[test]
fn a_skill_is_checked_for_targets_ranges_weapons_and_path() {
    let mut nowhere = unit("crawler", 7);
    nowhere.attack.targets = AttackTargets { ground: false, air: false };
    assert_eq!(nowhere.validate().unwrap_err().message, "attack must target ground, air, or both");

    let mut ranges = unit("crawler", 7);
    ranges.attack.min_range = 13_000;
    assert_eq!(ranges.validate().unwrap_err().message, "attack min_range must not exceed range");

    let mut angle = unit("crawler", 7);
    angle.attack.attack_half_angle = 360_001;
    assert_eq!(angle.validate().unwrap_err().message, "attack_half_angle must not exceed 360 degrees");

    let mut twice = unit("crawler", 7);
    twice.attack.weapons.indices = vec![3, 3];
    assert_eq!(twice.validate().unwrap_err().message, "weapon indices must be distinct and non-negative");

    let mut counts = unit("crawler", 7);
    counts.attack.weapons.per_skill = 3;
    assert_eq!(counts.validate().unwrap_err().message, "weapon topology contains invalid counts");

    let mut group = unit("crawler", 7);
    group.attack.weapons.mode = WeaponMode::Group;
    assert_eq!(
        group.validate().unwrap_err().message,
        "group weapon topology requires fusillade and allow_same_target only for group mode"
    );

    let mut offset = unit("crawler", 7);
    offset.attack.path = AttackPath::Projectile {
        count: 1,
        release_interval: 0,
        speed: 40_000,
        target_offset_radius: 9,
        evenly_allocate_targets: false,
        extra_search_range: 0,
        pre_flight_height: 0,
        simulated_motion: false,
        interceptible: false,
        max_life: 0,
    };
    assert_eq!(
        offset.validate().unwrap_err().message,
        "path.target_offset_radius must be zero or at least one centimeter"
    );

    let mut laser = unit("crawler", 7);
    laser.attack.path = AttackPath::Laser { damage_multipliers: vec![1 << 32, 0] };
    assert_eq!(laser.validate().unwrap_err().message, "laser path requires positive finite damage multipliers");
}

#[test]
fn a_main_skill_the_kernel_cannot_fire_is_refused_by_unit() {
    let mut beam = unit("hacker", 7);
    beam.attack.path = AttackPath::ControlBeam { warmup_attack_count: 3, warmup_damage_multiplier: 1 << 32 };
    assert_eq!(
        beam.fired().unwrap_err().message,
        "unit \"hacker\" fires a control beam, which the kernel does not"
    );
    let mut standalone = unit("raiden", 8);
    standalone.attack.weapons.mode = WeaponMode::Standalone;
    assert!(standalone.fired().unwrap_err().message.contains("fires standalone weapons"));
    let mut single = unit("vortex", 9);
    single.attack.weapons.mode = WeaponMode::Group;
    single.attack.weapons.indices = vec![0];
    assert!(single.fired().is_ok());
    assert!(unit("crawler", 7).fired().is_ok());
}

#[test]
fn a_footprint_and_a_slot_are_whole_metres() {
    assert_eq!(unit("crawler", 7).formation_footprint_meters().unwrap(), (8, 8));
    assert_eq!(unit("crawler", 7).formation_slot_size_meters().unwrap(), 4);
    let mut uneven = unit("crawler", 7);
    uneven.formation.footprint.depth = 8_500;
    assert_eq!(
        uneven.formation_footprint_meters().unwrap_err().message,
        "unit config field formation.footprint.depth must use whole meters for layout placement"
    );
}

#[test]
fn descriptions_are_each_their_own_identity() {
    let table = UnitConfigs::from_configs(vec![unit("crawler", 7), unit("rhino", 8)]).unwrap();
    assert_eq!(table.get("rhino").unwrap().unit_type_id, 8);
    assert!(table.get("wasp").is_none());
    assert_eq!(
        UnitConfigs::from_configs(vec![unit("crawler", 7), unit("rhino", 7)]).err().unwrap().message,
        "unit configs contain duplicate identities"
    );
    assert_eq!(
        UnitConfigs::from_configs(Vec::new()).err().unwrap().message,
        "no unit configuration is embedded"
    );
    assert!(unit("crawler", 7).attack.accepts(UnitDomain::Ground));
    assert!(!unit("crawler", 7).attack.accepts(UnitDomain::Air));
}

#[test]
fn a_projectile_skill_answers_its_projectile_numbers() {
    let mut stormcaller = unit("stormcaller", 9);
    stormcaller.attack.path = AttackPath::Projectile {
        count: 3,
        release_interval: 200,
        speed: 25_000,
        target_offset_radius: 1_500,
        evenly_allocate_targets: false,
        extra_search_range: 0,
        pre_flight_height: 0,
        simulated_motion: false,
        interceptible: false,
        max_life: 0,
    };
    let attack = &stormcaller.attack;
    assert_eq!(attack.projectile_speed(), 25_000);
    assert_eq!(attack.projectile_life(), 1);
    assert_eq!(attack.projectile_count(), 3);
    assert_eq!(attack.projectile_release_interval_time_units(), 200);
    assert_eq!(attack.projectile_target_offset_radius(), 1_500);
    if let AttackPath::Projectile { max_life, .. } = &mut stormcaller.attack.path {
        *max_life = 90;
    }
    assert_eq!(stormcaller.attack.projectile_life(), 90);
}

#[test]
fn the_attack_cycle_reads_a_skill_from_its_description() {
    let mut striker = unit("crawler", 3);
    striker.attack.melee = true;
    striker.attack.path = AttackPath::Direct;
    let read = CycleRules::of(&striker.attack, false, 1_000);
    assert!(read.melee_direct);
    assert!(read.holds_fire_on_entry);
    assert!(!read.has_body);
    assert_eq!(read.interval_time_units, 1_000);
    assert_eq!(read.prepare_time_units, striker.attack.timing.prepare);
    striker.attack.melee = false;
    let read = CycleRules::of(&striker.attack, true, 1_000);
    assert!(!read.melee_direct);
    assert!(!read.holds_fire_on_entry);
}
