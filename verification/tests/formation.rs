use simulation::compile::Placement;
use simulation::data::{Channel, Entry};
use simulation::fixed::Q32_ONE;
use simulation::formation::{generate_formation_positions, C0_1_RAW, FORMATION_JITTER_RANGE_TENTHS};
use simulation::random::GrRandom;
use simulation::rules::{
    AttackConfig, AttackPath, AttackTargets, AttackTiming, FormationConfig, FormationFootprint, RvoConfig, RvoSize,
    UnitConfig, UnitDomain, WeaponMode, WeaponTopology,
};

fn described(name: &str, members: u32, width: i64, depth: i64, slot_size: i64) -> UnitConfig {
    UnitConfig {
        schema: "mechcore.unit".to_owned(),
        name: name.to_owned(),
        unit_type_id: 1,
        formation: FormationConfig { members, slot_size, footprint: FormationFootprint { width, depth } },
        domain: UnitDomain::Ground,
        max_life: 1_000,
        collision_radius: 1_000,
        move_speed: 7_000,
        rotate_speed: 180_000,
        has_body: false,
        independent_aim: None,
        rvo: RvoConfig { outer_radius: 2_000, inner_radius: 1_500, size: RvoSize::S, collider_priority: 1, priority_q32: 0 },
        attack: AttackConfig {
            base_damage: 100,
            min_range: 0,
            range: 120_000,
            attack_half_angle: 10_000,
            targets: AttackTargets { ground: true, air: false },
            lock_target: true,
            quick_switch_target: false,
            timing: AttackTiming {
                interval: 2_000,
                interval_offset: 0,
                initial_cooldown: 0,
                prepare: 0,
                attack_point: 0,
                backswing: 0,
                cooling: 0,
            },
            splash_radius: 0,
            weapons: WeaponTopology {
                mode: WeaponMode::Normal,
                indices: vec![0],
                per_skill: 1,
                fusillade: None,
                allow_same_target: None,
                rotation_speed: None,
            },
            melee: false,
            path: AttackPath::Direct,
            magazine: None,
        },
    }
}


/// A Crawler's formation: twenty-four members in a footprint of 49 by 20
/// metres, six metres a slot.
fn crawler() -> UnitConfig {
    described("crawler", 24, 49_000, 20_000, 6_000)
}

/// A Hound's formation: five members in a footprint of 39 by 20 metres,
/// thirteen metres a slot.
fn hound() -> UnitConfig {
    described("hound", 5, 39_000, 20_000, 13_000)
}

/// An Arclight stands alone.
fn arclight() -> UnitConfig {
    described("arclight", 1, 10_000, 10_000, 10_000)
}

fn placement(team: u32, formation_index: i32, name: &str) -> Placement {
    Placement {
        team,
        unit_id: 0,
        formation_id: 0,
        formation_index,
        name: name.to_owned(),
        world_x: 0,
        world_z: 0,
        rotation: if team == 0 { 0 } else { 180_000 },
        rotated: false,
        level: 1,
        corrections: Vec::<(Channel, Entry)>::new(),
    }
}

fn jitter(random: &mut GrRandom) -> (i64, i64) {
    let x = i64::from(random.next_in_range(FORMATION_JITTER_RANGE_TENTHS)).saturating_mul(C0_1_RAW);
    let z = i64::from(random.next_in_range(FORMATION_JITTER_RANGE_TENTHS)).saturating_mul(C0_1_RAW);
    (x, z)
}

#[test]
fn crawler_member_grid_and_jitter_follow_native_creation_order() {
    let rules = crawler();
    let blue = placement(0, 0, "crawler");
    let seed = 1_787_601_811;
    let positions = generate_formation_positions(&blue, &rules, seed).unwrap();
    assert_eq!(positions.len(), 24);

    let mut random = GrRandom::new(i64::from(seed) as u64);
    let mut base_positions = Vec::new();
    for (x_q32, z_q32) in &positions {
        let (jitter_x, jitter_z) = jitter(&mut random);
        base_positions.push(((x_q32 - jitter_x) >> 32, (z_q32 - jitter_z) >> 32));
    }
    let row = [(-21, 7), (-15, 7), (-9, 7), (-3, 7), (3, 7), (9, 7), (15, 7), (21, 7)];
    let expected = row
        .into_iter()
        .chain(row.map(|(x, _)| (x, 1)))
        .chain(row.map(|(x, _)| (x, -5)))
        .collect::<Vec<_>>();
    assert_eq!(base_positions, expected);

    let mut red = placement(1, 0, "crawler");
    let red_positions = generate_formation_positions(&red, &rules, seed).unwrap();
    assert!(
        positions
            .iter()
            .zip(red_positions)
            .all(|(&(blue_x, blue_z), (red_x, red_z))| (red_x, red_z) == (-blue_x, -blue_z))
    );

    red.rotated = true;
    red.world_z = 105;
    let seed = 1_787_832_792;
    let rotated_positions = generate_formation_positions(&red, &rules, seed).unwrap();
    let mut random = GrRandom::new(i64::from(seed) as u64);
    let base_offsets = rotated_positions
        .into_iter()
        .map(|(x_q32, z_q32)| {
            let (jitter_x, jitter_z) = jitter(&mut random);
            ((x_q32 + jitter_x) >> 32, (z_q32 - 105 * Q32_ONE + jitter_z) >> 32)
        })
        .collect::<Vec<_>>();
    let expected = [-22, -16, -10, -4, 2, 8, 14, 20]
        .into_iter()
        .flat_map(|z| [(6, z), (0, z), (-6, z)])
        .collect::<Vec<_>>();
    assert_eq!(base_offsets, expected);
}

#[test]
fn hound_partial_last_row_preserves_native_q32_centering() {
    let rules = hound();
    let seed = 1_787_601_811;
    let positions = generate_formation_positions(&placement(0, 0, "hound"), &rules, seed).unwrap();
    let mut random = GrRandom::new(i64::from(seed) as u64);
    let base_positions_q32 = positions
        .into_iter()
        .map(|(x_q32, z_q32)| {
            let (jitter_x, jitter_z) = jitter(&mut random);
            (x_q32 - jitter_x, z_q32 - jitter_z)
        })
        .collect::<Vec<_>>();
    assert_eq!(
        base_positions_q32,
        [
            (-13_i64 << 32, 5_i64 << 32),
            (0, 5_i64 << 32),
            (13_i64 << 32, 5_i64 << 32),
            (-(13_i64 << 31), -5_i64 << 32),
            (13_i64 << 31, -5_i64 << 32),
        ]
    );
}

#[test]
fn negative_formation_seed_is_sign_extended_like_the_native_constructor() {
    let positions = generate_formation_positions(&placement(0, 0, "arclight"), &arclight(), -1).unwrap();

    let mut native_random = GrRandom::new(i64::from(-1_i32) as u64);
    let expected = jitter(&mut native_random);
    let mut zero_extended = GrRandom::new(u64::from((-1_i32) as u32));
    let wrong = jitter(&mut zero_extended);

    assert_eq!(positions[0], expected);
    assert_ne!(expected, wrong);
}

#[test]
fn formation_seed_addition_wraps_at_the_native_i32_boundary() {
    let positions = generate_formation_positions(&placement(0, 1, "arclight"), &arclight(), i32::MAX).unwrap();

    let mut native_random = GrRandom::new(i64::from(i32::MIN) as u64);
    assert_eq!(positions[0], jitter(&mut native_random));
}
