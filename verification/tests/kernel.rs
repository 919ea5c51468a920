use simulation::fixed::{
    NATIVE_LOGIC_DELTA_Q32, Q32_ONE, gcd, integer_sqrt, native_time_units_to_steps, q32_div, q32_mul,
    q32_to_space_rounded, rotate_towards_q32_unwrapped, rotation_distance, space_to_q32,
};
use simulation::formation::C0_1_RAW;
use simulation::kernel::{
    C0_01_RAW, FixedVec2, Reach, SeedSource, immovable_rvo_collision_masks, movable_rvo_collision_masks,
    naturally_finished, rvo_position, seed_choice, seed_from_digest, seed_from_material,
    simulated_duration_milliseconds, team_name, team_stream_seed, unit_height, winner,
};
use simulation::motion::{
    TARGET_SCORE_ANGLE_FACTOR_Q32, TARGET_SCORE_BASE_Q32, TARGET_SCORE_OUT_OF_RANGE_PENALTY_Q32,
    clamp_magnitude_q32_raw, normal_visible_full_rotation_score_from_distance_and_angle_q32,
    normalized_velocity_q32_raw,
};
use simulation::quadtree::{FightActorRef, TargetActorQuadtree, TargetActorQuadtreeNode, TargetActorRect};
use simulation::rules::{AttackTargets, UnitDomain};
use simulation::trig::{direction_mdeg, direction_mdeg_q32_raw, native_q32_magnitude};

fn unit_target(id: u64) -> FightActorRef {
    FightActorRef::Unit(id)
}

#[test]
fn target_quadtree_twentieth_insert_reverses_old_child_ordinals() {
    let positions = [
        (-100 * Q32_ONE, -100 * Q32_ONE),
        (100 * Q32_ONE, -100 * Q32_ONE),
        (-100 * Q32_ONE, 100 * Q32_ONE),
        (100 * Q32_ONE, 100 * Q32_ONE),
    ];
    let mut tree = TargetActorQuadtree::new();
    for id in 1..=19 {
        let (x, z) = positions[(usize::try_from(id).unwrap() - 1) % 4];
        tree.insert(unit_target(id), x, z, 0);
    }
    assert!(tree.root.children.is_empty());
    tree.insert(unit_target(20), positions[3].0, positions[3].1, 0);

    let children = &tree.root.children;
    assert_eq!(children[0].elements, [17, 13, 9, 5, 1].map(unit_target).to_vec());
    assert_eq!(children[1].elements, [18, 14, 10, 6, 2].map(unit_target).to_vec());
    assert_eq!(children[2].elements, [19, 15, 11, 7, 3].map(unit_target).to_vec());
    assert_eq!(children[3].elements, [16, 12, 8, 4, 20].map(unit_target).to_vec());
}

#[test]
fn target_quadtree_queries_parent_straddlers_before_children() {
    let mut tree = TargetActorQuadtree::new();
    tree.insert(unit_target(1), 0, 0, 1_000);
    for id in 2..=20 {
        tree.insert(unit_target(id), -100 * Q32_ONE, -100 * Q32_ONE, 0);
    }

    assert_eq!(tree.query_order().first(), Some(&unit_target(1)));
}

#[test]
fn target_quadtree_reinserts_a_moved_child_element_in_native_order() {
    let mut tree = TargetActorQuadtree::new();
    for id in 1..=20 {
        tree.insert(unit_target(id), -100 * Q32_ONE, -100 * Q32_ONE, 0);
    }
    tree.position_changed(unit_target(7), 100 * Q32_ONE, -100 * Q32_ONE, 0);

    let children = &tree.root.children;
    assert!(!children[0].elements.contains(&unit_target(7)));
    assert_eq!(children[1].elements.last(), Some(&unit_target(7)));
}

#[test]
fn a_query_holds_every_inserted_target_once() {
    let mut tree = TargetActorQuadtree::new();
    for id in 1..=30 {
        let x = if id % 2 == 0 { 50 * Q32_ONE } else { -50 * Q32_ONE };
        tree.insert(unit_target(id), x, -20 * Q32_ONE, 0);
    }
    tree.position_changed(unit_target(3), 60 * Q32_ONE, 60 * Q32_ONE, 0);
    let mut order = tree.query_order();
    assert_eq!(order.len(), 30);
    order.sort();
    assert_eq!(order, (1..=30).map(unit_target).collect::<Vec<_>>());
}

#[test]
fn a_node_is_found_by_its_path() {
    let positions = [
        (-100 * Q32_ONE, -100 * Q32_ONE),
        (100 * Q32_ONE, -100 * Q32_ONE),
        (-100 * Q32_ONE, 100 * Q32_ONE),
        (100 * Q32_ONE, 100 * Q32_ONE),
    ];
    let mut tree = TargetActorQuadtree::new();
    for id in 1..=20 {
        let (x, z) = positions[(usize::try_from(id).unwrap() - 1) % 4];
        tree.insert(unit_target(id), x, z, 0);
    }
    let path = vec![3];
    assert_eq!(tree.root.node_at_path(&path, 0).elements, [16, 12, 8, 4, 20].map(unit_target).to_vec());
    assert!(tree.root.node_at_path(&path, 1).elements.is_empty());
    tree.root.node_at_path_mut(&path, 0).elements.pop();
    assert_eq!(tree.root.children[3].elements, [16, 12, 8, 4].map(unit_target).to_vec());
}

#[test]
fn native_delta_distinguishes_1799_from_1800_time_units() {
    assert_eq!(native_time_units_to_steps(1_799), 17);
    assert_eq!(native_time_units_to_steps(1_800), 18);
}

#[test]
fn rotation_distance_uses_the_shortest_wrapped_arc() {
    assert_eq!(rotation_distance(359_000, 1_000), 2_000);
    assert_eq!(rotation_distance(1_000, 359_000), 2_000);
    assert_eq!(rotation_distance(20_000, 60_000), 40_000);
}

#[test]
fn rotation_distance_is_the_same_from_either_end() {
    for (left, right) in [(0, 180_000), (-90_000, 450_000), (123_456, -654_321), (359_999, 0)] {
        assert_eq!(rotation_distance(left, right), rotation_distance(right, left));
        assert!(rotation_distance(left, right) <= 180_000);
    }
    assert_eq!(rotation_distance(0, 180_000), 180_000);
}

#[test]
fn exact_half_turn_uses_the_native_positive_direction() {
    let maximum = 6_i64 << 32;
    assert_eq!(rotate_towards_q32_unwrapped(0, 180_i64 << 32, maximum), maximum);
    assert_eq!(rotate_towards_q32_unwrapped(0, (180_i64 << 32) + 43, maximum), maximum);
    assert_eq!(rotate_towards_q32_unwrapped(0, (180_i64 << 32) + 44, maximum), -maximum);
    assert_eq!(rotate_towards_q32_unwrapped(180_i64 << 32, 0, maximum), 186_i64 << 32);
}

#[test]
fn normal_target_score_uses_strict_minimum_and_maximum_range_edges() {
    let distance_q32 = 20_i64 << 32;
    let score = |min_range_q32, max_range_q32| {
        normal_visible_full_rotation_score_from_distance_and_angle_q32(distance_q32, 0, min_range_q32, max_range_q32)
    };
    let at_both_edges = score(distance_q32, distance_q32).unwrap();
    assert!(score(distance_q32 + 1, distance_q32).is_none());
    assert_eq!(
        score(0, distance_q32 - 1).unwrap(),
        at_both_edges.saturating_add(TARGET_SCORE_OUT_OF_RANGE_PENALTY_Q32)
    );
}

#[test]
fn normal_target_score_adds_raw_distance_after_weighted_term() {
    let distance_q32 = 20_i64 << 32;
    let angle_q32 = 50_i64 << 32;
    let angle_score_q32 = q32_mul(angle_q32, TARGET_SCORE_ANGLE_FACTOR_Q32);
    let expected_q32 =
        q32_mul(distance_q32, TARGET_SCORE_BASE_Q32.saturating_add(angle_score_q32)).saturating_add(distance_q32);

    assert_eq!(
        normal_visible_full_rotation_score_from_distance_and_angle_q32(distance_q32, angle_q32, 0, 100_i64 << 32),
        Some(expected_q32)
    );
}

#[test]
fn native_hundredth_constant_is_not_rationally_rounded() {
    assert_eq!(C0_01_RAW, 42_949_672);
    assert_eq!(q32_mul(30_i64 << 32, C0_01_RAW), 1_288_490_160);
    assert_ne!(C0_01_RAW, q32_div(Q32_ONE, 100_i64 << 32));
}

#[test]
fn native_fastest_angle_quantizes_small_jitter_to_forward() {
    assert_eq!(direction_mdeg(-600, 99_200), 0);
    assert_eq!(direction_mdeg(600, -99_200), 180_000);
    assert_eq!(direction_mdeg(1_000, 151_400), 853);
}

#[test]
fn raw_q32_velocity_preserves_arclight_target_angle_precision() {
    assert_eq!(direction_mdeg_q32_raw(-198_556_428, -30_061_443_202), 180_812);
    assert_eq!(direction_mdeg(-46, -6_999), 180_811);
}

#[test]
fn q32_normalized_velocity_matches_frozen_arclight_delta() {
    let speed = space_to_q32(7_000);
    let reconstructed = normalized_velocity_q32_raw(space_to_q32(-1_000), space_to_q32(-151_400), speed);
    assert_eq!(reconstructed, (-198_556_428, -30_061_443_202));
    assert_eq!(
        (q32_to_space_rounded(reconstructed.0), q32_to_space_rounded(reconstructed.1)),
        (-46, -6_999)
    );

    let c0_1 = 0x1999_9999;
    let native_raw = normalized_velocity_q32_raw(-10 * c0_1, -150 * Q32_ONE - 14 * c0_1, speed);
    assert_eq!(native_raw, reconstructed);
}

#[test]
fn q32_clamp_magnitude_stops_at_a_near_target_point() {
    let dx = space_to_q32(100);
    let dz = space_to_q32(-50);
    let speed = space_to_q32(7_123);
    let maximum = q32_mul(speed, NATIVE_LOGIC_DELTA_Q32);

    assert!(native_q32_magnitude(dx, dz) < maximum);
    assert_eq!(clamp_magnitude_q32_raw(dx, dz, maximum), (dx, dz));

    let far_dx = space_to_q32(1_000);
    let far_dz = space_to_q32(-10_000);
    let magnitude = native_q32_magnitude(far_dx, far_dz);
    let reciprocal = q32_div(Q32_ONE, magnitude);
    let native_order = (
        q32_mul(q32_mul(far_dx, reciprocal), maximum),
        q32_mul(q32_mul(far_dz, reciprocal), maximum),
    );
    let old_grouping = (
        q32_mul(q32_mul(q32_mul(far_dx, reciprocal), speed), NATIVE_LOGIC_DELTA_Q32),
        q32_mul(q32_mul(q32_mul(far_dz, reciprocal), speed), NATIVE_LOGIC_DELTA_Q32),
    );
    assert_ne!(native_order, old_grouping);
    assert_eq!(clamp_magnitude_q32_raw(far_dx, far_dz, maximum), native_order);
}

#[test]
fn q32_clamp_magnitude_preserves_a_tolerance_equal_zero_speed_delta() {
    assert_eq!(clamp_magnitude_q32_raw(43_007, -347_649, 0), (43_007, -347_649));
    assert_eq!(clamp_magnitude_q32_raw(0, Q32_ONE, 0), (0, 0));
}

#[test]
fn deployment_raw_alone_still_rounds_tick_twenty_two_up() {
    let initial_z_q32 = 100 * Q32_ONE + 7 * C0_1_RAW;
    let fixed_delta_z_q32 = q32_mul(-30_061_443_202, NATIVE_LOGIC_DELTA_Q32);
    let deploy_only_z_q32 = initial_z_q32 + 14 * fixed_delta_z_q32;

    assert_eq!(initial_z_q32, 432_503_206_703);
    assert_eq!(deploy_only_z_q32, 411_460_196_533);
    assert_eq!(q32_to_space_rounded(deploy_only_z_q32), 95_801);
}

#[test]
fn a_moving_unit_sits_on_its_layer_and_avoids_every_higher_one() {
    assert_eq!(movable_rvo_collision_masks(1), (1, 0x7fff_ffff));
    assert_eq!(movable_rvo_collision_masks(2), (4, 0x7fff_fffc));
    assert_eq!(movable_rvo_collision_masks(16), (1 << 30, 1 << 30));
    assert_eq!(immovable_rvo_collision_masks(1), (2, 0));
    assert_eq!(immovable_rvo_collision_masks(16), (1 << 31, 0));
}

#[test]
fn the_avoidance_world_starts_four_hundred_metres_off() {
    assert_eq!(rvo_position(0, -Q32_ONE), FixedVec2 { x: 400 * Q32_ONE, y: 399 * Q32_ONE });
    assert_eq!(rvo_position(i64::MAX, i64::MIN), FixedVec2 { x: i64::MAX, y: i64::MIN + 400 * Q32_ONE });
}

#[test]
fn a_hit_touches_the_domains_it_reaches() {
    let both = Reach::Targets(AttackTargets { ground: true, air: true });
    let ground = Reach::Targets(AttackTargets { ground: true, air: false });
    assert!(both.touches(UnitDomain::Air));
    assert!(!ground.touches(UnitDomain::Air));
    assert!(Reach::Domain(UnitDomain::Air).touches(UnitDomain::Air));
    assert!(!Reach::Domain(UnitDomain::Air).touches(UnitDomain::Ground));
}

#[test]
fn teams_heights_and_durations_are_named() {
    assert_eq!(team_name(0), "blue");
    assert_eq!(team_name(1), "red");
    assert_eq!(unit_height(UnitDomain::Ground), 0);
    assert_eq!(unit_height(UnitDomain::Air), 70_000);
    assert_eq!(simulated_duration_milliseconds(600), 30_000);
    assert_eq!(simulated_duration_milliseconds(u64::MAX), u64::MAX / 2_000);
    assert_eq!(team_stream_seed(1, 0), 4_444);
    assert_eq!(team_stream_seed(1, 1), 8_888);
    assert_eq!(team_stream_seed(u32::MAX, 1), 0);
}

#[test]
fn the_only_team_alive_wins() {
    assert_eq!(winner(&vec![(0, true), (1, false)]), Some(0));
    assert_eq!(winner(&vec![(0, false), (1, true), (1, false)]), Some(1));
    assert_eq!(winner(&vec![(0, true), (1, true)]), None);
    assert_eq!(winner(&vec![(0, false), (1, false)]), None);
    assert!(naturally_finished(&vec![(0, true), (1, false)], 0));
    assert!(!naturally_finished(&vec![(0, true), (1, false)], 1));
    assert!(!naturally_finished(&vec![(0, true), (1, true)], 0));
    assert!(naturally_finished(&vec![], 0));
}

#[test]
fn a_supplied_seed_overrides_the_layouts_and_zero_is_refused() {
    assert_eq!(seed_choice(Some(7), Some(9)).unwrap(), Some((7, SeedSource::External)));
    assert_eq!(seed_choice(None, Some(9)).unwrap(), Some((9, SeedSource::Layout)));
    assert_eq!(seed_choice(None, None).unwrap(), None);
    let refused = seed_choice(Some(0), Some(9)).unwrap_err();
    assert!(refused.message.contains("seed 0"));
    assert_eq!(SeedSource::Generated.name(), "generated");
}

#[test]
fn a_generated_seed_is_never_zero() {
    let mut digest = [0u8; 32];
    assert_eq!(seed_from_digest(&digest), 1);
    digest[0] = 0x01;
    digest[3] = 0x80;
    assert_eq!(seed_from_digest(&digest), i32::from_le_bytes([1, 0, 0, 0x80]));
    let expected = {
        let hash = blake3::hash(b"layout material");
        let seed = i32::from_le_bytes(hash.as_bytes()[..4].try_into().unwrap());
        if seed == 0 { 1 } else { seed }
    };
    assert_eq!(seed_from_material(b"layout material"), expected);
    assert_ne!(seed_from_material(b"layout material"), seed_from_material(b"other material"));
}

#[test]
fn whole_numbers_divide_and_root_exactly() {
    assert_eq!(gcd(12, 18), 6);
    assert_eq!(gcd(0, 5), 5);
    assert_eq!(integer_sqrt(99), 9);
    assert_eq!(integer_sqrt(100), 10);
}

fn every_element_within(node: &TargetActorQuadtreeNode, ranges: &[(FightActorRef, TargetActorRect)], top: bool) -> bool {
    let own = top
        || node.elements.iter().all(|element| {
            let range = ranges.iter().find(|(candidate, _)| candidate == element).unwrap().1;
            node.rect.contains(range)
        });
    own && node.children.iter().all(|child| every_element_within(child, ranges, false))
}

#[test]
fn moves_and_inserts_keep_every_element_inside_its_node() {
    let mut tree = TargetActorQuadtree::new();
    for id in 1..=40 {
        let offset = i64::try_from(id).unwrap() * Q32_ONE;
        tree.insert(unit_target(id), -100 * Q32_ONE + offset, -100 * Q32_ONE + offset / 2, 500);
    }
    assert!(every_element_within(&tree.root, &tree.ranges, true));
    for id in [3, 17, 25, 40] {
        tree.position_changed(unit_target(id), 120 * Q32_ONE, -80 * Q32_ONE, 0);
        assert!(every_element_within(&tree.root, &tree.ranges, true));
    }
    tree.position_changed(unit_target(8), 0, 0, 2_000);
    assert!(every_element_within(&tree.root, &tree.ranges, true));
    assert_eq!(tree.query_order().len(), 40);
}
