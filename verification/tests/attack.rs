use simulation::attack::{offset_angle, projectile_target_offsets, sample_attack_interval};
use simulation::fixed::{q32_mul, Q32_ONE};
use simulation::kernel::C0_01_RAW;
use simulation::motion::clamp_magnitude_q32_raw;
use simulation::random::GrRandom;

#[test]
fn three_marksmen_wait_the_intervals_the_game_stored() {
    // 62 ticks of 100 time units, staggered by twelve ticks either way.
    let mut random = GrRandom::new(4_444);
    let first = sample_attack_interval(&mut random, 6_200, 1_200, 10);
    let second = sample_attack_interval(&mut random, 6_200, 1_200, 10);
    let third = sample_attack_interval(&mut random, 6_200, 1_200, 10);
    assert_eq!(first, (65, 55));
    assert_eq!(second, (75, 65));
    assert_eq!(third, (66, 56));
}

#[test]
fn an_interval_without_an_offset_draws_nothing() {
    let mut random = GrRandom::new(4_444);
    let untouched = random;
    assert_eq!(sample_attack_interval(&mut random, 6_200, 0, 0), (62, 62));
    assert_eq!(random.next_u64(), untouched.clone().next_u64());
}

#[test]
fn an_interval_is_at_least_one_tick() {
    let mut random = GrRandom::new(7);
    assert_eq!(sample_attack_interval(&mut random, 0, 0, 5), (6, 1));
    assert_eq!(sample_attack_interval(&mut random, 0, 0, u64::MAX), (u64::MAX, 1));
}

#[test]
fn a_zero_radius_lands_every_projectile_on_its_target() {
    let mut random = GrRandom::new(9);
    let before = random;
    let offsets = projectile_target_offsets(&mut random, 2, (0, 0), (Q32_ONE, 0), 3, 0).unwrap();
    assert_eq!(offsets, vec![(0, 0); 3]);
    assert_eq!(random.next_u64(), before.clone().next_u64());
}

#[test]
fn a_radius_beyond_the_native_range_is_refused() {
    let mut random = GrRandom::new(9);
    let error = projectile_target_offsets(&mut random, 1, (0, 0), (Q32_ONE, 0), 2, i64::MAX).unwrap_err();
    assert_eq!(error.message, "projectile target offset radius exceeds native range");
}

fn centimeters(value: i32) -> i64 {
    q32_mul(i64::from(value) * 0x1_0000_0000, C0_01_RAW)
}

#[test]
fn one_weapon_takes_the_offsets_in_the_order_they_are_drawn() {
    // Half a metre: fifty centimetres each way.
    let mut random = GrRandom::new(4_444);
    let offsets = projectile_target_offsets(&mut random, 1, (0, 0), (10 * Q32_ONE, 0), 3, 500).unwrap();
    let mut replay = GrRandom::new(4_444);
    let mut expected = Vec::new();
    for _ in 0..3 {
        let x = replay.next_between_inclusive(-50, 50);
        let z = replay.next_between_inclusive(-50, 50);
        let clamp = replay.next_between_inclusive(0, 49);
        expected.push(clamp_magnitude_q32_raw(centimeters(x), centimeters(z), centimeters(clamp)));
    }
    assert_eq!(offsets, expected);
    assert_eq!(random.next_u64(), replay.next_u64());
}

#[test]
fn two_weapons_share_the_offsets_by_angle_in_turn() {
    let source = (0, 0);
    let target = (10 * Q32_ONE, 0);
    let mut drawn_random = GrRandom::new(4_444);
    let drawn = projectile_target_offsets(&mut drawn_random, 1, source, target, 5, 500).unwrap();
    let mut random = GrRandom::new(4_444);
    let offsets = projectile_target_offsets(&mut random, 2, source, target, 5, 500).unwrap();

    let mut ordered = drawn.clone();
    ordered.sort_by_key(|&offset| offset_angle(source, target, offset));
    let expected = vec![ordered[4], ordered[1], ordered[3], ordered[0], ordered[2]];
    assert_eq!(offsets, expected);

    let mut kept = offsets.clone();
    kept.sort();
    let mut all = drawn.clone();
    all.sort();
    assert_eq!(kept, all);
}

#[test]
fn an_offset_on_the_line_of_fire_has_almost_no_angle() {
    // The fast square root and arccosine leave a hundredth of a radian or so.
    let angle = offset_angle((0, 0), (10 * Q32_ONE, 0), (Q32_ONE, 0));
    assert!(angle.abs() < Q32_ONE / 50);
    let aside = offset_angle((0, 0), (10 * Q32_ONE, 0), (0, 5 * Q32_ONE));
    assert!(aside.abs() > Q32_ONE / 4);
}
