//! How a unit scores a target, where it heads for one and how fast it moves,
//! in the build's Q32.32 arithmetic.

use vstd::prelude::*;

use crate::fixed::{
    FULL_TURN_Q32, HALF_TURN_Q32, Q32_ONE, clamp_i64, fpoint_less_than, fpoint_less_than_spec,
    max_int, min_int, q32_div, q32_div_spec, q32_mul, q32_mul_spec, rem_euclid, rotation_distance_q32,
    rotation_distance_q32_spec, saturating_add, saturating_sub, space_to_q32, space_to_q32_spec,
};
use crate::trig::{
    direction_degrees_q32_raw, direction_degrees_q32_raw_spec, fpcs_sqrt_fastest,
    fpcs_sqrt_fastest_spec, native_q32_magnitude, native_q32_magnitude_spec,
};

verus! {

/// Below this distance every target scores as if it stood this far.
pub const TARGET_SCORE_MIN_DISTANCE_Q32: i64 = 12884901888i64;

/// An angle off the unit's facing counts up to this much.
pub const TARGET_SCORE_ANGLE_LIMIT_Q32: i64 = 429496729600i64;

/// The weight of a degree off the unit's facing: `0x9999_9999`, 0.6.
pub const TARGET_SCORE_ANGLE_FACTOR_Q32: i64 = 2576980377i64;

/// The weight of the distance itself.
pub const TARGET_SCORE_BASE_Q32: i64 = 429496729600i64;

/// What a target beyond the maximum range adds to its score.
pub const TARGET_SCORE_OUT_OF_RANGE_PENALTY_Q32: i64 = 858993459200000i64;

/// The shortest distance a unit is sent toward a target: `0x028F_5C28`, 0.01.
pub const MIN_AUTO_MOVE_DISTANCE_Q32: i64 = 0x028f_5c28i64;

/// A right angle in Q32.32 degrees.
pub const RIGHT_ANGLE_Q32: i64 = 386547056640i64;

/// The fraction of its speed a unit keeps when moving directly backwards:
/// `0x028F_5C28`, 0.01.
pub const MIN_SPEED_FACTOR_Q32: i64 = 0x028f_5c28i64;

/// A target's score from its distance and its angle off the unit's facing,
/// lower being better: none when it stands nearer than the minimum range, and
/// a penalty when it stands beyond the maximum.
pub open spec fn score_from_distance_and_angle_spec(
    distance_q32: int,
    angle_q32: int,
    min_range_q32: int,
    max_range_q32: int,
) -> Option<i64> {
    if distance_q32 < min_range_q32 {
        None
    } else {
        let angle_score = q32_mul_spec(
            min_int(angle_q32, TARGET_SCORE_ANGLE_LIMIT_Q32 as int),
            TARGET_SCORE_ANGLE_FACTOR_Q32 as int,
        );
        let distance_score = max_int(distance_q32, TARGET_SCORE_MIN_DISTANCE_Q32 as int);
        let score = q32_mul_spec(
            distance_score,
            clamp_i64(TARGET_SCORE_BASE_Q32 + angle_score),
        );
        let score = if distance_q32 > max_range_q32 {
            clamp_i64(score + TARGET_SCORE_OUT_OF_RANGE_PENALTY_Q32)
        } else {
            score
        };
        Some(clamp_i64(score + distance_q32) as i64)
    }
}

pub fn normal_visible_full_rotation_score_from_distance_and_angle_q32(
    distance_q32: i64,
    angle_q32: i64,
    min_range_q32: i64,
    max_range_q32: i64,
) -> (result: Option<i64>)
    ensures
        result == score_from_distance_and_angle_spec(
            distance_q32 as int,
            angle_q32 as int,
            min_range_q32 as int,
            max_range_q32 as int,
        ),
        result is None <==> distance_q32 < min_range_q32,
{
    if distance_q32 < min_range_q32 {
        return None;
    }
    let limited_angle = if angle_q32 < TARGET_SCORE_ANGLE_LIMIT_Q32 {
        angle_q32
    } else {
        TARGET_SCORE_ANGLE_LIMIT_Q32
    };
    let angle_score_q32 = q32_mul(limited_angle, TARGET_SCORE_ANGLE_FACTOR_Q32);
    let distance_score_q32 = if distance_q32 > TARGET_SCORE_MIN_DISTANCE_Q32 {
        distance_q32
    } else {
        TARGET_SCORE_MIN_DISTANCE_Q32
    };
    let mut score_q32 = q32_mul(
        distance_score_q32,
        saturating_add(TARGET_SCORE_BASE_Q32, angle_score_q32),
    );
    if distance_q32 > max_range_q32 {
        score_q32 = saturating_add(score_q32, TARGET_SCORE_OUT_OF_RANGE_PENALTY_Q32);
    }
    Some(saturating_add(score_q32, distance_q32))
}

/// The angle between a unit's facing and the bearing of a target, inside a
/// half turn.
pub open spec fn facing_angle_spec(bearing_q32: int, rotation_q32: int) -> int {
    let full = FULL_TURN_Q32 as int;
    let delta = clamp_i64(bearing_q32 - rotation_q32) % full;
    if delta > HALF_TURN_Q32 as int {
        clamp_i64(full - delta)
    } else {
        delta
    }
}

/// The gap between the two bodies' edges, never negative.
pub open spec fn edge_distance_spec(
    source_x_q32: i64,
    source_z_q32: i64,
    source_radius: i64,
    target_x_q32: i64,
    target_z_q32: i64,
    target_radius: i64,
) -> int {
    let centre = native_q32_magnitude_spec(
        clamp_i64(target_x_q32 - source_x_q32) as i64,
        clamp_i64(target_z_q32 - source_z_q32) as i64,
    );
    max_int(
        clamp_i64(
            clamp_i64(centre - space_to_q32_spec(source_radius as int))
                - space_to_q32_spec(target_radius as int),
        ),
        0,
    )
}

/// A target's score as a unit with a full turn of sight scores it.
pub open spec fn normal_visible_full_rotation_target_score_spec(
    source_x_q32: i64,
    source_z_q32: i64,
    source_radius: i64,
    source_rotation_q32: i64,
    target_x_q32: i64,
    target_z_q32: i64,
    target_radius: i64,
    min_range: i64,
    max_range: i64,
) -> Option<i64> {
    let distance = edge_distance_spec(
        source_x_q32,
        source_z_q32,
        source_radius,
        target_x_q32,
        target_z_q32,
        target_radius,
    );
    let bearing = direction_degrees_q32_raw_spec(
        clamp_i64(target_x_q32 - source_x_q32) as i64,
        clamp_i64(target_z_q32 - source_z_q32) as i64,
    );
    score_from_distance_and_angle_spec(
        distance,
        facing_angle_spec(bearing, source_rotation_q32 as int),
        space_to_q32_spec(min_range as int),
        space_to_q32_spec(max_range as int),
    )
}

pub fn normal_visible_full_rotation_target_score_q32(
    source_x_q32: i64,
    source_z_q32: i64,
    source_radius: i64,
    source_rotation_q32: i64,
    target_x_q32: i64,
    target_z_q32: i64,
    target_radius: i64,
    min_range: i64,
    max_range: i64,
) -> (result: Option<i64>)
    ensures
        result == normal_visible_full_rotation_target_score_spec(
            source_x_q32,
            source_z_q32,
            source_radius,
            source_rotation_q32,
            target_x_q32,
            target_z_q32,
            target_radius,
            min_range,
            max_range,
        ),
{
    let delta_x = saturating_sub(target_x_q32, source_x_q32);
    let delta_z = saturating_sub(target_z_q32, source_z_q32);
    let distance_q32 = saturating_sub(
        saturating_sub(native_q32_magnitude(delta_x, delta_z), space_to_q32(source_radius)),
        space_to_q32(target_radius),
    );
    let distance_q32 = if distance_q32 < 0 {
        0
    } else {
        distance_q32
    };
    let bearing_q32 = direction_degrees_q32_raw(delta_x, delta_z);
    let delta_q32 = rem_euclid(saturating_sub(bearing_q32, source_rotation_q32), FULL_TURN_Q32);
    let angle_q32 = if delta_q32 > HALF_TURN_Q32 {
        saturating_sub(FULL_TURN_Q32, delta_q32)
    } else {
        delta_q32
    };
    normal_visible_full_rotation_score_from_distance_and_angle_q32(
        distance_q32,
        angle_q32,
        space_to_q32(min_range),
        space_to_q32(max_range),
    )
}

/// `(dx, dz)` scaled to length `speed`, by the reciprocal of its fast length;
/// a vector too short to measure scales to nothing.
pub open spec fn normalized_velocity_spec(dx: i64, dz: i64, speed: i64) -> (i64, i64) {
    let magnitude = native_q32_magnitude_spec(dx, dz);
    if magnitude <= 0 {
        (0, 0)
    } else {
        let inverse = q32_div_spec(Q32_ONE as int, magnitude as int);
        (
            q32_mul_spec(q32_mul_spec(dx as int, inverse), speed as int) as i64,
            q32_mul_spec(q32_mul_spec(dz as int, inverse), speed as int) as i64,
        )
    }
}

pub fn normalized_velocity_q32_raw(dx: i64, dz: i64, speed: i64) -> (result: (i64, i64))
    ensures
        result == normalized_velocity_spec(dx, dz, speed),
{
    let magnitude = native_q32_magnitude(dx, dz);
    if magnitude <= 0 {
        return (0, 0);
    }
    let inverse_magnitude = q32_div(Q32_ONE, magnitude);
    (q32_mul(q32_mul(dx, inverse_magnitude), speed), q32_mul(q32_mul(dz, inverse_magnitude), speed))
}

/// `(dx, dz)` unchanged when its length does not exceed `maximum` by more than
/// the comparison's tolerance, and otherwise scaled down to `maximum`; nothing
/// at all when the length or the maximum is not positive.
pub open spec fn clamp_magnitude_spec(dx: i64, dz: i64, maximum: i64) -> (i64, i64) {
    let squared_magnitude = clamp_i64(q32_mul_spec(dx as int, dx as int) + q32_mul_spec(dz as int, dz as int));
    let squared_maximum = q32_mul_spec(maximum as int, maximum as int);
    if !fpoint_less_than_spec(squared_maximum, squared_magnitude) {
        (dx, dz)
    } else {
        let magnitude = fpcs_sqrt_fastest_spec(squared_magnitude as i64);
        if magnitude <= 0 || maximum <= 0 {
            (0, 0)
        } else {
            let inverse = q32_div_spec(Q32_ONE as int, magnitude as int);
            (
                q32_mul_spec(q32_mul_spec(dx as int, inverse), maximum as int) as i64,
                q32_mul_spec(q32_mul_spec(dz as int, inverse), maximum as int) as i64,
            )
        }
    }
}

pub fn clamp_magnitude_q32_raw(dx: i64, dz: i64, maximum: i64) -> (result: (i64, i64))
    ensures
        result == clamp_magnitude_spec(dx, dz, maximum),
{
    let squared_magnitude = saturating_add(q32_mul(dx, dx), q32_mul(dz, dz));
    let squared_maximum = q32_mul(maximum, maximum);
    if !fpoint_less_than(squared_maximum, squared_magnitude) {
        return (dx, dz);
    }
    let magnitude = fpcs_sqrt_fastest(squared_magnitude);
    if magnitude <= 0 || maximum <= 0 {
        return (0, 0);
    }
    let inverse_magnitude = q32_div(Q32_ONE, magnitude);
    (
        q32_mul(q32_mul(dx, inverse_magnitude), maximum),
        q32_mul(q32_mul(dz, inverse_magnitude), maximum),
    )
}

/// Where a unit heads for a target: the point at which the target's edge
/// comes into its range, or the target itself when the unit is no farther
/// than that already; at least the shortest move the build makes.
pub open spec fn auto_move_target_point_spec(
    source_x_q32: i64,
    source_z_q32: i64,
    source_radius: i64,
    target_x_q32: i64,
    target_z_q32: i64,
    target_radius: i64,
    attack_range: i64,
) -> (i64, i64) {
    let delta_x = clamp_i64(target_x_q32 - source_x_q32) as i64;
    let delta_z = clamp_i64(target_z_q32 - source_z_q32) as i64;
    let centre_distance = native_q32_magnitude_spec(delta_x, delta_z);
    let target_distance = clamp_i64(
        clamp_i64(
            clamp_i64(centre_distance - space_to_q32_spec(target_radius as int))
                + space_to_q32_spec(attack_range as int),
        ) + space_to_q32_spec(source_radius as int),
    );
    let squared_distance = clamp_i64(
        q32_mul_spec(delta_x as int, delta_x as int) + q32_mul_spec(delta_z as int, delta_z as int),
    );
    if target_distance > MIN_AUTO_MOVE_DISTANCE_Q32 && !fpoint_less_than_spec(
        q32_mul_spec(target_distance, target_distance),
        squared_distance,
    ) {
        (target_x_q32, target_z_q32)
    } else {
        let requested = if target_distance > MIN_AUTO_MOVE_DISTANCE_Q32 {
            target_distance as i64
        } else {
            MIN_AUTO_MOVE_DISTANCE_Q32
        };
        let step = normalized_velocity_spec(delta_x, delta_z, requested);
        (clamp_i64(source_x_q32 + step.0) as i64, clamp_i64(source_z_q32 + step.1) as i64)
    }
}

pub fn native_auto_move_target_point(
    source_x_q32: i64,
    source_z_q32: i64,
    source_radius: i64,
    target_x_q32: i64,
    target_z_q32: i64,
    target_radius: i64,
    attack_range: i64,
) -> (result: (i64, i64))
    ensures
        result == auto_move_target_point_spec(
            source_x_q32,
            source_z_q32,
            source_radius,
            target_x_q32,
            target_z_q32,
            target_radius,
            attack_range,
        ),
{
    let delta_x = saturating_sub(target_x_q32, source_x_q32);
    let delta_z = saturating_sub(target_z_q32, source_z_q32);
    let center_distance = native_q32_magnitude(delta_x, delta_z);
    let target_distance = saturating_add(
        saturating_add(
            saturating_sub(center_distance, space_to_q32(target_radius)),
            space_to_q32(attack_range),
        ),
        space_to_q32(source_radius),
    );
    let requested_distance = if target_distance > MIN_AUTO_MOVE_DISTANCE_Q32 {
        // Whether the unit is farther than it needs to be is asked of the
        // exact squared distance against the squared stopping distance from
        // the fast square root; the two disagree in the last bits where a
        // unit's reach exactly cancels the target's radius.
        let squared_distance = saturating_add(q32_mul(delta_x, delta_x), q32_mul(delta_z, delta_z));
        if fpoint_less_than(q32_mul(target_distance, target_distance), squared_distance) {
            target_distance
        } else {
            return (target_x_q32, target_z_q32);
        }
    } else {
        MIN_AUTO_MOVE_DISTANCE_Q32
    };
    let (target_delta_x, target_delta_z) = normalized_velocity_q32_raw(
        delta_x,
        delta_z,
        requested_distance,
    );
    (saturating_add(source_x_q32, target_delta_x), saturating_add(source_z_q32, target_delta_z))
}

/// The speed a unit moves at when its velocity points away from its facing: full
/// within a right angle, falling linearly to nothing at a half turn, where the
/// build keeps a hundredth.
pub open spec fn turn_limited_move_speed_spec(
    base_speed_q32: i64,
    rotate_speed_mdeg_per_second: i64,
    body_rotation_q32: i64,
    velocity_x_q32: i64,
    velocity_z_q32: i64,
) -> int {
    if base_speed_q32 <= 0 || rotate_speed_mdeg_per_second >= 180000 {
        max_int(base_speed_q32 as int, 0)
    } else if velocity_x_q32 == 0 && velocity_z_q32 == 0 {
        base_speed_q32 as int
    } else {
        let angle = rotation_distance_q32_spec(
            body_rotation_q32 as int,
            direction_degrees_q32_raw_spec(velocity_x_q32, velocity_z_q32),
        );
        if angle <= RIGHT_ANGLE_Q32 as int {
            base_speed_q32 as int
        } else if angle == HALF_TURN_Q32 as int {
            q32_mul_spec(base_speed_q32 as int, MIN_SPEED_FACTOR_Q32 as int)
        } else {
            q32_mul_spec(
                base_speed_q32 as int,
                q32_div_spec(clamp_i64(HALF_TURN_Q32 - angle), RIGHT_ANGLE_Q32 as int),
            )
        }
    }
}

pub fn turn_limited_move_speed_q32(
    base_speed_q32: i64,
    rotate_speed_mdeg_per_second: i64,
    body_rotation_q32: i64,
    velocity_x_q32: i64,
    velocity_z_q32: i64,
) -> (result: i64)
    ensures
        result == turn_limited_move_speed_spec(
            base_speed_q32,
            rotate_speed_mdeg_per_second,
            body_rotation_q32,
            velocity_x_q32,
            velocity_z_q32,
        ),
{
    if base_speed_q32 <= 0 || rotate_speed_mdeg_per_second >= 180000 {
        return if base_speed_q32 > 0 {
            base_speed_q32
        } else {
            0
        };
    }
    if velocity_x_q32 == 0 && velocity_z_q32 == 0 {
        return base_speed_q32;
    }
    let velocity_rotation_q32 = direction_degrees_q32_raw(velocity_x_q32, velocity_z_q32);
    let angle_q32 = rotation_distance_q32(body_rotation_q32, velocity_rotation_q32);
    if angle_q32 <= RIGHT_ANGLE_Q32 {
        return base_speed_q32;
    }
    if angle_q32 == HALF_TURN_Q32 {
        return q32_mul(base_speed_q32, MIN_SPEED_FACTOR_Q32);
    }
    let factor_q32 = q32_div(saturating_sub(HALF_TURN_Q32, angle_q32), RIGHT_ANGLE_Q32);
    q32_mul(base_speed_q32, factor_q32)
}

/// A Q32.32 quotient of a non-negative numerator by a positive denominator,
/// read as one floor division: `n / d` scaled and rounded to nearest.
proof fn lemma_div_magnitude_as_floor(n: int, d: int)
    requires
        n >= 0,
        d > 0,
    ensures
        crate::fixed::q32_div_magnitude(n, d) == (2 * n * 0x1_0000_0000 + d) / (2 * d),
{
    let a = n * 0x1_0000_0000;
    let q = a / d;
    let r = a % d;
    vstd::arithmetic::div_mod::lemma_fundamental_div_mod(a, d);
    assert(0 <= r < d) by {
        vstd::arithmetic::div_mod::lemma_mod_pos_bound(a, d);
    }
    assert(2 * n * 0x1_0000_0000 == 2 * a) by (nonlinear_arith)
        requires
            a == n * 0x1_0000_0000,
    ;
    if 2 * r >= d {
        assert(2 * a + d == (q + 1) * (2 * d) + (2 * r - d)) by (nonlinear_arith)
            requires
                a == d * q + r,
        ;
        vstd::arithmetic::div_mod::lemma_fundamental_div_mod_converse(2 * a + d, 2 * d, q + 1, 2 * r - d);
    } else {
        assert(2 * a + d == q * (2 * d) + (2 * r + d)) by (nonlinear_arith)
            requires
                a == d * q + r,
        ;
        vstd::arithmetic::div_mod::lemma_fundamental_div_mod_converse(2 * a + d, 2 * d, q, 2 * r + d);
    }
}

/// The rounded Q32.32 quotient grows with its numerator, is no more than the
/// true quotient and a half, and is at most one for a numerator below the
/// denominator.
proof fn lemma_div_magnitude_bounds(n: int, m: int, d: int)
    requires
        0 <= n <= m,
        d > 0,
    ensures
        0 <= crate::fixed::q32_div_magnitude(n, d) <= crate::fixed::q32_div_magnitude(m, d),
        crate::fixed::q32_div_magnitude(n, d) * (2 * d) <= 2 * n * 0x1_0000_0000 + d,
        n < d ==> crate::fixed::q32_div_magnitude(n, d) <= 0x1_0000_0000,
{
    lemma_div_magnitude_as_floor(n, d);
    lemma_div_magnitude_as_floor(m, d);
    let x = 2 * n * 0x1_0000_0000 + d;
    let y = 2 * m * 0x1_0000_0000 + d;
    assert(0 <= x <= y) by (nonlinear_arith)
        requires
            0 <= n <= m,
            d > 0,
            x == 2 * n * 0x1_0000_0000 + d,
            y == 2 * m * 0x1_0000_0000 + d,
    ;
    vstd::arithmetic::div_mod::lemma_div_is_ordered(x, y, 2 * d);
    vstd::arithmetic::div_mod::lemma_div_pos_is_pos(x, 2 * d);
    vstd::arithmetic::div_mod::lemma_fundamental_div_mod(x, 2 * d);
    vstd::arithmetic::div_mod::lemma_mod_pos_bound(x, 2 * d);
    let f = x / (2 * d);
    assert(f * (2 * d) <= x) by (nonlinear_arith)
        requires
            x == (2 * d) * f + x % (2 * d),
            x % (2 * d) >= 0,
    ;
    if n < d {
        assert(f <= 0x1_0000_0000) by (nonlinear_arith)
            requires
                f * (2 * d) <= x,
                x == 2 * n * 0x1_0000_0000 + d,
                n < d,
                d > 0,
        ;
    }
}

/// A non-negative speed scaled by a factor of at most one: no more than the
/// speed, and more for a larger factor.
proof fn lemma_scaled_speed(base: int, f: int, g: int)
    requires
        0 <= base <= i64::MAX,
        0 <= f <= g <= 0x1_0000_0000,
    ensures
        q32_mul_spec(base, f) == (base * f) / 0x1_0000_0000,
        0 <= q32_mul_spec(base, f) <= q32_mul_spec(base, g) <= base,
{
    assert(0 <= base * f <= base * g <= base * 0x1_0000_0000) by (nonlinear_arith)
        requires
            0 <= base,
            0 <= f <= g <= 0x1_0000_0000,
    ;
    vstd::arithmetic::div_mod::lemma_div_is_ordered(base * f, base * g, 0x1_0000_0000);
    vstd::arithmetic::div_mod::lemma_div_is_ordered(base * g, base * 0x1_0000_0000, 0x1_0000_0000);
    vstd::arithmetic::div_mod::lemma_div_pos_is_pos(base * f, 0x1_0000_0000);
    vstd::arithmetic::div_mod::lemma_div_by_multiple(base, 0x1_0000_0000);
}

/// The angle between a body facing `body_rotation_q32` and a velocity.
pub open spec fn velocity_angle(body_rotation_q32: i64, velocity_x_q32: i64, velocity_z_q32: i64) -> int {
    rotation_distance_q32_spec(body_rotation_q32 as int, direction_degrees_q32_raw_spec(velocity_x_q32, velocity_z_q32))
}

/// Turning further from its facing never speeds a unit up: between a right
/// angle and a half turn, a velocity at a wider angle from the body is
/// allowed no more speed than one at a narrower angle.
pub proof fn lemma_turning_further_never_speeds_a_unit_up(
    base_speed_q32: i64,
    rotate_speed_mdeg_per_second: i64,
    body_rotation_q32: i64,
    near_x_q32: i64,
    near_z_q32: i64,
    far_x_q32: i64,
    far_z_q32: i64,
)
    requires
        !(near_x_q32 == 0 && near_z_q32 == 0),
        !(far_x_q32 == 0 && far_z_q32 == 0),
        RIGHT_ANGLE_Q32 <= velocity_angle(body_rotation_q32, near_x_q32, near_z_q32) <= velocity_angle(
            body_rotation_q32,
            far_x_q32,
            far_z_q32,
        ) < HALF_TURN_Q32,
    ensures
        turn_limited_move_speed_spec(base_speed_q32, rotate_speed_mdeg_per_second, body_rotation_q32, far_x_q32, far_z_q32)
            <= turn_limited_move_speed_spec(
            base_speed_q32,
            rotate_speed_mdeg_per_second,
            body_rotation_q32,
            near_x_q32,
            near_z_q32,
        ),
{
    let near = velocity_angle(body_rotation_q32, near_x_q32, near_z_q32);
    let far = velocity_angle(body_rotation_q32, far_x_q32, far_z_q32);
    if base_speed_q32 > 0 && rotate_speed_mdeg_per_second < 180000 && far > RIGHT_ANGLE_Q32 {
        let d = RIGHT_ANGLE_Q32 as int;
        let far_left = HALF_TURN_Q32 - far;
        let near_left = HALF_TURN_Q32 - near;
        lemma_div_magnitude_bounds(far_left, near_left, d);
        let f = crate::fixed::q32_div_magnitude(far_left, d);
        let g = crate::fixed::q32_div_magnitude(near_left, d);
        assert(q32_div_spec(far_left, d) == f);
        if near > RIGHT_ANGLE_Q32 {
            lemma_div_magnitude_bounds(near_left, near_left, d);
            assert(q32_div_spec(near_left, d) == g);
            lemma_scaled_speed(base_speed_q32 as int, f, g);
        } else {
            lemma_scaled_speed(base_speed_q32 as int, f, f);
        }
    }
}

/// A unit whose velocity points nearly behind it nearly stops: between a
/// right angle and a half turn, its speed is at most its full speed scaled by
/// how far the angle falls short of a half turn, over a right angle, and half
/// a Q32.32 step more.
pub proof fn lemma_a_unit_moving_away_from_its_facing_slows_to_a_crawl(
    base_speed_q32: i64,
    rotate_speed_mdeg_per_second: i64,
    body_rotation_q32: i64,
    velocity_x_q32: i64,
    velocity_z_q32: i64,
)
    requires
        base_speed_q32 > 0,
        rotate_speed_mdeg_per_second < 180000,
        !(velocity_x_q32 == 0 && velocity_z_q32 == 0),
        RIGHT_ANGLE_Q32 < velocity_angle(body_rotation_q32, velocity_x_q32, velocity_z_q32) < HALF_TURN_Q32,
    ensures
        2 * RIGHT_ANGLE_Q32 * 0x1_0000_0000 * turn_limited_move_speed_spec(
            base_speed_q32,
            rotate_speed_mdeg_per_second,
            body_rotation_q32,
            velocity_x_q32,
            velocity_z_q32,
        ) <= base_speed_q32 * (2 * (HALF_TURN_Q32 - velocity_angle(body_rotation_q32, velocity_x_q32, velocity_z_q32))
            * 0x1_0000_0000 + RIGHT_ANGLE_Q32),
{
    let angle = velocity_angle(body_rotation_q32, velocity_x_q32, velocity_z_q32);
    let d = RIGHT_ANGLE_Q32 as int;
    let n = HALF_TURN_Q32 - angle;
    lemma_div_magnitude_bounds(n, n, d);
    let f = crate::fixed::q32_div_magnitude(n, d);
    assert(q32_div_spec(n, d) == f);
    lemma_scaled_speed(base_speed_q32 as int, f, f);
    let speed = (base_speed_q32 * f) / 0x1_0000_0000;
    vstd::arithmetic::div_mod::lemma_fundamental_div_mod(base_speed_q32 * f, 0x1_0000_0000);
    vstd::arithmetic::div_mod::lemma_mod_pos_bound(base_speed_q32 * f, 0x1_0000_0000);
    let b = base_speed_q32 as int;
    assert(2 * d * 0x1_0000_0000 * speed <= b * (2 * n * 0x1_0000_0000 + d)) by (nonlinear_arith)
        requires
            speed * 0x1_0000_0000 <= b * f,
            f * (2 * d) <= 2 * n * 0x1_0000_0000 + d,
            b > 0,
            d > 0,
            speed >= 0,
    ;
}

/// A unit never slows for a velocity within a right angle of its facing.
pub proof fn lemma_within_a_right_angle_a_unit_keeps_its_speed(
    base_speed_q32: i64,
    rotate_speed_mdeg_per_second: i64,
    body_rotation_q32: i64,
    velocity_x_q32: i64,
    velocity_z_q32: i64,
)
    requires
        base_speed_q32 > 0,
        velocity_angle(body_rotation_q32, velocity_x_q32, velocity_z_q32) <= RIGHT_ANGLE_Q32,
    ensures
        turn_limited_move_speed_spec(
            base_speed_q32,
            rotate_speed_mdeg_per_second,
            body_rotation_q32,
            velocity_x_q32,
            velocity_z_q32,
        ) == base_speed_q32,
{
}

} // verus!
