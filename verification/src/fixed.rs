//! Q32.32 fixed-point arithmetic in the units the fight holds.
//!
//! A position is held in space units (a thousand to the metre) and in Q32.32
//! metres, an angle in millidegrees and in Q32.32 degrees. Every conversion
//! here says how it rounds and where it saturates.

use vstd::prelude::*;

verus! {

/// One whole unit in Q32.32.
pub const Q32_ONE: i64 = 4294967296i64;

/// Space units to the metre.
pub const SPACE_UNITS_PER_METER: i64 = 1000i64;

/// A full turn in Q32.32 degrees.
pub const FULL_TURN_Q32: i64 = 1546188226560i64;

/// Half a turn in Q32.32 degrees.
pub const HALF_TURN_Q32: i64 = 773094113280i64;

/// How far apart two raw Q32.32 values may lie and still compare equal.
pub const FPOINT_TOLERANCE: i64 = 43i64;

/// `2^32` as a mathematical integer.
pub open spec fn q32_scale() -> int {
    0x1_0000_0000
}

/// `x` saturated into the range of `i64`.
pub open spec fn clamp_i64(x: int) -> int {
    if x > i64::MAX {
        i64::MAX as int
    } else if x < i64::MIN {
        i64::MIN as int
    } else {
        x
    }
}

/// Division truncating toward zero, as Rust's `/` divides, for a positive divisor.
pub open spec fn div_trunc(a: int, b: int) -> int {
    if a >= 0 {
        a / b
    } else {
        -((-a) / b)
    }
}

/// The remainder Rust's `%` leaves, whose sign is the dividend's, for a positive divisor.
pub open spec fn rem_trunc(a: int, b: int) -> int {
    if a >= 0 {
        a % b
    } else {
        -((-a) % b)
    }
}

/// Division rounding to nearest, halves away from zero, for a positive divisor.
pub open spec fn div_round_half_away(a: int, b: int) -> int {
    if a >= 0 {
        (a + b / 2) / b
    } else {
        -((-a + b / 2) / b)
    }
}

pub open spec fn abs_int(a: int) -> int {
    if a < 0 {
        -a
    } else {
        a
    }
}

pub open spec fn max_int(a: int, b: int) -> int {
    if a >= b {
        a
    } else {
        b
    }
}

pub open spec fn min_int(a: int, b: int) -> int {
    if a <= b {
        a
    } else {
        b
    }
}

/// `a + b`, saturated at the bounds of `i64`.
pub fn saturating_add(a: i64, b: i64) -> (result: i64)
    ensures
        result == clamp_i64(a + b),
{
    let sum: i128 = a as i128 + b as i128;
    clamp_i128_to_i64(sum)
}

/// `a - b`, saturated at the bounds of `i64`.
pub fn saturating_sub(a: i64, b: i64) -> (result: i64)
    ensures
        result == clamp_i64(a - b),
{
    let difference: i128 = a as i128 - b as i128;
    clamp_i128_to_i64(difference)
}

/// `a * b`, saturated at the bounds of `i64`.
pub fn saturating_mul(a: i64, b: i64) -> (result: i64)
    ensures
        result == clamp_i64(a * b),
{
    proof {
        lemma_i64_product_fits_i128(a, b);
    }
    let product: i128 = a as i128 * b as i128;
    clamp_i128_to_i64(product)
}

pub(crate) proof fn lemma_i64_product_fits_i128(a: i64, b: i64)
    ensures
        -0x4000_0000_0000_0000_0000_0000_0000_0000 <= a * b
            <= 0x4000_0000_0000_0000_0000_0000_0000_0000,
{
    assert(-0x4000_0000_0000_0000_0000_0000_0000_0000 <= a * b
        <= 0x4000_0000_0000_0000_0000_0000_0000_0000) by (nonlinear_arith)
        requires
            -0x8000_0000_0000_0000 <= a <= 0x7fff_ffff_ffff_ffff,
            -0x8000_0000_0000_0000 <= b <= 0x7fff_ffff_ffff_ffff,
    ;
}

fn clamp_i128_to_i64(value: i128) -> (result: i64)
    ensures
        result == clamp_i64(value as int),
{
    if value > i64::MAX as i128 {
        i64::MAX
    } else if value < i64::MIN as i128 {
        i64::MIN
    } else {
        value as i64
    }
}

/// The Euclidean remainder of `a` by a positive `m`: always in `[0, m)`.
pub fn rem_euclid(a: i64, m: i64) -> (result: i64)
    requires
        m > 0,
    ensures
        result == a % m,
        0 <= result < m,
{
    let r = a % m;
    if r < 0 {
        proof {
            lemma_mod_of_negation(-(a as int), m as int);
        }
        r + m
    } else {
        proof {
            if a < 0 {
                lemma_mod_of_negation(-(a as int), m as int);
            }
        }
        r
    }
}

/// The Euclidean remainder of `-b` in terms of that of `b`.
pub proof fn lemma_mod_of_negation(b: int, m: int)
    requires
        m > 0,
    ensures
        (-b) % m == (if b % m == 0 {
            0
        } else {
            m - b % m
        }),
{
    let q = b / m;
    let s = b % m;
    vstd::arithmetic::div_mod::lemma_fundamental_div_mod(b, m);
    if s == 0 {
        assert(-b == (-q) * m + 0) by (nonlinear_arith)
            requires
                b == m * q + s,
                s == 0,
        ;
        vstd::arithmetic::div_mod::lemma_fundamental_div_mod_converse(-b, m, -q, 0);
    } else {
        assert(-b == (-q - 1) * m + (m - s)) by (nonlinear_arith)
            requires
                b == m * q + s,
        ;
        vstd::arithmetic::div_mod::lemma_fundamental_div_mod_converse(-b, m, -q - 1, m - s);
    }
}

/// A space value in Q32.32 metres, truncated toward zero and saturated.
pub open spec fn space_to_q32_spec(value: int) -> int {
    clamp_i64(div_trunc(value * q32_scale(), 1000))
}

pub fn space_to_q32(value: i64) -> (result: i64)
    ensures
        result == space_to_q32_spec(value as int),
{
    proof {
        lemma_i64_product_fits_i128(value, Q32_ONE);
    }
    let scaled: i128 = (value as i128) * (Q32_ONE as i128) / (SPACE_UNITS_PER_METER as i128);
    clamp_i128_to_i64(scaled)
}

/// Q32.32 metres in space units, rounded to nearest with halves away from zero.
pub open spec fn q32_to_space_rounded_spec(value: int) -> int {
    div_round_half_away(value * 1000, q32_scale())
}

pub fn q32_to_space_rounded(value: i64) -> (result: i64)
    ensures
        result == q32_to_space_rounded_spec(value as int),
{
    let scaled: i128 = (value as i128) * 1000;
    let half: i128 = (Q32_ONE / 2) as i128;
    let rounded: i128 = if scaled >= 0 {
        (scaled + half) / (Q32_ONE as i128)
    } else {
        -((-scaled + half) / (Q32_ONE as i128))
    };
    rounded as i64
}

/// The Q32.32 product, floored, and saturated at the bounds of `i64`.
pub open spec fn q32_mul_spec(left: int, right: int) -> int {
    clamp_i64((left * right) / q32_scale())
}

/// Floor division of an `i128` by `2^32`, which is `>> 32`.
fn floor_q32(value: i128) -> (result: i128)
    requires
        -0x4000_0000_0000_0000_0000_0000_0000_0000 <= value
            <= 0x4000_0000_0000_0000_0000_0000_0000_0000,
    ensures
        result == value as int / q32_scale(),
{
    let divisor: i128 = 0x1_0000_0000;
    let quotient = value / divisor;
    if value % divisor < 0 {
        quotient - 1
    } else {
        quotient
    }
}

pub fn q32_mul(left: i64, right: i64) -> (result: i64)
    ensures
        result == q32_mul_spec(left as int, right as int),
{
    proof {
        lemma_i64_product_fits_i128(left, right);
    }
    let product: i128 = left as i128 * right as i128;
    clamp_i128_to_i64(floor_q32(product))
}


/// The magnitude of a Q32.32 quotient `n / d` of non-negative operands, rounded
/// to nearest with halves up.
pub open spec fn q32_div_magnitude(n: int, d: int) -> int {
    let scaled = n * q32_scale();
    scaled / d + (if 2 * (scaled % d) >= d {
        1int
    } else {
        0int
    })
}

/// The Q32.32 quotient: rounded to nearest, halves away from zero, saturated,
/// and a saturated infinity of the numerator's sign for a zero denominator.
pub open spec fn q32_div_spec(numerator: int, denominator: int) -> int {
    if denominator == 0 {
        if numerator < 0 {
            i64::MIN as int
        } else {
            i64::MAX as int
        }
    } else {
        let magnitude = q32_div_magnitude(abs_int(numerator), abs_int(denominator));
        if (numerator < 0) == (denominator < 0) {
            min_int(magnitude, i64::MAX as int)
        } else {
            max_int(-magnitude, i64::MIN as int)
        }
    }
}

fn unsigned_abs(value: i64) -> (result: u128)
    ensures
        result == abs_int(value as int),
{
    if value < 0 {
        (-(value as i128)) as u128
    } else {
        value as u128
    }
}

pub fn q32_div(numerator: i64, denominator: i64) -> (result: i64)
    ensures
        result == q32_div_spec(numerator as int, denominator as int),
{
    if denominator == 0 {
        return if numerator < 0 {
            i64::MIN
        } else {
            i64::MAX
        };
    }
    let scaled: u128 = unsigned_abs(numerator) * 0x1_0000_0000u128;
    let divisor: u128 = unsigned_abs(denominator);
    let quotient = scaled / divisor;
    let remainder = scaled % divisor;
    proof {
        assert(quotient <= scaled) by (nonlinear_arith)
            requires
                divisor >= 1,
                quotient == scaled / divisor,
        ;
    }
    let rounded: u128 = quotient + if remainder * 2 >= divisor {
        1u128
    } else {
        0u128
    };
    if (numerator < 0) == (denominator < 0) {
        if rounded > i64::MAX as u128 {
            i64::MAX
        } else {
            rounded as i64
        }
    } else {
        if rounded > i64::MAX as u128 {
            i64::MIN
        } else {
            -(rounded as i64)
        }
    }
}

/// Millidegrees in Q32.32 degrees, truncated toward zero and saturated.
pub open spec fn mdeg_to_degrees_q32_spec(value: int) -> int {
    clamp_i64(div_trunc(value * q32_scale(), 1000))
}

pub fn mdeg_to_degrees_q32(value: i64) -> (result: i64)
    ensures
        result == mdeg_to_degrees_q32_spec(value as int),
{
    proof {
        lemma_i64_product_fits_i128(value, Q32_ONE);
    }
    let scaled: i128 = (value as i128) * (Q32_ONE as i128) / 1000;
    clamp_i128_to_i64(scaled)
}

/// Q32.32 degrees in millidegrees, rounded to nearest with halves away from
/// zero and not wrapped into a turn.
pub open spec fn degrees_q32_to_unwrapped_mdeg_spec(value: int) -> int {
    div_round_half_away(value * 1000, q32_scale())
}

pub fn degrees_q32_to_unwrapped_mdeg(value: i64) -> (result: i64)
    ensures
        result == degrees_q32_to_unwrapped_mdeg_spec(value as int),
{
    let scaled: i128 = (value as i128) * 1000;
    let half: i128 = (Q32_ONE / 2) as i128;
    let rounded: i128 = if scaled >= 0 {
        (scaled + half) / (Q32_ONE as i128)
    } else {
        -((-scaled + half) / (Q32_ONE as i128))
    };
    rounded as i64
}

/// Q32.32 degrees in millidegrees, with the remainder of a turn taken as Rust
/// takes it, so that a negative angle stays negative.
pub open spec fn degrees_q32_to_mdeg_spec(value: int) -> int {
    rem_trunc(degrees_q32_to_unwrapped_mdeg_spec(value), 360000)
}

pub fn degrees_q32_to_mdeg(value: i64) -> (result: i64)
    ensures
        result == degrees_q32_to_mdeg_spec(value as int),
{
    degrees_q32_to_unwrapped_mdeg(value) % 360000
}

/// The shortest arc between two millidegree bearings, in millidegrees.
pub open spec fn rotation_distance_spec(left: int, right: int) -> int {
    abs_int((right % 360000 - left % 360000 + 540000) % 360000 - 180000)
}

pub fn rotation_distance(left: i64, right: i64) -> (result: i64)
    ensures
        result == rotation_distance_spec(left as int, right as int),
        0 <= result <= 180000,
{
    let wrapped = rem_euclid(rem_euclid(right, 360000) - rem_euclid(left, 360000) + 540000, 360000)
        - 180000;
    if wrapped < 0 {
        -wrapped
    } else {
        wrapped
    }
}

/// A value in the `k`-th turn of 360000 has that turn's remainder.
proof fn lemma_turn_remainder(value: int, k: int)
    requires
        k * 360000 <= value < (k + 1) * 360000,
    ensures
        value % 360000 == value - k * 360000,
{
    vstd::arithmetic::div_mod::lemma_fundamental_div_mod_converse(value, 360000, k, value - k * 360000);
}

/// The shortest arc between two bearings is the same arc from either end,
/// and never more than half a turn.
pub proof fn lemma_rotation_distance_is_symmetric(left: int, right: int)
    ensures
        rotation_distance_spec(left, right) == rotation_distance_spec(right, left),
        0 <= rotation_distance_spec(left, right) <= 180000,
{
    let a = right % 360000;
    let b = left % 360000;
    let d = a - b;
    assert(-360000 < d < 360000);
    let x = (d + 540000) % 360000;
    let y = (-d + 540000) % 360000;
    if d < -180000 {
        lemma_turn_remainder(d + 540000, 0);
        lemma_turn_remainder(-d + 540000, 2);
    } else if d < 180000 {
        lemma_turn_remainder(d + 540000, 1);
        if d == -180000 {
            lemma_turn_remainder(-d + 540000, 2);
        } else {
            lemma_turn_remainder(-d + 540000, 1);
        }
    } else {
        lemma_turn_remainder(d + 540000, 2);
        if d == 180000 {
            lemma_turn_remainder(-d + 540000, 1);
        } else {
            lemma_turn_remainder(-d + 540000, 0);
        }
    }
}

/// The shortest arc between two Q32.32 bearings, in Q32.32 degrees.
pub open spec fn rotation_distance_q32_spec(left: int, right: int) -> int {
    abs_int(
        (right % FULL_TURN_Q32 as int - left % FULL_TURN_Q32 as int + FULL_TURN_Q32 as int
            + HALF_TURN_Q32 as int) % FULL_TURN_Q32 as int - HALF_TURN_Q32 as int,
    )
}

pub fn rotation_distance_q32(left: i64, right: i64) -> (result: i64)
    ensures
        result == rotation_distance_q32_spec(left as int, right as int),
        0 <= result <= HALF_TURN_Q32,
{
    let wrapped = rem_euclid(
        rem_euclid(right, FULL_TURN_Q32) - rem_euclid(left, FULL_TURN_Q32) + FULL_TURN_Q32
            + HALF_TURN_Q32,
        FULL_TURN_Q32,
    ) - HALF_TURN_Q32;
    if wrapped < 0 {
        -wrapped
    } else {
        wrapped
    }
}

/// A value in the `k`-th turn of `turn` has that turn's remainder.
proof fn lemma_turn_remainder_of(value: int, k: int, turn: int)
    requires
        turn > 0,
        k * turn <= value < (k + 1) * turn,
    ensures
        value % turn == value - k * turn,
{
    assert((k + 1) * turn == k * turn + turn) by (nonlinear_arith);
    vstd::arithmetic::div_mod::lemma_fundamental_div_mod_converse(value, turn, k, value - k * turn);
}

/// The shortest arc between two Q32.32 bearings is the same arc from either
/// end, never more than half a turn, nothing from a bearing to itself, and
/// unchanged when either bearing moves by a whole turn.
pub proof fn lemma_rotation_distance_q32_is_symmetric(left: int, right: int)
    ensures
        rotation_distance_q32_spec(left, right) == rotation_distance_q32_spec(right, left),
        0 <= rotation_distance_q32_spec(left, right) <= HALF_TURN_Q32,
        rotation_distance_q32_spec(left, left) == 0,
        rotation_distance_q32_spec(left + FULL_TURN_Q32, right) == rotation_distance_q32_spec(left, right),
        rotation_distance_q32_spec(left, right + FULL_TURN_Q32) == rotation_distance_q32_spec(left, right),
{
    let f = FULL_TURN_Q32 as int;
    let h = HALF_TURN_Q32 as int;
    assert(f == 2 * h);
    let a = right % f;
    let b = left % f;
    let d = a - b;
    assert(-f < d < f);
    if d < -h {
        lemma_turn_remainder_of(d + f + h, 0, f);
        lemma_turn_remainder_of(-d + f + h, 2, f);
    } else if d < h {
        lemma_turn_remainder_of(d + f + h, 1, f);
        if d == -h {
            lemma_turn_remainder_of(-d + f + h, 2, f);
        } else {
            lemma_turn_remainder_of(-d + f + h, 1, f);
        }
    } else {
        lemma_turn_remainder_of(d + f + h, 2, f);
        if d == h {
            lemma_turn_remainder_of(-d + f + h, 1, f);
        } else {
            lemma_turn_remainder_of(-d + f + h, 0, f);
        }
    }
    lemma_turn_remainder_of(f + h, 1, f);
    vstd::arithmetic::div_mod::lemma_mod_add_multiples_vanish(left, f);
    vstd::arithmetic::div_mod::lemma_mod_add_multiples_vanish(right, f);
}

/// `FPoint`'s strict order: `left` is less than `right` only when it lies more
/// than the comparison's tolerance below it.
pub open spec fn fpoint_less_than_spec(left: int, right: int) -> bool {
    right - left > FPOINT_TOLERANCE as int
}

pub fn fpoint_less_than(left: i64, right: i64) -> (result: bool)
    ensures
        result == fpoint_less_than_spec(left as int, right as int),
{
    (right as i128) - (left as i128) > FPOINT_TOLERANCE as i128
}

/// `value` clamped into `[low, high]`.
pub open spec fn clamp_int(value: int, low: int, high: int) -> int {
    if value < low {
        low
    } else if value > high {
        high
    } else {
        value
    }
}

/// One step of turning from `current` toward `target` by at most `maximum`,
/// both read within a turn; the result is not wrapped.
///
/// An exact half turn, and anything within the comparison's tolerance of it,
/// turns the positive way.
pub open spec fn rotate_towards_q32_unwrapped_spec(current: int, target: int, maximum: int) -> int {
    let full = FULL_TURN_Q32 as int;
    let current = current % full;
    let target = target % full;
    let delta = (target - current) % full;
    let delta = if fpoint_less_than_spec(HALF_TURN_Q32 as int, delta) {
        delta - full
    } else {
        delta
    };
    current + clamp_int(delta, -maximum, maximum)
}

pub fn rotate_towards_q32_unwrapped(current: i64, target: i64, maximum: i64) -> (result: i64)
    requires
        maximum >= 0,
    ensures
        result == rotate_towards_q32_unwrapped_spec(current as int, target as int, maximum as int),
{
    let current = rem_euclid(current, FULL_TURN_Q32);
    let target = rem_euclid(target, FULL_TURN_Q32);
    let mut delta = rem_euclid(target - current, FULL_TURN_Q32);
    if fpoint_less_than(HALF_TURN_Q32, delta) {
        delta = delta - FULL_TURN_Q32;
    }
    let step = if delta < -maximum {
        -maximum
    } else if delta > maximum {
        maximum
    } else {
        delta
    };
    current + step
}

/// A value in the `k`-th turn of Q32.32 degrees has that turn's remainder.
proof fn lemma_turn_remainder_q32(value: int, k: int)
    requires
        k * FULL_TURN_Q32 <= value < (k + 1) * FULL_TURN_Q32,
    ensures
        value % (FULL_TURN_Q32 as int) == value - k * FULL_TURN_Q32,
{
    vstd::arithmetic::div_mod::lemma_fundamental_div_mod_converse(
        value,
        FULL_TURN_Q32 as int,
        k,
        value - k * FULL_TURN_Q32,
    );
}

/// One step of turning moves a bearing by no more than the step's maximum.
pub proof fn lemma_a_turn_moves_at_most_its_maximum(current: int, target: int, maximum: int)
    requires
        maximum >= 0,
    ensures
        rotation_distance_q32_spec(current, rotate_towards_q32_spec(current, target, maximum)) <= maximum,
{
    let full = FULL_TURN_Q32 as int;
    let half = HALF_TURN_Q32 as int;
    let start = current % full;
    let aim = target % full;
    let delta = (aim - start) % full;
    let adjusted = if fpoint_less_than_spec(half, delta) { delta - full } else { delta };
    let step = clamp_int(adjusted, -maximum, maximum);
    assert(rotate_towards_q32_unwrapped_spec(current, target, maximum) == start + step);
    assert(-half < step <= half + FPOINT_TOLERANCE);
    let turned = (start + step) % full;
    assert(rotate_towards_q32_spec(current, target, maximum) == turned);
    vstd::arithmetic::div_mod::lemma_mod_twice(start + step, full);
    let turns: int = if start + step < 0 {
        -1
    } else if start + step < full {
        0
    } else {
        1
    };
    lemma_turn_remainder_q32(start + step, turns);
    let difference = turned - start;
    assert(difference == step - turns * full);
    let value = difference + full + half;
    assert(value == step + half + (1 - turns) * full);
    if step + half < full {
        lemma_turn_remainder_q32(value, 1 - turns);
    } else {
        lemma_turn_remainder_q32(value, 2 - turns);
    }
}

/// One step of turning, wrapped into `[0, 360)` degrees.
pub open spec fn rotate_towards_q32_spec(current: int, target: int, maximum: int) -> int {
    rotate_towards_q32_unwrapped_spec(current, target, maximum) % FULL_TURN_Q32 as int
}

pub fn rotate_towards_q32(current: i64, target: i64, maximum: i64) -> (result: i64)
    requires
        maximum >= 0,
    ensures
        result == rotate_towards_q32_spec(current as int, target as int, maximum as int),
        0 <= result < FULL_TURN_Q32,
{
    rem_euclid(rotate_towards_q32_unwrapped(current, target, maximum), FULL_TURN_Q32)
}

/// The greatest common divisor, by Euclid's algorithm.
pub open spec fn gcd_spec(left: nat, right: nat) -> nat
    decreases right,
{
    if right == 0 {
        left
    } else {
        gcd_spec(right, left % right)
    }
}

pub fn gcd(left: u64, right: u64) -> (result: u64)
    ensures
        result == gcd_spec(left as nat, right as nat),
{
    let ghost original = gcd_spec(left as nat, right as nat);
    let mut left = left;
    let mut right = right;
    while right != 0
        invariant
            gcd_spec(left as nat, right as nat) == original,
        decreases right,
    {
        let remainder = left % right;
        left = right;
        right = remainder;
    }
    left
}


/// `root` is the integer square root of `value`, saturated at `i64::MAX`, and
/// zero for a value that is not positive.
pub open spec fn is_integer_sqrt(value: int, root: int) -> bool {
    &&& 0 <= root <= i64::MAX
    &&& value <= 0 ==> root == 0
    &&& value > 0 ==> root * root <= value
    &&& value > 0 && root < i64::MAX ==> value < (root + 1) * (root + 1)
}

/// The whole square root of `value`, saturated at `i64::MAX`: the one root
/// [`is_integer_sqrt`] admits.
pub open spec fn integer_sqrt_spec(value: int) -> int {
    choose|root: int| is_integer_sqrt(value, root)
}

/// A value has at most one whole square root.
pub proof fn lemma_integer_sqrt_unique(value: int, left: int, right: int)
    requires
        is_integer_sqrt(value, left),
        is_integer_sqrt(value, right),
    ensures
        left == right,
{
    if value > 0 {
        if left < right {
            assert(left + 1 <= right);
            assert((left + 1) * (left + 1) <= right * right) by (nonlinear_arith)
                requires
                    0 <= left + 1 <= right,
            ;
        } else if right < left {
            assert((right + 1) * (right + 1) <= left * left) by (nonlinear_arith)
                requires
                    0 <= right + 1 <= left,
            ;
        }
    }
}

/// The root a computation found is the whole square root.
pub proof fn lemma_integer_sqrt_is(value: int, root: int)
    requires
        is_integer_sqrt(value, root),
    ensures
        integer_sqrt_spec(value) == root,
{
    lemma_integer_sqrt_unique(value, integer_sqrt_spec(value), root);
}

proof fn lemma_square_at_most_iff_at_most_quotient(middle: int, value: int)
    requires
        middle > 0,
        value >= 0,
    ensures
        (middle <= value / middle) == (middle * middle <= value),
{
    vstd::arithmetic::div_mod::lemma_fundamental_div_mod(value, middle);
    let quotient = value / middle;
    let remainder = value % middle;
    assert(0 <= remainder < middle) by {
        vstd::arithmetic::div_mod::lemma_mod_bound(value, middle);
    }
    if middle <= quotient {
        assert(middle * middle <= value) by (nonlinear_arith)
            requires
                middle <= quotient,
                middle > 0,
                value == middle * quotient + remainder,
                remainder >= 0,
        ;
    } else {
        assert(middle * middle > value) by (nonlinear_arith)
            requires
                middle >= quotient + 1,
                middle > 0,
                value == middle * quotient + remainder,
                remainder < middle,
        ;
    }
}

pub fn integer_sqrt(value: i128) -> (result: i64)
    ensures
        is_integer_sqrt(value as int, result as int),
{
    if value <= 0 {
        return 0;
    }
    let value = value as u128;
    let mut low: u128 = 0;
    let mut high: u128 = if value < u64::MAX as u128 {
        value
    } else {
        u64::MAX as u128
    };
    proof {
        if high == value {
            assert(value < (high + 1) * (high + 1)) by (nonlinear_arith)
                requires
                    high == value,
                    value > 0,
            ;
        } else {
            assert((high + 1) * (high + 1) == 0x1_0000_0000_0000_0000_0000_0000_0000_0000)
                by (nonlinear_arith)
                requires
                    high + 1 == 0x1_0000_0000_0000_0000,
            ;
        }
    }
    while low < high
        invariant
            low <= high <= u64::MAX,
            low * low <= value,
            value < (high + 1) * (high + 1),
            value <= i128::MAX,
        decreases high - low,
    {
        let middle = (low + high + 1) / 2;
        proof {
            lemma_square_at_most_iff_at_most_quotient(middle as int, value as int);
        }
        if middle <= value / middle {
            low = middle;
        } else {
            high = middle - 1;
        }
    }
    if low > i64::MAX as u128 {
        proof {
            assert(i64::MAX * i64::MAX <= low * low) by (nonlinear_arith)
                requires
                    low > i64::MAX,
            ;
        }
        i64::MAX
    } else {
        low as i64
    }
}

/// The length of `(x, z)`, rounded down to a whole unit.
pub fn magnitude(x: i64, z: i64) -> (result: i64)
    requires
        x * x + z * z <= i128::MAX,
    ensures
        is_integer_sqrt(x * x + z * z, result as int),
        result == integer_sqrt_spec(x * x + z * z),
{
    proof {
        lemma_i64_product_fits_i128(x, x);
        lemma_i64_product_fits_i128(z, z);
    }
    let root = integer_sqrt((x as i128) * (x as i128) + (z as i128) * (z as i128));
    proof {
        lemma_integer_sqrt_is(x * x + z * z, root as int);
    }
    root
}

/// Whether two Q32.32 points lie within `bound_space` space units of each
/// other, with each square and the sum saturated as `i128` saturates them.
pub open spec fn q32_distance_within_spec(
    source_x_q32: int,
    source_z_q32: int,
    target_x_q32: int,
    target_z_q32: int,
    bound_space: int,
) -> bool {
    let dx = target_x_q32 - source_x_q32;
    let dz = target_z_q32 - source_z_q32;
    let bound = max_int(space_to_q32_spec(bound_space), 0);
    min_int(min_int(dx * dx, i128::MAX as int) + min_int(dz * dz, i128::MAX as int), i128::MAX as int)
        <= bound * bound
}

fn saturating_square_i128(value: i128) -> (result: i128)
    ensures
        result == min_int(value * value, i128::MAX as int),
        result >= 0,
{
    match value.checked_mul(value) {
        Some(square) => {
            proof {
                assert(value * value >= 0) by (nonlinear_arith);
            }
            square
        },
        None => {
            proof {
                assert(value * value >= 0) by (nonlinear_arith);
            }
            i128::MAX
        },
    }
}

pub fn q32_distance_within(
    source_x_q32: i64,
    source_z_q32: i64,
    target_x_q32: i64,
    target_z_q32: i64,
    bound_space: i64,
) -> (result: bool)
    ensures
        result == q32_distance_within_spec(
            source_x_q32 as int,
            source_z_q32 as int,
            target_x_q32 as int,
            target_z_q32 as int,
            bound_space as int,
        ),
{
    let dx: i128 = target_x_q32 as i128 - source_x_q32 as i128;
    let dz: i128 = target_z_q32 as i128 - source_z_q32 as i128;
    let scaled = space_to_q32(bound_space);
    let bound: i128 = if scaled < 0 {
        0
    } else {
        scaled as i128
    };
    let dx2 = saturating_square_i128(dx);
    let dz2 = saturating_square_i128(dz);
    let sum: i128 = if dx2 > i128::MAX - dz2 {
        i128::MAX
    } else {
        dx2 + dz2
    };
    proof {
        lemma_i64_product_fits_i128(scaled, scaled);
    }
    sum <= bound * bound
}

/// The Q32.32 step length of one native logic tick.
pub const NATIVE_LOGIC_DELTA_Q32: i64 = 0x0CCC_CCCCi64;

/// Time units to the second.
pub const TIME_UNITS_PER_SECOND: u64 = 2000u64;

/// How many whole logic ticks a span of time units covers, counted the way the
/// build counts them: the span in Q32.32 seconds, divided by the tick's own
/// Q32.32 length, floored.
pub open spec fn native_time_units_to_steps_spec(time_units: int) -> int {
    let raw_time = min_int((time_units * q32_scale()) / 2000, i64::MAX as int);
    max_int(q32_div_spec(raw_time, NATIVE_LOGIC_DELTA_Q32 as int), 0) / q32_scale()
}

pub fn native_time_units_to_steps(time_units: u64) -> (result: u64)
    ensures
        result == native_time_units_to_steps_spec(time_units as int),
{
    let scaled: u128 = (time_units as u128) * 0x1_0000_0000u128 / (TIME_UNITS_PER_SECOND as u128);
    let raw_time: i64 = if scaled > i64::MAX as u128 {
        i64::MAX
    } else {
        scaled as i64
    };
    let steps_q32 = q32_div(raw_time, NATIVE_LOGIC_DELTA_Q32);
    let steps_q32: i64 = if steps_q32 < 0 {
        0
    } else {
        steps_q32
    };
    (steps_q32 as u64) / 0x1_0000_0000u64
}


/// The products [`distance_to_segment_q32`] forms all fit in `i128`: the
/// offsets are below `2^62` and the segment's squared length times either of
/// its extents stays inside the range.
pub open spec fn segment_fits(from: (i64, i64), to: (i64, i64), point: (i64, i64)) -> bool {
    let dx = to.0 - from.0;
    let dz = to.1 - from.1;
    let px = point.0 - from.0;
    let pz = point.1 - from.1;
    let length = dx * dx + dz * dz;
    &&& abs_int(px) + abs_int(dx) <= 0x4000_0000_0000_0000
    &&& abs_int(pz) + abs_int(dz) <= 0x4000_0000_0000_0000
    &&& abs_int(dx) * length <= i128::MAX
    &&& abs_int(dz) * length <= i128::MAX
}

/// The point of the segment nearest `point`, relative to `from`, each
/// coordinate truncated toward zero; a zero-length segment is its start.
pub open spec fn segment_nearest(from: (i64, i64), to: (i64, i64), point: (i64, i64)) -> (int, int) {
    let dx = to.0 - from.0;
    let dz = to.1 - from.1;
    let px = point.0 - from.0;
    let pz = point.1 - from.1;
    let length = dx * dx + dz * dz;
    if length == 0 {
        (0, 0)
    } else {
        let along = clamp_int(px * dx + pz * dz, 0, length);
        (div_trunc(dx * along, length), div_trunc(dz * along, length))
    }
}

proof fn lemma_abs_product_bound(a: int, b: int, bound_a: int, bound_b: int)
    requires
        abs_int(a) <= bound_a,
        abs_int(b) <= bound_b,
    ensures
        abs_int(a * b) <= bound_a * bound_b,
        a * b <= bound_a * bound_b,
        -(bound_a * bound_b) <= a * b,
{
    assert(abs_int(a * b) == abs_int(a) * abs_int(b)) by (nonlinear_arith);
    assert(abs_int(a) * abs_int(b) <= bound_a * bound_b) by (nonlinear_arith)
        requires
            0 <= abs_int(a) <= bound_a,
            0 <= abs_int(b) <= bound_b,
    ;
}

proof fn lemma_truncated_share(extent: int, along: int, length: int)
    requires
        length > 0,
        0 <= along <= length,
    ensures
        abs_int(div_trunc(extent * along, length)) <= abs_int(extent),
{
    let product = extent * along;
    assert(abs_int(product) <= abs_int(extent) * length) by (nonlinear_arith)
        requires
            product == extent * along,
            0 <= along <= length,
    ;
    let magnitude = abs_int(product) / length;
    assert(magnitude <= abs_int(extent)) by (nonlinear_arith)
        requires
            magnitude == abs_int(product) / length,
            abs_int(product) <= abs_int(extent) * length,
            length > 0,
    ;
    vstd::arithmetic::div_mod::lemma_div_pos_is_pos(abs_int(product), length);
}

/// The square of `point`'s offset from the segment's nearest point.
pub open spec fn segment_offset_square(from: (i64, i64), to: (i64, i64), point: (i64, i64)) -> int {
    let offset_x = point.0 - from.0 - segment_nearest(from, to, point).0;
    let offset_z = point.1 - from.1 - segment_nearest(from, to, point).1;
    offset_x * offset_x + offset_z * offset_z
}

/// A whole square root is at most `bound` exactly when the value lies below
/// the square of the next whole number.
pub proof fn lemma_integer_sqrt_at_most(value: int, root: int, bound: int)
    requires
        is_integer_sqrt(value, root),
        0 <= bound < i64::MAX,
    ensures
        (root <= bound) == (value < (bound + 1) * (bound + 1)),
{
    assert((bound + 1) * (bound + 1) > 0) by (nonlinear_arith)
        requires
            bound >= 0,
    ;
    if root <= bound {
        if value > 0 {
            assert((root + 1) * (root + 1) <= (bound + 1) * (bound + 1)) by (nonlinear_arith)
                requires
                    0 <= root <= bound,
            ;
        }
    } else {
        assert(root * root >= (bound + 1) * (bound + 1)) by (nonlinear_arith)
            requires
                root >= bound + 1,
                bound >= 0,
        ;
    }
}

/// How far `point` lies from the segment `from`-`to`, rounded down to a whole
/// unit: the length of its offset from the segment's nearest point.
pub fn distance_to_segment_q32(from: (i64, i64), to: (i64, i64), point: (i64, i64)) -> (result: i64)
    requires
        segment_fits(from, to, point),
    ensures
        is_integer_sqrt(
            ({
                let offset_x = point.0 - from.0 - segment_nearest(from, to, point).0;
                let offset_z = point.1 - from.1 - segment_nearest(from, to, point).1;
                offset_x * offset_x + offset_z * offset_z
            }),
            result as int,
        ),
{
    let dx: i128 = to.0 as i128 - from.0 as i128;
    let dz: i128 = to.1 as i128 - from.1 as i128;
    let px: i128 = point.0 as i128 - from.0 as i128;
    let pz: i128 = point.1 as i128 - from.1 as i128;
    let ghost bound: int = 0x4000_0000_0000_0000;
    proof {
        lemma_abs_product_bound(dx as int, dx as int, bound, bound);
        lemma_abs_product_bound(dz as int, dz as int, bound, bound);
        lemma_abs_product_bound(px as int, dx as int, bound, bound);
        lemma_abs_product_bound(pz as int, dz as int, bound, bound);
        lemma_abs_product_bound(px as int, px as int, bound, bound);
        lemma_abs_product_bound(pz as int, pz as int, bound, bound);
    }
    let length = dx * dx + dz * dz;
    if length == 0 {
        return integer_sqrt(px * px + pz * pz);
    }
    let dot = px * dx + pz * dz;
    let along = if dot < 0 {
        0
    } else if dot > length {
        length
    } else {
        dot
    };
    proof {
        assert(dx * dx >= 0) by (nonlinear_arith);
        assert(dz * dz >= 0) by (nonlinear_arith);
        lemma_abs_product_bound(dx as int, along as int, abs_int(dx as int), length as int);
        lemma_abs_product_bound(dz as int, along as int, abs_int(dz as int), length as int);
    }
    let nearest_x = dx * along / length;
    let nearest_z = dz * along / length;
    proof {
        lemma_truncated_share(dx as int, along as int, length as int);
        lemma_truncated_share(dz as int, along as int, length as int);
    }
    let offset_x = px - nearest_x;
    let offset_z = pz - nearest_z;
    proof {
        lemma_abs_product_bound(offset_x as int, offset_x as int, bound, bound);
        lemma_abs_product_bound(offset_z as int, offset_z as int, bound, bound);
    }
    integer_sqrt(offset_x * offset_x + offset_z * offset_z)
}

} // verus!
