//! The build's fast fixed-point square root and trigonometry, bit for bit.
//!
//! Each routine here is a short polynomial evaluated in Q32.32 with the
//! build's own constants, shifts and wrapping multiplications. What the game
//! computes is that exact sequence of operations rather than the real function
//! it approximates, so the specification of each is the sequence itself, and
//! the properties the fight relies on (zero for a non-positive radicand, a
//! bearing inside a turn) are stated beside it.

use vstd::prelude::*;
use vstd::std_specs::bits::u64_leading_zeros;

use crate::fixed::{
    Q32_ONE, FULL_TURN_Q32, clamp_i64, q32_div, q32_div_spec, q32_mul, q32_mul_spec, rem_euclid,
    saturating_add, saturating_sub, degrees_q32_to_mdeg, degrees_q32_to_mdeg_spec, space_to_q32,
    space_to_q32_spec,
};

verus! {

/// `C000_0000_0000_0000` read as a signed value.
pub const SQRT_SEED: i64 = -4611686018427387904i64;

/// `F90F_54C4_0000_0000` read as a signed value.
pub const SQRT_C1: i64 = -500087832824512512i64;

/// `DD58_0FC7_0000_0000` read as a signed value.
pub const ATAN_DIV_C1: i64 = -2497228646004031488i64;

/// `C0C3_D3BF_0000_0000` read as a signed value.
pub const ATAN_DIV_C2: i64 = -4556565580676595712i64;

/// `E8C5_3128_0000_0000` read as a signed value.
pub const ATAN_C1: i64 = -1673877638629818368i64;

/// `FFE4_A871_0000_0000` read as a signed value.
pub const ATAN_C2: i64 = -7696096063127552i64;

/// `D6CF_6F97_0000_0000` read as a signed value.
pub const SIN_C1: i64 = -2968030935083122688i64;

/// `6487_ED51_0000_0000`.
pub const SIN_C2: i64 = 7244019457796866048i64;

/// Half of pi in Q32.32.
pub const PI_OVER_TWO_Q32: i64 = 0x1_921F_B544i64;

/// Minus half of pi in Q32.32.
pub const MINUS_PI_OVER_TWO_Q32: i64 = -6746518852i64;

/// Minus one whole unit in Q32.32.
pub const MINUS_Q32_ONE: i64 = -4294967296i64;

/// Every bit set: the sign mask of a negative value.
pub const ALL_ONES: i64 = -1i64;

/// Pi in Q32.32.
pub const PI_Q32: i64 = 0x3_243F_6A89i64;

/// Degrees to the radian in Q32.32.
pub const DEGREES_PER_RADIAN_Q32: i64 = 0x0039_4BB8_34C8i64;

/// The exponent the build normalizes a positive value by: the position of its
/// highest set bit, counted from the Q32.32 unit.
pub open spec fn q32_exponent_spec(value: i64) -> int {
    31 - u64_leading_zeros(value as u64)
}

pub fn q32_exponent(value: i64) -> (result: i32)
    requires
        value > 0,
    ensures
        result == q32_exponent_spec(value),
        -33 <= result <= 31,
{
    proof {
        vstd::std_specs::bits::axiom_u64_leading_zeros(value as u64);
    }
    let zeros = (value as u64).leading_zeros();
    31 - (zeros as i32)
}

/// `value` shifted so that its exponent becomes zero.
pub open spec fn normalize_q32_spec(value: i64, exponent: int) -> i64 {
    if exponent >= 0 {
        value >> (exponent as u32)
    } else {
        value.wrapping_shl((-exponent) as u32)
    }
}

pub fn normalize_q32(value: i64, exponent: i32) -> (result: i64)
    requires
        -64 < exponent < 64,
    ensures
        result == normalize_q32_spec(value, exponent as int),
{
    if exponent >= 0 {
        value >> (exponent as u32)
    } else {
        value.wrapping_shl((-exponent) as u32)
    }
}

/// The polynomial the fast square root evaluates on a normalized radicand.
pub open spec fn sqrt_polynomial_spec(normalized: i64) -> i64 {
    let variable = SQRT_SEED.wrapping_add(normalized.wrapping_shl(30)) >> 32u32;
    let coefficient = variable;
    let variable = variable.wrapping_mul(0x0664_5730);
    let variable = SQRT_C1.wrapping_add(variable) >> 32u32;
    let coefficient = coefficient.wrapping_shl(2);
    let variable = variable.wrapping_mul(coefficient);
    let variable = 0x1FDA_0F0B_0000_0000i64.wrapping_add(variable) >> 32u32;
    let variable = coefficient.wrapping_mul(variable);
    0x4000_0000_0000_0000i64.wrapping_add(variable) >> 32u32
}

/// The build's fast Q32.32 square root.
pub open spec fn fpcs_sqrt_fastest_spec(value: i64) -> i64 {
    if value <= 0 {
        0
    } else {
        let exponent = q32_exponent_spec(value);
        let variable = sqrt_polynomial_spec(normalize_q32_spec(value, exponent));
        let odd_factor = if exponent % 2 == 0 {
            Q32_ONE
        } else {
            0x0001_6A09_E664i64
        };
        let result = (odd_factor.wrapping_mul(variable) >> 30u32) & !3i64;
        let half_exponent = exponent / 2;
        if half_exponent >= 0 {
            result.wrapping_shl(half_exponent as u32)
        } else {
            result >> ((-half_exponent) as u32)
        }
    }
}

fn sqrt_polynomial(normalized: i64) -> (result: i64)
    ensures
        result == sqrt_polynomial_spec(normalized),
{
    let mut variable = SQRT_SEED.wrapping_add(normalized.wrapping_shl(30)) >> 32u32;
    let coefficient = variable;
    variable = variable.wrapping_mul(0x0664_5730);
    variable = SQRT_C1.wrapping_add(variable) >> 32u32;
    let coefficient = coefficient.wrapping_shl(2);
    variable = variable.wrapping_mul(coefficient);
    variable = 0x1FDA_0F0B_0000_0000i64.wrapping_add(variable) >> 32u32;
    variable = coefficient.wrapping_mul(variable);
    0x4000_0000_0000_0000i64.wrapping_add(variable) >> 32u32
}

/// The build's fast Q32.32 square root, which is zero for anything that is not
/// positive.
pub fn fpcs_sqrt_fastest(value: i64) -> (result: i64)
    ensures
        result == fpcs_sqrt_fastest_spec(value),
        value <= 0 ==> result == 0,
{
    if value <= 0 {
        return 0;
    }
    let exponent = q32_exponent(value);
    let variable = sqrt_polynomial(normalize_q32(value, exponent));
    let odd_factor = if exponent % 2 == 0 {
        Q32_ONE
    } else {
        0x0001_6A09_E664i64
    };
    let result = (odd_factor.wrapping_mul(variable) >> 30u32) & !3i64;
    let half_exponent = if exponent >= 0 {
        exponent / 2
    } else {
        -((-exponent + 1) / 2)
    };
    if half_exponent >= 0 {
        result.wrapping_shl(half_exponent as u32)
    } else {
        result >> ((-half_exponent) as u32)
    }
}


/// The Q32.32 quotient `y / x` of `0 <= y <= x`, `x > 0`, by the build's
/// reciprocal polynomial, saturated upward into `i32`.
pub open spec fn fpcs_atan2_div_fastest_spec(y: i64, x: i64) -> int {
    let exponent = q32_exponent_spec(x);
    let normalized_y = normalize_q32_spec(y, exponent);
    let normalized_x = normalize_q32_spec(x, exponent);
    let seed = SQRT_SEED.wrapping_add(normalized_x.wrapping_shl(30)) >> 32u32;
    let variable = seed.wrapping_mul(0x279B_5BB0);
    let argument = seed.wrapping_shl(2);
    let coefficient = (ATAN_DIV_C1.wrapping_add(variable) >> 32u32).wrapping_mul(argument);
    let polynomial = 0x37FD_4590_0000_0000i64.wrapping_add(coefficient) >> 32u32;
    let polynomial = polynomial.wrapping_mul(argument);
    let polynomial = ATAN_DIV_C2.wrapping_add(polynomial) >> 32u32;
    let polynomial = polynomial.wrapping_mul(argument);
    let polynomial = 0x4000_0000_0000_0000i64.wrapping_add(polynomial) >> 32u32;
    let y_quarter = normalized_y >> 2u32;
    let quotient = polynomial.wrapping_mul(y_quarter) >> 30u32;
    if i32::MIN <= quotient <= i32::MAX {
        quotient as int
    } else {
        i32::MAX as int
    }
}

pub fn fpcs_atan2_div_fastest(y: i64, x: i64) -> (result: i32)
    requires
        0 <= y <= x,
        x > 0,
    ensures
        result == fpcs_atan2_div_fastest_spec(y, x),
{
    let exponent = q32_exponent(x);
    let normalized_y = normalize_q32(y, exponent);
    let normalized_x = normalize_q32(x, exponent);
    let seed = SQRT_SEED.wrapping_add(normalized_x.wrapping_shl(30)) >> 32u32;
    let variable = seed.wrapping_mul(0x279B_5BB0);
    let argument = seed.wrapping_shl(2);
    let coefficient = (ATAN_DIV_C1.wrapping_add(variable) >> 32u32).wrapping_mul(argument);
    let polynomial = 0x37FD_4590_0000_0000i64.wrapping_add(coefficient) >> 32u32;
    let polynomial = polynomial.wrapping_mul(argument);
    let polynomial = ATAN_DIV_C2.wrapping_add(polynomial) >> 32u32;
    let polynomial = polynomial.wrapping_mul(argument);
    let polynomial = 0x4000_0000_0000_0000i64.wrapping_add(polynomial) >> 32u32;
    let y_quarter = normalized_y >> 2u32;
    let quotient = polynomial.wrapping_mul(y_quarter) >> 30u32;
    if i32::MIN as i64 <= quotient && quotient <= i32::MAX as i64 {
        quotient as i32
    } else {
        i32::MAX
    }
}

/// The build's arctangent polynomial on a quotient in `[0, 1]`, its sign
/// taken from `sign_mask`.
pub open spec fn fpcs_atan_polynomial_spec(divided: i32, sign_mask: i64) -> i64 {
    let variable = divided as i64;
    let polynomial = variable.wrapping_mul(0x2651_FC38);
    let polynomial = ATAN_C1.wrapping_add(polynomial) >> 32u32;
    let argument = variable.wrapping_shl(2);
    let polynomial = polynomial.wrapping_mul(argument);
    let polynomial = ATAN_C2.wrapping_add(polynomial) >> 32u32;
    let polynomial = polynomial.wrapping_mul(argument);
    let polynomial = 0x4005_9E04_0000_0000i64.wrapping_add(polynomial) >> 32u32;
    let polynomial = polynomial.wrapping_mul(argument) >> 30u32;
    (polynomial & !3i64) ^ sign_mask
}

pub fn fpcs_atan_polynomial(divided: i32, sign_mask: i64) -> (result: i64)
    ensures
        result == fpcs_atan_polynomial_spec(divided, sign_mask),
        sign_mask == 0 || sign_mask == -1 ==> -0x2_0000_0001 <= result <= 0x2_0000_0000,
{
    let variable = divided as i64;
    let polynomial = variable.wrapping_mul(0x2651_FC38);
    let polynomial = ATAN_C1.wrapping_add(polynomial) >> 32u32;
    let argument = variable.wrapping_shl(2);
    let polynomial = polynomial.wrapping_mul(argument);
    let polynomial = ATAN_C2.wrapping_add(polynomial) >> 32u32;
    let polynomial = polynomial.wrapping_mul(argument);
    let polynomial = 0x4005_9E04_0000_0000i64.wrapping_add(polynomial) >> 32u32;
    let product = polynomial.wrapping_mul(argument);
    let polynomial = product >> 30u32;
    assert((product >> 30u32) & !3i64 ^ 0i64 <= 0x2_0000_0000 && (product >> 30u32) & !3i64 ^ 0i64
        >= -0x2_0000_0001 && (product >> 30u32) & !3i64 ^ -1i64 <= 0x2_0000_0000 && (product >> 30u32)
        & !3i64 ^ -1i64 >= -0x2_0000_0001) by (bit_vector);
    (polynomial & !3i64) ^ sign_mask
}

/// `|value|`, with `i64::MIN` saturated to `i64::MAX`.
pub open spec fn saturating_abs_spec(value: i64) -> i64 {
    if value == i64::MIN {
        i64::MAX
    } else if value < 0 {
        (-value) as i64
    } else {
        value
    }
}

/// All ones for a negative quotient, zero for a positive one.
pub open spec fn sign_mask_spec(x: i64, y: i64) -> i64 {
    if (x < 0) != (y < 0) {
        ALL_ONES
    } else {
        0
    }
}

/// The build's fast Q32.32 `atan2(y, x)`, in radians.
pub open spec fn fpcs_atan2_fastest_spec(y: i64, x: i64) -> i64 {
    if x == 0 {
        if y > 0 {
            PI_OVER_TWO_Q32
        } else if y < 0 {
            MINUS_PI_OVER_TWO_Q32
        } else {
            0
        }
    } else {
        let absolute_x = saturating_abs_spec(x);
        let absolute_y = saturating_abs_spec(y);
        let sign_mask = sign_mask_spec(x, y);
        if absolute_x < absolute_y {
            let approximate = fpcs_atan_polynomial_spec(
                fpcs_atan2_div_fastest_spec(absolute_x, absolute_y) as i32,
                sign_mask,
            );
            if y > 0 {
                PI_OVER_TWO_Q32.wrapping_sub(approximate)
            } else {
                MINUS_PI_OVER_TWO_Q32.wrapping_sub(approximate)
            }
        } else {
            let approximate = fpcs_atan_polynomial_spec(
                fpcs_atan2_div_fastest_spec(absolute_y, absolute_x) as i32,
                sign_mask,
            );
            if x > 0 {
                approximate
            } else if y >= 0 {
                approximate.wrapping_add(PI_Q32)
            } else {
                approximate.wrapping_sub(PI_Q32)
            }
        }
    }
}

fn saturating_abs(value: i64) -> (result: i64)
    ensures
        result == saturating_abs_spec(value),
        result >= 0,
{
    if value == i64::MIN {
        i64::MAX
    } else if value < 0 {
        -value
    } else {
        value
    }
}

pub fn fpcs_atan2_fastest(y: i64, x: i64) -> (result: i64)
    ensures
        result == fpcs_atan2_fastest_spec(y, x),
        -0x10_0000_0000 < result < 0x10_0000_0000,
{
    if x == 0 {
        return if y > 0 {
            PI_OVER_TWO_Q32
        } else if y < 0 {
            -PI_OVER_TWO_Q32
        } else {
            0
        };
    }
    let absolute_x = saturating_abs(x);
    let absolute_y = saturating_abs(y);
    let sign_mask: i64 = if (x < 0) != (y < 0) {
        -1
    } else {
        0
    };
    if absolute_x < absolute_y {
        let divided = fpcs_atan2_div_fastest(absolute_x, absolute_y);
        let approximate = fpcs_atan_polynomial(divided, sign_mask);
        if y > 0 {
            PI_OVER_TWO_Q32.wrapping_sub(approximate)
        } else {
            (-PI_OVER_TWO_Q32).wrapping_sub(approximate)
        }
    } else {
        let divided = fpcs_atan2_div_fastest(absolute_y, absolute_x);
        let approximate = fpcs_atan_polynomial(divided, sign_mask);
        if x > 0 {
            approximate
        } else if y >= 0 {
            approximate.wrapping_add(PI_Q32)
        } else {
            approximate.wrapping_sub(PI_Q32)
        }
    }
}

/// The build's fast Q32.32 arccosine, in radians.
pub open spec fn fpcs_acos_fastest_spec(value: i64) -> i64 {
    let complement = q32_mul_spec(
        clamp_i64(Q32_ONE - value),
        clamp_i64(Q32_ONE + value),
    ) as i64;
    fpcs_atan2_fastest_spec(fpcs_sqrt_fastest_spec(complement), value)
}

pub fn fpcs_acos_fastest(value: i64) -> (result: i64)
    ensures
        result == fpcs_acos_fastest_spec(value),
        -0x10_0000_0000 < result < 0x10_0000_0000,
{
    let complement = q32_mul(saturating_sub(Q32_ONE, value), saturating_add(Q32_ONE, value));
    fpcs_atan2_fastest(fpcs_sqrt_fastest(complement), value)
}

/// The build's fast Q32.32 sine of an angle in radians.
pub open spec fn fpcs_sin_fastest_spec(value: i64) -> i64 {
    let turn = q32_mul_spec(value as int, 0x28BE_60DC) as i32;
    let doubled = turn.wrapping_mul(2);
    let folded = (0x8000_0000u32).wrapping_sub(turn as u32) as i32;
    let coordinate = (if doubled ^ turn >= 0 {
        turn
    } else {
        folded
    }) as i64;
    let scaled_coordinate = coordinate.wrapping_mul(4);
    let squared = coordinate.wrapping_mul(scaled_coordinate) >> 32u32;
    let coefficient = SIN_C1.wrapping_add(squared.wrapping_mul(0x12A2_8C60)) >> 32u32;
    let polynomial = SIN_C2.wrapping_add(coefficient.wrapping_mul(squared).wrapping_mul(4))
        >> 32u32;
    (polynomial.wrapping_mul(scaled_coordinate) >> 30u32) & !3i64
}

pub fn fpcs_sin_fastest(value: i64) -> (result: i64)
    ensures
        result == fpcs_sin_fastest_spec(value),
{
    let turn = q32_mul(value, 0x28BE_60DC) as i32;
    let doubled = turn.wrapping_mul(2);
    let folded = (0x8000_0000u32).wrapping_sub(turn as u32) as i32;
    let coordinate = (if doubled ^ turn >= 0 {
        turn
    } else {
        folded
    }) as i64;
    let scaled_coordinate = coordinate.wrapping_mul(4);
    let squared = coordinate.wrapping_mul(scaled_coordinate) >> 32u32;
    let coefficient = SIN_C1.wrapping_add(squared.wrapping_mul(0x12A2_8C60)) >> 32u32;
    let polynomial = SIN_C2.wrapping_add(coefficient.wrapping_mul(squared).wrapping_mul(4))
        >> 32u32;
    (polynomial.wrapping_mul(scaled_coordinate) >> 30u32) & !3i64
}

/// The build's fast cosine: the sine a quarter turn on.
pub open spec fn fpcs_cos_fastest_spec(value: i64) -> i64 {
    fpcs_sin_fastest_spec(clamp_i64(value + PI_OVER_TWO_Q32) as i64)
}

pub fn fpcs_cos_fastest(value: i64) -> (result: i64)
    ensures
        result == fpcs_cos_fastest_spec(value),
{
    fpcs_sin_fastest(saturating_add(value, PI_OVER_TWO_Q32))
}

/// The length of a Q32.32 vector as the build measures it: the fast square
/// root of the saturated sum of the Q32.32 squares.
pub open spec fn native_q32_magnitude_spec(x: i64, z: i64) -> i64 {
    fpcs_sqrt_fastest_spec(
        clamp_i64(q32_mul_spec(x as int, x as int) + q32_mul_spec(z as int, z as int)) as i64,
    )
}

pub fn native_q32_magnitude(x: i64, z: i64) -> (result: i64)
    ensures
        result == native_q32_magnitude_spec(x, z),
{
    fpcs_sqrt_fastest(saturating_add(q32_mul(x, x), q32_mul(z, z)))
}

/// The three-dimensional length, measured the same way.
pub open spec fn native_q32_magnitude_3d_spec(x: i64, y: i64, z: i64) -> i64 {
    fpcs_sqrt_fastest_spec(
        clamp_i64(
            clamp_i64(q32_mul_spec(x as int, x as int) + q32_mul_spec(y as int, y as int))
                + q32_mul_spec(z as int, z as int),
        ) as i64,
    )
}

pub fn native_q32_magnitude_3d(x: i64, y: i64, z: i64) -> (result: i64)
    ensures
        result == native_q32_magnitude_3d_spec(x, y, z),
{
    fpcs_sqrt_fastest(saturating_add(saturating_add(q32_mul(x, x), q32_mul(y, y)), q32_mul(z, z)))
}

/// The bearing of `(dx, dz)` in Q32.32 degrees, clockwise from `+z`, inside a
/// turn; a zero vector, or one too short to measure, bears zero.
pub open spec fn direction_degrees_q32_raw_spec(dx: i64, dz: i64) -> int {
    if dx == 0 && dz == 0 {
        0
    } else {
        let magnitude = native_q32_magnitude_spec(dx, dz);
        if magnitude <= 0 {
            0
        } else {
            let quotient = q32_div_spec(dz as int, magnitude as int);
            let cosine = if quotient < MINUS_Q32_ONE {
                MINUS_Q32_ONE
            } else if quotient > Q32_ONE {
                Q32_ONE
            } else {
                quotient as i64
            };
            let radians = fpcs_acos_fastest_spec(cosine);
            let degrees = q32_mul_spec(radians as int, DEGREES_PER_RADIAN_Q32 as int);
            let degrees = if dx < 0 {
                clamp_i64(FULL_TURN_Q32 - degrees)
            } else {
                degrees
            };
            degrees % (FULL_TURN_Q32 as int)
        }
    }
}

pub fn direction_degrees_q32_raw(dx: i64, dz: i64) -> (result: i64)
    ensures
        result == direction_degrees_q32_raw_spec(dx, dz),
        0 <= result < FULL_TURN_Q32,
{
    if dx == 0 && dz == 0 {
        return 0;
    }
    let magnitude = native_q32_magnitude(dx, dz);
    if magnitude <= 0 {
        return 0;
    }
    let quotient = q32_div(dz, magnitude);
    let cosine = if quotient < -Q32_ONE {
        -Q32_ONE
    } else if quotient > Q32_ONE {
        Q32_ONE
    } else {
        quotient
    };
    let radians = fpcs_acos_fastest(cosine);
    let degrees = q32_mul(radians, DEGREES_PER_RADIAN_Q32);
    let degrees = if dx < 0 {
        saturating_sub(FULL_TURN_Q32, degrees)
    } else {
        degrees
    };
    rem_euclid(degrees, FULL_TURN_Q32)
}

/// The bearing of a Q32.32 vector in millidegrees.
pub fn direction_mdeg_q32_raw(dx: i64, dz: i64) -> (result: i64)
    ensures
        result == degrees_q32_to_mdeg_spec(direction_degrees_q32_raw_spec(dx, dz)),
{
    degrees_q32_to_mdeg(direction_degrees_q32_raw(dx, dz))
}

/// The bearing of a vector in space units, in millidegrees.
pub fn direction_mdeg(dx: i64, dz: i64) -> (result: i64)
    ensures
        result == degrees_q32_to_mdeg_spec(
            direction_degrees_q32_raw_spec(
                space_to_q32_spec(dx as int) as i64,
                space_to_q32_spec(dz as int) as i64,
            ),
        ),
{
    direction_mdeg_q32_raw(space_to_q32(dx), space_to_q32(dz))
}

} // verus!
