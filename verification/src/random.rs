//! The build's `RanState`: xoshiro256** with its own seeding, and the integer
//! projection the fight draws formation jitter and attack staggers from.

use vstd::prelude::*;

verus! {

/// The generator's four words.
pub type RandomState = (u64, u64, u64, u64);

/// `value` rotated left by `bits`, `0 < bits < 64`.
pub open spec fn rotate_left_spec(value: u64, bits: u64) -> u64 {
    (value << bits) | (value >> ((64 - bits) as u64))
}

fn rotate_left(value: u64, bits: u64) -> (result: u64)
    requires
        0 < bits < 64,
    ensures
        result == rotate_left_spec(value, bits),
{
    (value << bits) | (value >> (64 - bits))
}

/// What one draw answers: xoshiro256**'s scrambled second word.
pub open spec fn output_spec(state: RandomState) -> u64 {
    rotate_left_spec(state.1.wrapping_mul(5), 7).wrapping_mul(9)
}

/// The state after one draw.
pub open spec fn step_spec(state: RandomState) -> RandomState {
    let (s0, s1, s2, s3) = state;
    let t02 = s2 ^ s0;
    let t31 = s3 ^ s1;
    (s0 ^ t31, t02 ^ s1, t02 ^ (s1 << 17u64), rotate_left_spec(t31, 45))
}

/// The state after `count` draws.
pub open spec fn advance_spec(state: RandomState, count: nat) -> RandomState
    decreases count,
{
    if count == 0 {
        state
    } else {
        advance_spec(step_spec(state), (count - 1) as nat)
    }
}

/// A seeded generator: the seed and `255` in its first two words, sixteen draws
/// discarded.
pub open spec fn seeded_spec(seed: u64) -> RandomState {
    advance_spec((seed, 255, 0, 0), 16)
}

/// The smallest power of two, doubling from `power`, that is at least `range`.
pub open spec fn covering_power_of_two(range: nat, power: nat) -> nat
    decreases range / power,
    when power >= 1
    via covering_power_of_two_decreases
{
    if power >= range {
        power
    } else {
        covering_power_of_two(range, 2 * power)
    }
}

#[via_fn]
proof fn covering_power_of_two_decreases(range: nat, power: nat) {
    if power >= 1 && power < range {
        vstd::arithmetic::div_mod::lemma_div_denominator(range as int, power as int, 2);
        vstd::arithmetic::div_mod::lemma_div_is_ordered(power as int, range as int, power as int);
        vstd::arithmetic::div_mod::lemma_div_by_self(power as int);
    }
}

/// How many draws a sample may take before the projection gives up and reads
/// zero, which is always inside the range.
pub const DRAW_LIMIT: u64 = 0xffff_ffff_ffff_ffffu64;

/// The first draw that falls inside `[0, range]` once masked, and the state
/// after it, trying at most `fuel` draws; with none left it reads zero.
pub open spec fn masked_draw_spec(state: RandomState, mask: u64, range: u64, fuel: nat) -> (u64, RandomState)
    decreases fuel,
{
    if fuel == 0 {
        (0, state)
    } else {
        let projected = output_spec(state) & mask;
        if projected <= range {
            (projected, step_spec(state))
        } else {
            masked_draw_spec(step_spec(state), mask, range, (fuel - 1) as nat)
        }
    }
}

/// A draw in `[low, high]`, and the state after it: the range is masked to the
/// power of two that covers it, and a masked draw past it is thrown away.
pub open spec fn inclusive_draw_spec(state: RandomState, low: i64, high: i64) -> (i64, RandomState) {
    let range = (high - low) as u64;
    let mask = (covering_power_of_two(range as nat, 1) - 1) as u64;
    let (projected, after) = masked_draw_spec(state, mask, range, DRAW_LIMIT as nat);
    ((low + projected) as i64, after)
}

/// The generator.
#[derive(Debug, Clone, Copy)]
pub struct GrRandom {
    s0: u64,
    s1: u64,
    s2: u64,
    s3: u64,
}

impl View for GrRandom {
    type V = RandomState;

    closed spec fn view(&self) -> RandomState {
        (self.s0, self.s1, self.s2, self.s3)
    }
}

impl GrRandom {
    pub fn new(seed: u64) -> (random: Self)
        ensures
            random@ == seeded_spec(seed),
    {
        let mut random = GrRandom { s0: seed, s1: 255, s2: 0, s3: 0 };
        let mut drawn: u64 = 0;
        while drawn < 16
            invariant
                drawn <= 16,
                advance_spec(random@, (16 - drawn) as nat) == seeded_spec(seed),
            decreases 16 - drawn,
        {
            random.next_u64();
            drawn = drawn + 1;
        }
        random
    }

    /// One draw.
    pub fn next_u64(&mut self) -> (result: u64)
        ensures
            result == output_spec(old(self)@),
            final(self)@ == step_spec(old(self)@),
    {
        let s0 = self.s0;
        let s1 = self.s1;
        let s2 = self.s2;
        let s3 = self.s3;
        let result = rotate_left(s1.wrapping_mul(5), 7).wrapping_mul(9);
        let t02 = s2 ^ s0;
        let t31 = s3 ^ s1;
        self.s0 = s0 ^ t31;
        self.s1 = t02 ^ s1;
        self.s2 = t02 ^ (s1 << 17u64);
        self.s3 = rotate_left(t31, 45);
        result
    }

    /// A draw in `[low, high]`.
    pub fn next_inclusive(&mut self, low: i64, high: i64) -> (result: i64)
        requires
            low <= high,
            high - low <= 0x8000_0000_0000_0000,
        ensures
            (result, final(self)@) == inclusive_draw_spec(old(self)@, low, high),
            low <= result <= high,
    {
        let range: u64 = ((high as i128) - (low as i128)) as u64;
        let mut power: u64 = 1;
        let ghost mut exponent: nat = 0;
        proof {
            vstd::arithmetic::power2::lemma2_to64();
            vstd::arithmetic::power2::lemma2_to64_rest();
        }
        while power < range
            invariant
                1 <= power <= 0x8000_0000_0000_0000,
                power == vstd::arithmetic::power2::pow2(exponent),
                vstd::arithmetic::power2::pow2(63) == 0x8000_0000_0000_0000,
                range <= 0x8000_0000_0000_0000,
                covering_power_of_two(range as nat, power as nat) == covering_power_of_two(
                    range as nat,
                    1,
                ),
            decreases 0x1_0000_0000_0000_0000 - power,
        {
            proof {
                if exponent >= 63 {
                    if exponent > 63 {
                        vstd::arithmetic::power2::lemma_pow2_strictly_increases(63, exponent);
                    }
                }
                vstd::arithmetic::power2::lemma_pow2_unfold(exponent + 1);
                if exponent + 1 < 63 {
                    vstd::arithmetic::power2::lemma_pow2_strictly_increases(exponent + 1, 63);
                }
            }
            power = power * 2;
            proof {
                exponent = exponent + 1;
            }
        }
        assert(covering_power_of_two(range as nat, power as nat) == power);
        let mask = power - 1;
        let ghost start = self@;
        let mut fuel: u64 = DRAW_LIMIT;
        while fuel > 0
            invariant
                low <= high,
                high - low <= 0x8000_0000_0000_0000,
                range == high - low,
                mask == covering_power_of_two(range as nat, 1) - 1,
                start == old(self)@,
                masked_draw_spec(self@, mask, range, fuel as nat) == masked_draw_spec(
                    start,
                    mask,
                    range,
                    DRAW_LIMIT as nat,
                ),
            decreases fuel,
        {
            let projected = self.next_u64() & mask;
            if projected <= range {
                return ((low as i128) + (projected as i128)) as i64;
            }
            fuel = fuel - 1;
        }
        low
    }

    /// A draw in `[low, high]` of the build's 32-bit range.
    pub fn next_between_inclusive(&mut self, low: i32, high: i32) -> (result: i32)
        requires
            low <= high,
        ensures
            (result as i64, final(self)@) == inclusive_draw_spec(old(self)@, low as i64, high as i64),
            low <= result <= high,
    {
        self.next_inclusive(low as i64, high as i64) as i32
    }

    /// A draw in `(-range, range)`: `RanState.Range`, which the jitter and the
    /// stagger are drawn with.
    pub fn next_in_range(&mut self, range: i32) -> (result: i32)
        requires
            range > 0,
        ensures
            (result as i64, final(self)@) == inclusive_draw_spec(
                old(self)@,
                (1 - range) as i64,
                (range - 1) as i64,
            ),
            1 - range <= result <= range - 1,
    {
        self.next_inclusive(1 - range as i64, range as i64 - 1) as i32
    }
}

} // verus!
