//! How an attack is timed and where a burst's projectiles land.
//!
//! Both draw from the attacking team's random stream, so both take the stream
//! and say exactly which draws they make and what follows from them.

use vstd::prelude::*;

use crate::Error;
use crate::fixed::{
    clamp_i64, clamp_int, max_int, native_time_units_to_steps, native_time_units_to_steps_spec,
    q32_div, q32_div_spec, q32_mul, q32_mul_spec, q32_scale, saturating_add, saturating_sub,
    Q32_ONE,
};
use crate::kernel::C0_01_RAW;
use crate::motion::{clamp_magnitude_q32_raw, clamp_magnitude_spec};
use crate::order::{lemma_ordering_keeps_every_value, order_by_key, ordered_by_key, values_of};
use crate::random::{inclusive_draw_spec, GrRandom, RandomState};
use crate::trig::{fpcs_acos_fastest, fpcs_acos_fastest_spec, fpcs_sqrt_fastest, fpcs_sqrt_fastest_spec};

verus! {

/// A whole number of centimetres in Q32.32 metres, by the build's hundredth.
pub open spec fn centimeters_q32(centimeters: int) -> i64 {
    q32_mul_spec(centimeters * q32_scale(), C0_01_RAW as int) as i64
}

/// The offset one round of draws makes: the point `(x, z)` centimetres from
/// the target, pulled in to `clamp` centimetres when it lies farther.
pub open spec fn offset_of_draws(x: int, z: int, clamp: int) -> (i64, i64) {
    clamp_magnitude_spec(centimeters_q32(x), centimeters_q32(z), centimeters_q32(clamp))
}

/// The offsets `count` rounds of draws from `state` make, in order, and the
/// stream after them. A round draws `x` and `z` in `[-radius, radius]`, then
/// the length in `[0, radius - 1]`, all in centimetres.
pub open spec fn drawn_offsets(state: RandomState, radius: i64, count: nat) -> (Seq<(i64, i64)>, RandomState)
    decreases count,
{
    if count == 0 {
        (Seq::empty(), state)
    } else {
        let (earlier, state) = drawn_offsets(state, radius, (count - 1) as nat);
        let (x, state) = inclusive_draw_spec(state, -radius as i64, radius);
        let (z, state) = inclusive_draw_spec(state, -radius as i64, radius);
        let (clamp, state) = inclusive_draw_spec(state, 0, (radius - 1) as i64);
        (earlier.push(offset_of_draws(x as int, z as int, clamp as int)), state)
    }
}

/// The signed angle, in Q32.32 radians, between the line from `source` to
/// `target` and the line from `source` to `target` moved by `offset`; its
/// sign is the side of the build's plane the moved point lies on.
pub open spec fn offset_angle_spec(source: (i64, i64), target: (i64, i64), offset: (i64, i64)) -> i64 {
    let direction_x = clamp_i64(target.0 - source.0);
    let direction_z = clamp_i64(target.1 - source.1);
    let absolute_x = clamp_i64(target.0 + offset.0);
    let absolute_z = clamp_i64(target.1 + offset.1);
    let value_x = clamp_i64(absolute_x - source.0);
    let value_z = clamp_i64(absolute_z - source.1);
    let plane_distance = clamp_i64(
        q32_mul_spec(direction_z, source.0 as int) + q32_mul_spec(clamp_i64(-direction_x), source.1 as int),
    );
    let plane_side = clamp_i64(
        clamp_i64(q32_mul_spec(source.0 as int, absolute_x) + q32_mul_spec(source.1 as int, absolute_z))
            - plane_distance,
    );
    let direction_squared = clamp_i64(
        q32_mul_spec(direction_x, direction_x) + q32_mul_spec(direction_z, direction_z),
    );
    let value_squared = clamp_i64(q32_mul_spec(value_x, value_x) + q32_mul_spec(value_z, value_z));
    let magnitude_product = if clamp_i64(direction_squared + value_squared) < 0x1_6A09_0000_0001 {
        fpcs_sqrt_fastest_spec(q32_mul_spec(direction_squared, value_squared) as i64) as int
    } else {
        q32_mul_spec(
            fpcs_sqrt_fastest_spec(direction_squared as i64) as int,
            fpcs_sqrt_fastest_spec(value_squared as i64) as int,
        )
    };
    let dot = clamp_i64(q32_mul_spec(direction_x, value_x) + q32_mul_spec(direction_z, value_z));
    let cosine = clamp_int(q32_div_spec(dot, magnitude_product), -Q32_ONE as int, Q32_ONE as int);
    let angle = fpcs_acos_fastest_spec(cosine as i64);
    if plane_side > 0 {
        angle
    } else {
        -angle as i64
    }
}

/// The signed angle of `offset` as a burst of two weapons orders it.
pub fn offset_angle(source: (i64, i64), target: (i64, i64), offset: (i64, i64)) -> (angle: i64)
    ensures
        angle == offset_angle_spec(source, target, offset),
{
    let (source_x, source_z) = source;
    let (target_x, target_z) = target;
    let (offset_x, offset_z) = offset;
    let direction_x = saturating_sub(target_x, source_x);
    let direction_z = saturating_sub(target_z, source_z);
    let absolute_x = saturating_add(target_x, offset_x);
    let absolute_z = saturating_add(target_z, offset_z);
    let value_x = saturating_sub(absolute_x, source_x);
    let value_z = saturating_sub(absolute_z, source_z);
    let plane_distance = saturating_add(
        q32_mul(direction_z, source_x),
        q32_mul(saturating_sub(0, direction_x), source_z),
    );
    let plane_side = saturating_sub(
        saturating_add(q32_mul(source_x, absolute_x), q32_mul(source_z, absolute_z)),
        plane_distance,
    );
    let direction_squared = saturating_add(q32_mul(direction_x, direction_x), q32_mul(direction_z, direction_z));
    let value_squared = saturating_add(q32_mul(value_x, value_x), q32_mul(value_z, value_z));
    let magnitude_product = if saturating_add(direction_squared, value_squared) < 0x1_6A09_0000_0001i64 {
        fpcs_sqrt_fastest(q32_mul(direction_squared, value_squared))
    } else {
        q32_mul(fpcs_sqrt_fastest(direction_squared), fpcs_sqrt_fastest(value_squared))
    };
    let dot = saturating_add(q32_mul(direction_x, value_x), q32_mul(direction_z, value_z));
    let quotient = q32_div(dot, magnitude_product);
    let cosine = if quotient < -Q32_ONE {
        -Q32_ONE
    } else if quotient > Q32_ONE {
        Q32_ONE
    } else {
        quotient
    };
    let angle = fpcs_acos_fastest(cosine);
    if plane_side > 0 {
        angle
    } else {
        -angle
    }
}

/// The two weapons' shares of an ordered burst handed out in turn: the first
/// weapon takes the upper half from its end, the second the lower half from
/// its end.
pub open spec fn alternated(ordered: Seq<(i64, i64)>) -> Seq<(i64, i64)> {
    let count = ordered.len() as int;
    Seq::new(
        ordered.len(),
        |k: int|
            if k % 2 == 0 {
                ordered[count - 1 - k / 2]
            } else {
                ordered[count / 2 - 1 - k / 2]
            },
    )
}

/// Where a two-weapon burst sends its shots: the drawn offsets ordered by
/// their angle about the line of fire, then handed to the weapons in turn.
pub open spec fn two_weapon_order(source: (i64, i64), target: (i64, i64), drawn: Seq<(i64, i64)>) -> Seq<(i64, i64)> {
    alternated(values_of(ordered_by_key(drawn.map_values(|offset: (i64, i64)| (offset_angle_spec(source, target, offset), offset)))))
}

/// An ordered burst handed to two weapons in turn.
fn alternate(ordered: &Vec<(i64, i64)>) -> (result: Vec<(i64, i64)>)
    ensures
        result@ == alternated(ordered@),
{
    let count = ordered.len();
    let half = count / 2;
    let mut result: Vec<(i64, i64)> = Vec::new();
    let mut k: usize = 0;
    while k < count
        invariant
            k <= count,
            count == ordered.len(),
            half == count / 2,
            result@.len() == k,
            forall|j: int| 0 <= j < k ==> result@[j] == alternated(ordered@)[j],
        decreases count - k,
    {
        if k % 2 == 0 {
            result.push(ordered[count - 1 - k / 2]);
        } else {
            result.push(ordered[half - 1 - k / 2]);
        }
        k = k + 1;
    }
    assert(result@ =~= alternated(ordered@));
    result
}

/// Where a burst of `count` projectiles, fired from `source` at a target
/// standing at `target`, lands around it: nowhere off it for a radius of
/// zero; otherwise three draws of `random` for each, in centimetres, and
/// for a skill of two weapons shooting at least two, the offsets ordered by
/// angle and handed to the weapons in turn.
///
/// A radius is zero or at least a centimetre, which the unit's configuration
/// holds; one whose centimetres leave `i32` is refused.
pub fn projectile_target_offsets(
    random: &mut GrRandom,
    weapon_count: u32,
    source: (i64, i64),
    target: (i64, i64),
    count: usize,
    radius: i64,
) -> (result: Result<Vec<(i64, i64)>, Error>)
    requires
        radius == 0 || radius >= 10,
    ensures
        radius == 0 ==> (result matches Ok(offsets) && offsets@ == Seq::new(count as nat, |k: int| (0i64, 0i64))
            && final(random)@ == old(random)@),
        radius != 0 && radius / 10 > i32::MAX ==> (result matches Err(error) && error.message@
            == "projectile target offset radius exceeds native range"@ && final(random)@ == old(random)@),
        radius != 0 && radius / 10 <= i32::MAX ==> ({
            let (drawn, after) = drawn_offsets(old(random)@, (radius / 10) as i64, count as nat);
            &&& result matches Ok(offsets) && offsets@ == if weapon_count == 2 && count >= 2 {
                two_weapon_order(source, target, drawn)
            } else {
                drawn
            }
            &&& final(random)@ == after
        }),
{
    let mut offsets: Vec<(i64, i64)> = Vec::new();
    if radius == 0 {
        let mut k: usize = 0;
        while k < count
            invariant
                k <= count,
                offsets@ =~= Seq::new(k as nat, |j: int| (0i64, 0i64)),
            decreases count - k,
        {
            offsets.push((0, 0));
            k = k + 1;
        }
        return Ok(offsets);
    }
    let centimeters = radius / 10;
    if centimeters > i32::MAX as i64 {
        return Err(Error::new(String::from_str("projectile target offset radius exceeds native range")));
    }
    let centimeters = centimeters as i32;
    let ghost start = random@;
    let mut k: usize = 0;
    while k < count
        invariant
            k <= count,
            1 <= centimeters,
            centimeters == radius / 10,
            (offsets@, random@) == drawn_offsets(start, centimeters as i64, k as nat),
        decreases count - k,
    {
        let x = random.next_between_inclusive(-centimeters, centimeters);
        let z = random.next_between_inclusive(-centimeters, centimeters);
        let clamp = random.next_between_inclusive(0, centimeters - 1);
        let x_q32 = q32_mul((x as i64) * 0x1_0000_0000i64, C0_01_RAW);
        let z_q32 = q32_mul((z as i64) * 0x1_0000_0000i64, C0_01_RAW);
        let clamp_q32 = q32_mul((clamp as i64) * 0x1_0000_0000i64, C0_01_RAW);
        offsets.push(clamp_magnitude_q32_raw(x_q32, z_q32, clamp_q32));
        k = k + 1;
    }
    if weapon_count == 2 && count >= 2 {
        let ghost drawn = offsets@;
        let mut keyed: Vec<(i64, (i64, i64))> = Vec::new();
        let mut k: usize = 0;
        while k < offsets.len()
            invariant
                k <= offsets.len(),
                keyed@ =~= offsets@.take(k as int).map_values(
                    |offset: (i64, i64)| (offset_angle_spec(source, target, offset), offset),
                ),
            decreases offsets.len() - k,
        {
            let offset = offsets[k];
            keyed.push((offset_angle(source, target, offset), offset));
            k = k + 1;
        }
        assert(offsets@.take(offsets.len() as int) =~= offsets@);
        let ordered = order_by_key(&keyed);
        let mut plain: Vec<(i64, i64)> = Vec::new();
        let mut k: usize = 0;
        while k < ordered.len()
            invariant
                k <= ordered.len(),
                plain@ =~= ordered@.take(k as int).map_values(|entry: (i64, (i64, i64))| entry.1),
            decreases ordered.len() - k,
        {
            plain.push(ordered[k].1);
            k = k + 1;
        }
        assert(ordered@.take(ordered.len() as int) =~= ordered@);
        assert(plain@ =~= values_of(ordered@));
        return Ok(alternate(&plain));
    }
    Ok(offsets)
}

/// The interval an attack waits, in ticks, when the stagger drew `sample`:
/// the interval's ticks moved by the sample, and at least one.
pub open spec fn staggered_interval(interval_steps: int, sample: int) -> int {
    max_int(clamp_i64(clamp_int(interval_steps, 0, i64::MAX as int) + sample), 1)
}

/// The stagger's range for an offset of `offset_steps` ticks: the offset,
/// held inside `i32`.
pub open spec fn stagger_range(offset_steps: int) -> int {
    clamp_int(offset_steps, 0, i32::MAX as int)
}

/// When an attack that may come at `step` next comes, and the interval it
/// waited: the attack's interval in ticks, staggered by a draw of `random` in
/// `(-offset, offset)` ticks when its offset covers a tick, and at least one
/// tick.
pub fn sample_attack_interval(
    random: &mut GrRandom,
    interval_time_units: u64,
    offset_time_units: u64,
    step: u64,
) -> (result: (u64, u64))
    ensures
        ({
            let interval_steps = native_time_units_to_steps_spec(interval_time_units as int);
            let offset_steps = native_time_units_to_steps_spec(offset_time_units as int);
            let (sample, after) = inclusive_draw_spec(
                old(random)@,
                (1 - stagger_range(offset_steps)) as i64,
                (stagger_range(offset_steps) - 1) as i64,
            );
            &&& offset_steps == 0 ==> final(random)@ == old(random)@ && result.1 == staggered_interval(
                interval_steps,
                0,
            )
            &&& offset_steps != 0 ==> final(random)@ == after && result.1 == staggered_interval(
                interval_steps,
                sample as int,
            )
            &&& result.0 == clamp_int(step + result.1, 0, u64::MAX as int)
        }),
{
    let interval_steps = native_time_units_to_steps(interval_time_units);
    let offset_steps = native_time_units_to_steps(offset_time_units);
    let sample: i64 = if offset_steps == 0 {
        0
    } else {
        let range: i32 = if offset_steps > i32::MAX as u64 {
            i32::MAX
        } else {
            offset_steps as i32
        };
        random.next_in_range(range) as i64
    };
    let ticks: i64 = if interval_steps > i64::MAX as u64 {
        i64::MAX
    } else {
        interval_steps as i64
    };
    let staggered = saturating_add(ticks, sample);
    let sampled: u64 = if staggered < 1 {
        1
    } else {
        staggered as u64
    };
    let next = if sampled > u64::MAX - step {
        u64::MAX
    } else {
        step + sampled
    };
    (next, sampled)
}

/// Two sequences taken in turn, the first first: the first's elements at
/// the even places, the second's at the odd.
pub open spec fn in_turn<T>(first: Seq<T>, second: Seq<T>) -> Seq<T> {
    Seq::new(first.len() + second.len(), |k: int| if k % 2 == 0 { first[k / 2] } else { second[k / 2] })
}

/// Taking two sequences in turn keeps every element of both.
proof fn lemma_in_turn_keeps_both<T>(first: Seq<T>, second: Seq<T>)
    requires
        second.len() <= first.len() <= second.len() + 1,
    ensures
        in_turn(first, second).to_multiset() == first.to_multiset().add(second.to_multiset()),
    decreases first.len() + second.len(),
{
    broadcast use vstd::multiset::group_multiset_axioms;

    if first.len() == 0 {
        assert(in_turn(first, second) =~= first);
        assert(second =~= first);
        vstd::seq_lib::lemma_multiset_commutative(first, second);
        assert(first + second =~= first);
    } else {
        let head = seq![first[0]];
        let rest = first.drop_first();
        lemma_in_turn_keeps_both(second, rest);
        assert(in_turn(first, second) =~= head + in_turn(second, rest));
        vstd::seq_lib::lemma_multiset_commutative(head, in_turn(second, rest));
        assert(first =~= head + rest);
        vstd::seq_lib::lemma_multiset_commutative(head, rest);
        assert(in_turn(first, second).to_multiset() =~= first.to_multiset().add(second.to_multiset()));
    }
}

/// Handing an ordered burst to two weapons in turn fires every offset it
/// holds, as many times as it holds it.
pub proof fn lemma_alternation_keeps_every_offset(ordered: Seq<(i64, i64)>)
    ensures
        alternated(ordered).to_multiset() == ordered.to_multiset(),
{
    broadcast use vstd::multiset::group_multiset_axioms;

    let count = ordered.len() as int;
    let half = count / 2;
    let lower = ordered.subrange(0, half);
    let upper = ordered.subrange(half, count);
    assert(alternated(ordered) =~= in_turn(upper.reverse(), lower.reverse()));
    lemma_in_turn_keeps_both(upper.reverse(), lower.reverse());
    upper.lemma_reverse_to_multiset();
    lower.lemma_reverse_to_multiset();
    assert(ordered =~= lower + upper);
    vstd::seq_lib::lemma_multiset_commutative(lower, upper);
    assert(alternated(ordered).to_multiset() =~= ordered.to_multiset());
}

/// A burst of two weapons fires every offset drawn for it, each as many
/// times as it was drawn, only in another order.
pub proof fn lemma_a_two_weapon_burst_fires_every_drawn_offset(
    source: (i64, i64),
    target: (i64, i64),
    drawn: Seq<(i64, i64)>,
)
    ensures
        two_weapon_order(source, target, drawn).to_multiset() == drawn.to_multiset(),
{
    let keyed = drawn.map_values(|offset: (i64, i64)| (offset_angle_spec(source, target, offset), offset));
    lemma_ordering_keeps_every_value(keyed);
    assert(values_of(keyed) =~= drawn);
    lemma_alternation_keeps_every_offset(values_of(ordered_by_key(keyed)));
}

} // verus!
