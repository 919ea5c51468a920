//! The fields every source of corrections shares, and what each one writes.
//!
//! Officers, technologies, equipment and energy-tower skills answer one
//! interface, so one field means the same thing whichever of them wrote it.
//! A field that corrects a number the fight derives becomes a correction in
//! the channel a recording keeps that number in.

use vstd::prelude::*;

use crate::data::{Channel, Correction, Index};
use crate::fixed::{clamp_i64, div_trunc, q32_scale, saturating_mul};

verus! {

/// Space units to the metre, the quantum a distance is held in.
pub const METERS: i64 = 1000i64;

/// Time units to the second, the quantum a time is held in.
pub const SECONDS: i64 = 2000i64;

/// A Q32.32 value in `quantum`s, truncated toward zero, or `i64::MAX` where
/// it does not fit.
pub open spec fn fixed_to_spec(raw: int, quantum: int) -> int {
    let scaled = div_trunc(raw * quantum, q32_scale());
    if i64::MIN <= scaled <= i64::MAX {
        scaled
    } else {
        i64::MAX as int
    }
}

/// A Q32.32 value in its own unit, in the quantized units the fight holds.
///
/// Every value in the tables is a whole number of metres or a tenth of a
/// second, so this is exact for them; anything else truncates toward zero.
pub fn fixed_to(raw: i64, quantum: i64) -> (result: i64)
    ensures
        result == fixed_to_spec(raw as int, quantum as int),
{
    proof {
        crate::fixed::lemma_i64_product_fits_i128(raw, quantum);
    }
    let scaled: i128 = (raw as i128) * (quantum as i128) / 0x1_0000_0000i128;
    if i64::MIN as i128 <= scaled && scaled <= i64::MAX as i128 {
        scaled as i64
    } else {
        i64::MAX
    }
}

/// What one source writes onto a unit, as its own table read it. Zero and
/// absent mean the same thing.
#[derive(Debug, Clone, Copy, PartialEq, Eq, Structural)]
pub struct Fields {
    pub life_rate: Option<i64>,
    pub damage_rate: Option<i64>,
    pub attack_range_rate: Option<i64>,
    pub attack_interval_rate: Option<i64>,
    pub attack_range_value: Option<i64>,
    pub attack_interval_value: Option<i64>,
    pub speed_value: Option<i64>,
}

/// A rate that can be routed by its sign: its negation is an `i64` too.
pub open spec fn rate_routable(value: Option<i64>) -> bool {
    value != Some(i64::MIN)
}

/// Whether every rate of these fields can be routed by its sign.
pub open spec fn fields_routable(fields: Fields) -> bool {
    &&& rate_routable(fields.life_rate)
    &&& rate_routable(fields.damage_rate)
    &&& rate_routable(fields.attack_range_rate)
    &&& rate_routable(fields.attack_interval_rate)
}

/// What a rate writes: nothing for zero or absent, an enhancement for a
/// positive rate and an impairment for a negative one.
pub open spec fn rate_written(value: Option<i64>, channel: Channel, index: Index) -> Seq<
    (Channel, Index, Correction),
> {
    match value {
        Some(raw) => if raw > 0 {
            seq![(channel, index, Correction::Rate { add: raw, reduce: 0 })]
        } else if raw < 0 {
            seq![(channel, index, Correction::Rate { add: 0, reduce: (-raw) as i64 })]
        } else {
            Seq::empty()
        },
        None => Seq::empty(),
    }
}

/// What a value writes, once converted: nothing for zero or absent.
pub open spec fn value_written(value: Option<i64>, channel: Channel, index: Index, converted: int) -> Seq<
    (Channel, Index, Correction),
> {
    match value {
        Some(raw) => if raw != 0 {
            seq![(channel, index, Correction::Value(converted as i64))]
        } else {
            Seq::empty()
        },
        None => Seq::empty(),
    }
}

/// The value an optional field holds, zero when absent.
pub open spec fn held(value: Option<i64>) -> int {
    match value {
        Some(raw) => raw as int,
        None => 0,
    }
}

/// Everything the fields write, in the order the fight applies them: the
/// rates of damage, interval, range and life, then the range and interval
/// values, then the movement speed.
pub open spec fn corrections_spec(fields: Fields) -> Seq<(Channel, Index, Correction)> {
    rate_written(fields.damage_rate, Channel::Skill, Index::AttackDamage)
        + rate_written(fields.attack_interval_rate, Channel::Skill, Index::AttackInterval)
        + rate_written(fields.attack_range_rate, Channel::Skill, Index::AttackRange)
        + rate_written(fields.life_rate, Channel::Unit, Index::MaxLife)
        + value_written(
        fields.attack_range_value,
        Channel::Skill,
        Index::AttackRange,
        fixed_to_spec(held(fields.attack_range_value), METERS as int),
    ) + value_written(
        fields.attack_interval_value,
        Channel::Skill,
        Index::AttackInterval,
        fixed_to_spec(held(fields.attack_interval_value), SECONDS as int),
    ) + value_written(
        fields.speed_value,
        Channel::Unit,
        Index::MoveSpeed,
        clamp_i64(held(fields.speed_value) * METERS),
    )
}

/// Appends what one rate writes.
fn push_rate(
    written: &mut Vec<(Channel, Index, Correction)>,
    value: Option<i64>,
    channel: Channel,
    index: Index,
)
    requires
        rate_routable(value),
    ensures
        final(written)@ == old(written)@ + rate_written(value, channel, index),
{
    match value {
        Some(raw) => {
            if raw > 0 {
                written.push((channel, index, Correction::Rate { add: raw, reduce: 0 }));
            } else if raw < 0 {
                written.push((channel, index, Correction::Rate { add: 0, reduce: -raw }));
            }
        },
        None => {},
    }
    assert(written@ =~= old(written)@ + rate_written(value, channel, index));
}

/// Appends what one converted value writes.
fn push_value(
    written: &mut Vec<(Channel, Index, Correction)>,
    value: Option<i64>,
    channel: Channel,
    index: Index,
    converted: i64,
)
    ensures
        final(written)@ == old(written)@ + value_written(value, channel, index, converted as int),
{
    match value {
        Some(raw) => {
            if raw != 0 {
                written.push((channel, index, Correction::Value(converted)));
            }
        },
        None => {},
    }
    assert(written@ =~= old(written)@ + value_written(value, channel, index, converted as int));
}

/// What the fields write, in the channels the recording keeps them in.
///
/// A rate is routed by its sign: a positive rate enhances and a negative one
/// impairs. A value in metres or seconds reaches the fight in the number's
/// own quantized units, and a plain integer of movement is whole metres.
pub fn corrections(fields: Fields) -> (written: Vec<(Channel, Index, Correction)>)
    requires
        fields_routable(fields),
    ensures
        written@ == corrections_spec(fields),
{
    let mut written: Vec<(Channel, Index, Correction)> = Vec::new();
    push_rate(&mut written, fields.damage_rate, Channel::Skill, Index::AttackDamage);
    push_rate(&mut written, fields.attack_interval_rate, Channel::Skill, Index::AttackInterval);
    push_rate(&mut written, fields.attack_range_rate, Channel::Skill, Index::AttackRange);
    push_rate(&mut written, fields.life_rate, Channel::Unit, Index::MaxLife);
    let range = match fields.attack_range_value {
        Some(raw) => raw,
        None => 0,
    };
    push_value(&mut written, fields.attack_range_value, Channel::Skill, Index::AttackRange, fixed_to(range, METERS));
    let interval = match fields.attack_interval_value {
        Some(raw) => raw,
        None => 0,
    };
    push_value(
        &mut written,
        fields.attack_interval_value,
        Channel::Skill,
        Index::AttackInterval,
        fixed_to(interval, SECONDS),
    );
    let speed = match fields.speed_value {
        Some(raw) => raw,
        None => 0,
    };
    push_value(&mut written, fields.speed_value, Channel::Unit, Index::MoveSpeed, saturating_mul(speed, METERS));
    written
}

/// Why a field that corrects a number the fight does not derive is refused.
pub const VALUE_ELSEWHERE: &'static str = "no number this simulator derives is the one it corrects";

/// Why a splash radius is refused.
pub const SPLASH: &'static str = "no number this simulator derives is a splash radius";

/// Why a kill-counting field is refused.
pub const KILLS: &'static str = "no mechanism here counts a unit's kills";

/// Why a projectile's own number is refused.
pub const PROJECTILE: &'static str = "no mechanism here reads a projectile's own numbers";

} // verus!
