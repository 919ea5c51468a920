//! How a run of logic ticks ends: at the fight's time limit, at the first
//! tick whose physics hash differs from a recording's, or once the fight has
//! drained naturally; and, after the run, a recording that went on longer
//! diverges at the tick after the last one run.

use vstd::prelude::*;

use crate::fixed::{gcd, gcd_spec, TIME_UNITS_PER_SECOND};
use crate::kernel::LOGIC_TICK_TIME_UNITS;

verus! {

/// How many seconds a fight lasts at most.
pub const FIGHT_TIME_SECONDS: u64 = 120u64;

/// Why a run ended.
#[derive(Debug, Clone, Copy, PartialEq, Eq, Structural)]
pub enum EndReason {
    ForcedTimeLimit,
    FirstDivergence,
    NaturalModuleDrain,
}

impl EndReason {
    /// The reason's name in a result.
    pub fn name(self) -> (name: &'static str)
        ensures
            name@ == match self {
                EndReason::ForcedTimeLimit => "forced_time_limit"@,
                EndReason::FirstDivergence => "first_divergence"@,
                EndReason::NaturalModuleDrain => "natural_module_drain"@,
            },
    {
        match self {
            EndReason::ForcedTimeLimit => "forced_time_limit",
            EndReason::FirstDivergence => "first_divergence",
            EndReason::NaturalModuleDrain => "natural_module_drain",
        }
    }
}

/// The ticks a fight may last: its seconds in time units, divided by a
/// tick's time units and rounded up.
pub open spec fn max_steps_spec() -> int {
    (FIGHT_TIME_SECONDS * TIME_UNITS_PER_SECOND + LOGIC_TICK_TIME_UNITS - 1) / LOGIC_TICK_TIME_UNITS as int
}

/// The ticks a fight may last.
pub fn max_steps() -> (steps: u64)
    ensures
        steps == max_steps_spec(),
        steps == 2400,
{
    let total = FIGHT_TIME_SECONDS * TIME_UNITS_PER_SECOND;
    (total + LOGIC_TICK_TIME_UNITS - 1) / LOGIC_TICK_TIME_UNITS
}

/// A logic tick's length in seconds, as a reduced fraction: its time units
/// and the time units of a second, each divided by their greatest common
/// divisor.
pub fn logic_step_ratio() -> (ratio: (u32, u32))
    ensures
        ratio.0 == (LOGIC_TICK_TIME_UNITS as nat) / gcd_spec(LOGIC_TICK_TIME_UNITS as nat, TIME_UNITS_PER_SECOND as nat),
        ratio.1 == (TIME_UNITS_PER_SECOND as nat) / gcd_spec(LOGIC_TICK_TIME_UNITS as nat, TIME_UNITS_PER_SECOND as nat),
{
    let divisor = gcd(LOGIC_TICK_TIME_UNITS, TIME_UNITS_PER_SECOND);
    assert(gcd_spec(100, 0) == 100);
    assert(gcd_spec(2000, 100) == 100);
    assert(gcd_spec(100, 2000) == 100);
    ((LOGIC_TICK_TIME_UNITS / divisor) as u32, (TIME_UNITS_PER_SECOND / divisor) as u32)
}

/// Whether the run ends before running the tick after `steps` ticks: at the
/// time limit.
pub fn end_before_tick(steps: u64) -> (reason: Option<EndReason>)
    ensures
        reason == if steps >= max_steps_spec() {
            Some(EndReason::ForcedTimeLimit)
        } else {
            None
        },
{
    if steps >= max_steps() {
        Some(EndReason::ForcedTimeLimit)
    } else {
        None
    }
}

/// Whether two hashes are the same bytes.
pub fn same_hash(left: &Vec<u8>, right: &Vec<u8>) -> (same: bool)
    ensures
        same == (left@ == right@),
{
    if left.len() != right.len() {
        return false;
    }
    let mut i: usize = 0;
    while i < left.len()
        invariant
            i <= left.len(),
            left.len() == right.len(),
            forall|k: int| 0 <= k < i ==> left@[k] == right@[k],
        decreases left.len() - i,
    {
        if left[i] != right[i] {
            return false;
        }
        i = i + 1;
    }
    assert(left@ =~= right@);
    true
}

/// How the run ends after a tick, if it does: compared with a recording, a
/// tick whose physics hash the recording lacks or holds otherwise diverges;
/// else a fight drained naturally ends.
pub open spec fn end_after_tick_spec(
    recorded: Option<Option<Seq<u8>>>,
    simulated: Seq<u8>,
    ready_to_finish: bool,
) -> Option<EndReason> {
    match recorded {
        Some(expected) if expected != Some(simulated) => Some(EndReason::FirstDivergence),
        _ => if ready_to_finish {
            Some(EndReason::NaturalModuleDrain)
        } else {
            None
        },
    }
}

/// How the run ends after a tick, if it does. `recorded` is none without a
/// recording, and otherwise the recording's physics hash for the tick, none
/// when the recording is shorter.
pub fn end_after_tick(recorded: &Option<Option<Vec<u8>>>, simulated: &Vec<u8>, ready_to_finish: bool) -> (reason:
    Option<EndReason>)
    ensures
        reason == end_after_tick_spec(
            match recorded {
                Some(expected) => Some(
                    match expected {
                        Some(hash) => Some(hash@),
                        None => None,
                    },
                ),
                None => None,
            },
            simulated@,
            ready_to_finish,
        ),
{
    match recorded {
        Some(expected) => {
            let matches = match expected {
                Some(hash) => same_hash(hash, simulated),
                None => false,
            };
            if !matches {
                return Some(EndReason::FirstDivergence);
            }
        },
        None => {},
    }
    if ready_to_finish {
        Some(EndReason::NaturalModuleDrain)
    } else {
        None
    }
}

/// The tick a recording longer than the run diverges at, once a run has
/// ended without diverging after `steps` ticks: the tick after the last one
/// run, when the recording holds more ticks than that; none otherwise.
pub fn trailing_divergence(recording_ticks: Option<u32>, steps: u64) -> (tick: Option<u32>)
    ensures
        tick == match recording_ticks {
            Some(count) => if steps < count {
                Some((steps + 1) as u32)
            } else {
                None
            },
            None => None,
        },
{
    match recording_ticks {
        Some(count) => if steps < count as u64 {
            Some((steps + 1) as u32)
        } else {
            None
        },
        None => None,
    }
}

/// A run never lasts beyond the fight's time limit: once it has run the
/// limit's ticks, it ends before the next.
pub proof fn lemma_a_run_ends_by_the_time_limit(steps: u64)
    requires
        steps >= 2400,
    ensures
        (if steps >= max_steps_spec() {
            Some(EndReason::ForcedTimeLimit)
        } else {
            None::<EndReason>
        }) == Some(EndReason::ForcedTimeLimit),
{
}

} // verus!
