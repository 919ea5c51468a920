//! The fight's own small rules: which avoidance layers a unit sits on, where
//! the avoidance world's origin is, which units a hit can touch, how a team
//! is named, who won, and the numbers a result reports.

use vstd::prelude::*;

use crate::Error;
use crate::fixed::{clamp_i64, saturating_add, saturating_mul, space_to_q32, space_to_q32_spec};
use crate::rules::{AttackTargets, RvoSize, UnitConfig, UnitDomain};

verus! {

/// How high a flying unit flies, in space units.
pub const AIR_UNIT_HEIGHT: i64 = 70_000i64;

/// Where the avoidance world's origin is, in Q32.32 metres: 400 metres along
/// each axis.
pub const RVO_SIMULATOR_ORIGIN_OFFSET_Q32: i64 = 1_717_986_918_400i64;

/// A hundredth, in Q32.32: the build's constant, not the rational rounding.
pub const C0_01_RAW: i64 = 0x028F_5C28i64;

/// Time units a logic tick lasts.
pub const LOGIC_TICK_TIME_UNITS: u64 = 100u64;

/// A point of the avoidance world, in Q32.32 metres.
#[derive(Debug, Clone, Copy, PartialEq, Eq, Structural)]
pub struct FixedVec2 {
    pub x: i64,
    pub y: i64,
}

/// The layer a moving unit of `collider_priority` sits on, and the layers it
/// avoids: its own and every higher one below the top bit.
///
/// A priority `p` sits on bit `2p - 2`; the mask is that bit and every bit
/// above it up to bit 30, which is `2^31` less the layer.
pub fn movable_rvo_collision_masks(collider_priority: i32) -> (masks: (u32, u32))
    requires
        1 <= collider_priority <= 16,
    ensures
        masks.0 == 1u32 << ((2 * collider_priority - 2) as u32),
        masks.1 == 0x8000_0000u32 - masks.0,
{
    let layer_index: u32 = (collider_priority * 2 - 2) as u32;
    let layer: u32 = 1u32 << layer_index;
    let next: u32 = layer_index + 1;
    let higher: u32 = if layer_index < 30 {
        0x7fff_ffffu32 & (!0u32 << next)
    } else {
        0
    };
    assert((layer | higher) == 0x8000_0000u32 - layer) by (bit_vector)
        requires
            layer_index <= 30,
            next == layer_index + 1,
            layer == 1u32 << layer_index,
            higher == if layer_index < 30 {
                0x7fff_ffffu32 & (!0u32 << next)
            } else {
                0u32
            },
    ;
    (layer, layer | higher)
}

/// The layer an immovable unit of `collider_priority` sits on, bit `2p - 1`,
/// and no layer it avoids.
pub fn immovable_rvo_collision_masks(collider_priority: i32) -> (masks: (u32, u32))
    requires
        1 <= collider_priority <= 16,
    ensures
        masks == (1u32 << ((2 * collider_priority - 1) as u32), 0u32),
{
    let shift: u32 = (collider_priority * 2 - 1) as u32;
    (1u32 << shift, 0)
}

/// A fight position in the avoidance world, whose origin is offset by 400
/// metres along each axis; saturated at the bounds of `i64`.
pub fn rvo_position(x_q32: i64, z_q32: i64) -> (position: FixedVec2)
    ensures
        position.x == clamp_i64(x_q32 + RVO_SIMULATOR_ORIGIN_OFFSET_Q32),
        position.y == clamp_i64(z_q32 + RVO_SIMULATOR_ORIGIN_OFFSET_Q32),
{
    FixedVec2 {
        x: saturating_add(x_q32, RVO_SIMULATOR_ORIGIN_OFFSET_Q32),
        y: saturating_add(z_q32, RVO_SIMULATOR_ORIGIN_OFFSET_Q32),
    }
}

/// Which units a hit can touch.
#[derive(Debug, Clone, Copy, PartialEq, Eq, Structural)]
pub enum Reach {
    /// The attacker's own targets: ground, air or both.
    Targets(AttackTargets),
    /// One domain only: a dual-domain hit narrowed to its actual target's.
    Domain(UnitDomain),
}

/// Whether a hit of this reach touches a unit of this domain.
pub open spec fn touches_spec(reach: Reach, domain: UnitDomain) -> bool {
    match reach {
        Reach::Targets(targets) => match domain {
            UnitDomain::Ground => targets.ground,
            UnitDomain::Air => targets.air,
        },
        Reach::Domain(only) => only == domain,
    }
}

impl Reach {
    /// Whether a hit of this reach touches a unit of this domain.
    pub fn touches(self, domain: UnitDomain) -> (result: bool)
        ensures
            result == touches_spec(self, domain),
    {
        match (self, domain) {
            (Reach::Targets(targets), UnitDomain::Ground) => targets.ground,
            (Reach::Targets(targets), UnitDomain::Air) => targets.air,
            (Reach::Domain(UnitDomain::Ground), UnitDomain::Ground) | (
                Reach::Domain(UnitDomain::Air),
                UnitDomain::Air,
            ) => true,
            (Reach::Domain(_), _) => false,
        }
    }
}

/// How a team is named: team 0 is blue and every other is red.
pub open spec fn team_name_spec(team: u32) -> &'static str {
    if team == 0 {
        "blue"
    } else {
        "red"
    }
}

/// How a team is named in a result.
pub fn team_name(team: u32) -> (name: &'static str)
    ensures
        name == team_name_spec(team),
{
    if team == 0 {
        "blue"
    } else {
        "red"
    }
}

/// How high above the ground a unit of this domain stands.
pub fn unit_height(domain: UnitDomain) -> (height: i64)
    ensures
        height == (match domain {
            UnitDomain::Ground => 0,
            UnitDomain::Air => AIR_UNIT_HEIGHT,
        }),
{
    match domain {
        UnitDomain::Ground => 0,
        UnitDomain::Air => AIR_UNIT_HEIGHT,
    }
}

/// One unit of a finished fight: its team, its type, and its life.
#[derive(Debug, Clone)]
pub struct TeamResult {
    pub team: &'static str,
    pub unit: String,
    pub alive: bool,
    pub remaining_life: i64,
    pub max_life: i64,
}

/// What a timeline came to: its hashes where it has them, how many ticks it
/// holds and whether it ran to its end.
#[derive(Debug, Clone)]
pub struct TimelineSummary {
    pub physics_result_hash: Option<String>,
    pub content_result_hash: Option<String>,
    pub tick_count: u32,
    pub complete: bool,
}

/// Whether some unit of `team` is alive among `(team, alive)` pairs.
pub open spec fn team_alive(units: Seq<(u32, bool)>, team: u32) -> bool {
    exists|i: int| 0 <= i < units.len() && units[i].0 == team && units[i].1
}

/// The team that won: the only one of blue and red with a unit alive.
pub open spec fn winner_spec(units: Seq<(u32, bool)>) -> Option<u32> {
    if team_alive(units, 0) && !team_alive(units, 1) {
        Some(0)
    } else if !team_alive(units, 0) && team_alive(units, 1) {
        Some(1)
    } else {
        None
    }
}

/// Whether a unit of `team` is alive.
fn any_alive(units: &Vec<(u32, bool)>, team: u32) -> (result: bool)
    ensures
        result == team_alive(units@, team),
{
    let mut i: usize = 0;
    while i < units.len()
        invariant
            i <= units.len(),
            forall|k: int| 0 <= k < i ==> !(units[k].0 == team && units[k].1),
        decreases units.len() - i,
    {
        if units[i].0 == team && units[i].1 {
            return true;
        }
        i = i + 1;
    }
    false
}

/// Which team won, from each unit's team and whether it is alive: blue
/// when only blue has a unit alive, red when only red has, and nobody
/// otherwise.
pub fn winner(units: &Vec<(u32, bool)>) -> (result: Option<u32>)
    ensures
        result == winner_spec(units@),
{
    let blue = any_alive(units, 0);
    let red = any_alive(units, 1);
    if blue && !red {
        Some(0)
    } else if !blue && red {
        Some(1)
    } else {
        None
    }
}

/// Whether the fight is over by itself: fewer than two teams have a unit
/// alive, and no projectile is in flight.
pub open spec fn naturally_finished_spec(units: Seq<(u32, bool)>, projectiles: nat) -> bool {
    &&& !exists|i: int, j: int|
        0 <= i < units.len() && 0 <= j < units.len() && units[i].1 && units[j].1 && units[i].0 != units[j].0
    &&& projectiles == 0
}

/// Whether the fight is over by itself, from each unit's team and whether it
/// is alive, and how many projectiles are in flight.
pub fn naturally_finished(units: &Vec<(u32, bool)>, projectiles: usize) -> (result: bool)
    ensures
        result == naturally_finished_spec(units@, projectiles as nat),
{
    let mut living: Option<u32> = None;
    let mut i: usize = 0;
    while i < units.len()
        invariant
            i <= units.len(),
            match living {
                None => forall|k: int| 0 <= k < i ==> !units[k].1,
                Some(team) => (exists|k: int| 0 <= k < i && units[k].1 && units[k].0 == team) && forall|k: int|
                    0 <= k < i && units[k].1 ==> units[k].0 == team,
            },
        decreases units.len() - i,
    {
        let (team, alive) = units[i];
        if alive {
            match living {
                None => {
                    living = Some(team);
                },
                Some(first) => {
                    if first != team {
                        let ghost k = choose|k: int| 0 <= k < i && units[k].1 && units[k].0 == first;
                        assert(units[k].1 && units[i as int].1 && units[k].0 != units[i as int].0);
                        return false;
                    }
                },
            }
        }
        i = i + 1;
    }
    projectiles == 0
}

/// The milliseconds `steps` logic ticks last, each multiplication saturated.
pub open spec fn simulated_duration_spec(steps: int) -> int {
    let ticks = if steps * 100 > u64::MAX { u64::MAX as int } else { steps * 100 };
    let millis = if ticks * 1000 > u64::MAX { u64::MAX as int } else { ticks * 1000 };
    millis / 2000
}

/// How long `steps` logic ticks last, in milliseconds.
pub fn simulated_duration_milliseconds(steps: u64) -> (milliseconds: u64)
    ensures
        milliseconds == simulated_duration_spec(steps as int),
{
    let ticks: u64 = match steps.checked_mul(LOGIC_TICK_TIME_UNITS) {
        Some(value) => value,
        None => u64::MAX,
    };
    let millis: u64 = match ticks.checked_mul(1000) {
        Some(value) => value,
        None => u64::MAX,
    };
    millis / 2000
}

/// The seed of a team's random stream: the round plus the team, times 4444,
/// wrapping as a 32-bit integer, read as unsigned.
pub open spec fn team_stream_seed_spec(round: u32, team: u32) -> u64 {
    (((round as int + team as int) * 4444) % 0x1_0000_0000) as u64
}

/// The seed of a team's random stream in a round.
pub fn team_stream_seed(round: u32, team: u32) -> (seed: u64)
    ensures
        seed == team_stream_seed_spec(round, team),
{
    let sum: u64 = round as u64 + team as u64;
    let product: u64 = (sum % 0x1_0000_0000) * 4444;
    assert(((sum % 0x1_0000_0000) * 4444) % 0x1_0000_0000 == (sum * 4444) % 0x1_0000_0000) by (nonlinear_arith);
    product % 0x1_0000_0000
}

/// Where a fight's seed comes from.
#[derive(Debug, Clone, Copy, PartialEq, Eq, Structural)]
pub enum SeedSource {
    /// The caller supplied it.
    External,
    /// The layout carries it.
    Layout,
    /// Neither did, so it is generated.
    Generated,
}

impl SeedSource {
    /// How a result names the source.
    pub fn name(self) -> (name: &'static str)
        ensures
            name == (match self {
                SeedSource::External => "external",
                SeedSource::Layout => "layout",
                SeedSource::Generated => "generated",
            }),
    {
        match self {
            SeedSource::External => "external",
            SeedSource::Layout => "layout",
            SeedSource::Generated => "generated",
        }
    }
}

/// Which seed a fight runs with: a supplied seed overrides the layout's, and
/// where neither is given one is generated (`None`). A supplied zero is the
/// request for a generated seed, which a caller makes by omitting the seed,
/// and is refused.
pub fn seed_choice(seed: Option<i32>, layout_seed: Option<i32>) -> (choice: Result<Option<(i32, SeedSource)>, Error>)
    ensures
        seed == Some(0i32) ==> (choice matches Err(error) && error.message@
            == "seed 0 is the system-random request, not a match seed: omit the seed to generate one"@),
        seed is Some && seed != Some(0i32) ==> choice == Ok::<Option<(i32, SeedSource)>, Error>(
            Some((seed->0, SeedSource::External)),
        ),
        seed is None && layout_seed is Some ==> choice == Ok::<Option<(i32, SeedSource)>, Error>(
            Some((layout_seed->0, SeedSource::Layout)),
        ),
        seed is None && layout_seed is None ==> choice == Ok::<Option<(i32, SeedSource)>, Error>(None),
{
    match (seed, layout_seed) {
        (Some(0), _) => Err(
            Error::new(
                String::from_str(
                    "seed 0 is the system-random request, not a match seed: omit the seed to generate one",
                ),
            ),
        ),
        (Some(seed), _) => Ok(Some((seed, SeedSource::External))),
        (None, Some(seed)) => Ok(Some((seed, SeedSource::Layout))),
        (None, None) => Ok(None),
    }
}

/// The seed the first four bytes of a digest make, read as a little-endian
/// `i32`; zero, which a layout cannot carry, becomes one.
pub open spec fn seed_of_digest(digest: Seq<u8>) -> i32 {
    let unsigned = digest[0] as int + digest[1] as int * 0x100 + digest[2] as int * 0x1_0000 + digest[3] as int
        * 0x100_0000;
    let signed = if unsigned >= 0x8000_0000 { unsigned - 0x1_0000_0000 } else { unsigned };
    if signed == 0 { 1 } else { signed as i32 }
}

/// The seed a digest makes: its first four bytes as a little-endian `i32`,
/// never zero.
pub fn seed_from_digest(digest: &[u8; 32]) -> (seed: i32)
    ensures
        seed == seed_of_digest(digest@),
        seed != 0,
{
    let unsigned: i64 = digest[0] as i64 + digest[1] as i64 * 0x100 + digest[2] as i64 * 0x1_0000 + digest[3] as i64
        * 0x100_0000;
    let signed: i64 = if unsigned >= 0x8000_0000 {
        unsigned - 0x1_0000_0000
    } else {
        unsigned
    };
    if signed == 0 {
        1
    } else {
        signed as i32
    }
}

/// What the blake3 hash of some bytes is: named, not stated.
pub uninterp spec fn blake3_digest(input: Seq<u8>) -> Seq<u8>;

/// The blake3 hash of `input`, by `blake3::hash`, as its 32 bytes.
#[verifier::external_body]
fn blake3_hash(input: &[u8]) -> (digest: [u8; 32])
    ensures
        digest@ == blake3_digest(input@),
{
    *blake3::hash(input).as_bytes()
}

/// The seed some material makes: the first four bytes of its blake3 hash,
/// never zero.
pub fn seed_from_material(material: &[u8]) -> (seed: i32)
    ensures
        seed == seed_of_digest(blake3_digest(material@)),
        seed != 0,
{
    let digest = blake3_hash(material);
    seed_from_digest(&digest)
}

/// What the avoidance world reads of a unit: its radii in Q32.32 metres, its
/// size class, its layer and its priority.
#[derive(Debug, Clone, Copy, PartialEq, Eq, Structural)]
pub struct RvoProfile {
    pub outer_radius_q32: i64,
    pub inner_radius_q32: i64,
    pub size: RvoSize,
    pub collider_priority: i32,
    pub priority_q32: i64,
}

/// What the avoidance world reads of a unit of this description.
pub fn rvo_profile(rules: &UnitConfig) -> (profile: RvoProfile)
    ensures
        profile.outer_radius_q32 == space_to_q32_spec(rules.rvo.outer_radius as int),
        profile.inner_radius_q32 == space_to_q32_spec(rules.rvo.inner_radius as int),
        profile.size == rules.rvo.size,
        profile.collider_priority == rules.rvo.collider_priority,
        profile.priority_q32 == rules.rvo.priority_q32,
{
    RvoProfile {
        outer_radius_q32: space_to_q32(rules.rvo.outer_radius),
        inner_radius_q32: space_to_q32(rules.rvo.inner_radius),
        size: rules.rvo.size,
        collider_priority: rules.rvo.collider_priority,
        priority_q32: rules.rvo.priority_q32,
    }
}

} // verus!
