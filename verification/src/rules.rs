//! A unit's description, in the integer units the fight holds: a distance in
//! space units (a thousand to the metre), a time in time units (two thousand
//! to the second), an angle in millidegrees and a fraction in Q32.32.
//!
//! A description is written in metres, seconds and degrees; turning those into
//! these units, and refusing a number that does not land on the grid, happens
//! where the description is read. What stands here is every other rule a
//! description must obey before a fight is built from it.

use vstd::prelude::*;

use crate::Error;
use crate::fixed::rem_euclid;
use crate::text::{debug_quoted, debug_text, join3, trimmed, trimmed_spec};

verus! {

/// Space units to the metre.
pub const SPACE_UNITS_PER_METER_SCALE: i64 = 1000i64;

/// Time units to the second.
pub const TIME_UNITS_PER_SECOND_SCALE: i64 = 2000i64;

/// The size class a unit avoids others with.
#[derive(Debug, Clone, Copy, PartialEq, Eq, Structural)]
pub enum RvoSize {
    Xs,
    S,
    M,
    L,
    Xl,
    Xxl,
}

/// How a unit avoids the others: its radii in space units, its layer and its
/// priority in Q32.32.
#[derive(Debug, Clone, Copy, PartialEq, Eq, Structural)]
pub struct RvoConfig {
    pub outer_radius: i64,
    pub inner_radius: i64,
    pub size: RvoSize,
    pub collider_priority: i32,
    pub priority_q32: i64,
}

/// A formation's footprint on the board, in space units.
#[derive(Debug, Clone, Copy, PartialEq, Eq, Structural)]
pub struct FormationFootprint {
    pub width: i64,
    pub depth: i64,
}

/// How many units a formation holds, how far apart, and what it covers.
#[derive(Debug, Clone, Copy, PartialEq, Eq, Structural)]
pub struct FormationConfig {
    pub members: u32,
    pub slot_size: i64,
    pub footprint: FormationFootprint,
}

/// Whether a unit stands on the ground or flies.
#[derive(Debug, Clone, Copy, PartialEq, Eq, Structural)]
pub enum UnitDomain {
    Ground,
    Air,
}

/// Which domains an attack can hit.
#[derive(Debug, Clone, Copy, PartialEq, Eq, Structural)]
pub struct AttackTargets {
    pub ground: bool,
    pub air: bool,
}

/// An attack's phases, in time units.
#[derive(Debug, Clone, Copy, PartialEq, Eq, Structural)]
pub struct AttackTiming {
    pub interval: u64,
    pub interval_offset: u64,
    pub initial_cooldown: u64,
    pub prepare: u64,
    pub attack_point: u64,
    pub backswing: u64,
    pub cooling: u64,
}

/// How a skill's weapons fire together.
#[derive(Debug, Clone, Copy, PartialEq, Eq, Structural)]
pub enum WeaponMode {
    Normal,
    Group,
    Standalone,
}

/// The weapons a skill fires: each one's index in the build, in the order the
/// skill lists them.
#[derive(Debug, Clone)]
pub struct WeaponTopology {
    pub mode: WeaponMode,
    pub indices: Vec<i32>,
    pub per_skill: u32,
    pub fusillade: Option<bool>,
    pub allow_same_target: Option<bool>,
    /// Millidegrees a second.
    pub rotation_speed: Option<i64>,
}

/// What a skill's hit travels as.
#[derive(Debug, Clone)]
pub enum AttackPath {
    Projectile {
        count: u32,
        release_interval: u64,
        speed: i64,
        target_offset_radius: i64,
        evenly_allocate_targets: bool,
        extra_search_range: i64,
        pre_flight_height: i64,
        simulated_motion: bool,
        interceptible: bool,
        max_life: i64,
    },
    Direct,
    /// Each damage multiplier in Q32.32.
    Laser { damage_multipliers: Vec<i64> },
    /// The warm-up multiplier in Q32.32.
    ControlBeam { warmup_attack_count: u32, warmup_damage_multiplier: i64 },
}

/// A skill that fires from a magazine: rounds before a reload, and the
/// reload's time units.
#[derive(Debug, Clone, Copy, PartialEq, Eq, Structural)]
pub struct Magazine {
    pub capacity: u32,
    pub reload: u64,
}

/// A unit's main skill.
#[derive(Debug, Clone)]
pub struct AttackConfig {
    pub base_damage: i64,
    pub min_range: i64,
    pub range: i64,
    /// Millidegrees.
    pub attack_half_angle: i64,
    pub targets: AttackTargets,
    pub lock_target: bool,
    pub quick_switch_target: bool,
    pub timing: AttackTiming,
    pub splash_radius: i64,
    pub weapons: WeaponTopology,
    /// Whether the main skill is a melee attack.
    pub melee: bool,
    pub path: AttackPath,
    pub magazine: Option<Magazine>,
}

/// One unit type's description.
#[derive(Debug, Clone)]
pub struct UnitConfig {
    pub schema: String,
    pub name: String,
    pub unit_type_id: u32,
    pub formation: FormationConfig,
    pub domain: UnitDomain,
    pub max_life: i64,
    pub collision_radius: i64,
    pub move_speed: i64,
    /// Millidegrees a second.
    pub rotate_speed: i64,
    pub has_body: bool,
    pub independent_aim: Option<bool>,
    pub rvo: RvoConfig,
    pub attack: AttackConfig,
}

/// Whether an attack with these targets can hit a unit of this domain.
pub open spec fn accepts_spec(targets: AttackTargets, domain: UnitDomain) -> bool {
    match domain {
        UnitDomain::Ground => targets.ground,
        UnitDomain::Air => targets.air,
    }
}

impl AttackConfig {
    /// Whether this attack can hit a unit of `domain`.
    pub fn accepts(&self, domain: UnitDomain) -> (result: bool)
        ensures
            result == accepts_spec(self.targets, domain),
    {
        match domain {
            UnitDomain::Ground => self.targets.ground,
            UnitDomain::Air => self.targets.air,
        }
    }
}

impl AttackConfig {
    /// How fast a projectile flies, in space units a second.
    pub fn projectile_speed(&self) -> (speed: i64)
        requires
            self.path is Projectile,
        ensures
            speed == self.path->speed,
    {
        match &self.path {
            AttackPath::Projectile { speed, .. } => *speed,
            _ => 0,
        }
    }

    /// How many ticks a projectile lives at most, never fewer than one.
    pub fn projectile_life(&self) -> (life: i64)
        requires
            self.path is Projectile,
        ensures
            life == if self.path->max_life < 1 { 1 } else { self.path->max_life },
    {
        match &self.path {
            AttackPath::Projectile { max_life, .. } => if *max_life < 1 {
                1
            } else {
                *max_life
            },
            _ => 1,
        }
    }

    /// How many projectiles one attack releases.
    pub fn projectile_count(&self) -> (count: u32)
        requires
            self.path is Projectile,
        ensures
            count == self.path->count,
    {
        match &self.path {
            AttackPath::Projectile { count, .. } => *count,
            _ => 0,
        }
    }

    /// The time units between two projectiles of one attack.
    pub fn projectile_release_interval_time_units(&self) -> (interval: u64)
        requires
            self.path is Projectile,
        ensures
            interval == self.path->release_interval,
    {
        match &self.path {
            AttackPath::Projectile { release_interval, .. } => *release_interval,
            _ => 0,
        }
    }

    /// How far from its target's centre a projectile may be aimed, in space
    /// units.
    pub fn projectile_target_offset_radius(&self) -> (radius: i64)
        requires
            self.path is Projectile,
        ensures
            radius == self.path->target_offset_radius,
    {
        match &self.path {
            AttackPath::Projectile { target_offset_radius, .. } => *target_offset_radius,
            _ => 0,
        }
    }
}

impl WeaponTopology {
    /// How many weapons the skill fires.
    pub fn count(&self) -> (result: u32)
        requires
            self.indices.len() <= u32::MAX,
        ensures
            result == self.indices.len(),
    {
        self.indices.len() as u32
    }

    /// The build's index of the weapon at this position.
    pub fn index(&self, position: usize) -> (result: i32)
        requires
            position < self.indices.len(),
        ensures
            result == self.indices[position as int],
    {
        self.indices[position]
    }
}

/// Why a number of `field` is refused, if it is: it is negative, or zero
/// where zero is not allowed.
pub open spec fn scaled_check(value: int, field: Seq<char>, allow_zero: bool) -> Option<Seq<char>> {
    if value < 0 || (!allow_zero && value == 0) {
        Some("unit config field "@ + field + " cannot be represented exactly by the kernel"@)
    } else {
        None
    }
}

/// A check that passed, or the first refusal of two in order.
pub open spec fn first_of(first: Option<Seq<char>>, second: Option<Seq<char>>) -> Option<Seq<char>> {
    if first is Some {
        first
    } else {
        second
    }
}

/// The outcome of a check, as the error its refusal is.
pub open spec fn outcome_matches(result: Result<(), Error>, check: Option<Seq<char>>) -> bool {
    match result {
        Ok(()) => check is None,
        Err(error) => check == Some(error.message@),
    }
}

/// Refuses a number of `field` that is negative, or zero where zero is not
/// allowed.
pub fn representable(value: i64, field: &str, allow_zero: bool) -> (result: Result<(), Error>)
    ensures
        outcome_matches(result, scaled_check(value as int, field@, allow_zero)),
{
    if value < 0 || (!allow_zero && value == 0) {
        Err(Error::new(join3("unit config field ", field, " cannot be represented exactly by the kernel")))
    } else {
        Ok(())
    }
}

/// Whether no two weapon indices are the same.
pub open spec fn distinct_indices(indices: Seq<i32>) -> bool {
    forall|i: int, j: int| 0 <= i < j < indices.len() ==> indices[i] != indices[j]
}

/// Why a weapon topology is refused, if it is.
pub open spec fn weapons_check(weapons: WeaponTopology) -> Option<Seq<char>> {
    let count = weapons.indices.len();
    let group = weapons.mode == WeaponMode::Group;
    let complete = weapons.fusillade is Some && weapons.allow_same_target is Some;
    let any = weapons.fusillade is Some || weapons.allow_same_target is Some;
    if count == 0 || weapons.per_skill == 0 || weapons.per_skill > count {
        Some("weapon topology contains invalid counts"@)
    } else if !distinct_indices(weapons.indices@)
        || exists|i: int| 0 <= i < count && weapons.indices[i] < 0 {
        Some("weapon indices must be distinct and non-negative"@)
    } else if (group && !complete) || (!group && any) {
        Some("group weapon topology requires fusillade and allow_same_target only for group mode"@)
    } else {
        match weapons.rotation_speed {
            Some(speed) => scaled_check(speed as int, "weapons.rotation_speed"@, false),
            None => None,
        }
    }
}

impl WeaponTopology {
    /// Refuses a topology whose counts, indices or group fields are wrong.
    pub fn validate(&self) -> (result: Result<(), Error>)
        requires
            self.indices.len() <= u32::MAX,
        ensures
            outcome_matches(result, weapons_check(*self)),
    {
        let count = self.count();
        if count == 0 || self.per_skill == 0 || self.per_skill > count {
            return Err(Error::new(String::from_str("weapon topology contains invalid counts")));
        }
        let mut i: usize = 0;
        while i < self.indices.len()
            invariant
                i <= self.indices.len(),
                self.indices.len() > 0,
                self.per_skill != 0,
                self.per_skill <= self.indices.len(),
                forall|a: int, b: int| 0 <= a < b < i ==> self.indices[a] != self.indices[b],
                forall|a: int| 0 <= a < i ==> self.indices[a] >= 0,
            decreases self.indices.len() - i,
        {
            let mut j: usize = 0;
            while j < i
                invariant
                    j <= i < self.indices.len(),
                    self.indices.len() > 0,
                    self.per_skill != 0,
                    self.per_skill <= self.indices.len(),
                    forall|a: int| 0 <= a < j ==> self.indices[a] != self.indices[i as int],
                decreases i - j,
            {
                if self.indices[j] == self.indices[i] {
                    assert(!distinct_indices(self.indices@));
                    return Err(Error::new(String::from_str("weapon indices must be distinct and non-negative")));
                }
                j = j + 1;
            }
            if self.indices[i] < 0 {
                assert(self.indices[i as int] < 0);
                return Err(Error::new(String::from_str("weapon indices must be distinct and non-negative")));
            }
            i = i + 1;
        }
        let complete = self.fusillade.is_some() && self.allow_same_target.is_some();
        let any = self.fusillade.is_some() || self.allow_same_target.is_some();
        let group = match self.mode {
            WeaponMode::Group => true,
            _ => false,
        };
        if (group && !complete) || (!group && any) {
            return Err(Error::new(String::from_str(
                "group weapon topology requires fusillade and allow_same_target only for group mode",
            )));
        }
        match self.rotation_speed {
            Some(speed) => representable(speed, "weapons.rotation_speed", false),
            None => Ok(()),
        }
    }
}

/// Why a skill's path is refused, if it is.
pub open spec fn path_check(path: AttackPath) -> Option<Seq<char>> {
    match path {
        AttackPath::Projectile {
            count,
            speed,
            target_offset_radius,
            extra_search_range,
            pre_flight_height,
            interceptible,
            max_life,
            ..
        } => {
            if count == 0 || max_life < 0 || (interceptible && max_life == 0) {
                Some("projectile path requires a count and valid projectile life"@)
            } else if scaled_check(speed as int, "path.speed"@, false) is Some {
                scaled_check(speed as int, "path.speed"@, false)
            } else if scaled_check(target_offset_radius as int, "path.target_offset_radius"@, true) is Some {
                scaled_check(target_offset_radius as int, "path.target_offset_radius"@, true)
            } else if target_offset_radius != 0 && target_offset_radius < 10 {
                Some("path.target_offset_radius must be zero or at least one centimeter"@)
            } else {
                first_of(
                    scaled_check(extra_search_range as int, "path.extra_search_range"@, true),
                    scaled_check(pre_flight_height as int, "path.pre_flight_height"@, true),
                )
            }
        },
        AttackPath::Direct => None,
        AttackPath::Laser { damage_multipliers } => {
            if damage_multipliers.len() == 0 || exists|i: int|
                0 <= i < damage_multipliers.len() && damage_multipliers[i] <= 0 {
                Some("laser path requires positive finite damage multipliers"@)
            } else {
                None
            }
        },
        AttackPath::ControlBeam { warmup_attack_count, warmup_damage_multiplier } => {
            if warmup_attack_count == 0 || warmup_damage_multiplier <= 0 {
                Some("control beam path requires a positive warmup definition"@)
            } else {
                None
            }
        },
    }
}

/// Why a main skill is refused, if it is.
pub open spec fn attack_check(attack: AttackConfig) -> Option<Seq<char>> {
    if !attack.targets.ground && !attack.targets.air {
        Some("attack must target ground, air, or both"@)
    } else if scaled_check(attack.min_range as int, "min_range"@, true) is Some {
        scaled_check(attack.min_range as int, "min_range"@, true)
    } else if scaled_check(attack.range as int, "range"@, true) is Some {
        scaled_check(attack.range as int, "range"@, true)
    } else if attack.min_range > attack.range {
        Some("attack min_range must not exceed range"@)
    } else if scaled_check(attack.attack_half_angle as int, "attack_half_angle"@, true) is Some {
        scaled_check(attack.attack_half_angle as int, "attack_half_angle"@, true)
    } else if attack.attack_half_angle > 360_000 {
        Some("attack_half_angle must not exceed 360 degrees"@)
    } else if attack.timing.interval == 0 {
        Some("unit config field timing.interval cannot be represented exactly by the kernel"@)
    } else if scaled_check(attack.splash_radius as int, "splash_radius"@, true) is Some {
        scaled_check(attack.splash_radius as int, "splash_radius"@, true)
    } else if weapons_check(attack.weapons) is Some {
        weapons_check(attack.weapons)
    } else {
        path_check(attack.path)
    }
}

impl AttackPath {
    /// Refuses a path whose numbers the fight cannot run.
    pub fn validate(&self) -> (result: Result<(), Error>)
        ensures
            outcome_matches(result, path_check(*self)),
    {
        match self {
            AttackPath::Projectile {
                count,
                speed,
                target_offset_radius,
                extra_search_range,
                pre_flight_height,
                interceptible,
                max_life,
                ..
            } => {
                if *count == 0 || *max_life < 0 || (*interceptible && *max_life == 0) {
                    return Err(Error::new(String::from_str(
                        "projectile path requires a count and valid projectile life",
                    )));
                }
                representable(*speed, "path.speed", false)?;
                representable(*target_offset_radius, "path.target_offset_radius", true)?;
                if *target_offset_radius != 0 && *target_offset_radius < 10 {
                    return Err(Error::new(String::from_str(
                        "path.target_offset_radius must be zero or at least one centimeter",
                    )));
                }
                representable(*extra_search_range, "path.extra_search_range", true)?;
                representable(*pre_flight_height, "path.pre_flight_height", true)
            },
            AttackPath::Direct => Ok(()),
            AttackPath::Laser { damage_multipliers } => {
                let mut positive = damage_multipliers.len() > 0;
                let mut i: usize = 0;
                while i < damage_multipliers.len()
                    invariant
                        i <= damage_multipliers.len(),
                        positive <==> (damage_multipliers.len() > 0 && forall|a: int|
                            0 <= a < i ==> damage_multipliers[a] > 0),
                    decreases damage_multipliers.len() - i,
                {
                    if damage_multipliers[i] <= 0 {
                        positive = false;
                    }
                    i = i + 1;
                }
                if positive {
                    Ok(())
                } else {
                    Err(Error::new(String::from_str(
                        "laser path requires positive finite damage multipliers",
                    )))
                }
            },
            AttackPath::ControlBeam { warmup_attack_count, warmup_damage_multiplier } => {
                if *warmup_attack_count == 0 || *warmup_damage_multiplier <= 0 {
                    Err(Error::new(String::from_str(
                        "control beam path requires a positive warmup definition",
                    )))
                } else {
                    Ok(())
                }
            },
        }
    }
}

impl AttackConfig {
    /// Refuses a main skill the fight cannot run, with the first reason.
    pub fn validate(&self) -> (result: Result<(), Error>)
        requires
            self.weapons.indices.len() <= u32::MAX,
        ensures
            outcome_matches(result, attack_check(*self)),
    {
        if !self.targets.ground && !self.targets.air {
            return Err(Error::new(String::from_str("attack must target ground, air, or both")));
        }
        representable(self.min_range, "min_range", true)?;
        representable(self.range, "range", true)?;
        if self.min_range > self.range {
            return Err(Error::new(String::from_str("attack min_range must not exceed range")));
        }
        representable(self.attack_half_angle, "attack_half_angle", true)?;
        if self.attack_half_angle > 360_000 {
            return Err(Error::new(String::from_str("attack_half_angle must not exceed 360 degrees")));
        }
        if self.timing.interval == 0 {
            return Err(Error::new(String::from_str(
                "unit config field timing.interval cannot be represented exactly by the kernel",
            )));
        }
        representable(self.splash_radius, "splash_radius", true)?;
        self.weapons.validate()?;
        self.path.validate()
    }
}

/// A whole number of metres in space units, or the refusal `message`.
pub open spec fn whole_meters_spec(raw: int, message: Seq<char>) -> Result<int, Seq<char>> {
    if raw % 1000 != 0 {
        Err(message)
    } else {
        Ok(raw / 1000)
    }
}

/// Why a unit description is refused, if it is: the first rule it breaks.
pub open spec fn unit_check(unit: UnitConfig) -> Option<Seq<char>> {
    if unit.schema@ != "mechcore.unit"@ {
        Some("unsupported unit config type"@)
    } else if trimmed_spec(unit.name@).len() == 0 || unit.unit_type_id == 0 || unit.max_life <= 0
        || unit.formation.members == 0 || unit.attack.base_damage <= 0 {
        Some("unit config for "@ + debug_quoted(unit.name@) + " contains invalid values"@)
    } else if scaled_check(unit.collision_radius as int, "collision_radius"@, true) is Some {
        scaled_check(unit.collision_radius as int, "collision_radius"@, true)
    } else if scaled_check(unit.move_speed as int, "move_speed"@, true) is Some {
        scaled_check(unit.move_speed as int, "move_speed"@, true)
    } else if scaled_check(unit.rotate_speed as int, "rotate_speed"@, true) is Some {
        scaled_check(unit.rotate_speed as int, "rotate_speed"@, true)
    } else if scaled_check(unit.formation.slot_size as int, "formation.slot_size"@, false) is Some {
        scaled_check(unit.formation.slot_size as int, "formation.slot_size"@, false)
    } else if unit.formation.slot_size % 1000 != 0 {
        Some("unit config field formation.slot_size must use whole meters for member generation"@)
    } else if scaled_check(unit.formation.footprint.width as int, "formation.footprint.width"@, false) is Some {
        scaled_check(unit.formation.footprint.width as int, "formation.footprint.width"@, false)
    } else if scaled_check(unit.formation.footprint.depth as int, "formation.footprint.depth"@, false) is Some {
        scaled_check(unit.formation.footprint.depth as int, "formation.footprint.depth"@, false)
    } else if !unit.has_body && unit.independent_aim is Some {
        Some("independent_aim is not applicable when the unit has no mech body"@)
    } else if scaled_check(unit.rvo.outer_radius as int, "rvo.outer_radius"@, false) is Some {
        scaled_check(unit.rvo.outer_radius as int, "rvo.outer_radius"@, false)
    } else if scaled_check(unit.rvo.inner_radius as int, "rvo.inner_radius"@, false) is Some {
        scaled_check(unit.rvo.inner_radius as int, "rvo.inner_radius"@, false)
    } else if unit.rvo.inner_radius > unit.rvo.outer_radius {
        Some("rvo.inner_radius cannot exceed rvo.outer_radius"@)
    } else if !(1 <= unit.rvo.collider_priority <= 10) || !(0 <= unit.rvo.priority_q32 <= 0x1_0000_0000) {
        Some("rvo collider_priority or priority is outside its native range"@)
    } else {
        attack_check(unit.attack)
    }
}

/// Why the kernel cannot fire a main skill, if it cannot.
pub open spec fn unfired_reason(attack: AttackConfig) -> Option<Seq<char>> {
    let weapons = attack.weapons;
    let group = weapons.mode == WeaponMode::Group;
    match attack.path {
        AttackPath::ControlBeam { .. } => Some("fires a control beam"@),
        AttackPath::Projectile { pre_flight_height, .. } if pre_flight_height != 0 => Some(
            "fires projectiles that climb before they fly"@,
        ),
        _ => {
            if group && weapons.indices.len() == 1 {
                None
            } else if group && weapons.fusillade == Some(true) {
                Some("fires its grouped weapons as a fusillade"@)
            } else if weapons.mode == WeaponMode::Normal || (group && attack.path is Projectile) {
                None
            } else if group {
                Some("groups weapons that fire no projectile"@)
            } else {
                Some("fires standalone weapons"@)
            }
        },
    }
}

impl UnitConfig {
    /// Refuses a description the fight cannot be built from, with the first
    /// rule it breaks.
    pub fn validate(&self) -> (result: Result<(), Error>)
        requires
            self.attack.weapons.indices.len() <= u32::MAX,
        ensures
            outcome_matches(result, unit_check(*self)),
    {
        if !(self.schema == String::from_str("mechcore.unit")) {
            return Err(Error::new(String::from_str("unsupported unit config type")));
        }
        if trimmed(self.name.as_str()).is_empty() || self.unit_type_id == 0 || self.max_life <= 0
            || self.formation.members == 0 || self.attack.base_damage <= 0 {
            let quoted = debug_text(self.name.as_str());
            return Err(Error::new(join3("unit config for ", quoted.as_str(), " contains invalid values")));
        }
        representable(self.collision_radius, "collision_radius", true)?;
        representable(self.move_speed, "move_speed", true)?;
        representable(self.rotate_speed, "rotate_speed", true)?;
        representable(self.formation.slot_size, "formation.slot_size", false)?;
        self.formation_slot_size_meters()?;
        representable(self.formation.footprint.width, "formation.footprint.width", false)?;
        representable(self.formation.footprint.depth, "formation.footprint.depth", false)?;
        if !self.has_body && self.independent_aim.is_some() {
            return Err(Error::new(String::from_str(
                "independent_aim is not applicable when the unit has no mech body",
            )));
        }
        representable(self.rvo.outer_radius, "rvo.outer_radius", false)?;
        representable(self.rvo.inner_radius, "rvo.inner_radius", false)?;
        if self.rvo.inner_radius > self.rvo.outer_radius {
            return Err(Error::new(String::from_str("rvo.inner_radius cannot exceed rvo.outer_radius")));
        }
        if !(1 <= self.rvo.collider_priority && self.rvo.collider_priority <= 10)
            || !(0 <= self.rvo.priority_q32 && self.rvo.priority_q32 <= 0x1_0000_0000) {
            return Err(Error::new(String::from_str(
                "rvo collider_priority or priority is outside its native range",
            )));
        }
        self.attack.validate()
    }

    /// Refuses a unit whose main skill the kernel has no way to fire, naming
    /// the unit.
    pub fn fired(&self) -> (result: Result<(), Error>)
        ensures
            match unfired_reason(self.attack) {
                None => result is Ok,
                Some(why) => result matches Err(error) && error.message@ == "unit "@
                    + debug_quoted(self.name@) + " "@ + why + ", which the kernel does not"@,
            },
    {
        let weapons = &self.attack.weapons;
        let group = match weapons.mode {
            WeaponMode::Group => true,
            _ => false,
        };
        let why: &str = match &self.attack.path {
            AttackPath::ControlBeam { .. } => "fires a control beam",
            AttackPath::Projectile { pre_flight_height, .. } if *pre_flight_height != 0 => {
                "fires projectiles that climb before they fly"
            },
            path => {
                let normal = match weapons.mode {
                    WeaponMode::Normal => true,
                    _ => false,
                };
                let projectile = match path {
                    AttackPath::Projectile { .. } => true,
                    _ => false,
                };
                if group && weapons.indices.len() == 1 {
                    return Ok(());
                } else if group && weapons.fusillade == Some(true) {
                    "fires its grouped weapons as a fusillade"
                } else if normal || (group && projectile) {
                    return Ok(());
                } else if group {
                    "groups weapons that fire no projectile"
                } else {
                    "fires standalone weapons"
                }
            },
        };
        let quoted = debug_text(self.name.as_str());
        let head = join3("unit ", quoted.as_str(), " ");
        Err(Error::new(join3(head.as_str(), why, ", which the kernel does not")))
    }

    /// The formation's footprint in whole metres, width then depth.
    pub fn formation_footprint_meters(&self) -> (result: Result<(i64, i64), Error>)
        ensures
            match (
                whole_meters_spec(self.formation.footprint.width as int,
                    "unit config field formation.footprint.width must use whole meters for layout placement"@),
                whole_meters_spec(self.formation.footprint.depth as int,
                    "unit config field formation.footprint.depth must use whole meters for layout placement"@),
            ) {
                (Err(message), _) => result matches Err(error) && error.message@ == message,
                (Ok(_), Err(message)) => result matches Err(error) && error.message@ == message,
                (Ok(width), Ok(depth)) => result == Ok::<(i64, i64), Error>((width as i64, depth as i64)),
            },
    {
        let width = self.formation.footprint.width;
        if rem_euclid(width, 1000) != 0 {
            return Err(Error::new(String::from_str(
                "unit config field formation.footprint.width must use whole meters for layout placement",
            )));
        }
        let depth = self.formation.footprint.depth;
        if rem_euclid(depth, 1000) != 0 {
            return Err(Error::new(String::from_str(
                "unit config field formation.footprint.depth must use whole meters for layout placement",
            )));
        }
        Ok((width / 1000, depth / 1000))
    }

    /// The spacing of a formation's members in whole metres.
    pub fn formation_slot_size_meters(&self) -> (result: Result<i64, Error>)
        ensures
            match whole_meters_spec(self.formation.slot_size as int,
                "unit config field formation.slot_size must use whole meters for member generation"@) {
                Err(message) => result matches Err(error) && error.message@ == message,
                Ok(meters) => result == Ok::<i64, Error>(meters as i64),
            },
    {
        let raw = self.formation.slot_size;
        if rem_euclid(raw, 1000) != 0 {
            return Err(Error::new(String::from_str(
                "unit config field formation.slot_size must use whole meters for member generation",
            )));
        }
        Ok(raw / 1000)
    }
}

/// Why a list of descriptions is refused, if it is, looking at the first
/// `count` of them in order: each one's own rules, then whether it repeats an
/// earlier one's id or name.
pub open spec fn configs_check(configs: Seq<UnitConfig>, count: int) -> Option<Seq<char>>
    decreases count,
{
    if count <= 0 {
        None
    } else {
        let earlier = configs_check(configs, count - 1);
        if earlier is Some {
            earlier
        } else if unit_check(configs[count - 1]) is Some {
            unit_check(configs[count - 1])
        } else if exists|j: int|
            0 <= j < count - 1 && (#[trigger] configs[j].unit_type_id == configs[count - 1].unit_type_id
                || configs[j].name@ == configs[count - 1].name@) {
            Some("unit configs contain duplicate identities"@)
        } else {
            None
        }
    }
}

/// Once a prefix of the list is refused, every longer prefix is refused for
/// the same reason.
pub proof fn lemma_configs_check_settles(configs: Seq<UnitConfig>, count: int, longer: int)
    requires
        configs_check(configs, count) is Some,
        count <= longer,
    ensures
        configs_check(configs, longer) == configs_check(configs, count),
    decreases longer - count,
{
    if count < longer {
        lemma_configs_check_settles(configs, count, longer - 1);
    }
}

/// Whether no two descriptions share an id or a name.
pub open spec fn identities_unique(configs: Seq<UnitConfig>) -> bool {
    forall|i: int, j: int|
        0 <= i < j < configs.len() ==> configs[i].unit_type_id != configs[j].unit_type_id
            && configs[i].name@ != configs[j].name@
}

/// Every unit type a fight can place, each valid and each with its own id and
/// name.
pub struct UnitConfigs {
    pub units: Vec<UnitConfig>,
}

impl UnitConfigs {
    /// Whether every description is valid and no two share an identity.
    pub open spec fn wf(self) -> bool {
        &&& identities_unique(self.units@)
        &&& forall|i: int| 0 <= i < self.units.len() ==> unit_check(#[trigger] self.units[i]) is None
    }

    /// The descriptions, checked one by one in order.
    pub fn from_configs(configs: Vec<UnitConfig>) -> (result: Result<Self, Error>)
        requires
            forall|i: int| 0 <= i < configs.len() ==> (#[trigger] configs[i]).attack.weapons.indices.len()
                <= u32::MAX,
        ensures
            configs.len() == 0 ==> (result matches Err(error) && error.message@
                == "no unit configuration is embedded"@),
            configs.len() > 0 ==> match configs_check(configs@, configs.len() as int) {
                None => (result matches Ok(table) && table.units@ == configs@ && table.wf()),
                Some(message) => (result matches Err(error) && error.message@ == message),
            },
    {
        if configs.len() == 0 {
            return Err(Error::new(String::from_str("no unit configuration is embedded")));
        }
        let mut i: usize = 0;
        while i < configs.len()
            invariant
                i <= configs.len(),
                forall|k: int| 0 <= k < configs.len() ==> (#[trigger] configs[k]).attack.weapons.indices.len()
                    <= u32::MAX,
                configs_check(configs@, i as int) is None,
                forall|a: int, b: int|
                    0 <= a < b < i ==> configs[a].unit_type_id != configs[b].unit_type_id
                        && configs[a].name@ != configs[b].name@,
                forall|k: int| 0 <= k < i ==> unit_check(#[trigger] configs[k]) is None,
            decreases configs.len() - i,
        {
            let checked = configs[i].validate();
            if checked.is_err() {
                proof {
                    lemma_configs_check_settles(configs@, i + 1, configs.len() as int);
                }
                return match checked {
                    Err(error) => Err(error),
                    Ok(()) => Ok(UnitConfigs { units: Vec::new() }),
                };
            }
            let mut j: usize = 0;
            while j < i
                invariant
                    j <= i < configs.len(),
                    configs_check(configs@, i as int) is None,
                    unit_check(configs[i as int]) is None,
                    forall|k: int|
                        0 <= k < j ==> configs[k].unit_type_id != configs[i as int].unit_type_id
                            && configs[k].name@ != configs[i as int].name@,
                decreases i - j,
            {
                if configs[j].unit_type_id == configs[i].unit_type_id || configs[j].name == configs[i].name {
                    assert(configs[j as int].unit_type_id == configs[i as int].unit_type_id
                        || configs[j as int].name@ == configs[i as int].name@);
                    proof {
                        assert(configs_check(configs@, i + 1) == Some(
                            "unit configs contain duplicate identities"@,
                        ));
                        lemma_configs_check_settles(configs@, i + 1, configs.len() as int);
                    }
                    return Err(Error::new(String::from_str("unit configs contain duplicate identities")));
                }
                j = j + 1;
            }
            proof {
                assert(!(exists|k: int|
                    0 <= k < i && (#[trigger] configs[k].unit_type_id == configs[i as int].unit_type_id
                        || configs[k].name@ == configs[i as int].name@)));
            }
            i = i + 1;
        }
        Ok(UnitConfigs { units: configs })
    }

    /// The description of the unit type called `name`, if there is one.
    pub fn get(&self, name: &str) -> (result: Option<&UnitConfig>)
        ensures
            match result {
                Some(config) => exists|i: int| 0 <= i < self.units.len() && self.units[i] == *config
                    && config.name@ == name@,
                None => forall|i: int| 0 <= i < self.units.len() ==> self.units[i].name@ != name@,
            },
    {
        let wanted = String::from_str(name);
        let mut i: usize = 0;
        while i < self.units.len()
            invariant
                i <= self.units.len(),
                wanted@ == name@,
                forall|k: int| 0 <= k < i ==> self.units[k].name@ != name@,
            decreases self.units.len() - i,
        {
            if self.units[i].name == wanted {
                return Some(&self.units[i]);
            }
            i = i + 1;
        }
        None
    }
}

/// Whether two weapon topologies hold the same weapons.
pub open spec fn same_weapons(a: WeaponTopology, b: WeaponTopology) -> bool {
    &&& a.mode == b.mode
    &&& a.indices@ == b.indices@
    &&& a.per_skill == b.per_skill
    &&& a.fusillade == b.fusillade
    &&& a.allow_same_target == b.allow_same_target
    &&& a.rotation_speed == b.rotation_speed
}

/// Whether two paths are the same path.
pub open spec fn same_path(a: AttackPath, b: AttackPath) -> bool {
    match (a, b) {
        (AttackPath::Laser { damage_multipliers: x }, AttackPath::Laser { damage_multipliers: y }) => x@ == y@,
        (AttackPath::Laser { .. }, _) | (_, AttackPath::Laser { .. }) => false,
        _ => a == b,
    }
}

/// Whether two skills are the same skill.
pub open spec fn same_attack(a: AttackConfig, b: AttackConfig) -> bool {
    &&& a.base_damage == b.base_damage
    &&& a.min_range == b.min_range
    &&& a.range == b.range
    &&& a.attack_half_angle == b.attack_half_angle
    &&& a.targets == b.targets
    &&& a.lock_target == b.lock_target
    &&& a.quick_switch_target == b.quick_switch_target
    &&& a.timing == b.timing
    &&& a.splash_radius == b.splash_radius
    &&& same_weapons(a.weapons, b.weapons)
    &&& a.melee == b.melee
    &&& same_path(a.path, b.path)
    &&& a.magazine == b.magazine
}

/// A copy of a list of `i32`.
pub fn copy_i32s(values: &Vec<i32>) -> (copy: Vec<i32>)
    ensures
        copy@ == values@,
{
    let mut copy: Vec<i32> = Vec::new();
    let mut i: usize = 0;
    while i < values.len()
        invariant
            i <= values.len(),
            copy@ == values@.take(i as int),
        decreases values.len() - i,
    {
        copy.push(values[i]);
        assert(copy@ =~= values@.take(i as int + 1));
        i = i + 1;
    }
    assert(values@.take(values.len() as int) =~= values@);
    copy
}

/// A copy of a list of `i64`.
pub fn copy_i64s(values: &Vec<i64>) -> (copy: Vec<i64>)
    ensures
        copy@ == values@,
{
    let mut copy: Vec<i64> = Vec::new();
    let mut i: usize = 0;
    while i < values.len()
        invariant
            i <= values.len(),
            copy@ == values@.take(i as int),
        decreases values.len() - i,
    {
        copy.push(values[i]);
        assert(copy@ =~= values@.take(i as int + 1));
        i = i + 1;
    }
    assert(values@.take(values.len() as int) =~= values@);
    copy
}

impl AttackPath {
    /// A copy of this path.
    pub fn duplicate(&self) -> (copy: Self)
        ensures
            same_path(copy, *self),
    {
        match self {
            AttackPath::Projectile {
                count,
                release_interval,
                speed,
                target_offset_radius,
                evenly_allocate_targets,
                extra_search_range,
                pre_flight_height,
                simulated_motion,
                interceptible,
                max_life,
            } => AttackPath::Projectile {
                count: *count,
                release_interval: *release_interval,
                speed: *speed,
                target_offset_radius: *target_offset_radius,
                evenly_allocate_targets: *evenly_allocate_targets,
                extra_search_range: *extra_search_range,
                pre_flight_height: *pre_flight_height,
                simulated_motion: *simulated_motion,
                interceptible: *interceptible,
                max_life: *max_life,
            },
            AttackPath::Direct => AttackPath::Direct,
            AttackPath::Laser { damage_multipliers } => AttackPath::Laser {
                damage_multipliers: copy_i64s(damage_multipliers),
            },
            AttackPath::ControlBeam { warmup_attack_count, warmup_damage_multiplier } => AttackPath::ControlBeam {
                warmup_attack_count: *warmup_attack_count,
                warmup_damage_multiplier: *warmup_damage_multiplier,
            },
        }
    }
}

impl AttackConfig {
    /// A copy of this skill.
    pub fn duplicate(&self) -> (copy: Self)
        ensures
            same_attack(copy, *self),
    {
        AttackConfig {
            base_damage: self.base_damage,
            min_range: self.min_range,
            range: self.range,
            attack_half_angle: self.attack_half_angle,
            targets: self.targets,
            lock_target: self.lock_target,
            quick_switch_target: self.quick_switch_target,
            timing: self.timing,
            splash_radius: self.splash_radius,
            weapons: WeaponTopology {
                mode: self.weapons.mode,
                indices: copy_i32s(&self.weapons.indices),
                per_skill: self.weapons.per_skill,
                fusillade: self.weapons.fusillade,
                allow_same_target: self.weapons.allow_same_target,
                rotation_speed: self.weapons.rotation_speed,
            },
            melee: self.melee,
            path: self.path.duplicate(),
            magazine: self.magazine,
        }
    }
}

} // verus!
