//! A projectile in flight: where it heads, how far it flies in a tick, when
//! it arrives, and the hit it lands.

use vstd::prelude::*;

use crate::fixed::{
    clamp_i64, min_int, q32_div, q32_div_spec, q32_mul, q32_mul_spec, q32_to_space_rounded,
    q32_to_space_rounded_spec, saturating_add, saturating_sub, space_to_q32, space_to_q32_spec, Q32_ONE,
};
use crate::hits::DamageHit;
use crate::kernel::Reach;
use crate::quadtree::{FightActorRef, ObjectKind};
use crate::rules::UnitDomain;
use crate::trig::{native_q32_magnitude_3d, native_q32_magnitude_3d_spec};

verus! {

/// The share of a second a logic tick lasts, in Q32.32: a hundred time units
/// of two thousand, truncated.
pub const TICK_SECONDS_Q32: i64 = 214_748_364i64;

/// A projectile: its identity, its team and the unit that fired it, what it
/// flies at, where it is in space units and in Q32.32 metres, where it last
/// knew its target to be and how large, its speed in space units a second,
/// the damage it carries, its life, and whether it follows its target.
#[derive(Debug, Clone, Copy, PartialEq, Eq, Structural)]
pub struct Projectile {
    pub id: u64,
    pub team: u32,
    pub owner: u64,
    pub target_kind: ObjectKind,
    pub target: u64,
    pub x: i64,
    pub y: i64,
    pub z: i64,
    pub x_q32: i64,
    pub y_q32: i64,
    pub z_q32: i64,
    pub cached_target_x: i64,
    pub cached_target_y: i64,
    pub cached_target_z: i64,
    pub cached_target_x_q32: i64,
    pub cached_target_y_q32: i64,
    pub cached_target_z_q32: i64,
    pub cached_target_radius: i64,
    pub speed: i64,
    pub damage: i64,
    pub life: i64,
    pub lock_target: bool,
}

/// How far a projectile of `speed` flies in a tick, in Q32.32 metres.
pub open spec fn flight_step_spec(speed: i64) -> int {
    q32_mul_spec(space_to_q32_spec(speed as int), TICK_SECONDS_Q32 as int)
}

/// How far a projectile is from where it knows its target to be, in Q32.32
/// metres.
pub open spec fn remaining_spec(projectile: Projectile) -> i64 {
    native_q32_magnitude_3d_spec(
        clamp_i64(projectile.cached_target_x_q32 - projectile.x_q32) as i64,
        clamp_i64(projectile.cached_target_y_q32 - projectile.y_q32) as i64,
        clamp_i64(projectile.cached_target_z_q32 - projectile.z_q32) as i64,
    )
}

/// Whether a projectile has arrived: it is nearer its target than the
/// target's radius.
pub open spec fn arrived_spec(projectile: Projectile) -> bool {
    remaining_spec(projectile) < space_to_q32_spec(projectile.cached_target_radius as int)
}

/// One coordinate moved `travel` along an offset of `delta` out of
/// `distance`.
pub open spec fn advanced(position: i64, delta: i64, reciprocal: int, travel: int) -> i64 {
    clamp_i64(position + q32_mul_spec(q32_mul_spec(delta as int, reciprocal), travel)) as i64
}

/// Where a projectile that has not arrived is after a tick: moved toward its
/// target by its step, or by what remains when that is less; unmoved when it
/// stands on the target's point.
pub open spec fn flown_spec(projectile: Projectile) -> Projectile {
    let dx = clamp_i64(projectile.cached_target_x_q32 - projectile.x_q32) as i64;
    let dy = clamp_i64(projectile.cached_target_y_q32 - projectile.y_q32) as i64;
    let dz = clamp_i64(projectile.cached_target_z_q32 - projectile.z_q32) as i64;
    let distance = remaining_spec(projectile);
    let (x_q32, y_q32, z_q32) = if distance > 0 {
        let travel = min_int(flight_step_spec(projectile.speed), distance as int);
        let reciprocal = q32_div_spec(Q32_ONE as int, distance as int);
        (
            advanced(projectile.x_q32, dx, reciprocal, travel),
            advanced(projectile.y_q32, dy, reciprocal, travel),
            advanced(projectile.z_q32, dz, reciprocal, travel),
        )
    } else {
        (projectile.x_q32, projectile.y_q32, projectile.z_q32)
    };
    Projectile {
        x_q32,
        y_q32,
        z_q32,
        x: q32_to_space_rounded_spec(x_q32 as int) as i64,
        y: q32_to_space_rounded_spec(y_q32 as int) as i64,
        z: q32_to_space_rounded_spec(z_q32 as int) as i64,
        ..projectile
    }
}

impl Projectile {
    /// Learns where its target stands now: a living unit it follows, at
    /// `(x, z)` in space units and in Q32.32 metres, `height` above the
    /// ground and of `radius`.
    pub fn follow(&mut self, x: i64, z: i64, x_q32: i64, z_q32: i64, height: i64, radius: i64)
        ensures
            *final(self) == (Projectile {
                cached_target_x: x,
                cached_target_y: height,
                cached_target_z: z,
                cached_target_x_q32: x_q32,
                cached_target_y_q32: space_to_q32_spec(height as int) as i64,
                cached_target_z_q32: z_q32,
                cached_target_radius: radius,
                ..*old(self)
            }),
    {
        self.cached_target_x = x;
        self.cached_target_y = height;
        self.cached_target_z = z;
        self.cached_target_x_q32 = x_q32;
        self.cached_target_y_q32 = space_to_q32(height);
        self.cached_target_z_q32 = z_q32;
        self.cached_target_radius = radius;
    }

    /// One tick of flight: whether the projectile has arrived, which leaves
    /// it where it is; otherwise it flies one step toward its target.
    pub fn fly(&mut self) -> (arrived: bool)
        ensures
            arrived == arrived_spec(*old(self)),
            arrived ==> *final(self) == *old(self),
            !arrived ==> *final(self) == flown_spec(*old(self)),
    {
        let dx = saturating_sub(self.cached_target_x_q32, self.x_q32);
        let dz = saturating_sub(self.cached_target_z_q32, self.z_q32);
        let dy = saturating_sub(self.cached_target_y_q32, self.y_q32);
        let distance = native_q32_magnitude_3d(dx, dy, dz);
        if distance < space_to_q32(self.cached_target_radius) {
            return true;
        }
        let step = q32_mul(space_to_q32(self.speed), TICK_SECONDS_Q32);
        if distance > 0 {
            let travel = if step < distance {
                step
            } else {
                distance
            };
            let reciprocal = q32_div(Q32_ONE, distance);
            self.x_q32 = saturating_add(self.x_q32, q32_mul(q32_mul(dx, reciprocal), travel));
            self.y_q32 = saturating_add(self.y_q32, q32_mul(q32_mul(dy, reciprocal), travel));
            self.z_q32 = saturating_add(self.z_q32, q32_mul(q32_mul(dz, reciprocal), travel));
        }
        self.x = q32_to_space_rounded(self.x_q32);
        self.y = q32_to_space_rounded(self.y_q32);
        self.z = q32_to_space_rounded(self.z_q32);
        false
    }

    /// The hit a projectile lands for an owner now of `owner_team` with a
    /// splash of `splash_radius`: aimed at what it flew at, narrowed to that
    /// target's domain (the ground for a building, `target_domain` for a
    /// unit), striking it wherever it stands only when it followed it, and
    /// splashing from where the projectile is.
    pub fn hit(&self, owner_team: u32, splash_radius: i64, target_domain: UnitDomain) -> (hit: DamageHit)
        ensures
            hit.team == owner_team,
            hit.aimed == (if self.target_kind == ObjectKind::Building {
                FightActorRef::Building(self.target)
            } else {
                FightActorRef::Unit(self.target)
            }),
            hit.reach == Reach::Domain(if self.target_kind == ObjectKind::Building {
                UnitDomain::Ground
            } else {
                target_domain
            }),
            hit.hits_aimed == self.lock_target,
            hit.center == (self.x, self.z),
            hit.splash_radius == splash_radius,
    {
        let (aimed, reach) = if self.target_kind == ObjectKind::Building {
            (FightActorRef::Building(self.target), Reach::Domain(UnitDomain::Ground))
        } else {
            (FightActorRef::Unit(self.target), Reach::Domain(target_domain))
        };
        DamageHit {
            team: owner_team,
            aimed,
            hits_aimed: self.lock_target,
            center: (self.x, self.z),
            splash_radius,
            reach,
        }
    }
}

} // verus!
