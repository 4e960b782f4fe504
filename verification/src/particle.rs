use vstd::prelude::*;
use crate::chance::random_range;
use crate::fixed::clamp_i32;
use crate::pixel::Pixel;
use crate::point::Point;

verus! {

/// The lowest level a channel of a particle's colour is drawn from.
pub const TINT_MIN: u8 = 210;

/// The level that a channel of a particle's colour stays below.
pub const TINT_END: u8 = 255;

/// A wandering particle. It walks toward its near target, which itself walks
/// toward its far target half again as fast.
#[derive(Clone, Copy, Debug, PartialEq, Eq, Structural)]
pub struct Particle {
    pub position: Point,
    pub near_target: Point,
    pub far_target: Point,
    /// World units per second.
    pub speed: u32,
    /// World units; only drawing uses it.
    pub radius: u32,
    pub color: Pixel,
}

/// How far from the middle of a canvas side of `side` cells a fresh target may
/// lie, in coordinate units: half the side less a margin of one world unit,
/// and nothing for a side too short to leave a margin.
pub open spec fn reach(side: u32) -> int {
    if side / 2 >= 1 {
        (side / 2 - 1) * 1_000_000
    } else {
        0
    }
}

/// Whether `c` is a coordinate that a fresh target may have on a canvas side
/// of `side` cells: at least the reach to the low side and less than the reach
/// to the high side, both held to the 32-bit range; zero where the reach is
/// zero.
pub open spec fn in_span(c: int, side: u32) -> bool {
    if reach(side) == 0 {
        c == 0
    } else {
        clamp_i32(-reach(side)) <= c < clamp_i32(reach(side))
    }
}

/// Whether `p` is a place that a fresh target may have on a canvas of the
/// given dimensions.
pub open spec fn in_field(p: Point, width: u32, height: u32) -> bool {
    in_span(p.x as int, width) && in_span(p.y as int, height)
}

impl Particle {
    /// Whether the particle is within the arrival distance of its near
    /// target: the squared distance does not exceed `eps`.
    pub open spec fn arrived(self, eps: u64) -> bool {
        self.position.dist_sq(self.near_target) <= eps
    }

    /// The length of the particle's own step in a tick of `dt_ms`
    /// milliseconds, in coordinate units: a speed of one world unit per second
    /// covers a thousand coordinate units in a millisecond.
    pub open spec fn stride(self, dt_ms: u16) -> int {
        self.speed * dt_ms * 1000
    }

    /// The length of the near target's step in a tick of `dt_ms` milliseconds:
    /// one and a half times the particle's own.
    pub open spec fn near_stride(self, dt_ms: u16) -> int {
        self.speed * dt_ms * 1500
    }

    /// The particle after a tick of `dt_ms` milliseconds. Where it has
    /// arrived at its near target it first takes the fresh targets, else it
    /// keeps its own. Then the near target steps toward the far target, and
    /// then the particle steps toward the near target where that now stands.
    pub open spec fn advanced(
        self,
        dt_ms: u16,
        eps: u64,
        fresh_far: Point,
        fresh_near: Point,
    ) -> Particle {
        let far = if self.arrived(eps) {
            fresh_far
        } else {
            self.far_target
        };
        let near = if self.arrived(eps) {
            fresh_near
        } else {
            self.near_target
        };
        let near = near.toward(far, self.near_stride(dt_ms));
        Particle {
            position: self.position.toward(near, self.stride(dt_ms)),
            near_target: near,
            far_target: far,
            speed: self.speed,
            radius: self.radius,
            color: self.color,
        }
    }

    /// A particle at rest at the origin, both targets at the origin too.
    pub fn new(speed: u32, radius: u32, color: Pixel) -> (p: Particle)
        ensures
            p == (Particle {
                position: Point { x: 0, y: 0 },
                near_target: Point { x: 0, y: 0 },
                far_target: Point { x: 0, y: 0 },
                speed,
                radius,
                color,
            }),
    {
        let origin = Point { x: 0, y: 0 };
        Particle { position: origin, near_target: origin, far_target: origin, speed, radius, color }
    }

    /// A particle at rest at the origin with a freshly drawn light colour:
    /// opaque, each colour channel from `TINT_MIN` up to but not including
    /// `TINT_END`.
    pub fn spawn(speed: u32, radius: u32) -> (p: Particle)
        ensures
            p.position == (Point { x: 0, y: 0 }),
            p.near_target == (Point { x: 0, y: 0 }),
            p.far_target == (Point { x: 0, y: 0 }),
            p.speed == speed,
            p.radius == radius,
            p.color.a == 255,
            TINT_MIN <= p.color.r < TINT_END,
            TINT_MIN <= p.color.g < TINT_END,
            TINT_MIN <= p.color.b < TINT_END,
    {
        let color = Pixel {
            r: random_range(TINT_MIN as i64, TINT_END as i64) as u8,
            g: random_range(TINT_MIN as i64, TINT_END as i64) as u8,
            b: random_range(TINT_MIN as i64, TINT_END as i64) as u8,
            a: 255,
        };
        Particle::new(speed, radius, color)
    }

    /// Whether the particle is within the arrival distance of its near
    /// target.
    pub fn has_arrived(&self, eps: u64) -> (yes: bool)
        ensures
            yes == self.arrived(eps),
    {
        self.position.distance_squared(&self.near_target) <= eps as u128
    }

    /// Moves the particle through a tick of `dt_ms` milliseconds, with the
    /// targets it is to take if it has arrived. Says whether it took them,
    /// which it does exactly when it has arrived.
    pub fn advance_with(&mut self, dt_ms: u16, eps: u64, fresh_far: Point, fresh_near: Point) -> (took: bool)
        ensures
            took == old(self).arrived(eps),
            *final(self) == old(self).advanced(dt_ms, eps, fresh_far, fresh_near),
            took ==> final(self).far_target == fresh_far,
            !took ==> final(self).far_target == old(self).far_target,
    {
        let took: bool = self.has_arrived(eps);
        if took {
            self.far_target = fresh_far;
            self.near_target = fresh_near;
        }
        assert(0 <= self.speed * dt_ms <= 0xffff_ffff * 0xffff) by (nonlinear_arith)
            requires
                0 <= self.speed <= 0xffff_ffff,
                0 <= dt_ms <= 0xffff,
        ;
        let stride: u64 = (self.speed as u64) * (dt_ms as u64) * 1000;
        let near_stride: u64 = (self.speed as u64) * (dt_ms as u64) * 1500;
        self.near_target = self.near_target.step_toward(&self.far_target, near_stride);
        self.position = self.position.step_toward(&self.near_target, stride);
        took
    }

    /// Moves the particle through a tick of `dt_ms` milliseconds on a canvas
    /// of the given dimensions. A particle that has arrived first gets a
    /// fresh far target and a fresh near target, each drawn inside the
    /// canvas less a margin of one world unit.
    pub fn advance(&mut self, dt_ms: u16, eps: u64, width: u32, height: u32) -> (took: bool)
        ensures
            took == old(self).arrived(eps),
            exists|far: Point, near: Point|
                {
                    &&& in_field(far, width, height)
                    &&& in_field(near, width, height)
                    &&& *final(self) == #[trigger] old(self).advanced(dt_ms, eps, far, near)
                },
            !took ==> final(self).far_target == old(self).far_target,
    {
        let (far, near) = if self.has_arrived(eps) {
            let far = random_point(width, height);
            let near = random_point(width, height);
            (far, near)
        } else {
            (Point { x: 0, y: 0 }, Point { x: 0, y: 0 })
        };
        self.advance_with(dt_ms, eps, far, near)
    }
}

/// A coordinate drawn within reach of the middle of a side of `side` cells.
fn random_coordinate(side: u32) -> (c: i32)
    ensures
        in_span(c as int, side),
{
    let half: u32 = side / 2;
    if half <= 1 {
        0
    } else {
        let span: i64 = (half as i64 - 1) * 1_000_000;
        let low: i64 = if -span < i32::MIN as i64 {
            i32::MIN as i64
        } else {
            -span
        };
        let high: i64 = if span > i32::MAX as i64 {
            i32::MAX as i64
        } else {
            span
        };
        random_range(low, high) as i32
    }
}

/// A place drawn inside a canvas of the given dimensions less a margin of one
/// world unit.
pub fn random_point(width: u32, height: u32) -> (p: Point)
    ensures
        in_field(p, width, height),
{
    Point { x: random_coordinate(width), y: random_coordinate(height) }
}

} // verus!
