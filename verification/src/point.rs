use vstd::prelude::*;
use crate::fixed::clamp_i32;
use crate::fixed::along;
use crate::fixed::carry;
use crate::fixed::fine_length;
use crate::fixed::fine_length_of;
use crate::fixed::lemma_along_bounds;
use crate::fixed::lemma_trunc_div_bounds;
use crate::fixed::magnitude;
use crate::fixed::narrow;

verus! {

/// Coordinate units in one world unit.
pub const UNIT: i32 = 1_000_000;

/// A place on the world plane, in millionths of a world unit. The origin is
/// the middle of the canvas, `x` grows to the right and `y` grows upward. The
/// plane ends where a coordinate leaves the 32-bit range, some 2147 world
/// units from the origin.
#[derive(Clone, Copy, Debug, PartialEq, Eq, Structural)]
pub struct Point {
    pub x: i32,
    pub y: i32,
}

impl Point {
    /// Squared distance to `other`.
    pub open spec fn dist_sq(self, other: Point) -> nat {
        ((other.x - self.x) * (other.x - self.x) + (other.y - self.y) * (other.y - self.y)) as nat
    }

    /// The point reached from here by a step of length `step` in the direction
    /// of `target`, each coordinate held to the 32-bit range. A target at this
    /// very point gives no direction, and the point stays.
    pub open spec fn toward(self, target: Point, step: int) -> Point {
        let length = fine_length(self.dist_sq(target)) as int;
        Point {
            x: clamp_i32(self.x + along(target.x - self.x, length, step)) as i32,
            y: clamp_i32(self.y + along(target.y - self.y, length, step)) as i32,
        }
    }

    /// Squared distance to `other`.
    pub fn distance_squared(&self, other: &Point) -> (d: u128)
        ensures
            d == self.dist_sq(*other),
            d <= 0x2_0000_0000_0000_0000,
    {
        let dx: i128 = other.x as i128 - self.x as i128;
        let dy: i128 = other.y as i128 - self.y as i128;
        assert(0 <= dx * dx <= 0x1_0000_0000_0000_0000) by (nonlinear_arith)
            requires
                -0x1_0000_0000 <= dx <= 0x1_0000_0000,
        ;
        assert(0 <= dy * dy <= 0x1_0000_0000_0000_0000) by (nonlinear_arith)
            requires
                -0x1_0000_0000 <= dy <= 0x1_0000_0000,
        ;
        (dx * dx + dy * dy) as u128
    }

    /// The point reached from here by a step of length `step` in the direction
    /// of `target`.
    pub fn step_toward(&self, target: &Point, step: u64) -> (p: Point)
        ensures
            p == self.toward(*target, step as int),
    {
        let length: u64 = fine_length_of(self.distance_squared(target));
        Point {
            x: move_along(self.x, target.x, length, step),
            y: move_along(self.y, target.y, length, step),
        }
    }
}

/// A step toward a target moves no coordinate away from the target, and none
/// by more than the length of the step.
pub proof fn lemma_step_bounds(from: Point, target: Point, step: int)
    requires
        0 <= step,
    ensures
        target.x >= from.x ==> from.x <= from.toward(target, step).x <= from.x + step,
        target.x <= from.x ==> from.x - step <= from.toward(target, step).x <= from.x,
        target.y >= from.y ==> from.y <= from.toward(target, step).y <= from.y + step,
        target.y <= from.y ==> from.y - step <= from.toward(target, step).y <= from.y,
{
    let n = from.dist_sq(target);
    let dx = target.x - from.x;
    let dy = target.y - from.y;
    assert(dx * dx >= 0 && dy * dy >= 0) by (nonlinear_arith);
    lemma_along_bounds(dx, n, step);
    lemma_along_bounds(dy, n, step);
}

/// A step toward a target elsewhere is as long as asked, less the rounding.
/// Where the step stays on the plane, the distance covered on the two axes,
/// with one coordinate unit added to each, is longer than the step; and it is
/// longer than the step by less than one part in the fine length of the way,
/// which is at least `FINE`.
pub proof fn lemma_step_length(from: Point, target: Point, step: int)
    requires
        0 <= step,
        from != target,
        i32::MIN <= from.x - step,
        from.x + step <= i32::MAX,
        i32::MIN <= from.y - step,
        from.y + step <= i32::MAX,
    ensures
        ({
            let to = from.toward(target, step);
            let length = fine_length(from.dist_sq(target)) as int;
            let mx = magnitude(to.x - from.x);
            let my = magnitude(to.y - from.y);
            &&& length >= 65536
            &&& (mx + 1) * (mx + 1) + (my + 1) * (my + 1) > step * step
            &&& (mx * mx + my * my) * (length * length) <= (step * step) * ((length + 1) * (length
                + 1))
        }),
{
    let dx = target.x - from.x;
    let dy = target.y - from.y;
    assert(dx * dx >= 0 && dy * dy >= 0) by (nonlinear_arith);
    lemma_along_bounds(dx, from.dist_sq(target), step);
    lemma_along_bounds(dy, from.dist_sq(target), step);
    crate::fixed::lemma_step_length(dx, dy, step);
}

/// One coordinate after a step along a way of the given fine length.
fn move_along(from: i32, to: i32, length: u64, step: u64) -> (c: i32)
    ensures
        c == clamp_i32(from + along(to - from, length as int, step as int)),
{
    let moved: i128 = carry(to as i64 - from as i64, length, step);
    proof {
        if length > 0 {
            lemma_trunc_div_bounds((to - from) * 65536 * step, length as int);
            assert(-0x1_0000_0000 * 65536 * 0x1_0000_0000_0000_0000 <= (to - from) * 65536 * step
                <= 0x1_0000_0000 * 65536 * 0x1_0000_0000_0000_0000) by (nonlinear_arith)
                requires
                    -0x1_0000_0000 <= to - from <= 0x1_0000_0000,
                    0 <= step <= 0x1_0000_0000_0000_0000,
            ;
        }
    }
    narrow(from as i128 + moved)
}

} // verus!
