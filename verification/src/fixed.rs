use vstd::prelude::*;

verus! {

/// `x` held to the closed range from `lo` to `hi`.
pub open spec fn clamp(x: int, lo: int, hi: int) -> int {
    if x < lo {
        lo
    } else if x > hi {
        hi
    } else {
        x
    }
}

/// `x` held to the range of a 32-bit signed integer.
pub open spec fn clamp_i32(x: int) -> int {
    clamp(x, i32::MIN as int, i32::MAX as int)
}

/// Quotient of `a` by a positive `b`, rounded toward zero.
pub open spec fn trunc_div(a: int, b: int) -> int {
    if a >= 0 {
        a / b
    } else {
        -((-a) / b)
    }
}

/// Truncating division toward zero is symmetric, and shrinks magnitudes.
pub proof fn lemma_trunc_div_bounds(a: int, b: int)
    requires
        b > 0,
    ensures
        a >= 0 ==> 0 <= trunc_div(a, b) <= a,
        a <= 0 ==> a <= trunc_div(a, b) <= 0,
        trunc_div(-a, b) == -trunc_div(a, b),
{
    if a >= 0 {
        assert(0 <= a / b <= a) by (nonlinear_arith)
            requires
                a >= 0,
                b > 0,
        ;
    } else {
        assert(0 <= (-a) / b <= -a) by (nonlinear_arith)
            requires
                a < 0,
                b > 0,
        ;
    }
}

/// Quotient of `a` by a positive `b`, rounded toward zero.
pub fn div_toward_zero(a: i128, b: u64) -> (q: i128)
    requires
        b > 0,
        a > i128::MIN,
    ensures
        q == trunc_div(a as int, b as int),
{
    proof {
        lemma_trunc_div_bounds(a as int, b as int);
    }
    if a >= 0 {
        let m: u128 = a as u128;
        (m / (b as u128)) as i128
    } else {
        let m: u128 = (-a) as u128;
        -((m / (b as u128)) as i128)
    }
}

/// `x` held to the range of a 32-bit signed integer.
pub fn narrow(x: i128) -> (n: i32)
    ensures
        n == clamp_i32(x as int),
{
    if x < i32::MIN as i128 {
        i32::MIN
    } else if x > i32::MAX as i128 {
        i32::MAX
    } else {
        x as i32
    }
}

/// Whether `r` is the largest natural number whose square does not exceed `n`.
pub open spec fn is_floor_sqrt(n: nat, r: nat) -> bool {
    r * r <= n < (r + 1) * (r + 1)
}

/// The largest natural number whose square does not exceed `n`.
pub open spec fn floor_sqrt(n: nat) -> nat {
    choose|r: nat| is_floor_sqrt(n, r)
}

/// Squaring is monotonic on the naturals.
pub proof fn lemma_square_le(a: nat, b: nat)
    requires
        a <= b,
    ensures
        a * a <= b * b,
{
    assert(a * a <= b * b) by (nonlinear_arith)
        requires
            a <= b,
    ;
}

/// Every natural number has a floor square root.
pub proof fn lemma_floor_sqrt_exists(n: nat)
    ensures
        exists|r: nat| is_floor_sqrt(n, r),
    decreases n,
{
    if n == 0 {
        assert(0nat * 0nat == 0 && (0nat + 1) * (0nat + 1) == 1) by (nonlinear_arith);
        assert(is_floor_sqrt(n, 0));
    } else {
        let m: nat = (n - 1) as nat;
        lemma_floor_sqrt_exists(m);
        let r = choose|r: nat| is_floor_sqrt(m, r);
        if (r + 1) * (r + 1) <= n {
            let q: nat = r + 1;
            assert(n < (q + 1) * (q + 1)) by (nonlinear_arith)
                requires
                    n - 1 < q * q,
            ;
            assert(is_floor_sqrt(n, q));
        } else {
            assert(is_floor_sqrt(n, r));
        }
    }
}

/// The floor square root of `n` squares to at most `n`, and its successor
/// squares to more.
pub proof fn lemma_floor_sqrt_bounds(n: nat)
    ensures
        is_floor_sqrt(n, floor_sqrt(n)),
{
    lemma_floor_sqrt_exists(n);
}

/// A number caught between two consecutive squares is the floor square root.
pub proof fn lemma_floor_sqrt_is(n: nat, r: nat)
    requires
        is_floor_sqrt(n, r),
    ensures
        floor_sqrt(n) == r,
{
    let s = floor_sqrt(n);
    assert(is_floor_sqrt(n, s));
    if s < r {
        lemma_square_le(s + 1, r);
    }
    if r < s {
        lemma_square_le(r + 1, s);
    }
}

/// Nothing whose square fits under `n` exceeds the floor square root of `n`.
pub proof fn lemma_floor_sqrt_max(n: nat, a: nat)
    requires
        a * a <= n,
    ensures
        a <= floor_sqrt(n),
{
    lemma_floor_sqrt_bounds(n);
    let s = floor_sqrt(n);
    if a > s {
        lemma_square_le(s + 1, a);
    }
}

/// Floor square root by bisection.
pub fn isqrt(n: u128) -> (r: u64)
    ensures
        r == floor_sqrt(n as nat),
        is_floor_sqrt(n as nat, r as nat),
{
    let mut lo: u128 = 0;
    let mut hi: u128 = 0x1_0000_0000_0000_0000;
    assert(n < hi * hi) by (nonlinear_arith)
        requires
            hi == 0x1_0000_0000_0000_0000u128,
            n <= u128::MAX,
    ;
    while hi - lo > 1
        invariant
            lo < hi <= 0x1_0000_0000_0000_0000,
            lo * lo <= n < hi * hi,
        decreases hi - lo,
    {
        let mid: u128 = lo + (hi - lo) / 2;
        assert(mid * mid <= u128::MAX) by (nonlinear_arith)
            requires
                mid < 0x1_0000_0000_0000_0000,
        ;
        if mid * mid <= n {
            lo = mid;
        } else {
            hi = mid;
        }
    }
    proof {
        lemma_floor_sqrt_is(n as nat, lo as nat);
    }
    lo as u64
}

/// The parts that one unit of length is split into where the length of a
/// vector is taken.
pub const FINE: u64 = 65536;

/// The length of a vector whose squared length is `sq`, counted in parts of
/// `1 / FINE` and rounded down.
pub open spec fn fine_length(sq: nat) -> nat {
    floor_sqrt(sq * 65536 * 65536)
}

/// How far a step of length `step` carries along one axis, where the step
/// follows a vector of fine length `length` whose component on that axis is
/// `d`: `d * step` over the vector's length, rounded toward zero. A vector
/// without length has no direction and carries nowhere.
pub open spec fn along(d: int, length: int, step: int) -> int {
    if length == 0 {
        0
    } else {
        trunc_div(d * 65536 * step, length)
    }
}

/// Only the vector of squared length zero has fine length zero; every other
/// fine length is at least `FINE`.
pub proof fn lemma_fine_length_zero(sq: nat)
    ensures
        sq == 0 ==> fine_length(sq) == 0,
        sq > 0 ==> fine_length(sq) >= 65536,
{
    if sq == 0 {
        assert(is_floor_sqrt(0, 0)) by (nonlinear_arith);
        lemma_floor_sqrt_is(0, 0);
    } else {
        assert(65536 * 65536 <= sq * 65536 * 65536) by (nonlinear_arith)
            requires
                sq >= 1,
        ;
        lemma_floor_sqrt_max(sq * 65536 * 65536, 65536);
    }
}

/// A step carries toward the side of the component, and by no more than its
/// own length, along any vector that is at least as long as the component.
pub proof fn lemma_along_bounds(d: int, sq: nat, step: int)
    requires
        0 <= step,
        d * d <= sq,
    ensures
        d >= 0 ==> 0 <= along(d, fine_length(sq) as int, step) <= step,
        d <= 0 ==> -step <= along(d, fine_length(sq) as int, step) <= 0,
{
    let length = fine_length(sq) as int;
    let m: nat = if d >= 0 {
        d as nat
    } else {
        (-d) as nat
    };
    let fine: nat = m * 65536;
    assert(fine * fine <= sq * 65536 * 65536) by (nonlinear_arith)
        requires
            fine == m * 65536,
            m == d || m == -d,
            d * d <= sq,
    ;
    lemma_floor_sqrt_max(sq * 65536 * 65536, fine);
    if length > 0 {
        assert(0 <= (fine * step) / length <= step) by (nonlinear_arith)
            requires
                0 <= fine <= length,
                0 < length,
                0 <= step,
        ;
        assert(d >= 0 ==> d * 65536 * step == fine * step && d * 65536 * step >= 0)
            by (nonlinear_arith)
            requires
                fine == m * 65536,
                m == d || m == -d,
                0 <= m,
                0 <= step,
        ;
        assert(d <= 0 ==> -(d * 65536 * step) == fine * step && d * 65536 * step <= 0)
            by (nonlinear_arith)
            requires
                fine == m * 65536,
                m == d || m == -d,
                0 <= m,
                0 <= step,
        ;
    }
}

/// The absolute value of `x`.
pub open spec fn magnitude(x: int) -> int {
    if x >= 0 {
        x
    } else {
        -x
    }
}

/// What a step carries along an axis, times the length of the vector it
/// follows, falls short of the component times the step by less than that
/// length: the carry is the exact quotient rounded toward zero.
pub proof fn lemma_along_is_quotient(d: int, length: int, step: int)
    requires
        0 < length,
        0 <= step,
    ensures
        magnitude(along(d, length, step)) * length <= magnitude(d) * 65536 * step,
        magnitude(d) * 65536 * step < (magnitude(along(d, length, step)) + 1) * length,
{
    let a = magnitude(d) * 65536 * step;
    assert(a >= 0) by (nonlinear_arith)
        requires
            a == magnitude(d) * 65536 * step,
            magnitude(d) >= 0,
            step >= 0,
    ;
    assert(d >= 0 ==> d * 65536 * step == a);
    assert(d < 0 ==> -(d * 65536 * step) == a) by (nonlinear_arith)
        requires
            a == magnitude(d) * 65536 * step,
            d < 0 ==> magnitude(d) == -d,
    ;
    assert(d < 0 ==> d * 65536 * step <= 0);
    assert(magnitude(along(d, length, step)) == a / length) by {
        if d < 0 && a == 0 {
            assert(0int / length == 0) by (nonlinear_arith)
                requires
                    length > 0,
            ;
        }
        assert(0 <= a / length) by (nonlinear_arith)
            requires
                a >= 0,
                length > 0,
        ;
    }
    assert((a / length) * length <= a < (a / length + 1) * length) by (nonlinear_arith)
        requires
            a >= 0,
            length > 0,
    ;
}

/// A step along a vector is as long as asked, less the rounding: with one
/// coordinate unit added on each axis it is longer than the step, and it is
/// longer than the step by less than one part in the vector's fine length.
pub proof fn lemma_step_length(dx: int, dy: int, step: int)
    requires
        0 <= step,
        dx != 0 || dy != 0,
    ensures
        ({
            let length = fine_length((dx * dx + dy * dy) as nat) as int;
            let cx = magnitude(along(dx, length, step));
            let cy = magnitude(along(dy, length, step));
            &&& length >= 65536
            &&& (cx + 1) * (cx + 1) + (cy + 1) * (cy + 1) > step * step
            &&& (cx * cx + cy * cy) * (length * length) <= (step * step) * ((length + 1) * (length
                + 1))
        }),
{
    assert(dx * dx + dy * dy > 0) by (nonlinear_arith)
        requires
            dx != 0 || dy != 0,
    ;
    let sq = (dx * dx + dy * dy) as nat;
    let length = fine_length(sq) as int;
    lemma_fine_length_zero(sq);
    lemma_floor_sqrt_bounds(sq * 65536 * 65536);
    let whole = sq * 65536 * 65536;
    assert(length * length <= whole < (length + 1) * (length + 1));
    let cx = magnitude(along(dx, length, step));
    let cy = magnitude(along(dy, length, step));
    let ax = magnitude(dx) * 65536 * step;
    let ay = magnitude(dy) * 65536 * step;
    lemma_along_is_quotient(dx, length, step);
    lemma_along_is_quotient(dy, length, step);
    assert(magnitude(dx) * magnitude(dx) == dx * dx) by (nonlinear_arith)
        requires
            magnitude(dx) == dx || magnitude(dx) == -dx,
    ;
    assert(magnitude(dy) * magnitude(dy) == dy * dy) by (nonlinear_arith)
        requires
            magnitude(dy) == dy || magnitude(dy) == -dy,
    ;
    assert(ax * ax + ay * ay == whole * (step * step)) by (nonlinear_arith)
        requires
            ax == magnitude(dx) * 65536 * step,
            ay == magnitude(dy) * 65536 * step,
            magnitude(dx) * magnitude(dx) == dx * dx,
            magnitude(dy) * magnitude(dy) == dy * dy,
            whole == (dx * dx + dy * dy) * 65536 * 65536,
    ;
    // From above: each carry times the length is at most its exact product.
    lemma_square_le((cx * length) as nat, ax as nat);
    lemma_square_le((cy * length) as nat, ay as nat);
    assert((cx * length) * (cx * length) == (cx * cx) * (length * length)) by (nonlinear_arith);
    assert((cy * length) * (cy * length) == (cy * cy) * (length * length)) by (nonlinear_arith);
    assert((cx * cx + cy * cy) * (length * length) == (cx * cx) * (length * length) + (cy * cy) * (
    length * length)) by (nonlinear_arith);
    assert(whole * (step * step) <= (step * step) * ((length + 1) * (length + 1)))
        by (nonlinear_arith)
        requires
            whole < (length + 1) * (length + 1),
            0 <= step,
    ;
    // From below: each carry and one more, times the length, exceeds it.
    lemma_square_lt(ax as nat, ((cx + 1) * length) as nat);
    lemma_square_lt(ay as nat, ((cy + 1) * length) as nat);
    let sum = (cx + 1) * (cx + 1) + (cy + 1) * (cy + 1);
    assert(((cx + 1) * length) * ((cx + 1) * length) == ((cx + 1) * (cx + 1)) * (length * length))
        by (nonlinear_arith);
    assert(((cy + 1) * length) * ((cy + 1) * length) == ((cy + 1) * (cy + 1)) * (length * length))
        by (nonlinear_arith);
    assert(sum * (length * length) == ((cx + 1) * (cx + 1)) * (length * length) + ((cy + 1) * (cy
        + 1)) * (length * length)) by (nonlinear_arith)
        requires
            sum == (cx + 1) * (cx + 1) + (cy + 1) * (cy + 1),
    ;
    assert(sum * (length * length) > whole * (step * step));
    assert((length * length) * (step * step) <= whole * (step * step)) by (nonlinear_arith)
        requires
            length * length <= whole,
            0 <= step,
    ;
    assert(sum > step * step) by (nonlinear_arith)
        requires
            sum * (length * length) > (length * length) * (step * step),
            length > 0,
    ;
}

/// Squaring is strictly monotonic on the naturals.
pub proof fn lemma_square_lt(a: nat, b: nat)
    requires
        a < b,
    ensures
        a * a < b * b,
{
    assert(a * a < b * b) by (nonlinear_arith)
        requires
            0 <= a < b,
    ;
}

/// The length of a vector whose squared length is `sq`, counted in parts of
/// `1 / FINE` and rounded down.
pub(crate) fn fine_length_of(sq: u128) -> (length: u64)
    requires
        sq <= 0x2_0000_0000_0000_0000,
    ensures
        length == fine_length(sq as nat),
        sq == 0 <==> length == 0,
{
    proof {
        lemma_fine_length_zero(sq as nat);
    }
    assert(sq * 65536 * 65536 <= 0x2_0000_0000_0000_0000 * 65536 * 65536) by (nonlinear_arith)
        requires
            sq <= 0x2_0000_0000_0000_0000,
    ;
    isqrt(sq * 65536 * 65536)
}

/// How far a step of length `step` carries along one axis, where the step
/// follows a vector of fine length `length` whose component on that axis is
/// `d`.
pub(crate) fn carry(d: i64, length: u64, step: u64) -> (c: i128)
    requires
        -0x1_0000_0000 <= d <= 0x1_0000_0000,
    ensures
        c == along(d as int, length as int, step as int),
{
    if length == 0 {
        0
    } else {
        assert(-0x1_0000_0000 * 65536 * 0x1_0000_0000_0000_0000 <= d * 65536 * step
            <= 0x1_0000_0000 * 65536 * 0x1_0000_0000_0000_0000) by (nonlinear_arith)
            requires
                -0x1_0000_0000 <= d <= 0x1_0000_0000,
                0 <= step <= 0x1_0000_0000_0000_0000,
        ;
        div_toward_zero((d as i128) * 65536 * (step as i128), length)
    }
}

} // verus!
