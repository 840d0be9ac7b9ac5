//! Exact angular-window tests on integer vectors.
//!
//! The selector must decide whether the polar angle of a candidate vector
//! `v` lies inside the window `[t - h, t + h]`, where `t` is the polar
//! angle of the movement direction `d` and `h` is half the configured
//! scope angle. Polar angles are the values of `atan2` in `(-pi, pi]`, and
//! the window bounds are *not* normalised: a window that sticks out past
//! the `+-pi` seam is cut off there, so a candidate just across the seam
//! is excluded even when its direction is close to `d`. That literal,
//! non-wrapping comparison is the selector's documented behaviour.
//!
//! Nothing here computes an angle. The test is decided exactly:
//!
//! * The raw offset `angle(v) - angle(d)` lies in `[-pi, pi]` if and only
//!   if it equals the *wrapped* offset between the two directions; whether
//!   it overshoots is decided by comparing `angle(v)` with the angle of
//!   `-d`, and comparisons of two `atan2` values are decided by ordering
//!   the eight sign-classes of the plane and, within a class, by the sign
//!   of a cross product.
//! * Once the raw offset is known to be wrapped, `|offset| <= h` holds iff
//!   `cos(offset) >= cos(h)`, because both lie in `[0, pi]` where the
//!   cosine is strictly decreasing. With `cos(h)` given as an exact
//!   rational `num/den` (see [`ScopeAngle`]), that comparison multiplies
//!   out to a sign-adjusted comparison of integer squares.

use vstd::prelude::*;

verus! {

/// Largest magnitude allowed for a component of a vector handed to the
/// comparisons in this module. Differences of well-formed positions and
/// box centres stay within it, and it keeps every product formed by the
/// window test inside `i128`.
pub const VEC_COORD_MAX: i64 = 8_000_000;

/// Largest denominator allowed for the rational cosine of a scope
/// half-angle: fine enough to place the window edge within thousandths of
/// a degree, small enough that the squared comparison fits `i128`.
pub const COS_DEN_MAX: i64 = 32_768;

/// The width of the angular window, represented exactly.
///
/// A scope of `s` degrees, `0 < s <= 360`, admits offsets up to the
/// half-angle `h = s/2` on either side of the movement direction. The
/// window test only ever consumes `cos(h)`, so the half-angle is stored as
/// a rational approximation `cos_num / cos_den` of its cosine. `h` ranges
/// over `(0, 180]` degrees, hence the cosine over `[-1, 1)`.
#[derive(Clone, Copy, Debug, PartialEq, Eq, Structural)]
pub struct ScopeAngle {
    pub cos_num: i64,
    pub cos_den: i64,
}

impl ScopeAngle {
    /// A scope angle is well formed when the cosine is a genuine rational
    /// in `[-1, 1)` with a bounded positive denominator. `-1` (a full
    /// turn) is admitted, `1` (an empty window) is not.
    pub open spec fn wf(self) -> bool {
        &&& 0 < self.cos_den <= COS_DEN_MAX
        &&& -self.cos_den <= self.cos_num < self.cos_den
    }

    /// Builds the window whose half-angle has cosine `cos_num / cos_den`.
    pub fn new(cos_num: i64, cos_den: i64) -> (r: ScopeAngle)
        requires
            0 < cos_den <= COS_DEN_MAX,
            -cos_den <= cos_num < cos_den,
        ensures
            r.cos_num == cos_num,
            r.cos_den == cos_den,
            r.wf(),
    {
        ScopeAngle { cos_num, cos_den }
    }
}

/// `a` is at least as wide a window as `b`: its half-angle cosine is no
/// larger, compared as exact rationals (denominators are positive for
/// well-formed values).
pub open spec fn at_least_as_wide(a: ScopeAngle, b: ScopeAngle) -> bool {
    a.cos_num * b.cos_den <= b.cos_num * a.cos_den
}

/// The cross product `a.x * b.y - a.y * b.x`: positive when `b` lies
/// counter-clockwise of `a` by less than half a turn.
pub open spec fn cross(ax: int, ay: int, bx: int, by: int) -> int {
    ax * by - ay * bx
}

/// The dot product `a.x * b.x + a.y * b.y`.
pub open spec fn dot(ax: int, ay: int, bx: int, by: int) -> int {
    ax * bx + ay * by
}

/// The squared Euclidean length of `(x, y)`.
pub open spec fn norm2(x: int, y: int) -> int {
    x * x + y * y
}

/// Numbers the eight sign-classes of a non-zero vector in the order in
/// which their polar angles appear in `(-pi, pi]`:
///
/// | class | signs            | polar angle        |
/// |-------|------------------|--------------------|
/// | 0     | `y < 0, x < 0`   | `(-pi, -pi/2)`     |
/// | 1     | `y < 0, x == 0`  | `-pi/2`            |
/// | 2     | `y < 0, x > 0`   | `(-pi/2, 0)`       |
/// | 3     | `y == 0, x >= 0` | `0`                |
/// | 4     | `y > 0, x > 0`   | `(0, pi/2)`        |
/// | 5     | `y > 0, x == 0`  | `pi/2`             |
/// | 6     | `y > 0, x < 0`   | `(pi/2, pi)`       |
/// | 7     | `y == 0, x < 0`  | `pi`               |
///
/// The zero vector is grouped with class 3, matching `atan2(0, 0) == 0`.
pub open spec fn region(x: int, y: int) -> int {
    if y < 0 {
        if x < 0 {
            0
        } else if x == 0 {
            1
        } else {
            2
        }
    } else if y == 0 {
        if x < 0 {
            7
        } else {
            3
        }
    } else {
        if x > 0 {
            4
        } else if x == 0 {
            5
        } else {
            6
        }
    }
}

/// Exact comparison `atan2(ay, ax) < atan2(by, bx)` of two polar angles.
///
/// Distinct sign-classes are ordered by their class numbers. Within one
/// of the open-quadrant classes the two angles differ by less than a
/// quarter turn, so the sign of the cross product decides; within an
/// axis class the two angles are equal.
pub open spec fn ang_lt(ax: int, ay: int, bx: int, by: int) -> bool {
    ||| region(ax, ay) < region(bx, by)
    ||| (region(ax, ay) == region(bx, by) && cross(ax, ay, bx, by) > 0)
}

/// The polar angle of `d` is strictly positive (upper half-plane, or the
/// negative x-axis where `atan2` yields `pi`).
pub open spec fn dir_angle_positive(dx: int, dy: int) -> bool {
    dy > 0 || (dy == 0 && dx < 0)
}

/// The polar angle of `d` is strictly negative (lower half-plane).
pub open spec fn dir_angle_negative(dx: int, dy: int) -> bool {
    dy < 0
}

/// The raw offset `atan2(v) - atan2(d)` exceeds `pi`.
///
/// That needs `atan2(d) < 0`, and then `atan2(d) + pi` is exactly the
/// polar angle of `-d`, so overshoot means `atan2(v) > atan2(-d)`.
pub open spec fn offset_above_pi(dx: int, dy: int, vx: int, vy: int) -> bool {
    dir_angle_negative(dx, dy) && ang_lt(-dx, -dy, vx, vy)
}

/// The raw offset `atan2(v) - atan2(d)` lies below `-pi`.
///
/// That needs `atan2(d) > 0`, and then `atan2(d) - pi` is exactly the
/// polar angle of `-d`, so undershoot means `atan2(v) < atan2(-d)`.
pub open spec fn offset_below_neg_pi(dx: int, dy: int, vx: int, vy: int) -> bool {
    dir_angle_positive(dx, dy) && ang_lt(vx, vy, -dx, -dy)
}

/// Decides `cos(offset between d and v) >= cos_num / cos_den` for non-zero
/// `d` and `v`.
///
/// The cosine of the offset is `dot / sqrt(norm2(d) * norm2(v))`. Clearing
/// the (positive) denominators and squaring with attention to signs turns
/// the comparison into integer arithmetic: for a non-negative bound the
/// dot product must be non-negative and its scaled square must dominate;
/// for a negative bound a non-negative dot product always passes, and a
/// negative one passes when its scaled square is dominated.
pub open spec fn cone_cos_within(dx: int, dy: int, vx: int, vy: int, num: int, den: int) -> bool {
    let dp = dot(dx, dy, vx, vy);
    let qq = (dp * den) * (dp * den);
    let nn = (num * num) * (norm2(dx, dy) * norm2(vx, vy));
    if num >= 0 {
        dp >= 0 && qq >= nn
    } else {
        dp >= 0 || qq <= nn
    }
}

/// The literal, non-wrapping window test: the polar angle of `v` lies in
/// `[atan2(d) - h, atan2(d) + h]`, where `cos(h) == num / den`.
///
/// Equivalently: the raw offset `atan2(v) - atan2(d)` lies in `[-pi, pi]`
/// (so that it coincides with the wrapped offset between the directions)
/// and the cosine of that offset is at least `cos(h)`.
pub open spec fn in_cone(dx: int, dy: int, vx: int, vy: int, num: int, den: int) -> bool {
    &&& !offset_above_pi(dx, dy, vx, vy)
    &&& !offset_below_neg_pi(dx, dy, vx, vy)
    &&& cone_cos_within(dx, dy, vx, vy, num, den)
}

/// The product of values bounded in magnitude is bounded by the product
/// of the bounds.
pub(crate) proof fn lemma_mul_bound(a: int, b: int, m: int, n: int) by (nonlinear_arith)
    requires
        -m <= a <= m,
        -n <= b <= n,
    ensures
        -(m * n) <= a * b <= m * n,
{
}

/// Computes the sign-class of `(x, y)` (see [`region`]).
fn region_code(x: i64, y: i64) -> (r: i64)
    ensures
        r == region(x as int, y as int),
{
    if y < 0 {
        if x < 0 {
            0
        } else if x == 0 {
            1
        } else {
            2
        }
    } else if y == 0 {
        if x < 0 {
            7
        } else {
            3
        }
    } else {
        if x > 0 {
            4
        } else if x == 0 {
            5
        } else {
            6
        }
    }
}

/// Computes the exact polar-angle comparison [`ang_lt`].
fn angle_lt(ax: i64, ay: i64, bx: i64, by: i64) -> (r: bool)
    requires
        -VEC_COORD_MAX <= ax <= VEC_COORD_MAX,
        -VEC_COORD_MAX <= ay <= VEC_COORD_MAX,
        -VEC_COORD_MAX <= bx <= VEC_COORD_MAX,
        -VEC_COORD_MAX <= by <= VEC_COORD_MAX,
    ensures
        r == ang_lt(ax as int, ay as int, bx as int, by as int),
{
    let ra = region_code(ax, ay);
    let rb = region_code(bx, by);
    if ra < rb {
        true
    } else if ra > rb {
        false
    } else {
        proof {
            lemma_mul_bound(ax as int, by as int, VEC_COORD_MAX as int, VEC_COORD_MAX as int);
            lemma_mul_bound(ay as int, bx as int, VEC_COORD_MAX as int, VEC_COORD_MAX as int);
        }
        let c: i128 = (ax as i128) * (by as i128) - (ay as i128) * (bx as i128);
        c > 0
    }
}

/// Computes the window test [`in_cone`] for a movement direction `d` and
/// a candidate vector `v`, both given componentwise.
pub(crate) fn check_in_cone(dx: i64, dy: i64, vx: i64, vy: i64, scope: &ScopeAngle) -> (r: bool)
    requires
        -VEC_COORD_MAX <= dx <= VEC_COORD_MAX,
        -VEC_COORD_MAX <= dy <= VEC_COORD_MAX,
        -VEC_COORD_MAX <= vx <= VEC_COORD_MAX,
        -VEC_COORD_MAX <= vy <= VEC_COORD_MAX,
        scope.wf(),
    ensures
        r == in_cone(
            dx as int,
            dy as int,
            vx as int,
            vy as int,
            scope.cos_num as int,
            scope.cos_den as int,
        ),
{
    let above = if dy < 0 {
        angle_lt(-dx, -dy, vx, vy)
    } else {
        false
    };
    let below = if dy > 0 || (dy == 0 && dx < 0) {
        angle_lt(vx, vy, -dx, -dy)
    } else {
        false
    };
    if above || below {
        return false;
    }
    proof {
        lemma_mul_bound(dx as int, vx as int, VEC_COORD_MAX as int, VEC_COORD_MAX as int);
        lemma_mul_bound(dy as int, vy as int, VEC_COORD_MAX as int, VEC_COORD_MAX as int);
        lemma_mul_bound(dx as int, dx as int, VEC_COORD_MAX as int, VEC_COORD_MAX as int);
        lemma_mul_bound(dy as int, dy as int, VEC_COORD_MAX as int, VEC_COORD_MAX as int);
        lemma_mul_bound(vx as int, vx as int, VEC_COORD_MAX as int, VEC_COORD_MAX as int);
        lemma_mul_bound(vy as int, vy as int, VEC_COORD_MAX as int, VEC_COORD_MAX as int);
    }
    let dp: i128 = (dx as i128) * (vx as i128) + (dy as i128) * (vy as i128);
    let d2: i128 = (dx as i128) * (dx as i128) + (dy as i128) * (dy as i128);
    let v2: i128 = (vx as i128) * (vx as i128) + (vy as i128) * (vy as i128);
    proof {
        lemma_mul_bound(d2 as int, v2 as int, 128_000_000_000_000, 128_000_000_000_000);
        lemma_mul_bound(dp as int, scope.cos_den as int, 128_000_000_000_000, 32_768);
        lemma_mul_bound(
            (dp as int) * (scope.cos_den as int),
            (dp as int) * (scope.cos_den as int),
            4_194_304_000_000_000_000,
            4_194_304_000_000_000_000,
        );
        lemma_mul_bound(scope.cos_num as int, scope.cos_num as int, 32_768, 32_768);
        lemma_mul_bound(
            (scope.cos_num as int) * (scope.cos_num as int),
            (d2 as int) * (v2 as int),
            1_073_741_824,
            16_384_000_000_000_000_000_000_000_000,
        );
    }
    let q: i128 = dp * (scope.cos_den as i128);
    let qq: i128 = q * q;
    let nn: i128 = ((scope.cos_num as i128) * (scope.cos_num as i128)) * (d2 * v2);
    if scope.cos_num >= 0 {
        dp >= 0 && qq >= nn
    } else {
        dp >= 0 || qq <= nn
    }
}

/// Replacing a window by one at least as wide never turns the test
/// [`cone_cos_within`] from passing into failing.
proof fn lemma_cos_within_widening(
    dx: int,
    dy: int,
    vx: int,
    vy: int,
    narrow: ScopeAngle,
    wide: ScopeAngle,
)
    requires
        narrow.wf(),
        wide.wf(),
        at_least_as_wide(wide, narrow),
        cone_cos_within(dx, dy, vx, vy, narrow.cos_num as int, narrow.cos_den as int),
    ensures
        cone_cos_within(dx, dy, vx, vy, wide.cos_num as int, wide.cos_den as int),
{
    let dp = dot(dx, dy, vx, vy);
    let l2 = norm2(dx, dy) * norm2(vx, vy);
    let n1 = narrow.cos_num as int;
    let d1 = narrow.cos_den as int;
    let n2 = wide.cos_num as int;
    let d2 = wide.cos_den as int;
    assert(l2 >= 0) by (nonlinear_arith)
        requires
            l2 == (dx * dx + dy * dy) * (vx * vx + vy * vy),
    ;
    if n1 >= 0 {
        if n2 >= 0 {
            lemma_sq_dominates(dp, l2, n1, d1, n2, d2);
        }
    } else {
        assert(n1 * d2 < 0) by (nonlinear_arith)
            requires
                n1 < 0,
                d2 > 0,
        ;
        assert(n2 < 0) by (nonlinear_arith)
            requires
                n2 * d1 < 0,
                d1 > 0,
        ;
        if dp < 0 {
            lemma_sq_dominated(dp, l2, n1, d1, n2, d2);
        }
    }
}

/// Scaled-square comparison for non-negative cosine bounds: if the dot
/// product clears the narrow bound, it clears the wide one.
proof fn lemma_sq_dominates(dp: int, l2: int, n1: int, d1: int, n2: int, d2: int)
    requires
        d1 > 0,
        d2 > 0,
        l2 >= 0,
        0 <= n2,
        n2 * d1 <= n1 * d2,
        dp >= 0,
        (dp * d1) * (dp * d1) >= (n1 * n1) * l2,
    ensures
        (dp * d2) * (dp * d2) >= (n2 * n2) * l2,
{
    assert(n2 * d1 >= 0) by (nonlinear_arith)
        requires
            n2 >= 0,
            d1 > 0,
    ;
    assert((n1 * d2) * (n1 * d2) >= (n2 * d1) * (n2 * d1)) by (nonlinear_arith)
        requires
            0 <= n2 * d1 <= n1 * d2,
    ;
    assert(((dp * d2) * (dp * d2)) * (d1 * d1) >= ((n2 * n2) * l2) * (d1 * d1))
        by (nonlinear_arith)
        requires
            (dp * d1) * (dp * d1) >= (n1 * n1) * l2,
            (n1 * d2) * (n1 * d2) >= (n2 * d1) * (n2 * d1),
            l2 >= 0,
            d1 > 0,
            d2 > 0,
    ;
    assert((dp * d2) * (dp * d2) >= (n2 * n2) * l2) by (nonlinear_arith)
        requires
            ((dp * d2) * (dp * d2)) * (d1 * d1) >= ((n2 * n2) * l2) * (d1 * d1),
            d1 > 0,
    ;
}

/// Scaled-square comparison for negative cosine bounds and a negative dot
/// product: if the narrow bound dominates the dot product, so does the
/// wide one.
proof fn lemma_sq_dominated(dp: int, l2: int, n1: int, d1: int, n2: int, d2: int)
    requires
        d1 > 0,
        d2 > 0,
        l2 >= 0,
        n1 < 0,
        n2 < 0,
        n2 * d1 <= n1 * d2,
        dp < 0,
        (dp * d1) * (dp * d1) <= (n1 * n1) * l2,
    ensures
        (dp * d2) * (dp * d2) <= (n2 * n2) * l2,
{
    assert(n1 * d2 < 0) by (nonlinear_arith)
        requires
            n1 < 0,
            d2 > 0,
        ;
    assert((n1 * d2) * (n1 * d2) <= (n2 * d1) * (n2 * d1)) by (nonlinear_arith)
        requires
            n2 * d1 <= n1 * d2,
            n1 * d2 < 0,
    ;
    assert(((dp * d2) * (dp * d2)) * (d1 * d1) <= ((n2 * n2) * l2) * (d1 * d1))
        by (nonlinear_arith)
        requires
            (dp * d1) * (dp * d1) <= (n1 * n1) * l2,
            (n1 * d2) * (n1 * d2) <= (n2 * d1) * (n2 * d1),
            l2 >= 0,
            d1 > 0,
            d2 > 0,
    ;
    assert((dp * d2) * (dp * d2) <= (n2 * n2) * l2) by (nonlinear_arith)
        requires
            ((dp * d2) * (dp * d2)) * (d1 * d1) <= ((n2 * n2) * l2) * (d1 * d1),
            d1 > 0,
    ;
}

/// Widening the window keeps every direction it admitted: the wrap tests
/// do not depend on the window at all, and the cosine comparison is
/// monotone in the bound.
pub proof fn lemma_in_cone_widening(
    dx: int,
    dy: int,
    vx: int,
    vy: int,
    narrow: ScopeAngle,
    wide: ScopeAngle,
)
    requires
        narrow.wf(),
        wide.wf(),
        at_least_as_wide(wide, narrow),
        in_cone(dx, dy, vx, vy, narrow.cos_num as int, narrow.cos_den as int),
    ensures
        in_cone(dx, dy, vx, vy, wide.cos_num as int, wide.cos_den as int),
{
    lemma_cos_within_widening(dx, dy, vx, vy, narrow, wide);
}

} // verus!
