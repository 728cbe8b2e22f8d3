//! Exact integer geometry: points, displacement vectors, squared distances,
//! an integer square root, axis rotations, length scaling and bounded heading
//! jitter. All operations are deterministic functions of their arguments.

use vstd::prelude::*;
use vstd::arithmetic::div_mod::{
    lemma_div_is_ordered, lemma_div_pos_is_pos, lemma_multiply_divide_le, lemma_multiply_divide_lt,
};

verus! {

/// Largest coordinate magnitude any point handled by the library may carry.
/// Keeps every squared distance within `i64`.
pub const COORD_LIMIT: i64 = 1_000_000_000;

/// Largest usable width or height of the growth area.
pub const MAX_DIM: i64 = 100_000_000;

/// Largest usable road length per growth step.
pub const MAX_LEN: i64 = 1_000_000;

/// Denominator of the heading jitter: a jitter of `t` units deflects a
/// heading by roughly `atan(t / JITTER_SCALE)`.
pub const JITTER_SCALE: i64 = 1000;

/// An immutable 2-D coordinate. Equality is exact-value comparison.
#[derive(Debug, Copy, Clone, PartialEq, Eq, Structural)]
pub struct Point {
    pub x: i64,
    pub y: i64,
}

/// A displacement between two points; carries the heading and step size of a
/// growing road as an exact vector.
#[derive(Debug, Copy, Clone, PartialEq, Eq, Structural)]
pub struct Offset {
    pub dx: i64,
    pub dy: i64,
}

impl Point {
    pub fn new(x: i64, y: i64) -> (p: Point)
        ensures
            p.x == x,
            p.y == y,
    {
        Point { x, y }
    }

    pub fn x(&self) -> (r: i64)
        ensures
            r == self.x,
    {
        self.x
    }

    pub fn y(&self) -> (r: i64)
        ensures
            r == self.y,
    {
        self.y
    }
}

/// Whether a point's coordinates stay within the library's global limit.
pub open spec fn coord_ok(p: Point) -> bool {
    -COORD_LIMIT <= p.x <= COORD_LIMIT && -COORD_LIMIT <= p.y <= COORD_LIMIT
}

/// Whether both components of an offset are within `b` in magnitude.
pub open spec fn offset_within(d: Offset, b: int) -> bool {
    -b <= d.dx <= b && -b <= d.dy <= b
}

/// The displacement leading from `from` to `to`.
pub open spec fn offset_between(from: Point, to: Point) -> Offset {
    Offset { dx: (to.x - from.x) as i64, dy: (to.y - from.y) as i64 }
}

/// The point reached from `p` by the displacement `d`.
pub open spec fn point_plus(p: Point, d: Offset) -> Point {
    Point { x: (p.x + d.dx) as i64, y: (p.y + d.dy) as i64 }
}

/// Squared Euclidean distance between two points.
pub open spec fn dist_sq(a: Point, b: Point) -> int {
    (a.x - b.x) * (a.x - b.x) + (a.y - b.y) * (a.y - b.y)
}

/// Squared length of an offset.
pub open spec fn norm_sq(d: Offset) -> int {
    d.dx * d.dx + d.dy * d.dy
}

/// Squared Euclidean distance, computed exactly.
pub fn dist_sq_exec(a: &Point, b: &Point) -> (r: i64)
    requires
        coord_ok(*a),
        coord_ok(*b),
    ensures
        r == dist_sq(*a, *b),
        r >= 0,
{
    let dx = a.x - b.x;
    let dy = a.y - b.y;
    proof {
        assert(0 <= dx * dx <= 4_000_000_000_000_000_000 && 0 <= dy * dy
            <= 4_000_000_000_000_000_000) by (nonlinear_arith)
            requires
                -2_000_000_000 <= dx <= 2_000_000_000,
                -2_000_000_000 <= dy <= 2_000_000_000;
    }
    dx * dx + dy * dy
}

/// Squares of integers are never negative.
pub proof fn lemma_square_nonneg(x: int)
    ensures
        x * x >= 0,
{
    assert(x * x >= 0) by (nonlinear_arith);
}

/// Squaring is monotonic over the non-negative integers.
pub proof fn lemma_square_ordered(a: int, b: int)
    requires
        0 <= a <= b,
    ensures
        a * a <= b * b,
{
    vstd::arithmetic::mul::lemma_mul_upper_bound(a, b, a, b);
}

/// The integer square root: the largest `r` with `r * r <= n`.
pub open spec fn sqrt_floor(n: int) -> int
    decreases n,
{
    if n <= 0 {
        0
    } else {
        let r = sqrt_floor(n - 1);
        if (r + 1) * (r + 1) <= n {
            r + 1
        } else {
            r
        }
    }
}

/// `sqrt_floor(n)` is the floor of the square root of `n`.
pub proof fn lemma_sqrt_floor_bounds(n: int)
    requires
        n >= 0,
    ensures
        sqrt_floor(n) >= 0,
        sqrt_floor(n) * sqrt_floor(n) <= n,
        n < (sqrt_floor(n) + 1) * (sqrt_floor(n) + 1),
    decreases n,
{
    if n > 0 {
        lemma_sqrt_floor_bounds(n - 1);
        let r = sqrt_floor(n - 1);
        if (r + 1) * (r + 1) <= n {
            lemma_square_ordered(r + 1, r + 2);
            assert((r + 1) * (r + 1) < (r + 2) * (r + 2)) by (nonlinear_arith)
                requires r >= 0;
        }
    }
}

/// Any value satisfying the square-root characterization is `sqrt_floor`.
pub proof fn lemma_sqrt_floor_is(n: int, r: int)
    requires
        n >= 0,
        r >= 0,
        r * r <= n,
        n < (r + 1) * (r + 1),
    ensures
        r == sqrt_floor(n),
{
    lemma_sqrt_floor_bounds(n);
    let s = sqrt_floor(n);
    if r < s {
        lemma_square_ordered(r + 1, s);
    }
    if s < r {
        lemma_square_ordered(s + 1, r);
    }
}

/// Integer square root by binary search.
pub fn isqrt(n: u64) -> (r: u64)
    ensures
        r == sqrt_floor(n as int),
        r * r <= n,
        n < (r + 1) * (r + 1),
{
    let mut lo: u64 = 0;
    let mut hi: u64 = 0xFFFF_FFFF;
    proof {
        assert((hi + 1) * (hi + 1) > u64::MAX as int) by (nonlinear_arith)
            requires hi == 0xFFFF_FFFFu64;
    }
    while lo < hi
        invariant
            lo <= hi <= 0xFFFF_FFFF,
            lo * lo <= n,
            n < (hi + 1) * (hi + 1),
        decreases hi - lo,
    {
        let mid = lo + (hi - lo + 1) / 2;
        assert(lo < mid <= hi);
        proof {
            lemma_square_nonneg(mid as int);
            lemma_mul_abs_bound(mid as int, mid as int, 0xFFFF_FFFF, 0xFFFF_FFFF);
        }
        if mid * mid <= n {
            lo = mid;
        } else {
            hi = mid - 1;
        }
    }
    proof {
        lemma_sqrt_floor_is(n as int, lo as int);
    }
    lo
}

/// Rotation of a displacement a quarter turn counterclockwise
/// (in coordinates where angles grow from the x axis towards the y axis).
pub open spec fn rot_ccw_spec(d: Offset) -> Offset {
    Offset { dx: (-d.dy) as i64, dy: d.dx }
}

/// Rotation of a displacement a quarter turn clockwise.
pub open spec fn rot_cw_spec(d: Offset) -> Offset {
    Offset { dx: d.dy, dy: (-d.dx) as i64 }
}

pub fn rot_ccw(d: &Offset) -> (r: Offset)
    requires
        offset_within(*d, COORD_LIMIT as int),
    ensures
        r == rot_ccw_spec(*d),
{
    Offset { dx: -d.dy, dy: d.dx }
}

pub fn rot_cw(d: &Offset) -> (r: Offset)
    requires
        offset_within(*d, COORD_LIMIT as int),
    ensures
        r == rot_cw_spec(*d),
{
    Offset { dx: d.dy, dy: -d.dx }
}

/// Division by the jitter scale, truncating towards zero.
pub open spec fn div_jitter(a: int) -> int {
    if a >= 0 {
        a / (JITTER_SCALE as int)
    } else {
        -((-a) / (JITTER_SCALE as int))
    }
}

/// The square root of a positive value is positive.
pub proof fn lemma_sqrt_floor_pos(s: int)
    requires
        s >= 1,
    ensures
        sqrt_floor(s) >= 1,
{
    lemma_sqrt_floor_bounds(s);
    let n = sqrt_floor(s);
    if n == 0 {
        assert((n + 1) * (n + 1) == 1) by (nonlinear_arith)
            requires n == 0;
    }
}

/// `div_jitter(a)` stays strictly below `m` in magnitude whenever
/// `|a| <= m * (JITTER_SCALE - 1)`.
pub proof fn lemma_div_jitter_small(a: int, m: int)
    requires
        m >= 1,
        -(m * (JITTER_SCALE - 1)) <= a <= m * (JITTER_SCALE - 1),
    ensures
        -m < div_jitter(a) < m,
{
    let s = JITTER_SCALE as int;
    assert(m * (s - 1) < s * m) by (nonlinear_arith)
        requires m >= 1, s == 1000;
    if a >= 0 {
        lemma_multiply_divide_lt(a, s, m);
        lemma_div_pos_is_pos(a, s);
    } else {
        lemma_multiply_divide_lt(-a, s, m);
        lemma_div_pos_is_pos(-a, s);
    }
}

/// A heading deflected by `t` jitter units: the perpendicular component is
/// mixed in at a ratio of `t / JITTER_SCALE`, approximating a rotation by
/// `atan(t / JITTER_SCALE)` while keeping the arithmetic exact.
pub open spec fn jitter_spec(d: Offset, t: int) -> Offset {
    Offset {
        dx: (d.dx - div_jitter(d.dy * t)) as i64,
        dy: (d.dy + div_jitter(d.dx * t)) as i64,
    }
}

/// A zero jitter leaves a heading untouched.
pub proof fn lemma_jitter_zero(d: Offset)
    ensures
        jitter_spec(d, 0) == d,
{
    assert(d.dy * 0 == 0) by (nonlinear_arith);
    assert(d.dx * 0 == 0) by (nonlinear_arith);
}

/// Truncating division by the jitter scale.
fn div_jitter_exec(a: i64) -> (r: i64)
    requires
        -0x1000_0000_0000_0000 <= a <= 0x1000_0000_0000_0000,
    ensures
        r == div_jitter(a as int),
{
    if a >= 0 {
        ((a as u64) / (JITTER_SCALE as u64)) as i64
    } else {
        let q = ((-a) as u64) / (JITTER_SCALE as u64);
        proof {
            lemma_div_is_ordered((-a) as int, 0x1000_0000_0000_0000, JITTER_SCALE as int);
            lemma_div_pos_is_pos((-a) as int, JITTER_SCALE as int);
        }
        -(q as i64)
    }
}

/// Deflect the heading of `d` by `t` jitter units. The result keeps the same
/// rough length (each component grows by at most the other's magnitude) and
/// never collapses a non-zero displacement to zero.
pub fn jitter(d: &Offset, t: i64) -> (r: Offset)
    requires
        offset_within(*d, MAX_DIM as int),
        -JITTER_SCALE < t < JITTER_SCALE,
    ensures
        r == jitter_spec(*d, t as int),
        -(abs_spec(d.dx as int) + abs_spec(d.dy as int)) <= r.dx
            <= abs_spec(d.dx as int) + abs_spec(d.dy as int),
        -(abs_spec(d.dx as int) + abs_spec(d.dy as int)) <= r.dy
            <= abs_spec(d.dx as int) + abs_spec(d.dy as int),
        !(d.dx == 0 && d.dy == 0) ==> !(r.dx == 0 && r.dy == 0),
{
    proof {
        lemma_mul_abs_bound(d.dy as int, t as int, MAX_DIM as int, JITTER_SCALE - 1);
        lemma_mul_abs_bound(d.dx as int, t as int, MAX_DIM as int, JITTER_SCALE - 1);
        if d.dy == 0 {
            assert(d.dy * t == 0) by (nonlinear_arith)
                requires d.dy == 0;
        } else {
            lemma_mul_abs_bound(d.dy as int, t as int, abs_spec(d.dy as int), JITTER_SCALE - 1);
            lemma_div_jitter_small(d.dy * t, abs_spec(d.dy as int));
        }
        if d.dx == 0 {
            assert(d.dx * t == 0) by (nonlinear_arith)
                requires d.dx == 0;
        } else {
            lemma_mul_abs_bound(d.dx as int, t as int, abs_spec(d.dx as int), JITTER_SCALE - 1);
            lemma_div_jitter_small(d.dx * t, abs_spec(d.dx as int));
        }
    }
    let qx = div_jitter_exec(d.dy * t);
    let qy = div_jitter_exec(d.dx * t);
    proof {
        assert(d.dy == 0 ==> qx == 0);
        assert(d.dy != 0 ==> -abs_spec(d.dy as int) < qx < abs_spec(d.dy as int));
        assert(d.dx == 0 ==> qy == 0);
        assert(d.dx != 0 ==> -abs_spec(d.dx as int) < qy < abs_spec(d.dx as int));
    }
    Offset { dx: d.dx - qx, dy: d.dy + qy }
}

/// The absolute value.
pub open spec fn abs_spec(a: int) -> int {
    if a >= 0 {
        a
    } else {
        -a
    }
}

/// `|a * t| <= b * c` whenever `|a| <= b` and `|t| <= c`.
pub proof fn lemma_mul_abs_bound(a: int, t: int, b: int, c: int)
    requires
        -b <= a <= b,
        -c <= t <= c,
        b >= 0,
        c >= 0,
    ensures
        -(b * c) <= a * t <= b * c,
{
    assert(-(b * c) <= a * t <= b * c) by (nonlinear_arith)
        requires -b <= a <= b, -c <= t <= c, b >= 0, c >= 0;
}

/// One component of a displacement scaled to a nominal length: multiply by
/// the target length, divide by the current length, preserving sign.
pub open spec fn scaled_comp(c: int, len: int, n: int) -> int {
    if c >= 0 {
        (c * len) / n
    } else {
        -(((-c) * len) / n)
    }
}

/// The displacement `d` rescaled to length roughly `len`: each component is
/// multiplied by `len` and divided by the rounded-down current length.
pub open spec fn scale_spec(d: Offset, len: int) -> Offset {
    let n = sqrt_floor(norm_sq(d));
    Offset {
        dx: scaled_comp(d.dx as int, len, n) as i64,
        dy: scaled_comp(d.dy as int, len, n) as i64,
    }
}

/// Each component of a displacement is bounded by the rounded-down length.
proof fn lemma_comp_le_norm(c: int, s: int, n: int)
    requires
        c * c <= s,
        n >= 0,
        s < (n + 1) * (n + 1),
    ensures
        -n <= c <= n,
{
    if c > n {
        lemma_square_ordered(n + 1, c);
    }
    if c < -n {
        lemma_square_ordered(n + 1, -c);
        assert((-c) * (-c) == c * c) by (nonlinear_arith);
    }
}

/// Rescale `d` to length roughly `len`. The result's components never exceed
/// `len`, and a non-zero displacement never rescales to zero when `len >= 2`.
pub fn scale_to_length(d: &Offset, len: i64) -> (r: Offset)
    requires
        offset_within(*d, MAX_DIM as int),
        !(d.dx == 0 && d.dy == 0),
        2 <= len <= MAX_LEN,
    ensures
        r == scale_spec(*d, len as int),
        offset_within(r, len as int),
        !(r.dx == 0 && r.dy == 0),
{
    proof {
        lemma_square_nonneg(d.dx as int);
        lemma_square_nonneg(d.dy as int);
        assert(d.dx * d.dx + d.dy * d.dy >= 1) by (nonlinear_arith)
            requires !(d.dx == 0 && d.dy == 0);
        assert(d.dx * d.dx <= MAX_DIM * MAX_DIM && d.dy * d.dy <= MAX_DIM * MAX_DIM)
            by (nonlinear_arith)
            requires -MAX_DIM <= d.dx <= MAX_DIM, -MAX_DIM <= d.dy <= MAX_DIM;
    }
    let s: u64 = (d.dx * d.dx + d.dy * d.dy) as u64;
    let n: u64 = isqrt(s);
    proof {
        lemma_sqrt_floor_bounds(s as int);
        lemma_sqrt_floor_pos(s as int);
        lemma_comp_le_norm(d.dx as int, s as int, n as int);
        lemma_comp_le_norm(d.dy as int, s as int, n as int);
    }
    let cx = scale_comp_exec(d.dx, len, n);
    let cy = scale_comp_exec(d.dy, len, n);
    proof {
        lemma_scale_result_nonzero(d.dx as int, d.dy as int, len as int, s as int, n as int);
    }
    Offset { dx: cx, dy: cy }
}

/// One rescaled component.
fn scale_comp_exec(c: i64, len: i64, n: u64) -> (r: i64)
    requires
        -MAX_DIM <= c <= MAX_DIM,
        2 <= len <= MAX_LEN,
        1 <= n,
        -(n as int) <= c <= n as int,
    ensures
        r == scaled_comp(c as int, len as int, n as int),
        -len <= r <= len,
{
    if c >= 0 {
        proof {
            lemma_mul_abs_bound(c as int, len as int, MAX_DIM as int, MAX_LEN as int);
            assert(c * len <= (n as int) * (len as int)) by (nonlinear_arith)
                requires 0 <= c <= n as int, len >= 2;
            lemma_multiply_divide_le(c * len, n as int, len as int);
            lemma_div_pos_is_pos(c * len, n as int);
        }
        let q: u64 = ((c as u64) * (len as u64)) / n;
        q as i64
    } else {
        let m: i64 = -c;
        proof {
            lemma_mul_abs_bound(m as int, len as int, MAX_DIM as int, MAX_LEN as int);
            assert(m * len <= (n as int) * (len as int)) by (nonlinear_arith)
                requires 0 <= m <= n as int, len >= 2;
            lemma_multiply_divide_le(m * len, n as int, len as int);
            lemma_div_pos_is_pos(m * len, n as int);
        }
        let q: u64 = ((m as u64) * (len as u64)) / n;
        -(q as i64)
    }
}

/// A non-zero displacement never rescales to zero when `len >= 2`: if both
/// scaled components vanished, the squared length would contradict itself.
proof fn lemma_scale_result_nonzero(dx: int, dy: int, len: int, s: int, n: int)
    requires
        s == dx * dx + dy * dy,
        s >= 1,
        n == sqrt_floor(s),
        len >= 2,
    ensures
        !(scaled_comp(dx, len, n) == 0 && scaled_comp(dy, len, n) == 0),
{
    lemma_sqrt_floor_bounds(s);
    lemma_sqrt_floor_pos(s);
    let ax = abs_spec(dx);
    let ay = abs_spec(dy);
    assert(ax * ax == dx * dx) by (nonlinear_arith)
        requires ax == dx || ax == -dx;
    assert(ay * ay == dy * dy) by (nonlinear_arith)
        requires ay == dy || ay == -dy;
    if scaled_comp(dx, len, n) == 0 && scaled_comp(dy, len, n) == 0 {
        // a zero quotient means the numerator is below the denominator
        assert((ax * len) / n == 0);
        assert((ay * len) / n == 0);
        vstd::arithmetic::mul::lemma_mul_nonnegative(ax, len);
        vstd::arithmetic::mul::lemma_mul_nonnegative(ay, len);
        lemma_small_quotient_bound(ax * len, n);
        lemma_small_quotient_bound(ay * len, n);
        // so ax * len < n and ay * len < n; square and add
        assert(s * (len * len) < 2 * (n * n)) by (nonlinear_arith)
            requires
                ax * len < n,
                ay * len < n,
                ax >= 0,
                ay >= 0,
                len >= 2,
                n >= 1,
                s == ax * ax + ay * ay;
        assert(n * n <= s);
        assert(s * (len * len) >= s * 4) by (nonlinear_arith)
            requires len >= 2, s >= 1;
        assert(2 * (n * n) <= 2 * s);
        assert(false);
    }
}

/// A non-negative value with quotient zero is smaller than the divisor.
proof fn lemma_small_quotient_bound(a: int, n: int)
    requires
        a >= 0,
        n >= 1,
        a / n == 0,
    ensures
        a < n,
{
    if a >= n {
        lemma_div_is_ordered(n, a, n);
        vstd::arithmetic::div_mod::lemma_div_by_self(n);
    }
}

} // verus!
