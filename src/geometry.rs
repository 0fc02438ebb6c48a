//! Fixed-point plane geometry shared by the profiler, the scorer and the
//! recognizer.
use vstd::prelude::*;

verus! {

/// Largest absolute value of a stroke coordinate.
pub const MAX_COORD: i64 = 1048576;

/// A plane vector in fixed-point units: a stroke sample or a tangent.
#[derive(Clone, Copy, Debug, PartialEq, Eq, Structural)]
pub struct Vec2 {
    pub x: i64,
    pub y: i64,
}

impl Vec2 {
    pub open spec fn in_range(self) -> bool {
        -MAX_COORD <= self.x <= MAX_COORD && -MAX_COORD <= self.y <= MAX_COORD
    }
}

/// Fixed-point scale of a direction: a unit vector has length `UNIT`.
pub const UNIT: i64 = 4096;

/// Largest absolute value of a tangent component (four units).
pub const MAX_COMPONENT: i64 = 16384;

/// Largest absolute value of the dot product of two bounded tangents.
pub const MAX_DOT: i64 = 536870912;

impl Vec2 {
    /// Both components lie within `MAX_COMPONENT` of zero.
    pub open spec fn is_bounded(self) -> bool {
        -MAX_COMPONENT <= self.x <= MAX_COMPONENT && -MAX_COMPONENT <= self.y <= MAX_COMPONENT
    }

    /// The squared length of the vector is at most one unit squared.
    pub open spec fn is_short(self) -> bool {
        self.x * self.x + self.y * self.y <= UNIT * UNIT
    }

    /// The vector has length exactly one unit.
    pub open spec fn is_unit(self) -> bool {
        self.x * self.x + self.y * self.y == UNIT * UNIT
    }
}

/// Dot product.
pub open spec fn dot(a: Vec2, b: Vec2) -> int {
    a.x * b.x + a.y * b.y
}

/// Dot product of two bounded vectors.
pub fn dot_exec(a: Vec2, b: Vec2) -> (r: i64)
    requires
        a.is_bounded(),
        b.is_bounded(),
    ensures
        r == dot(a, b),
        -MAX_DOT <= r <= MAX_DOT,
{
    proof {
        lemma_dot_bounded(a, b);
    }
    a.x * b.x + a.y * b.y
}

pub proof fn lemma_dot_bounded(a: Vec2, b: Vec2)
    requires
        a.is_bounded(),
        b.is_bounded(),
    ensures
        -MAX_DOT <= dot(a, b) <= MAX_DOT,
        -268435456 <= a.x * b.x <= 268435456,
        -268435456 <= a.y * b.y <= 268435456,
{
    assert(-268435456 <= a.x * b.x <= 268435456) by (nonlinear_arith)
        requires -16384 <= a.x <= 16384, -16384 <= b.x <= 16384;
    assert(-268435456 <= a.y * b.y <= 268435456) by (nonlinear_arith)
        requires -16384 <= a.y <= 16384, -16384 <= b.y <= 16384;
}

/// The dot product of two vectors of at most unit length lies within one
/// unit squared of zero.
pub proof fn lemma_dot_short(a: Vec2, b: Vec2)
    requires
        a.is_short(),
        b.is_short(),
    ensures
        -(UNIT * UNIT) <= dot(a, b) <= UNIT * UNIT,
{
    let (ax, ay, bx, by) = (a.x as int, a.y as int, b.x as int, b.y as int);
    let (p, q, u, w) = (ax * bx, ay * by, ax * by, ay * bx);
    let c = u - w;
    assert(p * q == u * w) by (nonlinear_arith)
        requires p == ax * bx, q == ay * by, u == ax * by, w == ay * bx;
    assert((p + q) * (p + q) == p * p + 2 * (p * q) + q * q) by (nonlinear_arith);
    assert(c * c == u * u - 2 * (u * w) + w * w) by (nonlinear_arith)
        requires c == u - w;
    assert(p * p == (ax * ax) * (bx * bx)) by (nonlinear_arith)
        requires p == ax * bx;
    assert(q * q == (ay * ay) * (by * by)) by (nonlinear_arith)
        requires q == ay * by;
    assert(u * u == (ax * ax) * (by * by)) by (nonlinear_arith)
        requires u == ax * by;
    assert(w * w == (ay * ay) * (bx * bx)) by (nonlinear_arith)
        requires w == ay * bx;
    assert((ax * ax + ay * ay) * (bx * bx + by * by) == (ax * ax) * (bx * bx) + (ax * ax) * (by * by)
        + (ay * ay) * (bx * bx) + (ay * ay) * (by * by)) by (nonlinear_arith);
    assert(c * c >= 0) by (nonlinear_arith);
    assert(dot(a, b) == p + q);
    assert(0 <= ax * ax + ay * ay && 0 <= bx * bx + by * by) by (nonlinear_arith);
    assert((ax * ax + ay * ay) * (bx * bx + by * by) <= (UNIT * UNIT) * (UNIT * UNIT)) by (nonlinear_arith)
        requires
            0 <= ax * ax + ay * ay <= UNIT * UNIT,
            0 <= bx * bx + by * by <= UNIT * UNIT;
    let d = dot(a, b);
    assert(-(UNIT * UNIT) <= d <= UNIT * UNIT) by (nonlinear_arith)
        requires d * d <= (UNIT * UNIT) * (UNIT * UNIT);
}

/// Squared Euclidean distance between two points.
pub open spec fn sq_dist(p: Vec2, q: Vec2) -> int {
    (q.x - p.x) * (q.x - p.x) + (q.y - p.y) * (q.y - p.y)
}

/// Whether `r` is the integer square root of `v` (rounded down).
pub open spec fn is_isqrt(v: int, r: int) -> bool {
    0 <= r && r * r <= v && v < (r + 1) * (r + 1)
}

/// The integer square root of `v`, found by counting up from `r`.
pub open spec fn isqrt_from(v: int, r: int) -> int
    decreases v - r,
{
    if r >= v || (r + 1) * (r + 1) > v {
        r
    } else {
        isqrt_from(v, r + 1)
    }
}

/// The integer square root of `v` (rounded down).
pub open spec fn isqrt_spec(v: int) -> int {
    isqrt_from(v, 0)
}

/// Fine units of length per coordinate unit.
pub const LEN_SCALE: u64 = 16384;

/// The square root of `v` rounded up.
pub open spec fn ceil_sqrt(v: int) -> int {
    if isqrt_spec(v) * isqrt_spec(v) == v {
        isqrt_spec(v)
    } else {
        isqrt_spec(v) + 1
    }
}

/// Length of the segment from `p` to `q` in fine units (`LEN_SCALE` per
/// coordinate unit), rounded up.
pub open spec fn seg_len(p: Vec2, q: Vec2) -> int {
    ceil_sqrt(sq_dist(p, q) * 268435456)
}

proof fn lemma_isqrt_from(v: int, r: int)
    requires
        0 <= r,
        r * r <= v,
    ensures
        is_isqrt(v, isqrt_from(v, r)),
    decreases v - r,
{
    if r >= v || (r + 1) * (r + 1) > v {
        assert((r + 1) * (r + 1) > v) by (nonlinear_arith)
            requires 0 <= r, r * r <= v, r >= v || (r + 1) * (r + 1) > v;
    } else {
        lemma_isqrt_from(v, r + 1);
    }
}

pub proof fn lemma_isqrt_spec(v: int)
    requires
        0 <= v,
    ensures
        is_isqrt(v, isqrt_spec(v)),
        0 <= isqrt_spec(v),
{
    lemma_isqrt_from(v, 0);
}

pub proof fn lemma_sq_dist_nonneg(p: Vec2, q: Vec2)
    ensures
        0 <= sq_dist(p, q),
{
    assert(0 <= sq_dist(p, q)) by (nonlinear_arith);
}

/// The rounded-up root of `v` covers `v`, exceeds its true root by less
/// than one, and is positive for positive `v`.
pub proof fn lemma_ceil_sqrt(v: int)
    requires
        0 <= v,
    ensures
        0 <= ceil_sqrt(v),
        v <= ceil_sqrt(v) * ceil_sqrt(v),
        v > 0 ==> 0 < ceil_sqrt(v) && (ceil_sqrt(v) - 1) * (ceil_sqrt(v) - 1) < v,
        v == 0 ==> ceil_sqrt(v) == 0,
{
    lemma_isqrt_spec(v);
    let r = isqrt_spec(v);
    let c = ceil_sqrt(v);
    assert(0 <= c && v <= c * c) by (nonlinear_arith)
        requires
            r * r <= v,
            v < (r + 1) * (r + 1),
            r * r == v ==> c == r,
            r * r != v ==> c == r + 1,
            r >= 0;
    if v > 0 {
        assert(0 < c && (c - 1) * (c - 1) < v) by (nonlinear_arith)
            requires
                r * r <= v,
                v < (r + 1) * (r + 1),
                r * r == v ==> c == r,
                r * r != v ==> c == r + 1,
                r >= 0,
                v > 0;
    } else {
        assert(r == 0) by (nonlinear_arith)
            requires r * r <= v, v == 0, r >= 0;
    }
}

/// The rounded-up root of a perfect square is its root.
pub proof fn lemma_ceil_sqrt_exact(v: int, r: int)
    requires
        0 <= r,
        r * r == v,
    ensures
        ceil_sqrt(v) == r,
{
    assert((r + 1) * (r + 1) > v) by (nonlinear_arith)
        requires r * r == v, 0 <= r;
    lemma_isqrt_spec(v);
    lemma_isqrt_unique(v, r, isqrt_spec(v));
}

pub proof fn lemma_seg_len_nonneg(p: Vec2, q: Vec2)
    ensures
        0 <= seg_len(p, q),
        sq_dist(p, q) == 0 <==> seg_len(p, q) == 0,
{
    lemma_sq_dist_nonneg(p, q);
    let v = sq_dist(p, q) * 268435456;
    lemma_ceil_sqrt(v);
}

pub proof fn lemma_sq_dist_bounded(p: Vec2, q: Vec2)
    requires
        p.in_range(),
        q.in_range(),
    ensures
        0 <= sq_dist(p, q) <= MAX_SQ_DIST,
{
    let dx = q.x - p.x;
    let dy = q.y - p.y;
    assert(0 <= dx * dx <= 4398046511104) by (nonlinear_arith)
        requires -2097152 <= dx <= 2097152;
    assert(0 <= dy * dy <= 4398046511104) by (nonlinear_arith)
        requires -2097152 <= dy <= 2097152;
}

/// A segment between points in range is at most `MAX_SEG_LEN` fine units
/// long.
pub proof fn lemma_seg_len_bounded(p: Vec2, q: Vec2)
    requires
        p.in_range(),
        q.in_range(),
    ensures
        0 <= seg_len(p, q) <= MAX_SEG_LEN,
{
    lemma_sq_dist_bounded(p, q);
    let v = sq_dist(p, q) * 268435456;
    lemma_ceil_sqrt(v);
    let c = ceil_sqrt(v);
    if c > 68719476736 {
        assert((c - 1) * (c - 1) >= 68719476736 * 68719476736) by (nonlinear_arith)
            requires c - 1 >= 68719476736;
    }
}

/// Largest length, in fine units, of a segment between points in range.
pub const MAX_SEG_LEN: u64 = 68719476736;

/// Length of the segment from `p` to `q` in fine units, rounded up.
pub fn seg_len_exec(p: Vec2, q: Vec2) -> (r: u64)
    requires
        p.in_range(),
        q.in_range(),
    ensures
        r == seg_len(p, q),
        r <= MAX_SEG_LEN,
{
    let d = sq_dist_exec(p, q);
    let v: u128 = d as u128 * 268435456u128;
    let r = isqrt_wide(v);
    proof {
        lemma_seg_len_bounded(p, q);
    }
    let c: u128 = if r * r == v { r } else { r + 1 };
    c as u64
}

pub fn sq_dist_exec(p: Vec2, q: Vec2) -> (r: u64)
    requires
        p.in_range(),
        q.in_range(),
    ensures
        r == sq_dist(p, q),
        r <= MAX_SQ_DIST,
{
    let dx: i64 = q.x - p.x;
    let dy: i64 = q.y - p.y;
    assert(dx * dx <= 4398046511104) by (nonlinear_arith)
        requires -2097152 <= dx <= 2097152;
    assert(dy * dy <= 4398046511104) by (nonlinear_arith)
        requires -2097152 <= dy <= 2097152;
    assert(dx * dx >= 0 && dy * dy >= 0) by (nonlinear_arith);
    ((dx * dx) + (dy * dy)) as u64
}

/// Largest squared distance between two points in range.
pub const MAX_SQ_DIST: u64 = 8796093022208;

/// The integer square root of `v`, rounded down.
pub fn isqrt(v: u64) -> (r: u64)
    requires
        v <= MAX_SQ_DIST,
    ensures
        is_isqrt(v as int, r as int),
{
    let mut lo: u64 = 0;
    let mut hi: u64 = 4194304;
    assert(hi * hi > MAX_SQ_DIST) by (nonlinear_arith)
        requires hi == 4194304;
    while lo + 1 < hi
        invariant
            lo < hi <= 4194304,
            lo * lo <= v,
            v < hi * hi,
        decreases hi - lo,
    {
        let mid: u64 = lo + (hi - lo) / 2;
        assert(mid * mid <= 4194304 * 4194304) by (nonlinear_arith)
            requires mid <= 4194304;
        if mid * mid <= v {
            lo = mid;
        } else {
            hi = mid;
        }
    }
    assert(hi == lo + 1);
    lo
}

/// The integer square root of a wide value, rounded down.
pub fn isqrt_wide(v: u128) -> (r: u128)
    requires
        v < 1329227995784915872903807060280344576,
    ensures
        is_isqrt(v as int, r as int),
        r == isqrt_spec(v as int),
{
    let mut lo: u128 = 0;
    let mut hi: u128 = 1152921504606846976;
    assert(hi * hi == 1329227995784915872903807060280344576) by (nonlinear_arith)
        requires hi == 1152921504606846976;
    while lo + 1 < hi
        invariant
            lo < hi <= 1152921504606846976,
            lo * lo <= v,
            v < hi * hi,
        decreases hi - lo,
    {
        let mid: u128 = lo + (hi - lo) / 2;
        assert(mid * mid <= 1152921504606846976 * 1152921504606846976) by (nonlinear_arith)
            requires mid <= 1152921504606846976;
        if mid * mid <= v {
            lo = mid;
        } else {
            hi = mid;
        }
    }
    proof {
        lemma_isqrt_spec(v as int);
        lemma_isqrt_unique(v as int, lo as int, isqrt_spec(v as int));
    }
    lo
}

/// An integer square root is unique.
pub proof fn lemma_isqrt_unique(v: int, r: int, s: int)
    requires
        is_isqrt(v, r),
        is_isqrt(v, s),
    ensures
        r == s,
{
    if r < s {
        assert((r + 1) * (r + 1) <= s * s) by (nonlinear_arith)
            requires 0 <= r < s;
    } else if s < r {
        assert((s + 1) * (s + 1) <= r * r) by (nonlinear_arith)
            requires 0 <= s < r;
    }
}

} // verus!
