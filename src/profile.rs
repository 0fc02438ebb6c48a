//! Arc-length resampling of a stroke into a tangent profile.
//!
//! Lengths are measured in fine units, `LEN_SCALE` per coordinate unit, each
//! segment rounded up, so that the profile of a stroke does not depend on its
//! size beyond that rounding.
use vstd::prelude::*;
use crate::geometry::{
    Vec2, ceil_sqrt, lemma_ceil_sqrt, lemma_ceil_sqrt_exact, lemma_isqrt_spec,
    lemma_seg_len_bounded, lemma_seg_len_nonneg, lemma_sq_dist_nonneg, seg_len, seg_len_exec,
    sq_dist, isqrt_spec, UNIT, LEN_SCALE, MAX_SEG_LEN,
};
use vstd::arithmetic::div_mod::{lemma_fundamental_div_mod, lemma_fundamental_div_mod_converse};

verus! {

/// Largest number of points in a stroke.
pub const MAX_POINTS: usize = 1048576;

/// Largest number of tangents asked of the profiler.
pub const MAX_TANGENTS: usize = 65536;

/// A stroke that the profiler accepts: not too long, every point in range.
pub open spec fn valid_stroke(s: Seq<Vec2>) -> bool {
    &&& s.len() <= MAX_POINTS
    &&& forall|k: int| 0 <= k < s.len() ==> (#[trigger] s[k]).in_range()
}

/// Length in fine units of the first `k` segments of the stroke.
pub open spec fn arc_len(s: Seq<Vec2>, k: int) -> int
    decreases k,
{
    if k <= 0 {
        0
    } else {
        arc_len(s, k - 1) + seg_len(s[k - 1], s[k])
    }
}

/// Length in fine units of the whole stroke: zero for fewer than two points.
pub open spec fn stroke_length(s: Seq<Vec2>) -> int {
    arc_len(s, s.len() - 1)
}

/// Length of the whole stroke in coordinate units, rounded down.
pub open spec fn length_in_units(s: Seq<Vec2>) -> int {
    stroke_length(s) / (LEN_SCALE as int)
}

pub proof fn lemma_arc_len_bounds(s: Seq<Vec2>, k: int)
    requires
        valid_stroke(s),
        0 <= k < s.len(),
    ensures
        0 <= arc_len(s, k) <= 68719476736 * k,
    decreases k,
{
    if k > 0 {
        lemma_arc_len_bounds(s, k - 1);
        lemma_seg_len_bounded(s[k - 1], s[k]);
    }
}

/// Arc length only grows along the stroke.
pub proof fn lemma_arc_len_monotone(s: Seq<Vec2>, a: int, b: int)
    requires
        0 <= a <= b,
    ensures
        arc_len(s, a) <= arc_len(s, b),
    decreases b - a,
{
    if a < b {
        lemma_arc_len_monotone(s, a, b - 1);
        lemma_seg_len_nonneg(s[b - 1], s[b]);
    }
}

/// Largest length in fine units of a valid stroke.
pub const MAX_STROKE_LEN: u64 = 72057594037927936;

/// Total length of a stroke in fine units.
fn arc_length(stroke: &[Vec2]) -> (r: u64)
    requires
        valid_stroke(stroke@),
    ensures
        r == stroke_length(stroke@),
        r <= MAX_STROKE_LEN,
{
    let mut total: u64 = 0;
    let mut k: usize = 1;
    while k < stroke.len()
        invariant
            valid_stroke(stroke@),
            1 <= k,
            k <= stroke@.len() || k == 1,
            total == arc_len(stroke@, k - 1),
        decreases stroke@.len() - k,
    {
        proof {
            lemma_arc_len_bounds(stroke@, k - 1);
        }
        let d = seg_len_exec(stroke[k - 1], stroke[k]);
        total = total + d;
        k = k + 1;
    }
    proof {
        if stroke@.len() >= 1 {
            lemma_arc_len_bounds(stroke@, stroke@.len() - 1);
        }
    }
    total
}

/// Total length of a stroke in coordinate units, rounded down; each
/// segment is measured to `1 / LEN_SCALE` of a unit, rounded up.
pub fn stroke_len(stroke: &[Vec2]) -> (r: u64)
    requires
        valid_stroke(stroke@),
    ensures
        r == length_in_units(stroke@),
{
    arc_length(stroke) / LEN_SCALE
}

/// `a / d` rounded toward zero, for `d > 0`.
pub open spec fn div_toward_zero(a: int, d: int) -> int {
    if a >= 0 {
        a / d
    } else {
        -((-a) / d)
    }
}

/// The segment that holds arc length `t / m`, searched from segment `i`:
/// the first whose end lies beyond it, or the last segment.
pub open spec fn seg_from(s: Seq<Vec2>, m: int, t: int, i: int) -> int
    decreases s.len() - i,
{
    if i + 2 >= s.len() || m * arc_len(s, i + 1) > t {
        i
    } else {
        seg_from(s, m, t, i + 1)
    }
}

/// The direction of the step from `p` to `q`, scaled to `UNIT`: each
/// component of the step times `UNIT` over the step's length, measured in
/// fine units and rounded up, rounded toward zero.
pub open spec fn unit_step(p: Vec2, q: Vec2) -> (int, int) {
    let c = seg_len(p, q);
    (
        div_toward_zero((q.x - p.x) * 67108864, c),
        div_toward_zero((q.y - p.y) * 67108864, c),
    )
}

/// The segment that holds the checkpoint of tangent `j`: arc length
/// `(j + 1/2) / n` of the whole stroke.
pub open spec fn tangent_seg(s: Seq<Vec2>, n: int, j: int) -> int {
    seg_from(s, 2 * n, (2 * j + 1) * stroke_length(s), 0)
}

/// Tangent `j` of the profile: the unit direction of the segment that holds
/// its checkpoint.
pub open spec fn tangent(s: Seq<Vec2>, n: int, j: int) -> (int, int) {
    let i = tangent_seg(s, n, j);
    unit_step(s[i], s[i + 1])
}

/// A direction of unit length up to rounding: its squared length lies in
/// `((UNIT - 2)^2, UNIT^2]`, and each component within one unit.
pub open spec fn near_unit(v: Vec2) -> bool {
    &&& 16760836 < v.x * v.x + v.y * v.y <= 16777216
    &&& -4096 <= v.x <= 4096
    &&& -4096 <= v.y <= 4096
}

/// The profile holds exactly the tangents `tangent(s, n, j)`, `j < n`.
pub open spec fn is_profile_of(t: Seq<Vec2>, s: Seq<Vec2>, n: int) -> bool {
    &&& t.len() == n
    &&& forall|j: int|
        0 <= j < n ==> (#[trigger] t[j]).x == tangent(s, n, j).0 && t[j].y == tangent(s, n, j).1
}

/// The profile of `n` tangents of a stroke: empty when the stroke has zero
/// length.
pub open spec fn resample(s: Seq<Vec2>, n: int) -> Seq<Vec2> {
    if stroke_length(s) == 0 {
        Seq::empty()
    } else {
        Seq::new(n as nat, |j: int| Vec2 { x: tangent(s, n, j).0 as i64, y: tangent(s, n, j).1 as i64 })
    }
}

/// Rounding the scaled components of a nonzero step down keeps the result
/// within one unit, and loses less than two units of length.
proof fn lemma_floor_pair(mx: int, my: int, d: int, c: int)
    requires
        0 <= mx,
        0 <= my,
        d == mx * mx + my * my,
        1 <= d,
        d * 268435456 <= c * c,
        (c - 1) * (c - 1) < d * 268435456,
        0 < c,
    ensures
        (mx * 67108864) / c <= 4096,
        (my * 67108864) / c <= 4096,
        16760836 < ((mx * 67108864) / c) * ((mx * 67108864) / c) + ((my * 67108864) / c) * ((my
            * 67108864) / c) <= 16777216,
{
    let (qx, qy) = ((mx * 67108864) / c, (my * 67108864) / c);
    lemma_fundamental_div_mod(mx * 67108864, c);
    lemma_fundamental_div_mod(my * 67108864, c);
    let (ax, ay) = (mx * 67108864, my * 67108864);
    assert(qx * c <= ax < (qx + 1) * c && 0 <= qx) by (nonlinear_arith)
        requires ax == c * qx + ax % c, 0 <= ax % c < c, 0 <= ax, 0 < c;
    assert(qy * c <= ay < (qy + 1) * c && 0 <= qy) by (nonlinear_arith)
        requires ay == c * qy + ay % c, 0 <= ay % c < c, 0 <= ay, 0 < c;
    assert(mx * 16384 <= c && my * 16384 <= c) by (nonlinear_arith)
        requires d == mx * mx + my * my, d * 268435456 <= c * c, 0 <= mx, 0 <= my, 0 < c;
    assert(qx <= 4096 && qy <= 4096) by (nonlinear_arith)
        requires qx * c <= ax, qy * c <= ay, ax == mx * 67108864, ay == my * 67108864,
            mx * 16384 <= c, my * 16384 <= c, 0 < c;
    assert(qx * qx * (c * c) <= ax * ax && qy * qy * (c * c) <= ay * ay) by (nonlinear_arith)
        requires 0 <= qx * c <= ax, 0 <= qy * c <= ay, 0 <= qx, 0 <= qy, 0 < c;
    assert(ax * ax + ay * ay == d * 268435456 * 16777216) by (nonlinear_arith)
        requires ax == mx * 67108864, ay == my * 67108864, d == mx * mx + my * my;
    assert((qx * qx + qy * qy) * (c * c) <= (c * c) * 16777216) by (nonlinear_arith)
        requires
            qx * qx * (c * c) <= ax * ax,
            qy * qy * (c * c) <= ay * ay,
            ax * ax + ay * ay == d * 268435456 * 16777216,
            d * 268435456 <= c * c;
    assert(qx * qx + qy * qy <= 16777216) by (nonlinear_arith)
        requires (qx * qx + qy * qy) * (c * c) <= (c * c) * 16777216, 0 < c;
    // The lower bound.
    assert((qx + 1) * (qx + 1) * (c * c) > ax * ax - 1 || ax == 0) by (nonlinear_arith)
        requires ax < (qx + 1) * c, 0 <= ax, 0 <= qx, 0 < c;
    assert((qx + 1) * (qx + 1) * (c * c) >= ax * ax && (qy + 1) * (qy + 1) * (c * c) >= ay * ay)
        by (nonlinear_arith)
        requires ax < (qx + 1) * c, ay < (qy + 1) * c, 0 <= ax, 0 <= ay, 0 <= qx, 0 <= qy, 0 < c;
    let aa = (qx + 1) * (qx + 1) + (qy + 1) * (qy + 1);
    assert(c >= 16384) by (nonlinear_arith)
        requires 1 <= d, d * 268435456 <= c * c, 0 < c;
    assert(aa * (c * c) > (c - 1) * (c - 1) * 16777216) by (nonlinear_arith)
        requires
            aa == (qx + 1) * (qx + 1) + (qy + 1) * (qy + 1),
            (qx + 1) * (qx + 1) * (c * c) >= ax * ax,
            (qy + 1) * (qy + 1) * (c * c) >= ay * ay,
            ax * ax + ay * ay == d * 268435456 * 16777216,
            (c - 1) * (c - 1) < d * 268435456;
    assert(aa > 16777216 - 2048) by (nonlinear_arith)
        requires aa * (c * c) > (c - 1) * (c - 1) * 16777216, c >= 16384;
    assert(qx + qy <= 5793) by (nonlinear_arith)
        requires qx * qx + qy * qy <= 16777216, 0 <= qx, 0 <= qy;
    assert(qx * qx + qy * qy > 16760836) by (nonlinear_arith)
        requires
            aa == (qx + 1) * (qx + 1) + (qy + 1) * (qy + 1),
            aa > 16777216 - 2048,
            qx + qy <= 5793;
}

/// The direction of a nonzero step has unit length up to rounding.
proof fn lemma_unit_step_near(p: Vec2, q: Vec2)
    requires
        p.in_range(),
        q.in_range(),
        sq_dist(p, q) > 0,
    ensures
        -4096 <= unit_step(p, q).0 <= 4096,
        -4096 <= unit_step(p, q).1 <= 4096,
        16760836 < unit_step(p, q).0 * unit_step(p, q).0 + unit_step(p, q).1 * unit_step(p, q).1
            <= 16777216,
{
    let d = sq_dist(p, q);
    let v = d * 268435456;
    lemma_ceil_sqrt(v);
    let c = ceil_sqrt(v);
    let (dx, dy) = (q.x - p.x, q.y - p.y);
    let mx = if dx >= 0 { dx } else { -dx };
    let my = if dy >= 0 { dy } else { -dy };
    assert(d == mx * mx + my * my) by (nonlinear_arith)
        requires d == dx * dx + dy * dy, mx == dx || mx == -dx, my == dy || my == -dy;
    lemma_floor_pair(mx, my, d, c);
    let (qx, qy) = ((mx * 67108864) / c, (my * 67108864) / c);
    assert(dx * 67108864 >= 0 <==> dx >= 0) by (nonlinear_arith);
    assert(dy * 67108864 >= 0 <==> dy >= 0) by (nonlinear_arith);
    assert(dx < 0 ==> -(dx * 67108864) == mx * 67108864) by (nonlinear_arith)
        requires mx == -dx || dx >= 0;
    assert(dy < 0 ==> -(dy * 67108864) == my * 67108864) by (nonlinear_arith)
        requires my == -dy || dy >= 0;
    let (tx, ty) = unit_step(p, q);
    assert(tx == qx || tx == -qx);
    assert(ty == qy || ty == -qy);
    assert(tx * tx == qx * qx && ty * ty == qy * qy) by (nonlinear_arith)
        requires tx == qx || tx == -qx, ty == qy || ty == -qy;
}

/// `c * UNIT * LEN_SCALE / r` rounded toward zero.
fn scale_to_unit(c: i64, r: u64) -> (q: i64)
    requires
        0 < r,
        -2097152 <= c <= 2097152,
        c * 16384 <= r,
        -c * 16384 <= r,
    ensures
        q == div_toward_zero(c * 67108864, r as int),
{
    let m: u64 = if c >= 0 { c as u64 } else { (-c) as u64 };
    assert(m * 67108864 <= 2097152 * 67108864) by (nonlinear_arith)
        requires m <= 2097152;
    let q: u64 = (m * 67108864) / r;
    proof {
        assert(q <= 4096) by (nonlinear_arith)
            requires q == (m * 67108864) / (r as int), m * 16384 <= r, 0 < r;
        if c < 0 {
            assert(-(c * 67108864) == m * 67108864) by (nonlinear_arith)
                requires m == -c;
        }
    }
    if c >= 0 {
        q as i64
    } else {
        -(q as i64)
    }
}

/// The unit direction of a segment of positive length.
fn unit_step_exec(p: Vec2, q: Vec2) -> (t: Vec2)
    requires
        p.in_range(),
        q.in_range(),
        sq_dist(p, q) > 0,
    ensures
        t.x == unit_step(p, q).0,
        t.y == unit_step(p, q).1,
        near_unit(t),
{
    let c = seg_len_exec(p, q);
    let (dx, dy) = (q.x - p.x, q.y - p.y);
    proof {
        lemma_unit_step_near(p, q);
        let d = sq_dist(p, q);
        let v = d * 268435456;
        lemma_ceil_sqrt(v);
        assert(d == dx * dx + dy * dy);
        assert(dx * 16384 <= c && -dx * 16384 <= c && dy * 16384 <= c && -dy * 16384 <= c)
            by (nonlinear_arith)
            requires d == dx * dx + dy * dy, d * 268435456 <= c * c, 0 < c;
    }
    Vec2 { x: scale_to_unit(dx, c), y: scale_to_unit(dy, c) }
}

/// Searching from segment `i0` finds the same segment as searching from a
/// later `i` when no segment before `i` ends beyond `t / m`.
proof fn lemma_seg_from_skip(s: Seq<Vec2>, m: int, t: int, i0: int, i: int)
    requires
        0 <= i0 <= i,
        i + 2 <= s.len(),
        0 <= m,
        m * arc_len(s, i) <= t,
    ensures
        seg_from(s, m, t, i0) == seg_from(s, m, t, i),
    decreases i - i0,
{
    if i0 < i {
        lemma_arc_len_monotone(s, i0 + 1, i);
        let (a, b) = (arc_len(s, i0 + 1), arc_len(s, i));
        assert(m * a <= m * b) by (nonlinear_arith)
            requires 0 <= m, a <= b;
        lemma_seg_from_skip(s, m, t, i0 + 1, i);
    }
}

/// The first segment whose end lies beyond `t / m` is the one found by
/// `seg_from`, for `0 <= t < m * length`.
proof fn lemma_seg_from_found(s: Seq<Vec2>, m: int, t: int, i0: int)
    requires
        valid_stroke(s),
        2 <= s.len(),
        0 < m,
        0 <= i0 <= s.len() - 2,
        m * arc_len(s, i0) <= t < m * arc_len(s, s.len() - 1),
    ensures
        0 <= seg_from(s, m, t, i0) <= s.len() - 2,
        m * arc_len(s, seg_from(s, m, t, i0)) <= t < m * arc_len(s, seg_from(s, m, t, i0) + 1),
    decreases s.len() - i0,
{
    if i0 + 2 >= s.len() || m * arc_len(s, i0 + 1) > t {
    } else {
        lemma_seg_from_found(s, m, t, i0 + 1);
    }
}

/// Where the checkpoint falls within segment `i`, the search from the start
/// finds segment `i`.
proof fn lemma_seg_from_locate(s: Seq<Vec2>, m: int, t: int, i: int)
    requires
        0 <= i <= s.len() - 2,
        0 <= m,
        m * arc_len(s, i) <= t < m * arc_len(s, i + 1),
    ensures
        seg_from(s, m, t, 0) == i,
{
    lemma_seg_from_skip(s, m, t, 0, i);
}

/// The segment holding a checkpoint has positive length, and its tangent is
/// a unit direction up to rounding.
proof fn lemma_tangent_near(s: Seq<Vec2>, n: int, j: int)
    requires
        valid_stroke(s),
        stroke_length(s) > 0,
        0 <= j < n,
    ensures
        0 <= tangent_seg(s, n, j) <= s.len() - 2,
        near_unit(Vec2 { x: tangent(s, n, j).0 as i64, y: tangent(s, n, j).1 as i64 }),
        -4096 <= tangent(s, n, j).0 <= 4096,
        -4096 <= tangent(s, n, j).1 <= 4096,
{
    let len = stroke_length(s);
    if s.len() < 2 {
        assert(arc_len(s, s.len() - 1) == 0);
    }
    let t = (2 * j + 1) * len;
    assert(0 <= t < (2 * n) * len) by (nonlinear_arith)
        requires 0 <= j < n, len > 0, t == (2 * j + 1) * len;
    assert((2 * n) * arc_len(s, 0) == 0);
    lemma_seg_from_found(s, 2 * n, t, 0);
    let i = tangent_seg(s, n, j);
    let m = 2 * n;
    assert(m * arc_len(s, i) + m * seg_len(s[i], s[i + 1]) == m * arc_len(s, i + 1))
        by (nonlinear_arith)
        requires arc_len(s, i + 1) == arc_len(s, i) + seg_len(s[i], s[i + 1]);
    assert(seg_len(s[i], s[i + 1]) != 0) by (nonlinear_arith)
        requires m * arc_len(s, i) <= t, t < m * arc_len(s, i) + m * seg_len(s[i], s[i + 1]);
    lemma_seg_len_nonneg(s[i], s[i + 1]);
    lemma_sq_dist_nonneg(s[i], s[i + 1]);
    assert(s[i].in_range() && s[i + 1].in_range());
    lemma_unit_step_near(s[i], s[i + 1]);
}

/// Every tangent of a resampled profile has unit length up to rounding.
pub proof fn lemma_resample_near_unit(s: Seq<Vec2>, n: int)
    requires
        valid_stroke(s),
        0 <= n,
    ensures
        resample(s, n).len() == (if stroke_length(s) == 0 {
            0
        } else {
            n
        }),
        forall|j: int| 0 <= j < resample(s, n).len() ==> near_unit(#[trigger] resample(s, n)[j]),
{
    if s.len() > 0 {
        lemma_arc_len_bounds(s, s.len() - 1);
    }
    if stroke_length(s) != 0 {
        assert forall|j: int| 0 <= j < n implies near_unit(#[trigger] resample(s, n)[j]) by {
            lemma_tangent_near(s, n, j);
        }
    }
}

/// Resamples a stroke into `n` unit tangents at equal steps of arc length.
///
/// Tangent `j` is the direction, scaled to `UNIT`, of the segment that holds
/// arc length `(j + 1/2) / n` of the whole stroke. A stroke of zero length
/// gives an empty profile.
pub fn tangents_from_stroke(stroke: &[Vec2], n: usize) -> (r: Vec<Vec2>)
    requires
        valid_stroke(stroke@),
        n <= MAX_TANGENTS,
    ensures
        stroke_length(stroke@) == 0 ==> r@.len() == 0,
        stroke_length(stroke@) > 0 ==> is_profile_of(r@, stroke@, n as int),
        r@ == resample(stroke@, n as int),
        forall|k: int| 0 <= k < r@.len() ==> near_unit(#[trigger] r@[k]),
{
    let len = arc_length(stroke);
    let mut dst: Vec<Vec2> = Vec::new();
    if len == 0 {
        assert(dst@ =~= resample(stroke@, n as int));
        return dst;
    }
    let ghost s = stroke@;
    proof {
        if s.len() < 2 {
            assert(arc_len(s, s.len() - 1) == 0);
        }
        lemma_arc_len_bounds(s, s.len() - 1);
    }
    let m: u128 = 2 * n as u128;
    let mut l: u64 = 0;
    let mut i: usize = 0;
    let mut j: usize = 0;
    while j < n
        invariant
            s == stroke@,
            valid_stroke(s),
            2 <= s.len(),
            len == stroke_length(s),
            0 < len <= MAX_STROKE_LEN,
            n <= MAX_TANGENTS,
            m == 2 * n,
            j <= n,
            i + 2 <= s.len(),
            l == arc_len(s, i as int),
            m * l <= (2 * j + 1) * len,
            dst@.len() == j,
            forall|k: int|
                0 <= k < j ==> (#[trigger] dst@[k]).x == tangent(s, n as int, k).0 && dst@[k].y
                    == tangent(s, n as int, k).1,
            forall|k: int| 0 <= k < j ==> near_unit(#[trigger] dst@[k]),
        decreases (s.len() - i) + (n - j),
    {
        let dl = seg_len_exec(stroke[i], stroke[i + 1]);
        let ghost l1 = arc_len(s, i + 1);
        let ghost t = (2 * j + 1) * len;
        proof {
            lemma_arc_len_monotone(s, i + 1, s.len() - 1);
            lemma_arc_len_bounds(s, i + 1);
            assert(l1 <= len);
            assert(m * l1 <= 131072 * 72057594037927936) by (nonlinear_arith)
                requires m <= 131072, 0 <= l1 <= 72057594037927936;
            assert(t <= 131072 * 72057594037927936) by (nonlinear_arith)
                requires j < n <= 65536, 0 <= len <= 72057594037927936, t == (2 * j + 1) * len;
        }
        let lw: u128 = l as u128 + dl as u128;
        if m * lw <= (2 * j as u128 + 1) * len as u128 {
            proof {
                if i + 2 == s.len() {
                    assert(t < m * len) by (nonlinear_arith)
                        requires j < n, 0 < len, t == (2 * j + 1) * len, m == 2 * n;
                }
            }
            l = l + dl;
            i = i + 1;
        } else {
            proof {
                lemma_seg_from_skip(s, m as int, t, 0, i as int);
                assert(m * l + m * dl == m * (l + dl)) by (nonlinear_arith);
                assert(dl > 0);
                lemma_seg_len_nonneg(s[i as int], s[i + 1]);
                lemma_tangent_near(s, n as int, j as int);
                assert(t <= (2 * (j + 1) + 1) * len) by (nonlinear_arith)
                    requires 0 < len, t == (2 * j + 1) * len;
            }
            let v = unit_step_exec(stroke[i], stroke[i + 1]);
            dst.push(v);
            j = j + 1;
        }
    }
    assert(dst@ =~= resample(stroke@, n as int));
    dst
}

/// The point halfway along the segment from `p` to `q`.
pub open spec fn midpoint(p: Vec2, q: Vec2) -> Vec2 {
    Vec2 { x: (p.x + (q.x - p.x) / 2) as i64, y: (p.y + (q.y - p.y) / 2) as i64 }
}

/// The stroke with the midpoint of every segment inserted: the same path at
/// twice the point density.
pub open spec fn doubled(s: Seq<Vec2>) -> Seq<Vec2> {
    Seq::new(
        if s.len() == 0 {
            0
        } else {
            (2 * s.len() - 1) as nat
        },
        |k: int|
            if k % 2 == 0 {
                s[k / 2]
            } else {
                midpoint(s[k / 2], s[k / 2 + 1])
            },
    )
}

/// Every segment of the stroke has even coordinate steps and a length that
/// is a whole number of coordinate units, so that halving it loses nothing.
pub open spec fn exact_segments(s: Seq<Vec2>) -> bool {
    forall|i: int|
        0 <= i < s.len() - 1 ==> {
            &&& (s[i + 1].x - s[i].x) % 2 == 0
            &&& (s[i + 1].y - s[i].y) % 2 == 0
            &&& #[trigger] isqrt_spec(sq_dist(s[i], s[i + 1])) * isqrt_spec(sq_dist(s[i], s[i + 1]))
                == sq_dist(s[i], s[i + 1])
        }
}

proof fn lemma_even_root(l: int, a: int, b: int)
    requires
        0 <= l,
        l * l == 4 * (a * a + b * b),
    ensures
        l % 2 == 0,
        (l / 2) * (l / 2) == a * a + b * b,
{
    let m = l / 2;
    lemma_fundamental_div_mod(l, 2);
    if l % 2 == 1 {
        assert(l * l == 4 * (m * m + m) + 1) by (nonlinear_arith)
            requires l == 2 * m + 1;
        assert(false) by (nonlinear_arith)
            requires l * l == 4 * (m * m + m) + 1, l * l == 4 * (a * a + b * b);
    }
    assert(l * l == 4 * (m * m)) by (nonlinear_arith)
        requires l == 2 * m;
}

/// A segment of whole length `l` measures `l * LEN_SCALE` fine units.
proof fn lemma_seg_len_whole(p: Vec2, q: Vec2, l: int)
    requires
        0 <= l,
        l * l == sq_dist(p, q),
    ensures
        seg_len(p, q) == l * 16384,
{
    assert((l * 16384) * (l * 16384) == sq_dist(p, q) * 268435456) by (nonlinear_arith)
        requires l * l == sq_dist(p, q);
    lemma_ceil_sqrt_exact(sq_dist(p, q) * 268435456, l * 16384);
}

/// Both halves of an exact segment with even steps are half as long, and
/// step the same way.
proof fn lemma_half_segments(s: Seq<Vec2>, i: int)
    requires
        valid_stroke(s),
        exact_segments(s),
        0 <= i < s.len() - 1,
    ensures
        isqrt_spec(sq_dist(s[i], s[i + 1])) % 2 == 0,
        seg_len(s[i], s[i + 1]) == isqrt_spec(sq_dist(s[i], s[i + 1])) * 16384,
        seg_len(s[i], midpoint(s[i], s[i + 1])) == (isqrt_spec(sq_dist(s[i], s[i + 1])) / 2)
            * 16384,
        seg_len(midpoint(s[i], s[i + 1]), s[i + 1]) == (isqrt_spec(sq_dist(s[i], s[i + 1])) / 2)
            * 16384,
        midpoint(s[i], s[i + 1]).x - s[i].x == s[i + 1].x - midpoint(s[i], s[i + 1]).x,
        midpoint(s[i], s[i + 1]).y - s[i].y == s[i + 1].y - midpoint(s[i], s[i + 1]).y,
        s[i + 1].x - s[i].x == 2 * (midpoint(s[i], s[i + 1]).x - s[i].x),
        s[i + 1].y - s[i].y == 2 * (midpoint(s[i], s[i + 1]).y - s[i].y),
{
    let (p, q) = (s[i], s[i + 1]);
    let m = midpoint(p, q);
    assert(p.in_range() && q.in_range());
    let l = isqrt_spec(sq_dist(p, q));
    assert(isqrt_spec(sq_dist(s[i], s[i + 1])) * isqrt_spec(sq_dist(s[i], s[i + 1])) == sq_dist(
        s[i],
        s[i + 1],
    ));
    let (a, b) = ((q.x - p.x) / 2, (q.y - p.y) / 2);
    assert(q.x - p.x == 2 * a && q.y - p.y == 2 * b);
    lemma_sq_dist_nonneg(p, q);
    lemma_isqrt_spec(sq_dist(p, q));
    assert(sq_dist(p, q) == 4 * (a * a + b * b)) by (nonlinear_arith)
        requires q.x - p.x == 2 * a, q.y - p.y == 2 * b, sq_dist(p, q) == (q.x - p.x) * (q.x
            - p.x) + (q.y - p.y) * (q.y - p.y);
    lemma_even_root(l, a, b);
    assert(sq_dist(p, m) == a * a + b * b);
    assert(sq_dist(m, q) == a * a + b * b);
    lemma_seg_len_whole(p, q, l);
    lemma_seg_len_whole(p, m, l / 2);
    lemma_seg_len_whole(m, q, l / 2);
}

/// Arc lengths of the doubled stroke at the stroke's own points and at the
/// midpoints.
proof fn lemma_doubled_arc(s: Seq<Vec2>, i: int)
    requires
        valid_stroke(s),
        exact_segments(s),
        0 <= i < s.len(),
    ensures
        arc_len(doubled(s), 2 * i) == arc_len(s, i),
        i < s.len() - 1 ==> arc_len(doubled(s), 2 * i + 1) == arc_len(s, i) + seg_len(
            s[i],
            s[i + 1],
        ) / 2,
    decreases i,
{
    let d = doubled(s);
    if i > 0 {
        lemma_doubled_arc(s, i - 1);
        lemma_half_segments(s, i - 1);
        assert(d[2 * (i - 1)] == s[i - 1]);
        assert(d[2 * (i - 1) + 1] == midpoint(s[i - 1], s[i]));
        assert(d[2 * i] == s[i]);
        assert(arc_len(d, 2 * i) == arc_len(d, 2 * i - 1) + seg_len(d[2 * i - 1], d[2 * i]));
    }
    if i < s.len() - 1 {
        lemma_half_segments(s, i);
        assert(d[2 * i] == s[i]);
        assert(d[2 * i + 1] == midpoint(s[i], s[i + 1]));
        assert(arc_len(d, 2 * i + 1) == arc_len(d, 2 * i) + seg_len(d[2 * i], d[2 * i + 1]));
    }
}

proof fn lemma_div_double(x: int, y: int)
    requires
        y > 0,
    ensures
        div_toward_zero(2 * x, 2 * y) == div_toward_zero(x, y),
{
    let ax = if x >= 0 { x } else { -x };
    lemma_fundamental_div_mod(ax, y);
    let (q, r) = (ax / y, ax % y);
    assert(2 * ax == q * (2 * y) + 2 * r) by (nonlinear_arith)
        requires ax == y * q + r;
    lemma_fundamental_div_mod_converse(2 * ax, 2 * y, q, 2 * r);
}

/// Tangents of the doubled stroke are those of the stroke.
proof fn lemma_doubled_tangent(s: Seq<Vec2>, n: int, j: int)
    requires
        valid_stroke(s),
        exact_segments(s),
        2 <= s.len(),
        stroke_length(s) > 0,
        0 <= j < n,
    ensures
        tangent(doubled(s), n, j) == tangent(s, n, j),
{
    let d = doubled(s);
    let len = stroke_length(s);
    lemma_doubled_arc(s, s.len() - 1);
    assert(d.len() - 1 == 2 * (s.len() - 1));
    assert(stroke_length(d) == len);
    let m = 2 * n;
    let t = (2 * j + 1) * len;
    assert(0 <= t < m * len) by (nonlinear_arith)
        requires 0 <= j < n, len > 0, t == (2 * j + 1) * len, m == 2 * n;
    assert(m * arc_len(s, 0) == 0);
    lemma_seg_from_found(s, m, t, 0);
    let i = seg_from(s, m, t, 0);
    lemma_half_segments(s, i);
    lemma_doubled_arc(s, i);
    lemma_doubled_arc(s, i + 1);
    let (p, q) = (s[i], s[i + 1]);
    let l = isqrt_spec(sq_dist(p, q));
    let h = l / 2;
    let mid = midpoint(p, q);
    assert(d[2 * i] == p && d[2 * i + 1] == mid && d[2 * i + 2] == q);
    let hl = h * 16384;
    assert(seg_len(p, q) == 2 * hl);
    assert(m * (arc_len(s, i) + hl) == m * arc_len(s, i) + m * hl) by (nonlinear_arith);
    assert(m * arc_len(s, i + 1) == m * arc_len(s, i) + 2 * (m * hl)) by (nonlinear_arith)
        requires arc_len(s, i + 1) == arc_len(s, i) + 2 * hl;
    assert(hl > 0) by (nonlinear_arith)
        requires m * arc_len(s, i) <= t < m * arc_len(s, i) + 2 * (m * hl), m > 0;
    let (ax, ay) = (mid.x - p.x, mid.y - p.y);
    assert((2 * ax) * 67108864 == 2 * (ax * 67108864) && (2 * ay) * 67108864 == 2 * (ay
        * 67108864)) by (nonlinear_arith);
    lemma_div_double(ax * 67108864, hl);
    lemma_div_double(ay * 67108864, hl);
    assert(unit_step(p, q) == unit_step(p, mid));
    assert(unit_step(mid, q) == unit_step(p, mid));
    if t < m * (arc_len(s, i) + hl) {
        lemma_seg_from_locate(d, m, t, 2 * i);
    } else {
        lemma_seg_from_locate(d, m, t, 2 * i + 1);
    }
}

/// Resampling does not depend on point density: inserting the midpoint of
/// every segment leaves the profile unchanged, for strokes whose segments
/// have even coordinate steps and whole lengths.
pub proof fn lemma_resample_doubled_density(s: Seq<Vec2>, n: int)
    requires
        valid_stroke(s),
        exact_segments(s),
        0 <= n,
    ensures
        resample(doubled(s), n) == resample(s, n),
{
    let d = doubled(s);
    if s.len() < 2 {
        assert(d.len() == s.len());
        if s.len() == 1 {
            assert(d[0] == s[0]);
        }
        assert(d =~= s);
    } else {
        lemma_doubled_arc(s, s.len() - 1);
        assert(d.len() - 1 == 2 * (s.len() - 1));
        assert(stroke_length(d) == stroke_length(s));
        if stroke_length(s) > 0 {
            assert forall|j: int| 0 <= j < n implies #[trigger] tangent(d, n, j) == tangent(s, n, j) by {
                lemma_doubled_tangent(s, n, j);
            }
            assert(resample(d, n) =~= resample(s, n));
        } else {
            lemma_arc_len_bounds(s, s.len() - 1);
        }
    }
}

} // verus!
