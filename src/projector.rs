//! Projection of a stroke swept through space onto its drawing plane.
//!
//! The projector accumulates hand positions and two orientation hints. The
//! plane is the one the points vary least along: the eigenvector of smallest
//! eigenvalue of `plane_matrix`, a scatter matrix steadied toward the plane
//! facing the front hint. Finding that eigenvector is left to the caller;
//! `stroke` then expresses every point in the plane's coordinates.
use vstd::prelude::*;
use crate::geometry::{is_isqrt, isqrt_spec, lemma_isqrt_spec, isqrt_wide, Vec2, MAX_COORD, UNIT};
use crate::profile::div_toward_zero;

verus! {

/// Largest absolute value of a position coordinate.
pub const MAX_COORD3: i64 = 262144;

/// Largest absolute value of a hint component handed to `feed`.
pub const MAX_HINT: i64 = 16384;

/// Largest number of positions a projector holds.
pub const MAX_FEED: usize = 65536;

/// A vector in space, in fixed-point units.
#[derive(Clone, Copy, PartialEq, Eq, Debug, Structural)]
pub struct Vec3 {
    pub x: i64,
    pub y: i64,
    pub z: i64,
}

impl Vec3 {
    pub open spec fn in_range(self) -> bool {
        &&& -MAX_COORD3 <= self.x <= MAX_COORD3
        &&& -MAX_COORD3 <= self.y <= MAX_COORD3
        &&& -MAX_COORD3 <= self.z <= MAX_COORD3
    }

    pub open spec fn within(self, bound: int) -> bool {
        &&& -bound <= self.x <= bound
        &&& -bound <= self.y <= bound
        &&& -bound <= self.z <= bound
    }
}

/// Coordinate `a` (0, 1 or 2) of a vector.
pub open spec fn coord(p: Vec3, a: int) -> int {
    if a == 0 {
        p.x as int
    } else if a == 1 {
        p.y as int
    } else {
        p.z as int
    }
}

/// Sum of coordinate `a` over the first `k` points.
pub open spec fn sum1(s: Seq<Vec3>, k: int, a: int) -> int
    decreases k,
{
    if k <= 0 {
        0
    } else {
        sum1(s, k - 1, a) + coord(s[k - 1], a)
    }
}

/// Sum of the products of coordinates `a` and `b` over the first `k` points.
pub open spec fn sum2(s: Seq<Vec3>, k: int, a: int, b: int) -> int
    decreases k,
{
    if k <= 0 {
        0
    } else {
        sum2(s, k - 1, a, b) + coord(s[k - 1], a) * coord(s[k - 1], b)
    }
}

/// Entry `(a, b)` of the scatter matrix of the points about their mean,
/// times the number of points: `n * sum(p_a * p_b) - sum(p_a) * sum(p_b)`.
pub open spec fn scatter_entry(s: Seq<Vec3>, a: int, b: int) -> int {
    let n = s.len() as int;
    n * sum2(s, n, a, b) - sum1(s, n, a) * sum1(s, n, b)
}

pub open spec fn trace(s: Seq<Vec3>) -> int {
    scatter_entry(s, 0, 0) + scatter_entry(s, 1, 1) + scatter_entry(s, 2, 2)
}

/// The unit-length direction of `f` scaled to `UNIT`, rounded toward zero;
/// zero for the zero vector.
pub open spec fn direction(f: Vec3, a: int) -> int {
    let r = isqrt_spec(f.x * f.x + f.y * f.y + f.z * f.z);
    if r == 0 {
        0
    } else {
        div_toward_zero(coord(f, a) * UNIT, r)
    }
}

/// Squared length of `direction(f)`.
pub open spec fn direction_sq(f: Vec3) -> int {
    direction(f, 0) * direction(f, 0) + direction(f, 1) * direction(f, 1) + direction(f, 2)
        * direction(f, 2)
}

/// Entry `(a, b)` of the steadied scatter matrix, scaled by `48 * F` where
/// `F` is the squared length of the front direction `d`:
/// `48 F C + tr(C) (F I - d dᵀ)`, that is `C` plus a forty-eighth of its
/// trace on the plane across the front hint.
pub open spec fn plane_entry(s: Seq<Vec3>, front: Vec3, a: int, b: int) -> int {
    let f = direction_sq(front);
    48 * f * scatter_entry(s, a, b) + trace(s) * ((if a == b {
        f
    } else {
        0
    }) - direction(front, a) * direction(front, b))
}

/// Cross product.
pub open spec fn cross(a: (int, int, int), b: (int, int, int)) -> (int, int, int) {
    (a.1 * b.2 - a.2 * b.1, a.2 * b.0 - a.0 * b.2, a.0 * b.1 - a.1 * b.0)
}

pub open spec fn dot3(a: (int, int, int), b: (int, int, int)) -> int {
    a.0 * b.0 + a.1 * b.1 + a.2 * b.2
}

pub open spec fn triple(v: Vec3) -> (int, int, int) {
    (v.x as int, v.y as int, v.z as int)
}

/// The plane normal turned away from the front hint.
pub open spec fn oriented(normal: Vec3, front: Vec3) -> (int, int, int) {
    let n = triple(normal);
    if dot3(n, triple(front)) < 0 {
        (-n.0, -n.1, -n.2)
    } else {
        n
    }
}

pub open spec fn nonzero3(v: (int, int, int)) -> bool {
    v.0 != 0 || v.1 != 0 || v.2 != 0
}

/// The x axis crossed with `n`, divided by `UNIT`.
pub open spec fn x_cross(n: (int, int, int)) -> (int, int, int) {
    (0, -n.2, n.1)
}

/// The y axis crossed with `n`, divided by `UNIT`.
pub open spec fn y_cross(n: (int, int, int)) -> (int, int, int) {
    (n.2, 0, -n.0)
}

/// A vector across `n` for when the preferred one vanishes: the x axis
/// crossed with `n`, or the y axis crossed with it where `n` lies along x.
pub open spec fn fallback_axis(n: (int, int, int)) -> (int, int, int) {
    if nonzero3(x_cross(n)) {
        x_cross(n)
    } else {
        y_cross(n)
    }
}

/// First in-plane axis: the up direction crossed with the oriented normal,
/// or the fallback where the up direction lies along the normal.
pub open spec fn axis_x(up: Vec3, front: Vec3, normal: Vec3) -> (int, int, int) {
    let a = cross((direction(up, 0), direction(up, 1), direction(up, 2)), oriented(normal, front));
    if nonzero3(a) {
        a
    } else {
        fallback_axis(oriented(normal, front))
    }
}

/// Second in-plane axis: the oriented normal crossed with the first, or the
/// fallback where that vanishes.
pub open spec fn axis_y(up: Vec3, front: Vec3, normal: Vec3) -> (int, int, int) {
    let b = cross(oriented(normal, front), axis_x(up, front, normal));
    if nonzero3(b) {
        b
    } else {
        fallback_axis(oriented(normal, front))
    }
}

/// The coordinate of `p` along axis `e`: `p · e / |e|`, with `|e|` rounded
/// down and the quotient rounded toward zero.
pub open spec fn plane_coord(p: Vec3, e: (int, int, int)) -> int {
    div_toward_zero(dot3(triple(p), e), isqrt_spec(dot3(e, e)))
}

/// The fallback across a nonzero vector is nonzero.
proof fn lemma_fallback_nonzero(n: (int, int, int))
    requires
        nonzero3(n),
    ensures
        nonzero3(fallback_axis(n)),
{
}

/// Along a nonzero axis, the coordinate of a position in range lies in the
/// range of a stroke, and the axis has positive rounded length.
proof fn lemma_plane_coord_fits(p: Vec3, e: (int, int, int))
    requires
        p.in_range(),
        nonzero3(e),
    ensures
        isqrt_spec(dot3(e, e)) > 0,
        -MAX_COORD <= plane_coord(p, e) <= MAX_COORD,
{
    let v = dot3(e, e);
    assert(v >= 1) by (nonlinear_arith)
        requires v == e.0 * e.0 + e.1 * e.1 + e.2 * e.2, e.0 != 0 || e.1 != 0 || e.2 != 0;
    lemma_isqrt_spec(v);
    let r = isqrt_spec(v);
    assert(r >= 1) by (nonlinear_arith)
        requires v < (r + 1) * (r + 1), v >= 1, r >= 0;
    assert(-r <= e.0 <= r && -r <= e.1 <= r && -r <= e.2 <= r) by (nonlinear_arith)
        requires
            v == e.0 * e.0 + e.1 * e.1 + e.2 * e.2,
            v < (r + 1) * (r + 1),
            r >= 0;
    let (x, y, z) = (p.x as int, p.y as int, p.z as int);
    assert(-262144 * r <= x * e.0 <= 262144 * r) by (nonlinear_arith)
        requires -262144 <= x <= 262144, -r <= e.0 <= r;
    assert(-262144 * r <= y * e.1 <= 262144 * r) by (nonlinear_arith)
        requires -262144 <= y <= 262144, -r <= e.1 <= r;
    assert(-262144 * r <= z * e.2 <= 262144 * r) by (nonlinear_arith)
        requires -262144 <= z <= 262144, -r <= e.2 <= r;
    let d = dot3(triple(p), e);
    let a = if d >= 0 { d } else { -d };
    assert(0 <= a <= 786432 * r);
    assert(a / r <= 786432) by (nonlinear_arith)
        requires 0 <= a <= 786432 * r, r >= 1;
    assert(a / r >= 0) by (nonlinear_arith)
        requires 0 <= a, r >= 1;
}

/// `p · e / r` rounded toward zero.
fn plane_coord_exec(p: Vec3, e: (i128, i128, i128), r: u128) -> (q: i128)
    requires
        p.in_range(),
        -4398046511104 <= e.0 <= 4398046511104,
        -4398046511104 <= e.1 <= 4398046511104,
        -4398046511104 <= e.2 <= 4398046511104,
        r > 0,
    ensures
        q == div_toward_zero(dot3(triple(p), (e.0 as int, e.1 as int, e.2 as int)), r as int),
{
    let (x, y, z) = (p.x as i128, p.y as i128, p.z as i128);
    assert(-2305843009213693952 <= x * e.0 <= 2305843009213693952) by (nonlinear_arith)
        requires -524288 <= x <= 524288, -4398046511104 <= e.0 <= 4398046511104;
    assert(-2305843009213693952 <= y * e.1 <= 2305843009213693952) by (nonlinear_arith)
        requires -524288 <= y <= 524288, -4398046511104 <= e.1 <= 4398046511104;
    assert(-2305843009213693952 <= z * e.2 <= 2305843009213693952) by (nonlinear_arith)
        requires -524288 <= z <= 524288, -4398046511104 <= e.2 <= 4398046511104;
    let d: i128 = x * e.0 + y * e.1 + z * e.2;
    let m: u128 = if d >= 0 { d as u128 } else { (-d) as u128 };
    let q: u128 = m / r;
    assert(q <= m) by (nonlinear_arith)
        requires q == (m as int) / (r as int), r > 0, m >= 0;
    if d >= 0 {
        q as i128
    } else {
        -(q as i128)
    }
}

/// A symmetric 3 by 3 matrix.
#[derive(Clone, Copy, PartialEq, Eq, Debug, Structural)]
pub struct Sym3 {
    pub xx: i128,
    pub xy: i128,
    pub xz: i128,
    pub yy: i128,
    pub yz: i128,
    pub zz: i128,
}

impl Sym3 {
    /// The matrix holds `e(a, b)` for each entry.
    pub open spec fn holds(self, e: spec_fn(int, int) -> int) -> bool {
        &&& self.xx == e(0, 0)
        &&& self.xy == e(0, 1)
        &&& self.xz == e(0, 2)
        &&& self.yy == e(1, 1)
        &&& self.yz == e(1, 2)
        &&& self.zz == e(2, 2)
    }
}

proof fn lemma_product_bound(x: int, y: int)
    requires
        -524288 <= x <= 524288,
        -524288 <= y <= 524288,
    ensures
        -274877906944 <= x * y <= 274877906944,
{
    assert(-274877906944 <= x * y <= 274877906944) by (nonlinear_arith)
        requires -524288 <= x <= 524288, -524288 <= y <= 524288;
}

proof fn lemma_sums_bounded(s: Seq<Vec3>, k: int, a: int, b: int)
    requires
        0 <= k <= s.len(),
        forall|m: int| 0 <= m < s.len() ==> (#[trigger] s[m]).in_range(),
    ensures
        -524288 * k <= sum1(s, k, a) <= 524288 * k,
        -274877906944 * k <= sum2(s, k, a, b) <= 274877906944 * k,
    decreases k,
{
    if k > 0 {
        lemma_sums_bounded(s, k - 1, a, b);
        let p = s[k - 1];
        assert(p.in_range());
        lemma_product_bound(coord(p, a), coord(p, b));
    }
}

/// Entry of the scatter matrix from the sums.
fn scatter_from_sums(n: i128, s2: i128, sa: i128, sb: i128) -> (r: i128)
    requires
        0 <= n <= 65536,
        -274877906944 * n <= s2 <= 274877906944 * n,
        -524288 * n <= sa <= 524288 * n,
        -524288 * n <= sb <= 524288 * n,
    ensures
        r == n * s2 - sa * sb,
        -2361183241434822606848 <= r <= 2361183241434822606848,
{
    assert(-1180591620717411303424 <= n * s2 <= 1180591620717411303424) by (nonlinear_arith)
        requires
            0 <= n <= 65536,
            -274877906944 * n <= s2 <= 274877906944 * n;
    assert(-1180591620717411303424 <= sa * sb <= 1180591620717411303424) by (nonlinear_arith)
        requires
            0 <= n <= 65536,
            -524288 * n <= sa <= 524288 * n,
            -524288 * n <= sb <= 524288 * n;
    n * s2 - sa * sb
}

/// One component of `direction`: `c * UNIT / r` rounded toward zero, where
/// `|c| <= r`.
fn scale_component(c: i64, r: u128) -> (d: i64)
    requires
        0 < r <= 4294967296,
        -(r as int) <= c <= r,
    ensures
        d == div_toward_zero(c * UNIT, r as int),
        -4096 <= d <= 4096,
{
    let m: u128 = if c >= 0 { c as u128 } else { (-(c as i128)) as u128 };
    assert(m * 4096 <= 4294967296 * 4096) by (nonlinear_arith)
        requires m <= 4294967296;
    let q: u128 = (m * 4096) / r;
    assert(q <= 4096) by (nonlinear_arith)
        requires q == (m * 4096) / (r as int), m <= r, 0 < r;
    proof {
        if c < 0 {
            assert(-(c * UNIT) == m * 4096) by (nonlinear_arith)
                requires m == -c, UNIT == 4096;
        } else {
            assert(c * UNIT == m * 4096) by (nonlinear_arith)
                requires m == c, UNIT == 4096;
        }
    }
    if c >= 0 {
        q as i64
    } else {
        -(q as i64)
    }
}

/// The direction of `f`, as `direction` gives it.
fn direction_exec(f: Vec3) -> (d: Vec3)
    requires
        f.within(1073741824),
    ensures
        d.x == direction(f, 0),
        d.y == direction(f, 1),
        d.z == direction(f, 2),
        d.within(4096),
{
    let (x, y, z) = (f.x as i128, f.y as i128, f.z as i128);
    assert(0 <= x * x <= 1152921504606846976) by (nonlinear_arith)
        requires -1073741824 <= x <= 1073741824;
    assert(0 <= y * y <= 1152921504606846976) by (nonlinear_arith)
        requires -1073741824 <= y <= 1073741824;
    assert(0 <= z * z <= 1152921504606846976) by (nonlinear_arith)
        requires -1073741824 <= z <= 1073741824;
    let sq = x * x + y * y + z * z;
    let r = isqrt_wide(sq as u128);
    if r == 0 {
        return Vec3 { x: 0, y: 0, z: 0 };
    }
    proof {
        let ri = r as int;
        assert(ri <= 4294967296) by (nonlinear_arith)
            requires ri * ri <= sq, sq <= 3 * 1152921504606846976, 0 <= ri;
        assert(-ri <= x <= ri) by (nonlinear_arith)
            requires x * x <= sq, sq < (ri + 1) * (ri + 1), 0 <= ri;
        assert(-ri <= y <= ri) by (nonlinear_arith)
            requires y * y <= sq, sq < (ri + 1) * (ri + 1), 0 <= ri;
        assert(-ri <= z <= ri) by (nonlinear_arith)
            requires z * z <= sq, sq < (ri + 1) * (ri + 1), 0 <= ri;
    }
    Vec3 { x: scale_component(f.x, r), y: scale_component(f.y, r), z: scale_component(f.z, r) }
}

/// `48 f c + t (f [diagonal] - da db)`, one entry of the steadied matrix.
fn plane_from(c: i128, t: i128, f: i128, da: i64, db: i64, diagonal: bool) -> (r: i128)
    requires
        -2361183241434822606848 <= c <= 2361183241434822606848,
        -7083549724304467820544 <= t <= 7083549724304467820544,
        0 <= f <= 50331648,
        -4096 <= da <= 4096,
        -4096 <= db <= 4096,
    ensures
        r == 48 * f * c + t * ((if diagonal {
            f as int
        } else {
            0
        }) - da * db),
{
    assert(-10141204801825835211973625643008 <= 48 * f * c <= 10141204801825835211973625643008)
        by (nonlinear_arith)
        requires
            -2361183241434822606848 <= c <= 2361183241434822606848,
            0 <= f <= 50331648;
    let g: i128 = if diagonal { f } else { 0 };
    assert(-16777216 <= da * db <= 16777216) by (nonlinear_arith)
        requires -4096 <= da <= 4096, -4096 <= db <= 4096;
    let dd: i128 = (da as i128) * (db as i128);
    let w: i128 = g - dd;
    assert(-7083549724304467820544 * 70000000 <= t * w <= 7083549724304467820544 * 70000000)
        by (nonlinear_arith)
        requires
            -7083549724304467820544 <= t <= 7083549724304467820544,
            -67108864 <= w <= 67108864;
    48 * f * c + t * w
}

/// Accumulated 3D stroke and orientation hints.
pub struct StrokeProjector {
    stroke: Vec<Vec3>,
    up_sum: Vec3,
    front_sum: Vec3,
}

pub open spec fn add3(a: Vec3, b: Vec3) -> Vec3 {
    Vec3 { x: (a.x + b.x) as i64, y: (a.y + b.y) as i64, z: (a.z + b.z) as i64 }
}

impl StrokeProjector {
    /// The positions fed so far, in order.
    pub closed spec fn points(self) -> Seq<Vec3> {
        self.stroke@
    }

    /// The sum of the up hints fed so far.
    pub closed spec fn up(self) -> Vec3 {
        self.up_sum
    }

    /// The sum of the front hints fed so far.
    pub closed spec fn front(self) -> Vec3 {
        self.front_sum
    }

    pub closed spec fn wf(self) -> bool {
        &&& self.stroke@.len() <= MAX_FEED
        &&& forall|m: int| 0 <= m < self.stroke@.len() ==> (#[trigger] self.stroke@[m]).in_range()
        &&& self.up_sum.within(self.stroke@.len() * MAX_HINT)
        &&& self.front_sum.within(self.stroke@.len() * MAX_HINT)
    }

    /// An empty projector.
    pub fn new() -> (r: Self)
        ensures
            r.wf(),
            r.points() == Seq::<Vec3>::empty(),
            r.up() == (Vec3 { x: 0, y: 0, z: 0 }),
            r.front() == (Vec3 { x: 0, y: 0, z: 0 }),
    {
        StrokeProjector {
            stroke: Vec::new(),
            up_sum: Vec3 { x: 0, y: 0, z: 0 },
            front_sum: Vec3 { x: 0, y: 0, z: 0 },
        }
    }

    /// The number of positions fed so far.
    pub fn len(&self) -> (r: usize)
        ensures
            r == self.points().len(),
    {
        self.stroke.len()
    }

    /// Forgets every position and hint.
    pub fn clear(&mut self)
        ensures
            final(self).wf(),
            final(self).points() == Seq::<Vec3>::empty(),
            final(self).up() == (Vec3 { x: 0, y: 0, z: 0 }),
            final(self).front() == (Vec3 { x: 0, y: 0, z: 0 }),
    {
        self.stroke.clear();
        self.up_sum = Vec3 { x: 0, y: 0, z: 0 };
        self.front_sum = Vec3 { x: 0, y: 0, z: 0 };
    }

    /// The scatter matrix of the positions about their mean, times their
    /// number.
    pub fn scatter(&self) -> (r: Sym3)
        requires
            self.wf(),
        ensures
            r.holds(|a: int, b: int| scatter_entry(self.points(), a, b)),
            -2361183241434822606848 <= r.xx <= 2361183241434822606848,
            -2361183241434822606848 <= r.xy <= 2361183241434822606848,
            -2361183241434822606848 <= r.xz <= 2361183241434822606848,
            -2361183241434822606848 <= r.yy <= 2361183241434822606848,
            -2361183241434822606848 <= r.yz <= 2361183241434822606848,
            -2361183241434822606848 <= r.zz <= 2361183241434822606848,
    {
        let ghost s = self.stroke@;
        let (mut sx, mut sy, mut sz): (i128, i128, i128) = (0, 0, 0);
        let (mut sxx, mut sxy, mut sxz, mut syy, mut syz, mut szz): (
            i128,
            i128,
            i128,
            i128,
            i128,
            i128,
        ) = (0, 0, 0, 0, 0, 0);
        let mut k: usize = 0;
        while k < self.stroke.len()
            invariant
                self.wf(),
                s == self.stroke@,
                k <= s.len(),
                sx == sum1(s, k as int, 0),
                sy == sum1(s, k as int, 1),
                sz == sum1(s, k as int, 2),
                sxx == sum2(s, k as int, 0, 0),
                sxy == sum2(s, k as int, 0, 1),
                sxz == sum2(s, k as int, 0, 2),
                syy == sum2(s, k as int, 1, 1),
                syz == sum2(s, k as int, 1, 2),
                szz == sum2(s, k as int, 2, 2),
            decreases s.len() - k,
        {
            let p = self.stroke[k];
            proof {
                lemma_sums_bounded(s, k + 1, 0, 0);
                lemma_sums_bounded(s, k + 1, 0, 1);
                lemma_sums_bounded(s, k + 1, 0, 2);
                lemma_sums_bounded(s, k + 1, 1, 1);
                lemma_sums_bounded(s, k + 1, 1, 2);
                lemma_sums_bounded(s, k + 1, 2, 2);
                lemma_sums_bounded(s, k + 1, 1, 0);
                lemma_sums_bounded(s, k + 1, 2, 0);
                assert(p.in_range());
                lemma_product_bound(p.x as int, p.x as int);
                lemma_product_bound(p.x as int, p.y as int);
                lemma_product_bound(p.x as int, p.z as int);
                lemma_product_bound(p.y as int, p.y as int);
                lemma_product_bound(p.y as int, p.z as int);
                lemma_product_bound(p.z as int, p.z as int);
            }
            let (x, y, z) = (p.x as i128, p.y as i128, p.z as i128);
            sx = sx + x;
            sy = sy + y;
            sz = sz + z;
            sxx = sxx + x * x;
            sxy = sxy + x * y;
            sxz = sxz + x * z;
            syy = syy + y * y;
            syz = syz + y * z;
            szz = szz + z * z;
            k = k + 1;
        }
        let n = k as i128;
        proof {
            lemma_sums_bounded(s, n as int, 0, 0);
            lemma_sums_bounded(s, n as int, 0, 1);
            lemma_sums_bounded(s, n as int, 0, 2);
            lemma_sums_bounded(s, n as int, 1, 1);
            lemma_sums_bounded(s, n as int, 1, 2);
            lemma_sums_bounded(s, n as int, 2, 2);
            lemma_sums_bounded(s, n as int, 1, 0);
            lemma_sums_bounded(s, n as int, 2, 0);
        }
        Sym3 {
            xx: scatter_from_sums(n, sxx, sx, sx),
            xy: scatter_from_sums(n, sxy, sx, sy),
            xz: scatter_from_sums(n, sxz, sx, sz),
            yy: scatter_from_sums(n, syy, sy, sy),
            yz: scatter_from_sums(n, syz, sy, sz),
            zz: scatter_from_sums(n, szz, sz, sz),
        }
    }

    /// The scatter matrix steadied toward the plane across the front hint,
    /// scaled by `48` times the squared length of the front direction. Its
    /// eigenvector of smallest eigenvalue is the normal of the drawing plane.
    pub fn plane_matrix(&self) -> (r: Sym3)
        requires
            self.wf(),
        ensures
            r.holds(|a: int, b: int| plane_entry(self.points(), self.front(), a, b)),
    {
        let c = self.scatter();
        let t: i128 = c.xx + c.yy + c.zz;
        assert(self.front_sum.within(1073741824)) by {
            assert(self.stroke@.len() * MAX_HINT <= 1073741824) by (nonlinear_arith)
                requires self.stroke@.len() <= 65536, MAX_HINT == 16384;
        }
        let d = direction_exec(self.front_sum);
        let (dx, dy, dz) = (d.x as i128, d.y as i128, d.z as i128);
        assert(0 <= dx * dx <= 16777216 && 0 <= dy * dy <= 16777216 && 0 <= dz * dz <= 16777216)
            by (nonlinear_arith)
            requires -4096 <= dx <= 4096, -4096 <= dy <= 4096, -4096 <= dz <= 4096;
        let f: i128 = dx * dx + dy * dy + dz * dz;
        Sym3 {
            xx: plane_from(c.xx, t, f, d.x, d.x, true),
            xy: plane_from(c.xy, t, f, d.x, d.y, false),
            xz: plane_from(c.xz, t, f, d.x, d.z, false),
            yy: plane_from(c.yy, t, f, d.y, d.y, true),
            yz: plane_from(c.yz, t, f, d.y, d.z, false),
            zz: plane_from(c.zz, t, f, d.z, d.z, true),
        }
    }

    /// The positions in the coordinates of the plane with the given normal,
    /// an eigenvector of smallest eigenvalue of `plane_matrix`, nonzero and
    /// with components within `UNIT`: one point per position fed.
    ///
    /// The normal is turned away from the front hint; the first axis is the
    /// up direction crossed with it and the second the normal crossed with
    /// the first, each replaced by `fallback_axis` where it vanishes.
    pub fn stroke(&self, normal: Vec3) -> (r: Vec<Vec2>)
        requires
            self.wf(),
            normal.within(UNIT as int),
            nonzero3(triple(normal)),
        ensures
            r@.len() == self.points().len(),
            forall|k: int| 0 <= k < r@.len() ==> (#[trigger] r@[k]).in_range(),
            forall|k: int|
                0 <= k < r@.len() ==> (#[trigger] r@[k]).x == plane_coord(
                    self.points()[k],
                    axis_x(self.up(), self.front(), normal),
                ) && r@[k].y == plane_coord(
                    self.points()[k],
                    axis_y(self.up(), self.front(), normal),
                ),
    {
        let ghost s = self.stroke@;
        assert(self.stroke@.len() * MAX_HINT <= 1073741824) by (nonlinear_arith)
            requires self.stroke@.len() <= 65536, MAX_HINT == 16384;
        let u = direction_exec(self.up_sum);
        let f = self.front_sum;
        let (nx, ny, nz) = (normal.x as i128, normal.y as i128, normal.z as i128);
        assert(-4398046511104 <= nx * (f.x as int) <= 4398046511104 && -4398046511104 <= ny * (
        f.y as int) <= 4398046511104 && -4398046511104 <= nz * (f.z as int) <= 4398046511104)
            by (nonlinear_arith)
            requires
                -4096 <= nx <= 4096,
                -4096 <= ny <= 4096,
                -4096 <= nz <= 4096,
                -1073741824 <= f.x <= 1073741824,
                -1073741824 <= f.y <= 1073741824,
                -1073741824 <= f.z <= 1073741824;
        let nf: i128 = nx * (f.x as i128) + ny * (f.y as i128) + nz * (f.z as i128);
        let (nx, ny, nz) = if nf < 0 { (-nx, -ny, -nz) } else { (nx, ny, nz) };
        let ghost n = oriented(normal, self.front_sum);
        assert(n == (nx as int, ny as int, nz as int));
        let (ux, uy, uz) = (u.x as i128, u.y as i128, u.z as i128);
        assert(-16777216 <= uy * nz <= 16777216 && -16777216 <= uz * ny <= 16777216 && -16777216
            <= uz * nx <= 16777216 && -16777216 <= ux * nz <= 16777216 && -16777216 <= ux * ny
            <= 16777216 && -16777216 <= uy * nx <= 16777216) by (nonlinear_arith)
            requires
                -4096 <= nx <= 4096,
                -4096 <= ny <= 4096,
                -4096 <= nz <= 4096,
                -4096 <= ux <= 4096,
                -4096 <= uy <= 4096,
                -4096 <= uz <= 4096;
        let fb: (i128, i128, i128) = if nz != 0 || ny != 0 {
            (0, -nz, ny)
        } else {
            (nz, 0, -nx)
        };
        proof {
            lemma_fallback_nonzero(n);
        }
        assert(fallback_axis(n) == (fb.0 as int, fb.1 as int, fb.2 as int));
        let a: (i128, i128, i128) = (uy * nz - uz * ny, uz * nx - ux * nz, ux * ny - uy * nx);
        let ex = if a.0 != 0 || a.1 != 0 || a.2 != 0 { a } else { fb };
        assert(axis_x(self.up_sum, self.front_sum, normal) == (
            ex.0 as int,
            ex.1 as int,
            ex.2 as int,
        ));
        assert(-137438953472 <= ny * ex.2 <= 137438953472 && -137438953472 <= nz * ex.1
            <= 137438953472 && -137438953472 <= nz * ex.0 <= 137438953472 && -137438953472 <= nx
            * ex.2 <= 137438953472 && -137438953472 <= nx * ex.1 <= 137438953472 && -137438953472
            <= ny * ex.0 <= 137438953472) by (nonlinear_arith)
            requires
                -4096 <= nx <= 4096,
                -4096 <= ny <= 4096,
                -4096 <= nz <= 4096,
                -33554432 <= ex.0 <= 33554432,
                -33554432 <= ex.1 <= 33554432,
                -33554432 <= ex.2 <= 33554432;
        let b: (i128, i128, i128) = (
            ny * ex.2 - nz * ex.1,
            nz * ex.0 - nx * ex.2,
            nx * ex.1 - ny * ex.0,
        );
        let ey = if b.0 != 0 || b.1 != 0 || b.2 != 0 { b } else { fb };
        assert(axis_y(self.up_sum, self.front_sum, normal) == (
            ey.0 as int,
            ey.1 as int,
            ey.2 as int,
        ));
        assert(0 <= ex.0 * ex.0 <= 1125899906842624 && 0 <= ex.1 * ex.1 <= 1125899906842624 && 0
            <= ex.2 * ex.2 <= 1125899906842624) by (nonlinear_arith)
            requires
                -33554432 <= ex.0 <= 33554432,
                -33554432 <= ex.1 <= 33554432,
                -33554432 <= ex.2 <= 33554432;
        assert(0 <= ey.0 * ey.0 <= 75557863725914323419136 && 0 <= ey.1 * ey.1
            <= 75557863725914323419136 && 0 <= ey.2 * ey.2 <= 75557863725914323419136)
            by (nonlinear_arith)
            requires
                -274877906944 <= ey.0 <= 274877906944,
                -274877906944 <= ey.1 <= 274877906944,
                -274877906944 <= ey.2 <= 274877906944;
        let rx = isqrt_wide((ex.0 * ex.0 + ex.1 * ex.1 + ex.2 * ex.2) as u128);
        let ry = isqrt_wide((ey.0 * ey.0 + ey.1 * ey.1 + ey.2 * ey.2) as u128);
        let ghost gx = axis_x(self.up_sum, self.front_sum, normal);
        let ghost gy = axis_y(self.up_sum, self.front_sum, normal);
        proof {
            assert(nonzero3(gx));
            assert(nonzero3(gy));
            lemma_plane_coord_fits(Vec3 { x: 0, y: 0, z: 0 }, gx);
            lemma_plane_coord_fits(Vec3 { x: 0, y: 0, z: 0 }, gy);
        }
        let mut out: Vec<Vec2> = Vec::new();
        let mut k: usize = 0;
        while k < self.stroke.len()
            invariant
                self.wf(),
                s == self.stroke@,
                k <= s.len(),
                nonzero3(gx),
                nonzero3(gy),
                gx == axis_x(self.up_sum, self.front_sum, normal),
                gy == axis_y(self.up_sum, self.front_sum, normal),
                rx == isqrt_spec(dot3(gx, gx)),
                ry == isqrt_spec(dot3(gy, gy)),
                rx > 0,
                ry > 0,
                gx == (ex.0 as int, ex.1 as int, ex.2 as int),
                gy == (ey.0 as int, ey.1 as int, ey.2 as int),
                -33554432 <= ex.0 <= 33554432,
                -33554432 <= ex.1 <= 33554432,
                -33554432 <= ex.2 <= 33554432,
                -274877906944 <= ey.0 <= 274877906944,
                -274877906944 <= ey.1 <= 274877906944,
                -274877906944 <= ey.2 <= 274877906944,
                out@.len() == k,
                forall|m: int| 0 <= m < k ==> (#[trigger] out@[m]).in_range(),
                forall|m: int|
                    0 <= m < k ==> (#[trigger] out@[m]).x == plane_coord(s[m], gx) && out@[m].y
                        == plane_coord(s[m], gy),
            decreases s.len() - k,
        {
            let p = self.stroke[k];
            proof {
                lemma_plane_coord_fits(p, gx);
                lemma_plane_coord_fits(p, gy);
            }
            let qx = plane_coord_exec(p, ex, rx);
            let qy = plane_coord_exec(p, ey, ry);
            out.push(Vec2 { x: qx as i64, y: qy as i64 });
            k = k + 1;
        }
        out
    }

    /// Appends a hand position and adds its up and front hints.
    pub fn feed(&mut self, position: Vec3, up: Vec3, front: Vec3)
        requires
            old(self).wf(),
            old(self).points().len() < MAX_FEED,
            position.in_range(),
            up.within(MAX_HINT as int),
            front.within(MAX_HINT as int),
        ensures
            final(self).wf(),
            final(self).points() == old(self).points().push(position),
            final(self).up() == add3(old(self).up(), up),
            final(self).front() == add3(old(self).front(), front),
    {
        let ghost n = self.stroke@.len();
        assert(n * MAX_HINT + MAX_HINT == (n + 1) * MAX_HINT) by (nonlinear_arith);
        assert((n + 1) * MAX_HINT <= 65536 * 16384) by (nonlinear_arith)
            requires n + 1 <= 65536;
        self.stroke.push(position);
        self.up_sum = Vec3 {
            x: self.up_sum.x + up.x,
            y: self.up_sum.y + up.y,
            z: self.up_sum.z + up.z,
        };
        self.front_sum = Vec3 {
            x: self.front_sum.x + front.x,
            y: self.front_sum.y + front.y,
            z: self.front_sum.z + front.z,
        };
    }
}

} // verus!
