//! Elastic alignment score between two tangent profiles.
use vstd::prelude::*;
use crate::geometry::{Vec2, dot, dot_exec, UNIT, MAX_DOT};
use crate::profile::near_unit;

verus! {

/// Largest number of tangents in a profile.
pub const MAX_SAMPLES: usize = 65536;

/// Largest absolute penalty for a skip move, in units squared.
pub const MAX_PENALTY: i64 = 268435456;

/// An exact score `num / den`, with `den > 0`.
#[derive(Clone, Copy, Debug, PartialEq, Eq, Structural)]
pub struct Ratio {
    pub num: i64,
    pub den: i64,
}

/// Every tangent of the profile is bounded.
pub open spec fn bounded_profile(t: Seq<Vec2>) -> bool {
    forall|k: int| 0 <= k < t.len() ==> (#[trigger] t[k]).is_bounded()
}

/// Every tangent of the profile has at most unit length.
pub open spec fn short_profile(t: Seq<Vec2>) -> bool {
    forall|k: int| 0 <= k < t.len() ==> (#[trigger] t[k]).is_short()
}

/// Every tangent of the profile has unit length.
pub open spec fn unit_profile(t: Seq<Vec2>) -> bool {
    forall|k: int| 0 <= k < t.len() ==> (#[trigger] t[k]).is_unit()
}

/// Profiles that the scorer accepts.
pub open spec fn scorable(ta: Seq<Vec2>, tb: Seq<Vec2>, penalty: int) -> bool {
    &&& 1 <= ta.len() <= MAX_SAMPLES
    &&& 1 <= tb.len() <= MAX_SAMPLES
    &&& bounded_profile(ta)
    &&& bounded_profile(tb)
    &&& -MAX_PENALTY <= penalty <= MAX_PENALTY
}

pub open spec fn max2(a: int, b: int) -> int {
    if a >= b { a } else { b }
}

/// Agreement of tangent `i` of `ta` with tangent `j` of `tb`.
pub open spec fn cell(ta: Seq<Vec2>, tb: Seq<Vec2>, i: int, j: int) -> int {
    dot(ta[i], tb[j])
}

/// Four times the best score of a path from cell `(0, 0)` to cell `(i, j)`.
///
/// A path moves diagonally, weighing the agreement at both of its ends by
/// one half each, or advances one profile alone, weighing both ends by a
/// quarter and paying `penalty`. The first cell is weighed by one half; the
/// last cell's closing half is added by `similarity_num`.
pub open spec fn align(ta: Seq<Vec2>, tb: Seq<Vec2>, penalty: int, i: nat, j: nat) -> int
    decreases i + j,
{
    let s = cell(ta, tb, i as int, j as int);
    if i == 0 && j == 0 {
        2 * s
    } else if i == 0 {
        align(ta, tb, penalty, i, (j - 1) as nat) + cell(ta, tb, i as int, j - 1) + s - 4 * penalty
    } else if j == 0 {
        align(ta, tb, penalty, (i - 1) as nat, j) + cell(ta, tb, i - 1, j as int) + s - 4 * penalty
    } else {
        let diag = align(ta, tb, penalty, (i - 1) as nat, (j - 1) as nat) + 2 * (cell(
            ta,
            tb,
            i - 1,
            j - 1,
        ) + s);
        let down = align(ta, tb, penalty, (i - 1) as nat, j) + cell(ta, tb, i - 1, j as int) + s - 4
            * penalty;
        let right = align(ta, tb, penalty, i, (j - 1) as nat) + cell(ta, tb, i as int, j - 1) + s - 4
            * penalty;
        max2(max2(diag, down), right)
    }
}

/// Numerator of the similarity: four times the best path score over both
/// whole profiles, in units squared.
pub open spec fn similarity_num(ta: Seq<Vec2>, tb: Seq<Vec2>, penalty: int) -> int {
    let (la, lb) = ((ta.len() - 1) as nat, (tb.len() - 1) as nat);
    align(ta, tb, penalty, la, lb) + 2 * cell(ta, tb, la as int, lb as int)
}

/// Denominator of the similarity: four units squared per tangent of the
/// longer profile.
pub open spec fn similarity_den(ta: Seq<Vec2>, tb: Seq<Vec2>) -> int {
    67108864 * max2(ta.len() as int, tb.len() as int)
}

/// A buffer entry holds the agreement and the best path score of cell `(i, j)`.
pub open spec fn entry_is(e: (i64, i64), ta: Seq<Vec2>, tb: Seq<Vec2>, penalty: int, i: int, j: int) -> bool {
    e.0 == cell(ta, tb, i, j) && e.1 == align(ta, tb, penalty, i as nat, j as nat)
}

/// Bound on how much one step of a path changes its score.
pub open spec fn step_bound(penalty: int) -> int {
    2 * MAX_DOT + 4 * (if penalty >= 0 { penalty } else { -penalty })
}

pub proof fn lemma_align_bound(ta: Seq<Vec2>, tb: Seq<Vec2>, penalty: int, i: nat, j: nat)
    requires
        scorable(ta, tb, penalty),
        i < ta.len(),
        j < tb.len(),
    ensures
        -((i + j + 1) * step_bound(penalty)) <= align(ta, tb, penalty, i, j) <= (i + j + 1)
            * step_bound(penalty),
    decreases i + j,
{
    let b = step_bound(penalty);
    crate::geometry::lemma_dot_bounded(ta[i as int], tb[j as int]);
    if i > 0 {
        lemma_align_bound(ta, tb, penalty, (i - 1) as nat, j);
        crate::geometry::lemma_dot_bounded(ta[i - 1], tb[j as int]);
    }
    if j > 0 {
        lemma_align_bound(ta, tb, penalty, i, (j - 1) as nat);
        crate::geometry::lemma_dot_bounded(ta[i as int], tb[j - 1]);
    }
    if i > 0 && j > 0 {
        lemma_align_bound(ta, tb, penalty, (i - 1) as nat, (j - 1) as nat);
        crate::geometry::lemma_dot_bounded(ta[i - 1], tb[j - 1]);
    }
    let n = (i + j) as int;
    assert((n + 1) * b == n * b + b) by (nonlinear_arith);
    assert(n * b == (n - 1) * b + b) by (nonlinear_arith);
    assert((n - 1) * b == (n - 2) * b + b) by (nonlinear_arith);
}

/// Every path score fits comfortably in an `i64`.
pub proof fn lemma_align_small(ta: Seq<Vec2>, tb: Seq<Vec2>, penalty: int, i: nat, j: nat)
    requires
        scorable(ta, tb, penalty),
        i < ta.len(),
        j < tb.len(),
    ensures
        -281474976710656 <= align(ta, tb, penalty, i, j) <= 281474976710656,
{
    lemma_align_bound(ta, tb, penalty, i, j);
    let b = step_bound(penalty);
    assert((i + j + 1) * b <= 131072 * 2147483648) by (nonlinear_arith)
        requires i < 65536, j < 65536, 0 <= b <= 2147483648;
    assert((i + j + 1) * b >= 0) by (nonlinear_arith)
        requires 0 <= b;
}

/// Similarity of two tangent profiles, in `[-1, 1]` for profiles of at most
/// unit-length tangents and a small enough penalty.
///
/// `penalty` is charged, in units squared, for each move that advances one
/// profile alone. The result is `similarity_num / similarity_den`.
pub fn tangents_similarity(ta: &[Vec2], tb: &[Vec2], penalty: i64) -> (r: Ratio)
    requires
        scorable(ta@, tb@, penalty as int),
    ensures
        r.num == similarity_num(ta@, tb@, penalty as int),
        r.den == similarity_den(ta@, tb@),
{
    let la = ta.len();
    let lb = tb.len();
    let ghost b = step_bound(penalty as int);
    // dps[j + 1] holds (cell, align) of column j in the last finished row,
    // or in the current row once column j of it is done.
    let mut dps: Vec<(i64, i64)> = Vec::new();
    let mut k: usize = 0;
    while k <= lb
        invariant
            k <= lb + 1,
            lb <= MAX_SAMPLES,
            dps@.len() == k,
        decreases lb + 1 - k,
    {
        dps.push((0, 0));
        k = k + 1;
    }
    let mut i: usize = 0;
    while i < la
        invariant
            la == ta@.len(),
            lb == tb@.len(),
            scorable(ta@, tb@, penalty as int),
            b == step_bound(penalty as int),
            i <= la,
            dps@.len() == lb + 1,
            i > 0 ==> forall|c: int|
                0 <= c < lb ==> entry_is(#[trigger] dps@[c + 1], ta@, tb@, penalty as int, i - 1, c),
        decreases la - i,
    {
        let mut dp0: (i64, i64) = (0, 0);
        let mut j: usize = 0;
        while j < lb
            invariant
                la == ta@.len(),
                lb == tb@.len(),
                scorable(ta@, tb@, penalty as int),
                b == step_bound(penalty as int),
                i < la,
                j <= lb,
                dps@.len() == lb + 1,
                forall|c: int|
                    0 <= c < j ==> entry_is(#[trigger] dps@[c + 1], ta@, tb@, penalty as int, i as int, c),
                i > 0 ==> forall|c: int|
                    j <= c < lb ==> entry_is(#[trigger] dps@[c + 1], ta@, tb@, penalty as int, i - 1, c),
                i > 0 && j > 0 ==> entry_is(dp0, ta@, tb@, penalty as int, i - 1, j - 1),
            decreases lb - j,
        {
            let s = dot_exec(ta[i], tb[j]);
            proof {
                if i > 0 {
                    lemma_align_small(ta@, tb@, penalty as int, (i - 1) as nat, j as nat);
                    crate::geometry::lemma_dot_bounded(ta@[i - 1], tb@[j as int]);
                }
                if j > 0 {
                    lemma_align_small(ta@, tb@, penalty as int, i as nat, (j - 1) as nat);
                    crate::geometry::lemma_dot_bounded(ta@[i as int], tb@[j - 1]);
                }
                if i > 0 && j > 0 {
                    lemma_align_small(ta@, tb@, penalty as int, (i - 1) as nat, (j - 1) as nat);
                    crate::geometry::lemma_dot_bounded(ta@[i - 1], tb@[j - 1]);
                }
                if i > 0 {
                    assert(entry_is(dps@[j as int + 1], ta@, tb@, penalty as int, i - 1, j as int));
                }
                if j > 0 {
                    assert(entry_is(dps@[(j - 1) as int + 1], ta@, tb@, penalty as int, i as int, j - 1));
                }
            }
            let best: i64;
            if i == 0 && j == 0 {
                best = 2 * s;
            } else if i == 0 {
                let left = dps[j];
                best = left.1 + left.0 + s - 4 * penalty;
            } else if j == 0 {
                let up = dps[j + 1];
                best = up.1 + up.0 + s - 4 * penalty;
            } else {
                let up = dps[j + 1];
                let left = dps[j];
                let v0 = dp0.1 + 2 * (dp0.0 + s);
                let v1 = up.1 + up.0 + s - 4 * penalty;
                let v2 = left.1 + left.0 + s - 4 * penalty;
                let m01 = if v0 >= v1 { v0 } else { v1 };
                best = if m01 >= v2 { m01 } else { v2 };
            }
            dp0 = dps[j + 1];
            dps.set(j + 1, (s, best));
            j = j + 1;
        }
        i = i + 1;
    }
    assert(entry_is(dps@[(lb - 1) as int + 1], ta@, tb@, penalty as int, la - 1, lb - 1));
    let last = dot_exec(ta[la - 1], tb[lb - 1]);
    proof {
        lemma_align_small(ta@, tb@, penalty as int, (la - 1) as nat, (lb - 1) as nat);
    }
    let v = dps[lb].1 + 2 * last;
    let m: i64 = if la >= lb { la as i64 } else { lb as i64 };
    assert(1 <= m <= 65536);
    assert(4 * UNIT * UNIT == 67108864);
    Ratio { num: v, den: 67108864 * m }
}

proof fn lemma_cell_short(ta: Seq<Vec2>, tb: Seq<Vec2>, i: int, j: int)
    requires
        short_profile(ta),
        short_profile(tb),
        0 <= i < ta.len(),
        0 <= j < tb.len(),
    ensures
        -(UNIT * UNIT) <= cell(ta, tb, i, j) <= UNIT * UNIT,
{
    crate::geometry::lemma_dot_short(ta[i], tb[j]);
}

/// With short tangents and no reward for skipping, a path to `(i, j)` scores
/// at most its weight `(i + j + 1) / 2` units squared (times four).
proof fn lemma_align_upper(ta: Seq<Vec2>, tb: Seq<Vec2>, penalty: int, i: nat, j: nat)
    requires
        short_profile(ta),
        short_profile(tb),
        penalty >= 0,
        i < ta.len(),
        j < tb.len(),
    ensures
        align(ta, tb, penalty, i, j) <= 33554432 * (i + j + 1),
    decreases i + j,
{
    assert(UNIT * UNIT == 16777216);
    lemma_cell_short(ta, tb, i as int, j as int);
    if i > 0 {
        lemma_align_upper(ta, tb, penalty, (i - 1) as nat, j);
        lemma_cell_short(ta, tb, i - 1, j as int);
    }
    if j > 0 {
        lemma_align_upper(ta, tb, penalty, i, (j - 1) as nat);
        lemma_cell_short(ta, tb, i as int, j - 1);
    }
    if i > 0 && j > 0 {
        lemma_align_upper(ta, tb, penalty, (i - 1) as nat, (j - 1) as nat);
        lemma_cell_short(ta, tb, i - 1, j - 1);
    }
}

pub open spec fn abs_diff(a: int, b: int) -> int {
    if a >= b { a - b } else { b - a }
}

/// The path that stays closest to the diagonal scores at least minus its
/// weight, less one penalty for each skip it needs.
proof fn lemma_align_lower(ta: Seq<Vec2>, tb: Seq<Vec2>, penalty: int, i: nat, j: nat)
    requires
        short_profile(ta),
        short_profile(tb),
        penalty >= 0,
        i < ta.len(),
        j < tb.len(),
    ensures
        align(ta, tb, penalty, i, j) >= -33554432 * (i + j + 1) - 4 * penalty * abs_diff(
            i as int,
            j as int,
        ),
    decreases i + j,
{
    assert(UNIT * UNIT == 16777216);
    lemma_cell_short(ta, tb, i as int, j as int);
    if i > 0 && j > 0 {
        lemma_align_lower(ta, tb, penalty, (i - 1) as nat, (j - 1) as nat);
        lemma_cell_short(ta, tb, i - 1, j - 1);
    } else if i > 0 {
        lemma_align_lower(ta, tb, penalty, (i - 1) as nat, j);
        lemma_cell_short(ta, tb, i - 1, j as int);
        assert(4 * penalty * abs_diff(i as int, j as int) == 4 * penalty * abs_diff(i - 1, j as int)
            + 4 * penalty) by (nonlinear_arith)
            requires j == 0, i > 0;
    } else if j > 0 {
        lemma_align_lower(ta, tb, penalty, i, (j - 1) as nat);
        lemma_cell_short(ta, tb, i as int, j - 1);
        assert(4 * penalty * abs_diff(i as int, j as int) == 4 * penalty * abs_diff(i as int, j - 1)
            + 4 * penalty) by (nonlinear_arith)
            requires i == 0, j > 0;
    }
}

/// A profile of unit tangents scores along the diagonal exactly its weight.
proof fn lemma_align_diagonal(t: Seq<Vec2>, penalty: int, i: nat)
    requires
        unit_profile(t),
        penalty >= 0,
        i < t.len(),
    ensures
        align(t, t, penalty, i, i) == 33554432 * (2 * i + 1),
    decreases i,
{
    assert(UNIT * UNIT == 16777216);
    assert(short_profile(t));
    assert(t[i as int].is_unit());
    lemma_align_upper(t, t, penalty, i, i);
    if i > 0 {
        lemma_align_diagonal(t, penalty, (i - 1) as nat);
        assert(t[i - 1].is_unit());
    }
}

/// A profile of unit tangents is exactly as similar to itself as possible:
/// its similarity is one.
pub proof fn lemma_self_similarity(t: Seq<Vec2>, penalty: int)
    requires
        1 <= t.len(),
        unit_profile(t),
        penalty >= 0,
    ensures
        similarity_num(t, t, penalty) == similarity_den(t, t),
{
    assert(UNIT * UNIT == 16777216);
    let n = (t.len() - 1) as nat;
    lemma_align_diagonal(t, penalty, n);
    assert(t[n as int].is_unit());
}

proof fn lemma_cell_swap(ta: Seq<Vec2>, tb: Seq<Vec2>, i: int, j: int)
    ensures
        cell(ta, tb, i, j) == cell(tb, ta, j, i),
{
    let (a, b) = (ta[i], tb[j]);
    assert(a.x * b.x == b.x * a.x && a.y * b.y == b.y * a.y) by (nonlinear_arith);
}

/// A path through the table of `ta` against `tb` scores as the mirrored
/// path through the table of `tb` against `ta`.
proof fn lemma_align_symmetric(ta: Seq<Vec2>, tb: Seq<Vec2>, penalty: int, i: nat, j: nat)
    ensures
        align(ta, tb, penalty, i, j) == align(tb, ta, penalty, j, i),
    decreases i + j,
{
    lemma_cell_swap(ta, tb, i as int, j as int);
    if i > 0 {
        lemma_align_symmetric(ta, tb, penalty, (i - 1) as nat, j);
        lemma_cell_swap(ta, tb, i - 1, j as int);
    }
    if j > 0 {
        lemma_align_symmetric(ta, tb, penalty, i, (j - 1) as nat);
        lemma_cell_swap(ta, tb, i as int, j - 1);
    }
    if i > 0 && j > 0 {
        lemma_align_symmetric(ta, tb, penalty, (i - 1) as nat, (j - 1) as nat);
        lemma_cell_swap(ta, tb, i - 1, j - 1);
    }
}

/// Similarity is symmetric: swapping the profiles changes neither the
/// numerator nor the denominator.
pub proof fn lemma_similarity_symmetric(ta: Seq<Vec2>, tb: Seq<Vec2>, penalty: int)
    ensures
        similarity_num(ta, tb, penalty) == similarity_num(tb, ta, penalty),
        similarity_den(ta, tb) == similarity_den(tb, ta),
{
    lemma_align_symmetric(ta, tb, penalty, (ta.len() - 1) as nat, (tb.len() - 1) as nat);
    lemma_cell_swap(ta, tb, ta.len() - 1, tb.len() - 1);
}

/// Similarity lies in `[-1, 1]` for profiles of at most unit-length tangents
/// and a penalty that is not negative, where the profiles have equal length
/// or the penalty is at most half a unit squared.
pub proof fn lemma_similarity_bounded(ta: Seq<Vec2>, tb: Seq<Vec2>, penalty: int)
    requires
        1 <= ta.len(),
        1 <= tb.len(),
        short_profile(ta),
        short_profile(tb),
        penalty >= 0,
        ta.len() == tb.len() || 2 * penalty <= UNIT * UNIT,
    ensures
        -similarity_den(ta, tb) <= similarity_num(ta, tb, penalty) <= similarity_den(ta, tb),
{
    assert(UNIT * UNIT == 16777216);
    let (i, j) = ((ta.len() - 1) as nat, (tb.len() - 1) as nat);
    lemma_align_upper(ta, tb, penalty, i, j);
    lemma_align_lower(ta, tb, penalty, i, j);
    lemma_cell_short(ta, tb, i as int, j as int);
    let (la, lb) = (ta.len() as int, tb.len() as int);
    let m = max2(la, lb);
    let e = abs_diff(la, lb);
    assert(abs_diff(i as int, j as int) == e);
    assert(4 * penalty * e <= 33554432 * e) by (nonlinear_arith)
        requires penalty >= 0, e >= 0, e == 0 || 2 * penalty <= 16777216;
    assert(33554432 * (la + lb) + 33554432 * e == 67108864 * m);
}

/// Raising the penalty never raises a path score.
proof fn lemma_align_penalty_monotone(
    ta: Seq<Vec2>,
    tb: Seq<Vec2>,
    low: int,
    high: int,
    i: nat,
    j: nat,
)
    requires
        low <= high,
    ensures
        align(ta, tb, high, i, j) <= align(ta, tb, low, i, j),
    decreases i + j,
{
    if i > 0 {
        lemma_align_penalty_monotone(ta, tb, low, high, (i - 1) as nat, j);
    }
    if j > 0 {
        lemma_align_penalty_monotone(ta, tb, low, high, i, (j - 1) as nat);
    }
    if i > 0 && j > 0 {
        lemma_align_penalty_monotone(ta, tb, low, high, (i - 1) as nat, (j - 1) as nat);
    }
}

/// Raising the penalty never raises the similarity of two profiles.
pub proof fn lemma_similarity_penalty_monotone(
    ta: Seq<Vec2>,
    tb: Seq<Vec2>,
    penalty1: int,
    penalty2: int,
)
    requires
        penalty1 <= penalty2,
    ensures
        similarity_num(ta, tb, penalty2) <= similarity_num(ta, tb, penalty1),
{
    lemma_align_penalty_monotone(
        ta,
        tb,
        penalty1,
        penalty2,
        (ta.len() - 1) as nat,
        (tb.len() - 1) as nat,
    );
}

/// Every tangent of the profile has unit length up to rounding.
pub open spec fn near_unit_profile(t: Seq<Vec2>) -> bool {
    forall|k: int| 0 <= k < t.len() ==> near_unit(#[trigger] t[k])
}

/// Tangents of unit length up to rounding are short and bounded, and agree
/// with themselves by more than `(UNIT - 2)^2`.
pub proof fn lemma_near_unit_profile(t: Seq<Vec2>)
    requires
        near_unit_profile(t),
    ensures
        short_profile(t),
        bounded_profile(t),
        forall|k: int| 0 <= k < t.len() ==> dot(#[trigger] t[k], t[k]) > 16760836,
{
    assert(UNIT * UNIT == 16777216);
    assert forall|k: int| 0 <= k < t.len() implies (#[trigger] t[k]).is_short() && t[k].is_bounded()
        by {
        assert(near_unit(t[k]));
    }
    assert forall|k: int| 0 <= k < t.len() implies dot(#[trigger] t[k], t[k]) > 16760836 by {
        assert(near_unit(t[k]));
    }
}

/// Along the diagonal, a profile of tangents of unit length up to rounding
/// scores at least `(UNIT - 2)^2` per step of weight.
proof fn lemma_align_diagonal_near(t: Seq<Vec2>, penalty: int, i: nat)
    requires
        near_unit_profile(t),
        i < t.len(),
    ensures
        align(t, t, penalty, i, i) >= 33521672 * (2 * i + 1),
    decreases i,
{
    lemma_near_unit_profile(t);
    assert(dot(t[i as int], t[i as int]) > 16760836);
    if i > 0 {
        lemma_align_diagonal_near(t, penalty, (i - 1) as nat);
        assert(dot(t[i - 1], t[i - 1]) > 16760836);
    }
}

/// A profile of tangents of unit length up to rounding is nearly as similar
/// to itself as possible: its similarity is more than `(UNIT - 2)^2 / UNIT^2`.
pub proof fn lemma_self_similarity_near(t: Seq<Vec2>, penalty: int)
    requires
        1 <= t.len(),
        near_unit_profile(t),
    ensures
        similarity_num(t, t, penalty) >= 67043344 * t.len(),
        similarity_den(t, t) == 67108864 * t.len(),
{
    let n = (t.len() - 1) as nat;
    lemma_align_diagonal_near(t, penalty, n);
    lemma_near_unit_profile(t);
    assert(dot(t[n as int], t[n as int]) > 16760836);
}

} // verus!
