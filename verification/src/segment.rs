//! Locating the sub-interval a query abscissa falls in.
//!
//! Shared by linear interpolation and both cubic-spline variants.  The
//! locator never clamps: a query below the first breakpoint maps to the
//! first interval and a query at or above the second-to-last breakpoint
//! maps to the last interval, so callers extrapolate with the boundary
//! segment.

use vstd::prelude::*;
use crate::rational::{Q, Rat, q_seq, qs_wf, rats_wf, lemma_rats_wf, q_inc, q_wf, q_lt, q_le};
use crate::algebra::lemma_q_lt_trans;

verus! {

/// The interval the interior scan settles on starting at position `j`:
/// the first `k >= j` with `xs[k] <= t < xs[k+1]`, or the last interval
/// when the scan runs out.
pub open spec fn seg_scan(xs: Seq<Q>, t: Q, j: int) -> int
    decreases xs.len() - j,
{
    if j >= xs.len() - 2 {
        xs.len() - 2
    } else if q_le(xs[j], t) && q_lt(t, xs[j + 1]) {
        j
    } else {
        seg_scan(xs, t, j + 1)
    }
}

/// Which sub-interval of the breakpoints `xs` the query `t` falls in:
/// interval `0` when `t` lies below `xs[1]`, the last interval when `t`
/// lies at or above the second-to-last breakpoint, and the bracketing
/// interval in between.
pub open spec fn seg_idx(xs: Seq<Q>, t: Q) -> int {
    if q_lt(t, xs[1]) {
        0
    } else if q_le(xs[xs.len() - 2], t) {
        xs.len() - 2
    } else {
        seg_scan(xs, t, 1)
    }
}

/// In a strictly increasing sequence, earlier entries are smaller.
pub proof fn lemma_q_inc_at(xs: Seq<Q>, i: int, j: int)
    requires
        qs_wf(xs),
        q_inc(xs),
        0 <= i <= j < xs.len(),
    ensures
        q_le(xs[i], xs[j]),
        i < j ==> q_lt(xs[i], xs[j]),
    decreases j - i,
{
    if i < j {
        lemma_q_inc_at(xs, i, j - 1);
        lemma_q_lt_trans(xs[i], xs[j - 1], xs[j]);
    }
}

/// The scan started anywhere at or below a bracketing interval finds it.
proof fn lemma_seg_scan_finds(xs: Seq<Q>, t: Q, k: int, j: int)
    requires
        qs_wf(xs),
        q_inc(xs),
        q_wf(t),
        1 <= k <= j,
        j < xs.len() - 2,
        q_le(xs[j], t),
        q_lt(t, xs[j + 1]),
    ensures
        seg_scan(xs, t, k) == j,
    decreases j - k,
{
    if k < j {
        lemma_q_inc_at(xs, k + 1, j);
        lemma_q_lt_trans(xs[k + 1], xs[j], t);
        assert(!q_lt(t, xs[k + 1]));
        lemma_seg_scan_finds(xs, t, k + 1, j);
    }
}

/// The located interval is the bracketing one: if `xs[j] <= t < xs[j+1]`
/// then the locator answers exactly `j`.
pub proof fn lemma_seg_idx_unique(xs: Seq<Q>, t: Q, j: int)
    requires
        qs_wf(xs),
        q_inc(xs),
        q_wf(t),
        xs.len() >= 2,
        0 <= j < xs.len() - 1,
        q_le(xs[j], t),
        q_lt(t, xs[j + 1]),
    ensures
        seg_idx(xs, t) == j,
{
    let last = xs.len() - 2;
    if j == 0 {
    } else {
        lemma_q_inc_at(xs, 1, j);
        lemma_q_lt_trans(xs[1], xs[j], t);
        assert(!q_lt(t, xs[1]));
        if j == last {
        } else {
            lemma_q_inc_at(xs, j + 1, last);
            lemma_q_lt_trans(t, xs[j + 1], xs[last]);
            assert(!q_le(xs[last], t));
            lemma_seg_scan_finds(xs, t, 1, j);
        }
    }
}

/// Find the sub-interval of the breakpoints `xs` that `t` falls in.
pub fn find_segment(xs: &Vec<Rat>, t: &Rat) -> (idx: usize)
    requires
        xs@.len() >= 2,
        rats_wf(xs@),
        t.wf(),
    ensures
        idx as int == seg_idx(q_seq(xs@), t@),
        idx + 1 < xs@.len(),
{
    let ghost qxs = q_seq(xs@);
    proof {
        lemma_rats_wf(xs@);
        assert(qxs[1] == xs@[1]@);
        assert(qxs[xs@.len() - 2] == xs@[xs@.len() - 2]@);
    }
    let n = xs.len() - 1;
    if t.lt(&xs[1]) {
        0
    } else if xs[n - 1].le(t) {
        n - 1
    } else {
        if n >= 2 {
            let mut j: usize = 1;
            while j < n - 1
                invariant
                    1 <= j <= n - 1,
                    n + 1 == xs@.len(),
                    n >= 2,
                    rats_wf(xs@),
                    qxs == q_seq(xs@),
                    t.wf(),
                    !q_lt(t@, qxs[1]),
                    !q_le(qxs[xs@.len() - 2], t@),
                    seg_scan(qxs, t@, 1) == seg_scan(qxs, t@, j as int),
                decreases n - 1 - j,
            {
                proof {
                    lemma_rats_wf(xs@);
                    assert(qxs[j as int] == xs@[j as int]@);
                    assert(qxs[j + 1] == xs@[j + 1]@);
                    assert(qxs[1] == xs@[1]@);
                    assert(qxs[xs@.len() - 2] == xs@[xs@.len() - 2]@);
                }
                if xs[j].le(t) && t.lt(&xs[j + 1]) {
                    return j;
                }
                j = j + 1;
            }
        }
        n - 1
    }
}

} // verus!
