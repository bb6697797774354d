//! The library-wide laws of the interpolators, stated and proved over the
//! same spec functions that the executable functions' contracts use.

use vstd::prelude::*;
use crate::rational::{Q, q_wf, q_eq, q_add, q_sub, q_mul, q_div, q_int, q_zero, qs_wf, q_inc,
    q_lt, q_le};
use crate::tridiagonal::{h_of, b_of, d_of, row_at, rhs_of, spline_coeffs_ok,
    lemma_natural_c_unique, lemma_rhs_wf};
use crate::segment::{seg_idx, lemma_seg_idx_unique, lemma_q_inc_at};
use crate::linear_interpolation::lin_val;
use crate::algebra::{lemma_q_eq_sym, lemma_q_eq_trans, lemma_q_add_cong, lemma_q_sub_cong,
    lemma_q_mul_cong, lemma_q_div_cong, lemma_q_ops_wf, lemma_q_sub_pos, lemma_q_zero_factor,
    lemma_q_two_sub, lemma_q_six_div_cancel, lemma_q_add_zero, lemma_q_mul_div,
    lemma_q_add_sub, lemma_q_sub_dist_r, lemma_q_div_mul, lemma_q_div3_shift2,
    lemma_q_div3h_cancel, lemma_q_div3_mul, lemma_q_div_sub_same, lemma_q_collapse,
    lemma_q_neg_third, lemma_q_add_opp, lemma_q_value_assemble, lemma_q_mul_assoc,
    lemma_q_mul_comm, lemma_q_add_comm, lemma_q_two_plus_diff, lemma_q_three_div_sq,
    lemma_q_mul_div_commute3, lemma_q_add_sub_assoc, lemma_q_coeff_collect, lemma_q_pull_two,
    lemma_q_add_dist_r, lemma_q_mul_add_dist, lemma_q_mul_sub_dist, lemma_q_mul_cancel,
    lemma_q_sub_move, lemma_q_sub_add_swap, lemma_q_add_shuffle, lemma_q_add_rotate};

verus! {

/// The second derivative of segment `i`'s cubic polynomial at offset
/// `hh`: `2 c_i + 6 d_i hh`.
pub open spec fn spline_d2(c: Seq<Q>, d: Seq<Q>, i: int, hh: Q) -> Q {
    q_add(q_mul(q_int(2), c[i]), q_mul(q_mul(q_int(6), d[i]), hh))
}

/// The second derivative at the right end of a segment is twice the next
/// quadratic coefficient — the cubic term's slope hands over exactly.
proof fn lemma_d2_handover(c: Q, cp: Q, h: Q, dval: Q)
    requires
        q_wf(c),
        q_wf(cp),
        q_wf(h),
        q_wf(dval),
        h.n > 0,
        q_eq(dval, q_div(q_sub(cp, c), q_mul(q_int(3), h))),
    ensures
        q_eq(
            q_add(q_mul(q_int(2), c), q_mul(q_mul(q_int(6), dval), h)),
            q_mul(q_int(2), cp),
        ),
{
    let a = q_div(q_sub(cp, c), q_mul(q_int(3), h));
    lemma_q_ops_wf(cp, c);
    lemma_q_ops_wf(q_int(3), h);
    lemma_q_ops_wf(q_sub(cp, c), q_mul(q_int(3), h));
    lemma_q_ops_wf(q_int(6), dval);
    lemma_q_ops_wf(q_int(6), a);
    lemma_q_mul_cong(q_int(6), dval, q_int(6), a);
    lemma_q_mul_cong(q_mul(q_int(6), dval), h, q_mul(q_int(6), a), h);
    lemma_q_six_div_cancel(q_sub(cp, c), h);
    lemma_q_ops_wf(q_mul(q_int(6), dval), h);
    lemma_q_ops_wf(q_mul(q_int(6), a), h);
    lemma_q_ops_wf(q_int(2), q_sub(cp, c));
    lemma_q_eq_trans(
        q_mul(q_mul(q_int(6), dval), h),
        q_mul(q_mul(q_int(6), a), h),
        q_mul(q_int(2), q_sub(cp, c)),
    );
    lemma_q_ops_wf(q_int(2), c);
    lemma_q_add_cong(
        q_mul(q_int(2), c),
        q_mul(q_mul(q_int(6), dval), h),
        q_mul(q_int(2), c),
        q_mul(q_int(2), q_sub(cp, c)),
    );
    lemma_q_two_sub(c, cp);
    lemma_q_ops_wf(q_mul(q_int(2), c), q_mul(q_mul(q_int(6), dval), h));
    lemma_q_ops_wf(q_mul(q_int(2), c), q_mul(q_int(2), q_sub(cp, c)));
    lemma_q_ops_wf(q_int(2), cp);
    lemma_q_eq_trans(
        q_add(q_mul(q_int(2), c), q_mul(q_mul(q_int(6), dval), h)),
        q_add(q_mul(q_int(2), c), q_mul(q_int(2), q_sub(cp, c))),
        q_mul(q_int(2), cp),
    );
}

/// NATURAL BOUNDARY: the spline's second derivative vanishes exactly at
/// both end samples — at `x_0` as `2 c_0`, and at `x_{n-1}` as the last
/// segment's second derivative at its right end.
pub proof fn lemma_natural_boundary(xs: Seq<Q>, ys: Seq<Q>, a: Seq<Q>, b: Seq<Q>, c: Seq<Q>, d: Seq<Q>)
    requires
        qs_wf(xs),
        qs_wf(ys),
        q_inc(xs),
        xs.len() >= 2,
        ys.len() == xs.len(),
        spline_coeffs_ok(xs, ys, a, b, c, d),
    ensures
        q_eq(spline_d2(c, d, 0, q_zero()), q_zero()),
        q_eq(spline_d2(c, d, xs.len() - 2, h_of(xs, xs.len() - 2)), q_zero()),
{
    let n = xs.len() - 1;
    // Left end: the cubic term contributes nothing at offset zero.
    assert(q_eq(c[0], q_zero()));
    assert(q_mul(q_mul(q_int(6), d[0]), q_zero()).n == 0) by {
        lemma_q_zero_factor(q_zero(), q_mul(q_int(6), d[0]));
    }
    assert(spline_d2(c, d, 0, q_zero()).n == 0) by {
        assert(q_mul(q_int(2), c[0]).n == 2 * c[0].n);
        assert(c[0].n == 0);
    }
    // Right end: hand the second derivative over to 2 c_n, which is zero.
    assert(q_eq(d[n - 1], d_of(xs, c, n - 1)));
    assert(q_lt(xs[n - 1], xs[n]));
    lemma_q_sub_pos(xs[n - 1], xs[n]);
    assert(q_wf(c[n - 1]) && q_wf(c[n]) && q_wf(d[n - 1]));
    lemma_d2_handover(c[n - 1], c[n], h_of(xs, n - 1), d[n - 1]);
    assert(q_eq(c[n], q_zero()));
    assert(q_mul(q_int(2), c[n]).n == 0) by {
        assert(c[n].n == 0);
    }
    lemma_q_ops_wf(q_int(2), c[n]);
    lemma_q_ops_wf(q_int(2), c[n - 1]);
    lemma_q_ops_wf(q_int(6), d[n - 1]);
    lemma_q_ops_wf(q_mul(q_int(6), d[n - 1]), h_of(xs, n - 1));
    lemma_q_ops_wf(q_mul(q_int(2), c[n - 1]), q_mul(q_mul(q_int(6), d[n - 1]), h_of(xs, n - 1)));
    lemma_q_eq_trans(
        spline_d2(c, d, n - 1, h_of(xs, n - 1)),
        q_mul(q_int(2), c[n]),
        q_zero(),
    );
}

/// SECOND-DERIVATIVE CONTINUITY: at each interior knot `x_j`, the left
/// segment's second derivative at its right end equals the right
/// segment's at its left end.
pub proof fn lemma_d2_continuity(xs: Seq<Q>, ys: Seq<Q>, a: Seq<Q>, b: Seq<Q>, c: Seq<Q>, d: Seq<Q>, j: int)
    requires
        qs_wf(xs),
        qs_wf(ys),
        q_inc(xs),
        xs.len() >= 2,
        ys.len() == xs.len(),
        spline_coeffs_ok(xs, ys, a, b, c, d),
        1 <= j < xs.len() - 1,
    ensures
        q_eq(spline_d2(c, d, j - 1, h_of(xs, j - 1)), spline_d2(c, d, j, q_zero())),
{
    assert(q_eq(d[j - 1], d_of(xs, c, j - 1)));
    assert(q_lt(xs[j - 1], xs[j]));
    lemma_q_sub_pos(xs[j - 1], xs[j]);
    lemma_d2_handover(c[j - 1], c[j], h_of(xs, j - 1), d[j - 1]);
    // The right segment's second derivative at offset zero is 2 c_j.
    lemma_q_zero_factor(q_zero(), q_mul(q_int(6), d[j]));
    lemma_q_ops_wf(q_int(2), c[j]);
    lemma_q_ops_wf(q_int(6), d[j]);
    lemma_q_ops_wf(q_mul(q_int(6), d[j]), q_zero());
    lemma_q_add_zero(q_mul(q_int(2), c[j]), q_mul(q_mul(q_int(6), d[j]), q_zero()));
    lemma_q_eq_sym(
        q_add(q_mul(q_int(2), c[j]), q_mul(q_mul(q_int(6), d[j]), q_zero())),
        q_mul(q_int(2), c[j]),
    );
    lemma_q_ops_wf(q_int(2), c[j - 1]);
    lemma_q_ops_wf(q_int(6), d[j - 1]);
    lemma_q_ops_wf(q_mul(q_int(6), d[j - 1]), h_of(xs, j - 1));
    lemma_q_ops_wf(
        q_mul(q_int(2), c[j - 1]),
        q_mul(q_mul(q_int(6), d[j - 1]), h_of(xs, j - 1)),
    );
    lemma_q_ops_wf(q_mul(q_int(2), c[j]), q_mul(q_mul(q_int(6), d[j]), q_zero()));
    lemma_q_eq_trans(
        spline_d2(c, d, j - 1, h_of(xs, j - 1)),
        q_mul(q_int(2), c[j]),
        spline_d2(c, d, j, q_zero()),
    );
}

/// THE TWO CUBIC SOLVERS AGREE: any two coefficient sets that satisfy
/// the natural-spline characterization for the same samples are equal,
/// coefficient by coefficient, as rational numbers.
pub proof fn lemma_solvers_agree(
    xs: Seq<Q>,
    ys: Seq<Q>,
    a1: Seq<Q>,
    b1: Seq<Q>,
    c1: Seq<Q>,
    d1: Seq<Q>,
    a2: Seq<Q>,
    b2: Seq<Q>,
    c2: Seq<Q>,
    d2: Seq<Q>,
)
    requires
        qs_wf(xs),
        qs_wf(ys),
        q_inc(xs),
        xs.len() >= 2,
        ys.len() == xs.len(),
        spline_coeffs_ok(xs, ys, a1, b1, c1, d1),
        spline_coeffs_ok(xs, ys, a2, b2, c2, d2),
    ensures
        forall|i: int| 0 <= i < xs.len() ==> q_eq(#[trigger] a1[i], a2[i]),
        forall|i: int| 0 <= i < xs.len() ==> q_eq(#[trigger] c1[i], c2[i]),
        forall|j: int| 0 <= j < xs.len() - 1 ==> q_eq(#[trigger] b1[j], b2[j]),
        forall|j: int| 0 <= j < xs.len() - 1 ==> q_eq(#[trigger] d1[j], d2[j]),
{
    let n = xs.len() - 1;
    assert forall|i: int| 0 <= i < xs.len() implies q_eq(#[trigger] a1[i], a2[i]) by {
        lemma_q_eq_sym(a2[i], ys[i]);
        lemma_q_eq_trans(a1[i], ys[i], a2[i]);
    }
    assert forall|i: int| 0 <= i < xs.len() implies q_eq(#[trigger] c1[i], c2[i]) by {
        lemma_natural_c_unique(xs, ys, c1, c2, i);
    }
    assert forall|j: int| 0 <= j < xs.len() - 1 implies q_eq(#[trigger] b1[j], b2[j]) by {
        lemma_natural_c_unique(xs, ys, c1, c2, j);
        lemma_natural_c_unique(xs, ys, c1, c2, j + 1);
        assert(q_lt(xs[j], xs[j + 1]));
        lemma_q_sub_pos(xs[j], xs[j + 1]);
        let h = h_of(xs, j);
        lemma_q_ops_wf(ys[j + 1], ys[j]);
        lemma_q_ops_wf(q_int(2), c1[j]);
        lemma_q_ops_wf(q_int(2), c2[j]);
        lemma_q_mul_cong(q_int(2), c1[j], q_int(2), c2[j]);
        lemma_q_add_cong(c1[j + 1], q_mul(q_int(2), c1[j]), c2[j + 1], q_mul(q_int(2), c2[j]));
        lemma_q_ops_wf(c1[j + 1], q_mul(q_int(2), c1[j]));
        lemma_q_ops_wf(c2[j + 1], q_mul(q_int(2), c2[j]));
        lemma_q_mul_cong(
            h,
            q_add(c1[j + 1], q_mul(q_int(2), c1[j])),
            h,
            q_add(c2[j + 1], q_mul(q_int(2), c2[j])),
        );
        lemma_q_ops_wf(h, q_add(c1[j + 1], q_mul(q_int(2), c1[j])));
        lemma_q_ops_wf(h, q_add(c2[j + 1], q_mul(q_int(2), c2[j])));
        lemma_q_div_cong(
            q_mul(h, q_add(c1[j + 1], q_mul(q_int(2), c1[j]))),
            q_int(3),
            q_mul(h, q_add(c2[j + 1], q_mul(q_int(2), c2[j]))),
            q_int(3),
        );
        lemma_q_ops_wf(q_sub(ys[j + 1], ys[j]), h);
        lemma_q_ops_wf(q_mul(h, q_add(c1[j + 1], q_mul(q_int(2), c1[j]))), q_int(3));
        lemma_q_ops_wf(q_mul(h, q_add(c2[j + 1], q_mul(q_int(2), c2[j]))), q_int(3));
        lemma_q_sub_cong(
            q_div(q_sub(ys[j + 1], ys[j]), h),
            q_div(q_mul(h, q_add(c1[j + 1], q_mul(q_int(2), c1[j]))), q_int(3)),
            q_div(q_sub(ys[j + 1], ys[j]), h),
            q_div(q_mul(h, q_add(c2[j + 1], q_mul(q_int(2), c2[j]))), q_int(3)),
        );
        lemma_q_ops_wf(
            q_div(q_sub(ys[j + 1], ys[j]), h),
            q_div(q_mul(h, q_add(c1[j + 1], q_mul(q_int(2), c1[j]))), q_int(3)),
        );
        lemma_q_ops_wf(
            q_div(q_sub(ys[j + 1], ys[j]), h),
            q_div(q_mul(h, q_add(c2[j + 1], q_mul(q_int(2), c2[j]))), q_int(3)),
        );
        lemma_q_eq_trans(b1[j], b_of(xs, ys, c1, j), b_of(xs, ys, c2, j));
        lemma_q_eq_sym(b2[j], b_of(xs, ys, c2, j));
        lemma_q_eq_trans(b1[j], b_of(xs, ys, c2, j), b2[j]);
    }
    assert forall|j: int| 0 <= j < xs.len() - 1 implies q_eq(#[trigger] d1[j], d2[j]) by {
        lemma_natural_c_unique(xs, ys, c1, c2, j);
        lemma_natural_c_unique(xs, ys, c1, c2, j + 1);
        assert(q_lt(xs[j], xs[j + 1]));
        lemma_q_sub_pos(xs[j], xs[j + 1]);
        let h = h_of(xs, j);
        lemma_q_sub_cong(c1[j + 1], c1[j], c2[j + 1], c2[j]);
        lemma_q_ops_wf(c1[j + 1], c1[j]);
        lemma_q_ops_wf(c2[j + 1], c2[j]);
        lemma_q_ops_wf(q_int(3), h);
        lemma_q_div_cong(
            q_sub(c1[j + 1], c1[j]),
            q_mul(q_int(3), h),
            q_sub(c2[j + 1], c2[j]),
            q_mul(q_int(3), h),
        );
        lemma_q_ops_wf(q_sub(c1[j + 1], c1[j]), q_mul(q_int(3), h));
        lemma_q_ops_wf(q_sub(c2[j + 1], c2[j]), q_mul(q_int(3), h));
        lemma_q_eq_trans(d1[j], d_of(xs, c1, j), d_of(xs, c2, j));
        lemma_q_eq_sym(d2[j], d_of(xs, c2, j));
        lemma_q_eq_trans(d1[j], d_of(xs, c2, j), d2[j]);
    }
}

/// LINEAR INTERPOLATION IS EXACT AT EVERY SAMPLE POINT: querying the
/// piecewise-linear interpolant at `x_j` returns `y_j` exactly, for every
/// sample index including the boundaries.
pub proof fn lemma_linear_exact_at_samples(xs: Seq<Q>, ys: Seq<Q>, j: int)
    requires
        qs_wf(xs),
        qs_wf(ys),
        q_inc(xs),
        xs.len() >= 2,
        ys.len() == xs.len(),
        0 <= j < xs.len(),
    ensures
        q_eq(lin_val(xs, ys, seg_idx(xs, xs[j]), xs[j]), ys[j]),
{
    let t = xs[j];
    if j < xs.len() - 1 {
        assert(q_lt(xs[j], xs[j + 1]));
        lemma_seg_idx_unique(xs, t, j);
        lemma_q_sub_pos(xs[j], xs[j + 1]);
        let zt = q_sub(t, xs[j]);
        assert(zt.n == 0);
        lemma_q_zero_factor(zt, q_sub(ys[j + 1], ys[j]));
        lemma_q_zero_factor(
            q_mul(zt, q_sub(ys[j + 1], ys[j])),
            q_sub(xs[j + 1], xs[j]),
        );
        lemma_q_ops_wf(t, xs[j]);
        lemma_q_ops_wf(ys[j + 1], ys[j]);
        lemma_q_ops_wf(zt, q_sub(ys[j + 1], ys[j]));
        lemma_q_ops_wf(q_mul(zt, q_sub(ys[j + 1], ys[j])), q_sub(xs[j + 1], xs[j]));
        lemma_q_add_zero(
            ys[j],
            q_div(q_mul(zt, q_sub(ys[j + 1], ys[j])), q_sub(xs[j + 1], xs[j])),
        );
    } else {
        // The last sample evaluates on the last interval, whose line ends
        // exactly at `y_{n-1}`.
        let l2 = xs.len() - 2;
        assert(q_lt(xs[l2], xs[l2 + 1]));
        lemma_q_inc_at(xs, 1, j);
        assert(!q_lt(t, xs[1]));
        assert(q_le(xs[l2], t));
        assert(seg_idx(xs, t) == l2);
        lemma_q_sub_pos(xs[l2], xs[l2 + 1]);
        let dx = q_sub(t, xs[l2]);
        let w = q_sub(ys[l2 + 1], ys[l2]);
        assert(dx == q_sub(xs[l2 + 1], xs[l2]));
        lemma_q_ops_wf(ys[l2 + 1], ys[l2]);
        lemma_q_ops_wf(t, xs[l2]);
        lemma_q_mul_div(w, dx);
        lemma_q_ops_wf(dx, w);
        lemma_q_ops_wf(q_mul(dx, w), dx);
        lemma_q_add_cong(ys[l2], q_div(q_mul(dx, w), dx), ys[l2], w);
        lemma_q_add_sub(ys[l2], ys[l2 + 1]);
        lemma_q_ops_wf(ys[l2], q_div(q_mul(dx, w), dx));
        lemma_q_ops_wf(ys[l2], w);
        lemma_q_eq_trans(
            lin_val(xs, ys, l2, t),
            q_add(ys[l2], w),
            ys[l2 + 1],
        );
    }
}

/// The closed-form linear and cubic coefficients make the segment's
/// cubic polynomial reach exactly the next ordinate at the segment's
/// right end, whatever the quadratic coefficients are.
proof fn lemma_value_identity(ym: Q, yj: Q, h: Q, c: Q, cp: Q)
    requires
        q_wf(ym),
        q_wf(yj),
        q_wf(h),
        q_wf(c),
        q_wf(cp),
        h.n > 0,
    ensures
        q_eq(
            q_add(
                q_add(
                    q_add(
                        ym,
                        q_mul(
                            q_sub(
                                q_div(q_sub(yj, ym), h),
                                q_div(q_mul(h, q_add(cp, q_mul(q_int(2), c))), q_int(3)),
                            ),
                            h,
                        ),
                    ),
                    q_mul(c, q_mul(h, h)),
                ),
                q_mul(q_div(q_sub(cp, c), q_mul(q_int(3), h)), q_mul(q_mul(h, h), h)),
            ),
            yj,
        ),
{
    let dy = q_sub(yj, ym);
    let g = q_add(cp, q_mul(q_int(2), c));
    let t1 = q_div(dy, h);
    let t2 = q_div(q_mul(h, g), q_int(3));
    let bof = q_sub(t1, t2);
    let x = q_sub(cp, c);
    let dof = q_div(x, q_mul(q_int(3), h));
    let h2 = q_mul(h, h);
    let h3 = q_mul(h2, h);
    let w1 = q_div(q_mul(g, h2), q_int(3));
    let w2 = q_div(q_mul(x, h2), q_int(3));
    let ch2 = q_mul(c, h2);

    // Well-formedness of every intermediate value.
    lemma_q_ops_wf(yj, ym);
    lemma_q_ops_wf(q_int(2), c);
    lemma_q_ops_wf(cp, q_mul(q_int(2), c));
    lemma_q_ops_wf(dy, h);
    lemma_q_ops_wf(h, g);
    lemma_q_ops_wf(q_mul(h, g), q_int(3));
    lemma_q_ops_wf(t1, t2);
    lemma_q_ops_wf(cp, c);
    lemma_q_ops_wf(q_int(3), h);
    assert(q_mul(q_int(3), h).n != 0);
    lemma_q_ops_wf(x, q_mul(q_int(3), h));
    lemma_q_ops_wf(h, h);
    lemma_q_ops_wf(h2, h);
    lemma_q_ops_wf(g, h2);
    lemma_q_ops_wf(q_mul(g, h2), q_int(3));
    lemma_q_ops_wf(x, h2);
    lemma_q_ops_wf(q_mul(x, h2), q_int(3));
    lemma_q_ops_wf(c, h2);
    lemma_q_ops_wf(bof, h);
    lemma_q_ops_wf(t1, h);
    lemma_q_ops_wf(t2, h);
    lemma_q_ops_wf(dy, w1);
    lemma_q_ops_wf(dof, h3);
    lemma_q_ops_wf(dof, h);
    lemma_q_ops_wf(q_div(x, q_int(3)), h2);
    lemma_q_ops_wf(x, q_int(3));
    lemma_q_ops_wf(dof, h2);
    lemma_q_ops_wf(q_mul(dof, h), h2);
    lemma_q_ops_wf(h, h2);
    lemma_q_ops_wf(dof, q_mul(h, h2));
    lemma_q_ops_wf(w2, w1);
    lemma_q_ops_wf(q_zero(), ch2);
    lemma_q_ops_wf(ch2, q_sub(w2, w1));

    // The linear term: `bof h` equals `dy - w1`.
    lemma_q_sub_dist_r(h, t1, t2);
    lemma_q_div_mul(dy, h);
    lemma_q_div3_shift2(g, h);
    lemma_q_sub_cong(q_mul(t1, h), q_mul(t2, h), dy, w1);
    lemma_q_ops_wf(q_mul(t1, h), q_mul(t2, h));
    lemma_q_eq_trans(q_mul(bof, h), q_sub(q_mul(t1, h), q_mul(t2, h)), q_sub(dy, w1));

    // The cubic term: `dof h^3` equals `w2`.
    lemma_q_mul_comm(h2, h);
    lemma_q_mul_cong(dof, h3, dof, q_mul(h, h2));
    lemma_q_mul_assoc(dof, h, h2);
    lemma_q_div3h_cancel(x, h);
    lemma_q_mul_cong(q_mul(dof, h), h2, q_div(x, q_int(3)), h2);
    lemma_q_div3_mul(x, h2);
    lemma_q_eq_trans(q_mul(dof, h3), q_mul(dof, q_mul(h, h2)), q_mul(q_mul(dof, h), h2));
    lemma_q_eq_trans(q_mul(dof, h3), q_mul(q_mul(dof, h), h2), q_mul(q_div(x, q_int(3)), h2));
    lemma_q_eq_trans(q_mul(dof, h3), q_mul(q_div(x, q_int(3)), h2), w2);

    // The correction terms cancel: `ch2 + (w2 - w1)` is zero.
    lemma_q_div_sub_same(q_mul(x, h2), q_mul(g, h2));
    lemma_q_sub_dist_r(h2, x, g);
    lemma_q_eq_sym(q_mul(q_sub(x, g), h2), q_sub(q_mul(x, h2), q_mul(g, h2)));
    lemma_q_collapse(c, cp);
    lemma_q_ops_wf(x, g);
    lemma_q_ops_wf(q_int(-3), c);
    lemma_q_mul_cong(q_sub(x, g), h2, q_mul(q_int(-3), c), h2);
    lemma_q_ops_wf(q_sub(x, g), h2);
    lemma_q_ops_wf(q_mul(q_int(-3), c), h2);
    lemma_q_ops_wf(q_mul(x, h2), q_mul(g, h2));
    lemma_q_ops_wf(q_sub(q_mul(x, h2), q_mul(g, h2)), q_int(3));
    lemma_q_ops_wf(q_mul(q_sub(x, g), h2), q_int(3));
    lemma_q_ops_wf(q_mul(q_mul(q_int(-3), c), h2), q_int(3));
    assert(q_eq(q_sub(q_mul(x, h2), q_mul(g, h2)), q_mul(q_mul(q_int(-3), c), h2))) by {
        lemma_q_eq_trans(
            q_sub(q_mul(x, h2), q_mul(g, h2)),
            q_mul(q_sub(x, g), h2),
            q_mul(q_mul(q_int(-3), c), h2),
        );
    }
    lemma_q_div_cong(
        q_sub(q_mul(x, h2), q_mul(g, h2)),
        q_int(3),
        q_mul(q_mul(q_int(-3), c), h2),
        q_int(3),
    );
    lemma_q_neg_third(c, h2);
    lemma_q_eq_trans(
        q_sub(w2, w1),
        q_div(q_sub(q_mul(x, h2), q_mul(g, h2)), q_int(3)),
        q_div(q_mul(q_mul(q_int(-3), c), h2), q_int(3)),
    );
    lemma_q_eq_trans(
        q_sub(w2, w1),
        q_div(q_mul(q_mul(q_int(-3), c), h2), q_int(3)),
        q_sub(q_zero(), ch2),
    );
    lemma_q_add_cong(ch2, q_sub(w2, w1), ch2, q_sub(q_zero(), ch2));
    lemma_q_add_opp(ch2);
    lemma_q_ops_wf(ch2, q_sub(q_zero(), ch2));
    lemma_q_eq_trans(
        q_add(ch2, q_sub(w2, w1)),
        q_add(ch2, q_sub(q_zero(), ch2)),
        q_zero(),
    );

    // Assemble.
    lemma_q_value_assemble(ym, yj, w1, ch2, w2);
    lemma_q_add_cong(ym, q_mul(bof, h), ym, q_sub(dy, w1));
    lemma_q_ops_wf(ym, q_mul(bof, h));
    lemma_q_ops_wf(ym, q_sub(dy, w1));
    lemma_q_add_cong(q_add(ym, q_mul(bof, h)), ch2, q_add(ym, q_sub(dy, w1)), ch2);
    lemma_q_ops_wf(q_add(ym, q_mul(bof, h)), ch2);
    lemma_q_ops_wf(q_add(ym, q_sub(dy, w1)), ch2);
    lemma_q_add_cong(
        q_add(q_add(ym, q_mul(bof, h)), ch2),
        q_mul(dof, h3),
        q_add(q_add(ym, q_sub(dy, w1)), ch2),
        w2,
    );
    lemma_q_ops_wf(q_add(q_add(ym, q_mul(bof, h)), ch2), q_mul(dof, h3));
    lemma_q_ops_wf(q_add(q_add(ym, q_sub(dy, w1)), ch2), w2);
    lemma_q_eq_trans(
        q_add(q_add(q_add(ym, q_mul(bof, h)), ch2), q_mul(dof, h3)),
        q_add(q_add(q_add(ym, q_sub(dy, w1)), ch2), w2),
        yj,
    );
}

/// At offset zero a segment's cubic polynomial is its constant
/// coefficient.
proof fn lemma_poly_at_zero(a: Seq<Q>, b: Seq<Q>, c: Seq<Q>, d: Seq<Q>, j: int)
    requires
        0 <= j < a.len(),
        j < b.len(),
        j < c.len(),
        j < d.len(),
        q_wf(a[j]),
        q_wf(b[j]),
        q_wf(c[j]),
        q_wf(d[j]),
    ensures
        q_eq(crate::cubic_spline::spline_val(a, b, c, d, j, q_zero()), a[j]),
{
    let z = q_zero();
    let b0 = q_mul(b[j], z);
    let z2 = q_mul(z, z);
    let c0 = q_mul(c[j], z2);
    let z3 = q_mul(z2, z);
    let d0 = q_mul(d[j], z3);
    lemma_q_zero_factor(z, b[j]);
    lemma_q_zero_factor(z, z);
    lemma_q_zero_factor(z2, c[j]);
    lemma_q_zero_factor(z2, z);
    lemma_q_zero_factor(z3, d[j]);
    lemma_q_ops_wf(b[j], z);
    lemma_q_ops_wf(z, z);
    lemma_q_ops_wf(c[j], z2);
    lemma_q_ops_wf(z2, z);
    lemma_q_ops_wf(d[j], z3);
    lemma_q_add_zero(a[j], b0);
    lemma_q_ops_wf(a[j], b0);
    lemma_q_add_zero(q_add(a[j], b0), c0);
    lemma_q_ops_wf(q_add(a[j], b0), c0);
    lemma_q_add_zero(q_add(q_add(a[j], b0), c0), d0);
    lemma_q_eq_trans(q_add(q_add(a[j], b0), c0), q_add(a[j], b0), a[j]);
    lemma_q_ops_wf(q_add(q_add(a[j], b0), c0), d0);
    lemma_q_eq_trans(
        q_add(q_add(q_add(a[j], b0), c0), d0),
        q_add(q_add(a[j], b0), c0),
        a[j],
    );
}

/// VALUE CONTINUITY: at each interior knot `x_j`, the left segment's
/// cubic polynomial evaluated at its right end equals the right
/// segment's value at its left end — both are exactly `a_j`, which is
/// the sample ordinate `y_j`.
pub proof fn lemma_value_continuity(
    xs: Seq<Q>,
    ys: Seq<Q>,
    a: Seq<Q>,
    b: Seq<Q>,
    c: Seq<Q>,
    d: Seq<Q>,
    j: int,
)
    requires
        qs_wf(xs),
        qs_wf(ys),
        q_inc(xs),
        xs.len() >= 2,
        ys.len() == xs.len(),
        spline_coeffs_ok(xs, ys, a, b, c, d),
        1 <= j < xs.len() - 1,
    ensures
        q_eq(
            crate::cubic_spline::spline_val(a, b, c, d, j - 1, h_of(xs, j - 1)),
            crate::cubic_spline::spline_val(a, b, c, d, j, q_zero()),
        ),
        q_eq(crate::cubic_spline::spline_val(a, b, c, d, j - 1, h_of(xs, j - 1)), a[j]),
{
    let i = j - 1;
    let h = h_of(xs, i);
    assert(q_lt(xs[i], xs[i + 1]));
    lemma_q_sub_pos(xs[i], xs[i + 1]);
    assert(q_eq(a[i], ys[i]));
    assert(q_eq(a[j], ys[j]));
    assert(q_eq(b[i], b_of(xs, ys, c, i)));
    assert(q_eq(d[i], d_of(xs, c, i)));
    assert(q_wf(c[i]) && q_wf(c[j]));
    lemma_value_identity(ys[i], ys[j], h, c[i], c[j]);
    let bof = b_of(xs, ys, c, i);
    let dof = d_of(xs, c, i);
    let h2 = q_mul(h, h);
    let h3 = q_mul(h2, h);
    // Substitute the stored coefficients for their closed forms.
    lemma_q_ops_wf(ys[j], ys[i]);
    lemma_q_ops_wf(q_int(2), c[i]);
    lemma_q_ops_wf(c[j], q_mul(q_int(2), c[i]));
    lemma_q_ops_wf(q_sub(ys[j], ys[i]), h);
    lemma_q_ops_wf(h, q_add(c[j], q_mul(q_int(2), c[i])));
    lemma_q_ops_wf(q_mul(h, q_add(c[j], q_mul(q_int(2), c[i]))), q_int(3));
    lemma_q_ops_wf(
        q_div(q_sub(ys[j], ys[i]), h),
        q_div(q_mul(h, q_add(c[j], q_mul(q_int(2), c[i]))), q_int(3)),
    );
    lemma_q_ops_wf(c[j], c[i]);
    lemma_q_ops_wf(q_int(3), h);
    assert(q_mul(q_int(3), h).n != 0);
    lemma_q_ops_wf(q_sub(c[j], c[i]), q_mul(q_int(3), h));
    lemma_q_ops_wf(h, h);
    lemma_q_ops_wf(h2, h);
    lemma_q_ops_wf(b[i], h);
    lemma_q_ops_wf(bof, h);
    lemma_q_ops_wf(d[i], h3);
    lemma_q_ops_wf(dof, h3);
    lemma_q_mul_cong(b[i], h, bof, h);
    lemma_q_mul_cong(d[i], h3, dof, h3);
    lemma_q_add_cong(a[i], q_mul(b[i], h), ys[i], q_mul(bof, h));
    lemma_q_ops_wf(a[i], q_mul(b[i], h));
    lemma_q_ops_wf(ys[i], q_mul(bof, h));
    lemma_q_ops_wf(c[i], h2);
    lemma_q_add_cong(
        q_add(a[i], q_mul(b[i], h)),
        q_mul(c[i], h2),
        q_add(ys[i], q_mul(bof, h)),
        q_mul(c[i], h2),
    );
    lemma_q_ops_wf(q_add(a[i], q_mul(b[i], h)), q_mul(c[i], h2));
    lemma_q_ops_wf(q_add(ys[i], q_mul(bof, h)), q_mul(c[i], h2));
    lemma_q_add_cong(
        q_add(q_add(a[i], q_mul(b[i], h)), q_mul(c[i], h2)),
        q_mul(d[i], h3),
        q_add(q_add(ys[i], q_mul(bof, h)), q_mul(c[i], h2)),
        q_mul(dof, h3),
    );
    lemma_q_ops_wf(q_add(q_add(a[i], q_mul(b[i], h)), q_mul(c[i], h2)), q_mul(d[i], h3));
    lemma_q_ops_wf(q_add(q_add(ys[i], q_mul(bof, h)), q_mul(c[i], h2)), q_mul(dof, h3));
    lemma_q_eq_trans(
        crate::cubic_spline::spline_val(a, b, c, d, i, h),
        q_add(q_add(q_add(ys[i], q_mul(bof, h)), q_mul(c[i], h2)), q_mul(dof, h3)),
        ys[j],
    );
    lemma_q_eq_sym(a[j], ys[j]);
    lemma_q_eq_trans(crate::cubic_spline::spline_val(a, b, c, d, i, h), ys[j], a[j]);
    lemma_poly_at_zero(a, b, c, d, j);
    let z = q_zero();
    lemma_q_ops_wf(b[j], z);
    lemma_q_ops_wf(z, z);
    lemma_q_ops_wf(c[j], q_mul(z, z));
    lemma_q_ops_wf(q_mul(z, z), z);
    lemma_q_ops_wf(d[j], q_mul(q_mul(z, z), z));
    lemma_q_ops_wf(a[j], q_mul(b[j], z));
    lemma_q_ops_wf(q_add(a[j], q_mul(b[j], z)), q_mul(c[j], q_mul(z, z)));
    lemma_q_ops_wf(
        q_add(q_add(a[j], q_mul(b[j], z)), q_mul(c[j], q_mul(z, z))),
        q_mul(d[j], q_mul(q_mul(z, z), z)),
    );
    lemma_q_eq_sym(crate::cubic_spline::spline_val(a, b, c, d, j, q_zero()), a[j]);
    lemma_q_eq_trans(
        crate::cubic_spline::spline_val(a, b, c, d, i, h),
        a[j],
        crate::cubic_spline::spline_val(a, b, c, d, j, q_zero()),
    );
}

/// The first derivative of segment `i`'s cubic polynomial at offset
/// `hh`: `b_i + 2 c_i hh + 3 d_i hh^2`.
pub open spec fn spline_d1(b: Seq<Q>, c: Seq<Q>, d: Seq<Q>, i: int, hh: Q) -> Q {
    q_add(
        b[i],
        q_add(q_mul(q_mul(q_int(2), c[i]), hh), q_mul(q_mul(q_int(3), d[i]), q_mul(hh, hh))),
    )
}

/// At offset zero a segment's first derivative is its linear coefficient.
proof fn lemma_d1_at_zero(b: Seq<Q>, c: Seq<Q>, d: Seq<Q>, j: int)
    requires
        0 <= j < b.len(),
        j < c.len(),
        j < d.len(),
        q_wf(b[j]),
        q_wf(c[j]),
        q_wf(d[j]),
    ensures
        q_eq(spline_d1(b, c, d, j, q_zero()), b[j]),
{
    let z = q_zero();
    let t2 = q_mul(q_mul(q_int(2), c[j]), z);
    let t3 = q_mul(q_mul(q_int(3), d[j]), q_mul(z, z));
    lemma_q_zero_factor(z, q_mul(q_int(2), c[j]));
    lemma_q_zero_factor(q_mul(z, z), q_mul(q_int(3), d[j]));
    lemma_q_ops_wf(q_int(2), c[j]);
    lemma_q_ops_wf(q_int(3), d[j]);
    lemma_q_ops_wf(z, z);
    lemma_q_ops_wf(q_mul(q_int(2), c[j]), z);
    lemma_q_ops_wf(q_mul(q_int(3), d[j]), q_mul(z, z));
    lemma_q_ops_wf(t2, t3);
    assert(q_add(t2, t3).n == 0);
    lemma_q_add_zero(b[j], q_add(t2, t3));
}

/// The balance behind first-derivative continuity: subtracting the
/// divided-out correction `hm (cB + 2 cA)` from `3 (cB + cA) hm` leaves
/// the same amount that subtracting the next segment's correction
/// `h (cC + 2 cB)` leaves of the system row.
proof fn lemma_d1_balance(hm: Q, h: Q, ca: Q, cb: Q, cc: Q)
    requires
        q_wf(hm),
        q_wf(h),
        q_wf(ca),
        q_wf(cb),
        q_wf(cc),
    ensures
        q_eq(
            q_sub(
                q_mul(q_int(3), q_mul(q_add(cb, ca), hm)),
                q_mul(hm, q_add(cb, q_mul(q_int(2), ca))),
            ),
            q_sub(
                q_add(
                    q_mul(hm, ca),
                    q_add(q_mul(q_mul(q_int(2), q_add(hm, h)), cb), q_mul(h, cc)),
                ),
                q_mul(h, q_add(cc, q_mul(q_int(2), cb))),
            ),
        ),
{
    let mb = q_mul(cb, hm);
    let ma = q_mul(ca, hm);
    let hcb = q_mul(h, cb);
    let hcc = q_mul(h, cc);
    let nn = q_add(q_mul(q_int(2), mb), ma);
    let ccm = q_mul(q_add(cb, ca), hm);
    let cc3 = q_mul(q_int(3), ccm);
    let am = q_mul(hm, q_add(cb, q_mul(q_int(2), ca)));
    let row = q_add(
        q_mul(hm, ca),
        q_add(q_mul(q_mul(q_int(2), q_add(hm, h)), cb), q_mul(h, cc)),
    );
    let aj = q_mul(h, q_add(cc, q_mul(q_int(2), cb)));

    lemma_q_ops_wf(cb, hm);
    lemma_q_ops_wf(ca, hm);
    lemma_q_ops_wf(h, cb);
    lemma_q_ops_wf(h, cc);
    lemma_q_ops_wf(q_int(2), mb);
    lemma_q_ops_wf(q_int(2), ma);
    lemma_q_ops_wf(q_int(3), mb);
    lemma_q_ops_wf(q_int(3), ma);
    lemma_q_ops_wf(q_int(2), hcb);
    lemma_q_ops_wf(q_mul(q_int(2), mb), ma);
    lemma_q_ops_wf(cb, ca);
    lemma_q_ops_wf(q_add(cb, ca), hm);
    lemma_q_ops_wf(q_int(3), ccm);
    lemma_q_ops_wf(q_int(2), ca);
    lemma_q_ops_wf(cb, q_mul(q_int(2), ca));
    lemma_q_ops_wf(hm, q_add(cb, q_mul(q_int(2), ca)));
    lemma_q_ops_wf(hm, ca);
    lemma_q_ops_wf(hm, h);
    lemma_q_ops_wf(q_int(2), q_add(hm, h));
    lemma_q_ops_wf(q_mul(q_int(2), q_add(hm, h)), cb);
    lemma_q_ops_wf(q_mul(q_mul(q_int(2), q_add(hm, h)), cb), q_mul(h, cc));
    lemma_q_ops_wf(q_mul(hm, ca), q_add(q_mul(q_mul(q_int(2), q_add(hm, h)), cb), q_mul(h, cc)));
    lemma_q_ops_wf(q_int(2), cb);
    lemma_q_ops_wf(cc, q_mul(q_int(2), cb));
    lemma_q_ops_wf(h, q_add(cc, q_mul(q_int(2), cb)));
    lemma_q_ops_wf(q_mul(q_int(3), mb), q_mul(q_int(3), ma));
    lemma_q_ops_wf(mb, q_mul(q_int(2), ma));
    lemma_q_ops_wf(mb, ma);
    lemma_q_ops_wf(mb, hcb);
    lemma_q_ops_wf(q_int(2), q_add(mb, hcb));
    lemma_q_ops_wf(q_mul(q_int(2), mb), q_mul(q_int(2), hcb));
    lemma_q_ops_wf(q_add(q_mul(q_int(2), mb), q_mul(q_int(2), hcb)), hcc);
    lemma_q_ops_wf(ma, q_add(q_add(q_mul(q_int(2), mb), q_mul(q_int(2), hcb)), hcc));
    lemma_q_ops_wf(hcc, q_mul(q_int(2), hcb));
    lemma_q_ops_wf(hcb, hcc);
    lemma_q_ops_wf(hcc, hcb);

    // The left side: 3 (cB + cA) hm  minus  hm (cB + 2 cA)  is  nn.
    let s3 = q_add(q_mul(q_int(3), mb), q_mul(q_int(3), ma));
    let amp = q_add(mb, q_mul(q_int(2), ma));
    lemma_q_add_dist_r(hm, cb, ca);
    lemma_q_mul_cong(q_int(3), ccm, q_int(3), q_add(mb, ma));
    lemma_q_mul_add_dist(q_int(3), mb, ma);
    lemma_q_ops_wf(q_int(3), q_add(mb, ma));
    lemma_q_eq_trans(cc3, q_mul(q_int(3), q_add(mb, ma)), s3);
    lemma_q_mul_add_dist(hm, cb, q_mul(q_int(2), ca));
    lemma_q_mul_comm(hm, cb);
    lemma_q_pull_two(hm, ca);
    lemma_q_mul_comm(hm, ca);
    lemma_q_mul_cong(q_int(2), q_mul(hm, ca), q_int(2), ma);
    lemma_q_ops_wf(hm, q_mul(q_int(2), ca));
    lemma_q_ops_wf(q_int(2), q_mul(hm, ca));
    lemma_q_eq_trans(q_mul(hm, q_mul(q_int(2), ca)), q_mul(q_int(2), q_mul(hm, ca)),
        q_mul(q_int(2), ma));
    lemma_q_ops_wf(hm, cb);
    lemma_q_add_cong(q_mul(hm, cb), q_mul(hm, q_mul(q_int(2), ca)), mb, q_mul(q_int(2), ma));
    lemma_q_ops_wf(q_mul(hm, cb), q_mul(hm, q_mul(q_int(2), ca)));
    lemma_q_eq_trans(am, q_add(q_mul(hm, cb), q_mul(hm, q_mul(q_int(2), ca))), amp);
    lemma_q_coeff_collect(mb, ma);
    lemma_q_sub_move(nn, amp, s3);
    lemma_q_sub_cong(cc3, am, s3, amp);
    lemma_q_ops_wf(cc3, am);
    lemma_q_ops_wf(s3, amp);
    lemma_q_eq_sym(nn, q_sub(s3, amp));
    lemma_q_eq_trans(q_sub(cc3, am), q_sub(s3, amp), nn);

    // The right side: the row minus the next segment's correction is nn
    // as well.
    let a2 = q_mul(q_int(2), mb);
    let d2 = q_mul(q_int(2), hcb);
    let rp = q_add(ma, q_add(q_add(a2, d2), hcc));
    let ajp = q_add(hcc, d2);
    lemma_q_mul_comm(hm, ca);
    lemma_q_mul_assoc(q_int(2), q_add(hm, h), cb);
    lemma_q_eq_sym(
        q_mul(q_int(2), q_mul(q_add(hm, h), cb)),
        q_mul(q_mul(q_int(2), q_add(hm, h)), cb),
    );
    lemma_q_add_dist_r(cb, hm, h);
    lemma_q_mul_comm(hm, cb);
    lemma_q_add_cong(q_mul(hm, cb), q_mul(h, cb), mb, hcb);
    lemma_q_ops_wf(q_mul(hm, cb), q_mul(h, cb));
    lemma_q_ops_wf(q_add(hm, h), cb);
    lemma_q_eq_trans(q_mul(q_add(hm, h), cb), q_add(q_mul(hm, cb), q_mul(h, cb)),
        q_add(mb, hcb));
    lemma_q_mul_cong(q_int(2), q_mul(q_add(hm, h), cb), q_int(2), q_add(mb, hcb));
    lemma_q_mul_add_dist(q_int(2), mb, hcb);
    lemma_q_ops_wf(q_int(2), q_mul(q_add(hm, h), cb));
    lemma_q_eq_trans(
        q_mul(q_mul(q_int(2), q_add(hm, h)), cb),
        q_mul(q_int(2), q_mul(q_add(hm, h), cb)),
        q_mul(q_int(2), q_add(mb, hcb)),
    );
    lemma_q_eq_trans(
        q_mul(q_mul(q_int(2), q_add(hm, h)), cb),
        q_mul(q_int(2), q_add(mb, hcb)),
        q_add(a2, d2),
    );
    lemma_q_add_cong(
        q_mul(q_mul(q_int(2), q_add(hm, h)), cb),
        q_mul(h, cc),
        q_add(a2, d2),
        hcc,
    );
    lemma_q_ops_wf(q_add(a2, d2), hcc);
    lemma_q_add_cong(
        q_mul(hm, ca),
        q_add(q_mul(q_mul(q_int(2), q_add(hm, h)), cb), q_mul(h, cc)),
        ma,
        q_add(q_add(a2, d2), hcc),
    );
    lemma_q_eq_trans(row,
        q_add(ma, q_add(q_add(a2, d2), hcc)),
        rp,
    );
    lemma_q_mul_add_dist(h, cc, q_mul(q_int(2), cb));
    lemma_q_pull_two(h, cb);
    lemma_q_add_cong(q_mul(h, cc), q_mul(h, q_mul(q_int(2), cb)), hcc, d2);
    lemma_q_ops_wf(h, q_mul(q_int(2), cb));
    lemma_q_eq_trans(aj, q_add(q_mul(h, cc), q_mul(h, q_mul(q_int(2), cb))), ajp);
    // nn + ajp equals rp, by pure regrouping.
    lemma_q_add_shuffle(a2, ma, q_add(hcc, d2));
    lemma_q_add_rotate(a2, hcc, d2);
    lemma_q_add_comm(hcc, q_add(a2, d2));
    lemma_q_ops_wf(a2, q_add(hcc, d2));
    lemma_q_ops_wf(hcc, q_add(a2, d2));
    lemma_q_ops_wf(a2, d2);
    lemma_q_ops_wf(q_add(a2, d2), hcc);
    lemma_q_add_cong(ma, q_add(a2, q_add(hcc, d2)), ma, q_add(hcc, q_add(a2, d2)));
    lemma_q_add_cong(ma, q_add(hcc, q_add(a2, d2)), ma, q_add(q_add(a2, d2), hcc));
    lemma_q_ops_wf(ma, q_add(a2, q_add(hcc, d2)));
    lemma_q_ops_wf(ma, q_add(hcc, q_add(a2, d2)));
    lemma_q_ops_wf(ma, q_add(q_add(a2, d2), hcc));
    lemma_q_ops_wf(nn, ajp);
    lemma_q_eq_trans(
        q_add(nn, ajp),
        q_add(ma, q_add(a2, q_add(hcc, d2))),
        q_add(ma, q_add(hcc, q_add(a2, d2))),
    );
    lemma_q_eq_trans(
        q_add(nn, ajp),
        q_add(ma, q_add(hcc, q_add(a2, d2))),
        rp,
    );
    lemma_q_sub_move(nn, ajp, rp);
    lemma_q_eq_sym(nn, q_sub(rp, ajp));
    lemma_q_sub_cong(row, aj, rp, ajp);
    lemma_q_ops_wf(row, aj);
    lemma_q_ops_wf(rp, ajp);
    lemma_q_eq_trans(q_sub(row, aj), q_sub(rp, ajp), nn);
    // Chain the two sides together.
    lemma_q_eq_sym(q_sub(row, aj), nn);
    lemma_q_eq_trans(q_sub(cc3, am), nn, q_sub(row, aj));
}

/// FIRST-DERIVATIVE CONTINUITY: at each interior knot `x_j`, the left
/// segment's derivative at its right end equals the right segment's
/// derivative at its left end — both are exactly `b_j`.  This is where
/// the tridiagonal system earns its keep: the equality holds because the
/// quadratic coefficients satisfy row `j`.
pub proof fn lemma_d1_continuity(
    xs: Seq<Q>,
    ys: Seq<Q>,
    a: Seq<Q>,
    b: Seq<Q>,
    c: Seq<Q>,
    d: Seq<Q>,
    j: int,
)
    requires
        qs_wf(xs),
        qs_wf(ys),
        q_inc(xs),
        xs.len() >= 2,
        ys.len() == xs.len(),
        spline_coeffs_ok(xs, ys, a, b, c, d),
        1 <= j < xs.len() - 1,
    ensures
        q_eq(spline_d1(b, c, d, j - 1, h_of(xs, j - 1)), spline_d1(b, c, d, j, q_zero())),
        q_eq(spline_d1(b, c, d, j - 1, h_of(xs, j - 1)), b[j]),
{
    let i = j - 1;
    let hm = h_of(xs, i);
    let h = h_of(xs, j);
    assert(q_lt(xs[i], xs[i + 1]));
    assert(q_lt(xs[j], xs[j + 1]));
    lemma_q_sub_pos(xs[i], xs[i + 1]);
    lemma_q_sub_pos(xs[j], xs[j + 1]);
    let ca = c[i];
    let cb = c[j];
    let ccv = c[j + 1];
    assert(q_wf(ca) && q_wf(cb) && q_wf(ccv));
    assert(q_eq(b[i], b_of(xs, ys, c, i)));
    assert(q_eq(b[j], b_of(xs, ys, c, j)));
    assert(q_eq(d[i], d_of(xs, c, i)));
    assert(q_eq(row_at(xs, c, j), rhs_of(xs, ys, j)));
    lemma_rhs_wf(xs, ys, j);
    let dy = q_sub(ys[j], ys[i]);
    let dyp = q_sub(ys[j + 1], ys[j]);
    let t1m = q_div(dy, hm);
    let gm = q_add(cb, q_mul(q_int(2), ca));
    let t2m = q_div(q_mul(hm, gm), q_int(3));
    let bofm = q_sub(t1m, t2m);
    let dofm = q_div(q_sub(cb, ca), q_mul(q_int(3), hm));
    let t1j = q_div(dyp, h);
    let gj = q_add(ccv, q_mul(q_int(2), cb));
    let t2j = q_div(q_mul(h, gj), q_int(3));
    let bofj = q_sub(t1j, t2j);
    let hm2 = q_mul(hm, hm);
    let ccm = q_mul(q_add(cb, ca), hm);
    let cc3 = q_mul(q_int(3), ccm);
    let am = q_mul(hm, gm);
    let aj = q_mul(h, gj);
    let p = q_mul(q_int(3), t1m);
    let pj = q_mul(q_int(3), t1j);
    let ll = q_add(bofm, ccm);
    let row = row_at(xs, c, j);
    assert(bofm == b_of(xs, ys, c, i));
    assert(bofj == b_of(xs, ys, c, j));
    assert(dofm == d_of(xs, c, i));

    lemma_q_ops_wf(ys[j], ys[i]);
    lemma_q_ops_wf(ys[j + 1], ys[j]);
    lemma_q_ops_wf(dy, hm);
    lemma_q_ops_wf(dyp, h);
    lemma_q_ops_wf(q_int(2), ca);
    lemma_q_ops_wf(q_int(2), cb);
    lemma_q_ops_wf(cb, q_mul(q_int(2), ca));
    lemma_q_ops_wf(ccv, q_mul(q_int(2), cb));
    lemma_q_ops_wf(hm, gm);
    lemma_q_ops_wf(h, gj);
    lemma_q_ops_wf(q_mul(hm, gm), q_int(3));
    lemma_q_ops_wf(q_mul(h, gj), q_int(3));
    lemma_q_ops_wf(t1m, t2m);
    lemma_q_ops_wf(t1j, t2j);
    lemma_q_ops_wf(cb, ca);
    assert(q_mul(q_int(3), hm).n != 0);
    lemma_q_ops_wf(q_int(3), hm);
    lemma_q_ops_wf(q_sub(cb, ca), q_mul(q_int(3), hm));
    lemma_q_ops_wf(hm, hm);
    lemma_q_ops_wf(cb, ca);
    lemma_q_ops_wf(q_add(cb, ca), hm);
    lemma_q_ops_wf(q_int(3), ccm);
    lemma_q_ops_wf(q_int(3), t1m);
    lemma_q_ops_wf(q_int(3), t1j);
    lemma_q_ops_wf(bofm, ccm);
    lemma_q_ops_wf(q_int(3), bofm);
    lemma_q_ops_wf(q_int(3), bofj);
    lemma_q_ops_wf(q_int(3), t2m);
    lemma_q_ops_wf(q_int(3), t2j);
    lemma_q_ops_wf(p, am);
    lemma_q_ops_wf(q_sub(p, am), cc3);
    lemma_q_ops_wf(cc3, am);
    lemma_q_ops_wf(p, q_sub(cc3, am));
    assert(q_wf(row)) by {
        lemma_q_ops_wf(hm, ca);
        lemma_q_ops_wf(hm, h);
        lemma_q_ops_wf(q_int(2), q_add(hm, h));
        lemma_q_ops_wf(q_mul(q_int(2), q_add(hm, h)), cb);
        lemma_q_ops_wf(h, ccv);
        lemma_q_ops_wf(q_mul(q_mul(q_int(2), q_add(hm, h)), cb), q_mul(h, ccv));
        lemma_q_ops_wf(
            q_mul(hm, ca),
            q_add(q_mul(q_mul(q_int(2), q_add(hm, h)), cb), q_mul(h, ccv)),
        );
    }
    lemma_q_ops_wf(row, aj);
    lemma_q_ops_wf(p, q_sub(row, aj));
    lemma_q_ops_wf(row, p);
    lemma_q_ops_wf(q_add(row, p), aj);
    lemma_q_ops_wf(pj, aj);
    lemma_q_ops_wf(pj, p);
    lemma_q_ops_wf(q_int(3), ll);

    // The left derivative collapses to `bofm + (cB + cA) hm`.
    let t2 = q_mul(q_mul(q_int(2), ca), hm);
    let t3term = q_mul(q_mul(q_int(3), d[i]), hm2);
    let xh = q_mul(q_sub(cb, ca), hm);
    lemma_q_ops_wf(q_mul(q_int(2), ca), hm);
    lemma_q_ops_wf(q_int(3), d[i]);
    lemma_q_ops_wf(q_mul(q_int(3), d[i]), hm2);
    lemma_q_ops_wf(q_sub(cb, ca), hm);
    lemma_q_ops_wf(q_int(3), dofm);
    lemma_q_ops_wf(q_mul(q_int(3), dofm), hm2);
    lemma_q_mul_cong(q_int(3), d[i], q_int(3), dofm);
    lemma_q_mul_cong(q_mul(q_int(3), d[i]), hm2, q_mul(q_int(3), dofm), hm2);
    lemma_q_three_div_sq(q_sub(cb, ca), hm);
    lemma_q_eq_trans(t3term, q_mul(q_mul(q_int(3), dofm), hm2), xh);
    lemma_q_add_cong(t2, t3term, t2, xh);
    lemma_q_ops_wf(t2, t3term);
    lemma_q_ops_wf(t2, xh);
    lemma_q_add_dist_r(hm, q_mul(q_int(2), ca), q_sub(cb, ca));
    lemma_q_eq_sym(
        q_mul(q_add(q_mul(q_int(2), ca), q_sub(cb, ca)), hm),
        q_add(t2, xh),
    );
    lemma_q_two_plus_diff(ca, cb);
    lemma_q_ops_wf(q_mul(q_int(2), ca), q_sub(cb, ca));
    lemma_q_mul_cong(
        q_add(q_mul(q_int(2), ca), q_sub(cb, ca)),
        hm,
        q_add(cb, ca),
        hm,
    );
    lemma_q_ops_wf(q_add(q_mul(q_int(2), ca), q_sub(cb, ca)), hm);
    lemma_q_eq_trans(
        q_add(t2, t3term),
        q_add(t2, xh),
        q_mul(q_add(q_mul(q_int(2), ca), q_sub(cb, ca)), hm),
    );
    lemma_q_eq_trans(
        q_add(t2, t3term),
        q_mul(q_add(q_mul(q_int(2), ca), q_sub(cb, ca)), hm),
        ccm,
    );
    lemma_q_add_cong(b[i], q_add(t2, t3term), bofm, ccm);
    lemma_q_ops_wf(b[i], q_add(t2, t3term));
    assert(spline_d1(b, c, d, i, hm) == q_add(b[i], q_add(t2, t3term)));
    assert(q_eq(spline_d1(b, c, d, i, hm), ll));

    // Three times each side, to clear the divisions by three.
    lemma_q_mul_add_dist(q_int(3), bofm, ccm);
    lemma_q_mul_sub_dist(q_int(3), t1m, t2m);
    lemma_q_div_mul(q_mul(hm, gm), q_int(3));
    lemma_q_mul_comm(q_int(3), t2m);
    lemma_q_ops_wf(t2m, q_int(3));
    lemma_q_eq_trans(q_mul(q_int(3), t2m), q_mul(t2m, q_int(3)), am);
    lemma_q_sub_cong(p, q_mul(q_int(3), t2m), p, am);
    lemma_q_ops_wf(p, q_mul(q_int(3), t2m));
    lemma_q_eq_trans(q_mul(q_int(3), bofm), q_sub(p, q_mul(q_int(3), t2m)), q_sub(p, am));
    lemma_q_add_cong(
        q_mul(q_int(3), bofm),
        cc3,
        q_sub(p, am),
        cc3,
    );
    lemma_q_ops_wf(q_mul(q_int(3), bofm), cc3);
    lemma_q_eq_trans(
        q_mul(q_int(3), ll),
        q_add(q_mul(q_int(3), bofm), cc3),
        q_add(q_sub(p, am), cc3),
    );
    lemma_q_sub_add_swap(p, am, cc3);
    lemma_q_eq_trans(q_mul(q_int(3), ll), q_add(q_sub(p, am), cc3), q_add(p, q_sub(cc3, am)));
    lemma_d1_balance(hm, h, ca, cb, ccv);
    lemma_q_add_cong(p, q_sub(cc3, am), p, q_sub(row, aj));
    lemma_q_eq_trans(
        q_mul(q_int(3), ll),
        q_add(p, q_sub(cc3, am)),
        q_add(p, q_sub(row, aj)),
    );
    lemma_q_add_sub_assoc(row, p, aj);
    lemma_q_eq_sym(q_sub(q_add(row, p), aj), q_add(p, q_sub(row, aj)));
    lemma_q_eq_trans(
        q_mul(q_int(3), ll),
        q_add(p, q_sub(row, aj)),
        q_sub(q_add(row, p), aj),
    );
    // Row j rewritten through the swept right-hand side.
    lemma_q_mul_div_commute3(dyp, h);
    lemma_q_mul_div_commute3(dy, hm);
    lemma_q_ops_wf(q_int(3), dyp);
    lemma_q_ops_wf(q_int(3), dy);
    lemma_q_ops_wf(q_mul(q_int(3), dyp), h);
    lemma_q_ops_wf(q_mul(q_int(3), dy), hm);
    lemma_q_sub_cong(
        q_div(q_mul(q_int(3), dyp), h),
        q_div(q_mul(q_int(3), dy), hm),
        pj,
        p,
    );
    lemma_q_ops_wf(q_div(q_mul(q_int(3), dyp), h), q_div(q_mul(q_int(3), dy), hm));
    assert(rhs_of(xs, ys, j) == q_sub(q_div(q_mul(q_int(3), dyp), h), q_div(q_mul(q_int(3), dy), hm)));
    lemma_q_eq_trans(row, rhs_of(xs, ys, j), q_sub(pj, p));
    lemma_q_sub_move(row, p, pj);
    lemma_q_eq_sym(q_add(row, p), pj);
    lemma_q_sub_cong(q_add(row, p), aj, pj, aj);
    lemma_q_eq_trans(q_mul(q_int(3), ll), q_sub(q_add(row, p), aj), q_sub(pj, aj));
    // Three times the next linear coefficient is the same value.
    lemma_q_mul_sub_dist(q_int(3), t1j, t2j);
    lemma_q_div_mul(q_mul(h, gj), q_int(3));
    lemma_q_mul_comm(q_int(3), t2j);
    lemma_q_ops_wf(t2j, q_int(3));
    lemma_q_eq_trans(q_mul(q_int(3), t2j), q_mul(t2j, q_int(3)), aj);
    lemma_q_sub_cong(pj, q_mul(q_int(3), t2j), pj, aj);
    lemma_q_ops_wf(pj, q_mul(q_int(3), t2j));
    lemma_q_eq_trans(q_mul(q_int(3), bofj), q_sub(pj, q_mul(q_int(3), t2j)), q_sub(pj, aj));
    lemma_q_eq_sym(q_mul(q_int(3), bofj), q_sub(pj, aj));
    lemma_q_eq_trans(q_mul(q_int(3), ll), q_sub(pj, aj), q_mul(q_int(3), bofj));
    lemma_q_mul_cancel(ll, bofj, q_int(3));
    // Assemble both ensured equalities.
    lemma_q_eq_trans(spline_d1(b, c, d, i, hm), ll, bofj);
    lemma_q_eq_sym(b[j], bofj);
    lemma_q_eq_trans(spline_d1(b, c, d, i, hm), bofj, b[j]);
    assert(q_wf(b[j]) && q_wf(d[j]));
    lemma_d1_at_zero(b, c, d, j);
    lemma_q_eq_sym(spline_d1(b, c, d, j, q_zero()), b[j]);
    lemma_q_ops_wf(q_int(2), cb);
    lemma_q_ops_wf(q_int(3), d[j]);
    lemma_q_ops_wf(q_zero(), q_zero());
    lemma_q_ops_wf(q_mul(q_int(2), cb), q_zero());
    lemma_q_ops_wf(q_mul(q_int(3), d[j]), q_mul(q_zero(), q_zero()));
    lemma_q_ops_wf(
        q_mul(q_mul(q_int(2), cb), q_zero()),
        q_mul(q_mul(q_int(3), d[j]), q_mul(q_zero(), q_zero())),
    );
    lemma_q_ops_wf(
        b[j],
        q_add(
            q_mul(q_mul(q_int(2), cb), q_zero()),
            q_mul(q_mul(q_int(3), d[j]), q_mul(q_zero(), q_zero())),
        ),
    );
    lemma_q_eq_trans(spline_d1(b, c, d, i, hm), b[j], spline_d1(b, c, d, j, q_zero()));
}

} // verus!
