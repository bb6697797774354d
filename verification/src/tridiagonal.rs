//! The natural cubic-spline tridiagonal system and its theory.
//!
//! For samples `(xs, ys)` with `n` intervals, the quadratic coefficients
//! `c` of the natural cubic spline are the unique solution of
//!
//! ```text
//! c_0 = 0,  c_n = 0,
//! h_{i-1} c_{i-1} + 2(h_{i-1}+h_i) c_i + h_i c_{i+1} = rhs_i   (0 < i < n)
//! ```
//!
//! with `h_i = x_{i+1} - x_i` and
//! `rhs_i = 3(y_{i+1}-y_i)/h_i - 3(y_i-y_{i-1})/h_{i-1}`.
//!
//! The lemmas here connect this system to the Thomas-algorithm sweep
//! (`th_l`, `th_u`, `th_z`): every solution of the system satisfies the
//! sweep's back-substitution relation, and the system therefore has at
//! most one solution up to `q_eq`.  The linear-coefficient and cubic-
//! coefficient formulas `b_of` and `d_of` complete the description of the
//! spline coefficients.

use vstd::prelude::*;
use crate::rational::{Q, q_wf, q_eq, q_add, q_sub, q_mul, q_div, q_int, q_zero, q_one, q_lt,
    q_le, qs_wf, q_inc};
use crate::algebra::{lemma_q_eq_sym, lemma_q_eq_trans, lemma_q_add_cong, lemma_q_sub_cong,
    lemma_q_mul_cong, lemma_q_div_mul, lemma_q_mul_cancel, lemma_q_lt_cong, lemma_q_lt_trans, lemma_q_ops_wf, lemma_q_sub_pos, lemma_q_mul_sub_dist,
    lemma_q_mul_add_dist, lemma_q_add_dist_r, lemma_q_mul_assoc, lemma_q_mul_comm,
    lemma_q_add_move, lemma_q_sub_move, lemma_q_regroup, lemma_q_mul_lt_one,
    lemma_q_div_bounds, lemma_q_sub_split, lemma_q_sub_antimono, lemma_q_h_lt};

verus! {

/// Interval width `h_i = x_{i+1} - x_i`.
pub open spec fn h_of(xs: Seq<Q>, i: int) -> Q {
    q_sub(xs[i + 1], xs[i])
}

/// Right-hand side of interior row `i`:
/// `3 (y_{i+1} - y_i)/h_i - 3 (y_i - y_{i-1})/h_{i-1}`.
pub open spec fn rhs_of(xs: Seq<Q>, ys: Seq<Q>, i: int) -> Q {
    q_sub(
        q_div(q_mul(q_int(3), q_sub(ys[i + 1], ys[i])), h_of(xs, i)),
        q_div(q_mul(q_int(3), q_sub(ys[i], ys[i - 1])), h_of(xs, i - 1)),
    )
}

/// The left-hand side of interior row `i` of the system applied to `c`.
pub open spec fn row_at(xs: Seq<Q>, c: Seq<Q>, i: int) -> Q {
    q_add(
        q_mul(h_of(xs, i - 1), c[i - 1]),
        q_add(
            q_mul(q_mul(q_int(2), q_add(h_of(xs, i - 1), h_of(xs, i))), c[i]),
            q_mul(h_of(xs, i), c[i + 1]),
        ),
    )
}

/// `c` solves the natural cubic-spline system for the samples `(xs, ys)`.
pub open spec fn is_natural_c(xs: Seq<Q>, ys: Seq<Q>, c: Seq<Q>) -> bool {
    &&& c.len() == xs.len()
    &&& qs_wf(c)
    &&& q_eq(c[0], q_zero())
    &&& q_eq(c[c.len() - 1], q_zero())
    &&& forall|i: int|
        1 <= i < c.len() - 1 ==> q_eq(#[trigger] row_at(xs, c, i), rhs_of(xs, ys, i))
}

/// The linear coefficient of segment `j`:
/// `b_j = (y_{j+1} - y_j)/h_j - h_j (c_{j+1} + 2 c_j) / 3`.
pub open spec fn b_of(xs: Seq<Q>, ys: Seq<Q>, c: Seq<Q>, j: int) -> Q {
    q_sub(
        q_div(q_sub(ys[j + 1], ys[j]), h_of(xs, j)),
        q_div(q_mul(h_of(xs, j), q_add(c[j + 1], q_mul(q_int(2), c[j]))), q_int(3)),
    )
}

/// The cubic coefficient of segment `j`: `d_j = (c_{j+1} - c_j)/(3 h_j)`.
pub open spec fn d_of(xs: Seq<Q>, c: Seq<Q>, j: int) -> Q {
    q_div(q_sub(c[j + 1], c[j]), q_mul(q_int(3), h_of(xs, j)))
}

/// The four coefficient sequences describe the natural cubic spline of
/// the samples `(xs, ys)`: `a` copies the ordinates, `c` solves the
/// natural system, and `b`, `d` follow from `c` by the closed formulas.
pub open spec fn spline_coeffs_ok(
    xs: Seq<Q>,
    ys: Seq<Q>,
    a: Seq<Q>,
    b: Seq<Q>,
    c: Seq<Q>,
    d: Seq<Q>,
) -> bool {
    let n = xs.len() - 1;
    &&& a.len() == n + 1
    &&& b.len() == n
    &&& c.len() == n + 1
    &&& d.len() == n
    &&& qs_wf(a)
    &&& qs_wf(b)
    &&& qs_wf(d)
    &&& (forall|i: int| 0 <= i <= n ==> q_eq(#[trigger] a[i], ys[i]))
    &&& is_natural_c(xs, ys, c)
    &&& (forall|j: int| 0 <= j < n ==> q_eq(#[trigger] b[j], b_of(xs, ys, c, j)))
    &&& (forall|j: int| 0 <= j < n ==> q_eq(#[trigger] d[j], d_of(xs, c, j)))
}

/// Diagonal entry of the Thomas sweep.  `th_l(i)` is the pivot left in
/// row `i` after eliminating the sub-diagonal.
pub open spec fn th_l(xs: Seq<Q>, i: int) -> Q
    decreases i, 0int,
{
    if i <= 0 {
        q_one()
    } else {
        q_sub(
            q_mul(q_int(2), q_sub(xs[i + 1], xs[i - 1])),
            q_mul(h_of(xs, i - 1), th_u(xs, i - 1)),
        )
    }
}

/// Upper-diagonal multiplier of the Thomas sweep: `u_i = h_i / l_i`.
pub open spec fn th_u(xs: Seq<Q>, i: int) -> Q
    decreases i, 1int,
{
    if i <= 0 {
        q_zero()
    } else {
        q_div(h_of(xs, i), th_l(xs, i))
    }
}

/// Transformed right-hand side of the Thomas sweep:
/// `z_i = (rhs_i - h_{i-1} z_{i-1}) / l_i`.
pub open spec fn th_z(xs: Seq<Q>, ys: Seq<Q>, i: int) -> Q
    decreases i,
{
    if i <= 0 {
        q_zero()
    } else {
        q_div(q_sub(rhs_of(xs, ys, i), q_mul(h_of(xs, i - 1), th_z(xs, ys, i - 1))), th_l(xs, i))
    }
}

/// The two ways of writing the eliminated diagonal agree:
/// `2(x_{i+1} - x_{i-1})` equals `2(h_{i-1} + h_i)`.
pub proof fn lemma_l_form(xs: Seq<Q>, i: int, up: Q)
    requires
        qs_wf(xs),
        1 <= i < xs.len() - 1,
        q_wf(up),
    ensures
        q_eq(
            q_sub(q_mul(q_int(2), q_sub(xs[i + 1], xs[i - 1])), q_mul(h_of(xs, i - 1), up)),
            q_sub(
                q_mul(q_int(2), q_add(h_of(xs, i - 1), h_of(xs, i))),
                q_mul(h_of(xs, i - 1), up),
            ),
        ),
{
    let hm = h_of(xs, i - 1);
    let h = h_of(xs, i);
    lemma_q_ops_wf(xs[i], xs[i - 1]);
    lemma_q_ops_wf(xs[i + 1], xs[i]);
    lemma_q_ops_wf(xs[i + 1], xs[i - 1]);
    lemma_q_ops_wf(hm, h);
    lemma_q_ops_wf(hm, up);
    lemma_q_sub_split(xs[i - 1], xs[i], xs[i + 1]);
    lemma_q_eq_sym(q_add(hm, h), q_sub(xs[i + 1], xs[i - 1]));
    lemma_q_mul_cong(q_int(2), q_sub(xs[i + 1], xs[i - 1]), q_int(2), q_add(hm, h));
    lemma_q_ops_wf(q_int(2), q_sub(xs[i + 1], xs[i - 1]));
    lemma_q_ops_wf(q_int(2), q_add(hm, h));
    lemma_q_sub_cong(
        q_mul(q_int(2), q_sub(xs[i + 1], xs[i - 1])),
        q_mul(hm, up),
        q_mul(q_int(2), q_add(hm, h)),
        q_mul(hm, up),
    );
}

/// Positivity of the eliminated pivot: with `0 < h_{i-1}`, `0 < h_i` and
/// a multiplier `u_{i-1}` in `[0, 1)`, the pivot `l` satisfies
/// `h_i < l`, so it is positive and in particular nonzero.
pub proof fn lemma_thomas_l_pos(hm: Q, h: Q, up: Q, l: Q)
    requires
        q_wf(hm),
        q_wf(h),
        q_wf(up),
        q_wf(l),
        q_lt(q_zero(), hm),
        q_lt(q_zero(), h),
        q_le(q_zero(), up),
        q_lt(up, q_one()),
        q_eq(l, q_sub(q_mul(q_int(2), q_add(hm, h)), q_mul(hm, up))),
    ensures
        q_lt(q_zero(), l),
        q_lt(h, l),
        l.n > 0,
{
    let dg = q_mul(q_int(2), q_add(hm, h));
    let w = q_mul(hm, up);
    lemma_q_ops_wf(hm, h);
    lemma_q_ops_wf(q_int(2), q_add(hm, h));
    lemma_q_ops_wf(hm, up);
    lemma_q_ops_wf(dg, w);
    lemma_q_ops_wf(dg, hm);
    lemma_q_mul_lt_one(hm, up);
    if q_lt(w, hm) {
        lemma_q_sub_antimono(dg, w, hm);
    }
    lemma_q_h_lt(hm, h);
    lemma_q_lt_trans(h, q_sub(dg, hm), q_sub(dg, w));
    lemma_q_lt_trans(q_zero(), h, q_sub(dg, w));
    lemma_q_eq_sym(l, q_sub(dg, w));
    lemma_q_lt_cong(h, q_sub(dg, w), h, l);
    lemma_q_lt_cong(q_zero(), q_sub(dg, w), q_zero(), l);
}

/// The elimination-step equivalence.  Given the defining relations of one
/// Thomas step — the pivot `l`, the multiplier `u`, the swept right-hand
/// side `z`, and the back-substitution relation for `c_{i-1}` — row `i`
/// of the system holds exactly when `c_i` satisfies its own
/// back-substitution relation `c_i = z_i - u_i c_{i+1}`.
pub proof fn lemma_row_equiv(
    hm: Q,
    h: Q,
    up: Q,
    zp: Q,
    l: Q,
    u: Q,
    z: Q,
    cm: Q,
    c: Q,
    cp: Q,
    k: Q,
)
    requires
        q_wf(hm),
        q_wf(h),
        q_wf(up),
        q_wf(zp),
        q_wf(l),
        q_wf(u),
        q_wf(z),
        q_wf(cm),
        q_wf(c),
        q_wf(cp),
        q_wf(k),
        l.n != 0,
        q_eq(l, q_sub(q_mul(q_int(2), q_add(hm, h)), q_mul(hm, up))),
        q_eq(u, q_div(h, l)),
        q_eq(z, q_div(q_sub(k, q_mul(hm, zp)), l)),
        q_eq(cm, q_sub(zp, q_mul(up, c))),
    ensures
        q_eq(
            q_add(
                q_mul(hm, cm),
                q_add(q_mul(q_mul(q_int(2), q_add(hm, h)), c), q_mul(h, cp)),
            ),
            k,
        ) <==> q_eq(c, q_sub(z, q_mul(u, cp))),
{
    let dg = q_mul(q_int(2), q_add(hm, h));
    let w = q_mul(hm, up);
    let p = q_mul(hm, zp);
    let lc = q_mul(l, c);
    let r = q_mul(h, cp);
    let upc = q_mul(up, c);
    let wc = q_mul(w, c);
    let ucp = q_mul(u, cp);
    let row = q_add(q_mul(hm, cm), q_add(q_mul(dg, c), r));
    let bb = q_add(p, q_add(lc, r));
    let s = q_add(lc, r);
    let km = q_sub(k, p);

    lemma_q_ops_wf(hm, h);
    lemma_q_ops_wf(q_int(2), q_add(hm, h));
    lemma_q_ops_wf(hm, up);
    lemma_q_ops_wf(hm, zp);
    lemma_q_ops_wf(l, c);
    lemma_q_ops_wf(h, cp);
    lemma_q_ops_wf(up, c);
    lemma_q_ops_wf(w, c);
    lemma_q_ops_wf(u, cp);
    lemma_q_ops_wf(hm, cm);
    lemma_q_ops_wf(dg, c);
    lemma_q_ops_wf(k, p);
    lemma_q_ops_wf(zp, upc);
    lemma_q_ops_wf(hm, upc);
    lemma_q_ops_wf(p, wc);
    lemma_q_ops_wf(lc, wc);
    lemma_q_ops_wf(q_add(lc, wc), r);
    lemma_q_ops_wf(q_sub(p, wc), q_add(q_add(lc, wc), r));
    lemma_q_ops_wf(q_mul(dg, c), r);
    lemma_q_ops_wf(lc, r);
    lemma_q_ops_wf(p, s);
    lemma_q_ops_wf(l, w);
    lemma_q_ops_wf(c, ucp);
    lemma_q_ops_wf(l, q_add(c, ucp));
    lemma_q_ops_wf(z, ucp);
    lemma_q_ops_wf(l, u);
    lemma_q_ops_wf(l, z);
    lemma_q_ops_wf(km, l);
    lemma_q_ops_wf(q_div(km, l), l);
    lemma_q_ops_wf(q_mul(q_div(km, l), l), q_zero());

    // row equals  p - w c + ((l c + w c) + r)  equals  p + (l c + r).
    lemma_q_ops_wf(hm, q_sub(zp, upc));
    lemma_q_ops_wf(h, l);
    lemma_q_mul_cong(hm, cm, hm, q_sub(zp, upc));
    lemma_q_mul_sub_dist(hm, zp, upc);
    lemma_q_mul_assoc(hm, up, c);
    lemma_q_sub_cong(p, q_mul(hm, upc), p, wc);
    lemma_q_ops_wf(p, q_mul(hm, upc));
    lemma_q_eq_trans(q_mul(hm, cm), q_mul(hm, q_sub(zp, upc)), q_sub(p, q_mul(hm, upc)));
    lemma_q_eq_trans(q_mul(hm, cm), q_sub(p, q_mul(hm, upc)), q_sub(p, wc));

    lemma_q_sub_move(l, w, dg);
    lemma_q_eq_sym(q_add(l, w), dg);
    lemma_q_mul_cong(dg, c, q_add(l, w), c);
    lemma_q_add_dist_r(c, l, w);
    lemma_q_ops_wf(q_add(l, w), c);
    lemma_q_eq_trans(q_mul(dg, c), q_mul(q_add(l, w), c), q_add(lc, wc));
    lemma_q_add_cong(q_mul(dg, c), r, q_add(lc, wc), r);
    lemma_q_add_cong(q_mul(hm, cm), q_add(q_mul(dg, c), r), q_sub(p, wc),
        q_add(q_add(lc, wc), r));
    lemma_q_regroup(p, wc, lc, r);
    lemma_q_ops_wf(q_mul(hm, cm), q_add(q_mul(dg, c), r));
    lemma_q_eq_trans(row, q_add(q_sub(p, wc), q_add(q_add(lc, wc), r)), bb);

    // l z  equals  k - p.
    lemma_q_div_mul(km, l);
    lemma_q_mul_cong(z, l, q_div(km, l), l);
    lemma_q_ops_wf(z, l);
    lemma_q_eq_trans(q_mul(z, l), q_mul(q_div(km, l), l), km);
    lemma_q_mul_comm(l, z);
    lemma_q_eq_trans(q_mul(l, z), q_mul(z, l), km);

    // l u  equals  h.
    lemma_q_div_mul(h, l);
    lemma_q_mul_cong(u, l, q_div(h, l), l);
    lemma_q_ops_wf(u, l);
    lemma_q_ops_wf(q_div(h, l), l);
    lemma_q_eq_trans(q_mul(u, l), q_mul(q_div(h, l), l), h);
    lemma_q_mul_comm(l, u);
    lemma_q_eq_trans(q_mul(l, u), q_mul(u, l), h);
    lemma_q_eq_sym(q_mul(l, u), h);

    // r equals l (u cp),  so  s equals l (c + u cp).
    lemma_q_mul_cong(h, cp, q_mul(l, u), cp);
    lemma_q_mul_assoc(l, u, cp);
    lemma_q_eq_sym(q_mul(l, q_mul(u, cp)), q_mul(q_mul(l, u), cp));
    lemma_q_ops_wf(q_mul(l, u), cp);
    lemma_q_ops_wf(l, ucp);
    lemma_q_eq_trans(r, q_mul(q_mul(l, u), cp), q_mul(l, ucp));
    lemma_q_add_cong(lc, r, lc, q_mul(l, ucp));
    lemma_q_mul_add_dist(l, c, ucp);
    lemma_q_eq_sym(q_mul(l, q_add(c, ucp)), q_add(lc, q_mul(l, ucp)));
    lemma_q_ops_wf(lc, q_mul(l, ucp));
    lemma_q_eq_trans(s, q_add(lc, q_mul(l, ucp)), q_mul(l, q_add(c, ucp)));

    // Chain of equivalences.
    lemma_q_add_move(p, s, k);
    lemma_q_sub_move(c, ucp, z);

    if q_eq(row, k) {
        lemma_q_eq_sym(row, bb);
        lemma_q_eq_trans(bb, row, k);
        // s == km
        assert(q_eq(s, km));
        lemma_q_eq_sym(s, q_mul(l, q_add(c, ucp)));
        lemma_q_eq_trans(q_mul(l, q_add(c, ucp)), s, km);
        lemma_q_eq_sym(q_mul(l, z), km);
        lemma_q_eq_trans(q_mul(l, q_add(c, ucp)), km, q_mul(l, z));
        lemma_q_mul_cancel(q_add(c, ucp), z, l);
        assert(q_eq(c, q_sub(z, ucp)));
    }
    if q_eq(c, q_sub(z, ucp)) {
        // c + u cp == z, so l (c + u cp) == l z == km, so s == km, so bb == k.
        lemma_q_mul_cong(l, q_add(c, ucp), l, z);
        lemma_q_eq_trans(s, q_mul(l, q_add(c, ucp)), q_mul(l, z));
        lemma_q_eq_trans(s, q_mul(l, z), km);
        assert(q_eq(q_add(p, s), k));
        lemma_q_eq_trans(row, bb, k);
    }
}

/// Every solution of the natural system satisfies the Thomas
/// back-substitution relation `c_i = z_i - u_i c_{i+1}`.
pub proof fn lemma_solution_backsub(xs: Seq<Q>, ys: Seq<Q>, c: Seq<Q>, i: int)
    requires
        qs_wf(xs),
        qs_wf(ys),
        q_inc(xs),
        xs.len() >= 2,
        ys.len() == xs.len(),
        is_natural_c(xs, ys, c),
        0 <= i <= xs.len() - 2,
    ensures
        q_eq(c[i], q_sub(th_z(xs, ys, i), q_mul(th_u(xs, i), c[i + 1]))),
    decreases i,
{
    lemma_th_wf(xs, ys, i);
    if i == 0 {
        assert(q_eq(c[0], q_zero()));
        assert(q_sub(th_z(xs, ys, 0), q_mul(th_u(xs, 0), c[1])).n == 0);
        lemma_q_ops_wf(th_z(xs, ys, 0), q_mul(th_u(xs, 0), c[1]));
        lemma_q_ops_wf(th_u(xs, 0), c[1]);
        assert(q_eq(c[0], q_sub(th_z(xs, ys, 0), q_mul(th_u(xs, 0), c[1]))))
            by (nonlinear_arith)
            requires
                q_eq(c[0], q_zero()),
                q_sub(th_z(xs, ys, 0), q_mul(th_u(xs, 0), c[1])).n == 0,
                q_wf(c[0]),
                q_wf(q_sub(th_z(xs, ys, 0), q_mul(th_u(xs, 0), c[1])));
    } else {
        lemma_solution_backsub(xs, ys, c, i - 1);
        lemma_th_pos(xs, i);
        lemma_th_wf(xs, ys, i - 1);
        assert(q_lt(xs[i - 1], xs[i]));
        assert(q_lt(xs[i], xs[i + 1]));
        lemma_q_sub_pos(xs[i - 1], xs[i]);
        lemma_q_sub_pos(xs[i], xs[i + 1]);
        lemma_l_form(xs, i, th_u(xs, i - 1));
        assert(q_eq(row_at(xs, c, i), rhs_of(xs, ys, i)));
        lemma_rhs_wf(xs, ys, i);
        lemma_row_equiv(
            h_of(xs, i - 1),
            h_of(xs, i),
            th_u(xs, i - 1),
            th_z(xs, ys, i - 1),
            th_l(xs, i),
            th_u(xs, i),
            th_z(xs, ys, i),
            c[i - 1],
            c[i],
            c[i + 1],
            rhs_of(xs, ys, i),
        );
    }
}

/// Well-formedness and positivity of the Thomas sweep quantities.
pub proof fn lemma_th_pos(xs: Seq<Q>, i: int)
    requires
        qs_wf(xs),
        q_inc(xs),
        1 <= i <= xs.len() - 2,
    ensures
        q_wf(th_l(xs, i)),
        q_lt(q_zero(), th_l(xs, i)),
        th_l(xs, i).n > 0,
        q_wf(th_u(xs, i)),
        q_le(q_zero(), th_u(xs, i)),
        q_lt(th_u(xs, i), q_one()),
    decreases i,
{
    let hm = h_of(xs, i - 1);
    let h = h_of(xs, i);
    assert(q_lt(xs[i - 1], xs[i]));
    assert(q_lt(xs[i], xs[i + 1]));
    lemma_q_sub_pos(xs[i - 1], xs[i]);
    lemma_q_sub_pos(xs[i], xs[i + 1]);
    if i > 1 {
        lemma_th_pos(xs, i - 1);
    }
    let up = th_u(xs, i - 1);
    lemma_q_ops_wf(xs[i + 1], xs[i - 1]);
    lemma_q_ops_wf(q_int(2), q_sub(xs[i + 1], xs[i - 1]));
    lemma_q_ops_wf(hm, up);
    lemma_q_ops_wf(q_mul(q_int(2), q_sub(xs[i + 1], xs[i - 1])), q_mul(hm, up));
    lemma_l_form(xs, i, up);
    lemma_thomas_l_pos(hm, h, up, th_l(xs, i));
    lemma_q_ops_wf(h, th_l(xs, i));
    lemma_q_div_bounds(h, th_l(xs, i));
}

/// Well-formedness of the swept right-hand side.
pub proof fn lemma_th_wf(xs: Seq<Q>, ys: Seq<Q>, i: int)
    requires
        qs_wf(xs),
        qs_wf(ys),
        q_inc(xs),
        xs.len() >= 2,
        ys.len() == xs.len(),
        0 <= i <= xs.len() - 2,
    ensures
        q_wf(th_z(xs, ys, i)),
        q_wf(th_u(xs, i)),
    decreases i,
{
    if i == 0 {
    } else {
        lemma_th_wf(xs, ys, i - 1);
        lemma_th_pos(xs, i);
        lemma_rhs_wf(xs, ys, i);
        assert(q_lt(xs[i - 1], xs[i]));
        lemma_q_sub_pos(xs[i - 1], xs[i]);
        lemma_q_ops_wf(h_of(xs, i - 1), th_z(xs, ys, i - 1));
        lemma_q_ops_wf(rhs_of(xs, ys, i), q_mul(h_of(xs, i - 1), th_z(xs, ys, i - 1)));
        lemma_q_ops_wf(
            q_sub(rhs_of(xs, ys, i), q_mul(h_of(xs, i - 1), th_z(xs, ys, i - 1))),
            th_l(xs, i),
        );
    }
}

/// Well-formedness of the interior right-hand sides.
pub proof fn lemma_rhs_wf(xs: Seq<Q>, ys: Seq<Q>, i: int)
    requires
        qs_wf(xs),
        qs_wf(ys),
        q_inc(xs),
        xs.len() >= 2,
        ys.len() == xs.len(),
        1 <= i <= xs.len() - 2,
    ensures
        q_wf(rhs_of(xs, ys, i)),
{
    assert(q_lt(xs[i - 1], xs[i]));
    assert(q_lt(xs[i], xs[i + 1]));
    lemma_q_sub_pos(xs[i - 1], xs[i]);
    lemma_q_sub_pos(xs[i], xs[i + 1]);
    lemma_q_ops_wf(ys[i + 1], ys[i]);
    lemma_q_ops_wf(ys[i], ys[i - 1]);
    lemma_q_ops_wf(q_int(3), q_sub(ys[i + 1], ys[i]));
    lemma_q_ops_wf(q_int(3), q_sub(ys[i], ys[i - 1]));
    lemma_q_ops_wf(q_mul(q_int(3), q_sub(ys[i + 1], ys[i])), h_of(xs, i));
    lemma_q_ops_wf(q_mul(q_int(3), q_sub(ys[i], ys[i - 1])), h_of(xs, i - 1));
    lemma_q_ops_wf(
        q_div(q_mul(q_int(3), q_sub(ys[i + 1], ys[i])), h_of(xs, i)),
        q_div(q_mul(q_int(3), q_sub(ys[i], ys[i - 1])), h_of(xs, i - 1)),
    );
}

/// THE SOLUTION IS UNIQUE: two solutions of the natural system agree at
/// every index, up to `q_eq`.
pub proof fn lemma_natural_c_unique(xs: Seq<Q>, ys: Seq<Q>, c1: Seq<Q>, c2: Seq<Q>, j: int)
    requires
        qs_wf(xs),
        qs_wf(ys),
        q_inc(xs),
        xs.len() >= 2,
        ys.len() == xs.len(),
        is_natural_c(xs, ys, c1),
        is_natural_c(xs, ys, c2),
        0 <= j <= xs.len() - 1,
    ensures
        q_eq(c1[j], c2[j]),
    decreases xs.len() - j,
{
    let n = xs.len() - 1;
    if j == n {
        lemma_q_eq_sym(c2[j], q_zero());
        lemma_q_eq_trans(c1[j], q_zero(), c2[j]);
    } else {
        lemma_natural_c_unique(xs, ys, c1, c2, j + 1);
        lemma_solution_backsub(xs, ys, c1, j);
        lemma_solution_backsub(xs, ys, c2, j);
        lemma_th_wf(xs, ys, j);
        let z = th_z(xs, ys, j);
        let u = th_u(xs, j);
        lemma_q_ops_wf(u, c1[j + 1]);
        lemma_q_ops_wf(u, c2[j + 1]);
        lemma_q_mul_cong(u, c1[j + 1], u, c2[j + 1]);
        lemma_q_sub_cong(z, q_mul(u, c1[j + 1]), z, q_mul(u, c2[j + 1]));
        lemma_q_ops_wf(z, q_mul(u, c1[j + 1]));
        lemma_q_ops_wf(z, q_mul(u, c2[j + 1]));
        lemma_q_eq_trans(c1[j], q_sub(z, q_mul(u, c1[j + 1])), q_sub(z, q_mul(u, c2[j + 1])));
        lemma_q_eq_sym(c2[j], q_sub(z, q_mul(u, c2[j + 1])));
        lemma_q_eq_trans(c1[j], q_sub(z, q_mul(u, c2[j + 1])), c2[j]);
    }
}

} // verus!
