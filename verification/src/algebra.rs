//! Field and order laws for the spec-level rationals.
//!
//! `q_eq` is an equivalence relation on well-formed `Q` values, and the
//! spec operations respect it.  The lemmas here are the algebraic toolkit
//! used to reason about chains of exact operations whose intermediate
//! results have been reduced: reduction changes the representation but
//! never the `q_eq` class.

use vstd::prelude::*;
use crate::rational::{Q, q_wf, q_eq, q_add, q_sub, q_mul, q_div, q_lt, q_le, q_zero, q_one, q_int};

verus! {

/// `q_eq` is symmetric.
pub proof fn lemma_q_eq_sym(a: Q, b: Q)
    requires
        q_eq(a, b),
    ensures
        q_eq(b, a),
{
}

/// `q_eq` is transitive on well-formed values.
pub proof fn lemma_q_eq_trans(a: Q, b: Q, c: Q)
    by (nonlinear_arith)
    requires
        q_wf(a),
        q_wf(b),
        q_wf(c),
        q_eq(a, b),
        q_eq(b, c),
    ensures
        q_eq(a, c),
{
}

/// Equal values have numerators of the same sign.
pub proof fn lemma_q_eq_sign(a: Q, b: Q)
    by (nonlinear_arith)
    requires
        q_wf(a),
        q_wf(b),
        q_eq(a, b),
    ensures
        a.n > 0 <==> b.n > 0,
        a.n == 0 <==> b.n == 0,
        a.n < 0 <==> b.n < 0,
{
}

/// Addition respects `q_eq`.
pub proof fn lemma_q_add_cong(a: Q, b: Q, a2: Q, b2: Q)
    requires
        q_wf(a),
        q_wf(b),
        q_wf(a2),
        q_wf(b2),
        q_eq(a, a2),
        q_eq(b, b2),
    ensures
        q_eq(q_add(a, b), q_add(a2, b2)),
{
    assert((a.n * b.d) * (a2.d * b2.d) == (a2.n * b2.d) * (a.d * b.d)) by (nonlinear_arith)
        requires a.n * a2.d == a2.n * a.d;
    assert((b.n * a.d) * (a2.d * b2.d) == (b2.n * a2.d) * (a.d * b.d)) by (nonlinear_arith)
        requires b.n * b2.d == b2.n * b.d;
    assert(q_eq(q_add(a, b), q_add(a2, b2))) by (nonlinear_arith)
        requires
            (a.n * b.d) * (a2.d * b2.d) == (a2.n * b2.d) * (a.d * b.d),
            (b.n * a.d) * (a2.d * b2.d) == (b2.n * a2.d) * (a.d * b.d);
}

/// Subtraction respects `q_eq`.
pub proof fn lemma_q_sub_cong(a: Q, b: Q, a2: Q, b2: Q)
    requires
        q_wf(a),
        q_wf(b),
        q_wf(a2),
        q_wf(b2),
        q_eq(a, a2),
        q_eq(b, b2),
    ensures
        q_eq(q_sub(a, b), q_sub(a2, b2)),
{
    assert((a.n * b.d) * (a2.d * b2.d) == (a2.n * b2.d) * (a.d * b.d)) by (nonlinear_arith)
        requires a.n * a2.d == a2.n * a.d;
    assert((b.n * a.d) * (a2.d * b2.d) == (b2.n * a2.d) * (a.d * b.d)) by (nonlinear_arith)
        requires b.n * b2.d == b2.n * b.d;
    assert(q_eq(q_sub(a, b), q_sub(a2, b2))) by (nonlinear_arith)
        requires
            (a.n * b.d) * (a2.d * b2.d) == (a2.n * b2.d) * (a.d * b.d),
            (b.n * a.d) * (a2.d * b2.d) == (b2.n * a2.d) * (a.d * b.d);
}

/// Multiplication respects `q_eq`.
pub proof fn lemma_q_mul_cong(a: Q, b: Q, a2: Q, b2: Q)
    by (nonlinear_arith)
    requires
        q_wf(a),
        q_wf(b),
        q_wf(a2),
        q_wf(b2),
        q_eq(a, a2),
        q_eq(b, b2),
    ensures
        q_eq(q_mul(a, b), q_mul(a2, b2)),
{
}

/// Division respects `q_eq` when the divisor is nonzero.
pub proof fn lemma_q_div_cong(a: Q, b: Q, a2: Q, b2: Q)
    requires
        q_wf(a),
        q_wf(b),
        q_wf(a2),
        q_wf(b2),
        b.n != 0,
        q_eq(a, a2),
        q_eq(b, b2),
    ensures
        b2.n != 0,
        q_eq(q_div(a, b), q_div(a2, b2)),
{
    lemma_q_eq_sign(b, b2);
    assert((a.n * b.d) * (a2.d * b2.n) == (a.n * a2.d) * (b.d * b2.n)) by (nonlinear_arith);
    assert((a.n * a2.d) * (b.d * b2.n) == (a2.n * a.d) * (b.d * b2.n)) by (nonlinear_arith)
        requires a.n * a2.d == a2.n * a.d;
    assert((a2.n * a.d) * (b.d * b2.n) == (a2.n * a.d) * (b2.d * b.n)) by (nonlinear_arith)
        requires b.n * b2.d == b2.n * b.d;
    assert((a2.n * a.d) * (b2.d * b.n) == (a2.n * b2.d) * (a.d * b.n)) by (nonlinear_arith);
    assert((a.n * b.d) * (a2.d * b2.n) == (a2.n * b2.d) * (a.d * b.n));
    if b.n > 0 {
        assert(q_eq(q_div(a, b), q_div(a2, b2)));
    } else {
        assert(q_eq(q_div(a, b), q_div(a2, b2))) by (nonlinear_arith)
            requires
                b.n < 0,
                b2.n < 0,
                (a.n * b.d) * (a2.d * b2.n) == (a2.n * b2.d) * (a.d * b.n);
    }
}

/// Dividing and multiplying back by a nonzero value is the identity.
pub proof fn lemma_q_div_mul(a: Q, b: Q)
    by (nonlinear_arith)
    requires
        q_wf(a),
        q_wf(b),
        b.n != 0,
    ensures
        q_eq(q_mul(q_div(a, b), b), a),
{
}

/// A common nonzero factor cancels on both sides of `q_eq`.
pub proof fn lemma_q_mul_cancel(a: Q, b: Q, m: Q)
    by (nonlinear_arith)
    requires
        q_wf(a),
        q_wf(b),
        q_wf(m),
        m.n != 0,
        q_eq(q_mul(m, a), q_mul(m, b)),
    ensures
        q_eq(a, b),
{
}

/// Strict order respects `q_eq` on both sides.
pub proof fn lemma_q_lt_cong(a: Q, b: Q, a2: Q, b2: Q)
    by (nonlinear_arith)
    requires
        q_wf(a),
        q_wf(b),
        q_wf(a2),
        q_wf(b2),
        q_eq(a, a2),
        q_eq(b, b2),
    ensures
        q_lt(a, b) <==> q_lt(a2, b2),
{
}

/// Weak order respects `q_eq` on both sides.
pub proof fn lemma_q_le_cong(a: Q, b: Q, a2: Q, b2: Q)
    by (nonlinear_arith)
    requires
        q_wf(a),
        q_wf(b),
        q_wf(a2),
        q_wf(b2),
        q_eq(a, a2),
        q_eq(b, b2),
    ensures
        q_le(a, b) <==> q_le(a2, b2),
{
}

/// Transitivity of the rational order, in its strict and mixed forms.
pub proof fn lemma_q_lt_trans(a: Q, b: Q, c: Q)
    by (nonlinear_arith)
    requires
        q_wf(a),
        q_wf(b),
        q_wf(c),
    ensures
        q_lt(a, b) && q_lt(b, c) ==> q_lt(a, c),
        q_le(a, b) && q_lt(b, c) ==> q_lt(a, c),
        q_lt(a, b) && q_le(b, c) ==> q_lt(a, c),
        q_le(a, b) && q_le(b, c) ==> q_le(a, c),
{
}

/// Adding an exact zero does not change the value.
pub proof fn lemma_q_add_zero(a: Q, z: Q)
    by (nonlinear_arith)
    requires
        q_wf(a),
        q_wf(z),
        z.n == 0,
    ensures
        q_eq(q_add(a, z), a),
        q_eq(q_add(z, a), a),
{
}

/// Multiplying by a nonzero value and dividing by it again is the identity.
pub proof fn lemma_q_mul_div(w: Q, d: Q)
    by (nonlinear_arith)
    requires
        q_wf(w),
        q_wf(d),
        d.n != 0,
    ensures
        q_eq(q_div(q_mul(d, w), d), w),
        q_eq(q_div(q_mul(w, d), d), w),
{
}

/// `a + (b - a)` is `b`.
pub proof fn lemma_q_add_sub(a: Q, b: Q)
    by (nonlinear_arith)
    requires
        q_wf(a),
        q_wf(b),
    ensures
        q_eq(q_add(a, q_sub(b, a)), b),
{
}

/// The spec operations preserve well-formedness.
pub proof fn lemma_q_ops_wf(a: Q, b: Q)
    by (nonlinear_arith)
    requires
        q_wf(a),
        q_wf(b),
    ensures
        q_wf(q_add(a, b)),
        q_wf(q_sub(a, b)),
        q_wf(q_mul(a, b)),
        b.n != 0 ==> q_wf(q_div(a, b)),
{
}

/// The difference of an ordered pair is positive.
pub proof fn lemma_q_sub_pos(a: Q, b: Q)
    by (nonlinear_arith)
    requires
        q_wf(a),
        q_wf(b),
        q_lt(a, b),
    ensures
        q_wf(q_sub(b, a)),
        q_lt(q_zero(), q_sub(b, a)),
        q_sub(b, a).n > 0,
{
}

/// Multiplication distributes over subtraction, up to `q_eq`.
pub proof fn lemma_q_mul_sub_dist(a: Q, b: Q, c: Q)
    ensures
        q_eq(q_mul(a, q_sub(b, c)), q_sub(q_mul(a, b), q_mul(a, c))),
{
    broadcast use vstd::arithmetic::mul::group_mul_properties;

}

/// Multiplication distributes over addition, up to `q_eq`.
pub proof fn lemma_q_mul_add_dist(a: Q, b: Q, c: Q)
    ensures
        q_eq(q_mul(a, q_add(b, c)), q_add(q_mul(a, b), q_mul(a, c))),
{
    broadcast use vstd::arithmetic::mul::group_mul_properties;

}

/// Right distribution over addition, up to `q_eq`.
pub proof fn lemma_q_add_dist_r(a: Q, b: Q, c: Q)
    ensures
        q_eq(q_mul(q_add(b, c), a), q_add(q_mul(b, a), q_mul(c, a))),
{
    broadcast use vstd::arithmetic::mul::group_mul_properties;

}

/// Multiplication is associative, up to `q_eq`.
pub proof fn lemma_q_mul_assoc(a: Q, b: Q, c: Q)
    ensures
        q_eq(q_mul(a, q_mul(b, c)), q_mul(q_mul(a, b), c)),
{
    broadcast use vstd::arithmetic::mul::group_mul_properties;

}

/// Multiplication is commutative, up to `q_eq`.
pub proof fn lemma_q_mul_comm(a: Q, b: Q)
    by (nonlinear_arith)
    ensures
        q_eq(q_mul(a, b), q_mul(b, a)),
{
}

/// Moving a term across `q_eq`: `a + b = k` iff `b = k - a`.
pub proof fn lemma_q_add_move(a: Q, b: Q, k: Q)
    by (nonlinear_arith)
    requires
        q_wf(a),
        q_wf(b),
        q_wf(k),
    ensures
        q_eq(q_add(a, b), k) <==> q_eq(b, q_sub(k, a)),
{
}

/// Moving a term across `q_eq`: `c = z - w` iff `c + w = z`.
pub proof fn lemma_q_sub_move(c: Q, w: Q, z: Q)
    requires
        q_wf(c),
        q_wf(w),
        q_wf(z),
    ensures
        q_eq(c, q_sub(z, w)) <==> q_eq(q_add(c, w), z),
{
    broadcast use vstd::arithmetic::mul::group_mul_properties;

}

/// Regrouping the substituted elimination row:
/// `(p - w*c) + ((l*c + w*c) + r)` equals `p + (l*c + r)`.
pub proof fn lemma_q_add_shuffle(lc: Q, w: Q, r: Q)
    ensures
        q_eq(q_add(q_add(lc, w), r), q_add(w, q_add(lc, r))),
{
    broadcast use vstd::arithmetic::mul::group_mul_properties;

}

/// `(p - w) + (w + s)` equals `p + s`.
pub proof fn lemma_q_add_cancel_l(p: Q, w: Q, s: Q)
    ensures
        q_eq(q_add(q_sub(p, w), q_add(w, s)), q_add(p, s)),
{
    broadcast use vstd::arithmetic::mul::group_mul_properties;

}

/// Regrouping the substituted elimination row:
/// `(p - w*c) + ((l*c + w*c) + r)` equals `p + (l*c + r)`.
pub proof fn lemma_q_regroup(p: Q, w: Q, lc: Q, r: Q)
    requires
        q_wf(p),
        q_wf(w),
        q_wf(lc),
        q_wf(r),
    ensures
        q_eq(
            q_add(q_sub(p, w), q_add(q_add(lc, w), r)),
            q_add(p, q_add(lc, r)),
        ),
{
    let s = q_add(lc, r);
    lemma_q_ops_wf(p, w);
    lemma_q_ops_wf(lc, w);
    lemma_q_ops_wf(lc, r);
    lemma_q_ops_wf(q_add(lc, w), r);
    lemma_q_ops_wf(w, s);
    lemma_q_add_shuffle(lc, w, r);
    lemma_q_add_cong(q_sub(p, w), q_add(q_add(lc, w), r), q_sub(p, w), q_add(w, s));
    lemma_q_add_cancel_l(p, w, s);
    lemma_q_ops_wf(q_sub(p, w), q_add(q_add(lc, w), r));
    lemma_q_ops_wf(q_sub(p, w), q_add(w, s));
    lemma_q_ops_wf(p, s);
    lemma_q_eq_trans(
        q_add(q_sub(p, w), q_add(q_add(lc, w), r)),
        q_add(q_sub(p, w), q_add(w, s)),
        q_add(p, s),
    );
}

/// A positive value scaled by a factor in `[0, 1)` shrinks.
pub proof fn lemma_q_mul_lt_one(a: Q, f: Q)
    by (nonlinear_arith)
    requires
        q_wf(a),
        q_wf(f),
        q_lt(q_zero(), a),
        q_le(q_zero(), f),
        q_lt(f, q_one()),
    ensures
        q_le(q_zero(), q_mul(a, f)),
        q_lt(q_mul(a, f), a),
{
}

/// The quotient of `0 < h < l` lies in `[0, 1)`.
pub proof fn lemma_q_div_bounds(h: Q, l: Q)
    by (nonlinear_arith)
    requires
        q_wf(h),
        q_wf(l),
        q_lt(q_zero(), h),
        q_lt(h, l),
    ensures
        q_wf(q_div(h, l)),
        q_le(q_zero(), q_div(h, l)),
        q_lt(q_div(h, l), q_one()),
{
}

/// Adjacent differences chain: `(b - a) + (c - b)` equals `c - a`.
pub proof fn lemma_q_sub_split(a: Q, b: Q, c: Q)
    ensures
        q_eq(q_add(q_sub(b, a), q_sub(c, b)), q_sub(c, a)),
{
    broadcast use vstd::arithmetic::mul::group_mul_properties;

}

/// Subtracting a larger value gives a smaller difference.
pub proof fn lemma_q_sub_antimono(c: Q, a: Q, b: Q)
    by (nonlinear_arith)
    requires
        q_wf(c),
        q_wf(a),
        q_wf(b),
        q_lt(a, b),
    ensures
        q_lt(q_sub(c, b), q_sub(c, a)),
{
}

/// For positive `hm` and `h`: `h < 2(hm + h) - hm`.
pub proof fn lemma_q_h_lt(hm: Q, h: Q)
    by (nonlinear_arith)
    requires
        q_wf(hm),
        q_wf(h),
        q_lt(q_zero(), hm),
        q_lt(q_zero(), h),
    ensures
        q_lt(h, q_sub(q_mul(q_int(2), q_add(hm, h)), hm)),
{
}

/// A zero numerator propagates through products and quotients.
pub proof fn lemma_q_zero_factor(z: Q, w: Q)
    by (nonlinear_arith)
    requires
        z.n == 0,
    ensures
        q_mul(z, w).n == 0,
        q_mul(w, z).n == 0,
        q_div(z, w).n == 0,
{
}

/// `2c + 2(cp - c)` equals `2 cp`.
pub proof fn lemma_q_two_sub(c: Q, cp: Q)
    requires
        q_wf(c),
        q_wf(cp),
    ensures
        q_eq(
            q_add(q_mul(q_int(2), c), q_mul(q_int(2), q_sub(cp, c))),
            q_mul(q_int(2), cp),
        ),
{
    broadcast use vstd::arithmetic::mul::group_mul_properties;

}

/// Six times `X/(3h)`, times `h`, is `2X`.
pub proof fn lemma_q_six_div_cancel(x: Q, h: Q)
    requires
        q_wf(x),
        q_wf(h),
        h.n > 0,
    ensures
        q_eq(
            q_mul(q_mul(q_int(6), q_div(x, q_mul(q_int(3), h))), h),
            q_mul(q_int(2), x),
        ),
{
    let dd = q_mul(q_int(3), h);
    assert(dd.n == 3 * h.n && dd.d == h.d);
    assert(dd.n > 0);
    let a = q_div(x, dd);
    assert(a.n == x.n * h.d && a.d == x.d * (3 * h.n)) by (nonlinear_arith)
        requires
            a == (Q { n: x.n * dd.d, d: x.d * dd.n }),
            dd.n == 3 * h.n,
            dd.d == h.d;
    assert(q_eq(q_mul(q_mul(q_int(6), a), h), q_mul(q_int(2), x))) by (nonlinear_arith)
        requires
            a.n == x.n * h.d,
            a.d == x.d * (3 * h.n);
}

/// Right distribution over subtraction, up to `q_eq`.
pub proof fn lemma_q_sub_dist_r(a: Q, b: Q, c: Q)
    ensures
        q_eq(q_mul(q_sub(b, c), a), q_sub(q_mul(b, a), q_mul(c, a))),
{
    broadcast use vstd::arithmetic::mul::group_mul_properties;

}

/// `(h g / 3) h` equals `g h^2 / 3`.
pub proof fn lemma_q_div3_shift2(g: Q, h: Q)
    ensures
        q_eq(
            q_mul(q_div(q_mul(h, g), q_int(3)), h),
            q_div(q_mul(g, q_mul(h, h)), q_int(3)),
        ),
{
    let a = q_div(q_mul(h, g), q_int(3));
    assert(a.n == h.n * g.n && a.d == (h.d * g.d) * 3) by (nonlinear_arith)
        requires a == (Q { n: (h.n * g.n) * 1, d: (h.d * g.d) * 3 });
    assert(q_eq(q_mul(a, h), q_div(q_mul(g, q_mul(h, h)), q_int(3)))) by (nonlinear_arith)
        requires
            a.n == h.n * g.n,
            a.d == (h.d * g.d) * 3;
}

/// `(x / (3h)) h` equals `x / 3`, for positive `h`.
pub proof fn lemma_q_div3h_cancel(x: Q, h: Q)
    requires
        h.n > 0,
    ensures
        q_eq(q_mul(q_div(x, q_mul(q_int(3), h)), h), q_div(x, q_int(3))),
{
    let dd = q_mul(q_int(3), h);
    assert(dd.n == 3 * h.n && dd.d == h.d);
    assert(dd.n > 0);
    let a = q_div(x, dd);
    assert(a.n == x.n * h.d && a.d == x.d * (3 * h.n)) by (nonlinear_arith)
        requires
            a == (Q { n: x.n * dd.d, d: x.d * dd.n }),
            dd.n == 3 * h.n,
            dd.d == h.d;
    assert(q_eq(q_mul(a, h), q_div(x, q_int(3)))) by (nonlinear_arith)
        requires
            a.n == x.n * h.d,
            a.d == x.d * (3 * h.n);
}

/// `(x / 3) w` equals `x w / 3`.
pub proof fn lemma_q_div3_mul(x: Q, w: Q)
    ensures
        q_eq(q_mul(q_div(x, q_int(3)), w), q_div(q_mul(x, w), q_int(3))),
{
    let a = q_div(x, q_int(3));
    assert(a.n == x.n && a.d == x.d * 3) by (nonlinear_arith)
        requires a == (Q { n: x.n * 1, d: x.d * 3 });
    assert(q_eq(q_mul(a, w), q_div(q_mul(x, w), q_int(3)))) by (nonlinear_arith)
        requires
            a.n == x.n,
            a.d == x.d * 3;
}

/// Quotients over the common denominator `3` subtract numerator-wise.
pub proof fn lemma_q_div_sub_same(a: Q, b: Q)
    ensures
        q_eq(q_sub(q_div(a, q_int(3)), q_div(b, q_int(3))), q_div(q_sub(a, b), q_int(3))),
{
    let qa = q_div(a, q_int(3));
    let qb = q_div(b, q_int(3));
    assert(qa.n == a.n && qa.d == a.d * 3) by (nonlinear_arith)
        requires qa == (Q { n: a.n * 1, d: a.d * 3 });
    assert(qb.n == b.n && qb.d == b.d * 3) by (nonlinear_arith)
        requires qb == (Q { n: b.n * 1, d: b.d * 3 });
    assert(q_eq(q_sub(qa, qb), q_div(q_sub(a, b), q_int(3)))) by (nonlinear_arith)
        requires
            qa.n == a.n,
            qa.d == a.d * 3,
            qb.n == b.n,
            qb.d == b.d * 3;
}

/// `(cp - c) - (cp + 2c)` collapses to `-3c`.
pub proof fn lemma_q_collapse(c: Q, cp: Q)
    ensures
        q_eq(
            q_sub(q_sub(cp, c), q_add(cp, q_mul(q_int(2), c))),
            q_mul(q_int(-3), c),
        ),
{
    let t2 = q_mul(q_int(2), c);
    assert(t2.n == 2 * c.n && t2.d == c.d);
    let a = q_sub(cp, c);
    let b = q_add(cp, t2);
    assert(b.n == cp.n * c.d + 2 * (c.n * cp.d) && b.d == cp.d * c.d) by (nonlinear_arith)
        requires
            t2.n == 2 * c.n,
            t2.d == c.d,
            b == (Q { n: cp.n * t2.d + t2.n * cp.d, d: cp.d * t2.d });
    assert(a.d == cp.d * c.d && b.d == cp.d * c.d);
    assert(a.n - b.n == -3 * (c.n * cp.d));
    let lhs = q_sub(a, b);
    assert(lhs.n == b.d * (a.n - b.n)) by (nonlinear_arith)
        requires
            lhs == (Q { n: a.n * b.d - b.n * a.d, d: a.d * b.d }),
            a.d == b.d;
    assert(lhs.n * (1 * c.d) == (-3 * c.n) * (a.d * b.d)) by (nonlinear_arith)
        requires
            lhs.n == b.d * (a.n - b.n),
            a.n - b.n == -3 * (c.n * cp.d),
            a.d == b.d,
            b.d == cp.d * c.d;
    assert(q_eq(lhs, q_mul(q_int(-3), c)));
}

/// `(-3 c) w / 3` is the opposite of `c w`.
pub proof fn lemma_q_neg_third(c: Q, w: Q)
    ensures
        q_eq(
            q_div(q_mul(q_mul(q_int(-3), c), w), q_int(3)),
            q_sub(q_zero(), q_mul(c, w)),
        ),
{
    let t = q_mul(q_int(-3), c);
    assert(t.n == -3 * c.n && t.d == c.d);
    let m = q_mul(t, w);
    assert(m.n == (-3 * c.n) * w.n && m.d == c.d * w.d) by (nonlinear_arith)
        requires
            t.n == -3 * c.n,
            t.d == c.d,
            m == (Q { n: t.n * w.n, d: t.d * w.d });
    assert(q_eq(q_div(m, q_int(3)), q_sub(q_zero(), q_mul(c, w)))) by (nonlinear_arith)
        requires
            m.n == (-3 * c.n) * w.n,
            m.d == c.d * w.d;
}

/// A value plus its opposite is zero.
pub proof fn lemma_q_add_opp(a: Q)
    by (nonlinear_arith)
    ensures
        q_eq(q_add(a, q_sub(q_zero(), a)), q_zero()),
{
}

/// Two subtracted terms commute.
pub proof fn lemma_q_sub_swap(yj: Q, a: Q, b: Q)
    ensures
        q_eq(q_sub(q_sub(yj, a), b), q_sub(q_sub(yj, b), a)),
{
    broadcast use vstd::arithmetic::mul::group_mul_properties;

}

/// `ym + ((yj - ym) - w1)` folds to `yj - w1`.
pub proof fn lemma_q_fold_head(ym: Q, yj: Q, w1: Q)
    requires
        q_wf(ym),
        q_wf(yj),
        q_wf(w1),
    ensures
        q_eq(q_add(ym, q_sub(q_sub(yj, ym), w1)), q_sub(yj, w1)),
{
    lemma_q_ops_wf(yj, ym);
    lemma_q_ops_wf(q_sub(yj, ym), w1);
    lemma_q_ops_wf(yj, w1);
    lemma_q_ops_wf(q_sub(yj, w1), ym);
    lemma_q_sub_swap(yj, ym, w1);
    lemma_q_add_move(ym, q_sub(q_sub(yj, ym), w1), q_sub(yj, w1));
}

/// Moving a subtracted term across an addition.
pub proof fn lemma_q_sub_add_swap(yj: Q, w1: Q, w2: Q)
    ensures
        q_eq(q_add(q_sub(yj, w1), w2), q_add(yj, q_sub(w2, w1))),
{
    broadcast use vstd::arithmetic::mul::group_mul_properties;

}

/// The first summand rotates past a nested addition.
pub proof fn lemma_q_add_rotate(a: Q, b: Q, c: Q)
    ensures
        q_eq(q_add(a, q_add(b, c)), q_add(b, q_add(a, c))),
{
    broadcast use vstd::arithmetic::mul::group_mul_properties;

}

/// `((yj - w1) + ch2) + w2` regrouped as `yj + (ch2 + (w2 - w1))`.
pub proof fn lemma_q_add_shuffle4(yj: Q, w1: Q, ch2: Q, w2: Q)
    requires
        q_wf(yj),
        q_wf(w1),
        q_wf(ch2),
        q_wf(w2),
    ensures
        q_eq(
            q_add(q_add(q_sub(yj, w1), ch2), w2),
            q_add(yj, q_add(ch2, q_sub(w2, w1))),
        ),
{
    let r = q_sub(yj, w1);
    let su = q_sub(w2, w1);
    lemma_q_ops_wf(yj, w1);
    lemma_q_ops_wf(w2, w1);
    lemma_q_ops_wf(r, ch2);
    lemma_q_ops_wf(r, w2);
    lemma_q_ops_wf(yj, su);
    lemma_q_ops_wf(ch2, su);
    lemma_q_add_shuffle(r, ch2, w2);
    lemma_q_sub_add_swap(yj, w1, w2);
    lemma_q_add_cong(ch2, q_add(r, w2), ch2, q_add(yj, su));
    lemma_q_add_rotate(ch2, yj, su);
    lemma_q_ops_wf(q_add(r, ch2), w2);
    lemma_q_ops_wf(ch2, q_add(r, w2));
    lemma_q_ops_wf(ch2, q_add(yj, su));
    lemma_q_ops_wf(yj, q_add(ch2, su));
    lemma_q_eq_trans(
        q_add(q_add(r, ch2), w2),
        q_add(ch2, q_add(r, w2)),
        q_add(ch2, q_add(yj, su)),
    );
    lemma_q_eq_trans(
        q_add(q_add(r, ch2), w2),
        q_add(ch2, q_add(yj, su)),
        q_add(yj, q_add(ch2, su)),
    );
}

/// Assembling the spline value at a segment's right end: with the
/// correction terms cancelling, `ym + ((yj - ym) - w1) + ch2 + w2`
/// collapses to `yj`.
pub proof fn lemma_q_value_assemble(ym: Q, yj: Q, w1: Q, ch2: Q, w2: Q)
    requires
        q_wf(ym),
        q_wf(yj),
        q_wf(w1),
        q_wf(ch2),
        q_wf(w2),
        q_eq(q_add(ch2, q_sub(w2, w1)), q_zero()),
    ensures
        q_eq(q_add(q_add(q_add(ym, q_sub(q_sub(yj, ym), w1)), ch2), w2), yj),
{
    lemma_q_ops_wf(yj, ym);
    lemma_q_ops_wf(q_sub(yj, ym), w1);
    lemma_q_ops_wf(ym, q_sub(q_sub(yj, ym), w1));
    lemma_q_ops_wf(yj, w1);
    lemma_q_ops_wf(w2, w1);
    lemma_q_ops_wf(ch2, q_sub(w2, w1));
    lemma_q_fold_head(ym, yj, w1);
    lemma_q_add_cong(q_add(ym, q_sub(q_sub(yj, ym), w1)), ch2, q_sub(yj, w1), ch2);
    lemma_q_ops_wf(q_add(ym, q_sub(q_sub(yj, ym), w1)), ch2);
    lemma_q_ops_wf(q_sub(yj, w1), ch2);
    lemma_q_add_cong(
        q_add(q_add(ym, q_sub(q_sub(yj, ym), w1)), ch2),
        w2,
        q_add(q_sub(yj, w1), ch2),
        w2,
    );
    lemma_q_add_shuffle4(yj, w1, ch2, w2);
    let tail = q_add(ch2, q_sub(w2, w1));
    assert(tail.n == 0);
    lemma_q_add_zero(yj, tail);
    lemma_q_ops_wf(q_add(q_add(ym, q_sub(q_sub(yj, ym), w1)), ch2), w2);
    lemma_q_ops_wf(q_add(q_sub(yj, w1), ch2), w2);
    lemma_q_ops_wf(yj, tail);
    lemma_q_eq_trans(
        q_add(q_add(q_add(ym, q_sub(q_sub(yj, ym), w1)), ch2), w2),
        q_add(q_add(q_sub(yj, w1), ch2), w2),
        q_add(yj, tail),
    );
    lemma_q_eq_trans(
        q_add(q_add(q_add(ym, q_sub(q_sub(yj, ym), w1)), ch2), w2),
        q_add(yj, tail),
        yj,
    );
}

/// Addition is commutative, up to `q_eq`.
pub proof fn lemma_q_add_comm(a: Q, b: Q)
    by (nonlinear_arith)
    ensures
        q_eq(q_add(a, b), q_add(b, a)),
{
}

/// `2c + (cp - c)` equals `cp + c`.
pub proof fn lemma_q_two_plus_diff(c: Q, cp: Q)
    ensures
        q_eq(q_add(q_mul(q_int(2), c), q_sub(cp, c)), q_add(cp, c)),
{
    broadcast use vstd::arithmetic::mul::group_mul_properties;

}

/// Three times `x/(3h)`, times `h^2`, is `x h`, for positive `h`.
pub proof fn lemma_q_three_div_sq(x: Q, h: Q)
    requires
        h.n > 0,
    ensures
        q_eq(
            q_mul(q_mul(q_int(3), q_div(x, q_mul(q_int(3), h))), q_mul(h, h)),
            q_mul(x, h),
        ),
{
    let dd = q_mul(q_int(3), h);
    assert(dd.n == 3 * h.n && dd.d == h.d);
    assert(dd.n > 0);
    let a = q_div(x, dd);
    assert(a.n == x.n * h.d && a.d == x.d * (3 * h.n)) by (nonlinear_arith)
        requires
            a == (Q { n: x.n * dd.d, d: x.d * dd.n }),
            dd.n == 3 * h.n,
            dd.d == h.d;
    assert(((3 * a.n) * (h.n * h.n)) * (x.d * h.d) == (x.n * h.n) * ((1 * a.d) * (h.d
        * h.d))) by (nonlinear_arith)
        requires
            a.n == x.n * h.d,
            a.d == x.d * (3 * h.n);
    assert(q_eq(q_mul(q_mul(q_int(3), a), q_mul(h, h)), q_mul(x, h)));
}

/// Scaling by three commutes with an exact division, for a positive
/// divisor.
pub proof fn lemma_q_mul_div_commute3(x: Q, den: Q)
    requires
        den.n > 0,
    ensures
        q_eq(q_div(q_mul(q_int(3), x), den), q_mul(q_int(3), q_div(x, den))),
{
    let l = q_div(q_mul(q_int(3), x), den);
    let rr = q_mul(q_int(3), q_div(x, den));
    assert(q_eq(l, rr)) by (nonlinear_arith)
        requires
            den.n > 0,
            l == (Q { n: (3 * x.n) * den.d, d: (1 * x.d) * den.n }),
            rr == (Q { n: 3 * (x.n * den.d), d: 1 * (x.d * den.n) });
}

/// `(r + p) - aj` regrouped as `p + (r - aj)`.
pub proof fn lemma_q_add_sub_assoc(r: Q, p: Q, aj: Q)
    ensures
        q_eq(q_sub(q_add(r, p), aj), q_add(p, q_sub(r, aj))),
{
    broadcast use vstd::arithmetic::mul::group_mul_properties;

}

/// Collecting coefficients: `(2b + a) + (b + 2a)` equals `3b + 3a`.
pub proof fn lemma_q_coeff_collect(b: Q, a: Q)
    ensures
        q_eq(
            q_add(q_add(q_mul(q_int(2), b), a), q_add(b, q_mul(q_int(2), a))),
            q_add(q_mul(q_int(3), b), q_mul(q_int(3), a)),
        ),
{
    let l1 = q_add(q_mul(q_int(2), b), a);
    let l2 = q_add(b, q_mul(q_int(2), a));
    let big = q_add(l1, l2);
    let rr = q_add(q_mul(q_int(3), b), q_mul(q_int(3), a));
    assert(l1.n + l2.n == rr.n) by (nonlinear_arith)
        requires
            l1.n == (2 * b.n) * a.d + a.n * b.d,
            l2.n == b.n * a.d + (2 * a.n) * b.d,
            rr.n == (3 * b.n) * a.d + (3 * a.n) * b.d;
    assert(big.n == (b.d * a.d) * (l1.n + l2.n)) by (nonlinear_arith)
        requires
            big == (Q { n: l1.n * l2.d + l2.n * l1.d, d: l1.d * l2.d }),
            l1.d == b.d * a.d,
            l2.d == b.d * a.d;
    assert(q_eq(big, rr)) by (nonlinear_arith)
        requires
            big.n == (b.d * a.d) * rr.n,
            big.d == (b.d * a.d) * (b.d * a.d),
            rr.d == b.d * a.d;
}

/// A factor of two pulls out of a product.
pub proof fn lemma_q_pull_two(p: Q, q: Q)
    ensures
        q_eq(q_mul(p, q_mul(q_int(2), q)), q_mul(q_int(2), q_mul(p, q))),
{
    let l = q_mul(p, q_mul(q_int(2), q));
    let rr = q_mul(q_int(2), q_mul(p, q));
    assert(q_eq(l, rr)) by (nonlinear_arith)
        requires
            l == (Q { n: p.n * (2 * q.n), d: p.d * (1 * q.d) }),
            rr == (Q { n: 2 * (p.n * q.n), d: 1 * (p.d * q.d) });
}

} // verus!
