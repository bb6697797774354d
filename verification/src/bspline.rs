//! Open-uniform B-spline interpolation of arbitrary degree.
//!
//! The knot vector has its first and last `degree + 1` entries clamped to
//! `0` and `1` and its interior entries uniformly spaced, so the curve
//! passes through the first and last control points.  Basis functions
//! follow the Cox–de Boor recursion with its degenerate-denominator
//! branches resolving to zero; queries outside the sample range clamp to
//! the boundary ordinates (flat extrapolation), unlike the other
//! interpolators of this crate.

use vstd::prelude::*;
use crate::Error;
use crate::rational::{Q, Rat, q_seq, q_wf, qs_wf, rats_wf, lemma_rats_wf, q_inc, q_eq, q_add,
    q_sub, q_mul, q_div, q_zero, q_one, q_lt, q_le, checked};
use crate::segment::lemma_q_inc_at;
use crate::algebra::{lemma_q_eq_trans, lemma_q_add_cong, lemma_q_sub_cong,
    lemma_q_mul_cong, lemma_q_ops_wf, lemma_q_sub_pos, lemma_q_lt_cong};

verus! {

/// The open-uniform knot value at index `i`, for degree `deg` and `p`
/// control points: the first `deg + 1` knots are `0`, the last `deg + 1`
/// are `1`, and the `p - deg - 1` interior knots step by `1/(p - deg)`.
pub open spec fn knot_q(deg: int, p: int, i: int) -> Q {
    if i <= deg {
        q_zero()
    } else if i >= p {
        q_one()
    } else {
        Q { n: i - deg, d: p - deg }
    }
}

/// The Cox–de Boor basis function `b_{j,k}(u)` over the knots: degree
/// zero tests the right-open knot interval, and higher degrees blend the
/// two lower ones, with a blending term dropped (not divided by zero)
/// when its knot span is empty.
pub open spec fn basis_q(knots: Seq<Q>, j: int, k: nat, u: Q) -> Q
    decreases k,
{
    if k == 0 {
        if q_le(knots[j], u) && q_lt(u, knots[j + 1]) {
            q_one()
        } else {
            q_zero()
        }
    } else {
        let w1 = if !q_eq(knots[j + k], knots[j]) {
            q_mul(
                q_div(q_sub(u, knots[j]), q_sub(knots[j + k], knots[j])),
                basis_q(knots, j, (k - 1) as nat, u),
            )
        } else {
            q_zero()
        };
        let w2 = if !q_eq(knots[j + k + 1], knots[j + 1]) {
            q_mul(
                q_div(q_sub(knots[j + k + 1], u), q_sub(knots[j + k + 1], knots[j + 1])),
                basis_q(knots, j + 1, (k - 1) as nat, u),
            )
        } else {
            q_zero()
        };
        q_add(w1, w2)
    }
}

/// The partial weighted sum of the first `upto` control values against
/// their basis functions: `sum_{i < upto} cs_i b_{i,deg}(u)`.
pub open spec fn curve_sum(cs: Seq<Q>, knots: Seq<Q>, deg: nat, u: Q, upto: int) -> Q
    decreases upto,
{
    if upto <= 0 {
        q_zero()
    } else {
        q_add(
            curve_sum(cs, knots, deg, u, upto - 1),
            q_mul(cs[upto - 1], basis_q(knots, upto - 1, deg, u)),
        )
    }
}

/// The query abscissa scaled into the parameter interval:
/// `u = (xq - x_0) / (x_{n-1} - x_0)`.
pub open spec fn u_of(xs: Seq<Q>, xq: Q) -> Q {
    q_div(q_sub(xq, xs[0]), q_sub(xs[xs.len() - 1], xs[0]))
}

/// The reconstructed abscissa `sum x_i b_i(u)` lies within `1/100` of the
/// query abscissa.
pub open spec fn reconstruction_close(xs: Seq<Q>, knots: Seq<Q>, deg: nat, u: Q, xq: Q) -> bool {
    let ax = curve_sum(xs, knots, deg, u, xs.len() as int);
    &&& q_lt(q_sub(ax, xq), Q { n: 1, d: 100 })
    &&& q_lt(Q { n: -1, d: 100 }, q_sub(ax, xq))
}

/// Basis values are well-formed rationals.
proof fn lemma_basis_q_wf(knots: Seq<Q>, j: int, k: nat, u: Q)
    requires
        qs_wf(knots),
        q_wf(u),
        0 <= j,
        j + k + 1 < knots.len(),
    ensures
        q_wf(basis_q(knots, j, k, u)),
    decreases k,
{
    if k == 0 {
    } else {
        lemma_basis_q_wf(knots, j, (k - 1) as nat, u);
        lemma_basis_q_wf(knots, j + 1, (k - 1) as nat, u);
        let w1 = if !q_eq(knots[j + k], knots[j]) {
            lemma_q_ops_wf(u, knots[j]);
            lemma_q_ops_wf(knots[j + k], knots[j]);
            lemma_q_ops_wf(q_sub(u, knots[j]), q_sub(knots[j + k], knots[j]));
            lemma_q_ops_wf(
                q_div(q_sub(u, knots[j]), q_sub(knots[j + k], knots[j])),
                basis_q(knots, j, (k - 1) as nat, u),
            );
            q_mul(
                q_div(q_sub(u, knots[j]), q_sub(knots[j + k], knots[j])),
                basis_q(knots, j, (k - 1) as nat, u),
            )
        } else {
            q_zero()
        };
        let w2 = if !q_eq(knots[j + k + 1], knots[j + 1]) {
            lemma_q_ops_wf(knots[j + k + 1], u);
            lemma_q_ops_wf(knots[j + k + 1], knots[j + 1]);
            lemma_q_ops_wf(
                q_sub(knots[j + k + 1], u),
                q_sub(knots[j + k + 1], knots[j + 1]),
            );
            lemma_q_ops_wf(
                q_div(q_sub(knots[j + k + 1], u), q_sub(knots[j + k + 1], knots[j + 1])),
                basis_q(knots, j + 1, (k - 1) as nat, u),
            );
            q_mul(
                q_div(q_sub(knots[j + k + 1], u), q_sub(knots[j + k + 1], knots[j + 1])),
                basis_q(knots, j + 1, (k - 1) as nat, u),
            )
        } else {
            q_zero()
        };
        lemma_q_ops_wf(w1, w2);
    }
}

/// Partial curve sums are well-formed rationals.
proof fn lemma_curve_sum_wf(cs: Seq<Q>, knots: Seq<Q>, deg: nat, u: Q, upto: int)
    requires
        qs_wf(cs),
        qs_wf(knots),
        q_wf(u),
        upto <= cs.len(),
        upto + deg < knots.len(),
    ensures
        q_wf(curve_sum(cs, knots, deg, u, upto)),
    decreases upto,
{
    if upto > 0 {
        lemma_curve_sum_wf(cs, knots, deg, u, upto - 1);
        lemma_basis_q_wf(knots, upto - 1, deg, u);
        lemma_q_ops_wf(cs[upto - 1], basis_q(knots, upto - 1, deg, u));
        lemma_q_ops_wf(
            curve_sum(cs, knots, deg, u, upto - 1),
            q_mul(cs[upto - 1], basis_q(knots, upto - 1, deg, u)),
        );
    }
}


/// A B-spline interpolator of the given degree over control points
/// `(x_i, y_i)`, with its open-uniform knot vector.
pub struct BSpline {
    pub x: Vec<Rat>,
    pub y: Vec<Rat>,
    pub degree: usize,
    pub knot: Vec<Rat>,
}

impl BSpline {
    /// Valid B-spline data: valid samples, a degree below the control
    /// point count, and the open-uniform knot vector.
    pub open spec fn wf(self) -> bool {
        &&& self.x@.len() == self.y@.len()
        &&& self.x@.len() >= 2
        &&& rats_wf(self.x@)
        &&& rats_wf(self.y@)
        &&& q_inc(q_seq(self.x@))
        &&& self.degree < self.x@.len()
        &&& self.knot@.len() == self.degree + self.x@.len() + 1
        &&& rats_wf(self.knot@)
        &&& forall|i: int|
            0 <= i < self.knot@.len() ==> q_eq(
                (#[trigger] self.knot@[i])@,
                knot_q(self.degree as int, self.x@.len() as int, i),
            )
    }

    /// What a single interpolation query answers: the boundary ordinate
    /// when the query clamps, and in between the weighted basis sum with
    /// the reconstructed abscissa within tolerance.
    pub open spec fn interp_result(self, t: Q, v: Rat) -> bool {
        let qx = q_seq(self.x@);
        &&& (q_le(t, qx[0]) ==> v == self.y@[0])
        &&& (!q_le(t, qx[0]) && q_le(qx[self.x@.len() - 1], t) ==> v == self.y@[self.x@.len()
            - 1])
        &&& (!q_le(t, qx[0]) && !q_le(qx[self.x@.len() - 1], t) ==> q_eq(
            v@,
            curve_sum(
                q_seq(self.y@),
                q_seq(self.knot@),
                self.degree as nat,
                u_of(qx, t),
                self.x@.len() as int,
            ),
        ) && reconstruction_close(
            qx,
            q_seq(self.knot@),
            self.degree as nat,
            u_of(qx, t),
            t,
        ))
    }

    /// What a single basis query answers: the boundary ordinate when the
    /// query clamps, and in between the requested basis function's value.
    pub open spec fn basis_result(self, dim: int, t: Q, v: Rat) -> bool {
        let qx = q_seq(self.x@);
        &&& (q_le(t, qx[0]) ==> v == self.y@[0])
        &&& (!q_le(t, qx[0]) && q_le(qx[self.x@.len() - 1], t) ==> v == self.y@[self.x@.len()
            - 1])
        &&& (!q_le(t, qx[0]) && !q_le(qx[self.x@.len() - 1], t) ==> q_eq(
            v@,
            basis_q(q_seq(self.knot@), dim, self.degree as nat, u_of(qx, t)),
        ))
    }

    /// Build a B-spline of degree `deg` and compute its open-uniform knot
    /// vector.  Construction fails exactly on invalid input: mismatched
    /// lengths, or a degree at or above the control point count.
    pub fn new_uniform(deg: usize, x: Vec<Rat>, y: Vec<Rat>) -> (r: Result<BSpline, Error>)
        requires
            x@.len() >= 2,
            x@.len() < 0x2000_0000,
            rats_wf(x@),
            rats_wf(y@),
            q_inc(q_seq(x@)),
        ensures
            r matches Ok(b) ==> b.wf() && b.x@ == x@ && b.y@ == y@ && b.degree == deg,
            r is Err <==> x@.len() != y@.len() || deg >= x@.len(),
            r matches Err(e) ==> e == Error::InvalidInput,
    {
        if x.len() != y.len() || deg >= x.len() {
            return Err(Error::InvalidInput);
        }
        let mut b = BSpline { x, y, degree: deg, knot: Vec::new() };
        let knot = b.calc_open_uniform_knot();
        b.knot = knot;
        Ok(b)
    }

    /// Compute the open-uniform knot vector: `deg + 1` zeros, uniformly
    /// spaced interior knots, `deg + 1` ones.  The knots are exact
    /// rationals over the fixed denominator `p - deg`, so construction
    /// never fails.
    fn calc_open_uniform_knot(&self) -> (kv: Vec<Rat>)
        requires
            self.x@.len() >= 2,
            self.x@.len() < 0x2000_0000,
            (self.degree as int) < self.x@.len(),
        ensures
            kv@.len() == self.degree + self.x@.len() + 1,
            rats_wf(kv@),
            forall|i: int|
                0 <= i < kv@.len() ==> q_eq(
                    (#[trigger] kv@[i])@,
                    knot_q(self.degree as int, self.x@.len() as int, i),
                ),
    {
        let deg = self.degree;
        let p = self.x.len();
        let m = deg + p + 1;
        let mut knot = crate::rational::rat_zeros(m);
        let ghost dgi = deg as int;
        let ghost pi = p as int;

        // The last deg + 1 knots are one.
        let idx = m - (deg + 1);
        let mut i: usize = idx;
        while i < m
            invariant
                idx <= i <= m,
                idx == m - deg - 1,
                m == deg + p + 1,
                idx == pi,
                dgi == deg as int,
                pi == p as int,
                dgi < pi,
                knot@.len() == m,
                rats_wf(knot@),
                forall|k: int|
                    0 <= k <= dgi ==> q_eq((#[trigger] knot@[k])@, knot_q(dgi, pi, k)),
                forall|k: int|
                    idx <= k < i ==> q_eq((#[trigger] knot@[k])@, knot_q(dgi, pi, k)),
            decreases m - i,
        {
            knot.set(i, Rat::from_int(1));
            i = i + 1;
        }

        // The interior knots: `(i - deg) / (p - deg)`, exactly.
        let num = m - 2 * (deg + 1) + 1;
        proof {
            assert(num == pi - dgi);
        }
        let mut i: usize = deg + 1;
        while i < idx
            invariant
                deg + 1 <= i <= idx,
                idx == m - deg - 1,
                m == deg + p + 1,
                idx == pi,
                dgi == deg as int,
                pi == p as int,
                dgi < pi,
                num == pi - dgi,
                num >= 1,
                num < 0x2000_0000,
                knot@.len() == m,
                rats_wf(knot@),
                forall|k: int|
                    0 <= k < i ==> q_eq((#[trigger] knot@[k])@, knot_q(dgi, pi, k)),
                forall|k: int|
                    idx <= k < m ==> q_eq((#[trigger] knot@[k])@, knot_q(dgi, pi, k)),
            decreases idx - i,
        {
            let ki = Rat::new((i - deg) as i64, num as i64);
            proof {
                assert(ki@ == (Q { n: i - dgi, d: pi - dgi }));
                assert(knot_q(dgi, pi, i as int) == (Q { n: i - dgi, d: pi - dgi }));
            }
            knot.set(i, ki);
            i = i + 1;
        }
        knot
    }

    /// The Cox–de Boor basis function `b_{j,k}(u)`, evaluated exactly by
    /// the recursion, with empty knot spans contributing zero.
    fn calc_basis(&self, j: usize, k: usize, u: &Rat) -> (r: Result<Rat, Error>)
        requires
            rats_wf(self.knot@),
            j + k + 1 < self.knot@.len(),
            u.wf(),
        ensures
            r matches Ok(v) ==> v.wf() && q_eq(
                v@,
                basis_q(q_seq(self.knot@), j as int, k as nat, u@),
            ),
            r matches Err(e) ==> e == Error::NumericalFailure,
        decreases k,
    {
        let ghost qk = q_seq(self.knot@);
        proof {
            lemma_rats_wf(self.knot@);
            assert(qk[j as int] == self.knot@[j as int]@);
            assert(qk[j + 1] == self.knot@[j + 1]@);
            assert(qk[j + k] == self.knot@[j + k]@);
            assert(qk[j + k + 1] == self.knot@[j + k + 1]@);
        }
        let nl = self.knot.len();
        if k == 0 {
            if self.knot[j].le(u) && u.lt(&self.knot[j + 1]) {
                Ok(Rat::from_int(1))
            } else {
                Ok(Rat::from_int(0))
            }
        } else {
            let ghost sw1 = if !q_eq(qk[j + k], qk[j as int]) {
                q_mul(
                    q_div(q_sub(u@, qk[j as int]), q_sub(qk[j + k], qk[j as int])),
                    basis_q(qk, j as int, (k - 1) as nat, u@),
                )
            } else {
                q_zero()
            };
            let ghost sw2 = if !q_eq(qk[j + k + 1], qk[j + 1]) {
                q_mul(
                    q_div(q_sub(qk[j + k + 1], u@), q_sub(qk[j + k + 1], qk[j + 1])),
                    basis_q(qk, j + 1, (k - 1) as nat, u@),
                )
            } else {
                q_zero()
            };
            let dj = checked(self.knot[j + k].sub(self.knot[j]))?;
            let w1 = if !dj.is_zero() {
                let r1 = checked(checked(u.sub(self.knot[j]))?.div(dj))?;
                let b1 = self.calc_basis(j, k - 1, u)?;
                let w = checked(r1.mul(b1))?;
                proof {
                    lemma_basis_q_wf(qk, j as int, (k - 1) as nat, u@);
                    lemma_q_ops_wf(u@, qk[j as int]);
                    lemma_q_ops_wf(qk[j + k], qk[j as int]);
                    lemma_q_ops_wf(q_sub(u@, qk[j as int]), q_sub(qk[j + k], qk[j as int]));
                    lemma_q_mul_cong(
                        r1@,
                        b1@,
                        q_div(q_sub(u@, qk[j as int]), q_sub(qk[j + k], qk[j as int])),
                        basis_q(qk, j as int, (k - 1) as nat, u@),
                    );
                }
                w
            } else {
                Rat::from_int(0)
            };
            let dj2 = checked(self.knot[j + k + 1].sub(self.knot[j + 1]))?;
            let w2 = if !dj2.is_zero() {
                let r2 = checked(checked(self.knot[j + k + 1].sub(*u))?.div(dj2))?;
                let b2 = self.calc_basis(j + 1, k - 1, u)?;
                let w = checked(r2.mul(b2))?;
                proof {
                    lemma_basis_q_wf(qk, j + 1, (k - 1) as nat, u@);
                    lemma_q_ops_wf(qk[j + k + 1], u@);
                    lemma_q_ops_wf(qk[j + k + 1], qk[j + 1]);
                    lemma_q_ops_wf(
                        q_sub(qk[j + k + 1], u@),
                        q_sub(qk[j + k + 1], qk[j + 1]),
                    );
                    lemma_q_mul_cong(
                        r2@,
                        b2@,
                        q_div(q_sub(qk[j + k + 1], u@), q_sub(qk[j + k + 1], qk[j + 1])),
                        basis_q(qk, j + 1, (k - 1) as nat, u@),
                    );
                }
                w
            } else {
                Rat::from_int(0)
            };
            let s = checked(w1.add(w2))?;
            let sn = s.normalize();
            proof {
                assert(q_wf(sw1)) by {
                    if !q_eq(qk[j + k], qk[j as int]) {
                        lemma_basis_q_wf(qk, j as int, (k - 1) as nat, u@);
                        lemma_q_ops_wf(u@, qk[j as int]);
                        lemma_q_ops_wf(qk[j + k], qk[j as int]);
                        lemma_q_ops_wf(
                            q_sub(u@, qk[j as int]),
                            q_sub(qk[j + k], qk[j as int]),
                        );
                        lemma_q_ops_wf(
                            q_div(q_sub(u@, qk[j as int]), q_sub(qk[j + k], qk[j as int])),
                            basis_q(qk, j as int, (k - 1) as nat, u@),
                        );
                    }
                }
                assert(q_wf(sw2)) by {
                    if !q_eq(qk[j + k + 1], qk[j + 1]) {
                        lemma_basis_q_wf(qk, j + 1, (k - 1) as nat, u@);
                        lemma_q_ops_wf(qk[j + k + 1], u@);
                        lemma_q_ops_wf(qk[j + k + 1], qk[j + 1]);
                        lemma_q_ops_wf(
                            q_sub(qk[j + k + 1], u@),
                            q_sub(qk[j + k + 1], qk[j + 1]),
                        );
                        lemma_q_ops_wf(
                            q_div(
                                q_sub(qk[j + k + 1], u@),
                                q_sub(qk[j + k + 1], qk[j + 1]),
                            ),
                            basis_q(qk, j + 1, (k - 1) as nat, u@),
                        );
                    }
                }
                lemma_q_add_cong(w1@, w2@, sw1, sw2);
                lemma_q_ops_wf(w1@, w2@);
                lemma_q_ops_wf(sw1, sw2);
                lemma_q_eq_trans(sn@, q_add(w1@, w2@), q_add(sw1, sw2));
                assert(q_add(sw1, sw2) == basis_q(qk, j as int, k as nat, u@));
            }
            Ok(sn)
        }
    }

    /// Both weighted sums `(sum x_i b_i(u), sum y_i b_i(u))` at one
    /// parameter value.
    fn curve_at(&self, u: &Rat) -> (r: Result<(Rat, Rat), Error>)
        requires
            self.wf(),
            u.wf(),
        ensures
            r matches Ok(p) ==> {
                &&& p.0.wf()
                &&& p.1.wf()
                &&& q_eq(
                    p.0@,
                    curve_sum(
                        q_seq(self.x@),
                        q_seq(self.knot@),
                        self.degree as nat,
                        u@,
                        self.x@.len() as int,
                    ),
                )
                &&& q_eq(
                    p.1@,
                    curve_sum(
                        q_seq(self.y@),
                        q_seq(self.knot@),
                        self.degree as nat,
                        u@,
                        self.x@.len() as int,
                    ),
                )
            },
            r matches Err(e) ==> e == Error::NumericalFailure,
    {
        let ghost qx = q_seq(self.x@);
        let ghost qy = q_seq(self.y@);
        let ghost qk = q_seq(self.knot@);
        let ghost dgn = self.degree as nat;
        proof {
            lemma_rats_wf(self.x@);
            lemma_rats_wf(self.y@);
            lemma_rats_wf(self.knot@);
        }
        let n = self.x.len();
        let mut ax = Rat::from_int(0);
        let mut ay = Rat::from_int(0);
        let mut i: usize = 0;
        while i < n
            invariant
                i <= n,
                n == self.x@.len(),
                self.wf(),
                u.wf(),
                qx == q_seq(self.x@),
                qy == q_seq(self.y@),
                qk == q_seq(self.knot@),
                dgn == self.degree as nat,
                ax.wf(),
                ay.wf(),
                q_eq(ax@, curve_sum(qx, qk, dgn, u@, i as int)),
                q_eq(ay@, curve_sum(qy, qk, dgn, u@, i as int)),
            decreases n - i,
        {
            proof {
                lemma_rats_wf(self.x@);
                lemma_rats_wf(self.y@);
                lemma_rats_wf(self.knot@);
                assert(qx[i as int] == self.x@[i as int]@);
                assert(qy[i as int] == self.y@[i as int]@);
            }
            let bas = self.calc_basis(i, self.degree, u)?;
            let tx = checked(self.x[i].mul(bas))?;
            let ty = checked(self.y[i].mul(bas))?;
            let ax2 = checked(ax.add(tx))?.normalize();
            let ay2 = checked(ay.add(ty))?.normalize();
            proof {
                lemma_basis_q_wf(qk, i as int, dgn, u@);
                lemma_curve_sum_wf(qx, qk, dgn, u@, i as int);
                lemma_curve_sum_wf(qy, qk, dgn, u@, i as int);
                lemma_q_mul_cong(qx[i as int], bas@, qx[i as int], basis_q(qk, i as int, dgn, u@));
                lemma_q_mul_cong(qy[i as int], bas@, qy[i as int], basis_q(qk, i as int, dgn, u@));
                lemma_q_ops_wf(qx[i as int], bas@);
                lemma_q_ops_wf(qy[i as int], bas@);
                lemma_q_ops_wf(qx[i as int], basis_q(qk, i as int, dgn, u@));
                lemma_q_ops_wf(qy[i as int], basis_q(qk, i as int, dgn, u@));
                lemma_q_add_cong(
                    ax@,
                    q_mul(qx[i as int], bas@),
                    curve_sum(qx, qk, dgn, u@, i as int),
                    q_mul(qx[i as int], basis_q(qk, i as int, dgn, u@)),
                );
                lemma_q_add_cong(
                    ay@,
                    q_mul(qy[i as int], bas@),
                    curve_sum(qy, qk, dgn, u@, i as int),
                    q_mul(qy[i as int], basis_q(qk, i as int, dgn, u@)),
                );
                lemma_q_ops_wf(ax@, q_mul(qx[i as int], bas@));
                lemma_q_ops_wf(ay@, q_mul(qy[i as int], bas@));
                lemma_q_ops_wf(
                    curve_sum(qx, qk, dgn, u@, i as int),
                    q_mul(qx[i as int], basis_q(qk, i as int, dgn, u@)),
                );
                lemma_q_ops_wf(
                    curve_sum(qy, qk, dgn, u@, i as int),
                    q_mul(qy[i as int], basis_q(qk, i as int, dgn, u@)),
                );
                lemma_q_eq_trans(
                    ax2@,
                    q_add(ax@, q_mul(qx[i as int], bas@)),
                    q_add(
                        curve_sum(qx, qk, dgn, u@, i as int),
                        q_mul(qx[i as int], basis_q(qk, i as int, dgn, u@)),
                    ),
                );
                lemma_q_eq_trans(
                    ay2@,
                    q_add(ay@, q_mul(qy[i as int], bas@)),
                    q_add(
                        curve_sum(qy, qk, dgn, u@, i as int),
                        q_mul(qy[i as int], basis_q(qk, i as int, dgn, u@)),
                    ),
                );
            }
            ax = ax2;
            ay = ay2;
            i = i + 1;
        }
        Ok((ax, ay))
    }

    /// Evaluate the B-spline at the query abscissa.  A query at or below
    /// `x_0` clamps to `y_0`, one at or above `x_{n-1}` clamps to
    /// `y_{n-1}`; in between, the abscissa is scaled to the parameter
    /// interval, the weighted basis sum is returned, and the
    /// reconstructed abscissa is checked to lie within `1/100` of the
    /// query, failing with `NumericalFailure` otherwise.
    pub fn interpolate(&self, xq: &Rat) -> (r: Result<Rat, Error>)
        requires
            self.wf(),
            xq.wf(),
        ensures
            q_le(xq@, q_seq(self.x@)[0]) ==> r == Ok::<Rat, Error>(self.y@[0]),
            !q_le(xq@, q_seq(self.x@)[0]) && q_le(q_seq(self.x@)[self.x@.len() - 1], xq@)
                ==> r == Ok::<Rat, Error>(self.y@[self.x@.len() - 1]),
            r matches Ok(v) ==> v.wf() && self.interp_result(xq@, v),
            r matches Err(e) ==> e == Error::NumericalFailure,
    {
        let ghost qx = q_seq(self.x@);
        let ghost qk = q_seq(self.knot@);
        let ghost dgn = self.degree as nat;
        proof {
            lemma_rats_wf(self.x@);
            lemma_rats_wf(self.y@);
            assert(qx[0] == self.x@[0]@);
            assert(qx[qx.len() - 1] == self.x@[self.x@.len() - 1]@);
        }
        let n = self.x.len();
        if xq.le(&self.x[0]) {
            return Ok(self.y[0]);
        }
        if self.x[n - 1].le(xq) {
            return Ok(self.y[n - 1]);
        }
        proof {
            lemma_q_inc_at(qx, 0, qx.len() - 1);
            lemma_q_sub_pos(qx[0], qx[qx.len() - 1]);
        }
        let tnum = checked(xq.sub(self.x[0]))?;
        let tden = checked(self.x[n - 1].sub(self.x[0]))?;
        let u = checked(tnum.div(tden))?;
        let (ax, ay) = self.curve_at(&u)?;
        let diff = checked(ax.sub(*xq))?;
        let lim = Rat::new(1, 100);
        let neg = Rat::new(-1, 100);
        proof {
            let sax = curve_sum(qx, qk, dgn, u@, qx.len() as int);
            lemma_curve_sum_wf(qx, qk, dgn, u@, qx.len() as int);
            lemma_q_sub_cong(ax@, xq@, sax, xq@);
            lemma_q_ops_wf(ax@, xq@);
            lemma_q_ops_wf(sax, xq@);
            lemma_q_lt_cong(q_sub(ax@, xq@), lim@, q_sub(sax, xq@), lim@);
            lemma_q_lt_cong(neg@, q_sub(ax@, xq@), neg@, q_sub(sax, xq@));
        }
        if !(diff.lt(&lim) && neg.lt(&diff)) {
            return Err(Error::NumericalFailure);
        }
        Ok(ay)
    }

    /// Interpolate at each query point in order; semantically the map of
    /// `interpolate` over the queries.
    pub fn interpolate_vec(&self, t: &Vec<Rat>) -> (r: Result<Vec<Rat>, Error>)
        requires
            self.wf(),
            rats_wf(t@),
        ensures
            r matches Ok(vs) ==> vs@.len() == t@.len() && forall|i: int|
                0 <= i < t@.len() ==> (#[trigger] vs@[i]).wf() && self.interp_result(
                    t@[i]@,
                    vs@[i],
                ),
            r matches Err(e) ==> e == Error::NumericalFailure,
    {
        let mut out: Vec<Rat> = Vec::new();
        let mut k: usize = 0;
        while k < t.len()
            invariant
                self.wf(),
                rats_wf(t@),
                k <= t@.len(),
                out@.len() == k,
                forall|i: int|
                    0 <= i < k ==> (#[trigger] out@[i]).wf() && self.interp_result(
                        t@[i]@,
                        out@[i],
                    ),
            decreases t@.len() - k,
        {
            let v = self.interpolate(&t[k])?;
            out.push(v);
            k = k + 1;
        }
        Ok(out)
    }

    /// The value of one basis function at a query abscissa, after the
    /// same scaling and boundary clamping as `interpolate` (a clamped
    /// query returns the boundary ordinate, as `interpolate` does).
    pub fn get_basis(&self, xq: &Rat, dim: usize) -> (r: Result<Rat, Error>)
        requires
            self.wf(),
            xq.wf(),
            dim < self.x@.len(),
        ensures
            q_le(xq@, q_seq(self.x@)[0]) ==> r == Ok::<Rat, Error>(self.y@[0]),
            !q_le(xq@, q_seq(self.x@)[0]) && q_le(q_seq(self.x@)[self.x@.len() - 1], xq@)
                ==> r == Ok::<Rat, Error>(self.y@[self.x@.len() - 1]),
            r matches Ok(v) ==> v.wf() && self.basis_result(dim as int, xq@, v),
            r matches Err(e) ==> e == Error::NumericalFailure,
    {
        let ghost qx = q_seq(self.x@);
        proof {
            lemma_rats_wf(self.x@);
            lemma_rats_wf(self.y@);
            assert(qx[0] == self.x@[0]@);
            assert(qx[qx.len() - 1] == self.x@[self.x@.len() - 1]@);
        }
        let n = self.x.len();
        if xq.le(&self.x[0]) {
            return Ok(self.y[0]);
        }
        if self.x[n - 1].le(xq) {
            return Ok(self.y[n - 1]);
        }
        proof {
            lemma_q_inc_at(qx, 0, qx.len() - 1);
            lemma_q_sub_pos(qx[0], qx[qx.len() - 1]);
        }
        let tnum = checked(xq.sub(self.x[0]))?;
        let tden = checked(self.x[n - 1].sub(self.x[0]))?;
        let u = checked(tnum.div(tden))?;
        self.calc_basis(dim, self.degree, &u)
    }

    /// The value of one basis function at each query point in order.
    pub fn get_basis_vec(&self, t: &Vec<Rat>, dim: usize) -> (r: Result<Vec<Rat>, Error>)
        requires
            self.wf(),
            rats_wf(t@),
            dim < self.x@.len(),
        ensures
            r matches Ok(vs) ==> vs@.len() == t@.len() && forall|i: int|
                0 <= i < t@.len() ==> (#[trigger] vs@[i]).wf() && self.basis_result(
                    dim as int,
                    t@[i]@,
                    vs@[i],
                ),
            r matches Err(e) ==> e == Error::NumericalFailure,
    {
        let mut out: Vec<Rat> = Vec::new();
        let mut k: usize = 0;
        while k < t.len()
            invariant
                self.wf(),
                rats_wf(t@),
                dim < self.x@.len(),
                k <= t@.len(),
                out@.len() == k,
                forall|i: int|
                    0 <= i < k ==> (#[trigger] out@[i]).wf() && self.basis_result(
                        dim as int,
                        t@[i]@,
                        out@[i],
                    ),
            decreases t@.len() - k,
        {
            let v = self.get_basis(&t[k], dim)?;
            out.push(v);
            k = k + 1;
        }
        Ok(out)
    }

    /// Sample the curve at `count` uniformly spaced parameter values
    /// `u_k = k / count`, returning the reconstructed abscissas and
    /// ordinates `(sum x_i b_i(u_k), sum y_i b_i(u_k))` pairwise.
    pub fn sample_curve(&self, count: usize) -> (r: Result<(Vec<Rat>, Vec<Rat>), Error>)
        requires
            self.wf(),
            count < 0x8000_0000_0000_0000,
        ensures
            r matches Ok(p) ==> {
                &&& p.0@.len() == count
                &&& p.1@.len() == count
                &&& forall|k: int|
                    0 <= k < count ==> q_eq(
                        (#[trigger] p.0@[k])@,
                        curve_sum(
                            q_seq(self.x@),
                            q_seq(self.knot@),
                            self.degree as nat,
                            Q { n: k, d: count as int },
                            self.x@.len() as int,
                        ),
                    ) && p.0@[k].wf()
                &&& forall|k: int|
                    0 <= k < count ==> q_eq(
                        (#[trigger] p.1@[k])@,
                        curve_sum(
                            q_seq(self.y@),
                            q_seq(self.knot@),
                            self.degree as nat,
                            Q { n: k, d: count as int },
                            self.x@.len() as int,
                        ),
                    ) && p.1@[k].wf()
            },
            r matches Err(e) ==> e == Error::NumericalFailure,
    {
        let mut xs: Vec<Rat> = Vec::new();
        let mut ys: Vec<Rat> = Vec::new();
        let mut k: usize = 0;
        while k < count
            invariant
                self.wf(),
                k <= count,
                count < 0x8000_0000_0000_0000,
                xs@.len() == k,
                ys@.len() == k,
                forall|k2: int|
                    0 <= k2 < k ==> q_eq(
                        (#[trigger] xs@[k2])@,
                        curve_sum(
                            q_seq(self.x@),
                            q_seq(self.knot@),
                            self.degree as nat,
                            Q { n: k2, d: count as int },
                            self.x@.len() as int,
                        ),
                    ) && xs@[k2].wf(),
                forall|k2: int|
                    0 <= k2 < k ==> q_eq(
                        (#[trigger] ys@[k2])@,
                        curve_sum(
                            q_seq(self.y@),
                            q_seq(self.knot@),
                            self.degree as nat,
                            Q { n: k2, d: count as int },
                            self.x@.len() as int,
                        ),
                    ) && ys@[k2].wf(),
            decreases count - k,
        {
            let u = Rat::new(k as i64, count as i64);
            let (ax, ay) = self.curve_at(&u)?;
            xs.push(ax);
            ys.push(ay);
            k = k + 1;
        }
        Ok((xs, ys))
    }
}

} // verus!
