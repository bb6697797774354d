//! Natural cubic spline, computed by a tridiagonal Thomas-algorithm sweep.
//!
//! Construction and coefficient computation are two separate phases: a
//! freshly built `CubicSpline` has no coefficients, and queries fail with
//! `NotComputed` until `calc_spline` has run.

use vstd::prelude::*;
use crate::Error;
use crate::rational::{Q, Rat, q_seq, q_wf, qs_wf, rats_wf, lemma_rats_wf, q_inc, q_eq, q_add,
    q_sub, q_mul, q_div, q_int, q_zero, q_one, q_lt, q_le, q_fits, checked, rat_zeros};
use crate::segment::{seg_idx, find_segment};
use crate::tridiagonal::{h_of, rhs_of, row_at, is_natural_c, b_of, d_of, spline_coeffs_ok,
    lemma_l_form, lemma_thomas_l_pos, lemma_row_equiv};
use crate::algebra::{lemma_q_eq_sym, lemma_q_eq_trans, lemma_q_ops_wf, lemma_q_sub_pos,
    lemma_q_le_cong, lemma_q_lt_cong, lemma_q_div_bounds};

verus! {

/// The value of segment `i`'s cubic polynomial at offset `hh = t - x_i`:
/// `a_i + b_i hh + c_i hh^2 + d_i hh^3`.
pub open spec fn spline_val(a: Seq<Q>, b: Seq<Q>, c: Seq<Q>, d: Seq<Q>, i: int, hh: Q) -> Q {
    q_add(
        q_add(q_add(a[i], q_mul(b[i], hh)), q_mul(c[i], q_mul(hh, hh))),
        q_mul(d[i], q_mul(q_mul(hh, hh), hh)),
    )
}

/// Every intermediate of the segment polynomial's evaluation on segment
/// `i` at abscissa `t` fits into an `i64`, so the evaluation succeeds.
pub open spec fn spline_eval_fits(
    xs: Seq<Q>,
    a: Seq<Q>,
    b: Seq<Q>,
    c: Seq<Q>,
    d: Seq<Q>,
    i: int,
    t: Q,
) -> bool {
    let hh = q_sub(t, xs[i]);
    let h2 = q_mul(hh, hh);
    let h3 = q_mul(h2, hh);
    let bm = q_mul(b[i], hh);
    let s1 = q_add(a[i], bm);
    let cm = q_mul(c[i], h2);
    let s2 = q_add(s1, cm);
    let dm = q_mul(d[i], h3);
    let v = q_add(s2, dm);
    q_fits(hh) && q_fits(h2) && q_fits(h3) && q_fits(bm) && q_fits(s1) && q_fits(cm)
        && q_fits(s2) && q_fits(dm) && q_fits(v)
}

/// The coefficient arrays of a computed cubic spline.
pub struct SplineCoef {
    pub a: Vec<Rat>,
    pub b: Vec<Rat>,
    pub c: Vec<Rat>,
    pub d: Vec<Rat>,
}

/// One entry of the forward elimination sweep: the pivot `l_k`, the
/// multiplier `u_k = h_k / l_k` with its range, and the swept right-hand
/// side `z_k`, each tied to its defining recurrence.
pub open spec fn sweep_inv(
    xs: Seq<Q>,
    ys: Seq<Q>,
    l: Seq<Rat>,
    u: Seq<Rat>,
    z: Seq<Rat>,
    k: int,
) -> bool {
    &&& l[k].wf()
    &&& u[k].wf()
    &&& z[k].wf()
    &&& q_eq(
        l[k]@,
        q_sub(
            q_mul(q_int(2), q_add(h_of(xs, k - 1), h_of(xs, k))),
            q_mul(h_of(xs, k - 1), u[k - 1]@),
        ),
    )
    &&& q_eq(u[k]@, q_div(h_of(xs, k), l[k]@))
    &&& q_eq(z[k]@, q_div(q_sub(rhs_of(xs, ys, k), q_mul(h_of(xs, k - 1), z[k - 1]@)), l[k]@))
    &&& q_lt(q_zero(), l[k]@)
    &&& l[k]@.n > 0
    &&& q_le(q_zero(), u[k]@)
    &&& q_lt(u[k]@, q_one())
}

/// One entry of the back substitution: `c_k = z_k - u_k c_{k+1}`.
pub open spec fn backsub_inv(c: Seq<Rat>, u: Seq<Rat>, z: Seq<Rat>, k: int) -> bool {
    &&& c[k].wf()
    &&& q_eq(c[k]@, q_sub(z[k]@, q_mul(u[k]@, c[k + 1]@)))
}

/// A cubic-spline interpolator over samples `(x_i, y_i)`.
pub struct CubicSpline {
    pub x: Vec<Rat>,
    pub y: Vec<Rat>,
    pub coef: Option<SplineCoef>,
}

impl CubicSpline {
    /// Valid sample data: equally many abscissas and ordinates, at least
    /// two samples, all entries well-formed, abscissas strictly increasing.
    pub open spec fn data_wf(self) -> bool {
        &&& self.x@.len() == self.y@.len()
        &&& self.x@.len() >= 2
        &&& rats_wf(self.x@)
        &&& rats_wf(self.y@)
        &&& q_inc(q_seq(self.x@))
    }

    /// Whether the coefficients have been computed.
    pub open spec fn computed(self) -> bool {
        self.coef is Some
    }

    /// The stored coefficients (meaningful only when computed).
    pub open spec fn coefs(self) -> SplineCoef
        recommends
            self.computed(),
    {
        self.coef->Some_0
    }

    /// Any stored coefficients are the natural-spline coefficients.
    pub open spec fn coef_wf(self) -> bool {
        self.coef matches Some(co) ==> {
            &&& co.a@.len() == self.x@.len()
            &&& co.b@.len() == self.x@.len() - 1
            &&& co.c@.len() == self.x@.len()
            &&& co.d@.len() == self.x@.len() - 1
            &&& rats_wf(co.a@)
            &&& rats_wf(co.b@)
            &&& rats_wf(co.c@)
            &&& rats_wf(co.d@)
            &&& spline_coeffs_ok(
                q_seq(self.x@),
                q_seq(self.y@),
                q_seq(co.a@),
                q_seq(co.b@),
                q_seq(co.c@),
                q_seq(co.d@),
            )
        }
    }

    pub open spec fn wf(self) -> bool {
        self.data_wf() && self.coef_wf()
    }

    /// Build an interpolator with no coefficients yet.  The abscissas are
    /// assumed strictly increasing; mismatched lengths are rejected.
    pub fn new(x: Vec<Rat>, y: Vec<Rat>) -> (r: Result<CubicSpline, Error>)
        requires
            x@.len() >= 2,
            rats_wf(x@),
            rats_wf(y@),
            q_inc(q_seq(x@)),
        ensures
            r matches Ok(s) ==> s.wf() && !s.computed() && s.x@ == x@ && s.y@ == y@,
            r is Err <==> x@.len() != y@.len(),
            r matches Err(e) ==> e == Error::InvalidInput,
    {
        if x.len() != y.len() {
            return Err(Error::InvalidInput);
        }
        Ok(CubicSpline { x, y, coef: None })
    }

    /// Compute the natural-spline coefficient arrays `(a, b, c, d)` by
    /// the Thomas-algorithm sweep.  On success the returned `c` solves
    /// the natural tridiagonal system exactly, `a` copies the ordinates,
    /// and `b`, `d` satisfy their closed formulas — which pins all four
    /// arrays down up to rational equality, by the system's uniqueness.
    pub fn calc_spline_coef(&self) -> (r: Result<(Vec<Rat>, Vec<Rat>, Vec<Rat>, Vec<Rat>), Error>)
        requires
            self.data_wf(),
        ensures
            r matches Ok(t) ==> {
                &&& t.0@.len() == self.x@.len()
                &&& t.1@.len() == self.x@.len() - 1
                &&& t.2@.len() == self.x@.len()
                &&& t.3@.len() == self.x@.len() - 1
                &&& rats_wf(t.0@)
                &&& rats_wf(t.1@)
                &&& rats_wf(t.2@)
                &&& rats_wf(t.3@)
                &&& spline_coeffs_ok(
                    q_seq(self.x@),
                    q_seq(self.y@),
                    q_seq(t.0@),
                    q_seq(t.1@),
                    q_seq(t.2@),
                    q_seq(t.3@),
                )
            },
            r matches Err(e) ==> e == Error::NumericalFailure,
    {
        let ghost qx = q_seq(self.x@);
        let ghost qy = q_seq(self.y@);
        proof {
            lemma_rats_wf(self.x@);
            lemma_rats_wf(self.y@);
        }
        let n = self.x.len() - 1;

        // a_i = y_i.
        let mut a: Vec<Rat> = Vec::new();
        let mut i: usize = 0;
        while i <= n
            invariant
                i <= n + 1,
                n < usize::MAX,
                n + 1 == self.x@.len(),
                self.data_wf(),
                a@.len() == i,
                forall|k: int| 0 <= k < i ==> a@[k] == self.y@[k],
            decreases n + 1 - i,
        {
            a.push(self.y[i]);
            i = i + 1;
        }

        // h_i = x_{i+1} - x_i.
        let mut h: Vec<Rat> = Vec::new();
        let mut i: usize = 0;
        while i < n
            invariant
                i <= n,
                n + 1 == self.x@.len(),
                self.data_wf(),
                qx == q_seq(self.x@),
                h@.len() == i,
                forall|k: int|
                    0 <= k < i ==> (#[trigger] h@[k])@ == h_of(qx, k) && h@[k].wf(),
            decreases n - i,
        {
            proof {
                lemma_rats_wf(self.x@);
                assert(qx[i as int] == self.x@[i as int]@);
                assert(qx[i + 1] == self.x@[i + 1]@);
            }
            let hi = checked(self.x[i + 1].sub(self.x[i]))?;
            h.push(hi);
            i = i + 1;
        }

        // Interior right-hand sides.
        let mut m: Vec<Rat> = Vec::new();
        m.push(Rat::from_int(0));
        let mut i: usize = 1;
        while i < n
            invariant
                1 <= i <= n || (n < 1 && i == 1),
                n + 1 == self.x@.len(),
                self.data_wf(),
                qx == q_seq(self.x@),
                qy == q_seq(self.y@),
                h@.len() == n,
                forall|k: int|
                    0 <= k < n ==> (#[trigger] h@[k])@ == h_of(qx, k) && h@[k].wf(),
                m@.len() == i,
                forall|k: int|
                    1 <= k < i ==> (#[trigger] m@[k])@ == rhs_of(qx, qy, k) && m@[k].wf(),
            decreases n - i,
        {
            proof {
                lemma_rats_wf(self.x@);
                lemma_rats_wf(self.y@);
                assert(qx[i - 1] == self.x@[i - 1]@);
                assert(qx[i as int] == self.x@[i as int]@);
                assert(qx[i + 1] == self.x@[i + 1]@);
                assert(qy[i - 1] == self.y@[i - 1]@);
                assert(qy[i as int] == self.y@[i as int]@);
                assert(qy[i + 1] == self.y@[i + 1]@);
                assert(q_lt(qx[i - 1], qx[i as int]));
                assert(q_lt(qx[i as int], qx[i + 1]));
                lemma_q_sub_pos(qx[i - 1], qx[i as int]);
                lemma_q_sub_pos(qx[i as int], qx[i + 1]);
            }
            let d1 = checked(self.y[i + 1].sub(self.y[i]))?;
            let t1 = checked(Rat::from_int(3).mul(d1))?;
            let t1 = checked(t1.div(h[i]))?;
            let d2 = checked(self.y[i].sub(self.y[i - 1]))?;
            let t2 = checked(Rat::from_int(3).mul(d2))?;
            let t2 = checked(t2.div(h[i - 1]))?;
            let mi = checked(t1.sub(t2))?;
            m.push(mi);
            i = i + 1;
        }

        // Forward elimination.
        let mut lv: Vec<Rat> = Vec::new();
        let mut uv: Vec<Rat> = Vec::new();
        let mut zv: Vec<Rat> = Vec::new();
        lv.push(Rat::from_int(1));
        uv.push(Rat::from_int(0));
        zv.push(Rat::from_int(0));
        let mut i: usize = 1;
        while i < n
            invariant
                1 <= i <= n || (n < 1 && i == 1),
                n + 1 == self.x@.len(),
                self.data_wf(),
                qx == q_seq(self.x@),
                qy == q_seq(self.y@),
                h@.len() == n,
                forall|k: int|
                    0 <= k < n ==> (#[trigger] h@[k])@ == h_of(qx, k) && h@[k].wf(),
                m@.len() == n || (n < 1 && m@.len() == 1),
                forall|k: int|
                    1 <= k < n ==> (#[trigger] m@[k])@ == rhs_of(qx, qy, k) && m@[k].wf(),
                lv@.len() == i,
                uv@.len() == i,
                zv@.len() == i,
                lv@[0].wf(),
                uv@[0].wf(),
                zv@[0].wf(),
                uv@[0]@ == q_zero(),
                zv@[0]@ == q_zero(),
                forall|k: int| 1 <= k < i ==> #[trigger] sweep_inv(qx, qy, lv@, uv@, zv@, k),
            decreases n - i,
        {
            proof {
                lemma_rats_wf(self.x@);
                assert(qx[i - 1] == self.x@[i - 1]@);
                assert(qx[i as int] == self.x@[i as int]@);
                assert(qx[i + 1] == self.x@[i + 1]@);
                assert(q_lt(qx[i - 1], qx[i as int]));
                assert(q_lt(qx[i as int], qx[i + 1]));
                lemma_q_sub_pos(qx[i - 1], qx[i as int]);
                lemma_q_sub_pos(qx[i as int], qx[i + 1]);
                if i > 1 {
                    assert(sweep_inv(qx, qy, lv@, uv@, zv@, i - 1));
                }
            }
            let ghost lv0 = lv@;
            let ghost uv0 = uv@;
            let ghost zv0 = zv@;
            let xd = checked(self.x[i + 1].sub(self.x[i - 1]))?;
            let t2 = checked(Rat::from_int(2).mul(xd))?;
            let wp = checked(h[i - 1].mul(uv[i - 1]))?;
            let lraw = checked(t2.sub(wp))?;
            let li = lraw.normalize();
            proof {
                let hm = h_of(qx, i - 1);
                let hh = h_of(qx, i as int);
                let up = uv@[i - 1]@;
                lemma_l_form(qx, i as int, up);
                lemma_q_ops_wf(hm, hh);
                lemma_q_ops_wf(q_int(2), q_add(hm, hh));
                lemma_q_ops_wf(hm, up);
                lemma_q_ops_wf(q_mul(q_int(2), q_add(hm, hh)), q_mul(hm, up));
                lemma_q_eq_trans(
                    li@,
                    lraw@,
                    q_sub(q_mul(q_int(2), q_add(hm, hh)), q_mul(hm, up)),
                );
                lemma_thomas_l_pos(hm, hh, up, li@);
            }
            lv.push(li);
            let uraw = checked(h[i].div(li))?;
            let ui = uraw.normalize();
            let hz = checked(h[i - 1].mul(zv[i - 1]))?;
            let znum = checked(m[i].sub(hz))?;
            let zraw = checked(znum.div(li))?;
            let zi = zraw.normalize();
            proof {
                let hm = h_of(qx, i - 1);
                let hh = h_of(qx, i as int);
                let dv = q_div(hh, li@);
                lemma_q_ops_wf(hh, li@);
                lemma_q_eq_trans(ui@, uraw@, dv);
                lemma_q_div_bounds(hh, li@);
                lemma_q_eq_sym(ui@, dv);
                lemma_q_le_cong(q_zero(), dv, q_zero(), ui@);
                lemma_q_lt_cong(dv, q_one(), ui@, q_one());
                let zf = q_div(q_sub(rhs_of(qx, qy, i as int), q_mul(hm, zv@[i - 1]@)), li@);
                lemma_q_ops_wf(hm, zv@[i - 1]@);
                lemma_q_ops_wf(rhs_of(qx, qy, i as int), q_mul(hm, zv@[i - 1]@));
                lemma_q_ops_wf(
                    q_sub(rhs_of(qx, qy, i as int), q_mul(hm, zv@[i - 1]@)),
                    li@,
                );
                lemma_q_eq_trans(zi@, zraw@, zf);
            }
            uv.push(ui);
            zv.push(zi);
            proof {
                assert(sweep_inv(qx, qy, lv@, uv@, zv@, i as int));
                assert forall|k: int|
                    1 <= k < i implies #[trigger] sweep_inv(qx, qy, lv@, uv@, zv@, k) by {
                    assert(sweep_inv(qx, qy, lv0, uv0, zv0, k));
                    assert(lv@[k] == lv0[k]);
                    assert(uv@[k] == uv0[k]);
                    assert(zv@[k] == zv0[k]);
                    assert(uv@[k - 1] == uv0[k - 1]);
                    assert(zv@[k - 1] == zv0[k - 1]);
                }
            }
            i = i + 1;
        }

        // Back substitution.
        let mut c = rat_zeros(n + 1);
        let mut b = rat_zeros(n);
        let mut d = rat_zeros(n);
        proof {
            assert(c@[n as int]@ == q_zero());
            assert(c@[n as int].wf());
        }
        let mut j: usize = n;
        while j > 0
            invariant
                j <= n,
                n + 1 == self.x@.len(),
                self.data_wf(),
                qx == q_seq(self.x@),
                qy == q_seq(self.y@),
                a@.len() == n + 1,
                forall|k: int| 0 <= k < n + 1 ==> a@[k] == self.y@[k],
                h@.len() == n,
                forall|k: int|
                    0 <= k < n ==> (#[trigger] h@[k])@ == h_of(qx, k) && h@[k].wf(),
                lv@.len() == n,
                uv@.len() == n,
                zv@.len() == n,
                lv@[0].wf(),
                uv@[0].wf(),
                zv@[0].wf(),
                uv@[0]@ == q_zero(),
                zv@[0]@ == q_zero(),
                forall|k: int| 1 <= k < n ==> #[trigger] sweep_inv(qx, qy, lv@, uv@, zv@, k),
                c@.len() == n + 1,
                b@.len() == n,
                d@.len() == n,
                c@[n as int].wf(),
                c@[n as int]@ == q_zero(),
                forall|k: int| j <= k < n ==> #[trigger] backsub_inv(c@, uv@, zv@, k),
                forall|k: int|
                    j <= k < n ==> (#[trigger] b@[k]).wf() && q_eq(
                        b@[k]@,
                        b_of(qx, qy, q_seq(c@), k),
                    ),
                forall|k: int|
                    j <= k < n ==> (#[trigger] d@[k]).wf() && q_eq(
                        d@[k]@,
                        d_of(qx, q_seq(c@), k),
                    ),
            decreases j,
        {
            j = j - 1;
            let ghost c_old = c@;
            let ghost b_old = b@;
            let ghost d_old = d@;
            proof {
                lemma_rats_wf(self.x@);
                lemma_rats_wf(self.y@);
                assert(qx[j as int] == self.x@[j as int]@);
                assert(qx[j + 1] == self.x@[j + 1]@);
                assert(q_lt(qx[j as int], qx[j + 1]));
                lemma_q_sub_pos(qx[j as int], qx[j + 1]);
                if j >= 1 {
                    assert(sweep_inv(qx, qy, lv@, uv@, zv@, j as int));
                }
                if j + 1 < n {
                    assert(backsub_inv(c@, uv@, zv@, j + 1));
                }
            }
            let w = checked(uv[j].mul(c[j + 1]))?;
            let craw = checked(zv[j].sub(w))?;
            let cj = craw.normalize();
            c.set(j, cj);
            proof {
                assert(c@ == c_old.update(j as int, cj));
                lemma_q_ops_wf(uv@[j as int]@, c@[j + 1]@);
                lemma_q_ops_wf(zv@[j as int]@, q_mul(uv@[j as int]@, c@[j + 1]@));
                lemma_q_eq_trans(
                    c@[j as int]@,
                    craw@,
                    q_sub(zv@[j as int]@, q_mul(uv@[j as int]@, c@[j + 1]@)),
                );
                assert(backsub_inv(c@, uv@, zv@, j as int));
            }
            let ady = checked(a[j + 1].sub(a[j]))?;
            let t1 = checked(ady.div(h[j]))?;
            let c2 = checked(Rat::from_int(2).mul(c[j]))?;
            let cc = checked(c[j + 1].add(c2))?;
            let t2n = checked(h[j].mul(cc))?;
            let t2 = checked(t2n.div(Rat::from_int(3)))?;
            let bj = checked(t1.sub(t2))?;
            let bjn = bj.normalize();
            b.set(j, bjn);
            let dnum = checked(c[j + 1].sub(c[j]))?;
            let dden = checked(Rat::from_int(3).mul(h[j]))?;
            let dj = checked(dnum.div(dden))?;
            let djn = dj.normalize();
            d.set(j, djn);
            proof {
                lemma_q_eq_trans(b@[j as int]@, bj@, b_of(qx, qy, q_seq(c@), j as int));
                lemma_q_eq_trans(d@[j as int]@, dj@, d_of(qx, q_seq(c@), j as int));
                assert forall|k: int| j < k < n implies #[trigger] backsub_inv(c@, uv@, zv@, k)
                    by {
                    assert(backsub_inv(c_old, uv@, zv@, k));
                    assert(c@[k] == c_old[k]);
                    assert(c@[k + 1] == c_old[k + 1]);
                }
                assert forall|k: int|
                    j < k < n implies (#[trigger] b@[k]).wf() && q_eq(
                        b@[k]@,
                        b_of(qx, qy, q_seq(c@), k),
                    ) by {
                    assert(b_old[k].wf() && q_eq(b_old[k]@, b_of(qx, qy, q_seq(c_old), k)));
                    assert(b@[k] == b_old[k]);
                    assert(q_seq(c@)[k] == q_seq(c_old)[k]);
                    assert(q_seq(c@)[k + 1] == q_seq(c_old)[k + 1]);
                }
                assert forall|k: int|
                    j < k < n implies (#[trigger] d@[k]).wf() && q_eq(
                        d@[k]@,
                        d_of(qx, q_seq(c@), k),
                    ) by {
                    assert(d_old[k].wf() && q_eq(d_old[k]@, d_of(qx, q_seq(c_old), k)));
                    assert(d@[k] == d_old[k]);
                    assert(q_seq(c@)[k] == q_seq(c_old)[k]);
                    assert(q_seq(c@)[k + 1] == q_seq(c_old)[k + 1]);
                }
            }
        }

        proof {
            let qa = q_seq(a@);
            let qb = q_seq(b@);
            let qc = q_seq(c@);
            let qd = q_seq(d@);
            // c solves the natural system.
            if n >= 1 {
                assert(backsub_inv(c@, uv@, zv@, 0));
                assert(c@[1].wf()) by {
                    if n > 1 {
                        assert(backsub_inv(c@, uv@, zv@, 1));
                    }
                }
                let r0 = q_sub(zv@[0]@, q_mul(uv@[0]@, c@[1]@));
                lemma_q_ops_wf(uv@[0]@, c@[1]@);
                lemma_q_ops_wf(zv@[0]@, q_mul(uv@[0]@, c@[1]@));
                assert(r0.n == 0) by (nonlinear_arith)
                    requires
                        r0 == q_sub(zv@[0]@, q_mul(uv@[0]@, c@[1]@)),
                        zv@[0]@.n == 0,
                        uv@[0]@.n == 0;
                assert(q_eq(r0, q_zero()));
                lemma_q_eq_trans(c@[0]@, r0, q_zero());
            }
            assert(qc[0] == c@[0]@);
            assert(qc[n as int] == c@[n as int]@);
            assert forall|i2: int| 1 <= i2 < n implies q_eq(
                #[trigger] row_at(qx, qc, i2),
                rhs_of(qx, qy, i2),
            ) by {
                assert(sweep_inv(qx, qy, lv@, uv@, zv@, i2));
                if i2 > 1 {
                    assert(sweep_inv(qx, qy, lv@, uv@, zv@, i2 - 1));
                }
                assert(backsub_inv(c@, uv@, zv@, i2 - 1));
                assert(backsub_inv(c@, uv@, zv@, i2));
                if i2 + 1 < n {
                    assert(backsub_inv(c@, uv@, zv@, i2 + 1));
                }
                assert(qx[i2 - 1] == self.x@[i2 - 1]@);
                assert(qx[i2] == self.x@[i2]@);
                assert(qx[i2 + 1] == self.x@[i2 + 1]@);
                assert(q_lt(qx[i2 - 1], qx[i2]));
                assert(q_lt(qx[i2], qx[i2 + 1]));
                lemma_q_sub_pos(qx[i2 - 1], qx[i2]);
                lemma_q_sub_pos(qx[i2], qx[i2 + 1]);
                crate::tridiagonal::lemma_rhs_wf(qx, qy, i2);
                assert(qc[i2 - 1] == c@[i2 - 1]@);
                assert(qc[i2] == c@[i2]@);
                assert(qc[i2 + 1] == c@[i2 + 1]@);
                lemma_row_equiv(
                    h_of(qx, i2 - 1),
                    h_of(qx, i2),
                    uv@[i2 - 1]@,
                    zv@[i2 - 1]@,
                    lv@[i2]@,
                    uv@[i2]@,
                    zv@[i2]@,
                    c@[i2 - 1]@,
                    c@[i2]@,
                    c@[i2 + 1]@,
                    rhs_of(qx, qy, i2),
                );
            }
            assert(qs_wf(qc)) by {
                assert forall|k: int| 0 <= k < qc.len() implies q_wf(#[trigger] qc[k]) by {
                    if k < n {
                        if k == 0 && n == 0 {
                        } else if n <= k {
                        } else {
                            assert(backsub_inv(c@, uv@, zv@, k));
                        }
                    }
                    assert(qc[k] == c@[k]@);
                }
            }
            assert(is_natural_c(qx, qy, qc));
            assert forall|k: int| 0 <= k < qa.len() implies q_wf(#[trigger] qa[k]) by {
                assert(qa[k] == a@[k]@);
                assert(a@[k] == self.y@[k]);
            }
            assert forall|k: int| 0 <= k < qb.len() implies q_wf(#[trigger] qb[k]) by {
                assert(qb[k] == b@[k]@);
            }
            assert forall|k: int| 0 <= k < qd.len() implies q_wf(#[trigger] qd[k]) by {
                assert(qd[k] == d@[k]@);
            }
            assert forall|k: int| 0 <= k <= n implies q_eq(#[trigger] qa[k], qy[k]) by {
                assert(qa[k] == a@[k]@);
                assert(a@[k] == self.y@[k]);
                assert(qy[k] == self.y@[k]@);
            }
            assert forall|k: int| 0 <= k < n implies q_eq(#[trigger] qb[k], b_of(qx, qy, qc, k))
                by {
                assert(b@[k].wf() && q_eq(b@[k]@, b_of(qx, qy, q_seq(c@), k)));
                assert(qb[k] == b@[k]@);
            }
            assert forall|k: int| 0 <= k < n implies q_eq(#[trigger] qd[k], d_of(qx, qc, k)) by {
                assert(d@[k].wf() && q_eq(d@[k]@, d_of(qx, q_seq(c@), k)));
                assert(qd[k] == d@[k]@);
            }
            assert(spline_coeffs_ok(qx, qy, qa, qb, qc, qd));
            assert forall|k: int| 0 <= k < a@.len() implies (#[trigger] a@[k]).wf() by {
                assert(a@[k] == self.y@[k]);
            }
            assert(rats_wf(a@));
            assert(rats_wf(b@)) by {
                assert forall|k: int| 0 <= k < b@.len() implies (#[trigger] b@[k]).wf() by {
                }
            }
            assert(rats_wf(d@)) by {
                assert forall|k: int| 0 <= k < d@.len() implies (#[trigger] d@[k]).wf() by {
                }
            }
            assert(rats_wf(c@)) by {
                assert forall|k: int| 0 <= k < c@.len() implies (#[trigger] c@[k]).wf() by {
                    assert(q_wf(qc[k]));
                    assert(qc[k] == c@[k]@);
                }
            }
        }
        Ok((a, b, c, d))
    }

    /// Compute and store the spline coefficients; queries are valid after
    /// this succeeds.
    pub fn calc_spline(&mut self) -> (r: Result<(), Error>)
        requires
            old(self).data_wf(),
        ensures
            final(self).x@ == old(self).x@,
            final(self).y@ == old(self).y@,
            r is Ok ==> final(self).wf() && final(self).computed(),
            r matches Err(e) ==> e == Error::NumericalFailure && *final(self) == *old(self),
    {
        match self.calc_spline_coef() {
            Ok((a, b, c, d)) => {
                self.coef = Some(SplineCoef { a, b, c, d });
                Ok(())
            },
            Err(e) => Err(e),
        }
    }

    /// Evaluate the spline at `t` from the computed coefficients: the
    /// located segment's cubic polynomial at offset `t - x_idx`.  Queries
    /// before `calc_spline` fail with `NotComputed`; queries outside the
    /// sample range extrapolate the boundary segment's polynomial.
    pub fn interpolate(&self, t: &Rat) -> (r: Result<Rat, Error>)
        requires
            self.wf(),
            t.wf(),
        ensures
            !self.computed() <==> r == Err::<Rat, Error>(Error::NotComputed),
            r matches Ok(v) ==> {
                &&& self.coef matches Some(co)
                &&& v.wf()
                &&& v@ == spline_val(
                    q_seq(co.a@),
                    q_seq(co.b@),
                    q_seq(co.c@),
                    q_seq(co.d@),
                    seg_idx(q_seq(self.x@), t@),
                    q_sub(t@, q_seq(self.x@)[seg_idx(q_seq(self.x@), t@)]),
                )
            },
            self.computed() ==> (r is Ok <==> spline_eval_fits(
                q_seq(self.x@),
                q_seq(self.coefs().a@),
                q_seq(self.coefs().b@),
                q_seq(self.coefs().c@),
                q_seq(self.coefs().d@),
                seg_idx(q_seq(self.x@), t@),
                t@,
            )),
            r matches Err(e) ==> e == Error::NotComputed || e == Error::NumericalFailure,
    {
        match &self.coef {
            None => Err(Error::NotComputed),
            Some(co) => {
                proof {
                    lemma_rats_wf(self.x@);
                }
                let n = self.x.len();
                let idx = find_segment(&self.x, t);
                proof {
                    assert(q_seq(self.x@)[idx as int] == self.x@[idx as int]@);
                    assert(q_seq(co.a@)[idx as int] == co.a@[idx as int]@);
                    assert(q_seq(co.b@)[idx as int] == co.b@[idx as int]@);
                    assert(q_seq(co.c@)[idx as int] == co.c@[idx as int]@);
                    assert(q_seq(co.d@)[idx as int] == co.d@[idx as int]@);
                }
                let hh = checked(t.sub(self.x[idx]))?;
                let h2 = checked(hh.mul(hh))?;
                let h3 = checked(h2.mul(hh))?;
                let s1 = checked(co.a[idx].add(checked(co.b[idx].mul(hh))?))?;
                let s2 = checked(s1.add(checked(co.c[idx].mul(h2))?))?;
                let v = checked(s2.add(checked(co.d[idx].mul(h3))?))?;
                Ok(v)
            },
        }
    }

    /// Interpolate at each query point in order; semantically the map of
    /// `interpolate` over the queries.
    pub fn interpolate_vec(&self, t: &Vec<Rat>) -> (r: Result<Vec<Rat>, Error>)
        requires
            self.wf(),
            rats_wf(t@),
        ensures
            r matches Ok(vs) ==> vs@.len() == t@.len(),
            r matches Ok(vs) ==> forall|i: int|
                0 <= i < t@.len() ==> (#[trigger] vs@[i]).wf() && vs@[i]@ == spline_val(
                    q_seq(self.coefs().a@),
                    q_seq(self.coefs().b@),
                    q_seq(self.coefs().c@),
                    q_seq(self.coefs().d@),
                    seg_idx(q_seq(self.x@), t@[i]@),
                    q_sub(t@[i]@, q_seq(self.x@)[seg_idx(q_seq(self.x@), t@[i]@)]),
                ),
            r is Ok && t@.len() > 0 ==> self.computed(),
            r is Ok <==> (t@.len() == 0 || self.computed()) && forall|i: int|
                0 <= i < t@.len() ==> #[trigger] spline_eval_fits(
                    q_seq(self.x@),
                    q_seq(self.coefs().a@),
                    q_seq(self.coefs().b@),
                    q_seq(self.coefs().c@),
                    q_seq(self.coefs().d@),
                    seg_idx(q_seq(self.x@), t@[i]@),
                    t@[i]@,
                ),
            r matches Err(e) ==> e == Error::NotComputed || e == Error::NumericalFailure,
    {
        let mut out: Vec<Rat> = Vec::new();
        let mut k: usize = 0;
        while k < t.len()
            invariant
                self.wf(),
                rats_wf(t@),
                k <= t@.len(),
                out@.len() == k,
                k > 0 ==> self.computed(),
                forall|i: int|
                    0 <= i < k ==> (#[trigger] out@[i]).wf() && out@[i]@ == spline_val(
                        q_seq(self.coefs().a@),
                        q_seq(self.coefs().b@),
                        q_seq(self.coefs().c@),
                        q_seq(self.coefs().d@),
                        seg_idx(q_seq(self.x@), t@[i]@),
                        q_sub(t@[i]@, q_seq(self.x@)[seg_idx(q_seq(self.x@), t@[i]@)]),
                    ),
                forall|i: int|
                    0 <= i < k ==> #[trigger] spline_eval_fits(
                        q_seq(self.x@),
                        q_seq(self.coefs().a@),
                        q_seq(self.coefs().b@),
                        q_seq(self.coefs().c@),
                        q_seq(self.coefs().d@),
                        seg_idx(q_seq(self.x@), t@[i]@),
                        t@[i]@,
                    ),
            decreases t@.len() - k,
        {
            let v = self.interpolate(&t[k])?;
            out.push(v);
            k = k + 1;
        }
        Ok(out)
    }
}

} // verus!
