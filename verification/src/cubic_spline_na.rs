//! Natural cubic spline, computed through a dense-matrix elimination.
//!
//! This is the second, independent solver for the same natural-spline
//! system: it assembles the full `(n+1) x (n+1)` matrix — identity rows
//! at the two boundaries, `[h_{i-1}, 2(h_{i-1}+h_i), h_i]` in the
//! interior — eliminates below the diagonal, back-substitutes, and then
//! *checks the solution exactly* against the system, failing with
//! `NumericalFailure` if the system was singular or the residual is not
//! exactly zero.  Its contract is therefore the same as the sweep
//! solver's, and the uniqueness of the system's solution makes the two
//! solvers agree.

use vstd::prelude::*;
use crate::Error;
use crate::rational::{Rat, q_seq, q_wf, qs_wf, rats_wf, lemma_rats_wf, q_inc, q_eq, q_sub, q_zero, q_lt, checked, rat_zeros};
use crate::segment::{seg_idx, find_segment};
use crate::tridiagonal::{h_of, rhs_of, row_at, is_natural_c, b_of, d_of, spline_coeffs_ok};
use crate::cubic_spline::{spline_val, spline_eval_fits, SplineCoef};
use crate::algebra::{lemma_q_eq_trans, lemma_q_sub_pos};

verus! {

/// Every row has width `w` and holds only well-formed entries.
pub open spec fn mat_wf(m: Seq<Vec<Rat>>, w: int) -> bool {
    forall|r: int| 0 <= r < m.len() ==> (#[trigger] m[r])@.len() == w && rats_wf(m[r]@)
}

/// Copy a row of rationals.
fn row_copy(v: &Vec<Rat>) -> (r: Vec<Rat>)
    ensures
        r@ == v@,
{
    let mut out: Vec<Rat> = Vec::new();
    let mut i: usize = 0;
    while i < v.len()
        invariant
            i <= v@.len(),
            out@.len() == i,
            forall|k: int| 0 <= k < i ==> out@[k] == v@[k],
        decreases v@.len() - i,
    {
        out.push(v[i]);
        i = i + 1;
    }
    proof {
        assert(out@ =~= v@);
    }
    out
}

/// A cubic-spline interpolator whose coefficients come from the
/// dense-matrix formulation of the natural-spline system.
pub struct CubicSplineNa {
    pub x: Vec<Rat>,
    pub y: Vec<Rat>,
    pub coef: Option<SplineCoef>,
}

impl CubicSplineNa {
    /// Valid sample data: equally many abscissas and ordinates, at least
    /// two samples, all entries well-formed, abscissas strictly increasing.
    pub open spec fn data_wf(self) -> bool {
        &&& self.x@.len() == self.y@.len()
        &&& self.x@.len() >= 2
        &&& rats_wf(self.x@)
        &&& rats_wf(self.y@)
        &&& q_inc(q_seq(self.x@))
    }

    /// Whether the coefficients have been computed.
    pub open spec fn computed(self) -> bool {
        self.coef is Some
    }

    /// The stored coefficients (meaningful only when computed).
    pub open spec fn coefs(self) -> SplineCoef
        recommends
            self.computed(),
    {
        self.coef->Some_0
    }

    /// Any stored coefficients are the natural-spline coefficients.
    pub open spec fn coef_wf(self) -> bool {
        self.coef matches Some(co) ==> {
            &&& co.a@.len() == self.x@.len()
            &&& co.b@.len() == self.x@.len() - 1
            &&& co.c@.len() == self.x@.len()
            &&& co.d@.len() == self.x@.len() - 1
            &&& rats_wf(co.a@)
            &&& rats_wf(co.b@)
            &&& rats_wf(co.c@)
            &&& rats_wf(co.d@)
            &&& spline_coeffs_ok(
                q_seq(self.x@),
                q_seq(self.y@),
                q_seq(co.a@),
                q_seq(co.b@),
                q_seq(co.c@),
                q_seq(co.d@),
            )
        }
    }

    pub open spec fn wf(self) -> bool {
        self.data_wf() && self.coef_wf()
    }

    /// Build an interpolator with no coefficients yet.  The abscissas are
    /// assumed strictly increasing; mismatched lengths are rejected.
    pub fn new(x: Vec<Rat>, y: Vec<Rat>) -> (r: Result<CubicSplineNa, Error>)
        requires
            x@.len() >= 2,
            rats_wf(x@),
            rats_wf(y@),
            q_inc(q_seq(x@)),
        ensures
            r matches Ok(s) ==> s.wf() && !s.computed() && s.x@ == x@ && s.y@ == y@,
            r is Err <==> x@.len() != y@.len(),
            r matches Err(e) ==> e == Error::InvalidInput,
    {
        if x.len() != y.len() {
            return Err(Error::InvalidInput);
        }
        Ok(CubicSplineNa { x, y, coef: None })
    }

    /// The interval width `x_{i+1} - x_i` as an executable value.
    fn width(&self, i: usize) -> (r: Result<Rat, Error>)
        requires
            self.data_wf(),
            i + 1 < self.x@.len(),
        ensures
            r matches Ok(v) ==> v@ == h_of(q_seq(self.x@), i as int) && v.wf(),
            r matches Err(e) ==> e == Error::NumericalFailure,
    {
        proof {
            lemma_rats_wf(self.x@);
            assert(q_seq(self.x@)[i as int] == self.x@[i as int]@);
            assert(q_seq(self.x@)[i + 1] == self.x@[i + 1]@);
        }
        let n = self.x.len();
        checked(self.x[i + 1].sub(self.x[i]))
    }

    /// The interior right-hand side `rhs_i` as an executable value.
    fn rhs_at(&self, i: usize) -> (r: Result<Rat, Error>)
        requires
            self.data_wf(),
            1 <= i,
            i + 1 < self.x@.len(),
        ensures
            r matches Ok(v) ==> v@ == rhs_of(q_seq(self.x@), q_seq(self.y@), i as int)
                && v.wf(),
            r matches Err(e) ==> e == Error::NumericalFailure,
    {
        let ghost qx = q_seq(self.x@);
        let ghost qy = q_seq(self.y@);
        proof {
            lemma_rats_wf(self.x@);
            lemma_rats_wf(self.y@);
            assert(qx[i - 1] == self.x@[i - 1]@);
            assert(qx[i as int] == self.x@[i as int]@);
            assert(qx[i + 1] == self.x@[i + 1]@);
            assert(qy[i - 1] == self.y@[i - 1]@);
            assert(qy[i as int] == self.y@[i as int]@);
            assert(qy[i + 1] == self.y@[i + 1]@);
            assert(q_lt(qx[i - 1], qx[i as int]));
            assert(q_lt(qx[i as int], qx[i + 1]));
            lemma_q_sub_pos(qx[i - 1], qx[i as int]);
            lemma_q_sub_pos(qx[i as int], qx[i + 1]);
        }
        let n = self.x.len();
        let hm = self.width(i - 1)?;
        let hh = self.width(i)?;
        let d1 = checked(self.y[i + 1].sub(self.y[i]))?;
        let t1 = checked(Rat::from_int(3).mul(d1))?;
        let t1 = checked(t1.div(hh))?;
        let d2 = checked(self.y[i].sub(self.y[i - 1]))?;
        let t2 = checked(Rat::from_int(3).mul(d2))?;
        let t2 = checked(t2.div(hm))?;
        checked(t1.sub(t2))
    }

    /// Compute the natural-spline coefficient arrays `(a, b, c, d)` by
    /// assembling the dense system matrix, eliminating, and checking the
    /// solution exactly against the system.  The contract is the same as
    /// the sweep solver's: by uniqueness of the system's solution the two
    /// agree on every coefficient.
    pub fn calc_spline_coef(&self) -> (r: Result<(Vec<Rat>, Vec<Rat>, Vec<Rat>, Vec<Rat>), Error>)
        requires
            self.data_wf(),
        ensures
            r matches Ok(t) ==> {
                &&& t.0@.len() == self.x@.len()
                &&& t.1@.len() == self.x@.len() - 1
                &&& t.2@.len() == self.x@.len()
                &&& t.3@.len() == self.x@.len() - 1
                &&& rats_wf(t.0@)
                &&& rats_wf(t.1@)
                &&& rats_wf(t.2@)
                &&& rats_wf(t.3@)
                &&& spline_coeffs_ok(
                    q_seq(self.x@),
                    q_seq(self.y@),
                    q_seq(t.0@),
                    q_seq(t.1@),
                    q_seq(t.2@),
                    q_seq(t.3@),
                )
            },
            r matches Err(e) ==> e == Error::NumericalFailure,
    {
        let ghost qx = q_seq(self.x@);
        let ghost qy = q_seq(self.y@);
        proof {
            lemma_rats_wf(self.x@);
            lemma_rats_wf(self.y@);
        }
        let nn = self.x.len();
        let n = nn - 1;

        // a_i = y_i.
        let mut a: Vec<Rat> = Vec::new();
        let mut i: usize = 0;
        while i < nn
            invariant
                i <= nn,
                nn == self.x@.len(),
                self.data_wf(),
                a@.len() == i,
                forall|k: int| 0 <= k < i ==> a@[k] == self.y@[k],
            decreases nn - i,
        {
            a.push(self.y[i]);
            i = i + 1;
        }

        // Assemble the dense system matrix and right-hand side.
        let mut mat: Vec<Vec<Rat>> = Vec::new();
        let mut k: Vec<Rat> = Vec::new();
        let mut i: usize = 0;
        while i < nn
            invariant
                i <= nn,
                nn == self.x@.len(),
                nn == n + 1,
                self.data_wf(),
                mat@.len() == i,
                k@.len() == i,
                mat_wf(mat@, nn as int),
                rats_wf(k@),
            decreases nn - i,
        {
            let mut row = rat_zeros(nn);
            let mut ki = Rat::from_int(0);
            if i == 0 {
                row.set(0, Rat::from_int(1));
            } else if i == n {
                row.set(n, Rat::from_int(1));
            } else {
                let hm = self.width(i - 1)?;
                let hh = self.width(i)?;
                let dg = checked(Rat::from_int(2).mul(checked(hm.add(hh))?))?;
                row.set(i - 1, hm);
                row.set(i, dg);
                row.set(i + 1, hh);
                ki = self.rhs_at(i)?;
            }
            proof {
                assert(rats_wf(row@));
            }
            mat.push(row);
            k.push(ki);
            i = i + 1;
        }

        // Forward elimination.
        let mut col: usize = 0;
        while col < nn
            invariant
                col <= nn,
                nn == self.x@.len(),
                self.data_wf(),
                mat@.len() == nn,
                k@.len() == nn,
                mat_wf(mat@, nn as int),
                rats_wf(k@),
            decreases nn - col,
        {
            let piv = mat[col][col];
            if piv.is_zero() {
                return Err(Error::NumericalFailure);
            }
            let prow = row_copy(&mat[col]);
            let pk = k[col];
            let mut r: usize = col + 1;
            while r < nn
                invariant
                    col < nn,
                    col < r,
                    r <= nn,
                    nn == self.x@.len(),
                    mat@.len() == nn,
                    k@.len() == nn,
                    mat_wf(mat@, nn as int),
                    rats_wf(k@),
                    prow@.len() == nn,
                    rats_wf(prow@),
                    piv.wf(),
                    piv@.n != 0,
                    pk.wf(),
                decreases nn - r,
            {
                let f = checked(mat[r][col].div(piv))?;
                let mut j: usize = 0;
                let mut newrow: Vec<Rat> = Vec::new();
                while j < nn
                    invariant
                        j <= nn,
                        r < nn,
                        nn == self.x@.len(),
                        mat@.len() == nn,
                        mat_wf(mat@, nn as int),
                        prow@.len() == nn,
                        rats_wf(prow@),
                        f.wf(),
                        newrow@.len() == j,
                        rats_wf(newrow@),
                    decreases nn - j,
                {
                    let e = checked(mat[r][j].sub(checked(f.mul(prow[j]))?))?;
                    newrow.push(e.normalize());
                    proof {
                        assert forall|q: int| 0 <= q < newrow@.len() implies
                            (#[trigger] newrow@[q]).wf() by {}
                    }
                    j = j + 1;
                }
                mat.set(r, newrow);
                let kr = checked(k[r].sub(checked(f.mul(pk))?))?;
                k.set(r, kr.normalize());
                proof {
                    assert forall|q: int| 0 <= q < mat@.len() implies
                        (#[trigger] mat@[q])@.len() == nn && rats_wf(mat@[q]@) by {}
                    assert forall|q: int| 0 <= q < k@.len() implies
                        (#[trigger] k@[q]).wf() by {}
                }
                r = r + 1;
            }
            col = col + 1;
        }

        // Back substitution.
        let mut c = rat_zeros(nn);
        let mut i: usize = nn;
        while i > 0
            invariant
                i <= nn,
                nn == self.x@.len(),
                mat@.len() == nn,
                k@.len() == nn,
                mat_wf(mat@, nn as int),
                rats_wf(k@),
                c@.len() == nn,
                rats_wf(c@),
            decreases i,
        {
            i = i - 1;
            let mut acc = k[i];
            let mut j: usize = i + 1;
            while j < nn
                invariant
                    i < j,
                    j <= nn,
                    nn == self.x@.len(),
                    mat@.len() == nn,
                    mat_wf(mat@, nn as int),
                    c@.len() == nn,
                    rats_wf(c@),
                    acc.wf(),
                decreases nn - j,
            {
                acc = checked(acc.sub(checked(mat[i][j].mul(c[j]))?))?.normalize();
                j = j + 1;
            }
            let piv = mat[i][i];
            if piv.is_zero() {
                return Err(Error::NumericalFailure);
            }
            let ci = checked(acc.div(piv))?.normalize();
            c.set(i, ci);
            proof {
                assert forall|q: int| 0 <= q < c@.len() implies (#[trigger] c@[q]).wf() by {}
            }
        }

        // Exact check of the candidate against the natural system.
        if !c[0].is_zero() {
            return Err(Error::NumericalFailure);
        }
        if !c[n].is_zero() {
            return Err(Error::NumericalFailure);
        }
        let mut i: usize = 1;
        while i < n
            invariant
                1 <= i <= n || (n < 1 && i == 1),
                nn == self.x@.len(),
                nn == n + 1,
                self.data_wf(),
                qx == q_seq(self.x@),
                qy == q_seq(self.y@),
                c@.len() == nn,
                rats_wf(c@),
                q_eq(c@[0]@, q_zero()),
                q_eq(c@[n as int]@, q_zero()),
                forall|k2: int|
                    1 <= k2 < i ==> q_eq(
                        #[trigger] row_at(qx, q_seq(c@), k2),
                        rhs_of(qx, qy, k2),
                    ),
            decreases n - i,
        {
            let hm = self.width(i - 1)?;
            let hh = self.width(i)?;
            let dg = checked(Rat::from_int(2).mul(checked(hm.add(hh))?))?;
            let t1 = checked(hm.mul(c[i - 1]))?;
            let t2 = checked(dg.mul(c[i]))?;
            let t3 = checked(hh.mul(c[i + 1]))?;
            let lhs = checked(t1.add(checked(t2.add(t3))?))?;
            let rhs = self.rhs_at(i)?;
            if !lhs.eq_val(&rhs) {
                return Err(Error::NumericalFailure);
            }
            proof {
                assert(q_seq(c@)[i - 1] == c@[i - 1]@);
                assert(q_seq(c@)[i as int] == c@[i as int]@);
                assert(q_seq(c@)[i + 1] == c@[i + 1]@);
                assert(lhs@ == row_at(qx, q_seq(c@), i as int));
            }
            i = i + 1;
        }

        // b and d from the checked c.
        let mut b: Vec<Rat> = Vec::new();
        let mut d: Vec<Rat> = Vec::new();
        let mut j: usize = 0;
        while j < n
            invariant
                j <= n,
                nn == self.x@.len(),
                nn == n + 1,
                self.data_wf(),
                qx == q_seq(self.x@),
                qy == q_seq(self.y@),
                a@.len() == nn,
                forall|k2: int| 0 <= k2 < nn ==> a@[k2] == self.y@[k2],
                c@.len() == nn,
                rats_wf(c@),
                b@.len() == j,
                d@.len() == j,
                forall|k2: int|
                    0 <= k2 < j ==> (#[trigger] b@[k2]).wf() && q_eq(
                        b@[k2]@,
                        b_of(qx, qy, q_seq(c@), k2),
                    ),
                forall|k2: int|
                    0 <= k2 < j ==> (#[trigger] d@[k2]).wf() && q_eq(
                        d@[k2]@,
                        d_of(qx, q_seq(c@), k2),
                    ),
            decreases n - j,
        {
            proof {
                assert(qx[j as int] == self.x@[j as int]@);
                assert(qx[j + 1] == self.x@[j + 1]@);
                assert(q_lt(qx[j as int], qx[j + 1]));
                lemma_q_sub_pos(qx[j as int], qx[j + 1]);
            }
            let hj = self.width(j)?;
            let ady = checked(a[j + 1].sub(a[j]))?;
            let t1 = checked(ady.div(hj))?;
            let c2 = checked(Rat::from_int(2).mul(c[j]))?;
            let cc = checked(c[j + 1].add(c2))?;
            let t2n = checked(hj.mul(cc))?;
            let t2 = checked(t2n.div(Rat::from_int(3)))?;
            let bj = checked(t1.sub(t2))?;
            b.push(bj.normalize());
            let dnum = checked(c[j + 1].sub(c[j]))?;
            let dden = checked(Rat::from_int(3).mul(hj))?;
            let dj = checked(dnum.div(dden))?;
            d.push(dj.normalize());
            proof {
                lemma_q_eq_trans(b@[j as int]@, bj@, b_of(qx, qy, q_seq(c@), j as int));
                lemma_q_eq_trans(d@[j as int]@, dj@, d_of(qx, q_seq(c@), j as int));
            }
            j = j + 1;
        }

        proof {
            let qa = q_seq(a@);
            let qb = q_seq(b@);
            let qc = q_seq(c@);
            let qd = q_seq(d@);
            assert(qc[0] == c@[0]@);
            assert(qc[n as int] == c@[n as int]@);
            assert(qs_wf(qc)) by {
                assert forall|k2: int| 0 <= k2 < qc.len() implies q_wf(#[trigger] qc[k2]) by {
                    assert(qc[k2] == c@[k2]@);
                }
            }
            assert(is_natural_c(qx, qy, qc));
            assert forall|k2: int| 0 <= k2 < qa.len() implies q_wf(#[trigger] qa[k2]) by {
                assert(qa[k2] == a@[k2]@);
                assert(a@[k2] == self.y@[k2]);
            }
            assert forall|k2: int| 0 <= k2 < qb.len() implies q_wf(#[trigger] qb[k2]) by {
                assert(qb[k2] == b@[k2]@);
            }
            assert forall|k2: int| 0 <= k2 < qd.len() implies q_wf(#[trigger] qd[k2]) by {
                assert(qd[k2] == d@[k2]@);
            }
            assert forall|k2: int| 0 <= k2 <= n implies q_eq(#[trigger] qa[k2], qy[k2]) by {
                assert(qa[k2] == a@[k2]@);
                assert(a@[k2] == self.y@[k2]);
                assert(qy[k2] == self.y@[k2]@);
            }
            assert forall|k2: int| 0 <= k2 < n implies q_eq(#[trigger] qb[k2], b_of(qx, qy, qc, k2))
                by {
                assert(b@[k2].wf() && q_eq(b@[k2]@, b_of(qx, qy, q_seq(c@), k2)));
                assert(qb[k2] == b@[k2]@);
            }
            assert forall|k2: int| 0 <= k2 < n implies q_eq(#[trigger] qd[k2], d_of(qx, qc, k2))
                by {
                assert(d@[k2].wf() && q_eq(d@[k2]@, d_of(qx, q_seq(c@), k2)));
                assert(qd[k2] == d@[k2]@);
            }
            assert(spline_coeffs_ok(qx, qy, qa, qb, qc, qd));
            assert(rats_wf(a@)) by {
                assert forall|k2: int| 0 <= k2 < a@.len() implies (#[trigger] a@[k2]).wf() by {
                    assert(a@[k2] == self.y@[k2]);
                }
            }
            assert(rats_wf(b@)) by {
                assert forall|k2: int| 0 <= k2 < b@.len() implies (#[trigger] b@[k2]).wf() by {}
            }
            assert(rats_wf(d@)) by {
                assert forall|k2: int| 0 <= k2 < d@.len() implies (#[trigger] d@[k2]).wf() by {}
            }
        }
        Ok((a, b, c, d))
    }

    /// Compute and store the spline coefficients; queries are valid after
    /// this succeeds.
    pub fn calc_spline(&mut self) -> (r: Result<(), Error>)
        requires
            old(self).data_wf(),
        ensures
            final(self).x@ == old(self).x@,
            final(self).y@ == old(self).y@,
            r is Ok ==> final(self).wf() && final(self).computed(),
            r matches Err(e) ==> e == Error::NumericalFailure && *final(self) == *old(self),
    {
        match self.calc_spline_coef() {
            Ok((a, b, c, d)) => {
                self.coef = Some(SplineCoef { a, b, c, d });
                Ok(())
            },
            Err(e) => Err(e),
        }
    }

    /// Evaluate the spline at `t` from the computed coefficients: the
    /// located segment's cubic polynomial at offset `t - x_idx`.  Queries
    /// before `calc_spline` fail with `NotComputed`; queries outside the
    /// sample range extrapolate the boundary segment's polynomial.
    pub fn interpolate(&self, t: &Rat) -> (r: Result<Rat, Error>)
        requires
            self.wf(),
            t.wf(),
        ensures
            !self.computed() <==> r == Err::<Rat, Error>(Error::NotComputed),
            r matches Ok(v) ==> {
                &&& self.coef matches Some(co)
                &&& v.wf()
                &&& v@ == spline_val(
                    q_seq(co.a@),
                    q_seq(co.b@),
                    q_seq(co.c@),
                    q_seq(co.d@),
                    seg_idx(q_seq(self.x@), t@),
                    q_sub(t@, q_seq(self.x@)[seg_idx(q_seq(self.x@), t@)]),
                )
            },
            self.computed() ==> (r is Ok <==> spline_eval_fits(
                q_seq(self.x@),
                q_seq(self.coefs().a@),
                q_seq(self.coefs().b@),
                q_seq(self.coefs().c@),
                q_seq(self.coefs().d@),
                seg_idx(q_seq(self.x@), t@),
                t@,
            )),
            r matches Err(e) ==> e == Error::NotComputed || e == Error::NumericalFailure,
    {
        match &self.coef {
            None => Err(Error::NotComputed),
            Some(co) => {
                proof {
                    lemma_rats_wf(self.x@);
                }
                let n = self.x.len();
                let idx = find_segment(&self.x, t);
                proof {
                    assert(q_seq(self.x@)[idx as int] == self.x@[idx as int]@);
                    assert(q_seq(co.a@)[idx as int] == co.a@[idx as int]@);
                    assert(q_seq(co.b@)[idx as int] == co.b@[idx as int]@);
                    assert(q_seq(co.c@)[idx as int] == co.c@[idx as int]@);
                    assert(q_seq(co.d@)[idx as int] == co.d@[idx as int]@);
                }
                let hh = checked(t.sub(self.x[idx]))?;
                let h2 = checked(hh.mul(hh))?;
                let h3 = checked(h2.mul(hh))?;
                let s1 = checked(co.a[idx].add(checked(co.b[idx].mul(hh))?))?;
                let s2 = checked(s1.add(checked(co.c[idx].mul(h2))?))?;
                let v = checked(s2.add(checked(co.d[idx].mul(h3))?))?;
                Ok(v)
            },
        }
    }

    /// Interpolate at each query point in order; semantically the map of
    /// `interpolate` over the queries.
    pub fn interpolate_vec(&self, t: &Vec<Rat>) -> (r: Result<Vec<Rat>, Error>)
        requires
            self.wf(),
            rats_wf(t@),
        ensures
            r matches Ok(vs) ==> vs@.len() == t@.len(),
            r matches Ok(vs) ==> forall|i: int|
                0 <= i < t@.len() ==> (#[trigger] vs@[i]).wf() && vs@[i]@ == spline_val(
                    q_seq(self.coefs().a@),
                    q_seq(self.coefs().b@),
                    q_seq(self.coefs().c@),
                    q_seq(self.coefs().d@),
                    seg_idx(q_seq(self.x@), t@[i]@),
                    q_sub(t@[i]@, q_seq(self.x@)[seg_idx(q_seq(self.x@), t@[i]@)]),
                ),
            r is Ok && t@.len() > 0 ==> self.computed(),
            r is Ok <==> (t@.len() == 0 || self.computed()) && forall|i: int|
                0 <= i < t@.len() ==> #[trigger] spline_eval_fits(
                    q_seq(self.x@),
                    q_seq(self.coefs().a@),
                    q_seq(self.coefs().b@),
                    q_seq(self.coefs().c@),
                    q_seq(self.coefs().d@),
                    seg_idx(q_seq(self.x@), t@[i]@),
                    t@[i]@,
                ),
            r matches Err(e) ==> e == Error::NotComputed || e == Error::NumericalFailure,
    {
        let mut out: Vec<Rat> = Vec::new();
        let mut kk: usize = 0;
        while kk < t.len()
            invariant
                self.wf(),
                rats_wf(t@),
                kk <= t@.len(),
                out@.len() == kk,
                kk > 0 ==> self.computed(),
                forall|i: int|
                    0 <= i < kk ==> (#[trigger] out@[i]).wf() && out@[i]@ == spline_val(
                        q_seq(self.coefs().a@),
                        q_seq(self.coefs().b@),
                        q_seq(self.coefs().c@),
                        q_seq(self.coefs().d@),
                        seg_idx(q_seq(self.x@), t@[i]@),
                        q_sub(t@[i]@, q_seq(self.x@)[seg_idx(q_seq(self.x@), t@[i]@)]),
                    ),
                forall|i: int|
                    0 <= i < kk ==> #[trigger] spline_eval_fits(
                        q_seq(self.x@),
                        q_seq(self.coefs().a@),
                        q_seq(self.coefs().b@),
                        q_seq(self.coefs().c@),
                        q_seq(self.coefs().d@),
                        seg_idx(q_seq(self.x@), t@[i]@),
                        t@[i]@,
                    ),
            decreases t@.len() - kk,
        {
            let v = self.interpolate(&t[kk])?;
            out.push(v);
            kk = kk + 1;
        }
        Ok(out)
    }
}

} // verus!
