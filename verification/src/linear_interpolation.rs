//! Piecewise-linear interpolation.
//!
//! Queries outside the sample range are *not* clamped: they extrapolate
//! the boundary segment's line.  This deliberately differs from the
//! B-spline's flat extrapolation.

use vstd::prelude::*;
use crate::Error;
use crate::rational::{Q, Rat, q_seq, rats_wf, lemma_rats_wf, q_inc, q_add, q_sub,
    q_mul, q_div, q_lt, q_fits, checked};
use crate::segment::{seg_idx, find_segment};

verus! {

/// The value of the linear interpolant on segment `i` at abscissa `t`:
/// `y_i + (t - x_i) * (y_{i+1} - y_i) / (x_{i+1} - x_i)`.
pub open spec fn lin_val(xs: Seq<Q>, ys: Seq<Q>, i: int, t: Q) -> Q {
    q_add(
        ys[i],
        q_div(q_mul(q_sub(t, xs[i]), q_sub(ys[i + 1], ys[i])), q_sub(xs[i + 1], xs[i])),
    )
}

/// Every intermediate of the interpolation formula on segment `i` at
/// abscissa `t` fits into an `i64`, so the evaluation succeeds.
pub open spec fn lin_fits(xs: Seq<Q>, ys: Seq<Q>, i: int, t: Q) -> bool {
    let dt = q_sub(t, xs[i]);
    let dy = q_sub(ys[i + 1], ys[i]);
    let dx = q_sub(xs[i + 1], xs[i]);
    let num = q_mul(dt, dy);
    let quot = q_div(num, dx);
    let v = q_add(ys[i], quot);
    q_fits(dt) && q_fits(dy) && q_fits(dx) && q_fits(num) && q_fits(quot) && q_fits(v)
}

/// A linear interpolator over samples `(x_i, y_i)`.
pub struct LinearInterpolation {
    pub x: Vec<Rat>,
    pub y: Vec<Rat>,
}

impl LinearInterpolation {
    /// Valid sample data: equally many abscissas and ordinates, at least
    /// two samples, all entries well-formed, abscissas strictly increasing.
    pub open spec fn wf(self) -> bool {
        &&& self.x@.len() == self.y@.len()
        &&& self.x@.len() >= 2
        &&& rats_wf(self.x@)
        &&& rats_wf(self.y@)
        &&& q_inc(q_seq(self.x@))
    }

    /// Build an interpolator.  The abscissas are assumed strictly
    /// increasing; mismatched array lengths are rejected.
    pub fn new(x: Vec<Rat>, y: Vec<Rat>) -> (r: Result<LinearInterpolation, Error>)
        requires
            x@.len() >= 2,
            rats_wf(x@),
            rats_wf(y@),
            q_inc(q_seq(x@)),
        ensures
            r matches Ok(li) ==> li.wf() && li.x@ == x@ && li.y@ == y@,
            r is Err <==> x@.len() != y@.len(),
            r matches Err(e) ==> e == Error::InvalidInput,
    {
        if x.len() != y.len() {
            return Err(Error::InvalidInput);
        }
        Ok(LinearInterpolation { x, y })
    }

    /// Interpolate at a single query point.  The result is exactly the
    /// value of the located segment's line; a query outside the sample
    /// range extrapolates the boundary segment.
    pub fn interpolate(&self, t: &Rat) -> (r: Result<Rat, Error>)
        requires
            self.wf(),
            t.wf(),
        ensures
            r matches Ok(v) ==> v.wf() && v@ == lin_val(
                q_seq(self.x@),
                q_seq(self.y@),
                seg_idx(q_seq(self.x@), t@),
                t@,
            ),
            r is Ok <==> lin_fits(q_seq(self.x@), q_seq(self.y@), seg_idx(q_seq(self.x@), t@), t@),
            r matches Err(e) ==> e == Error::NumericalFailure,
    {
        proof {
            lemma_rats_wf(self.x@);
        }
        let n = self.x.len();
        let idx = find_segment(&self.x, t);
        proof {
            assert(q_seq(self.x@)[idx as int] == self.x@[idx as int]@);
            assert(q_seq(self.x@)[idx + 1] == self.x@[idx + 1]@);
            assert(q_seq(self.y@)[idx as int] == self.y@[idx as int]@);
            assert(q_seq(self.y@)[idx + 1] == self.y@[idx + 1]@);
            assert(q_lt(q_seq(self.x@)[idx as int], q_seq(self.x@)[idx + 1]));
        }
        let dt = checked(t.sub(self.x[idx]))?;
        let dy = checked(self.y[idx + 1].sub(self.y[idx]))?;
        let dx = checked(self.x[idx + 1].sub(self.x[idx]))?;
        let slope_num = checked(dt.mul(dy))?;
        let quot = checked(slope_num.div(dx))?;
        let v = checked(self.y[idx].add(quot))?;
        Ok(v)
    }

    /// Interpolate at each query point in order; semantically the map of
    /// `interpolate` over the queries.
    pub fn interpolate_vec(&self, t: &Vec<Rat>) -> (r: Result<Vec<Rat>, Error>)
        requires
            self.wf(),
            rats_wf(t@),
        ensures
            r matches Ok(vs) ==> vs@.len() == t@.len() && forall|i: int|
                0 <= i < t@.len() ==> (#[trigger] vs@[i]).wf() && vs@[i]@ == lin_val(
                    q_seq(self.x@),
                    q_seq(self.y@),
                    seg_idx(q_seq(self.x@), t@[i]@),
                    t@[i]@,
                ),
            r is Ok <==> forall|i: int|
                0 <= i < t@.len() ==> #[trigger] lin_fits(
                    q_seq(self.x@),
                    q_seq(self.y@),
                    seg_idx(q_seq(self.x@), t@[i]@),
                    t@[i]@,
                ),
            r matches Err(e) ==> e == Error::NumericalFailure,
    {
        let mut out: Vec<Rat> = Vec::new();
        let mut k: usize = 0;
        while k < t.len()
            invariant
                self.wf(),
                rats_wf(t@),
                k <= t@.len(),
                out@.len() == k,
                forall|i: int|
                    0 <= i < k ==> (#[trigger] out@[i]).wf() && out@[i]@ == lin_val(
                        q_seq(self.x@),
                        q_seq(self.y@),
                        seg_idx(q_seq(self.x@), t@[i]@),
                        t@[i]@,
                    ),
                forall|i: int|
                    0 <= i < k ==> #[trigger] lin_fits(
                        q_seq(self.x@),
                        q_seq(self.y@),
                        seg_idx(q_seq(self.x@), t@[i]@),
                        t@[i]@,
                    ),
            decreases t@.len() - k,
        {
            let v = self.interpolate(&t[k])?;
            out.push(v);
            k = k + 1;
        }
        Ok(out)
    }
}

} // verus!
