//! One-dimensional curve interpolation over a strictly increasing sample
//! sequence, carried out in exact rational arithmetic.
//!
//! Four interpolators are provided: piecewise-linear interpolation, the
//! natural cubic spline computed by a tridiagonal (Thomas-algorithm) sweep,
//! the same spline computed through a dense-matrix elimination, and an
//! open-uniform B-spline of arbitrary degree.  Every coefficient and every
//! query result is an exact rational number, so the algebraic properties of
//! the splines (continuity at the knots, the natural boundary condition,
//! agreement of the two cubic solvers) hold exactly and are proved.

use vstd::prelude::*;

pub mod rational;
pub mod algebra;
pub mod segment;
pub mod tridiagonal;
pub mod cubic_spline;
pub mod cubic_spline_na;
pub mod bspline;
pub mod properties;
pub mod linear_interpolation;

pub use rational::Q;
pub use rational::Rat;
pub use linear_interpolation::LinearInterpolation;
pub use cubic_spline::CubicSpline;
pub use cubic_spline::SplineCoef;
pub use cubic_spline_na::CubicSplineNa;
pub use bspline::BSpline;

verus! {

/// How an interpolation request can fail.
#[derive(Clone, Copy, Debug, PartialEq, Eq, Structural)]
pub enum Error {
    /// The sample arrays cannot describe a curve (mismatched lengths, or a
    /// B-spline degree at least as large as the number of control points).
    InvalidInput,
    /// A cubic spline was queried before its coefficients were computed.
    NotComputed,
    /// An exact rational value left the representable range, or a linear
    /// system could not be solved.
    NumericalFailure,
}

} // verus!
