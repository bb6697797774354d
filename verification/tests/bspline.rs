use cubic_spline_rs::{BSpline, Error, Rat};

fn r(i: i64) -> Rat {
    Rat::from_int(i)
}

fn rv(vals: &[i64]) -> Vec<Rat> {
    vals.iter().map(|&v| r(v)).collect()
}

fn f(v: &Rat) -> f64 {
    v.num as f64 / v.den as f64
}

fn close(a: f64, b: f64) -> bool {
    (a - b).abs() < 1e-9
}

#[test]
fn clamps_to_boundary_ordinates() {
    let x = rv(&[0, 1, 4, 5, 8]);
    let y = rv(&[0, 3, 4, 1, 2]);
    let sp = BSpline::new_uniform(2, x, y).unwrap();
    // At or below x_0 the value is y_0.
    assert_eq!(0.0, f(&sp.interpolate(&r(0)).unwrap()));
    assert_eq!(0.0, f(&sp.interpolate(&r(-5)).unwrap()));
    // At or above x_{n-1} the value is y_{n-1}.
    assert_eq!(2.0, f(&sp.interpolate(&r(8)).unwrap()));
    assert_eq!(2.0, f(&sp.interpolate(&r(100)).unwrap()));
}

#[test]
fn degree_one_reproduces_a_middle_sample() {
    // With degree 1 the knots are [0, 0, 1/4, 1/2, 3/4, 1, 1]; the query
    // abscissa 4 scales to u = 1/2, where only the middle hat basis
    // function is active, so the curve passes through (4, 4) exactly.
    let x = rv(&[0, 1, 4, 5, 8]);
    let y = rv(&[0, 3, 4, 1, 2]);
    let sp = BSpline::new_uniform(1, x, y).unwrap();
    let v = sp.interpolate(&r(4)).unwrap();
    assert_eq!(4.0, f(&v));
}

#[test]
fn basis_values_at_a_middle_sample() {
    let x = rv(&[0, 1, 4, 5, 8]);
    let y = rv(&[0, 3, 4, 1, 2]);
    let sp = BSpline::new_uniform(1, x, y).unwrap();
    // At u = 1/2 the middle hat is one, its neighbours are zero.
    assert_eq!(1.0, f(&sp.get_basis(&r(4), 2).unwrap()));
    assert_eq!(0.0, f(&sp.get_basis(&r(4), 1).unwrap()));
    assert_eq!(0.0, f(&sp.get_basis(&r(4), 3).unwrap()));
}

#[test]
fn basis_vec_maps_each_query() {
    let x = rv(&[0, 1, 4, 5, 8]);
    let y = rv(&[0, 3, 4, 1, 2]);
    let sp = BSpline::new_uniform(1, x, y).unwrap();
    let ts = vec![r(4), r(100)];
    let vs = sp.get_basis_vec(&ts, 2).unwrap();
    assert_eq!(vs.len(), 2);
    assert_eq!(1.0, f(&vs[0]));
    // Clamped queries return the boundary ordinate, like interpolate.
    assert_eq!(2.0, f(&vs[1]));
}

#[test]
fn sample_curve_starts_at_the_first_control_point() {
    let x = rv(&[0, 1, 4, 5, 8]);
    let y = rv(&[0, 3, 4, 1, 2]);
    let sp = BSpline::new_uniform(1, x, y).unwrap();
    let (xs, ys) = sp.sample_curve(4).unwrap();
    assert_eq!(xs.len(), 4);
    assert_eq!(ys.len(), 4);
    // u = 0 reproduces the first control point (open-uniform clamping).
    assert_eq!(0.0, f(&xs[0]));
    assert_eq!(0.0, f(&ys[0]));
    // u = 1/2 lands on the middle control point for degree one.
    assert_eq!(4.0, f(&xs[2]));
    assert_eq!(4.0, f(&ys[2]));
}

#[test]
fn uniform_spacing_reconstructs_within_tolerance() {
    // With uniformly spaced abscissas the degree-one reconstruction is
    // exact, so interior queries pass the consistency check; the value
    // at the midpoint of a segment is the ordinate average.
    let x = rv(&[0, 2, 4, 6, 8]);
    let y = rv(&[0, 3, 4, 1, 2]);
    let sp = BSpline::new_uniform(1, x, y).unwrap();
    let v = sp.interpolate(&r(3)).unwrap();
    assert_eq!(3.5, f(&v));
}

#[test]
fn skewed_reconstruction_is_rejected() {
    // With strongly nonuniform abscissas the degree-two reconstruction
    // misses the query abscissa by more than 1/100, which the
    // consistency check surfaces as a numerical failure.
    let x = rv(&[0, 1, 4, 5, 8]);
    let y = rv(&[0, 3, 4, 1, 2]);
    let sp = BSpline::new_uniform(2, x, y).unwrap();
    assert!(matches!(sp.interpolate(&r(4)), Err(Error::NumericalFailure)));
}

#[test]
fn invalid_degree_or_lengths_are_rejected() {
    assert!(matches!(
        BSpline::new_uniform(5, rv(&[0, 1, 4, 5, 8]), rv(&[0, 3, 4, 1, 2])),
        Err(Error::InvalidInput)
    ));
    assert!(matches!(
        BSpline::new_uniform(1, rv(&[0, 1, 2]), rv(&[0, 1])),
        Err(Error::InvalidInput)
    ));
}

#[test]
fn open_uniform_knot_values() {
    // Degree 2 over 4 control points: [0, 0, 0, 1/2, 1, 1, 1].
    let sp = BSpline::new_uniform(2, rv(&[0, 1, 2, 3]), rv(&[0, 0, 0, 0])).unwrap();
    let expect2: [(i64, i64); 7] = [(0, 1), (0, 1), (0, 1), (1, 2), (1, 1), (1, 1), (1, 1)];
    assert_eq!(sp.knot.len(), 7);
    for (k, &(n, d)) in sp.knot.iter().zip(expect2.iter()) {
        assert_eq!(k.num as i128 * d as i128, n as i128 * k.den as i128);
    }
    // Degree 3 over 6 control points: [0, 0, 0, 0, 1/3, 2/3, 1, 1, 1, 1].
    let sp = BSpline::new_uniform(3, rv(&[0, 1, 2, 3, 4, 5]), rv(&[0, 0, 0, 0, 0, 0])).unwrap();
    let expect3: [(i64, i64); 10] = [
        (0, 1),
        (0, 1),
        (0, 1),
        (0, 1),
        (1, 3),
        (2, 3),
        (1, 1),
        (1, 1),
        (1, 1),
        (1, 1),
    ];
    assert_eq!(sp.knot.len(), 10);
    for (k, &(n, d)) in sp.knot.iter().zip(expect3.iter()) {
        assert_eq!(k.num as i128 * d as i128, n as i128 * k.den as i128);
    }
}
