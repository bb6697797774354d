use cubic_spline_rs::{CubicSpline, CubicSplineNa, Error, Rat};

fn r(i: i64) -> Rat {
    Rat::from_int(i)
}

fn rv(vals: &[i64]) -> Vec<Rat> {
    vals.iter().map(|&v| r(v)).collect()
}

fn f(v: &Rat) -> f64 {
    v.num as f64 / v.den as f64
}

fn close(a: f64, b: f64) -> bool {
    (a - b).abs() < 1e-9
}

fn rat_eq(a: &Rat, b: &Rat) -> bool {
    a.num as i128 * b.den as i128 == b.num as i128 * a.den as i128
}

#[test]
fn cubic_spline_it_works() {
    let x = rv(&[0, 1, 4, 5, 8]);
    let y = rv(&[0, 3, 4, 1, 2]);

    let sp = CubicSpline::new(x, y).unwrap();

    let (a, b, c, d) = sp.calc_spline_coef().unwrap();
    let a_exp = [0.0, 3.0, 4.0, 1.0, 2.0];
    let b_exp = [
        3.1805555555555554,
        2.638888888888889,
        -2.6527777777777777,
        -2.472222222222222,
    ];
    let c_exp = [0.0, -0.5416666666666667, -1.222222222222222, 1.4027777777777777, 0.0];
    let d_exp = [-0.18055555555555558, -0.07561728395061726, 0.875, -0.1558641975308642];
    for i in 0..5 {
        assert!(close(f(&a[i]), a_exp[i]));
        assert!(close(f(&c[i]), c_exp[i]));
    }
    for i in 0..4 {
        assert!(close(f(&b[i]), b_exp[i]));
        assert!(close(f(&d[i]), d_exp[i]));
    }
}

#[test]
fn cubic_spline_na_it_works() {
    let x = rv(&[0, 1, 4, 5, 8]);
    let y = rv(&[0, 3, 4, 1, 2]);

    let sp = CubicSplineNa::new(x, y).unwrap();

    let (a, b, c, d) = sp.calc_spline_coef().unwrap();
    let a_exp = [0.0, 3.0, 4.0, 1.0, 2.0];
    let b_exp = [
        3.1805555555555554,
        2.6388888888888893,
        -2.6527777777777777,
        -2.472222222222222,
    ];
    let c_exp = [0.0, -0.5416666666666666, -1.2222222222222223, 1.4027777777777777, 0.0];
    let d_exp = [-0.18055555555555555, -0.0756172839506173, 0.875, -0.1558641975308642];
    for i in 0..5 {
        assert!(close(f(&a[i]), a_exp[i]));
        assert!(close(f(&c[i]), c_exp[i]));
    }
    for i in 0..4 {
        assert!(close(f(&b[i]), b_exp[i]));
        assert!(close(f(&d[i]), d_exp[i]));
    }
}

#[test]
fn both_solvers_agree_exactly() {
    let x = rv(&[0, 1, 4, 5, 8]);
    let y = rv(&[0, 3, 4, 1, 2]);
    let s1 = CubicSpline::new(x.clone(), y.clone()).unwrap();
    let s2 = CubicSplineNa::new(x, y).unwrap();
    let (a1, b1, c1, d1) = s1.calc_spline_coef().unwrap();
    let (a2, b2, c2, d2) = s2.calc_spline_coef().unwrap();
    for i in 0..5 {
        assert!(rat_eq(&a1[i], &a2[i]));
        assert!(rat_eq(&c1[i], &c2[i]));
    }
    for i in 0..4 {
        assert!(rat_eq(&b1[i], &b2[i]));
        assert!(rat_eq(&d1[i], &d2[i]));
    }
}

#[test]
fn natural_boundary_is_exact() {
    let x = rv(&[0, 1, 4, 5, 8]);
    let y = rv(&[0, 3, 4, 1, 2]);
    let sp = CubicSpline::new(x, y).unwrap();
    let (_a, _b, c, d) = sp.calc_spline_coef().unwrap();
    // c_0 and c_n are exactly zero.
    assert_eq!(c[0].num, 0);
    assert_eq!(c[4].num, 0);
    // Second derivative at the right end: 2 c_3 + 6 d_3 h_3 with h_3 = 3.
    let d2_right = 2.0 * f(&c[3]) + 6.0 * f(&d[3]) * 3.0;
    assert!(close(d2_right, 0.0));
}

#[test]
fn continuity_at_interior_knots() {
    let xv = [0.0, 1.0, 4.0, 5.0, 8.0];
    let x = rv(&[0, 1, 4, 5, 8]);
    let y = rv(&[0, 3, 4, 1, 2]);
    let sp = CubicSpline::new(x, y).unwrap();
    let (a, b, c, d) = sp.calc_spline_coef().unwrap();
    for j in 1..4 {
        let h = xv[j] - xv[j - 1];
        let i = j - 1;
        let val_left = f(&a[i]) + f(&b[i]) * h + f(&c[i]) * h * h + f(&d[i]) * h * h * h;
        let d1_left = f(&b[i]) + 2.0 * f(&c[i]) * h + 3.0 * f(&d[i]) * h * h;
        let d2_left = 2.0 * f(&c[i]) + 6.0 * f(&d[i]) * h;
        assert!(close(val_left, f(&a[j])));
        assert!(close(d1_left, f(&b[j])));
        assert!(close(d2_left, 2.0 * f(&c[j])));
    }
}

#[test]
fn interpolate_passes_through_samples() {
    let x = rv(&[0, 1, 4, 5, 8]);
    let y = rv(&[0, 3, 4, 1, 2]);
    let yv = [0.0, 3.0, 4.0, 1.0, 2.0];
    let mut sp = CubicSpline::new(x.clone(), y).unwrap();
    sp.calc_spline().unwrap();
    for i in 0..5 {
        let v = sp.interpolate(&x[i]).unwrap();
        assert!(close(f(&v), yv[i]));
    }
}

#[test]
fn interpolate_before_compute_is_rejected() {
    let x = rv(&[0, 1, 4, 5, 8]);
    let y = rv(&[0, 3, 4, 1, 2]);
    let sp = CubicSpline::new(x, y).unwrap();
    assert!(matches!(sp.interpolate(&r(2)), Err(Error::NotComputed)));
    let sp2 = CubicSplineNa::new(rv(&[0, 1]), rv(&[5, 7])).unwrap();
    assert!(matches!(sp2.interpolate(&r(0)), Err(Error::NotComputed)));
}

#[test]
fn mismatched_lengths_are_invalid() {
    assert!(matches!(
        CubicSpline::new(rv(&[0, 1, 2]), rv(&[0, 1])),
        Err(Error::InvalidInput)
    ));
    assert!(matches!(
        CubicSplineNa::new(rv(&[0, 1]), rv(&[0, 1, 2])),
        Err(Error::InvalidInput)
    ));
}

#[test]
fn two_point_spline_is_a_line() {
    let x = rv(&[0, 2]);
    let y = rv(&[1, 5]);
    let mut sp = CubicSpline::new(x, y).unwrap();
    sp.calc_spline().unwrap();
    let v = sp.interpolate(&r(1)).unwrap();
    assert_eq!(f(&v), 3.0);
}

#[test]
fn interpolate_vec_maps_in_order() {
    let x = rv(&[0, 1, 4, 5, 8]);
    let y = rv(&[0, 3, 4, 1, 2]);
    let mut sp = CubicSpline::new(x, y).unwrap();
    sp.calc_spline().unwrap();
    let ts = vec![r(0), r(1), r(4)];
    let vs = sp.interpolate_vec(&ts).unwrap();
    assert_eq!(vs.len(), 3);
    assert!(close(f(&vs[0]), 0.0));
    assert!(close(f(&vs[1]), 3.0));
    assert!(close(f(&vs[2]), 4.0));
}

#[test]
fn overflowing_samples_report_numerical_failure() {
    let x = rv(&[0, 1, 2]);
    let big = 1i64 << 62;
    let y = vec![r(-big), r(big), r(-big)];
    let sp = CubicSpline::new(x, y).unwrap();
    assert_eq!(
        sp.calc_spline_coef().map(|_| ()),
        Err(Error::NumericalFailure)
    );
}
