use cubic_spline_rs::{Error, LinearInterpolation, Rat};

fn r(i: i64) -> Rat {
    Rat::from_int(i)
}

fn rv(vals: &[i64]) -> Vec<Rat> {
    vals.iter().map(|&v| r(v)).collect()
}

fn f(v: &Rat) -> f64 {
    v.num as f64 / v.den as f64
}

#[test]
fn it_works() {
    let x = rv(&[0, 1, 4, 5, 8]);
    let y = rv(&[0, 3, 4, 1, 2]);
    let lin = LinearInterpolation::new(x, y).unwrap();

    let v = lin.interpolate(&Rat::new(1, 2)).unwrap();
    assert_eq!(1.5, f(&v));
}

#[test]
fn exact_at_every_sample() {
    let x = rv(&[0, 1, 4, 5, 8]);
    let y = rv(&[0, 3, 4, 1, 2]);
    let lin = LinearInterpolation::new(x.clone(), y.clone()).unwrap();
    for i in 0..5 {
        let v = lin.interpolate(&x[i]).unwrap();
        // Exact rational equality with the sample ordinate.
        assert_eq!(
            v.num as i128 * y[i].den as i128,
            y[i].num as i128 * v.den as i128
        );
    }
}

#[test]
fn linear_between_samples() {
    let x = rv(&[0, 1, 4, 5, 8]);
    let y = rv(&[0, 3, 4, 1, 2]);
    let lin = LinearInterpolation::new(x, y).unwrap();
    // Midpoint of [1, 4]: 3 + 1.5 * (4 - 3) / 3 = 3.5 exactly.
    let v = lin.interpolate(&Rat::new(5, 2)).unwrap();
    assert_eq!(3.5, f(&v));
}

#[test]
fn extrapolates_boundary_segments() {
    let x = rv(&[0, 1, 4, 5, 8]);
    let y = rv(&[0, 3, 4, 1, 2]);
    let lin = LinearInterpolation::new(x, y).unwrap();
    // Below the range: the first segment's line continues.
    let lo = lin.interpolate(&r(-1)).unwrap();
    assert_eq!(-3.0, f(&lo));
    // Above the range: the last segment's line continues, 1 + 4/3.
    let hi = lin.interpolate(&r(9)).unwrap();
    assert_eq!(hi.num as i128 * 3, 7 * hi.den as i128);
}

#[test]
fn linear_interpolate_vec_maps_in_order() {
    let x = rv(&[0, 1, 4, 5, 8]);
    let y = rv(&[0, 3, 4, 1, 2]);
    let lin = LinearInterpolation::new(x, y).unwrap();
    let ts = vec![Rat::new(1, 2), Rat::new(5, 2)];
    let vs = lin.interpolate_vec(&ts).unwrap();
    assert_eq!(vs.len(), 2);
    assert_eq!(1.5, f(&vs[0]));
    assert_eq!(3.5, f(&vs[1]));
}

#[test]
fn linear_mismatched_lengths_are_invalid() {
    assert!(matches!(
        LinearInterpolation::new(rv(&[0, 1, 2]), rv(&[0, 1])),
        Err(Error::InvalidInput)
    ));
}
