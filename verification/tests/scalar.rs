use raytracer::scalar::Scalar;

fn s(x: f32) -> Scalar {
    Scalar::from_bits(x.to_bits())
}

fn f(x: Scalar) -> f32 {
    f32::from_bits(x.to_bits())
}

fn probes() -> Vec<f32> {
    vec![
        0.0,
        -0.0,
        1.0,
        -1.0,
        0.5,
        -0.5,
        0.01,
        100.0,
        1.0e-45,
        -1.0e-45,
        1.17549435e-38,
        3.4028235e38,
        -3.4028235e38,
        f32::INFINITY,
        f32::NEG_INFINITY,
        f32::NAN,
        -f32::NAN,
        16777216.0,
        0.99999994,
    ]
}

#[test]
fn comparisons_agree_with_hardware() {
    for &a in probes().iter() {
        for &b in probes().iter() {
            assert_eq!(s(a).lt(s(b)), a < b, "{} < {}", a, b);
            assert_eq!(s(a).le(s(b)), a <= b, "{} <= {}", a, b);
            assert_eq!(s(a).gt(s(b)), a > b, "{} > {}", a, b);
            assert_eq!(s(a).ge(s(b)), a >= b, "{} >= {}", a, b);
            assert_eq!(s(a) == s(b), a == b, "{} == {}", a, b);
        }
    }
}

#[test]
fn min_max_agree_with_hardware() {
    for &a in probes().iter() {
        for &b in probes().iter() {
            let lo = f(s(a).min(s(b)));
            let hi = f(s(a).max(s(b)));
            let want_lo = a.min(b);
            let want_hi = a.max(b);
            if want_lo.is_nan() {
                assert!(lo.is_nan());
            } else {
                assert_eq!(lo, want_lo, "min({}, {})", a, b);
            }
            if want_hi.is_nan() {
                assert!(hi.is_nan());
            } else {
                assert_eq!(hi, want_hi, "max({}, {})", a, b);
            }
        }
    }
}

#[test]
fn min_keeps_receiver_on_ties_and_skips_nan() {
    let pos = s(0.0);
    let neg = s(-0.0);
    assert_eq!(pos.min(neg).to_bits(), pos.to_bits());
    assert_eq!(neg.min(pos).to_bits(), neg.to_bits());
    assert_eq!(pos.max(neg).to_bits(), pos.to_bits());
    assert_eq!(s(f32::NAN).min(s(2.0)).to_bits(), 2.0f32.to_bits());
    assert_eq!(s(2.0).max(s(f32::NAN)).to_bits(), 2.0f32.to_bits());
}

#[test]
fn constants_have_their_values() {
    assert_eq!(f(Scalar::zero()), 0.0);
    assert_eq!(f(Scalar::one()), 1.0);
    assert_eq!(f(Scalar::infinity()), f32::INFINITY);
    assert_eq!(f(Scalar::neg_infinity()), f32::NEG_INFINITY);
    assert!(s(f32::NAN).is_nan());
    assert!(!s(f32::INFINITY).is_nan());
    assert!(!s(1.0).is_nan());
}

#[test]
fn ordinal_orders_like_the_numbers() {
    let mut sorted = vec![
        f32::NEG_INFINITY,
        -3.4028235e38,
        -1.0,
        -1.0e-45,
        0.0,
        1.0e-45,
        0.01,
        1.0,
        100.0,
        f32::INFINITY,
    ];
    sorted.sort_by(|a, b| a.partial_cmp(b).unwrap());
    for w in sorted.windows(2) {
        assert!(s(w[0]).ordinal() < s(w[1]).ordinal());
    }
    assert_eq!(s(0.0).ordinal(), 0);
    assert_eq!(s(-0.0).ordinal(), 0);
    assert_eq!(s(1.0).ordinal(), 0x3F80_0000);
    assert_eq!(s(-1.0).ordinal(), -0x3F80_0000);
}

#[test]
fn unit_fraction_is_exact_division() {
    let mut numerators: Vec<u32> = vec![0, 1, 2, 3, 0x7F_FFFF, 0x80_0000, 0x80_0001, 0xFF_FFFF];
    let mut n = 1u32;
    while n < 0x100_0000 {
        numerators.push(n);
        numerators.push(n | 1);
        n = n * 3 + 7;
    }
    for &numerator in numerators.iter() {
        if numerator >= 0x100_0000 {
            continue;
        }
        let got = f(Scalar::from_unit_fraction(numerator));
        let want = (numerator as f32) / 16777216.0f32;
        assert_eq!(got.to_bits(), want.to_bits(), "numerator {}", numerator);
        assert!(0.0 <= got && got < 1.0);
    }
    assert_eq!(Scalar::from_unit_fraction(0x80_0000).to_bits(), 0.5f32.to_bits());
    assert_eq!(Scalar::from_unit_fraction(0x40_0000).to_bits(), 0.25f32.to_bits());
    assert_eq!(Scalar::from_unit_fraction(1).to_bits(), 0x3380_0000);
}
