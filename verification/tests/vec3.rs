use raytracer::scalar::Scalar;
use raytracer::vec3::Vec3;

fn s(x: f32) -> Scalar {
    Scalar::from_bits(x.to_bits())
}

fn f(x: Scalar) -> f32 {
    f32::from_bits(x.to_bits())
}

fn v(x: f32, y: f32, z: f32) -> Vec3 {
    Vec3::new(s(x), s(y), s(z))
}

#[test]
fn cmp() {
    let zero = Vec3::zero();
    assert_eq!(zero, zero);
    assert_eq!([s(0.0); 3], zero.to_array());
    let one = Vec3::fill(s(1.0));
    assert_ne!(zero, one);
}

#[test]
fn min_max() {
    let v1 = v(0.0, 1.0, 2.0);
    let v2 = v(-1.0, 10.0, 0.5);
    let v_max = Vec3::max(&v1, &v2);
    let v_min = Vec3::min(&v1, &v2);

    for idx in 0..3 {
        assert_eq!(f(v_max.get(idx)), f(v1.get(idx)).max(f(v2.get(idx))));
        assert_eq!(f(v_min.get(idx)), f(v1.get(idx)).min(f(v2.get(idx))));
    }
}

#[test]
fn h_min_max() {
    let v = v(-1.0, 10.0, 0.5);
    assert_eq!(-1.0, f(v.hmin()));
    assert_eq!(10.0, f(v.hmax()));
}

#[test]
fn constructors_and_accessors() {
    let p = v(1.0, 2.0, 3.0);
    assert_eq!(f(p.x()), 1.0);
    assert_eq!(f(p.y()), 2.0);
    assert_eq!(f(p.z()), 3.0);
    assert_eq!(f(p.get(0)), 1.0);
    assert_eq!(f(p.get(1)), 2.0);
    assert_eq!(f(p.get(2)), 3.0);
    assert_eq!(Vec3::from([s(1.0), s(2.0), s(3.0)]), p);
    assert_eq!(Vec3::fill(s(7.0)), v(7.0, 7.0, 7.0));
    assert_eq!(Vec3::zero(), v(0.0, 0.0, 0.0));
    assert_eq!(Vec3::max_value(), v(f32::INFINITY, f32::INFINITY, f32::INFINITY));
    assert_eq!(
        Vec3::min_value(),
        v(f32::NEG_INFINITY, f32::NEG_INFINITY, f32::NEG_INFINITY)
    );
}

#[test]
fn equality_is_of_numbers() {
    assert_eq!(v(0.0, 0.0, 0.0), v(-0.0, 0.0, -0.0));
    let nan = v(f32::NAN, 0.0, 0.0);
    assert_ne!(nan, nan);
    assert!(nan.has_nan());
    assert!(!v(1.0, f32::INFINITY, 0.0).has_nan());
}

#[test]
fn horizontal_extremes_skip_nan() {
    let p = v(f32::NAN, 4.0, -2.0);
    assert_eq!(f(p.hmin()), -2.0);
    assert_eq!(f(p.hmax()), 4.0);
    let all = v(f32::NAN, f32::NAN, f32::NAN);
    assert_eq!(f(all.hmin()), f32::INFINITY);
    assert_eq!(f(all.hmax()), f32::NEG_INFINITY);
}
