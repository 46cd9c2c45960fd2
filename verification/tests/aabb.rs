use raytracer::aabb::Aabb;
use raytracer::scalar::Scalar;
use raytracer::vec3::Vec3;

fn s(x: f32) -> Scalar {
    Scalar::from_bits(x.to_bits())
}

fn v(x: f32, y: f32, z: f32) -> Vec3 {
    Vec3::new(s(x), s(y), s(z))
}

#[test]
fn aabb_empty() {
    assert!(Aabb::empty().is_empty());
}

#[test]
fn extend_point() {
    let v = Vec3::zero();
    let aabb = Aabb::empty();
    assert!(!aabb.contain(&v));
    let aabb = aabb.extend(&v);
    assert!(aabb.contain(&v));
    let aabb = aabb.extend(&Vec3::fill(s(1.0)));
    assert!(aabb.contain(&v));
}

#[test]
fn union_aabb() {
    let v0 = Vec3::fill(s(-1.0));
    let v1 = Vec3::fill(s(1.0));
    let aabb0 = Aabb::empty();
    let aabb0 = aabb0.extend(&v0);
    assert!(aabb0.contain(&v0));
    assert!(!aabb0.contain(&v1));
    let aabb1 = Aabb::empty();
    let aabb1 = aabb1.extend(&v1);
    assert!(!aabb1.contain(&v0));
    assert!(aabb1.contain(&v1));

    let aabb = Aabb::union(&aabb0, &aabb1);
    assert!(aabb.contain(&v0));
    assert!(aabb.contain(&v1));
}

#[test]
fn empty_box_contains_no_point() {
    let empty = Aabb::empty();
    for p in [
        v(0.0, 0.0, 0.0),
        v(1.0e30, -1.0e30, 5.0),
        v(f32::INFINITY, 0.0, 0.0),
        v(f32::NEG_INFINITY, f32::INFINITY, 0.0),
    ] {
        assert!(!empty.contain(&p));
    }
    assert_eq!(empty.lower(), Vec3::max_value());
    assert_eq!(empty.upper(), Vec3::min_value());
}

#[test]
fn extend_sets_exact_corners() {
    let b = Aabb::empty().extend(&v(1.0, 5.0, -2.0)).extend(&v(-3.0, 6.0, 0.0));
    assert_eq!(b.lower(), v(-3.0, 5.0, -2.0));
    assert_eq!(b.upper(), v(1.0, 6.0, 0.0));
    assert!(b.contain(&v(0.0, 5.5, -1.0)));
    assert!(b.contain(&v(-3.0, 5.0, -2.0)));
    assert!(!b.contain(&v(0.0, 4.9, -1.0)));
    assert!(!b.contain(&v(1.1, 5.5, -1.0)));
    assert!(!b.is_empty());
}

#[test]
fn union_with_empty_on_either_side() {
    let b = Aabb::empty().extend(&v(0.0, 0.0, 0.0)).extend(&v(1.0, 1.0, 1.0));
    let left = Aabb::union(&Aabb::empty(), &b);
    let right = Aabb::union(&b, &Aabb::empty());
    assert_eq!(left.lower(), b.lower());
    assert_eq!(left.upper(), b.upper());
    assert_eq!(right.lower(), b.lower());
    assert_eq!(right.upper(), b.upper());
    let both = Aabb::union(&Aabb::empty(), &Aabb::empty());
    assert!(both.is_empty());
}

#[test]
fn union_contains_what_either_contains() {
    let a = Aabb::empty().extend(&v(0.0, 0.0, 0.0)).extend(&v(1.0, 1.0, 1.0));
    let b = Aabb::empty().extend(&v(4.0, -1.0, 0.5)).extend(&v(5.0, 0.5, 2.0));
    let u = Aabb::union(&a, &b);
    let points = [
        v(0.5, 0.5, 0.5),
        v(4.5, 0.0, 1.0),
        v(1.0, 1.0, 1.0),
        v(4.0, -1.0, 0.5),
        v(9.0, 9.0, 9.0),
    ];
    for p in points.iter() {
        if a.contain(p) || b.contain(p) {
            assert!(u.contain(p));
        }
    }
    assert_eq!(u.lower(), v(0.0, -1.0, 0.0));
    assert_eq!(u.upper(), v(5.0, 1.0, 2.0));
}

#[test]
fn inverted_box_is_empty() {
    let b = Aabb { min: v(0.0, 2.0, 0.0), max: v(1.0, 1.0, 1.0) };
    assert!(b.is_empty());
    assert!(!b.contain(&v(0.5, 1.5, 0.5)));
}
