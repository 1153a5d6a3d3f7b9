//! Ray evaluation tests.

use hkdray::fixed::Real;
use hkdray::ray::Ray;
use hkdray::vec3::{Point3, Vec3};

#[test]
fn test_at() {
    let p = Point3::new(Real::zero(), Real::zero(), Real::zero());
    let d = Vec3::new(Real::from_int(1), Real::from_int(2), Real::from_int(3));
    let r = Ray::new(p, d);

    let p1 = r.at(Real::from_int(1));
    assert_eq!(p1, Vec3::new(Real::from_int(1), Real::from_int(2), Real::from_int(3)));
    let p2 = r.at(Real::from_int(2));
    assert_eq!(p2, Vec3::new(Real::from_int(2), Real::from_int(4), Real::from_int(6)));
}

#[test]
fn test_at_zero_is_origin() {
    let p = Point3::new(Real::from_int(7), Real::from_raw(-500_000), Real::from_int(2));
    let d = Vec3::new(Real::from_int(1), Real::from_int(-4), Real::from_raw(250_000));
    let r = Ray::new(p, d);
    assert_eq!(r.at(Real::zero()), p);
    assert_eq!(r.origin(), p);
    assert_eq!(r.direction(), d);
}

#[test]
fn test_at_negative_parameter() {
    let p = Point3::new(Real::zero(), Real::zero(), Real::zero());
    let d = Vec3::new(Real::from_int(1), Real::zero(), Real::zero());
    let r = Ray::new(p, d);
    assert_eq!(r.at(Real::from_int(-3)).x, Real::from_int(-3));
}
