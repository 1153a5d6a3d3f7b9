//! Vector algebra tests.

use hkdray::fixed::Real;
use hkdray::vec3::{Point3Index, Vec3};

fn whole(x: i64, y: i64, z: i64) -> Vec3 {
    Vec3::new(Real::from_int(x), Real::from_int(y), Real::from_int(z))
}

#[test]
fn test_add() {
    let v1 = whole(1, 2, 3);
    let v2 = whole(4, 5, 6);
    assert_eq!(v1.add(&v2), whole(5, 7, 9));
    assert_eq!(v2.add(&v1), whole(5, 7, 9));
    let v3 = whole(1, 1, 1);
    assert_eq!(v1.add(&v3), whole(2, 3, 4));
}

#[test]
fn test_sub() {
    let v1 = whole(4, 5, 6);
    let v2 = whole(1, 2, 3);
    assert_eq!(v1.sub(&v2), whole(3, 3, 3));
    assert_eq!(v2.sub(&v1), whole(-3, -3, -3));
    let v3 = whole(1, 1, 1);
    assert_eq!(v1.sub(&v3), whole(3, 4, 5));
}

#[test]
fn test_mul() {
    let v1 = whole(1, 2, 3);
    assert_eq!(v1.scale(Real::from_int(2)), whole(2, 4, 6));

    let v2 = whole(4, 5, 6);
    assert_eq!(v1.mul(&v2), whole(4, 10, 18));
}

#[test]
fn test_index() {
    let v = whole(1, 2, 3);
    assert_eq!(v.component(Point3Index::X), Real::from_int(1));
    assert_eq!(v.component(Point3Index::Y), Real::from_int(2));
    assert_eq!(v.component(Point3Index::Z), Real::from_int(3));
}

#[test]
fn test_add_assign() {
    let mut v1 = whole(1, 2, 3);
    let v2 = whole(1, 2, 3);
    v1.add_assign(&v2);
    assert_eq!(v1, whole(2, 4, 6));
    assert_eq!(v2, whole(1, 2, 3));
}

#[test]
fn test_mul_assign() {
    let mut v = whole(1, 2, 3);
    v.mul_assign(Real::from_int(2));
    assert_eq!(v, whole(2, 4, 6));
}

#[test]
fn test_div_assign() {
    let mut v = whole(2, 4, 6);
    v.div_assign(Real::from_int(2));
    assert_eq!(v, whole(1, 2, 3));
}

#[test]
fn test_length() {
    let v = whole(2, 4, 6);
    // |v| = sqrt(56); the fixed-point square root truncates to the grid.
    assert_eq!(v.length().raw(), 7_483_314);
}

#[test]
fn test_display() {
    let v = Vec3::new(Real::from_raw(100_000), Real::from_raw(200_000), Real::from_raw(300_000));
    assert_eq!(v.display_string(), "25 51 76");
}

#[test]
fn test_dot() {
    let v1 = whole(1, 2, 3);
    let v2 = whole(1, 2, 3);
    let ans = v1.dot(&v2);
    assert_eq!(ans, Real::from_int(14));
}
