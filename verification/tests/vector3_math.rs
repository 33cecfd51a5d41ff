//! The same vector arithmetic checks, run against freshly built values.

use raytracer::vector::Vector3;

const ONE: i64 = 65536;
const HALF: i64 = 32768;

#[test]
fn vector3_test_vector_new() {
    let vector = Vector3::new(ONE, ONE + HALF, 2 * ONE);
    assert_eq!((vector.x, vector.y, vector.z), (ONE, ONE + HALF, 2 * ONE));
}

#[test]
fn vector3_test_vector_dot() {
    let vector = Vector3::new(ONE, ONE + HALF, 2 * ONE);
    assert_eq!(vector.dot(&vector), vector.length_squared());
}

#[test]
fn vector3_test_vector_cross() {
    let va = Vector3::new(ONE, 0, 0);
    let vb = Vector3::new(0, ONE, 0);
    let cross = va.cross(&vb);
    assert_eq!((cross.x, cross.y, cross.z), (0, 0, ONE * ONE));
}

#[test]
fn vector3_test_vector_add_vector() {
    let vc = Vector3::new(ONE, ONE + HALF, 2 * ONE).add(&Vector3::new(ONE, ONE + HALF, 2 * ONE));
    assert_eq!((vc.x, vc.y, vc.z), (2 * ONE, 3 * ONE, 4 * ONE));
}

#[test]
fn vector3_test_vector_add_vector_neg() {
    let vb = Vector3::new(ONE, ONE + HALF, 2 * ONE);
    let vc = Vector3::new(ONE, ONE + HALF, 2 * ONE).add(&vb.neg());
    assert_eq!((vc.x, vc.y, vc.z), (0, 0, 0));
}

#[test]
fn vector3_test_vector_add_assign_vector() {
    let mut va = Vector3::new(ONE, ONE + HALF, 2 * ONE);
    va = va.add(&Vector3::new(ONE, ONE + HALF, 2 * ONE));
    assert_eq!((va.x, va.y, va.z), (2 * ONE, 3 * ONE, 4 * ONE));
}

#[test]
fn vector3_test_vector_sub_vector() {
    let vc = Vector3::new(ONE, ONE + HALF, 2 * ONE).sub(&Vector3::new(2 * ONE, ONE + HALF, ONE));
    assert_eq!((vc.x, vc.y, vc.z), (-ONE, 0, ONE));
}

#[test]
fn vector3_test_vector_sub_assign_vector() {
    let mut va = Vector3::new(ONE, ONE + HALF, 2 * ONE);
    va = va.sub(&Vector3::new(2 * ONE, ONE + HALF, ONE));
    assert_eq!((va.x, va.y, va.z), (-ONE, 0, ONE));
}

#[test]
fn vector3_test_vector_mul_f32() {
    let vb = Vector3::new(ONE, ONE + HALF, 2 * ONE).scale(2 * ONE);
    assert_eq!((vb.x, vb.y, vb.z), (2 * ONE, 3 * ONE, 4 * ONE));
}

#[test]
fn vector3_test_vector_mul_assign_f32() {
    let mut va = Vector3::new(ONE, ONE + HALF, 2 * ONE);
    va = va.scale(2 * ONE);
    assert_eq!((va.x, va.y, va.z), (2 * ONE, 3 * ONE, 4 * ONE));
}

#[test]
fn vector3_test_vector_div_f32() {
    let vb = Vector3::new(2 * ONE, 4 * ONE, 8 * ONE).scale(HALF);
    assert_eq!((vb.x, vb.y, vb.z), (ONE, 2 * ONE, 4 * ONE));
}

#[test]
fn vector3_test_vector_div_assign_f32() {
    let mut va = Vector3::new(2 * ONE, 4 * ONE, 8 * ONE);
    va = va.scale(HALF);
    assert_eq!((va.x, va.y, va.z), (ONE, 2 * ONE, 4 * ONE));
}

#[test]
fn vector3_test_vector_length_squared() {
    assert_eq!(Vector3::new(2 * ONE, 4 * ONE, 8 * ONE).length_squared(), 84 * ONE * ONE);
}

#[test]
fn vector3_test_vector_length() {
    assert_eq!(Vector3::new(0, 3 * ONE, 4 * ONE).length(), 5 * ONE);
}

#[test]
fn vector3_test_vector_normalize() {
    let va = Vector3::new(10 * ONE, 3 * ONE, 4 * ONE).normalize();
    assert!((va.length() - ONE).abs() <= 8);
}
