//! The vector arithmetic checks, stated in 16.16 fixed point: 1.0 is 65536.

use raytracer::vector::Vector3;

const ONE: i64 = 65536;
const HALF: i64 = 32768;

#[test]
fn test_vector_new() {
    let vector = Vector3::new(ONE, ONE + HALF, 2 * ONE);
    assert_eq!(vector.x, ONE);
    assert_eq!(vector.y, ONE + HALF);
    assert_eq!(vector.z, 2 * ONE);
}

#[test]
fn test_vector_dot() {
    let vector = Vector3::new(ONE, ONE + HALF, 2 * ONE);
    let dot = vector.dot(&vector);
    assert_eq!(dot, vector.length_squared());
}

#[test]
fn test_vector_cross() {
    let va = Vector3::new(ONE, 0, 0);
    let vb = Vector3::new(0, ONE, 0);
    let cross = va.cross(&vb);
    assert_eq!(cross.x, 0);
    assert_eq!(cross.y, 0);
    // A product of two unit coordinates carries two scale factors.
    assert_eq!(cross.z, ONE * ONE);
}

#[test]
fn test_vector_add_vector() {
    let va = Vector3::new(ONE, ONE + HALF, 2 * ONE);
    let vb = Vector3::new(ONE, ONE + HALF, 2 * ONE);
    let vc = va.add(&vb);
    assert_eq!(vc.x, 2 * ONE);
    assert_eq!(vc.y, 3 * ONE);
    assert_eq!(vc.z, 4 * ONE);
}

#[test]
fn test_vector_add_vector_neg() {
    let va = Vector3::new(ONE, ONE + HALF, 2 * ONE);
    let vb = Vector3::new(ONE, ONE + HALF, 2 * ONE);
    let vc = va.add(&vb.neg());
    assert_eq!(vc.x, 0);
    assert_eq!(vc.y, 0);
    assert_eq!(vc.z, 0);
}

#[test]
fn test_vector_add_assign_vector() {
    let mut va = Vector3::new(ONE, ONE + HALF, 2 * ONE);
    let vb = Vector3::new(ONE, ONE + HALF, 2 * ONE);
    va = va.add(&vb);
    assert_eq!(va.x, 2 * ONE);
    assert_eq!(va.y, 3 * ONE);
    assert_eq!(va.z, 4 * ONE);
}

#[test]
fn test_vector_sub_vector() {
    let va = Vector3::new(ONE, ONE + HALF, 2 * ONE);
    let vb = Vector3::new(2 * ONE, ONE + HALF, ONE);
    let vc = va.sub(&vb);
    assert_eq!(vc.x, -ONE);
    assert_eq!(vc.y, 0);
    assert_eq!(vc.z, ONE);
}

#[test]
fn test_vector_sub_assign_vector() {
    let mut va = Vector3::new(ONE, ONE + HALF, 2 * ONE);
    let vb = Vector3::new(2 * ONE, ONE + HALF, ONE);
    va = va.sub(&vb);
    assert_eq!(va.x, -ONE);
    assert_eq!(va.y, 0);
    assert_eq!(va.z, ONE);
}

#[test]
fn test_vector_mul_f32() {
    let va = Vector3::new(ONE, ONE + HALF, 2 * ONE);
    let vb = va.scale(2 * ONE);
    assert_eq!(vb.x, 2 * ONE);
    assert_eq!(vb.y, 3 * ONE);
    assert_eq!(vb.z, 4 * ONE);
}

#[test]
fn test_vector_mul_assign_f32() {
    let mut va = Vector3::new(ONE, ONE + HALF, 2 * ONE);
    va = va.scale(2 * ONE);
    assert_eq!(va.x, 2 * ONE);
    assert_eq!(va.y, 3 * ONE);
    assert_eq!(va.z, 4 * ONE);
}

#[test]
fn test_vector_div_f32() {
    let va = Vector3::new(2 * ONE, 4 * ONE, 8 * ONE);
    let vb = va.scale(HALF);
    assert_eq!(vb.x, ONE);
    assert_eq!(vb.y, 2 * ONE);
    assert_eq!(vb.z, 4 * ONE);
}

#[test]
fn test_vector_div_assign_f32() {
    let mut va = Vector3::new(2 * ONE, 4 * ONE, 8 * ONE);
    va = va.scale(HALF);
    assert_eq!(va.x, ONE);
    assert_eq!(va.y, 2 * ONE);
    assert_eq!(va.z, 4 * ONE);
}

#[test]
fn test_vector_length_squared() {
    let va = Vector3::new(2 * ONE, 4 * ONE, 8 * ONE);
    assert_eq!(va.length_squared(), 84 * ONE * ONE);
}

#[test]
fn test_vector_length() {
    let va = Vector3::new(0, 3 * ONE, 4 * ONE);
    assert_eq!(va.length(), 5 * ONE);
}

#[test]
fn test_vector_normalize() {
    let va = Vector3::new(10 * ONE, 3 * ONE, 4 * ONE).normalize();
    let l = va.length();
    assert!((l - ONE).abs() <= 8, "length after normalizing was {l}");
}
