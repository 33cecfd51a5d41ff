//! Parsing binary STL data.

use raytracer::stl::{load_triangles_from_stl, StlError};

const ONE: i64 = 65536;

fn push_f32(out: &mut Vec<u8>, v: f32) {
    out.extend_from_slice(&v.to_le_bytes());
}

fn one_triangle_bytes(count: u32, degenerate: bool, bad_value: bool) -> Vec<u8> {
    let mut bytes = vec![0u8; 80];
    bytes.extend_from_slice(&count.to_le_bytes());
    // The stored normal (ignored by the parser).
    for _ in 0..3 {
        push_f32(&mut bytes, 0.0);
    }
    // Three vertices.
    push_f32(&mut bytes, 0.0);
    push_f32(&mut bytes, 0.0);
    push_f32(&mut bytes, 0.0);
    push_f32(&mut bytes, if bad_value { f32::NAN } else { 2.0 });
    push_f32(&mut bytes, 0.0);
    push_f32(&mut bytes, 0.0);
    if degenerate {
        push_f32(&mut bytes, 4.0);
        push_f32(&mut bytes, 0.0);
        push_f32(&mut bytes, 0.0);
    } else {
        push_f32(&mut bytes, 0.0);
        push_f32(&mut bytes, 1.5);
        push_f32(&mut bytes, 0.0);
    }
    // Attribute bytes.
    bytes.push(0);
    bytes.push(0);
    bytes
}

#[test]
fn parses_one_triangle() {
    let bytes = one_triangle_bytes(1, false, false);
    let tris = load_triangles_from_stl(&bytes).unwrap();
    assert_eq!(tris.len(), 1);
    let t = &tris[0];
    assert_eq!((t.points[0].x, t.points[0].y, t.points[0].z), (0, 0, 0));
    assert_eq!((t.points[1].x, t.points[1].y, t.points[1].z), (2 * ONE, 0, 0));
    assert_eq!((t.points[2].x, t.points[2].y, t.points[2].z), (0, ONE + ONE / 2, 0));
}

#[test]
fn rejects_truncated_data() {
    let bytes = vec![0u8; 40];
    assert!(matches!(load_triangles_from_stl(&bytes), Err(StlError::Truncated)));
    let mut partial = one_triangle_bytes(1, false, false);
    partial.truncate(100);
    assert!(matches!(load_triangles_from_stl(&partial), Err(StlError::Truncated)));
}

#[test]
fn rejects_count_mismatch() {
    let bytes = one_triangle_bytes(3, false, false);
    assert!(matches!(load_triangles_from_stl(&bytes), Err(StlError::CountMismatch)));
}

#[test]
fn rejects_non_finite_values() {
    let bytes = one_triangle_bytes(1, false, true);
    assert!(matches!(load_triangles_from_stl(&bytes), Err(StlError::UnsupportedValue)));
}

#[test]
fn rejects_degenerate_triangles() {
    let bytes = one_triangle_bytes(1, true, false);
    assert!(matches!(load_triangles_from_stl(&bytes), Err(StlError::DegenerateTriangle)));
}

#[test]
fn negative_and_fractional_values_decode_exactly() {
    let mut bytes = vec![0u8; 80];
    bytes.extend_from_slice(&1u32.to_le_bytes());
    for _ in 0..3 {
        push_f32(&mut bytes, 0.0);
    }
    push_f32(&mut bytes, -0.25);
    push_f32(&mut bytes, 0.0);
    push_f32(&mut bytes, 0.0);
    push_f32(&mut bytes, 3.0);
    push_f32(&mut bytes, 0.0);
    push_f32(&mut bytes, 0.0);
    push_f32(&mut bytes, 0.0);
    push_f32(&mut bytes, 510.0);
    push_f32(&mut bytes, 0.0);
    bytes.push(0);
    bytes.push(0);
    let tris = load_triangles_from_stl(&bytes).unwrap();
    assert_eq!(tris[0].points[0].x, -ONE / 4);
    assert_eq!(tris[0].points[1].x, 3 * ONE);
    assert_eq!(tris[0].points[2].y, 510 * ONE);
}
