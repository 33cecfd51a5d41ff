//! The box, camera and helper geometry operations with exact expected
//! values.

use raytracer::bounds3::Bounds3;
use raytracer::bvh::BoundingVolume;
use raytracer::camera::Camera;
use raytracer::point::Point3;
use raytracer::utils::{distance, lerp, reflect_vector};
use raytracer::vector::Vector3;

const ONE: i64 = 65536;

#[test]
fn bounds_operations() {
    let b = Bounds3::new(&Point3::new(2 * ONE, 0, 0), &Point3::new(0, ONE, 3 * ONE));
    assert_eq!(b.p_min, Point3::new(0, 0, 0));
    assert_eq!(b.p_max, Point3::new(2 * ONE, ONE, 3 * ONE));
    let d = b.diagonal();
    assert_eq!((d.x, d.y, d.z), (2 * ONE, ONE, 3 * ONE));
    assert_eq!(b.maximum_extent(), 2);
    assert_eq!(b.volume(), 6 * ONE);
    assert_eq!(b.surface_area(), 22 * ONE);
    assert!(b.point_inside(&Point3::new(ONE, ONE / 2, ONE)));
    assert!(!b.point_inside(&Point3::new(-1, 0, 0)));

    let c = Bounds3::new(&Point3::new(ONE, ONE, ONE), &Point3::new(4 * ONE, 4 * ONE, 4 * ONE));
    assert!(b.overlaps(&c));
    let u = b.union_bounds(&c);
    assert_eq!(u.p_min, Point3::new(0, 0, 0));
    assert_eq!(u.p_max, Point3::new(4 * ONE, 4 * ONE, 4 * ONE));
    let i = b.intersection(&c);
    assert_eq!(i.p_min, Point3::new(ONE, ONE, ONE));
    assert_eq!(i.p_max, Point3::new(2 * ONE, ONE, 3 * ONE));
    let grown = b.expand(ONE);
    assert_eq!(grown.p_min, Point3::new(-ONE, -ONE, -ONE));
    assert_eq!(grown.p_max, Point3::new(3 * ONE, 2 * ONE, 4 * ONE));
    assert_eq!(b.corner(0), Point3::new(0, 0, 0));
    assert_eq!(b.corner(7), Point3::new(2 * ONE, ONE, 3 * ONE));
    // The midpoint interpolation lands exactly in the middle.
    let mid = b.lerp(&Point3::new(ONE / 2, ONE / 2, ONE / 2));
    assert_eq!(mid, Point3::new(ONE, ONE / 2, 3 * ONE / 2));
    // One corner's offset is all zeros, the other's all ones.
    let off = b.offset(&Point3::new(2 * ONE, ONE, 3 * ONE));
    assert_eq!((off.x, off.y, off.z), (ONE, ONE, ONE));
}

#[test]
fn bounding_volume_getters() {
    let bv = BoundingVolume::new(Point3::new(0, 0, 0), Point3::new(4 * ONE, 2 * ONE, ONE));
    let d = bv.diagonal();
    assert_eq!((d.x, d.y, d.z), (4 * ONE, 2 * ONE, ONE));
    assert_eq!(bv.maximum_extent(), 0);
    let mid = bv.lerp(&Vector3::new(ONE / 2, ONE / 2, ONE / 2));
    assert_eq!((mid.x, mid.y, mid.z), (2 * ONE, ONE, ONE / 2));
}

#[test]
fn reflection_formula() {
    // Reflecting a downward ray off the floor flips its vertical component.
    let v = Vector3::new(ONE, -ONE, 0);
    let n = Vector3::new(0, ONE, 0);
    let r = reflect_vector(&v, &n);
    assert_eq!((r.x, r.y, r.z), (ONE, ONE, 0));
}

#[test]
fn point_helpers() {
    let a = Point3::new(0, 0, 0);
    let b = Point3::new(3 * ONE, 4 * ONE, 0);
    assert_eq!(distance(&a, &b), 5 * ONE);
    let mid = lerp(ONE / 2, &a, &b);
    assert_eq!(mid, Point3::new(3 * ONE / 2, 2 * ONE, 0));
    let p = Point3::new(ONE, 2 * ONE, 3 * ONE).permute(2, 0, 1);
    assert_eq!(p, Point3::new(3 * ONE, ONE, 2 * ONE));
}

#[test]
fn camera_rays_pass_through_the_basis() {
    let camera = Camera::new(
        Point3::new(0, 0, -2 * ONE),
        Point3::new(0, 0, 0),
        Vector3::new(0, ONE, 0),
        75 * ONE,
        ONE,
        16,
        16,
    );
    // The center ray looks straight ahead.
    let center = camera.generate_ray(ONE / 2, ONE / 2);
    assert_eq!(center.origin, Point3::new(0, 0, -2 * ONE));
    assert!(center.direction.z > 0);
    assert_eq!(center.direction.x, 0);
    assert_eq!(center.direction.y, 0);
    // Moving the image coordinate moves the ray.
    let side = camera.generate_ray(ONE, ONE / 2);
    assert!(side.direction.x != 0);
}
