//! End-to-end checks of the intersection core, the hierarchy and the
//! integrator.

use raytracer::bvh::generate_bvh;
use raytracer::material::{DielectricMaterial, DiffuseMaterial, EmissiveMaterial, Material,
    MetalMaterial, NormalMaterial, WorldMaterial};
use raytracer::objects::sphere::Sphere;
use raytracer::objects::triangle::Triangle;
use raytracer::point::Point3;
use raytracer::primitive::Primitive;
use raytracer::prng::mt19937::Mt19937Prng;
use raytracer::prng::PRNG;
use raytracer::ray::{HitRecord, Ray};
use raytracer::rtcore::weekend::ray_color_weekend;
use raytracer::scene::Scene;
use raytracer::vector::Vector3;

const ONE: i64 = 65536;

fn white_material() -> Material {
    Material::Diffuse(DiffuseMaterial::new(Vector3::new(ONE, ONE, ONE)))
}

fn quad_light_scene() -> Scene {
    // A unit sphere at the origin and an emissive quad above it, facing down.
    let mut scene = Scene::new();
    let sphere = Sphere::new(Point3::new(0, 0, 0), ONE, &white_material());
    scene.add_generic(Primitive::Sphere(sphere));
    let light = Material::Emissive(EmissiveMaterial::new(Vector3::new(ONE, ONE, ONE), 4 * ONE));
    let a = Vector3::new(-ONE, 2 * ONE, -ONE);
    let b = Vector3::new(ONE, 2 * ONE, -ONE);
    let c = Vector3::new(ONE, 2 * ONE, ONE);
    let d = Vector3::new(-ONE, 2 * ONE, ONE);
    let mut t1 = Triangle::new(a, b, c);
    t1.set_material(&light);
    let mut t2 = Triangle::new(a, c, d);
    t2.set_material(&light);
    scene.add_generic(Primitive::Triangle(t1));
    scene.add_generic(Primitive::Triangle(t2));
    scene
}

#[test]
fn end_to_end_sphere_hit() {
    // A camera ray aimed straight at the unit sphere's center hits its near
    // side with a forward-facing normal; capping the range below the first
    // intersection yields no hit.
    let scene = quad_light_scene();
    let ray = Ray::new(Point3::new(0, 0, -3 * ONE), Vector3::new(0, 0, ONE));
    let mut record = HitRecord::new();
    let hit = scene.intersect(&ray, 65, 100_000 * ONE, &mut record);
    assert!(hit);
    assert!(record.t > 0);
    assert!((record.t - 2 * ONE).abs() <= 4);
    assert!(record.front_face);
    assert!(record.normal.z < 0);

    let mut record2 = HitRecord::new();
    let early = scene.intersect(&ray, 65, ONE, &mut record2);
    assert!(!early);
    // A no-hit query leaves the caller's record exactly as it was.
    assert_eq!(record2, HitRecord::new());
}

#[test]
fn traversal_matches_brute_force() {
    // The closest hit agrees between the linear scan and the hierarchy, for
    // both build strategies and several rays.
    let mut scene = quad_light_scene();
    for k in 0..6 {
        let sphere = Sphere::new(
            Point3::new((k - 3) * 2 * ONE, ONE * (k % 2), -4 * ONE),
            ONE / 2,
            &white_material(),
        );
        scene.add_generic(Primitive::Sphere(sphere));
    }
    let rays = [
        Ray::new(Point3::new(0, 0, -3 * ONE), Vector3::new(0, 0, ONE)),
        Ray::new(Point3::new(-4 * ONE, 0, 0), Vector3::new(ONE, 0, 0)),
        Ray::new(Point3::new(0, 3 * ONE, 0), Vector3::new(0, -ONE, 0)),
        Ray::new(Point3::new(ONE, ONE, -6 * ONE), Vector3::new(-ONE / 4, 0, ONE)),
        Ray::new(Point3::new(0, -3 * ONE, 0), Vector3::new(ONE / 8, ONE, ONE / 8)),
    ];
    for object_median in [false, true] {
        let bvh = generate_bvh(&scene.all_elements(), object_median);
        let mut with_bvh = quad_light_scene();
        for k in 0..6 {
            let sphere = Sphere::new(
                Point3::new((k - 3) * 2 * ONE, ONE * (k % 2), -4 * ONE),
                ONE / 2,
                &white_material(),
            );
            with_bvh.add_generic(Primitive::Sphere(sphere));
        }
        with_bvh.use_bvh(Some(bvh));
        for ray in rays.iter() {
            let mut brute = HitRecord::new();
            let mut fast = HitRecord::new();
            let r1 = scene.intersect(ray, 65, 100_000 * ONE, &mut brute);
            let r2 = with_bvh.intersect(ray, 65, 100_000 * ONE, &mut fast);
            assert_eq!(r1, r2);
            if r1 {
                assert_eq!(brute.t, fast.t);
            }
        }
    }
}

#[test]
fn bvh_bounds_are_subtree_unions() {
    // Every constructed node's bounds contain the boxes of the primitives
    // under it, and the root bounds equal the union over all of them.
    let mut scene = quad_light_scene();
    for k in 0..8 {
        let sphere = Sphere::new(
            Point3::new(k * ONE, -k * ONE, 3 * ONE),
            ONE / 4 + 1,
            &white_material(),
        );
        scene.add_generic(Primitive::Sphere(sphere));
    }
    let all = scene.all_elements();
    for object_median in [false, true] {
        let bvh = generate_bvh(&all, object_median);
        let root = &bvh.nodes[bvh.root];
        let mut expect = all[0].get_bounding_volume();
        for p in all.iter() {
            let b = p.get_bounding_volume();
            expect = raytracer::bvh::BoundingVolume::union_exec(&expect, &b);
        }
        assert_eq!(root.bounds.min, expect.min);
        assert_eq!(root.bounds.max, expect.max);
    }
}

#[test]
fn sphere_intersection_round_trip() {
    // A hit point on a sphere sits at the radius from the center, and the
    // reported normal is parallel to the radius vector.
    let sphere = Sphere::new(Point3::new(ONE, 0, 0), ONE, &white_material());
    let ray = Ray::new(Point3::new(ONE, 0, -5 * ONE), Vector3::new(0, 0, ONE));
    let mut record = HitRecord::new();
    let hit = sphere.intersect(&ray, 65, 100_000 * ONE, &mut record);
    assert!(hit);
    let dx = (record.point.x - ONE) as f64 / ONE as f64;
    let dy = record.point.y as f64 / ONE as f64;
    let dz = record.point.z as f64 / ONE as f64;
    let dist = (dx * dx + dy * dy + dz * dz).sqrt();
    assert!((dist - 1.0).abs() < 1e-3, "distance from center was {dist}");
    // Parallel: the cross product of the normal and the radius vector is
    // tiny compared to their magnitudes.
    let rx = (record.point.x - ONE) as f64;
    let ry = record.point.y as f64;
    let rz = record.point.z as f64;
    let nx = record.normal.x as f64;
    let ny = record.normal.y as f64;
    let nz = record.normal.z as f64;
    let cx = ry * nz - rz * ny;
    let cy = rz * nx - rx * nz;
    let cz = rx * ny - ry * nx;
    let cross_mag = (cx * cx + cy * cy + cz * cz).sqrt();
    assert!(cross_mag <= 2.0 * ONE as f64, "cross magnitude was {cross_mag}");
}

#[test]
fn triangle_surface_points_are_contained() {
    // Points sampled on a triangle re-derive barycentric coordinates inside
    // the triangle.
    let a = Vector3::new(0, 0, 0);
    let b = Vector3::new(4 * ONE, 0, 0);
    let c = Vector3::new(0, 4 * ONE, 0);
    let tri = Triangle::new(a, b, c);
    let mut rng = Mt19937Prng::new(5489);
    for _ in 0..64 {
        let p = tri.random_point_on_surface(&mut rng);
        let u = p.x as f64 / (4 * ONE) as f64;
        let v = p.y as f64 / (4 * ONE) as f64;
        assert!(u >= -1e-3, "u was {u}");
        assert!(v >= -1e-3, "v was {v}");
        assert!(u + v <= 1.0 + 1e-3, "u + v was {}", u + v);
    }
}

#[test]
fn box_intersection_symmetry() {
    // A ray and its reversal, over the mirrored parameter range, agree on
    // whether the box is met.
    let bv = raytracer::bvh::BoundingVolume::new(
        Point3::new(-ONE, -ONE, 4 * ONE),
        Point3::new(ONE, ONE, 6 * ONE),
    );
    let dirs = [
        Vector3::new(0, 0, ONE),
        Vector3::new(ONE / 2, ONE / 3, ONE),
        Vector3::new(-ONE, ONE, 5 * ONE),
        Vector3::new(0, ONE, 0),
    ];
    for d in dirs.iter() {
        let fwd = Ray { origin: Point3::new(0, 0, 0), direction: *d };
        let rev = Ray { origin: Point3::new(0, 0, 0), direction: d.neg() };
        let a = bv.intersect_mod(&fwd, -100 * ONE, 100 * ONE);
        let b = bv.intersect_mod(&rev, -100 * ONE, 100 * ONE);
        assert_eq!(a, b);
    }
}

#[test]
fn integrator_depth_cutoff() {
    // Depth zero returns the baseline color and leaves the generator alone:
    // the next draw matches a fresh generator's first draw.
    let scene = quad_light_scene();
    let ray = Ray::new(Point3::new(0, 0, -3 * ONE), Vector3::new(0, 0, ONE));
    let mut rng = Mt19937Prng::new(5489);
    let color = ray_color_weekend(&ray, 0, &scene, &mut rng);
    assert_eq!((color.x, color.y, color.z), (ONE, ONE, ONE));
    let mut fresh = Mt19937Prng::new(5489);
    assert_eq!(rng.next_unit(), fresh.next_unit());
}

#[test]
fn integrator_miss_is_black() {
    let scene = Scene::new();
    let ray = Ray::new(Point3::new(0, 0, -3 * ONE), Vector3::new(0, 0, ONE));
    let mut rng = Mt19937Prng::new(5489);
    let color = ray_color_weekend(&ray, 8, &scene, &mut rng);
    assert_eq!((color.x, color.y, color.z), (0, 0, 0));
}

#[test]
fn emissive_and_world_materials() {
    let ray = Ray::new(Point3::new(0, 0, 0), Vector3::new(0, ONE, 0));
    let mut record = HitRecord::new();
    record.point = Point3::new(0, 0, 0);
    record.normal = Vector3::new(0, 0, -ONE);
    let mut rng = Mt19937Prng::new(1);
    let mut next = Ray::new(Point3::new(0, 0, 0), Vector3::new(0, 0, ONE));
    let mut att = Vector3::new(0, 0, 0);

    let emissive = Material::Emissive(EmissiveMaterial::new(Vector3::new(ONE / 2, ONE, ONE / 4), 2 * ONE));
    let scattered = emissive.scatter(&ray, &mut next, &mut att, &record, &mut rng);
    assert!(!scattered);
    assert_eq!((att.x, att.y, att.z), (ONE, 2 * ONE, ONE / 2));
    assert!(emissive.is_emissive());
    assert!(emissive.counts_as_light());

    // The world gradient for a straight-up ray takes the top albedo.
    let world = Material::World(WorldMaterial::new(
        Vector3::new(ONE, 0, 0),
        Vector3::new(0, ONE, 0),
    ));
    let scattered = world.scatter(&ray, &mut next, &mut att, &record, &mut rng);
    assert!(!scattered);
    assert_eq!((att.x, att.y, att.z), (ONE, 0, 0));
    assert!(!world.counts_as_light());

    let normal_mat = Material::Normal(NormalMaterial::new());
    let scattered = normal_mat.scatter(&ray, &mut next, &mut att, &record, &mut rng);
    assert!(!scattered);
    // (normal + 1) / 2 channelwise.
    assert_eq!((att.x, att.y, att.z), (ONE / 2, ONE / 2, 0));
}

#[test]
fn meshes_classify_triangles_by_material() {
    // A mesh with an emissive material lands in the light list; a diffuse
    // one lands with the objects.
    let mut scene = Scene::new();
    let light = Material::Emissive(EmissiveMaterial::new(Vector3::new(ONE, ONE, ONE), 2 * ONE));
    let quad = [
        Vector3::new(-ONE, 0, -ONE),
        Vector3::new(ONE, 0, -ONE),
        Vector3::new(ONE, 0, ONE),
        Vector3::new(-ONE, 0, ONE),
    ];
    let tris = vec![
        Triangle::new(quad[0], quad[1], quad[2]),
        Triangle::new(quad[0], quad[2], quad[3]),
    ];
    let mesh = raytracer::mesh::Mesh::new(Point3::new(0, 2 * ONE, 0), tris, &light);
    scene.add(&mesh);
    assert_eq!(scene.lights.len(), 2);
    assert_eq!(scene.objects.len(), 0);
    // The translated triangles sit at the mesh center's height.
    assert_eq!(scene.lights[0].get_position().y, 2 * ONE);

    let diffuse = white_material();
    let tris = vec![Triangle::new(quad[0], quad[1], quad[2])];
    let mesh = raytracer::mesh::Mesh::new(Point3::new(0, 0, 0), tris, &diffuse);
    scene.add(&mesh);
    assert_eq!(scene.objects.len(), 1);
}

#[test]
fn metal_and_dielectric_scatter() {
    let ray = Ray::new(Point3::new(0, -ONE, 0), Vector3::new(ONE, ONE, 0));
    let mut record = HitRecord::new();
    record.point = Point3::new(0, 0, 0);
    record.normal = Vector3::new(0, -ONE, 0);
    record.front_face = true;
    let mut rng = Mt19937Prng::new(7);
    let mut next = Ray::new(Point3::new(0, 0, 0), Vector3::new(0, 0, ONE));
    let mut att = Vector3::new(0, 0, 0);

    let metal = Material::Metal(MetalMaterial::new(Vector3::new(ONE, ONE, ONE), 0));
    let _ = metal.scatter(&ray, &mut next, &mut att, &record, &mut rng);
    assert_eq!(next.origin, Point3::new(0, 0, 0));
    assert_eq!((att.x, att.y, att.z), (ONE, ONE, ONE));

    let glass = Material::Dielectric(DielectricMaterial::new(3 * ONE / 2));
    let scattered = glass.scatter(&ray, &mut next, &mut att, &record, &mut rng);
    assert!(scattered);
    assert_eq!(next.origin, record.point);
    assert_eq!((att.x, att.y, att.z), (ONE, ONE, ONE));
}

#[test]
fn random_light_comes_from_the_light_list() {
    let scene = quad_light_scene();
    let mut rng = Mt19937Prng::new(11);
    for _ in 0..8 {
        let light = scene.get_random_light(&mut rng);
        match light {
            Primitive::Triangle(t) => {
                assert!(t.get_material().unwrap().counts_as_light());
            },
            Primitive::Sphere(_) => panic!("the sphere is not a light"),
        }
    }
}

#[test]
fn integrator_hit_on_light_returns_emission() {
    // A ray straight into the emissive quad returns the quad's emitted
    // color: albedo (1,1,1) times intensity 4.
    let scene = quad_light_scene();
    let ray = Ray::new(Point3::new(0, 3 * ONE / 2, 0), Vector3::new(0, ONE, 0));
    let mut rng = Mt19937Prng::new(5489);
    let color = ray_color_weekend(&ray, 4, &scene, &mut rng);
    assert_eq!((color.x, color.y, color.z), (4 * ONE, 4 * ONE, 4 * ONE));
}
