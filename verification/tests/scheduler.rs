//! The tile partition and the merge step.

use raytracer::camera::Camera;
use raytracer::film::{merge_tile, render_tile, Film, RenderConfig};
use raytracer::material::{DiffuseMaterial, Material};
use raytracer::objects::sphere::Sphere;
use raytracer::point::Point3;
use raytracer::primitive::Primitive;
use raytracer::prng::mt19937::Mt19937Prng;
use raytracer::scene::Scene;
use raytracer::vector::Vector3;

const ONE: i64 = 65536;

#[test]
fn tile_merge_covers_every_pixel_once() {
    // With the width an exact multiple of the strip width, merging one
    // buffer per strip writes every pixel exactly once: each pixel carries
    // its own strip's marker and no pixel is left at the initial zero.
    let width = 8usize;
    let height = 3usize;
    let tile_w = 2usize;
    let n = width / tile_w;
    let mut film = Film::new(width, height);
    for k in 0..n {
        let marker = (k as i64 + 1) * ONE;
        let tile: Vec<Vector3> = (0..tile_w * height)
            .map(|_| Vector3::new(marker, marker, marker))
            .collect();
        merge_tile(&mut film, &tile, tile_w, height, k);
    }
    for y in 0..height {
        for x in 0..width {
            let idx = x + y * width;
            let expected = (x / tile_w) as i64 + 1;
            assert_eq!(film.pixels[idx].x, expected * ONE, "pixel {idx}");
            assert!(film.pixels[idx].x != 0);
        }
    }
}

#[test]
fn merge_leaves_other_strips_untouched() {
    let width = 6usize;
    let height = 2usize;
    let mut film = Film::new(width, height);
    let tile: Vec<Vector3> = (0..2 * height).map(|_| Vector3::new(ONE, ONE, ONE)).collect();
    merge_tile(&mut film, &tile, 2, height, 1);
    for y in 0..height {
        for x in 0..width {
            let idx = x + y * width;
            if (2..4).contains(&x) {
                assert_eq!(film.pixels[idx].x, ONE);
            } else {
                assert_eq!(film.pixels[idx].x, 0);
            }
        }
    }
}

#[test]
fn render_tile_fills_its_strip() {
    let mut scene = Scene::new();
    let albedo = Material::Diffuse(DiffuseMaterial::new(Vector3::new(ONE, ONE, ONE)));
    scene.add_generic(Primitive::Sphere(Sphere::new(Point3::new(0, 0, 0), ONE, &albedo)));
    let camera = Camera::new(
        Point3::new(0, 0, -3 * ONE / 2),
        Point3::new(0, 0, 0),
        Vector3::new(0, ONE, 0),
        75 * ONE,
        ONE,
        8,
        4,
    );
    let config = RenderConfig { samples_per_pixel: 2, bounce_depth: 3 };
    let mut rng = Mt19937Prng::new(5489);
    let tile = render_tile(8, 4, 2, 4, 1, &scene, &camera, &config, &mut rng);
    assert_eq!(tile.len(), 8);
}

#[test]
fn strip_plan_always_tiles_exactly() {
    // The planner never drops a column: the strip count divides the width
    // for any worker count, including ones that do not divide it.
    for (width, workers) in [(10usize, 3usize), (8, 4), (7, 2), (16, 5), (9, 9), (5, 1)] {
        let (n, tile_w) = raytracer::film::plan_strips(width, workers);
        assert_eq!(n * tile_w, width);
        assert!(n >= 1 && n <= workers.max(1));
    }
}

#[test]
fn zero_depth_render_is_the_baseline() {
    // With the bounce depth at zero every sample is the baseline color, so
    // every averaged pixel is exactly white.
    let scene = Scene::new();
    let camera = Camera::new(
        Point3::new(0, 0, -2 * ONE),
        Point3::new(0, 0, 0),
        Vector3::new(0, ONE, 0),
        75 * ONE,
        ONE,
        4,
        4,
    );
    let config = RenderConfig { samples_per_pixel: 3, bounce_depth: 0 };
    let mut rng = Mt19937Prng::new(5489);
    let tile = render_tile(4, 4, 2, 4, 0, &scene, &camera, &config, &mut rng);
    for pixel in tile.iter() {
        assert_eq!((pixel.x, pixel.y, pixel.z), (ONE, ONE, ONE));
    }
}
