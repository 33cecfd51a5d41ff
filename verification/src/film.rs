//! The framebuffer and the tile scheduler.
//!
//! The image is partitioned into vertical strips of equal width, one strip
//! per worker. Rendering a strip is a pure function of the scene, the
//! camera and the worker's own generator, so workers can run concurrently;
//! the merge step afterwards copies each private strip buffer into its
//! region of the global framebuffer. The partition arithmetic and the merge
//! are verified here; an embedding program may run the strips on threads.

use vstd::prelude::*;

use crate::camera::Camera;
use crate::math::SCALE;
use crate::prng::PRNG;
use crate::rtcore::weekend::{radiance_bounded, ray_color_weekend, spec_white, RADIANCE_MAX};
use crate::scene::Scene;
use crate::vector::Vector3;

verus! {

/// The sampling knobs of a render.
pub struct RenderConfig {
    pub samples_per_pixel: usize,
    pub bounce_depth: usize,
}

impl RenderConfig {
    pub open spec fn wf(self) -> bool {
        1 <= self.samples_per_pixel <= 0x10000
    }
}

/// The whole-image pixel store.
pub struct Film {
    pub width: usize,
    pub height: usize,
    pub pixels: Vec<Vector3>,
}

impl Film {
    pub open spec fn wf(self) -> bool {
        self.pixels@.len() == self.width * self.height
    }

    /// A film of the given size, all pixels zero.
    pub fn new(width: usize, height: usize) -> (r: Film)
        requires
            width * height <= 0x1000_0000,
        ensures
            r.width == width,
            r.height == height,
            r.wf(),
            forall|i: int|
                0 <= i < r.pixels@.len() ==> (#[trigger] r.pixels@[i]) == (Vector3 {
                    x: 0i64,
                    y: 0i64,
                    z: 0i64,
                }),
    {
        let mut pixels: Vec<Vector3> = Vec::new();
        let n = width * height;
        let mut k: usize = 0;
        while k < n
            invariant
                k <= n,
                pixels@.len() == k,
                forall|i: int|
                    0 <= i < k ==> (#[trigger] pixels@[i]) == (Vector3 { x: 0i64, y: 0i64, z: 0i64 }),
            decreases n - k,
        {
            pixels.push(Vector3 { x: 0, y: 0, z: 0 });
            k += 1;
        }
        Film { width, height, pixels }
    }
}

/// The pixel index `idx` of an image of width `w` lies in the vertical
/// strip `k` of strip width `tw`.
pub open spec fn strip_covers(w: int, tw: int, k: int, idx: int) -> bool {
    k * tw <= idx % w < (k + 1) * tw
}

/// The framebuffer slot of strip cell `(x, y)` in strip `tix`.
pub open spec fn cell_index(tix: int, tw: int, w: int, x: int, y: int) -> int {
    tix * tw + x + y * w
}

/// Tile-partition completeness: when the image width is an exact multiple
/// of the strip width, every pixel index of the image lies in exactly one
/// strip.
pub proof fn lemma_strip_cover_unique(w: int, tw: int, n: int, h: int, idx: int)
    requires
        w == n * tw,
        tw >= 1,
        n >= 1,
        h >= 1,
        0 <= idx < w * h,
    ensures
        exists|k: int| 0 <= k < n && #[trigger] strip_covers(w, tw, k, idx),
        forall|k1: int, k2: int|
            0 <= k1 < n && 0 <= k2 < n && #[trigger] strip_covers(w, tw, k1, idx)
                && #[trigger] strip_covers(w, tw, k2, idx) ==> k1 == k2,
{
    let c = idx % w;
    assert(0 <= c < w) by (nonlinear_arith)
        requires w >= 1, idx >= 0, c == idx % w;
    let k = c / tw;
    assert(0 <= k < n && k * tw <= c < (k + 1) * tw) by (nonlinear_arith)
        requires
            0 <= c < w,
            w == n * tw,
            tw >= 1,
            k == c / tw;
    assert(strip_covers(w, tw, k, idx));
    assert forall|k1: int, k2: int|
        0 <= k1 < n && 0 <= k2 < n && #[trigger] strip_covers(w, tw, k1, idx)
            && #[trigger] strip_covers(w, tw, k2, idx) implies k1 == k2 by {
        assert(k1 == k2) by (nonlinear_arith)
            requires
                k1 * tw <= c < (k1 + 1) * tw,
                k2 * tw <= c < (k2 + 1) * tw,
                tw >= 1,
                c == idx % w;
    }
}


/// Choose the worker strips for an image: the largest count of equal-width
/// vertical strips that is at most the requested worker count and divides
/// the width exactly, so no column is dropped.
pub fn plan_strips(width: usize, workers: usize) -> (r: (usize, usize))
    requires
        1 <= width,
    ensures
        1 <= r.0 <= (if workers >= 1 { workers as int } else { 1 }),
        1 <= r.1,
        r.0 * r.1 == width,
{
    let mut n: usize = if workers < 1 {
        1
    } else if workers > width {
        width
    } else {
        workers
    };
    while width % n != 0
        invariant
            1 <= n <= width,
            n <= (if workers >= 1 { workers as int } else { 1 }),
        decreases n,
    {
        n = n - 1;
    }
    let tile_w = width / n;
    proof {
        vstd::arithmetic::div_mod::lemma_fundamental_div_mod(width as int, n as int);
        assert((n as int) * ((width as int) / (n as int)) == width as int);
        assert(tile_w >= 1) by (nonlinear_arith)
            requires
                (n as int) * (tile_w as int) == width as int,
                width >= 1,
                n >= 1,
                n <= width,
                tile_w == (width as int) / (n as int);
    }
    (n, tile_w)
}

/// Render one vertical strip: for every pixel of the strip, average the
/// configured number of jittered integrator samples. The result is a
/// private buffer of exactly one radiance value per strip pixel. The
/// samples consume the generator threaded through the calls, so only the
/// deterministic case is pinned by contract: at bounce depth zero every
/// sample is the baseline color and every averaged pixel is exactly white.
pub fn render_tile<R: PRNG>(
    image_width: usize,
    image_height: usize,
    tile_size_x: usize,
    tile_size_y: usize,
    tile_index_x: usize,
    scene: &Scene,
    camera: &Camera,
    config: &RenderConfig,
    rng: &mut R,
) -> (r: Vec<Vector3>)
    requires
        old(rng).inv(),
        scene.wf(),
        camera.wf(),
        config.wf(),
        2 <= image_width <= 16384,
        2 <= image_height <= 16384,
        1 <= tile_size_x,
        1 <= tile_size_y <= image_height,
        (tile_index_x + 1) * tile_size_x <= image_width,
        tile_size_x * tile_size_y <= 0x1000_0000,
    ensures
        final(rng).inv(),
        r@.len() == tile_size_x * tile_size_y,
        forall|i: int| 0 <= i < r@.len() ==> radiance_bounded(#[trigger] r@[i]),
        config.bounce_depth == 0 ==> forall|i: int|
            0 <= i < r@.len() ==> (#[trigger] r@[i]) == spec_white(),
{
    let mut framebuffer: Vec<Vector3> = Vec::new();
    let mut y: usize = 0;
    while y < tile_size_y
        invariant
            rng.inv(),
            scene.wf(),
            camera.wf(),
            config.wf(),
            2 <= image_width <= 16384,
            2 <= image_height <= 16384,
            1 <= tile_size_x,
            1 <= tile_size_y <= image_height,
            (tile_index_x + 1) * tile_size_x <= image_width,
            tile_size_x * tile_size_y <= 0x1000_0000,
            y <= tile_size_y,
            framebuffer@.len() == y * tile_size_x,
            forall|i: int|
                0 <= i < framebuffer@.len() ==> radiance_bounded(#[trigger] framebuffer@[i]),
            config.bounce_depth == 0 ==> forall|i: int|
                0 <= i < framebuffer@.len() ==> (#[trigger] framebuffer@[i]) == spec_white(),
        decreases tile_size_y - y,
    {
        let mut x: usize = 0;
        while x < tile_size_x
            invariant
                rng.inv(),
                scene.wf(),
                camera.wf(),
                config.wf(),
                2 <= image_width <= 16384,
                2 <= image_height <= 16384,
                1 <= tile_size_x,
                1 <= tile_size_y <= image_height,
                y < tile_size_y,
                (tile_index_x + 1) * tile_size_x <= image_width,
                tile_size_x * tile_size_y <= 0x1000_0000,
                x <= tile_size_x,
                framebuffer@.len() == y * tile_size_x + x,
                forall|i: int|
                    0 <= i < framebuffer@.len() ==> radiance_bounded(#[trigger] framebuffer@[i]),
                config.bounce_depth == 0 ==> forall|i: int|
                    0 <= i < framebuffer@.len() ==> (#[trigger] framebuffer@[i]) == spec_white(),
            decreases tile_size_x - x,
        {
            let color = render_pixel(
                image_width,
                image_height,
                tile_size_x,
                tile_index_x,
                x,
                y,
                scene,
                camera,
                config,
                rng,
            );
            framebuffer.push(color);
            proof {
                assert(y * tile_size_x + x + 1 <= tile_size_x * tile_size_y) by (nonlinear_arith)
                    requires
                        y < tile_size_y,
                        x < tile_size_x,
                        tile_size_x >= 1;
            }
            x += 1;
        }
        proof {
            assert(y * tile_size_x + tile_size_x == (y + 1) * tile_size_x) by (nonlinear_arith);
        }
        y += 1;
    }
    proof {
        assert(tile_size_y * tile_size_x == tile_size_x * tile_size_y) by (nonlinear_arith);
    }
    framebuffer
}

/// Average the configured number of jittered samples for one pixel.
fn render_pixel<R: PRNG>(
    image_width: usize,
    image_height: usize,
    tile_size_x: usize,
    tile_index_x: usize,
    x: usize,
    y: usize,
    scene: &Scene,
    camera: &Camera,
    config: &RenderConfig,
    rng: &mut R,
) -> (r: Vector3)
    requires
        old(rng).inv(),
        scene.wf(),
        camera.wf(),
        config.wf(),
        2 <= image_width <= 16384,
        2 <= image_height <= 16384,
        1 <= tile_size_x,
        x < tile_size_x,
        y < image_height,
        (tile_index_x + 1) * tile_size_x <= image_width,
    ensures
        final(rng).inv(),
        radiance_bounded(r),
        config.bounce_depth == 0 ==> r == spec_white(),
{
    let mut sum = Vector3 { x: 0, y: 0, z: 0 };
    let mut s: usize = 0;
    let spp = config.samples_per_pixel;
    proof {
        assert(x + tile_size_x * tile_index_x < image_width) by (nonlinear_arith)
            requires
                x < tile_size_x,
                (tile_index_x + 1) * tile_size_x <= image_width,
                tile_size_x >= 1;
    }
    let px = x + tile_size_x * tile_index_x;
    while s < spp
        invariant
            rng.inv(),
            scene.wf(),
            camera.wf(),
            1 <= spp <= 0x10000,
            s <= spp,
            px < image_width <= 16384,
            2 <= image_width,
            2 <= image_height <= 16384,
            y < image_height,
            -((RADIANCE_MAX as int) * s) <= sum.x <= (RADIANCE_MAX as int) * s,
            -((RADIANCE_MAX as int) * s) <= sum.y <= (RADIANCE_MAX as int) * s,
            -((RADIANCE_MAX as int) * s) <= sum.z <= (RADIANCE_MAX as int) * s,
            config.bounce_depth == 0 ==> sum.x == (s as int) * (SCALE as int) && sum.y == (
            s as int) * (SCALE as int) && sum.z == (s as int) * (SCALE as int),
        decreases spp - s,
    {
        let ju = rng.next_unit();
        let jv = rng.next_unit();
        let un = (px as i64) * SCALE + ju;
        let vn = SCALE * (image_height as i64 - 1) - ((y as i64) * SCALE + jv);
        let u = crate::math::clamp64(
            crate::math::div_floor(un, image_width as i64 - 1),
            0,
            SCALE,
        );
        let v = crate::math::clamp64(
            crate::math::div_floor(vn, image_height as i64 - 1),
            0,
            SCALE,
        );
        let ray = camera.generate_ray(u, v);
        let sample = ray_color_weekend(&ray, config.bounce_depth, scene, rng);
        proof {
            assert((RADIANCE_MAX as int) * s + RADIANCE_MAX as int == (RADIANCE_MAX as int) * (s
                + 1) && (RADIANCE_MAX as int) * (s as int + 1) <= (RADIANCE_MAX as int) * 0x10000
                && 0 <= (RADIANCE_MAX as int) * s <= (RADIANCE_MAX as int) * 0x10000)
                by (nonlinear_arith)
                requires 0 <= s, s as int + 1 <= 0x10000;
        }
        sum = Vector3 { x: sum.x + sample.x, y: sum.y + sample.y, z: sum.z + sample.z };
        proof {
            assert((s as int) * (SCALE as int) + SCALE as int == (s as int + 1) * (SCALE as int))
                by (nonlinear_arith);
        }
        s += 1;
    }
    proof {
        crate::math::lemma_floor_div_quotient_bound(sum.x as int, spp as int, RADIANCE_MAX as int);
        crate::math::lemma_floor_div_quotient_bound(sum.y as int, spp as int, RADIANCE_MAX as int);
        crate::math::lemma_floor_div_quotient_bound(sum.z as int, spp as int, RADIANCE_MAX as int);
        assert(crate::math::abs_i(sum.x as int) <= (spp as int) * (RADIANCE_MAX as int)
            && crate::math::abs_i(sum.y as int) <= (spp as int) * (RADIANCE_MAX as int)
            && crate::math::abs_i(sum.z as int) <= (spp as int) * (RADIANCE_MAX as int))
            by (nonlinear_arith)
            requires
                -((RADIANCE_MAX as int) * spp) <= sum.x <= (RADIANCE_MAX as int) * spp,
                -((RADIANCE_MAX as int) * spp) <= sum.y <= (RADIANCE_MAX as int) * spp,
                -((RADIANCE_MAX as int) * spp) <= sum.z <= (RADIANCE_MAX as int) * spp;
    }
    proof {
        if config.bounce_depth == 0 {
            vstd::arithmetic::div_mod::lemma_div_multiples_vanish(SCALE as int, spp as int);
            assert((spp as int) * (SCALE as int) == (spp as int) * (SCALE as int));
            assert(crate::math::floor_div((spp as int) * (SCALE as int), spp as int)
                == SCALE as int);
        }
    }
    Vector3 {
        x: crate::math::div_floor(sum.x, spp as i64),
        y: crate::math::div_floor(sum.y, spp as i64),
        z: crate::math::div_floor(sum.z, spp as i64),
    }
}

/// Copy one strip buffer into its region of the global framebuffer: pixels
/// of the strip take the strip's values and every other pixel is untouched.
pub fn merge_tile(
    film: &mut Film,
    tile: &Vec<Vector3>,
    tile_size_x: usize,
    tile_size_y: usize,
    tile_index_x: usize,
)
    requires
        old(film).wf(),
        1 <= tile_size_x,
        tile_size_y == old(film).height,
        tile@.len() == tile_size_x * tile_size_y,
        (tile_index_x + 1) * tile_size_x <= old(film).width,
        old(film).width * old(film).height <= 0x1000_0000,
    ensures
        final(film).wf(),
        final(film).width == old(film).width,
        final(film).height == old(film).height,
        forall|xx: int, yy: int|
            0 <= xx < tile_size_x && 0 <= yy < tile_size_y ==> final(film).pixels@[#[trigger] cell_index(
                tile_index_x as int,
                tile_size_x as int,
                old(film).width as int,
                xx,
                yy,
            )] == tile@[xx + yy * tile_size_x],
        forall|idx: int|
            0 <= idx < final(film).pixels@.len() && !strip_covers(
                old(film).width as int,
                tile_size_x as int,
                tile_index_x as int,
                idx,
            ) ==> final(film).pixels@[idx] == old(film).pixels@[idx],
{
    let w = film.width;
    let mut y: usize = 0;
    while y < tile_size_y
        invariant
            film.wf(),
            film.width == old(film).width,
            film.height == old(film).height,
            w == film.width,
            1 <= tile_size_x,
            tile_size_y == film.height,
            tile@.len() == tile_size_x * tile_size_y,
            (tile_index_x + 1) * tile_size_x <= film.width,
            film.width * film.height <= 0x1000_0000,
            y <= tile_size_y,
            forall|xx: int, yy: int|
                0 <= xx < tile_size_x && 0 <= yy < y ==> film.pixels@[#[trigger] cell_index(
                    tile_index_x as int,
                    tile_size_x as int,
                    film.width as int,
                    xx,
                    yy,
                )] == tile@[xx + yy * tile_size_x],
            forall|idx: int|
                0 <= idx < film.pixels@.len() && !strip_covers(
                    film.width as int,
                    tile_size_x as int,
                    tile_index_x as int,
                    idx,
                ) ==> film.pixels@[idx] == old(film).pixels@[idx],
        decreases tile_size_y - y,
    {
        let mut x: usize = 0;
        while x < tile_size_x
            invariant
                film.wf(),
                film.width == old(film).width,
                film.height == old(film).height,
                w == film.width,
                1 <= tile_size_x,
                tile_size_y == film.height,
                tile@.len() == tile_size_x * tile_size_y,
                (tile_index_x + 1) * tile_size_x <= film.width,
                film.width * film.height <= 0x1000_0000,
                y < tile_size_y,
                x <= tile_size_x,
                forall|xx: int, yy: int|
                    0 <= xx < tile_size_x && 0 <= yy < y ==> film.pixels@[#[trigger] cell_index(
                        tile_index_x as int,
                        tile_size_x as int,
                        film.width as int,
                        xx,
                        yy,
                    )] == tile@[xx + yy * tile_size_x],
                forall|xx: int|
                    0 <= xx < x ==> film.pixels@[#[trigger] cell_index(
                        tile_index_x as int,
                        tile_size_x as int,
                        film.width as int,
                        xx,
                        y as int,
                    )] == tile@[xx + y * tile_size_x],
                forall|idx: int|
                    0 <= idx < film.pixels@.len() && !strip_covers(
                        film.width as int,
                        tile_size_x as int,
                        tile_index_x as int,
                        idx,
                    ) ==> film.pixels@[idx] == old(film).pixels@[idx],
            decreases tile_size_x - x,
        {
            proof {
                lemma_merge_indices(
                    film.width as int,
                    film.height as int,
                    tile_size_x as int,
                    tile_size_y as int,
                    tile_index_x as int,
                    x as int,
                    y as int,
                );
            }
            let tile_fb_index = x + y * tile_size_x;
            let fb_index = tile_index_x * tile_size_x + x + y * w;
            let value = tile[tile_fb_index];
            let ghost pre = film.pixels@;
            film.pixels.set(fb_index, value);
            proof {
                let wv = film.width as int;
                let hv = film.height as int;
                let tw = tile_size_x as int;
                let th = tile_size_y as int;
                let tix = tile_index_x as int;
                lemma_merge_step(wv, hv, tw, tix, x as int, y as int);
                assert(fb_index as int == cell_index(tix, tw, wv, x as int, y as int));
                assert(tile_fb_index as int == x as int + (y as int) * tw);
                assert forall|xx: int, yy: int|
                    0 <= xx < tw && 0 <= yy < y implies film.pixels@[#[trigger] cell_index(
                    tix,
                    tw,
                    wv,
                    xx,
                    yy,
                )] == tile@[xx + yy * tw] by {
                    lemma_merge_indices(wv, hv, tw, th, tix, xx, yy);
                    assert(cell_index(tix, tw, wv, xx, yy) != fb_index as int);
                    assert(pre[cell_index(tix, tw, wv, xx, yy)] == tile@[xx + yy * tw]);
                }
                assert forall|xx: int|
                    0 <= xx < x + 1 implies film.pixels@[#[trigger] cell_index(
                    tix,
                    tw,
                    wv,
                    xx,
                    y as int,
                )] == tile@[xx + (y as int) * tw] by {
                    lemma_merge_indices(wv, hv, tw, th, tix, xx, y as int);
                    if xx < x {
                        assert(cell_index(tix, tw, wv, xx, y as int) != fb_index as int);
                        assert(pre[cell_index(tix, tw, wv, xx, y as int)] == tile@[xx + (
                        y as int) * tw]);
                    }
                }
                assert forall|idx: int|
                    0 <= idx < film.pixels@.len() && !strip_covers(wv, tw, tix, idx) implies film
                    .pixels@[idx] == old(film).pixels@[idx] by {
                    assert(idx != fb_index as int);
                    assert(pre[idx] == old(film).pixels@[idx]);
                }
            }
            x += 1;
        }
        y += 1;
    }
}

/// The written index is in range and distinct from every other strip pixel.
proof fn lemma_merge_indices(w: int, h: int, tw: int, th: int, tix: int, x: int, y: int)
    requires
        1 <= tw,
        th == h,
        0 <= tix,
        (tix + 1) * tw <= w,
        0 <= x < tw,
        0 <= y < th,
        w * h <= 0x1000_0000,
    ensures
        0 <= y * tw,
        0 <= y * w,
        0 <= tix * tw,
        x + y * tw < tw * th,
        tix * tw + x + y * w < w * h,
        tw * th <= w * h,
{
    assert(0 <= y * tw && 0 <= y * w && 0 <= tix * tw) by (nonlinear_arith)
        requires 0 <= y, 1 <= tw, 0 <= tix, (tix + 1) * tw <= w, w * h <= 0x1000_0000;
    assert(x + y * tw < tw * th) by (nonlinear_arith)
        requires 1 <= tw, 0 <= x < tw, 0 <= y < th;
    assert(tix * tw + x + y * w < w * h && tw * th <= w * h) by (nonlinear_arith)
        requires
            1 <= tw,
            th == h,
            0 <= tix,
            (tix + 1) * tw <= w,
            0 <= x < tw,
            0 <= y < th;
}

/// After one write, the written cell holds the strip value, strip cells
/// written earlier keep theirs, and cells outside the strip are untouched:
/// the written index lies inside the strip and encodes `(x, y)` uniquely.
proof fn lemma_merge_step(w: int, h: int, tw: int, tix: int, x: int, y: int)
    requires
        1 <= tw,
        0 <= tix,
        (tix + 1) * tw <= w,
        0 <= x < tw,
        0 <= y < h,
    ensures
        strip_covers(w, tw, tix, cell_index(tix, tw, w, x, y)),
        forall|xx: int, yy: int|
            0 <= xx < tw && 0 <= yy < h && (xx != x || yy != y) ==> #[trigger] cell_index(
                tix,
                tw,
                w,
                xx,
                yy,
            ) != cell_index(tix, tw, w, x, y),
{
    assert(0 <= tix * tw && tix * tw + x < w && tw <= w) by (nonlinear_arith)
        requires
            0 <= tix,
            1 <= tw,
            (tix + 1) * tw <= w,
            0 <= x < tw;
    assert((tix * tw + x + y * w) % w == tix * tw + x) by (nonlinear_arith)
        requires
            0 <= tix * tw + x < w,
            0 <= y,
            w >= 1;
    assert(tix * tw <= tix * tw + x < (tix + 1) * tw) by (nonlinear_arith)
        requires 0 <= x < tw;
    assert forall|xx: int, yy: int|
        0 <= xx < tw && 0 <= yy < h && (xx != x || yy != y) implies #[trigger] cell_index(
        tix,
        tw,
        w,
        xx,
        yy,
    ) != cell_index(tix, tw, w, x, y) by {
        assert(tix * tw + xx + yy * w != tix * tw + x + y * w) by (nonlinear_arith)
            requires
                0 <= xx < tw,
                0 <= x < tw,
                tw <= w,
                0 <= yy,
                0 <= y,
                (xx != x || yy != y);
    }
}

} // verus!
