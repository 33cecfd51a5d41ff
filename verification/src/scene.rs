//! The scene: the primitive lists, the intersection dispatch and the
//! hierarchy traversal.

use vstd::prelude::*;

use crate::bvh::{arena_ok, links_ok, prims_bvs, slab_hit, tree_prims, BVHNode, BoundingVolume, Bvh};
use crate::math::{t_in_bounds, SCALE};
use crate::primitive::{is_best_hit, lemma_prim_hit_basics, lemma_prim_hit_restrict, prim_hit,
    Primitive};
use crate::ray::{HitRecord, Ray};

verus! {

pub struct Scene {
    pub objects: Vec<Primitive>,
    pub lights: Vec<Primitive>,
    pub bvh: Option<Bvh>,
}

/// Scan a list of primitives for the closest hit inside `(t_min, t_max)`,
/// shrinking the search range as hits are found.
fn scan_primitives(
    prims: &Vec<Primitive>,
    ray: &Ray,
    t_min: i64,
    t_max: i64,
    record: &mut HitRecord,
) -> (r: bool)
    requires
        forall|k: int| 0 <= k < prims@.len() ==> (#[trigger] prims@[k]).wf(),
        ray.wf(),
        t_in_bounds(t_min as int),
        t_in_bounds(t_max as int),
        t_min < t_max,
    ensures
        is_best_hit(
            prims@,
            *ray,
            t_min as int,
            t_max as int,
            if r {
                Some(*final(record))
            } else {
                None
            },
        ),
        r ==> final(record).wf() && t_min < final(record).t < t_max,
        !r ==> *final(record) == *old(record),
{
    let mut tmp_record = HitRecord::new();
    let mut hit_anything = false;
    let mut closest_so_far = t_max;
    let mut k: usize = 0;
    while k < prims.len()
        invariant
            forall|m: int| 0 <= m < prims@.len() ==> (#[trigger] prims@[m]).wf(),
            ray.wf(),
            t_in_bounds(t_min as int),
            t_in_bounds(t_max as int),
            t_min < t_max,
            k <= prims@.len(),
            hit_anything ==> record.wf() && t_min < record.t < t_max && closest_so_far == record.t,
            !hit_anything ==> closest_so_far == t_max && *record == *old(record),
            is_best_hit(
                prims@.subrange(0, k as int),
                *ray,
                t_min as int,
                t_max as int,
                if hit_anything {
                    Some(*record)
                } else {
                    None
                },
            ),
        decreases prims@.len() - k,
    {
        let ghost pre = if hit_anything {
            Some(*record)
        } else {
            None
        };
        let hit = prims[k].intersect(ray, t_min, closest_so_far, &mut tmp_record);
        proof {
            lemma_prim_hit_restrict(
                prims@[k as int],
                *ray,
                t_min as int,
                t_max as int,
                closest_so_far as int,
            );
        }
        if hit {
            hit_anything = true;
            closest_so_far = tmp_record.t;
            record.copy_from(&tmp_record);
        }
        proof {
            let cur = if hit_anything {
                Some(*record)
            } else {
                None
            };
            assert(prims@.subrange(0, k as int + 1).drop_last() =~= prims@.subrange(0, k as int));
            assert(prims@.subrange(0, k as int + 1).last() == prims@[k as int]);
            lemma_best_step(
                prims@,
                *ray,
                t_min as int,
                t_max as int,
                k as int,
                pre,
                cur,
            );
        }
        k += 1;
    }
    proof {
        assert(prims@.subrange(0, prims@.len() as int) =~= prims@);
    }
    hit_anything
}

/// Extending a best-hit scan by one primitive: the new result is the old
/// one, or the new primitive's hit when it is strictly closer.
proof fn lemma_best_step(
    prims: Seq<Primitive>,
    ray: Ray,
    t0: int,
    t1: int,
    k: int,
    pre: Option<HitRecord>,
    cur: Option<HitRecord>,
)
    requires
        0 <= k < prims.len(),
        is_best_hit(prims.subrange(0, k), ray, t0, t1, pre),
        ({
            let tau = if pre is Some {
                pre.unwrap().t as int
            } else {
                t1
            };
            (match prim_hit(prims[k], ray, t0, tau) {
                Some(h) => cur == Some(h),
                None => cur == pre,
            }) && (prim_hit(prims[k], ray, t0, tau) == (match prim_hit(prims[k], ray, t0, t1) {
                Some(h) => if (h.t as int) < tau {
                    Some(h)
                } else {
                    None::<HitRecord>
                },
                None => None::<HitRecord>,
            }))
        }),
        pre is Some ==> t0 < pre.unwrap().t < t1,
    ensures
        is_best_hit(prims.subrange(0, k + 1), ray, t0, t1, cur),
{
    let sub = prims.subrange(0, k);
    let sub1 = prims.subrange(0, k + 1);
    assert(sub1.drop_last() =~= sub);
    assert(sub1.last() == prims[k]);
    assert(forall|i: int| 0 <= i < k ==> sub1[i] == sub[i]);
    let tau = if pre is Some {
        pre.unwrap().t as int
    } else {
        t1
    };
    match prim_hit(prims[k], ray, t0, tau) {
        Some(h) => {
            assert(cur == Some(h));
            assert(prim_hit(prims[k], ray, t0, t1) == Some(h));
            assert(sub1[k] == prims[k]);
            assert forall|i: int|
                0 <= i < sub1.len() implies (prim_hit(#[trigger] sub1[i], ray, t0, t1) matches Some(
                g,
            ) ==> h.t <= g.t) by {
                if i < k {
                    if pre is Some {
                        assert(prim_hit(sub[i], ray, t0, t1) matches Some(g) ==> pre.unwrap().t
                            <= g.t);
                    }
                }
            }
        },
        None => {
            assert(cur == pre);
            match pre {
                Some(hp) => {
                    let w = choose|i: int|
                        0 <= i < sub.len() && prim_hit(#[trigger] sub[i], ray, t0, t1) == Some(hp);
                    assert(sub1[w] == sub[w]);
                    assert forall|i: int|
                        0 <= i < sub1.len() implies (prim_hit(
                        #[trigger] sub1[i],
                        ray,
                        t0,
                        t1,
                    ) matches Some(g) ==> hp.t <= g.t) by {
                        if i == k {
                            if prim_hit(prims[k], ray, t0, t1) is Some {
                                let g = prim_hit(prims[k], ray, t0, t1).unwrap();
                                assert(g.t as int >= tau);
                            }
                        }
                    }
                },
                None => {
                    assert forall|i: int| 0 <= i < sub1.len() implies prim_hit(
                        #[trigger] sub1[i],
                        ray,
                        t0,
                        t1,
                    ) is None by {
                        if i < k {
                            assert(sub[i] == sub1[i]);
                        }
                    }
                },
            }
        },
    }
}

/// A best hit over one list is a best hit over any list holding the same
/// primitives, regardless of order or multiplicity.
pub proof fn lemma_best_hit_transfer(
    prims1: Seq<Primitive>,
    prims2: Seq<Primitive>,
    ray: Ray,
    t0: int,
    t1: int,
    res: Option<HitRecord>,
)
    requires
        is_best_hit(prims1, ray, t0, t1, res),
        forall|i: int| 0 <= i < prims1.len() ==> prims2.contains(#[trigger] prims1[i]),
        forall|j: int| 0 <= j < prims2.len() ==> prims1.contains(#[trigger] prims2[j]),
    ensures
        is_best_hit(prims2, ray, t0, t1, res),
{
    match res {
        None => {
            assert forall|j: int| 0 <= j < prims2.len() implies prim_hit(
                #[trigger] prims2[j],
                ray,
                t0,
                t1,
            ) is None by {
                let w = choose|w: int| 0 <= w < prims1.len() && prims1[w] == prims2[j];
            }
        },
        Some(h) => {
            let i = choose|i: int|
                0 <= i < prims1.len() && prim_hit(#[trigger] prims1[i], ray, t0, t1) == Some(h);
            let w = choose|w: int| 0 <= w < prims2.len() && prims2[w] == prims1[i];
            assert(prim_hit(prims2[w], ray, t0, t1) == Some(h));
            assert forall|j: int|
                0 <= j < prims2.len() implies (prim_hit(#[trigger] prims2[j], ray, t0, t1) matches
            Some(g) ==> h.t <= g.t) by {
                let v = choose|v: int| 0 <= v < prims1.len() && prims1[v] == prims2[j];
            }
        },
    }
}

/// Two best-hit results over the same primitives agree: the closest hit is
/// unique in its parameter, so the hierarchy traversal and the brute-force
/// scan are observably interchangeable.
pub proof fn lemma_closest_hit_unique(
    prims: Seq<Primitive>,
    ray: Ray,
    t0: int,
    t1: int,
    r1: Option<HitRecord>,
    r2: Option<HitRecord>,
)
    requires
        is_best_hit(prims, ray, t0, t1, r1),
        is_best_hit(prims, ray, t0, t1, r2),
    ensures
        r1 is Some <==> r2 is Some,
        (r1 is Some && r2 is Some) ==> r1.unwrap().t == r2.unwrap().t,
{
    if r1 is Some {
        let h1 = r1.unwrap();
        let i1 = choose|i: int|
            0 <= i < prims.len() && prim_hit(#[trigger] prims[i], ray, t0, t1) == Some(h1);
        assert(r2 is Some);
    }
    if r2 is Some {
        let h2 = r2.unwrap();
        let i2 = choose|i: int|
            0 <= i < prims.len() && prim_hit(#[trigger] prims[i], ray, t0, t1) == Some(h2);
        assert(r1 is Some);
    }
}

/// Combine the results of scanning two primitive lists, where the second
/// scan ran with the first result's parameter as its upper bound.
proof fn lemma_best_combine(
    prims1: Seq<Primitive>,
    prims2: Seq<Primitive>,
    ray: Ray,
    t0: int,
    t1: int,
    r1: Option<HitRecord>,
    r2: Option<HitRecord>,
)
    requires
        forall|k: int| 0 <= k < prims2.len() ==> (#[trigger] prims2[k]).wf(),
        ray.wf(),
        t_in_bounds(t0),
        t_in_bounds(t1),
        t0 < t1,
        is_best_hit(prims1, ray, t0, t1, r1),
        r1 is Some ==> t0 < r1.unwrap().t < t1,
        is_best_hit(
            prims2,
            ray,
            t0,
            if r1 is Some {
                r1.unwrap().t as int
            } else {
                t1
            },
            r2,
        ),
    ensures
        is_best_hit(
            prims1 + prims2,
            ray,
            t0,
            t1,
            if r2 is Some {
                r2
            } else {
                r1
            },
        ),
{
    let tau = if r1 is Some {
        r1.unwrap().t as int
    } else {
        t1
    };
    let all = prims1 + prims2;
    assert(forall|i: int| 0 <= i < prims1.len() ==> all[i] == prims1[i]);
    assert(forall|j: int| 0 <= j < prims2.len() ==> all[prims1.len() + j] == prims2[j]);
    assert forall|j: int| 0 <= j < prims2.len() implies (prim_hit(
        #[trigger] prims2[j],
        ray,
        t0,
        tau,
    ) == (match prim_hit(prims2[j], ray, t0, t1) {
        Some(h) => if (h.t as int) < tau {
            Some(h)
        } else {
            None::<HitRecord>
        },
        None => None::<HitRecord>,
    })) by {
        lemma_prim_hit_restrict(prims2[j], ray, t0, t1, tau);
    }
    match r2 {
        Some(h2) => {
            let j = choose|j: int|
                0 <= j < prims2.len() && prim_hit(#[trigger] prims2[j], ray, t0, tau) == Some(h2);
            assert(prim_hit(all[prims1.len() + j], ray, t0, t1) == Some(h2));
            assert forall|i: int|
                0 <= i < all.len() implies (prim_hit(#[trigger] all[i], ray, t0, t1) matches Some(
                g,
            ) ==> h2.t <= g.t) by {
                if i < prims1.len() {
                    assert(all[i] == prims1[i]);
                    if prim_hit(prims1[i], ray, t0, t1) is Some {
                        let g = prim_hit(prims1[i], ray, t0, t1).unwrap();
                        assert(r1 is Some ==> r1.unwrap().t <= g.t);
                        assert((h2.t as int) < tau);
                    }
                } else {
                    assert(all[i] == prims2[i - prims1.len()]);
                }
            }
        },
        None => {
            match r1 {
                Some(h1) => {
                    let i1 = choose|i: int|
                        0 <= i < prims1.len() && prim_hit(#[trigger] prims1[i], ray, t0, t1)
                            == Some(h1);
                    assert(all[i1] == prims1[i1]);
                    assert forall|i: int|
                        0 <= i < all.len() implies (prim_hit(
                        #[trigger] all[i],
                        ray,
                        t0,
                        t1,
                    ) matches Some(g) ==> h1.t <= g.t) by {
                        if i >= prims1.len() {
                            assert(all[i] == prims2[i - prims1.len()]);
                            if prim_hit(prims2[i - prims1.len()], ray, t0, t1) is Some {
                                let g = prim_hit(prims2[i - prims1.len()], ray, t0, t1).unwrap();
                                assert(prim_hit(prims2[i - prims1.len()], ray, t0, tau) is None);
                                assert(g.t as int >= tau);
                            }
                        }
                    }
                },
                None => {
                    assert forall|i: int| 0 <= i < all.len() implies prim_hit(
                        #[trigger] all[i],
                        ray,
                        t0,
                        t1,
                    ) is None by {
                        if i >= prims1.len() {
                            assert(all[i] == prims2[i - prims1.len()]);
                        }
                    }
                },
            }
        },
    }
}


/// The light-flagged triangles of a mesh, as primitives, in insertion
/// order.
pub open spec fn spec_mesh_lights(ts: Seq<crate::objects::triangle::Triangle>) -> Seq<Primitive>
    decreases ts.len(),
{
    if ts.len() == 0 {
        Seq::empty()
    } else {
        let pre = spec_mesh_lights(ts.drop_last());
        if ts.last().material.unwrap().spec_counts_as_light() {
            pre.push(Primitive::Triangle(ts.last()))
        } else {
            pre
        }
    }
}

/// The non-light triangles of a mesh, as primitives, in insertion order.
pub open spec fn spec_mesh_objects(ts: Seq<crate::objects::triangle::Triangle>) -> Seq<Primitive>
    decreases ts.len(),
{
    if ts.len() == 0 {
        Seq::empty()
    } else {
        let pre = spec_mesh_objects(ts.drop_last());
        if ts.last().material.unwrap().spec_counts_as_light() {
            pre
        } else {
            pre.push(Primitive::Triangle(ts.last()))
        }
    }
}

impl Scene {
    /// Every primitive in the scene is well formed, and an attached
    /// hierarchy was built over the scene's own primitive table.
    pub open spec fn wf(self) -> bool {
        &&& forall|k: int| 0 <= k < self.objects@.len() ==> (#[trigger] self.objects@[k]).wf()
        &&& forall|k: int| 0 <= k < self.lights@.len() ==> (#[trigger] self.lights@[k]).wf()
        &&& (self.bvh matches Some(b) ==> b.wf(prims_bvs(self.spec_all_elements()))
            && self.spec_all_elements().len() >= 1)
    }

    /// The primitive table the hierarchy is built over: lights first, then
    /// the other objects.
    pub open spec fn spec_all_elements(self) -> Seq<Primitive> {
        self.lights@ + self.objects@
    }

    pub fn new() -> (r: Self)
        ensures
            r.objects@.len() == 0,
            r.lights@.len() == 0,
            r.spec_has_bvh() == false,
            r.wf(),
    {
        Scene { objects: Vec::new(), lights: Vec::new(), bvh: None }
    }

    /// Whether an acceleration structure is attached.
    pub open spec fn spec_has_bvh(self) -> bool {
        self.bvh is Some
    }

    /// Add one primitive, classifying it as a light by its material's flag.
    /// The primitive must carry a material, and adding is only allowed while
    /// no hierarchy is attached.
    pub fn add_generic(&mut self, object: Primitive)
        requires
            old(self).wf(),
            !old(self).spec_has_bvh(),
            object.wf(),
            (match object {
                Primitive::Sphere(s) => true,
                Primitive::Triangle(t) => t.material is Some,
            }),
        ensures
            final(self).wf(),
            !final(self).spec_has_bvh(),
            ({
                let is_light = (match object {
                    Primitive::Sphere(s) => s.material.spec_counts_as_light(),
                    Primitive::Triangle(t) => t.material.unwrap().spec_counts_as_light(),
                });
                if is_light {
                    final(self).lights@ == old(self).lights@.push(object) && final(self).objects@
                        == old(self).objects@
                } else {
                    final(self).objects@ == old(self).objects@.push(object) && final(self).lights@
                        == old(self).lights@
                }
            }),
    {
        let material = match &object {
            Primitive::Sphere(s) => s.get_material(),
            Primitive::Triangle(t) => t.get_material().unwrap(),
        };
        let is_light = material.counts_as_light();
        if is_light {
            self.lights.push(object);
        } else {
            self.objects.push(object);
        }
    }

    /// Add every triangle of a mesh, classifying each by its material's
    /// light flag: the light-flagged triangles are appended to `lights` and
    /// the rest to `objects`, in mesh order.
    pub fn add(&mut self, object: &crate::mesh::Mesh)
        requires
            old(self).wf(),
            !old(self).spec_has_bvh(),
            forall|k: int|
                0 <= k < object.triangles@.len() ==> (#[trigger] object.triangles@[k]).wf()
                    && object.triangles@[k].material is Some,
        ensures
            final(self).wf(),
            !final(self).spec_has_bvh(),
            final(self).lights@ == old(self).lights@ + spec_mesh_lights(object.triangles@),
            final(self).objects@ == old(self).objects@ + spec_mesh_objects(object.triangles@),
    {
        let triangles = object.get_triangles();
        let mut k: usize = 0;
        proof {
            assert(self.lights@ =~= old(self).lights@ + spec_mesh_lights(
                triangles@.subrange(0, 0),
            ));
            assert(self.objects@ =~= old(self).objects@ + spec_mesh_objects(
                triangles@.subrange(0, 0),
            ));
        }
        while k < triangles.len()
            invariant
                self.wf(),
                !self.spec_has_bvh(),
                k <= triangles@.len(),
                triangles@ == object.triangles@,
                forall|m: int|
                    0 <= m < triangles@.len() ==> (#[trigger] triangles@[m]).wf()
                        && triangles@[m].material is Some,
                self.lights@ == old(self).lights@ + spec_mesh_lights(
                    triangles@.subrange(0, k as int),
                ),
                self.objects@ == old(self).objects@ + spec_mesh_objects(
                    triangles@.subrange(0, k as int),
                ),
            decreases triangles@.len() - k,
        {
            let tri = triangles[k];
            self.add_generic(Primitive::Triangle(tri));
            proof {
                let pre = triangles@.subrange(0, k as int);
                let post = triangles@.subrange(0, k as int + 1);
                assert(post.drop_last() =~= pre);
                assert(post.last() == triangles@[k as int]);
                if tri.material.unwrap().spec_counts_as_light() {
                    assert(self.lights@ =~= old(self).lights@ + spec_mesh_lights(post));
                    assert(self.objects@ =~= old(self).objects@ + spec_mesh_objects(post));
                } else {
                    assert(self.lights@ =~= old(self).lights@ + spec_mesh_lights(post));
                    assert(self.objects@ =~= old(self).objects@ + spec_mesh_objects(post));
                }
            }
            k += 1;
        }
        proof {
            assert(triangles@.subrange(0, triangles@.len() as int) =~= triangles@);
        }
    }

    /// Attach (or detach) a hierarchy built over this scene's table.
    pub fn use_bvh(&mut self, bvh: Option<Bvh>)
        requires
            old(self).wf(),
            (bvh matches Some(b) ==> b.wf(prims_bvs(old(self).spec_all_elements())) && old(
                self,
            ).spec_all_elements().len() >= 1),
        ensures
            final(self).wf(),
            final(self).objects@ == old(self).objects@,
            final(self).lights@ == old(self).lights@,
            final(self).bvh == bvh,
    {
        self.bvh = bvh;
    }

    /// Copies of all primitives, lights first.
    pub fn all_elements(&self) -> (r: Vec<Primitive>)
        ensures
            r@ == self.spec_all_elements(),
    {
        let mut out: Vec<Primitive> = Vec::new();
        let mut k: usize = 0;
        while k < self.lights.len()
            invariant
                k <= self.lights@.len(),
                out@ == self.lights@.subrange(0, k as int),
            decreases self.lights@.len() - k,
        {
            out.push(self.lights[k]);
            proof {
                assert(out@ =~= self.lights@.subrange(0, k as int + 1));
            }
            k += 1;
        }
        let mut m: usize = 0;
        while m < self.objects.len()
            invariant
                m <= self.objects@.len(),
                out@ == self.lights@ + self.objects@.subrange(0, m as int),
            decreases self.objects@.len() - m,
        {
            out.push(self.objects[m]);
            proof {
                assert(out@ =~= self.lights@ + self.objects@.subrange(0, m as int + 1));
            }
            m += 1;
        }
        proof {
            assert(out@ =~= self.spec_all_elements());
        }
        out
    }

    /// A pseudorandom light source.
    pub fn get_random_light<R: crate::prng::PRNG>(&self, rng: &mut R) -> (r: Primitive)
        requires
            old(rng).inv(),
            self.lights@.len() >= 1,
            self.lights@.len() < 0x1_0000_0000,
        ensures
            final(rng).inv(),
            self.lights@.contains(r),
    {
        let u = rng.next_unit();
        let n = self.lights.len();
        proof {
            crate::math::lemma_mul_magnitude(
                (n - 1) as int,
                u as int,
                0x1_0000_0000,
                SCALE as int,
            );
            crate::math::lemma_floor_div_nonneg(((n - 1) as int) * (u as int), SCALE as int);
            assert(crate::math::abs_i(((n - 1) as int) * (u as int)) <= (SCALE as int) * ((n
                - 1) as int)) by (nonlinear_arith)
                requires 0 <= u < SCALE as int, n >= 1;
            crate::math::lemma_floor_div_quotient_bound(
                ((n - 1) as int) * (u as int),
                SCALE as int,
                (n - 1) as int,
            );
        }
        let index = crate::math::div_floor_i128(
            ((n - 1) as i128) * (u as i128),
            SCALE as i128,
        ) as usize;
        let r = self.lights[index];
        proof {
            assert(self.lights@[index as int] == r);
        }
        r
    }

    /// Brute force: scan the objects, then the lights, keeping the closest
    /// hit.
    fn intersect_no_bvh(&self, ray: &Ray, t_min: i64, t_max: i64, record: &mut HitRecord) -> (r:
        bool)
        requires
            self.wf(),
            ray.wf(),
            t_in_bounds(t_min as int),
            t_in_bounds(t_max as int),
            t_min < t_max,
        ensures
            is_best_hit(
                self.objects@ + self.lights@,
                *ray,
                t_min as int,
                t_max as int,
                if r {
                    Some(*final(record))
                } else {
                    None
                },
            ),
            r ==> final(record).wf() && t_min < final(record).t < t_max,
            !r ==> *final(record) == *old(record),
    {
        let hit1 = scan_primitives(&self.objects, ray, t_min, t_max, record);
        let closest = if hit1 {
            record.t
        } else {
            t_max
        };
        let ghost r1 = if hit1 {
            Some(*record)
        } else {
            None
        };
        let hit2 = scan_primitives(&self.lights, ray, t_min, closest, record);
        proof {
            let r2 = if hit2 {
                Some(*record)
            } else {
                None
            };
            lemma_best_combine(
                self.objects@,
                self.lights@,
                *ray,
                t_min as int,
                t_max as int,
                r1,
                r2,
            );
        }
        hit1 || hit2
    }

    /// Dispatch: traverse the hierarchy when one is attached, scan linearly
    /// otherwise. Either way the result is the closest hit over all
    /// primitives of the scene.
    pub fn intersect(&self, ray: &Ray, t_min: i64, t_max: i64, record: &mut HitRecord) -> (r: bool)
        requires
            self.wf(),
            ray.wf(),
            t_in_bounds(t_min as int),
            t_in_bounds(t_max as int),
            t_min < t_max,
        ensures
            is_best_hit(
                self.spec_all_elements(),
                *ray,
                t_min as int,
                t_max as int,
                if r {
                    Some(*final(record))
                } else {
                    None
                },
            ),
            r ==> final(record).wf() && t_min < final(record).t < t_max,
            !r ==> *final(record) == *old(record),
    {
        match &self.bvh {
            None => {
                let r = self.intersect_no_bvh(ray, t_min, t_max, record);
                proof {
                    let res = if r {
                        Some(*record)
                    } else {
                        None
                    };
                    lemma_concat_sets(self.objects@, self.lights@);
                    lemma_best_hit_transfer(
                        self.objects@ + self.lights@,
                        self.spec_all_elements(),
                        *ray,
                        t_min as int,
                        t_max as int,
                        res,
                    );
                }
                r
            },
            Some(bvh) => {
                let all = self.all_elements();
                let r = intersect_bvh(&all, &bvh.nodes, bvh.root, ray, t_min, t_max, record);
                proof {
                    let res = if r {
                        Some(*record)
                    } else {
                        None
                    };
                    let sub = tree_prims(bvh.nodes@, bvh.root as int).map_values(
                        |p: int| all@[p],
                    );
                    crate::bvh::lemma_tree_prims_ok(
                        bvh.nodes@,
                        prims_bvs(all@),
                        bvh.root as int,
                    );
                    assert forall|i: int| 0 <= i < sub.len() implies self.spec_all_elements()
                        .contains(#[trigger] sub[i]) by {
                        let p = tree_prims(bvh.nodes@, bvh.root as int)[i];
                        assert(sub[i] == all@[p]);
                    }
                    assert forall|j: int|
                        0 <= j < self.spec_all_elements().len() implies sub.contains(
                        #[trigger] self.spec_all_elements()[j],
                    ) by {
                        let tp = tree_prims(bvh.nodes@, bvh.root as int);
                        assert(tp.contains(j));
                        let w = choose|w: int| 0 <= w < tp.len() && tp[w] == j;
                        assert(sub[w] == all@[j]);
                    }
                    lemma_best_hit_transfer(
                        sub,
                        self.spec_all_elements(),
                        *ray,
                        t_min as int,
                        t_max as int,
                        res,
                    );
                }
                r
            },
        }
    }
}

/// The concatenations of two lists in both orders hold the same elements.
proof fn lemma_concat_sets(s1: Seq<Primitive>, s2: Seq<Primitive>)
    ensures
        forall|i: int| 0 <= i < (s1 + s2).len() ==> (s2 + s1).contains(#[trigger] (s1 + s2)[i]),
        forall|i: int| 0 <= i < (s2 + s1).len() ==> (s1 + s2).contains(#[trigger] (s2 + s1)[i]),
{
    assert forall|i: int| 0 <= i < (s1 + s2).len() implies (s2 + s1).contains(
        #[trigger] (s1 + s2)[i],
    ) by {
        if i < s1.len() {
            assert((s2 + s1)[s2.len() + i] == s1[i]);
            assert((s1 + s2)[i] == s1[i]);
        } else {
            assert((s2 + s1)[i - s1.len()] == s2[i - s1.len()]);
            assert((s1 + s2)[i] == s2[i - s1.len()]);
        }
    }
    assert forall|i: int| 0 <= i < (s2 + s1).len() implies (s1 + s2).contains(
        #[trigger] (s2 + s1)[i],
    ) by {
        if i < s2.len() {
            assert((s1 + s2)[s1.len() + i] == s2[i]);
            assert((s2 + s1)[i] == s2[i]);
        } else {
            assert((s1 + s2)[i - s2.len()] == s1[i - s2.len()]);
            assert((s2 + s1)[i] == s1[i - s2.len()]);
        }
    }
}

/// Traverse the hierarchy from the node at `idx`: prune the subtree when
/// the slab test misses, scan the primitives of a leaf, and visit both
/// children of an inner node with a shrinking parameter range.
fn intersect_bvh(
    prims: &Vec<Primitive>,
    nodes: &Vec<BVHNode>,
    idx: usize,
    ray: &Ray,
    t_min: i64,
    t_max: i64,
    record: &mut HitRecord,
) -> (r: bool)
    requires
        forall|k: int| 0 <= k < prims@.len() ==> (#[trigger] prims@[k]).wf(),
        links_ok(nodes@),
        arena_ok(nodes@, prims_bvs(prims@)),
        idx < nodes@.len(),
        ray.wf(),
        t_in_bounds(t_min as int),
        t_in_bounds(t_max as int),
        t_min < t_max,
    ensures
        is_best_hit(
            tree_prims(nodes@, idx as int).map_values(|p: int| prims@[p]),
            *ray,
            t_min as int,
            t_max as int,
            if r {
                Some(*final(record))
            } else {
                None
            },
        ),
        r ==> final(record).wf() && t_min < final(record).t < t_max,
        !r ==> *final(record) == *old(record),
    decreases idx,
{
    let ghost sub = tree_prims(nodes@, idx as int).map_values(|p: int| prims@[p]);
    let node = &nodes[idx];
    proof {
        assert(node.bounds.wf()) by {
            crate::bvh::lemma_tree_prims_ok(nodes@, prims_bvs(prims@), idx as int);
            crate::bvh::lemma_bvh_bounds_invariant(nodes@, prims_bvs(prims@), idx as int);
            crate::bvh::lemma_union_all_wf(
                tree_prims(nodes@, idx as int).map_values(
                    |p: int| prims_bvs(prims@)[p],
                ),
            );
            assert(tree_prims(nodes@, idx as int).map_values(|p: int| prims_bvs(prims@)[p])
                =~= tree_prims(nodes@, idx as int).map_values(
                |p: int| prims@[p].spec_bounding_volume(),
            ));
            let mapped = tree_prims(nodes@, idx as int).map_values(
                |p: int| prims_bvs(prims@)[p],
            );
            assert forall|m: int| 0 <= m < mapped.len() implies (#[trigger] mapped[m]).wf() by {
                let p = tree_prims(nodes@, idx as int)[m];
                assert(prims@[p].wf());
                lemma_prim_bv_wf(prims@[p]);
                assert(mapped[m] == prims_bvs(prims@)[p]);
            }
        }
    }
    let root_hit = node.bounds.intersect_mod(ray, t_min, t_max);
    if !root_hit {
        proof {
            crate::bvh::lemma_tree_prims_ok(nodes@, prims_bvs(prims@), idx as int);
            assert forall|i: int| 0 <= i < sub.len() implies prim_hit(
                #[trigger] sub[i],
                *ray,
                t_min as int,
                t_max as int,
            ) is None by {
                let p = tree_prims(nodes@, idx as int)[i];
                assert(sub[i] == prims@[p]);
                lemma_prim_hit_basics(prims@[p], *ray, t_min as int, t_max as int);
                if prim_hit(prims@[p], *ray, t_min as int, t_max as int) is Some {
                    let h = prim_hit(prims@[p], *ray, t_min as int, t_max as int).unwrap();
                    lemma_param_in_box_mono(
                        prims@[p].spec_bounding_volume(),
                        node.bounds,
                        *ray,
                        h.t as int,
                    );
                    assert(prims_bvs(prims@)[p] == prims@[p].spec_bounding_volume());
                    assert(crate::bvh::ray_param_in_box(node.bounds, *ray, h.t as int, SCALE as int));
                    assert((t_min as int) * (SCALE as int) < (h.t as int) * (SCALE as int) && (
                    h.t as int) * (SCALE as int) < (t_max as int) * (SCALE as int))
                        by (nonlinear_arith)
                        requires t_min < h.t < t_max, SCALE == 65536;
                    assert(slab_hit(node.bounds, *ray, t_min as int, t_max as int));
                }
            }
        }
        return false;
    }
    if !node.is_inner {
        let mut gathered: Vec<Primitive> = Vec::new();
        let mut k: usize = 0;
        proof {
            assert(crate::bvh::node_ok(nodes@, prims_bvs(prims@), idx as int));
        }
        while k < node.children.len()
            invariant
                !nodes@[idx as int].is_inner,
                idx < nodes@.len(),
                crate::bvh::node_ok(nodes@, prims_bvs(prims@), idx as int),
                node == nodes@[idx as int],
                forall|m: int| 0 <= m < prims@.len() ==> (#[trigger] prims@[m]).wf(),
                k <= node.children@.len(),
                gathered@.len() == k,
                forall|m: int|
                    0 <= m < k ==> (#[trigger] gathered@[m]) == prims@[node.children@[m] as int],
            decreases node.children@.len() - k,
        {
            let c = node.children[k];
            proof {
                assert(node.children@[k as int] < prims_bvs(prims@).len());
            }
            gathered.push(prims[c]);
            k += 1;
        }
        proof {
            assert(gathered@ =~= sub);
        }
        return scan_primitives(&gathered, ray, t_min, t_max, record);
    }
    let li = node.left;
    let ri = node.right;
    let r1 = intersect_bvh(prims, nodes, li, ray, t_min, t_max, record);
    let closest = if r1 {
        record.t
    } else {
        t_max
    };
    let ghost res1 = if r1 {
        Some(*record)
    } else {
        None
    };
    let r2 = intersect_bvh(prims, nodes, ri, ray, t_min, closest, record);
    proof {
        let res2 = if r2 {
            Some(*record)
        } else {
            None
        };
        let subl = tree_prims(nodes@, li as int).map_values(|p: int| prims@[p]);
        let subr = tree_prims(nodes@, ri as int).map_values(|p: int| prims@[p]);
        crate::bvh::lemma_tree_prims_ok(nodes@, prims_bvs(prims@), ri as int);
        assert forall|m: int| 0 <= m < subr.len() implies (#[trigger] subr[m]).wf() by {
            let p = tree_prims(nodes@, ri as int)[m];
            assert(subr[m] == prims@[p]);
        }
        lemma_best_combine(
            subl,
            subr,
            *ray,
            t_min as int,
            t_max as int,
            res1,
            res2,
        );
        assert(sub =~= subl + subr);
    }
    r1 || r2
}

/// A well-formed primitive has a well-formed bounding box.
proof fn lemma_prim_bv_wf(p: Primitive)
    requires
        p.wf(),
    ensures
        p.spec_bounding_volume().wf(),
{
    match p {
        Primitive::Sphere(s) => {
        },
        Primitive::Triangle(t) => {
        },
    }
}

/// A ray parameter inside a box is inside any containing box.
proof fn lemma_param_in_box_mono(inner: BoundingVolume, outer: BoundingVolume, ray: Ray, t: int)
    requires
        BoundingVolume::spec_contains(outer, inner),
        crate::bvh::ray_param_in_box(inner, ray, t, SCALE as int),
    ensures
        crate::bvh::ray_param_in_box(outer, ray, t, SCALE as int),
{
    assert(crate::bvh::ray_param_in_box(outer, ray, t, SCALE as int)) by (nonlinear_arith)
        requires
            BoundingVolume::spec_contains(outer, inner),
            crate::bvh::ray_param_in_box(inner, ray, t, SCALE as int),
            crate::bvh::ray_param_in_box(inner, ray, t, SCALE as int) == (crate::bvh::axis_inside(
                inner.min.x as int,
                inner.max.x as int,
                ray.origin.x as int,
                ray.direction.x as int,
                t,
                SCALE as int,
            ) && crate::bvh::axis_inside(
                inner.min.y as int,
                inner.max.y as int,
                ray.origin.y as int,
                ray.direction.y as int,
                t,
                SCALE as int,
            ) && crate::bvh::axis_inside(
                inner.min.z as int,
                inner.max.z as int,
                ray.origin.z as int,
                ray.direction.z as int,
                t,
                SCALE as int,
            )),
            crate::bvh::ray_param_in_box(outer, ray, t, SCALE as int) == (crate::bvh::axis_inside(
                outer.min.x as int,
                outer.max.x as int,
                ray.origin.x as int,
                ray.direction.x as int,
                t,
                SCALE as int,
            ) && crate::bvh::axis_inside(
                outer.min.y as int,
                outer.max.y as int,
                ray.origin.y as int,
                ray.direction.y as int,
                t,
                SCALE as int,
            ) && crate::bvh::axis_inside(
                outer.min.z as int,
                outer.max.z as int,
                ray.origin.z as int,
                ray.direction.z as int,
                t,
                SCALE as int,
            ));
}

} // verus!
