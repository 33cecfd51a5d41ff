//! Axis-aligned bounding volumes and the bounding-volume hierarchy.
//!
//! The ray-box test is the slab method carried out in exact rational
//! arithmetic: every comparison of two ray parameters `a/b` and `c/d` is a
//! cross-multiplied integer comparison, so the test is division-free and its
//! contract is an exact existential statement about the ray.

use vstd::prelude::*;

use crate::math::{floor_div, t_in_bounds, SCALE};
use crate::point::Point3;
use crate::ray::Ray;
use crate::vector::Vector3;

verus! {

#[derive(Clone, Copy, PartialEq, Eq, Structural, Debug)]
pub struct BoundingVolume {
    pub min: Point3,
    pub max: Point3,
}

/// `a/b <= c/d` for positive denominators, by cross multiplication.
pub open spec fn rat_le(an: int, ad: int, bn: int, bd: int) -> bool {
    an * bd <= bn * ad
}

/// `a/b < c/d` for positive denominators, by cross multiplication.
pub open spec fn rat_lt(an: int, ad: int, bn: int, bd: int) -> bool {
    an * bd < bn * ad
}

/// Transitivity of the rational order.
pub proof fn lemma_rat_trans(an: int, ad: int, bn: int, bd: int, cn: int, cd: int)
    by (nonlinear_arith)
    requires
        ad >= 1,
        bd >= 1,
        cd >= 1,
        rat_le(an, ad, bn, bd),
        rat_le(bn, bd, cn, cd),
    ensures
        rat_le(an, ad, cn, cd),
{
}

/// Transitivity of the rational order with a strict step.
pub proof fn lemma_rat_trans_lt(an: int, ad: int, bn: int, bd: int, cn: int, cd: int)
    by (nonlinear_arith)
    requires
        ad >= 1,
        bd >= 1,
        cd >= 1,
        rat_le(an, ad, bn, bd),
        rat_lt(bn, bd, cn, cd),
    ensures
        rat_lt(an, ad, cn, cd),
{
}

/// Transitivity of the rational order with a strict first step.
pub proof fn lemma_rat_trans_lt_left(an: int, ad: int, bn: int, bd: int, cn: int, cd: int)
    by (nonlinear_arith)
    requires
        ad >= 1,
        bd >= 1,
        cd >= 1,
        rat_lt(an, ad, bn, bd),
        rat_le(bn, bd, cn, cd),
    ensures
        rat_lt(an, ad, cn, cd),
{
}

/// The strict midpoint of two rationals lies strictly between them.
pub proof fn lemma_rat_mean(an: int, ad: int, bn: int, bd: int)
    by (nonlinear_arith)
    requires
        ad >= 1,
        bd >= 1,
        rat_lt(an, ad, bn, bd),
    ensures
        rat_lt(an, ad, an * bd + bn * ad, 2 * ad * bd),
        rat_lt(an * bd + bn * ad, 2 * ad * bd, bn, bd),
        2 * ad * bd >= 1,
{
}

/// Whether `a/b <= c/d`, for positive denominators.
fn rat_le_exec(an: i64, ad: i64, bn: i64, bd: i64) -> (r: bool)
    requires
        ad >= 1,
        bd >= 1,
    ensures
        r == rat_le(an as int, ad as int, bn as int, bd as int),
{
    proof {
        crate::math::lemma_mul_magnitude(
            an as int,
            bd as int,
            0x8000_0000_0000_0000,
            0x8000_0000_0000_0000,
        );
        crate::math::lemma_mul_magnitude(
            bn as int,
            ad as int,
            0x8000_0000_0000_0000,
            0x8000_0000_0000_0000,
        );
    }
    (an as i128) * (bd as i128) <= (bn as i128) * (ad as i128)
}

/// Whether `a/b < c/d`, for positive denominators.
fn rat_lt_exec(an: i64, ad: i64, bn: i64, bd: i64) -> (r: bool)
    requires
        ad >= 1,
        bd >= 1,
    ensures
        r == rat_lt(an as int, ad as int, bn as int, bd as int),
{
    proof {
        crate::math::lemma_mul_magnitude(
            an as int,
            bd as int,
            0x8000_0000_0000_0000,
            0x8000_0000_0000_0000,
        );
        crate::math::lemma_mul_magnitude(
            bn as int,
            ad as int,
            0x8000_0000_0000_0000,
            0x8000_0000_0000_0000,
        );
    }
    (an as i128) * (bd as i128) < (bn as i128) * (ad as i128)
}

/// The point of the ray at parameter `tn/td` lies between `minv` and `maxv`
/// on an axis with origin `o` and direction `d`.
pub open spec fn axis_inside(minv: int, maxv: int, o: int, d: int, tn: int, td: int) -> bool {
    minv * td <= o * td + tn * d && o * td + tn * d <= maxv * td
}

/// The point of the ray at parameter `tn/td` lies inside the box.
pub open spec fn ray_param_in_box(b: BoundingVolume, ray: Ray, tn: int, td: int) -> bool {
    axis_inside(b.min.x as int, b.max.x as int, ray.origin.x as int, ray.direction.x as int, tn, td)
        && axis_inside(
        b.min.y as int,
        b.max.y as int,
        ray.origin.y as int,
        ray.direction.y as int,
        tn,
        td,
    ) && axis_inside(
        b.min.z as int,
        b.max.z as int,
        ray.origin.z as int,
        ray.direction.z as int,
        tn,
        td,
    )
}

/// The exact meaning of the slab test: some ray parameter strictly between
/// the two fixed-point bounds places the ray inside the box.
pub open spec fn slab_hit(b: BoundingVolume, ray: Ray, t0: int, t1: int) -> bool {
    exists|tn: int, td: int|
        td >= 1 && #[trigger] ray_param_in_box(b, ray, tn, td) && t0 * td < tn * (SCALE as int)
            && tn * (SCALE as int) < t1 * td
}

/// On an axis, membership between the slabs is exactly membership in the
/// rational parameter interval of that axis (for a nonzero direction), and
/// for a zero direction it is a condition on the origin alone.
proof fn lemma_axis_iff(minv: int, maxv: int, o: int, d: int, tn: int, td: int)
    by (nonlinear_arith)
    requires
        td >= 1,
    ensures
        d > 0 ==> (axis_inside(minv, maxv, o, d, tn, td) <==> (rat_le(minv - o, d, tn, td) && rat_le(
            tn,
            td,
            maxv - o,
            d,
        ))),
        d < 0 ==> (axis_inside(minv, maxv, o, d, tn, td) <==> (rat_le(o - maxv, -d, tn, td)
            && rat_le(tn, td, o - minv, -d))),
        d == 0 ==> (axis_inside(minv, maxv, o, d, tn, td) <==> (minv <= o <= maxv)),
{
}

impl BoundingVolume {
    /// The corner ordering and coordinate-range invariant of a box.
    pub open spec fn wf(self) -> bool {
        self.min.wf() && self.max.wf() && self.min.x <= self.max.x && self.min.y <= self.max.y
            && self.min.z <= self.max.z
    }

    /// The componentwise union of two boxes.
    pub open spec fn spec_union(a: BoundingVolume, b: BoundingVolume) -> BoundingVolume {
        BoundingVolume {
            min: Point3 {
                x: (if a.min.x <= b.min.x {
                    a.min.x
                } else {
                    b.min.x
                }),
                y: (if a.min.y <= b.min.y {
                    a.min.y
                } else {
                    b.min.y
                }),
                z: (if a.min.z <= b.min.z {
                    a.min.z
                } else {
                    b.min.z
                }),
            },
            max: Point3 {
                x: (if a.max.x >= b.max.x {
                    a.max.x
                } else {
                    b.max.x
                }),
                y: (if a.max.y >= b.max.y {
                    a.max.y
                } else {
                    b.max.y
                }),
                z: (if a.max.z >= b.max.z {
                    a.max.z
                } else {
                    b.max.z
                }),
            },
        }
    }

    /// The union of a nonempty sequence of boxes.
    pub open spec fn spec_union_all(s: Seq<BoundingVolume>) -> BoundingVolume
        decreases s.len(),
    {
        if s.len() <= 1 {
            s[0]
        } else {
            Self::spec_union(Self::spec_union_all(s.drop_last()), s.last())
        }
    }

    /// One box contains another.
    pub open spec fn spec_contains(outer: BoundingVolume, inner: BoundingVolume) -> bool {
        outer.min.x <= inner.min.x && outer.min.y <= inner.min.y && outer.min.z <= inner.min.z
            && inner.max.x <= outer.max.x && inner.max.y <= outer.max.y && inner.max.z
            <= outer.max.z
    }

    pub fn new(min: Point3, max: Point3) -> (r: Self)
        requires
            min.wf(),
            max.wf(),
            min.x <= max.x,
            min.y <= max.y,
            min.z <= max.z,
        ensures
            r.min == min,
            r.max == max,
            r.wf(),
    {
        BoundingVolume { min, max }
    }

    /// The running union of every box in the list.
    pub fn from(volumes: &Vec<BoundingVolume>) -> (r: Self)
        requires
            volumes@.len() >= 1,
            forall|i: int| 0 <= i < volumes@.len() ==> (#[trigger] volumes@[i]).wf(),
        ensures
            r == Self::spec_union_all(volumes@),
            r.wf(),
    {
        let mut acc = volumes[0];
        let mut i: usize = 1;
        proof {
            assert(volumes@.subrange(0, 1) =~= seq![volumes@[0]]);
            lemma_union_all_wf(volumes@.subrange(0, 1));
        }
        while i < volumes.len()
            invariant
                1 <= i <= volumes@.len(),
                forall|k: int| 0 <= k < volumes@.len() ==> (#[trigger] volumes@[k]).wf(),
                acc == Self::spec_union_all(volumes@.subrange(0, i as int)),
                acc.wf(),
            decreases volumes@.len() - i,
        {
            let v = volumes[i];
            acc = Self::union_exec(&acc, &v);
            proof {
                let pre = volumes@.subrange(0, i as int);
                let post = volumes@.subrange(0, i as int + 1);
                assert(post.drop_last() =~= pre);
                assert(post.last() == volumes@[i as int]);
                assert(post.len() >= 2);
            }
            i += 1;
        }
        proof {
            assert(volumes@.subrange(0, volumes@.len() as int) =~= volumes@);
        }
        acc
    }

    /// The componentwise union of two boxes.
    pub fn union_exec(a: &BoundingVolume, b: &BoundingVolume) -> (r: BoundingVolume)
        requires
            a.wf(),
            b.wf(),
        ensures
            r == Self::spec_union(*a, *b),
            r.wf(),
    {
        BoundingVolume { min: a.min.min(&b.min), max: a.max.max(&b.max) }
    }

    /// The extent of the box along each axis.
    pub fn diagonal(&self) -> (r: Vector3)
        requires
            self.wf(),
        ensures
            r.x == self.max.x - self.min.x,
            r.y == self.max.y - self.min.y,
            r.z == self.max.z - self.min.z,
    {
        self.max.sub_point(&self.min)
    }

    /// The index of the axis with the greatest extent, preferring x, then y.
    pub fn maximum_extent(&self) -> (r: usize)
        requires
            self.wf(),
        ensures
            r == spec_maximum_extent(*self),
    {
        let diag = self.diagonal();
        if diag.x > diag.y && diag.x > diag.z {
            0
        } else if diag.y > diag.z {
            1
        } else {
            2
        }
    }

    /// The point at the componentwise interpolation weights `t` between the
    /// two corners.
    pub fn lerp(&self, t: &Vector3) -> (r: Vector3)
        requires
            self.wf(),
            0 <= t.x <= SCALE,
            0 <= t.y <= SCALE,
            0 <= t.z <= SCALE,
        ensures
            r.x == floor_div((self.min.x as int) * ((SCALE as int) - t.x), SCALE as int)
                + floor_div((self.max.x as int) * (t.x as int), SCALE as int),
            r.y == floor_div((self.min.y as int) * ((SCALE as int) - t.y), SCALE as int)
                + floor_div((self.max.y as int) * (t.y as int), SCALE as int),
            r.z == floor_div((self.min.z as int) * ((SCALE as int) - t.z), SCALE as int)
                + floor_div((self.max.z as int) * (t.z as int), SCALE as int),
    {
        proof {
            lemma_lerp_term_bounds();
        }
        let x = crate::math::fp_mul(self.min.x, SCALE - t.x) + crate::math::fp_mul(self.max.x, t.x);
        let y = crate::math::fp_mul(self.min.y, SCALE - t.y) + crate::math::fp_mul(self.max.y, t.y);
        let z = crate::math::fp_mul(self.min.z, SCALE - t.z) + crate::math::fp_mul(self.max.z, t.z);
        Vector3 { x, y, z }
    }

    /// The slab test: whether some ray parameter strictly inside
    /// `(t_bound_min, t_bound_max)` places the ray inside the box. Each axis
    /// with a nonzero direction component contributes a closed rational
    /// parameter interval; the intervals and the parameter range overlap
    /// exactly when every lower bound passes every upper bound, checked by
    /// cross-multiplied comparisons, so the test is division-free.
    pub fn intersect_mod(&self, ray: &Ray, t_bound_min: i64, t_bound_max: i64) -> (r: bool)
        requires
            self.wf(),
            ray.wf(),
            t_in_bounds(t_bound_min as int),
            t_in_bounds(t_bound_max as int),
            t_bound_min < t_bound_max,
        ensures
            r == slab_hit(*self, *ray, t_bound_min as int, t_bound_max as int),
    {
        let mut lows: Vec<(i64, i64)> = Vec::new();
        let mut ups: Vec<(i64, i64)> = Vec::new();
        let ghost mut axes: Seq<int> = seq![];

        let mut a: usize = 0;
        while a < 3
            invariant
                a <= 3,
                self.wf(),
                ray.wf(),
                forall|k: int| 0 <= k < lows@.len() ==> (#[trigger] lows@[k]).1 >= 1,
                forall|k: int| 0 <= k < ups@.len() ==> (#[trigger] ups@[k]).1 >= 1,
                gathered_axes_upto(*self, *ray, as_int_pairs(lows@), as_int_pairs(ups@), axes, a as int),
            decreases 3 - a,
        {
            let d = axis_d_exec(ray, a);
            let o = axis_o_exec(ray, a);
            let mn = axis_min_exec(self, a);
            let mx = axis_max_exec(self, a);
            if d == 0 {
                if o < mn || o > mx {
                    proof {
                        lemma_no_hit_zero_axis(
                            *self,
                            *ray,
                            t_bound_min as int,
                            t_bound_max as int,
                            a as int,
                        );
                    }
                    return false;
                }
                proof {
                    assert(gathered_axes_upto(
                        *self,
                        *ray,
                        as_int_pairs(lows@),
                        as_int_pairs(ups@),
                        axes,
                        a as int + 1,
                    ));
                }
            } else {
                let (an, ad, bn, bd) = axis_bounds(mn, mx, o, d);
                lows.push((an, ad));
                ups.push((bn, bd));
                proof {
                    let ghost pre = axes;
                    axes = axes.push(a as int);
                    assert(as_int_pairs(lows@)[axes.len() - 1] == spec_axis_lo(
                        *self,
                        *ray,
                        a as int,
                    ));
                    assert(as_int_pairs(ups@)[axes.len() - 1] == spec_axis_hi(
                        *self,
                        *ray,
                        a as int,
                    ));
                    assert forall|b2: int|
                        0 <= b2 < a as int + 1 && spec_axis_d(*ray, b2) != 0 implies exists|k: int|
                        0 <= k < axes.len() && #[trigger] axes[k] == b2 by {
                        if b2 < a as int {
                            let k = choose|k: int| 0 <= k < pre.len() && #[trigger] pre[k] == b2;
                            assert(axes[k] == b2);
                        } else {
                            assert(axes[axes.len() - 1] == b2);
                        }
                    }
                    assert(gathered_axes_upto(
                        *self,
                        *ray,
                        as_int_pairs(lows@),
                        as_int_pairs(ups@),
                        axes,
                        a as int + 1,
                    ));
                }
            }
            a += 1;
        }

        let n = lows.len();
        let mut ok = true;
        let mut i: usize = 0;
        while i < n
            invariant
                n == lows@.len(),
                n == ups@.len(),
                forall|k: int| 0 <= k < n ==> (#[trigger] lows@[k]).1 >= 1,
                forall|k: int| 0 <= k < n ==> (#[trigger] ups@[k]).1 >= 1,
                t_in_bounds(t_bound_min as int),
                t_in_bounds(t_bound_max as int),
                i <= n,
                ok == pair_checks(
                    as_int_pairs(lows@),
                    as_int_pairs(ups@),
                    t_bound_min as int,
                    t_bound_max as int,
                    i as int,
                ),
            decreases n - i,
        {
            let (ln, ld) = lows[i];
            let mut row = rat_lt_exec(ln, ld, t_bound_max, SCALE) && rat_lt_exec(
                t_bound_min,
                SCALE,
                ups[i].0,
                ups[i].1,
            );
            let mut j: usize = 0;
            while j < n
                invariant
                    n == lows@.len(),
                    n == ups@.len(),
                    i < n,
                    j <= n,
                    (ln, ld) == lows@[i as int],
                    forall|k: int| 0 <= k < n ==> (#[trigger] lows@[k]).1 >= 1,
                    forall|k: int| 0 <= k < n ==> (#[trigger] ups@[k]).1 >= 1,
                    row == (rat_lt(ln as int, ld as int, t_bound_max as int, SCALE as int) && rat_lt(
                        t_bound_min as int,
                        SCALE as int,
                        ups@[i as int].0 as int,
                        ups@[i as int].1 as int,
                    ) && (forall|m: int|
                        0 <= m < j ==> rat_le(
                            ln as int,
                            ld as int,
                            (#[trigger] ups@[m]).0 as int,
                            ups@[m].1 as int,
                        ))),
                decreases n - j,
            {
                if !rat_le_exec(ln, ld, ups[j].0, ups[j].1) {
                    row = false;
                }
                j += 1;
            }
            ok = ok && row;
            proof {
                let glows = as_int_pairs(lows@);
                let gups = as_int_pairs(ups@);
                assert forall|m: int| 0 <= m < n implies (#[trigger] gups[m]) == (
                    ups@[m].0 as int,
                    ups@[m].1 as int,
                ) by {}
                assert forall|m: int| 0 <= m < n implies (#[trigger] glows[m]) == (
                    lows@[m].0 as int,
                    lows@[m].1 as int,
                ) by {}
                lemma_pair_checks_step(
                    glows,
                    gups,
                    t_bound_min as int,
                    t_bound_max as int,
                    i as int,
                );
                assert(row == (rat_lt(glows[i as int].0, glows[i as int].1, t_bound_max as int, SCALE as int)
                    && rat_lt(t_bound_min as int, SCALE as int, gups[i as int].0, gups[i as int].1)
                    && (forall|j: int|
                    0 <= j < gups.len() ==> rat_le(
                        glows[i as int].0,
                        glows[i as int].1,
                        (#[trigger] gups[j]).0,
                        gups[j].1,
                    )))) by {
                    if row {
                        assert forall|j: int| 0 <= j < gups.len() implies rat_le(
                            glows[i as int].0,
                            glows[i as int].1,
                            (#[trigger] gups[j]).0,
                            gups[j].1,
                        ) by {
                            assert(rat_le(ln as int, ld as int, ups@[j].0 as int, ups@[j].1 as int));
                        }
                    } else {
                        if rat_lt(glows[i as int].0, glows[i as int].1, t_bound_max as int, SCALE as int)
                            && rat_lt(t_bound_min as int, SCALE as int, gups[i as int].0, gups[i as int].1)
                            && (forall|j: int|
                            0 <= j < gups.len() ==> rat_le(
                                glows[i as int].0,
                                glows[i as int].1,
                                (#[trigger] gups[j]).0,
                                gups[j].1,
                            )) {
                            assert forall|m: int| 0 <= m < n implies rat_le(
                                ln as int,
                                ld as int,
                                (#[trigger] ups@[m]).0 as int,
                                ups@[m].1 as int,
                            ) by {
                                assert(rat_le(glows[i as int].0, glows[i as int].1, gups[m].0, gups[m].1));
                            }
                            assert(false);
                        }
                    }
                }
            }
            i += 1;
        }

        proof {
            lemma_slab_exec_meaning(
                *self,
                *ray,
                t_bound_min as int,
                t_bound_max as int,
                as_int_pairs(lows@),
                as_int_pairs(ups@),
                axes,
                ok,
            );
        }
        ok
    }
}

/// The integer pairs of a list of machine-word pairs.
pub open spec fn as_int_pairs(s: Seq<(i64, i64)>) -> Seq<(int, int)> {
    s.map_values(|p: (i64, i64)| (p.0 as int, p.1 as int))
}

/// Extending the checked prefix by one row.
#[verifier::spinoff_prover]
#[verifier::rlimit(50)]
proof fn lemma_pair_checks_step(
    lows: Seq<(int, int)>,
    ups: Seq<(int, int)>,
    t0: int,
    t1: int,
    i: int,
)
    requires
        0 <= i < lows.len(),
        ups.len() == lows.len(),
    ensures
        pair_checks(lows, ups, t0, t1, i + 1) == (pair_checks(lows, ups, t0, t1, i) && rat_lt(
            lows[i].0,
            lows[i].1,
            t1,
            SCALE as int,
        ) && rat_lt(t0, SCALE as int, ups[i].0, ups[i].1) && (forall|j: int|
            0 <= j < ups.len() ==> rat_le(lows[i].0, lows[i].1, (#[trigger] ups[j]).0, ups[j].1))),
{
    if pair_checks(lows, ups, t0, t1, i) && rat_lt(lows[i].0, lows[i].1, t1, SCALE as int)
        && rat_lt(t0, SCALE as int, ups[i].0, ups[i].1) && (forall|j: int|
        0 <= j < ups.len() ==> rat_le(lows[i].0, lows[i].1, (#[trigger] ups[j]).0, ups[j].1)) {
        assert forall|k: int| 0 <= k < i + 1 implies rat_lt(
            (#[trigger] lows[k]).0,
            lows[k].1,
            t1,
            SCALE as int,
        ) && rat_lt(t0, SCALE as int, ups[k].0, ups[k].1) && (forall|j: int|
            0 <= j < ups.len() ==> rat_le(lows[k].0, lows[k].1, (#[trigger] ups[j]).0, ups[j].1)) by {
            if k < i {
                assert(pair_checks(lows, ups, t0, t1, i));
                assert(rat_lt((lows[k]).0, lows[k].1, t1, SCALE as int) && rat_lt(
                    t0,
                    SCALE as int,
                    ups[k].0,
                    ups[k].1,
                ) && (forall|j: int|
                    0 <= j < ups.len() ==> rat_le(
                        lows[k].0,
                        lows[k].1,
                        (#[trigger] ups[j]).0,
                        ups[j].1,
                    )));
            } else {
                assert(k == i);
            }
        }
    }
}

/// An executable accessor for the direction component on an axis.
fn axis_d_exec(ray: &Ray, a: usize) -> (r: i64)
    requires
        a <= 2,
    ensures
        r as int == spec_axis_d(*ray, a as int),
{
    if a == 0 {
        ray.direction.x
    } else if a == 1 {
        ray.direction.y
    } else {
        ray.direction.z
    }
}

/// An executable accessor for the origin component on an axis.
fn axis_o_exec(ray: &Ray, a: usize) -> (r: i64)
    requires
        a <= 2,
    ensures
        r as int == spec_axis_o(*ray, a as int),
{
    if a == 0 {
        ray.origin.x
    } else if a == 1 {
        ray.origin.y
    } else {
        ray.origin.z
    }
}

/// An executable accessor for the lower corner on an axis.
fn axis_min_exec(b: &BoundingVolume, a: usize) -> (r: i64)
    requires
        a <= 2,
    ensures
        r as int == spec_axis_min(*b, a as int),
{
    if a == 0 {
        b.min.x
    } else if a == 1 {
        b.min.y
    } else {
        b.min.z
    }
}

/// An executable accessor for the upper corner on an axis.
fn axis_max_exec(b: &BoundingVolume, a: usize) -> (r: i64)
    requires
        a <= 2,
    ensures
        r as int == spec_axis_max(*b, a as int),
{
    if a == 0 {
        b.max.x
    } else if a == 1 {
        b.max.y
    } else {
        b.max.z
    }
}

/// The direction component of the ray on an axis.
/// The direction component of the ray on an axis.
pub open spec fn spec_axis_d(ray: Ray, a: int) -> int {
    if a == 0 {
        ray.direction.x as int
    } else if a == 1 {
        ray.direction.y as int
    } else {
        ray.direction.z as int
    }
}

/// The origin component of the ray on an axis.
pub open spec fn spec_axis_o(ray: Ray, a: int) -> int {
    if a == 0 {
        ray.origin.x as int
    } else if a == 1 {
        ray.origin.y as int
    } else {
        ray.origin.z as int
    }
}

/// The lower box corner on an axis.
pub open spec fn spec_axis_min(b: BoundingVolume, a: int) -> int {
    if a == 0 {
        b.min.x as int
    } else if a == 1 {
        b.min.y as int
    } else {
        b.min.z as int
    }
}

/// The upper box corner on an axis.
pub open spec fn spec_axis_max(b: BoundingVolume, a: int) -> int {
    if a == 0 {
        b.max.x as int
    } else if a == 1 {
        b.max.y as int
    } else {
        b.max.z as int
    }
}

/// The rational lower parameter bound of an axis with nonzero direction.
pub open spec fn spec_axis_lo(b: BoundingVolume, ray: Ray, a: int) -> (int, int) {
    let d = spec_axis_d(ray, a);
    if d > 0 {
        (spec_axis_min(b, a) - spec_axis_o(ray, a), d)
    } else {
        (spec_axis_o(ray, a) - spec_axis_max(b, a), -d)
    }
}

/// The rational upper parameter bound of an axis with nonzero direction.
pub open spec fn spec_axis_hi(b: BoundingVolume, ray: Ray, a: int) -> (int, int) {
    let d = spec_axis_d(ray, a);
    if d > 0 {
        (spec_axis_max(b, a) - spec_axis_o(ray, a), d)
    } else {
        (spec_axis_o(ray, a) - spec_axis_min(b, a), -d)
    }
}

/// The candidate lists hold exactly the parameter bounds of the axes below
/// `lim` with nonzero direction, in order, and every zero-direction axis
/// below `lim` has its origin inside the box.
pub open spec fn gathered_axes_upto(
    b: BoundingVolume,
    ray: Ray,
    lows: Seq<(int, int)>,
    ups: Seq<(int, int)>,
    axes: Seq<int>,
    lim: int,
) -> bool {
    &&& lows.len() == axes.len()
    &&& ups.len() == axes.len()
    &&& forall|k: int|
        0 <= k < axes.len() ==> 0 <= #[trigger] axes[k] < lim && spec_axis_d(ray, axes[k]) != 0 && (
        lows[k] == spec_axis_lo(b, ray, axes[k])) && (ups[k] == spec_axis_hi(b, ray, axes[k]))
    &&& forall|a: int|
        0 <= a < lim && spec_axis_d(ray, a) != 0 ==> exists|k: int|
            0 <= k < axes.len() && #[trigger] axes[k] == a
    &&& forall|a: int|
        0 <= a < lim && spec_axis_d(ray, a) == 0 ==> spec_axis_min(b, a) <= #[trigger] spec_axis_o(
            ray,
            a,
        ) <= spec_axis_max(b, a)
}

/// The pairwise overlap checks over the first `upto` lower candidates.
pub open spec fn pair_checks(
    lows: Seq<(int, int)>,
    ups: Seq<(int, int)>,
    t0: int,
    t1: int,
    upto: int,
) -> bool {
    forall|i: int|
        0 <= i < upto ==> rat_lt((#[trigger] lows[i]).0, lows[i].1, t1, SCALE as int) && rat_lt(
            t0,
            SCALE as int,
            ups[i].0,
            ups[i].1,
        ) && (forall|j: int|
            0 <= j < ups.len() ==> rat_le(lows[i].0, lows[i].1, (#[trigger] ups[j]).0, ups[j].1))
}

/// The rational lower and upper parameter bounds contributed by one axis/// The rational lower and upper parameter bounds contributed by one axis
/// with nonzero direction component.
fn axis_bounds(minv: i64, maxv: i64, o: i64, d: i64) -> (r: (i64, i64, i64, i64))
    requires
        d != 0,
        -0x400_0000 <= minv <= 0x400_0000,
        -0x400_0000 <= maxv <= 0x400_0000,
        -0x400_0000 <= o <= 0x400_0000,
        -0x400_0000 <= d <= 0x400_0000,
    ensures
        r.1 >= 1,
        r.3 >= 1,
        d > 0 ==> r == (((minv - o) as i64, d, (maxv - o) as i64, d)),
        d < 0 ==> r == (((o - maxv) as i64, (-d) as i64, (o - minv) as i64, (-d) as i64)),
{
    if d > 0 {
        (minv - o, d, maxv - o, d)
    } else {
        (o - maxv, -d, o - minv, -d)
    }
}

/// When a zero-direction axis places the origin outside the box, no
/// parameter puts the ray inside it.
proof fn lemma_no_hit_zero_axis(b: BoundingVolume, ray: Ray, t0: int, t1: int, axis: int)
    requires
        axis == 0 ==> ray.direction.x == 0 && (ray.origin.x < b.min.x || ray.origin.x > b.max.x),
        axis == 1 ==> ray.direction.y == 0 && (ray.origin.y < b.min.y || ray.origin.y > b.max.y),
        axis == 2 ==> ray.direction.z == 0 && (ray.origin.z < b.min.z || ray.origin.z > b.max.z),
        0 <= axis <= 2,
    ensures
        !slab_hit(b, ray, t0, t1),
{
    assert forall|tn: int, td: int|
        td >= 1 implies !(#[trigger] ray_param_in_box(b, ray, tn, td)) by {
        if axis == 0 {
            lemma_axis_iff(
                b.min.x as int,
                b.max.x as int,
                ray.origin.x as int,
                ray.direction.x as int,
                tn,
                td,
            );
        } else if axis == 1 {
            lemma_axis_iff(
                b.min.y as int,
                b.max.y as int,
                ray.origin.y as int,
                ray.direction.y as int,
                tn,
                td,
            );
        } else {
            lemma_axis_iff(
                b.min.z as int,
                b.max.z as int,
                ray.origin.z as int,
                ray.direction.z as int,
                tn,
                td,
            );
        }
    }
}


/// `c[m]` is a greatest element of the candidate list.
pub open spec fn is_rat_max(c: Seq<(int, int)>, m: int) -> bool {
    0 <= m < c.len() && (forall|k: int|
        0 <= k < c.len() ==> rat_le((#[trigger] c[k]).0, c[k].1, c[m].0, c[m].1))
}

/// `c[m]` is a least element of the candidate list.
pub open spec fn is_rat_min(c: Seq<(int, int)>, m: int) -> bool {
    0 <= m < c.len() && (forall|k: int|
        0 <= k < c.len() ==> rat_le(c[m].0, c[m].1, (#[trigger] c[k]).0, c[k].1))
}

/// Among finitely many rational candidates there is a greatest one.
proof fn lemma_exists_rat_max(c: Seq<(int, int)>)
    requires
        c.len() >= 1,
        forall|k: int| 0 <= k < c.len() ==> (#[trigger] c[k]).1 >= 1,
    ensures
        exists|m: int| #[trigger] is_rat_max(c, m),
    decreases c.len(),
{
    if c.len() == 1 {
        assert(rat_le(c[0].0, c[0].1, c[0].0, c[0].1));
        assert(is_rat_max(c, 0));
    } else {
        let pre = c.drop_last();
        lemma_exists_rat_max(pre);
        let m = choose|m: int| #[trigger] is_rat_max(pre, m);
        let last = c.len() - 1;
        if rat_le(c[m].0, c[m].1, c[last].0, c[last].1) {
            assert forall|k: int| 0 <= k < c.len() implies rat_le(
                (#[trigger] c[k]).0,
                c[k].1,
                c[last].0,
                c[last].1,
            ) by {
                if k < last {
                    assert(pre[k] == c[k]);
                    lemma_rat_trans(c[k].0, c[k].1, c[m].0, c[m].1, c[last].0, c[last].1);
                } else {
                    assert(rat_le(c[last].0, c[last].1, c[last].0, c[last].1));
                }
            }
            assert(is_rat_max(c, last));
        } else {
            assert(rat_le(c[last].0, c[last].1, c[m].0, c[m].1)) by (nonlinear_arith)
                requires
                    !rat_le(c[m].0, c[m].1, c[last].0, c[last].1),
                    c[m].1 >= 1,
                    c[last].1 >= 1;
            assert forall|k: int| 0 <= k < c.len() implies rat_le(
                (#[trigger] c[k]).0,
                c[k].1,
                c[m].0,
                c[m].1,
            ) by {
                if k < last {
                    assert(pre[k] == c[k]);
                }
            }
            assert(is_rat_max(c, m));
        }
    }
}

/// Among finitely many rational candidates there is a least one.
proof fn lemma_exists_rat_min(c: Seq<(int, int)>)
    requires
        c.len() >= 1,
        forall|k: int| 0 <= k < c.len() ==> (#[trigger] c[k]).1 >= 1,
    ensures
        exists|m: int| #[trigger] is_rat_min(c, m),
    decreases c.len(),
{
    if c.len() == 1 {
        assert(rat_le(c[0].0, c[0].1, c[0].0, c[0].1));
        assert(is_rat_min(c, 0));
    } else {
        let pre = c.drop_last();
        lemma_exists_rat_min(pre);
        let m = choose|m: int| #[trigger] is_rat_min(pre, m);
        let last = c.len() - 1;
        if rat_le(c[last].0, c[last].1, c[m].0, c[m].1) {
            assert forall|k: int| 0 <= k < c.len() implies rat_le(
                c[last].0,
                c[last].1,
                (#[trigger] c[k]).0,
                c[k].1,
            ) by {
                if k < last {
                    assert(pre[k] == c[k]);
                    lemma_rat_trans(c[last].0, c[last].1, c[m].0, c[m].1, c[k].0, c[k].1);
                } else {
                    assert(rat_le(c[last].0, c[last].1, c[last].0, c[last].1));
                }
            }
            assert(is_rat_min(c, last));
        } else {
            assert(rat_le(c[m].0, c[m].1, c[last].0, c[last].1)) by (nonlinear_arith)
                requires
                    !rat_le(c[last].0, c[last].1, c[m].0, c[m].1),
                    c[m].1 >= 1,
                    c[last].1 >= 1;
            assert forall|k: int| 0 <= k < c.len() implies rat_le(
                c[m].0,
                c[m].1,
                (#[trigger] c[k]).0,
                c[k].1,
            ) by {
                if k < last {
                    assert(pre[k] == c[k]);
                }
            }
            assert(is_rat_min(c, m));
        }
    }
}

/// A ray parameter satisfies all axis constraints exactly when it lies in
/// every gathered rational interval.
proof fn lemma_param_vs_candidates(
    b: BoundingVolume,
    ray: Ray,
    lows: Seq<(int, int)>,
    ups: Seq<(int, int)>,
    axes: Seq<int>,
    tn: int,
    td: int,
)
    requires
        td >= 1,
        gathered_axes_upto(b, ray, lows, ups, axes, 3),
    ensures
        ray_param_in_box(b, ray, tn, td) <==> (forall|k: int|
            0 <= k < lows.len() ==> rat_le((#[trigger] lows[k]).0, lows[k].1, tn, td) && rat_le(
                tn,
                td,
                ups[k].0,
                ups[k].1,
            )),
{
    if ray_param_in_box(b, ray, tn, td) {
        assert forall|k: int| 0 <= k < lows.len() implies rat_le(
            (#[trigger] lows[k]).0,
            lows[k].1,
            tn,
            td,
        ) && rat_le(tn, td, ups[k].0, ups[k].1) by {
            let a = axes[k];
            lemma_axis_iff(
                spec_axis_min(b, a),
                spec_axis_max(b, a),
                spec_axis_o(ray, a),
                spec_axis_d(ray, a),
                tn,
                td,
            );
            assert(axis_inside(
                spec_axis_min(b, a),
                spec_axis_max(b, a),
                spec_axis_o(ray, a),
                spec_axis_d(ray, a),
                tn,
                td,
            ));
        }
    }
    if forall|k: int|
        0 <= k < lows.len() ==> rat_le((#[trigger] lows[k]).0, lows[k].1, tn, td) && rat_le(
            tn,
            td,
            ups[k].0,
            ups[k].1,
        ) {
        assert forall|a: int| 0 <= a <= 2 implies axis_inside(
            spec_axis_min(b, a),
            spec_axis_max(b, a),
            spec_axis_o(ray, a),
            #[trigger] spec_axis_d(ray, a),
            tn,
            td,
        ) by {
            lemma_axis_iff(
                spec_axis_min(b, a),
                spec_axis_max(b, a),
                spec_axis_o(ray, a),
                spec_axis_d(ray, a),
                tn,
                td,
            );
            if spec_axis_d(ray, a) != 0 {
                let k = choose|k: int| 0 <= k < axes.len() && #[trigger] axes[k] == a;
                assert(rat_le(lows[k].0, lows[k].1, tn, td) && rat_le(tn, td, ups[k].0, ups[k].1));
            }
        }
        assert(axis_inside(
            spec_axis_min(b, 0),
            spec_axis_max(b, 0),
            spec_axis_o(ray, 0),
            spec_axis_d(ray, 0),
            tn,
            td,
        ));
        assert(axis_inside(
            spec_axis_min(b, 1),
            spec_axis_max(b, 1),
            spec_axis_o(ray, 1),
            spec_axis_d(ray, 1),
            tn,
            td,
        ));
        assert(axis_inside(
            spec_axis_min(b, 2),
            spec_axis_max(b, 2),
            spec_axis_o(ray, 2),
            spec_axis_d(ray, 2),
            tn,
            td,
        ));
    }
}

/// The pairwise overlap checks decide the slab predicate.
#[verifier::spinoff_prover]
#[verifier::rlimit(100)]
proof fn lemma_slab_exec_meaning(
    b: BoundingVolume,
    ray: Ray,
    t0: int,
    t1: int,
    lows: Seq<(int, int)>,
    ups: Seq<(int, int)>,
    axes: Seq<int>,
    ok: bool,
)
    requires
        t0 < t1,
        gathered_axes_upto(b, ray, lows, ups, axes, 3),
        forall|k: int| 0 <= k < lows.len() ==> (#[trigger] lows[k]).1 >= 1,
        forall|k: int| 0 <= k < ups.len() ==> (#[trigger] ups[k]).1 >= 1,
        ok == pair_checks(lows, ups, t0, t1, lows.len() as int),
    ensures
        ok == slab_hit(b, ray, t0, t1),
{
    let s = SCALE as int;
    if ok {
        // Construct a witness parameter.
        let (wn, wd): (int, int) = if lows.len() == 0 {
            ((t0 + t1) * s, 2 * s * s)
        } else {
            lemma_exists_rat_max(lows);
            lemma_exists_rat_min(ups);
            let mi = choose|m: int| #[trigger] is_rat_max(lows, m);
            let mj = choose|m: int| #[trigger] is_rat_min(ups, m);
            let lo = lows[mi];
            let hi = ups[mj];
            assert(pair_checks(lows, ups, t0, t1, lows.len() as int));
            assert(rat_lt(lo.0, lo.1, t1, s) && (forall|j: int|
                0 <= j < ups.len() ==> rat_le(lo.0, lo.1, (#[trigger] ups[j]).0, ups[j].1))) by {
                assert(0 <= mi < lows.len());
                assert(lows[mi] == lo);
            }
            assert(rat_lt(t0, s, hi.0, hi.1)) by {
                assert(0 <= mj < lows.len());
                assert(lows[mj] == lows[mj]);
            }
            if rat_lt(t0, s, lo.0, lo.1) {
                // The greatest lower bound itself is a valid parameter.
                (lo.0, lo.1)
            } else {
                // Move strictly above `t0`, staying at or below both the
                // least upper bound and `t1`.
                if rat_le(hi.0, hi.1, t1, s) {
                    lemma_rat_mean(t0, s, hi.0, hi.1);
                    (t0 * hi.1 + hi.0 * s, 2 * s * hi.1)
                } else {
                    lemma_rat_mean(t0, s, t1, s);
                    assert(rat_lt(t0, s, t1, s)) by (nonlinear_arith)
                        requires t0 < t1, s >= 1;
                    (t0 * s + t1 * s, 2 * s * s)
                }
            }
        };
        assert(wd >= 1 && ray_param_in_box(b, ray, wn, wd) && t0 * wd < wn * s && wn * s < t1 * wd)
            by {
            if lows.len() == 0 {
                lemma_param_vs_candidates(b, ray, lows, ups, axes, wn, wd);
                assert(2 * s * s >= 1) by (nonlinear_arith)
                    requires s == 65536;
                assert(t0 * (2 * s * s) < ((t0 + t1) * s) * s && ((t0 + t1) * s) * s < t1 * (2 * s
                    * s)) by (nonlinear_arith)
                    requires t0 < t1, s == 65536;
            } else {
                let mi = choose|m: int| #[trigger] is_rat_max(lows, m);
                let mj = choose|m: int| #[trigger] is_rat_min(ups, m);
                let lo = lows[mi];
                let hi = ups[mj];
                assert(pair_checks(lows, ups, t0, t1, lows.len() as int));
                assert(rat_lt(lo.0, lo.1, t1, s) && (forall|j: int|
                    0 <= j < ups.len() ==> rat_le(lo.0, lo.1, (#[trigger] ups[j]).0, ups[j].1)))
                    by {
                    assert(0 <= mi < lows.len());
                    assert(lows[mi] == lo);
                }
                assert(rat_lt(t0, s, hi.0, hi.1)) by {
                    assert(0 <= mj < lows.len());
                    assert(lows[mj] == lows[mj]);
                }
                assert(rat_le(lo.0, lo.1, hi.0, hi.1));
                if rat_lt(t0, s, lo.0, lo.1) {
                    assert forall|k: int| 0 <= k < lows.len() implies rat_le(
                        (#[trigger] lows[k]).0,
                        lows[k].1,
                        wn,
                        wd,
                    ) && rat_le(wn, wd, ups[k].0, ups[k].1) by {
                        lemma_rat_trans(lo.0, lo.1, hi.0, hi.1, ups[k].0, ups[k].1);
                    }
                    lemma_param_vs_candidates(b, ray, lows, ups, axes, wn, wd);
                } else {
                    // t0 is at or above the greatest lower bound.
                    assert(rat_le(lo.0, lo.1, t0, s)) by (nonlinear_arith)
                        requires !rat_lt(t0, s, lo.0, lo.1), lo.1 >= 1, s >= 1;
                    if rat_le(hi.0, hi.1, t1, s) {
                        lemma_rat_mean(t0, s, hi.0, hi.1);
                        assert forall|k: int| 0 <= k < lows.len() implies rat_le(
                            (#[trigger] lows[k]).0,
                            lows[k].1,
                            wn,
                            wd,
                        ) && rat_le(wn, wd, ups[k].0, ups[k].1) by {
                            lemma_rat_trans(lows[k].0, lows[k].1, lo.0, lo.1, t0, s);
                            lemma_rat_trans_lt(lows[k].0, lows[k].1, t0, s, wn, wd);
                            assert(rat_le(lows[k].0, lows[k].1, wn, wd)) by (nonlinear_arith)
                                requires
                                    rat_lt(lows[k].0, lows[k].1, wn, wd),
                                    lows[k].1 >= 1,
                                    wd >= 1;
                            lemma_rat_trans_lt_left(wn, wd, hi.0, hi.1, ups[k].0, ups[k].1);
                            assert(rat_le(wn, wd, ups[k].0, ups[k].1)) by (nonlinear_arith)
                                requires
                                    rat_lt(wn, wd, ups[k].0, ups[k].1),
                                    ups[k].1 >= 1,
                                    wd >= 1;
                        }
                        lemma_param_vs_candidates(b, ray, lows, ups, axes, wn, wd);
                        lemma_rat_trans_lt_left(wn, wd, hi.0, hi.1, t1, s);
                    } else {
                        assert(rat_le(t1, s, hi.0, hi.1)) by (nonlinear_arith)
                            requires !rat_le(hi.0, hi.1, t1, s), hi.1 >= 1, s >= 1;
                        lemma_rat_mean(t0, s, t1, s);
                        assert(rat_lt(t0, s, t1, s)) by (nonlinear_arith)
                            requires t0 < t1, s >= 1;
                        assert forall|k: int| 0 <= k < lows.len() implies rat_le(
                            (#[trigger] lows[k]).0,
                            lows[k].1,
                            wn,
                            wd,
                        ) && rat_le(wn, wd, ups[k].0, ups[k].1) by {
                            lemma_rat_trans(lows[k].0, lows[k].1, lo.0, lo.1, t0, s);
                            lemma_rat_trans_lt(lows[k].0, lows[k].1, t0, s, wn, wd);
                            assert(rat_le(lows[k].0, lows[k].1, wn, wd)) by (nonlinear_arith)
                                requires
                                    rat_lt(lows[k].0, lows[k].1, wn, wd),
                                    lows[k].1 >= 1,
                                    wd >= 1;
                            assert(rat_lt(wn, wd, ups[k].0, ups[k].1)) by {
                                lemma_rat_trans_lt(wn, wd, t1, s, hi.0, hi.1);
                                lemma_rat_trans_lt_left(wn, wd, hi.0, hi.1, ups[k].0, ups[k].1);
                            }
                            assert(rat_le(wn, wd, ups[k].0, ups[k].1)) by (nonlinear_arith)
                                requires
                                    rat_lt(wn, wd, ups[k].0, ups[k].1),
                                    ups[k].1 >= 1,
                                    wd >= 1;
                        }
                        lemma_param_vs_candidates(b, ray, lows, ups, axes, wn, wd);
                    }
                }
            }
        }
        assert(slab_hit(b, ray, t0, t1));
    } else {
        // Some check failed; no parameter can satisfy all constraints.
        assert(!pair_checks(lows, ups, t0, t1, lows.len() as int));
        assert(exists|i: int|
            0 <= i < lows.len() && !(rat_lt((#[trigger] lows[i]).0, lows[i].1, t1, s) && rat_lt(
                t0,
                s,
                ups[i].0,
                ups[i].1,
            ) && (forall|j: int|
                0 <= j < ups.len() ==> rat_le(lows[i].0, lows[i].1, (#[trigger] ups[j]).0, ups[j].1))));
        let bad = choose|i: int|
            0 <= i < lows.len() && !(rat_lt((#[trigger] lows[i]).0, lows[i].1, t1, s) && rat_lt(
                t0,
                s,
                ups[i].0,
                ups[i].1,
            ) && (forall|j: int|
                0 <= j < ups.len() ==> rat_le(lows[i].0, lows[i].1, (#[trigger] ups[j]).0, ups[j].1)));
        assert forall|tn: int, td: int|
            td >= 1 && #[trigger] ray_param_in_box(b, ray, tn, td) implies !(t0 * td < tn * s && tn
            * s < t1 * td) by {
            lemma_param_vs_candidates(b, ray, lows, ups, axes, tn, td);
            assert(rat_le(lows[bad].0, lows[bad].1, tn, td) && rat_le(
                tn,
                td,
                ups[bad].0,
                ups[bad].1,
            ));
            if t0 * td < tn * s && tn * s < t1 * td {
                assert(rat_lt(t0, s, tn, td) && rat_lt(tn, td, t1, s)) by (nonlinear_arith)
                    requires t0 * td < tn * s && tn * s < t1 * td, td >= 1, s >= 1;
                if !rat_lt(lows[bad].0, lows[bad].1, t1, s) {
                    assert(rat_le(t1, s, lows[bad].0, lows[bad].1)) by (nonlinear_arith)
                        requires !rat_lt(lows[bad].0, lows[bad].1, t1, s), lows[bad].1 >= 1, s >= 1;
                    lemma_rat_trans(lows[bad].0, lows[bad].1, tn, td, tn, td);
                    lemma_rat_trans_lt(lows[bad].0, lows[bad].1, tn, td, t1, s);
                    lemma_rat_trans_lt_left(t1, s, lows[bad].0, lows[bad].1, tn, td);
                    assert(rat_lt(t1, s, t1, s)) by {
                        lemma_rat_trans_lt_left(t1, s, lows[bad].0, lows[bad].1, tn, td);
                        lemma_rat_trans_lt_left(t1, s, tn, td, t1, s);
                    }
                    assert(false) by (nonlinear_arith)
                        requires rat_lt(t1, s, t1, s);
                } else if !rat_lt(t0, s, ups[bad].0, ups[bad].1) {
                    assert(rat_le(ups[bad].0, ups[bad].1, t0, s)) by (nonlinear_arith)
                        requires !rat_lt(t0, s, ups[bad].0, ups[bad].1), ups[bad].1 >= 1, s >= 1;
                    assert(rat_lt(t0, s, t0, s)) by {
                        lemma_rat_trans_lt_left(t0, s, tn, td, ups[bad].0, ups[bad].1);
                        lemma_rat_trans_lt_left(t0, s, ups[bad].0, ups[bad].1, t0, s);
                    }
                    assert(false) by (nonlinear_arith)
                        requires rat_lt(t0, s, t0, s);
                } else {
                    let j = choose|j: int|
                        0 <= j < ups.len() && !rat_le(lows[bad].0, lows[bad].1, (#[trigger] ups[j]).0, ups[j].1);
                    assert(rat_lt(ups[j].0, ups[j].1, lows[bad].0, lows[bad].1)) by (nonlinear_arith)
                        requires
                            !rat_le(lows[bad].0, lows[bad].1, ups[j].0, ups[j].1),
                            lows[bad].1 >= 1,
                            ups[j].1 >= 1;
                    assert(rat_le(lows[j].0, lows[j].1, tn, td) && rat_le(
                        tn,
                        td,
                        ups[j].0,
                        ups[j].1,
                    ));
                    assert(rat_lt(tn, td, tn, td)) by {
                        lemma_rat_trans_lt(tn, td, ups[j].0, ups[j].1, lows[bad].0, lows[bad].1);
                        lemma_rat_trans_lt(tn, td, lows[bad].0, lows[bad].1, tn, td);
                    }
                    assert(false) by (nonlinear_arith)
                        requires rat_lt(tn, td, tn, td);
                }
            }
        }
        assert(!slab_hit(b, ray, t0, t1));
    }
}

/// The union of a nonempty sequence of well-formed boxes is well formed and
/// contains every element.
pub proof fn lemma_union_all_wf(s: Seq<BoundingVolume>)
    requires
        s.len() >= 1,
        forall|i: int| 0 <= i < s.len() ==> (#[trigger] s[i]).wf(),
    ensures
        BoundingVolume::spec_union_all(s).wf(),
        forall|i: int|
            0 <= i < s.len() ==> BoundingVolume::spec_contains(
                BoundingVolume::spec_union_all(s),
                #[trigger] s[i],
            ),
    decreases s.len(),
{
    if s.len() > 1 {
        let pre = s.drop_last();
        lemma_union_all_wf(pre);
        let u = BoundingVolume::spec_union_all(s);
        assert(u == BoundingVolume::spec_union(BoundingVolume::spec_union_all(pre), s.last()));
        assert forall|i: int| 0 <= i < s.len() implies BoundingVolume::spec_contains(
            u,
            #[trigger] s[i],
        ) by {
            if i < s.len() - 1 {
                assert(pre[i] == s[i]);
                assert(BoundingVolume::spec_contains(BoundingVolume::spec_union_all(pre), s[i]));
            } else {
                assert(s[i] == s.last());
            }
        }
    }
}

/// The ray with the opposite direction.
pub open spec fn spec_reverse(ray: Ray) -> Ray {
    Ray {
        origin: ray.origin,
        direction: Vector3 {
            x: (-ray.direction.x) as i64,
            y: (-ray.direction.y) as i64,
            z: (-ray.direction.z) as i64,
        },
    }
}

/// Box-intersection symmetry: a ray and its reversal, travelling the same
/// line, agree on whether the box is met; only the parameter interval is
/// mirrored.
pub proof fn lemma_box_intersection_symmetry(b: BoundingVolume, ray: Ray, t0: int, t1: int)
    requires
        ray.wf(),
        crate::math::t_in_bounds(t0),
        crate::math::t_in_bounds(t1),
    ensures
        slab_hit(b, ray, t0, t1) == slab_hit(b, spec_reverse(ray), -t1, -t0),
{
    let rev = spec_reverse(ray);
    if slab_hit(b, ray, t0, t1) {
        let (tn, td) = choose|tn: int, td: int|
            td >= 1 && #[trigger] ray_param_in_box(b, ray, tn, td) && t0 * td < tn * (SCALE as int)
                && tn * (SCALE as int) < t1 * td;
        lemma_reversed_param(b, ray, tn, td, t0, t1);
        assert(slab_hit(b, rev, -t1, -t0));
    }
    if slab_hit(b, rev, -t1, -t0) {
        let (tn, td) = choose|tn: int, td: int|
            td >= 1 && #[trigger] ray_param_in_box(b, rev, tn, td) && (-t1) * td < tn * (
            SCALE as int) && tn * (SCALE as int) < (-t0) * td;
        assert(spec_reverse(rev) == ray);
        lemma_reversed_param(b, rev, tn, td, -t1, -t0);
        assert(slab_hit(b, ray, t0, t1));
    }
}

/// A parameter on a ray maps to the negated parameter on the reversed ray.
proof fn lemma_reversed_param(b: BoundingVolume, ray: Ray, tn: int, td: int, t0: int, t1: int)
    requires
        ray.wf(),
        td >= 1,
        ray_param_in_box(b, ray, tn, td),
        t0 * td < tn * (SCALE as int),
        tn * (SCALE as int) < t1 * td,
    ensures
        ray_param_in_box(b, spec_reverse(ray), -tn, td),
        (-t1) * td < (-tn) * (SCALE as int),
        (-tn) * (SCALE as int) < (-t0) * td,
{
    let rev = spec_reverse(ray);
    assert(ray_param_in_box(b, rev, -tn, td)) by (nonlinear_arith)
        requires
            ray.wf(),
            rev == spec_reverse(ray),
            ray_param_in_box(b, ray, tn, td),
            ray_param_in_box(b, rev, -tn, td) == (axis_inside(
                b.min.x as int,
                b.max.x as int,
                rev.origin.x as int,
                rev.direction.x as int,
                -tn,
                td,
            ) && axis_inside(
                b.min.y as int,
                b.max.y as int,
                rev.origin.y as int,
                rev.direction.y as int,
                -tn,
                td,
            ) && axis_inside(
                b.min.z as int,
                b.max.z as int,
                rev.origin.z as int,
                rev.direction.z as int,
                -tn,
                td,
            )),
            ray_param_in_box(b, ray, tn, td) == (axis_inside(
                b.min.x as int,
                b.max.x as int,
                ray.origin.x as int,
                ray.direction.x as int,
                tn,
                td,
            ) && axis_inside(
                b.min.y as int,
                b.max.y as int,
                ray.origin.y as int,
                ray.direction.y as int,
                tn,
                td,
            ) && axis_inside(
                b.min.z as int,
                b.max.z as int,
                ray.origin.z as int,
                ray.direction.z as int,
                tn,
                td,
            ));
    assert((-t1) * td < (-tn) * (SCALE as int) && (-tn) * (SCALE as int) < (-t0) * td)
        by (nonlinear_arith)
        requires t0 * td < tn * (SCALE as int) && tn * (SCALE as int) < t1 * td;
}

/// The axis of greatest extent, preferring x, then y, then z.
pub open spec fn spec_maximum_extent(b: BoundingVolume) -> int {
    let dx = b.max.x - b.min.x;
    let dy = b.max.y - b.min.y;
    let dz = b.max.z - b.min.z;
    if dx > dy && dx > dz {
        0
    } else if dy > dz {
        1
    } else {
        2
    }
}

/// Interpolation terms of coordinates stay within the coordinate range.
proof fn lemma_lerp_term_bounds()
    ensures
        forall|c: int, w: int|
            -0x400_0000 <= c <= 0x400_0000 && 0 <= w <= SCALE as int ==> -0x400_0000
                <= #[trigger] floor_div(c * w, SCALE as int) <= 0x400_0000,
{
    assert forall|c: int, w: int|
        -0x400_0000 <= c <= 0x400_0000 && 0 <= w <= SCALE as int implies -0x400_0000
        <= #[trigger] floor_div(c * w, SCALE as int) <= 0x400_0000 by {
        crate::math::lemma_mul_magnitude(c, w, 0x400_0000, SCALE as int);
        crate::math::lemma_floor_div_quotient_bound(c * w, SCALE as int, 0x400_0000);
    }
}

/// One node of the hierarchy, stored in an index arena: children of an
/// inner node are earlier arena slots, and a leaf holds indices into the
/// scene's primitive table.
pub struct BVHNode {
    pub is_inner: bool,
    pub left: usize,
    pub right: usize,
    pub children: Vec<usize>,
    pub bounds: BoundingVolume,
}

/// Inner nodes only point at earlier arena slots.
pub open spec fn links_ok(arena: Seq<BVHNode>) -> bool {
    forall|j: int|
        0 <= j < arena.len() && (#[trigger] arena[j]).is_inner ==> arena[j].left < j
            && arena[j].right < j
}

/// One node is well formed against the primitive bounding boxes: a leaf
/// holds at least one valid primitive index and its bounds are exactly the
/// union of their boxes; an inner node's bounds are exactly the union of its
/// children's bounds.
pub open spec fn node_ok(arena: Seq<BVHNode>, bvs: Seq<BoundingVolume>, j: int) -> bool {
    if arena[j].is_inner {
        arena[j].left < j && arena[j].right < j && arena[j].bounds == BoundingVolume::spec_union(
            arena[arena[j].left as int].bounds,
            arena[arena[j].right as int].bounds,
        )
    } else {
        arena[j].children@.len() >= 1 && (forall|c: int|
            0 <= c < arena[j].children@.len() ==> (#[trigger] arena[j].children@[c]) < bvs.len())
            && arena[j].bounds == BoundingVolume::spec_union_all(
            arena[j].children@.map_values(|c: usize| bvs[c as int]),
        )
    }
}

/// Every node of the arena is well formed.
pub open spec fn arena_ok(arena: Seq<BVHNode>, bvs: Seq<BoundingVolume>) -> bool {
    forall|j: int| 0 <= j < arena.len() ==> #[trigger] node_ok(arena, bvs, j)
}

/// The primitive indices held in the subtree rooted at slot `i`.
pub open spec fn tree_prims(arena: Seq<BVHNode>, i: int) -> Seq<int>
    decreases i
    when 0 <= i < arena.len() && links_ok(arena)
{
    if arena[i].is_inner {
        tree_prims(arena, arena[i].left as int) + tree_prims(arena, arena[i].right as int)
    } else {
        arena[i].children@.map_values(|c: usize| c as int)
    }
}

/// Extending the arena with new slots leaves the subtrees of the old slots
/// unchanged.
pub proof fn lemma_tree_prims_prefix(arena: Seq<BVHNode>, ext: Seq<BVHNode>, i: int)
    requires
        links_ok(arena),
        links_ok(ext),
        arena.len() <= ext.len(),
        forall|j: int| 0 <= j < arena.len() ==> ext[j] == arena[j],
        0 <= i < arena.len(),
    ensures
        tree_prims(ext, i) == tree_prims(arena, i),
    decreases i,
{
    if arena[i].is_inner {
        lemma_tree_prims_prefix(arena, ext, arena[i].left as int);
        lemma_tree_prims_prefix(arena, ext, arena[i].right as int);
    }
}

/// Appending slots also preserves the per-node well-formedness of the old
/// slots.
pub proof fn lemma_arena_ok_prefix(
    arena: Seq<BVHNode>,
    ext: Seq<BVHNode>,
    bvs: Seq<BoundingVolume>,
)
    requires
        arena.len() <= ext.len(),
        forall|j: int| 0 <= j < arena.len() ==> ext[j] == arena[j],
        forall|j: int| 0 <= j < arena.len() ==> #[trigger] node_ok(arena, bvs, j),
    ensures
        forall|j: int| 0 <= j < arena.len() ==> #[trigger] node_ok(ext, bvs, j),
{
    assert forall|j: int| 0 <= j < arena.len() implies #[trigger] node_ok(ext, bvs, j) by {
        assert(node_ok(arena, bvs, j));
    }
}

/// The subtree of a well-formed node holds at least one primitive index,
/// every index is valid, and the node's bounds contain each primitive's box.
pub proof fn lemma_tree_prims_ok(arena: Seq<BVHNode>, bvs: Seq<BoundingVolume>, i: int)
    requires
        links_ok(arena),
        arena_ok(arena, bvs),
        0 <= i < arena.len(),
    ensures
        tree_prims(arena, i).len() >= 1,
        forall|k: int|
            0 <= k < tree_prims(arena, i).len() ==> 0 <= #[trigger] tree_prims(arena, i)[k]
                < bvs.len() && BoundingVolume::spec_contains(
                arena[i].bounds,
                bvs[tree_prims(arena, i)[k]],
            ),
    decreases i,
{
    assert(node_ok(arena, bvs, i));
    if arena[i].is_inner {
        let l = arena[i].left as int;
        let r = arena[i].right as int;
        lemma_tree_prims_ok(arena, bvs, l);
        lemma_tree_prims_ok(arena, bvs, r);
        assert forall|k: int| 0 <= k < tree_prims(arena, i).len() implies 0
            <= #[trigger] tree_prims(arena, i)[k] < bvs.len() && BoundingVolume::spec_contains(
            arena[i].bounds,
            bvs[tree_prims(arena, i)[k]],
        ) by {
            let tl = tree_prims(arena, l);
            let tr = tree_prims(arena, r);
            if k < tl.len() {
                assert(tree_prims(arena, i)[k] == tl[k]);
            } else {
                assert(tree_prims(arena, i)[k] == tr[k - tl.len()]);
            }
        }
    } else {
        let cs = arena[i].children@;
        lemma_union_all_wf_weak(cs.map_values(|c: usize| bvs[c as int]));
        assert forall|k: int| 0 <= k < tree_prims(arena, i).len() implies 0
            <= #[trigger] tree_prims(arena, i)[k] < bvs.len() && BoundingVolume::spec_contains(
            arena[i].bounds,
            bvs[tree_prims(arena, i)[k]],
        ) by {
            assert(tree_prims(arena, i)[k] == cs[k] as int);
            assert(cs.map_values(|c: usize| bvs[c as int])[k] == bvs[cs[k] as int]);
        }
    }
}

/// The union of a nonempty list of boxes contains every one of them, with no
/// well-formedness premise.
proof fn lemma_union_all_wf_weak(s: Seq<BoundingVolume>)
    requires
        s.len() >= 1,
    ensures
        forall|i: int|
            0 <= i < s.len() ==> BoundingVolume::spec_contains(
                BoundingVolume::spec_union_all(s),
                #[trigger] s[i],
            ),
    decreases s.len(),
{
    if s.len() > 1 {
        lemma_union_all_wf_weak(s.drop_last());
        let u = BoundingVolume::spec_union_all(s);
        assert forall|i: int| 0 <= i < s.len() implies BoundingVolume::spec_contains(
            u,
            #[trigger] s[i],
        ) by {
            if i < s.len() - 1 {
                assert(s.drop_last()[i] == s[i]);
                assert(BoundingVolume::spec_contains(
                    BoundingVolume::spec_union_all(s.drop_last()),
                    s[i],
                ));
            } else {
                assert(s[i] == s.last());
            }
        }
    }
}

/// The union of a concatenation is the union of the unions.
pub proof fn lemma_union_all_concat(s1: Seq<BoundingVolume>, s2: Seq<BoundingVolume>)
    requires
        s1.len() >= 1,
        s2.len() >= 1,
    ensures
        BoundingVolume::spec_union_all(s1 + s2) == BoundingVolume::spec_union(
            BoundingVolume::spec_union_all(s1),
            BoundingVolume::spec_union_all(s2),
        ),
    decreases s2.len(),
{
    if s2.len() == 1 {
        assert((s1 + s2).drop_last() =~= s1);
        assert((s1 + s2).last() == s2[0]);
        assert(BoundingVolume::spec_union_all(s2) == s2[0]);
    } else {
        lemma_union_all_concat(s1, s2.drop_last());
        assert((s1 + s2).drop_last() =~= s1 + s2.drop_last());
        assert((s1 + s2).last() == s2.last());
        assert(BoundingVolume::spec_union(
            BoundingVolume::spec_union(
                BoundingVolume::spec_union_all(s1),
                BoundingVolume::spec_union_all(s2.drop_last()),
            ),
            s2.last(),
        ) == BoundingVolume::spec_union(
            BoundingVolume::spec_union_all(s1),
            BoundingVolume::spec_union(BoundingVolume::spec_union_all(s2.drop_last()), s2.last()),
        ));
    }
}

/// The bounding-volume invariant of the hierarchy: the bounds stored at any
/// node equal the componentwise union of the bounding boxes of all
/// primitives in its subtree, whichever split strategy built the tree.
pub proof fn lemma_bvh_bounds_invariant(arena: Seq<BVHNode>, bvs: Seq<BoundingVolume>, i: int)
    requires
        links_ok(arena),
        arena_ok(arena, bvs),
        0 <= i < arena.len(),
    ensures
        arena[i].bounds == BoundingVolume::spec_union_all(
            tree_prims(arena, i).map_values(|p: int| bvs[p]),
        ),
    decreases i,
{
    assert(node_ok(arena, bvs, i));
    if arena[i].is_inner {
        let l = arena[i].left as int;
        let r = arena[i].right as int;
        lemma_bvh_bounds_invariant(arena, bvs, l);
        lemma_bvh_bounds_invariant(arena, bvs, r);
        lemma_tree_prims_ok(arena, bvs, l);
        lemma_tree_prims_ok(arena, bvs, r);
        let ml = tree_prims(arena, l).map_values(|p: int| bvs[p]);
        let mr = tree_prims(arena, r).map_values(|p: int| bvs[p]);
        lemma_union_all_concat(ml, mr);
        assert(tree_prims(arena, i).map_values(|p: int| bvs[p]) =~= ml + mr);
    } else {
        assert(tree_prims(arena, i).map_values(|p: int| bvs[p]) =~= arena[i].children@.map_values(
            |c: usize| bvs[c as int],
        ));
    }
}

/// A primitive queued for tree construction: its index in the primitive
/// table, its bounding box and its centroid.
pub type BuildItem = (usize, BoundingVolume, Point3);

/// The indices carried by a list of build items.
pub open spec fn items_idxs(items: Seq<BuildItem>) -> Seq<int> {
    items.map_values(|it: BuildItem| it.0 as int)
}

/// Every item points at a valid primitive slot and carries exactly that
/// primitive's (well-formed) bounding box.
pub open spec fn items_ok(items: Seq<BuildItem>, bvs: Seq<BoundingVolume>) -> bool {
    forall|k: int|
        0 <= k < items.len() ==> (#[trigger] items[k]).0 < bvs.len() && items[k].1 == bvs[items[k].0 as int]
            && items[k].1.wf()
}


/// No two items carry the same primitive index.
pub open spec fn idxs_distinct(items: Seq<BuildItem>) -> bool {
    forall|i: int, j: int|
        0 <= i < j < items.len() ==> (#[trigger] items[i]).0 != (#[trigger] items[j]).0
}

/// No primitive index appears in both lists.
pub open spec fn idxs_disjoint(a: Seq<BuildItem>, b: Seq<BuildItem>) -> bool {
    forall|i: int, j: int|
        0 <= i < a.len() && 0 <= j < b.len() ==> (#[trigger] a[i]).0 != (#[trigger] b[j]).0
}

/// No primitive index appears twice in a subtree listing.
pub open spec fn prims_distinct(tp: Seq<int>) -> bool {
    forall|i: int, j: int| 0 <= i < j < tp.len() ==> #[trigger] tp[i] != #[trigger] tp[j]
}


/// Every element of `sub` is one of the first `k` items.
pub open spec fn placed_from(sub: Seq<BuildItem>, items: Seq<BuildItem>, k: int) -> bool {
    forall|m: int| 0 <= m < sub.len() ==> items.subrange(0, k).contains(#[trigger] sub[m])
}

/// A completed hierarchy: an arena of nodes whose last slot is the root.
pub struct Bvh {
    pub nodes: Vec<BVHNode>,
    pub root: usize,
}

impl Bvh {
    /// The tree is well formed against a primitive table: links point
    /// backwards, bounds are unions, the leaf indices are valid, and every
    /// primitive of the table appears in some leaf.
    pub open spec fn wf(self, bvs: Seq<BoundingVolume>) -> bool {
        &&& self.nodes@.len() >= 1
        &&& self.root as int == self.nodes@.len() - 1
        &&& links_ok(self.nodes@)
        &&& arena_ok(self.nodes@, bvs)
        &&& forall|k: int|
            0 <= k < tree_prims(self.nodes@, self.root as int).len() ==> 0 <= #[trigger] tree_prims(
                self.nodes@,
                self.root as int,
            )[k] < bvs.len()
        &&& forall|p: int|
            0 <= p < bvs.len() ==> tree_prims(self.nodes@, self.root as int).contains(p)
        &&& prims_distinct(tree_prims(self.nodes@, self.root as int))
    }
}

/// The centroid coordinate of an item on an axis.
fn item_axis(p: &Point3, axis: usize) -> (r: i64)
    requires
        axis <= 2,
    ensures
        axis == 0 ==> r == p.x,
        axis == 1 ==> r == p.y,
        axis == 2 ==> r == p.z,
{
    if axis == 0 {
        p.x
    } else if axis == 1 {
        p.y
    } else {
        p.z
    }
}

/// Emit a leaf node holding exactly the given items.
fn make_leaf(
    items: &Vec<BuildItem>,
    arena: &mut Vec<BVHNode>,
    Ghost(bvs): Ghost<Seq<BoundingVolume>>,
) -> (root: usize)
    requires
        items@.len() >= 1,
        items_ok(items@, bvs),
        links_ok(old(arena)@),
        arena_ok(old(arena)@, bvs),
    ensures
        final(arena)@.len() == old(arena)@.len() + 1,
        root as int == final(arena)@.len() - 1,
        forall|j: int| 0 <= j < old(arena)@.len() ==> final(arena)@[j] == old(arena)@[j],
        links_ok(final(arena)@),
        arena_ok(final(arena)@, bvs),
        tree_prims(final(arena)@, root as int) == items_idxs(items@),
{
    let mut children: Vec<usize> = Vec::new();
    let mut volumes: Vec<BoundingVolume> = Vec::new();
    let mut k: usize = 0;
    while k < items.len()
        invariant
            k <= items@.len(),
            items_ok(items@, bvs),
            children@.len() == k,
            volumes@.len() == k,
            forall|m: int| 0 <= m < k ==> children@[m] == (#[trigger] items@[m]).0,
            forall|m: int| 0 <= m < k ==> volumes@[m] == (#[trigger] items@[m]).1,
        decreases items@.len() - k,
    {
        children.push(items[k].0);
        volumes.push(items[k].1);
        k += 1;
    }
    proof {
        assert forall|m: int| 0 <= m < volumes@.len() implies (#[trigger] volumes@[m]).wf() by {
            assert(volumes@[m] == items@[m].1);
        }
    }
    let bounds = BoundingVolume::from(&volumes);
    let node = BVHNode { is_inner: false, left: 0, right: 0, children, bounds };
    let ghost pre = arena@;
    arena.push(node);
    let root = arena.len() - 1;
    proof {
        let cs = arena@[root as int].children@;
        assert(cs.len() == items@.len());
        assert forall|m: int| 0 <= m < cs.len() implies (#[trigger] cs[m]) < bvs.len() && volumes@[m]
            == bvs[cs[m] as int] by {
            assert(cs[m] == items@[m].0);
            assert(items@[m].0 < bvs.len() && items@[m].1 == bvs[items@[m].0 as int]);
            assert(volumes@[m] == items@[m].1);
        }
        assert(volumes@ =~= cs.map_values(|c: usize| bvs[c as int]));
        assert(node_ok(arena@, bvs, root as int));
        lemma_arena_ok_prefix(pre, arena@, bvs);
        assert forall|j: int| 0 <= j < arena@.len() implies #[trigger] node_ok(arena@, bvs, j) by {
            if j < pre.len() {
            } else {
                assert(j == root as int);
            }
        }
        assert(tree_prims(arena@, root as int) =~= items_idxs(items@));
    }
    root
}

/// Split a list of items by centroid on an axis: the left part holds, in
/// order, exactly the items whose centroid coordinate on the axis is at or
/// below the split value, and the right part the rest.
fn partition_items(items: &Vec<BuildItem>, axis: usize, split: i64) -> (r: (
    Vec<BuildItem>,
    Vec<BuildItem>,
))
    requires
        axis <= 2,
        idxs_distinct(items@),
    ensures
        r.0@.len() + r.1@.len() == items@.len(),
        forall|k: int|
            0 <= k < r.0@.len() ==> items@.contains(#[trigger] r.0@[k]) && item_axis_spec(
                r.0@[k].2,
                axis as int,
            ) <= split,
        forall|k: int|
            0 <= k < r.1@.len() ==> items@.contains(#[trigger] r.1@[k]) && item_axis_spec(
                r.1@[k].2,
                axis as int,
            ) > split,
        forall|k: int|
            0 <= k < items@.len() ==> r.0@.contains(#[trigger] items@[k]) || r.1@.contains(
                items@[k],
            ),
        idxs_distinct(r.0@),
        idxs_distinct(r.1@),
        idxs_disjoint(r.0@, r.1@),
{
    let mut smaller: Vec<BuildItem> = Vec::new();
    let mut larger: Vec<BuildItem> = Vec::new();
    let mut k: usize = 0;
    while k < items.len()
        invariant
            k <= items@.len(),
            axis <= 2,
            idxs_distinct(items@),
            smaller@.len() + larger@.len() == k,
            placed_from(smaller@, items@, k as int),
            placed_from(larger@, items@, k as int),
            forall|m: int|
                0 <= m < smaller@.len() ==> item_axis_spec((#[trigger] smaller@[m]).2, axis as int)
                    <= split,
            forall|m: int|
                0 <= m < larger@.len() ==> item_axis_spec((#[trigger] larger@[m]).2, axis as int)
                    > split,
            forall|m: int|
                0 <= m < k ==> smaller@.contains(#[trigger] items@[m]) || larger@.contains(
                    items@[m],
                ),
            idxs_distinct(smaller@),
            idxs_distinct(larger@),
            idxs_disjoint(smaller@, larger@),
        decreases items@.len() - k,
    {
        let it = items[k];
        let ghost pre_s = smaller@;
        let ghost pre_l = larger@;
        proof {
            lemma_partition_fresh(items@, pre_s, pre_l, k as int);
        }
        if item_axis(&it.2, axis) <= split {
            smaller.push(it);
        } else {
            larger.push(it);
        }
        proof {
            let ghost ext = items@.subrange(0, k as int + 1);
            assert forall|m: int| 0 <= m < smaller@.len() implies ext.contains(
                #[trigger] smaller@[m],
            ) by {
                if m < pre_s.len() {
                    assert(items@.subrange(0, k as int).contains(pre_s[m]));
                    let w = choose|w: int|
                        0 <= w < k && items@.subrange(0, k as int)[w] == pre_s[m];
                    assert(ext[w] == smaller@[m]);
                } else {
                    assert(ext[k as int] == smaller@[m]);
                }
            }
            assert forall|m: int| 0 <= m < larger@.len() implies ext.contains(
                #[trigger] larger@[m],
            ) by {
                if m < pre_l.len() {
                    assert(items@.subrange(0, k as int).contains(pre_l[m]));
                    let w = choose|w: int|
                        0 <= w < k && items@.subrange(0, k as int)[w] == pre_l[m];
                    assert(ext[w] == larger@[m]);
                } else {
                    assert(ext[k as int] == larger@[m]);
                }
            }
            assert forall|m: int| 0 <= m < k + 1 implies smaller@.contains(#[trigger] items@[m])
                || larger@.contains(items@[m]) by {
                if m < k {
                    if pre_s.contains(items@[m]) {
                        let w = choose|w: int| 0 <= w < pre_s.len() && pre_s[w] == items@[m];
                        assert(smaller@[w] == items@[m] || smaller@ == pre_s);
                    } else {
                        let w = choose|w: int| 0 <= w < pre_l.len() && pre_l[w] == items@[m];
                        assert(larger@[w] == items@[m] || larger@ == pre_l);
                    }
                } else {
                    if item_axis_spec(items@[m].2, axis as int) <= split {
                        assert(smaller@.last() == items@[m]);
                    } else {
                        assert(larger@.last() == items@[m]);
                    }
                }
            }
        }
        k += 1;
    }
    proof {
        assert(items@.subrange(0, items@.len() as int) =~= items@);
        assert forall|m: int| 0 <= m < smaller@.len() implies items@.contains(
            #[trigger] smaller@[m],
        ) by {
            assert(items@.subrange(0, items@.len() as int).contains(smaller@[m]));
        }
        assert forall|m: int| 0 <= m < larger@.len() implies items@.contains(
            #[trigger] larger@[m],
        ) by {
            assert(items@.subrange(0, items@.len() as int).contains(larger@[m]));
        }
    }
    (smaller, larger)
}

/// The item about to be partitioned carries an index no already-placed item
/// has.
proof fn lemma_partition_fresh(
    items: Seq<BuildItem>,
    smaller: Seq<BuildItem>,
    larger: Seq<BuildItem>,
    k: int,
)
    requires
        0 <= k < items.len(),
        idxs_distinct(items),
        placed_from(smaller, items, k),
        placed_from(larger, items, k),
    ensures
        forall|m: int| 0 <= m < smaller.len() ==> (#[trigger] smaller[m]).0 != items[k].0,
        forall|m: int| 0 <= m < larger.len() ==> (#[trigger] larger[m]).0 != items[k].0,
{
    let pre = items.subrange(0, k);
    assert forall|m: int| 0 <= m < smaller.len() implies (#[trigger] smaller[m]).0
        != items[k].0 by {
        assert(pre.contains(smaller[m]));
        let w = choose|w: int| 0 <= w < pre.len() && pre[w] == smaller[m];
        assert(items[w] == smaller[m]);
    }
    assert forall|m: int| 0 <= m < larger.len() implies (#[trigger] larger[m]).0 != items[k].0 by {
        assert(pre.contains(larger[m]));
        let w = choose|w: int| 0 <= w < pre.len() && pre[w] == larger[m];
        assert(items[w] == larger[m]);
    }
}

/// The centroid coordinate on an axis, as a spec value.
pub open spec fn item_axis_spec(p: Point3, axis: int) -> i64 {
    if axis == 0 {
        p.x
    } else if axis == 1 {
        p.y
    } else {
        p.z
    }
}

/// Split a list in half by position.
fn split_items_at(items: &Vec<BuildItem>, mid: usize) -> (r: (Vec<BuildItem>, Vec<BuildItem>))
    requires
        0 < mid < items@.len(),
    ensures
        r.0@ == items@.subrange(0, mid as int),
        r.1@ == items@.subrange(mid as int, items@.len() as int),
        r.0@.len() + r.1@.len() == items@.len(),
        forall|k: int| 0 <= k < r.0@.len() ==> items@.contains(#[trigger] r.0@[k]),
        forall|k: int| 0 <= k < r.1@.len() ==> items@.contains(#[trigger] r.1@[k]),
        forall|k: int|
            0 <= k < items@.len() ==> r.0@.contains(#[trigger] items@[k]) || r.1@.contains(
                items@[k],
            ),
        idxs_distinct(items@) ==> idxs_distinct(r.0@) && idxs_distinct(r.1@) && idxs_disjoint(
            r.0@,
            r.1@,
        ),
{
    let mut a: Vec<BuildItem> = Vec::new();
    let mut b: Vec<BuildItem> = Vec::new();
    let mut k: usize = 0;
    while k < mid
        invariant
            k <= mid,
            mid < items@.len(),
            a@ == items@.subrange(0, k as int),
        decreases mid - k,
    {
        a.push(items[k]);
        proof {
            assert(a@ =~= items@.subrange(0, k as int + 1));
        }
        k += 1;
    }
    while k < items.len()
        invariant
            mid <= k <= items@.len(),
            b@ == items@.subrange(mid as int, k as int),
        decreases items@.len() - k,
    {
        b.push(items[k]);
        proof {
            assert(b@ =~= items@.subrange(mid as int, k as int + 1));
        }
        k += 1;
    }
    proof {
        assert forall|m: int| 0 <= m < items@.len() implies a@.contains(#[trigger] items@[m])
            || b@.contains(items@[m]) by {
            if m < mid {
                assert(a@[m] == items@[m]);
            } else {
                assert(b@[m - mid] == items@[m]);
            }
        }
        assert forall|m: int| 0 <= m < a@.len() implies items@.contains(#[trigger] a@[m]) by {
            assert(a@[m] == items@[m]);
        }
        assert forall|m: int| 0 <= m < b@.len() implies items@.contains(#[trigger] b@[m]) by {
            assert(b@[m] == items@[m + mid]);
        }
        if idxs_distinct(items@) {
            assert forall|i: int, j: int|
                0 <= i < j < a@.len() implies (#[trigger] a@[i]).0 != (#[trigger] a@[j]).0 by {
                assert(a@[i] == items@[i] && a@[j] == items@[j]);
            }
            assert forall|i: int, j: int|
                0 <= i < j < b@.len() implies (#[trigger] b@[i]).0 != (#[trigger] b@[j]).0 by {
                assert(b@[i] == items@[i + mid] && b@[j] == items@[j + mid]);
            }
            assert forall|i: int, j: int|
                0 <= i < a@.len() && 0 <= j < b@.len() implies (#[trigger] a@[i]).0 != (
            #[trigger] b@[j]).0 by {
                assert(a@[i] == items@[i] && b@[j] == items@[j + mid]);
            }
        }
    }
    (a, b)
}

/// The contract shared by both construction strategies: fresh slots are
/// appended, old slots are untouched, the whole arena stays well formed, and
/// the new subtree holds exactly the item indices.
pub open spec fn built_subtree(
    pre: Seq<BVHNode>,
    post: Seq<BVHNode>,
    bvs: Seq<BoundingVolume>,
    items: Seq<BuildItem>,
    root: int,
) -> bool {
    &&& post.len() > pre.len()
    &&& root == post.len() - 1
    &&& (forall|j: int| 0 <= j < pre.len() ==> post[j] == pre[j])
    &&& links_ok(post)
    &&& arena_ok(post, bvs)
    &&& (forall|k: int|
        0 <= k < tree_prims(post, root).len() ==> items_idxs(items).contains(
            #[trigger] tree_prims(post, root)[k],
        ))
    &&& (forall|k: int|
        0 <= k < items.len() ==> tree_prims(post, root).contains(#[trigger] items[k].0 as int))
    &&& prims_distinct(tree_prims(post, root))
}

/// Combine two built subtrees under a fresh inner node.
fn make_inner(
    li: usize,
    ri: usize,
    arena: &mut Vec<BVHNode>,
    Ghost(bvs): Ghost<Seq<BoundingVolume>>,
    Ghost(left_items): Ghost<Seq<BuildItem>>,
    Ghost(right_items): Ghost<Seq<BuildItem>>,
) -> (root: usize)
    requires
        links_ok(old(arena)@),
        arena_ok(old(arena)@, bvs),
        li < old(arena)@.len(),
        ri < old(arena)@.len(),
        forall|k: int|
            0 <= k < tree_prims(old(arena)@, li as int).len() ==> items_idxs(left_items).contains(
                #[trigger] tree_prims(old(arena)@, li as int)[k],
            ),
        forall|k: int|
            0 <= k < left_items.len() ==> tree_prims(old(arena)@, li as int).contains(
                #[trigger] left_items[k].0 as int,
            ),
        forall|k: int|
            0 <= k < tree_prims(old(arena)@, ri as int).len() ==> items_idxs(right_items).contains(
                #[trigger] tree_prims(old(arena)@, ri as int)[k],
            ),
        forall|k: int|
            0 <= k < right_items.len() ==> tree_prims(old(arena)@, ri as int).contains(
                #[trigger] right_items[k].0 as int,
            ),
        idxs_disjoint(left_items, right_items),
        prims_distinct(tree_prims(old(arena)@, li as int)),
        prims_distinct(tree_prims(old(arena)@, ri as int)),
    ensures
        built_subtree(old(arena)@, final(arena)@, bvs, left_items + right_items, root as int),
{
    let bounds = BoundingVolume {
        min: arena[li].bounds.min.min(&arena[ri].bounds.min),
        max: arena[li].bounds.max.max(&arena[ri].bounds.max),
    };
    let node = BVHNode { is_inner: true, left: li, right: ri, children: Vec::new(), bounds };
    let ghost pre = arena@;
    arena.push(node);
    let root = arena.len() - 1;
    proof {
        lemma_arena_ok_prefix(pre, arena@, bvs);
        assert(bounds == BoundingVolume::spec_union(
            arena@[li as int].bounds,
            arena@[ri as int].bounds,
        ));
        assert(node_ok(arena@, bvs, root as int));
        assert forall|j: int| 0 <= j < arena@.len() implies #[trigger] node_ok(arena@, bvs, j) by {
            if j < pre.len() {
            } else {
                assert(j == root as int);
            }
        }
        lemma_tree_prims_prefix(pre, arena@, li as int);
        lemma_tree_prims_prefix(pre, arena@, ri as int);
        let tl = tree_prims(arena@, li as int);
        let tr = tree_prims(arena@, ri as int);
        let tp = tree_prims(arena@, root as int);
        assert(tp == tl + tr);
        let all = left_items + right_items;
        assert forall|k: int| 0 <= k < tp.len() implies items_idxs(all).contains(
            #[trigger] tp[k],
        ) by {
            if k < tl.len() {
                assert(tp[k] == tl[k]);
                let w = choose|w: int|
                    0 <= w < items_idxs(left_items).len() && items_idxs(left_items)[w] == tl[k];
                assert(items_idxs(all)[w] == tl[k]);
            } else {
                assert(tp[k] == tr[k - tl.len()]);
                let w = choose|w: int|
                    0 <= w < items_idxs(right_items).len() && items_idxs(right_items)[w] == tr[k
                        - tl.len()];
                assert(items_idxs(all)[w + left_items.len()] == tr[k - tl.len()]);
            }
        }
        assert forall|k: int| 0 <= k < all.len() implies tp.contains(
            #[trigger] all[k].0 as int,
        ) by {
            if k < left_items.len() {
                assert(all[k] == left_items[k]);
                let w = choose|w: int| 0 <= w < tl.len() && tl[w] == left_items[k].0 as int;
                assert(tp[w] == tl[w]);
            } else {
                assert(all[k] == right_items[k - left_items.len()]);
                let w = choose|w: int|
                    0 <= w < tr.len() && tr[w] == right_items[k - left_items.len()].0 as int;
                assert(tp[tl.len() + w] == tr[w]);
            }
        }
        assert forall|i: int, j: int| 0 <= i < j < tp.len() implies #[trigger] tp[i]
            != #[trigger] tp[j] by {
            if i < tl.len() && j >= tl.len() {
                assert(tp[i] == tl[i] && tp[j] == tr[j - tl.len()]);
                let wl = choose|w: int|
                    0 <= w < items_idxs(left_items).len() && items_idxs(left_items)[w] == tl[i];
                let wr = choose|w: int|
                    0 <= w < items_idxs(right_items).len() && items_idxs(right_items)[w] == tr[j
                        - tl.len()];
                assert(left_items[wl].0 as int == tl[i]);
                assert(right_items[wr].0 as int == tr[j - tl.len()]);
            } else if j < tl.len() {
                assert(tp[i] == tl[i] && tp[j] == tl[j]);
            } else {
                assert(tp[i] == tr[i - tl.len()] && tp[j] == tr[j - tl.len()]);
            }
        }
    }
    root
}

/// Build a subtree by recursive spatial-median splits: the split value is
/// the midpoint of the current bounds on their widest axis (`low` plus half
/// the extent), and `partition_items` sends the items with centroid at or
/// below it left and the rest right. When the split is degenerate (one side
/// empty), the items are split in half by position instead, which keeps the
/// recursion shrinking.
fn generate_bvh_node_spatial_median(
    items: &Vec<BuildItem>,
    max: usize,
    arena: &mut Vec<BVHNode>,
    Ghost(bvs): Ghost<Seq<BoundingVolume>>,
) -> (root: usize)
    requires
        items@.len() >= 1,
        max >= 1,
        items_ok(items@, bvs),
        idxs_distinct(items@),
        links_ok(old(arena)@),
        arena_ok(old(arena)@, bvs),
    ensures
        built_subtree(old(arena)@, final(arena)@, bvs, items@, root as int),
    decreases items@.len(),
{
    if items.len() <= max {
        let root = make_leaf(items, arena, Ghost(bvs));
        proof {
            lemma_contains_of_idxs(items@);
            lemma_idxs_distinct_prims(items@);
        }
        return root;
    }
    let mut volumes: Vec<BoundingVolume> = Vec::new();
    let mut k: usize = 0;
    while k < items.len()
        invariant
            k <= items@.len(),
            items_ok(items@, bvs),
            volumes@.len() == k,
            forall|m: int| 0 <= m < k ==> (#[trigger] volumes@[m]) == items@[m].1,
        decreases items@.len() - k,
    {
        volumes.push(items[k].1);
        k += 1;
    }
    proof {
        assert forall|m: int| 0 <= m < volumes@.len() implies (#[trigger] volumes@[m]).wf() by {
            assert(volumes@[m] == items@[m].1);
        }
    }
    let bounds = BoundingVolume::from(&volumes);
    let axis = bounds.maximum_extent();
    let extent = bounds.diagonal();
    let low = item_axis(&bounds.min, axis);
    let width = if axis == 0 {
        extent.x
    } else if axis == 1 {
        extent.y
    } else {
        extent.z
    };
    let split = low + crate::math::div_floor(width, 2);
    let (smaller, larger) = partition_items(items, axis, split);
    let (left_items, right_items) = if smaller.len() == 0 || larger.len() == 0 {
        split_items_at(items, items.len() / 2)
    } else {
        (smaller, larger)
    };
    proof {
        lemma_items_ok_sub(items@, left_items@, bvs);
        lemma_items_ok_sub(items@, right_items@, bvs);
        assert(idxs_distinct(left_items@) && idxs_distinct(right_items@) && idxs_disjoint(
            left_items@,
            right_items@,
        ));
    }
    let li = generate_bvh_node_spatial_median(&left_items, max, arena, Ghost(bvs));
    let ghost mid_arena = arena@;
    let ri = generate_bvh_node_spatial_median(&right_items, max, arena, Ghost(bvs));
    proof {
        lemma_tree_prims_prefix(mid_arena, arena@, li as int);
    }
    let root = make_inner(
        li,
        ri,
        arena,
        Ghost(bvs),
        Ghost(left_items@),
        Ghost(right_items@),
    );
    proof {
        lemma_cover_transfer(items@, left_items@, right_items@, final_tree(arena@, root as int));
    }
    root
}

/// The subtree sequence, named for proof readability.
pub open spec fn final_tree(arena: Seq<BVHNode>, root: int) -> Seq<int> {
    tree_prims(arena, root)
}


/// Distinct item indices make the leaf's subtree listing duplicate-free.
proof fn lemma_idxs_distinct_prims(items: Seq<BuildItem>)
    requires
        idxs_distinct(items),
    ensures
        prims_distinct(items_idxs(items)),
{
    assert forall|i: int, j: int|
        0 <= i < j < items_idxs(items).len() implies #[trigger] items_idxs(items)[i]
        != #[trigger] items_idxs(items)[j] by {
        assert(items_idxs(items)[i] == items[i].0 as int);
        assert(items_idxs(items)[j] == items[j].0 as int);
    }
}

/// A leaf over `items` covers exactly the item indices.
proof fn lemma_contains_of_idxs(items: Seq<BuildItem>)
    ensures
        forall|k: int|
            0 <= k < items.len() ==> items_idxs(items).contains(#[trigger] items[k].0 as int),
{
    assert forall|k: int| 0 <= k < items.len() implies items_idxs(items).contains(
        #[trigger] items[k].0 as int,
    ) by {
        assert(items_idxs(items)[k] == items[k].0 as int);
    }
}

/// Items drawn from a list keep the table consistency.
proof fn lemma_items_ok_sub(items: Seq<BuildItem>, sub: Seq<BuildItem>, bvs: Seq<BoundingVolume>)
    requires
        items_ok(items, bvs),
        forall|k: int| 0 <= k < sub.len() ==> items.contains(#[trigger] sub[k]),
    ensures
        items_ok(sub, bvs),
{
    assert forall|k: int| 0 <= k < sub.len() implies (#[trigger] sub[k]).0 < bvs.len() && sub[k].1
        == bvs[sub[k].0 as int] && sub[k].1.wf() by {
        let w = choose|w: int| 0 <= w < items.len() && items[w] == sub[k];
        assert(items[w].0 < bvs.len() && items[w].1 == bvs[items[w].0 as int] && items[w].1.wf());
    }
}

/// Coverage of a subtree built over a two-way split of the items transfers
/// to the whole item list.
proof fn lemma_cover_transfer(
    items: Seq<BuildItem>,
    left_items: Seq<BuildItem>,
    right_items: Seq<BuildItem>,
    tp: Seq<int>,
)
    requires
        forall|k: int|
            0 <= k < tp.len() ==> items_idxs(left_items + right_items).contains(#[trigger] tp[k]),
        forall|k: int|
            0 <= k < left_items.len() + right_items.len() ==> tp.contains(
                #[trigger] (left_items + right_items)[k].0 as int,
            ),
        forall|k: int| 0 <= k < left_items.len() ==> items.contains(#[trigger] left_items[k]),
        forall|k: int| 0 <= k < right_items.len() ==> items.contains(#[trigger] right_items[k]),
        forall|k: int|
            0 <= k < items.len() ==> left_items.contains(#[trigger] items[k]) || right_items.contains(
                items[k],
            ),
    ensures
        forall|k: int| 0 <= k < tp.len() ==> items_idxs(items).contains(#[trigger] tp[k]),
        forall|k: int| 0 <= k < items.len() ==> tp.contains(#[trigger] items[k].0 as int),
{
    let all = left_items + right_items;
    assert forall|k: int| 0 <= k < tp.len() implies items_idxs(items).contains(
        #[trigger] tp[k],
    ) by {
        let w = choose|w: int| 0 <= w < items_idxs(all).len() && items_idxs(all)[w] == tp[k];
        assert(items_idxs(all)[w] == all[w].0 as int);
        if w < left_items.len() {
            assert(all[w] == left_items[w]);
            let v = choose|v: int| 0 <= v < items.len() && items[v] == left_items[w];
            assert(items_idxs(items)[v] == tp[k]);
        } else {
            assert(all[w] == right_items[w - left_items.len()]);
            let v = choose|v: int|
                0 <= v < items.len() && items[v] == right_items[w - left_items.len()];
            assert(items_idxs(items)[v] == tp[k]);
        }
    }
    assert forall|k: int| 0 <= k < items.len() implies tp.contains(
        #[trigger] items[k].0 as int,
    ) by {
        if left_items.contains(items[k]) {
            let w = choose|w: int| 0 <= w < left_items.len() && left_items[w] == items[k];
            assert(all[w] == left_items[w]);
            assert(tp.contains(all[w].0 as int));
        } else {
            let w = choose|w: int| 0 <= w < right_items.len() && right_items[w] == items[k];
            assert(all[w + left_items.len()] == right_items[w]);
            assert(tp.contains(all[w + left_items.len()].0 as int));
        }
    }
}

/// Sort the items by centroid coordinate on an axis, by repeatedly removing
/// a least element. The result holds exactly the same items, in
/// nondecreasing centroid order on the axis.
fn sort_items_by_axis(items: &Vec<BuildItem>, axis: usize) -> (r: Vec<BuildItem>)
    requires
        axis <= 2,
    ensures
        r@.len() == items@.len(),
        r@.to_multiset() == items@.to_multiset(),
        forall|k: int| 0 <= k < r@.len() ==> items@.contains(#[trigger] r@[k]),
        forall|k: int| 0 <= k < items@.len() ==> r@.contains(#[trigger] items@[k]),
        forall|i: int, j: int|
            0 <= i <= j < r@.len() ==> item_axis_spec((#[trigger] r@[i]).2, axis as int)
                <= item_axis_spec((#[trigger] r@[j]).2, axis as int),
        idxs_distinct(items@) ==> idxs_distinct(r@),
{
    let mut work: Vec<BuildItem> = Vec::new();
    let mut k: usize = 0;
    while k < items.len()
        invariant
            k <= items@.len(),
            work@ == items@.subrange(0, k as int),
        decreases items@.len() - k,
    {
        work.push(items[k]);
        proof {
            assert(work@ =~= items@.subrange(0, k as int + 1));
        }
        k += 1;
    }
    proof {
        assert(work@ =~= items@);
    }
    let mut out: Vec<BuildItem> = Vec::new();
    proof {
        out@.to_multiset_ensures();
        work@.to_multiset_ensures();
        assert(out@.to_multiset().add(work@.to_multiset()) =~= items@.to_multiset());
    }
    while work.len() > 0
        invariant
            axis <= 2,
            out@.to_multiset().add(work@.to_multiset()) =~= items@.to_multiset(),
            out@.len() + work@.len() == items@.len(),
            forall|i: int, j: int|
                0 <= i <= j < out@.len() ==> item_axis_spec((#[trigger] out@[i]).2, axis as int)
                    <= item_axis_spec((#[trigger] out@[j]).2, axis as int),
            forall|i: int, j: int|
                0 <= i < out@.len() && 0 <= j < work@.len() ==> item_axis_spec(
                    (#[trigger] out@[i]).2,
                    axis as int,
                ) <= item_axis_spec((#[trigger] work@[j]).2, axis as int),
        decreases work@.len(),
    {
        let mut mi: usize = 0;
        let mut j: usize = 1;
        while j < work.len()
            invariant
                axis <= 2,
                mi < work@.len(),
                j <= work@.len(),
                work@.len() >= 1,
                forall|p: int|
                    0 <= p < j ==> item_axis_spec((#[trigger] work@[mi as int]).2, axis as int)
                        <= item_axis_spec((#[trigger] work@[p]).2, axis as int),
            decreases work@.len() - j,
        {
            if item_axis(&work[j].2, axis) < item_axis(&work[mi].2, axis) {
                mi = j;
            }
            j += 1;
        }
        let ghost pre_work = work@;
        let ghost pre_out = out@;
        let picked = work.remove(mi);
        out.push(picked);
        proof {
            pre_out.to_multiset_ensures();
            pre_work.to_multiset_ensures();
            assert(out@ == pre_out.push(picked));
            assert(work@ == pre_work.remove(mi as int));
            assert(work@.to_multiset() =~= pre_work.to_multiset().remove(picked));
            assert(out@.to_multiset() =~= pre_out.to_multiset().insert(picked));
            assert(pre_work.to_multiset().count(picked) >= 1) by {
                assert(pre_work.contains(picked));
            }
            assert(out@.to_multiset().add(work@.to_multiset()) =~= items@.to_multiset());
            // The picked element is least among the remaining ones, so both
            // ordering invariants carry over.
            assert forall|p: int| 0 <= p < work@.len() implies item_axis_spec(
                picked.2,
                axis as int,
            ) <= item_axis_spec((#[trigger] work@[p]).2, axis as int) by {
                if p < mi {
                    assert(work@[p] == pre_work[p]);
                } else {
                    assert(work@[p] == pre_work[p + 1]);
                }
            }
        }
    }
    proof {
        assert(work@.to_multiset() =~= vstd::multiset::Multiset::<BuildItem>::empty()) by {
            work@.to_multiset_ensures();
        }
        assert(out@.to_multiset() =~= items@.to_multiset());
        out@.to_multiset_ensures();
        items@.to_multiset_ensures();
        assert forall|k: int| 0 <= k < out@.len() implies items@.contains(#[trigger] out@[k]) by {
            assert(out@.to_multiset().count(out@[k]) > 0);
        }
        assert forall|k: int| 0 <= k < items@.len() implies out@.contains(#[trigger] items@[k]) by {
            assert(items@.to_multiset().count(items@[k]) > 0);
        }
        if idxs_distinct(items@) {
            lemma_permutation_keeps_idxs_distinct(items@, out@);
        }
    }
    out
}

/// A permutation of a list with distinct indices has distinct indices.
proof fn lemma_permutation_keeps_idxs_distinct(items: Seq<BuildItem>, out: Seq<BuildItem>)
    requires
        idxs_distinct(items),
        out.to_multiset() == items.to_multiset(),
    ensures
        idxs_distinct(out),
{
    out.to_multiset_ensures();
    items.to_multiset_ensures();
    assert forall|i: int, j: int|
        0 <= i < j < out.len() implies (#[trigger] out[i]).0 != (#[trigger] out[j]).0 by {
        if out[i].0 == out[j].0 {
            if out[i] == out[j] {
                // The same tuple would have to occur twice, but its source
                // list holds every tuple at most once.
                assert(items.contains(out[i])) by {
                    assert(out.to_multiset().count(out[i]) > 0);
                }
                let w = choose|w: int| 0 <= w < items.len() && items[w] == out[i];
                lemma_distinct_counts(items, w);
                assert(out.to_multiset().count(out[i]) >= 2) by {
                    lemma_two_occurrences(out, i, j);
                }
                assert(false);
            } else {
                // Two different tuples with the same index would also have
                // to come from the source list, which gives each index to
                // one item only.
                assert(items.contains(out[i])) by {
                    assert(out.to_multiset().count(out[i]) > 0);
                }
                assert(items.contains(out[j])) by {
                    assert(out.to_multiset().count(out[j]) > 0);
                }
                let wi = choose|w: int| 0 <= w < items.len() && items[w] == out[i];
                let wj = choose|w: int| 0 <= w < items.len() && items[w] == out[j];
                assert(wi != wj);
                assert(items[wi].0 != items[wj].0);
                assert(false);
            }
        }
    }
}

/// A list with distinct indices holds the tuple at `w` exactly once.
proof fn lemma_distinct_counts(items: Seq<BuildItem>, w: int)
    requires
        idxs_distinct(items),
        0 <= w < items.len(),
    ensures
        items.to_multiset().count(items[w]) == 1,
    decreases items.len(),
{
    items.to_multiset_ensures();
    let x = items[w];
    let rest = items.remove(w);
    rest.to_multiset_ensures();
    assert(items.to_multiset().count(x) == rest.to_multiset().count(x) + 1) by {
        assert(rest.to_multiset() =~= items.to_multiset().remove(x));
    }
    assert(rest.to_multiset().count(x) == 0) by {
        if rest.contains(x) {
            let v = choose|v: int| 0 <= v < rest.len() && rest[v] == x;
            if v < w {
                assert(items[v] == x);
                assert(items[v].0 != items[w].0);
            } else {
                assert(items[v + 1] == x);
                assert(items[w].0 != items[v + 1].0);
            }
            assert(false);
        }
        assert(!rest.contains(x));
    }
}

/// A tuple sitting at two positions occurs at least twice in the multiset.
proof fn lemma_two_occurrences(s: Seq<BuildItem>, i: int, j: int)
    requires
        0 <= i < j < s.len(),
        s[i] == s[j],
    ensures
        s.to_multiset().count(s[i]) >= 2,
{
    s.to_multiset_ensures();
    let rest = s.remove(i);
    rest.to_multiset_ensures();
    assert(rest.to_multiset() =~= s.to_multiset().remove(s[i]));
    assert(rest[j - 1] == s[j]);
    assert(rest.contains(s[i]));
    assert(rest.to_multiset().count(s[i]) > 0);
}

/// Sort the items on an axis and split them at the middle position./// Sort the items on an axis and split them at the middle position: the
/// halves are a median split, so every centroid coordinate on the axis in
/// the lower half is at most every one in the upper half.
fn split_by_axis(items: &Vec<BuildItem>, axis: usize) -> (r: (Vec<BuildItem>, Vec<BuildItem>))
    requires
        axis <= 2,
        items@.len() >= 2,
        idxs_distinct(items@),
    ensures
        r.0@.len() == items@.len() / 2,
        r.0@.len() + r.1@.len() == items@.len(),
        r.0@.len() >= 1,
        r.1@.len() >= 1,
        forall|k: int| 0 <= k < r.0@.len() ==> items@.contains(#[trigger] r.0@[k]),
        forall|k: int| 0 <= k < r.1@.len() ==> items@.contains(#[trigger] r.1@[k]),
        forall|k: int|
            0 <= k < items@.len() ==> r.0@.contains(#[trigger] items@[k]) || r.1@.contains(
                items@[k],
            ),
        forall|i: int, j: int|
            0 <= i < r.0@.len() && 0 <= j < r.1@.len() ==> item_axis_spec(
                (#[trigger] r.0@[i]).2,
                axis as int,
            ) <= item_axis_spec((#[trigger] r.1@[j]).2, axis as int),
        idxs_distinct(r.0@),
        idxs_distinct(r.1@),
        idxs_disjoint(r.0@, r.1@),
{
    let sorted = sort_items_by_axis(items, axis);
    let n = sorted.len() / 2;
    let (a, b) = split_items_at(&sorted, n);
    proof {
        assert forall|i: int, j: int|
            0 <= i < a@.len() && 0 <= j < b@.len() implies item_axis_spec(
            (#[trigger] a@[i]).2,
            axis as int,
        ) <= item_axis_spec((#[trigger] b@[j]).2, axis as int) by {
            assert(a@[i] == sorted@[i] && b@[j] == sorted@[j + n]);
        }
    }
    proof {
        assert forall|k: int| 0 <= k < a@.len() implies items@.contains(#[trigger] a@[k]) by {
            let w = choose|w: int| 0 <= w < sorted@.len() && sorted@[w] == a@[k];
        }
        assert forall|k: int| 0 <= k < b@.len() implies items@.contains(#[trigger] b@[k]) by {
            let w = choose|w: int| 0 <= w < sorted@.len() && sorted@[w] == b@[k];
        }
        assert forall|k: int| 0 <= k < items@.len() implies a@.contains(#[trigger] items@[k])
            || b@.contains(items@[k]) by {
            let w = choose|w: int| 0 <= w < sorted@.len() && sorted@[w] == items@[k];
            assert(a@.contains(sorted@[w]) || b@.contains(sorted@[w]));
        }
    }
    (a, b)
}

/// The balance figure of a split: how far the half sizes are from equal, in
/// fixed point.
fn split_ratio(left_len: usize, right_len: usize) -> (r: i64)
    requires
        1 <= left_len < 0x1_0000_0000,
        1 <= right_len < 0x1_0000_0000,
    ensures
        r >= 0,
{
    proof {
        crate::math::lemma_mul_magnitude(
            left_len as int,
            SCALE as int,
            0x1_0000_0000,
            SCALE as int,
        );
        crate::math::lemma_floor_div_quotient_bound(
            (left_len as int) * (SCALE as int),
            right_len as int,
            0x1_0000_0000_0000,
        );
        crate::math::lemma_floor_div_nonneg(
            (left_len as int) * (SCALE as int),
            right_len as int,
        );
    }
    let q = crate::math::div_floor_i128(
        (left_len as i128) * (SCALE as i128),
        right_len as i128,
    ) as i64;
    let d = SCALE - q;
    if d < 0 {
        -d
    } else {
        d
    }
}

/// Build a subtree by recursive object-median splits: the items are sorted
/// by centroid on a tried axis and cut at the middle position, and the most
/// balanced tried split (smallest `split_ratio`) is kept. Only the x and y
/// axes are tried, never z; with both halves cut at the same middle
/// position their balance figures are equal, so the strict comparison keeps
/// the x split. Every recursive call strictly halves the item count, so
/// this strategy needs no degeneracy guard.
fn generate_bvh_node_object_median(
    items: &Vec<BuildItem>,
    max: usize,
    arena: &mut Vec<BVHNode>,
    Ghost(bvs): Ghost<Seq<BoundingVolume>>,
) -> (root: usize)
    requires
        items@.len() >= 1,
        max >= 1,
        items@.len() < 0x1_0000_0000,
        items_ok(items@, bvs),
        idxs_distinct(items@),
        links_ok(old(arena)@),
        arena_ok(old(arena)@, bvs),
    ensures
        built_subtree(old(arena)@, final(arena)@, bvs, items@, root as int),
    decreases items@.len(),
{
    if items.len() <= max {
        let root = make_leaf(items, arena, Ghost(bvs));
        proof {
            lemma_contains_of_idxs(items@);
            lemma_idxs_distinct_prims(items@);
        }
        return root;
    }
    let mut best_split = split_by_axis(items, 0);
    let mut best_ratio = split_ratio(best_split.0.len(), best_split.1.len());
    let mut i: usize = 1;
    while i < 2
        invariant
            items@.len() >= 2,
            items@.len() < 0x1_0000_0000,
            best_split.0@.len() >= 1,
            best_split.1@.len() >= 1,
            best_split.0@.len() + best_split.1@.len() == items@.len(),
            forall|k: int|
                0 <= k < best_split.0@.len() ==> items@.contains(#[trigger] best_split.0@[k]),
            forall|k: int|
                0 <= k < best_split.1@.len() ==> items@.contains(#[trigger] best_split.1@[k]),
            forall|k: int|
                0 <= k < items@.len() ==> best_split.0@.contains(#[trigger] items@[k])
                    || best_split.1@.contains(items@[k]),
            idxs_distinct(items@),
            idxs_distinct(best_split.0@),
            idxs_distinct(best_split.1@),
            idxs_disjoint(best_split.0@, best_split.1@),
        decreases 2 - i,
    {
        let tmp_split = split_by_axis(items, i);
        let ratio = split_ratio(tmp_split.0.len(), tmp_split.1.len());
        if ratio < best_ratio {
            best_ratio = ratio;
            best_split = tmp_split;
        }
        i += 1;
    }
    let (left_items, right_items) = best_split;
    proof {
        lemma_items_ok_sub(items@, left_items@, bvs);
        lemma_items_ok_sub(items@, right_items@, bvs);
    }
    let li = generate_bvh_node_object_median(&left_items, max, arena, Ghost(bvs));
    let ghost mid_arena = arena@;
    let ri = generate_bvh_node_object_median(&right_items, max, arena, Ghost(bvs));
    proof {
        lemma_tree_prims_prefix(mid_arena, arena@, li as int);
    }
    let root = make_inner(
        li,
        ri,
        arena,
        Ghost(bvs),
        Ghost(left_items@),
        Ghost(right_items@),
    );
    proof {
        lemma_cover_transfer(items@, left_items@, right_items@, final_tree(arena@, root as int));
    }
    root
}

/// The bounding boxes of a primitive table.
pub open spec fn prims_bvs(prims: Seq<crate::primitive::Primitive>) -> Seq<BoundingVolume> {
    prims.map_values(|p: crate::primitive::Primitive| p.spec_bounding_volume())
}

/// Build a hierarchy over a primitive table with the chosen strategy: the
/// object-median split with a leaf threshold of 3, or the spatial-median
/// split with a leaf threshold of 19.
pub fn generate_bvh(prims: &Vec<crate::primitive::Primitive>, use_object_median: bool) -> (r: Bvh)
    requires
        prims@.len() >= 1,
        prims@.len() < 0x1_0000_0000,
        forall|k: int| 0 <= k < prims@.len() ==> (#[trigger] prims@[k]).wf(),
    ensures
        r.wf(prims_bvs(prims@)),
{
    let mut items: Vec<BuildItem> = Vec::new();
    let mut k: usize = 0;
    while k < prims.len()
        invariant
            k <= prims@.len(),
            forall|m: int| 0 <= m < prims@.len() ==> (#[trigger] prims@[m]).wf(),
            items@.len() == k,
            forall|m: int|
                0 <= m < k ==> (#[trigger] items@[m]).0 == m && items@[m].1 == prims@[m].spec_bounding_volume(),
        decreases prims@.len() - k,
    {
        let p = &prims[k];
        items.push((k, p.get_bounding_volume(), p.get_position()));
        k += 1;
    }
    proof {
        assert forall|m: int| 0 <= m < items@.len() implies (#[trigger] items@[m]).0
            < prims_bvs(prims@).len() && items@[m].1 == prims_bvs(prims@)[items@[m].0 as int]
            && items@[m].1.wf() by {
            assert(items@[m].1 == prims@[m].spec_bounding_volume());
        }
        assert(idxs_distinct(items@));
    }
    let mut arena: Vec<BVHNode> = Vec::new();
    let root = if use_object_median {
        generate_bvh_node_object_median(&items, 3, &mut arena, Ghost(prims_bvs(prims@)))
    } else {
        generate_bvh_node_spatial_median(&items, 19, &mut arena, Ghost(prims_bvs(prims@)))
    };
    let r = Bvh { nodes: arena, root };
    proof {
        let bvs = prims_bvs(prims@);
        let tp = tree_prims(r.nodes@, r.root as int);
        lemma_tree_prims_ok(r.nodes@, bvs, r.root as int);
        assert forall|p: int| 0 <= p < bvs.len() implies tp.contains(p) by {
            assert(items@[p].0 as int == p);
            assert(tp.contains(items@[p].0 as int));
        }
    }
    r
}

} // verus!
