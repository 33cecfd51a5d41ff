//! Triangle meshes: a bundle of triangles sharing one material, translated
//! to a world position.

use vstd::prelude::*;

use crate::material::Material;
use crate::objects::triangle::{spec_cross_of_edges, vertex_bounded, Triangle};
use crate::point::Point3;

verus! {

pub struct Mesh {
    pub center: Point3,
    pub triangles: Vec<Triangle>,
}

/// A triangle that can be moved by `offset` and stay well formed.
pub open spec fn translatable(t: Triangle, offset: Point3) -> bool {
    &&& t.wf()
    &&& vertex_bounded(t.points[0].add_spec(offset.as_vec()))
    &&& vertex_bounded(t.points[1].add_spec(offset.as_vec()))
    &&& vertex_bounded(t.points[2].add_spec(offset.as_vec()))
    &&& !(spec_cross_of_edges(
        t.points[0].add_spec(offset.as_vec()),
        t.points[1].add_spec(offset.as_vec()),
        t.points[2].add_spec(offset.as_vec()),
    ) == (0int, 0int, 0int))
}

impl Mesh {
    /// Move every triangle by the mesh center and give each the shared
    /// material.
    pub fn new(center: Point3, triangles: Vec<Triangle>, material: &Material) -> (r: Mesh)
        requires
            center.wf(),
            -0x10_0000 <= center.x <= 0x10_0000,
            -0x10_0000 <= center.y <= 0x10_0000,
            -0x10_0000 <= center.z <= 0x10_0000,
            material.wf(),
            forall|k: int|
                0 <= k < triangles@.len() ==> translatable(#[trigger] triangles@[k], center),
        ensures
            r.center == center,
            r.triangles@.len() == triangles@.len(),
            forall|k: int|
                0 <= k < r.triangles@.len() ==> (#[trigger] r.triangles@[k]).wf()
                    && r.triangles@[k].material == Some(*material) && r.triangles@[k].points[0]
                    == triangles@[k].points[0].add_spec(center.as_vec()) && r.triangles@[k].points[1]
                    == triangles@[k].points[1].add_spec(center.as_vec()) && r.triangles@[k].points[2]
                    == triangles@[k].points[2].add_spec(center.as_vec()),
    {
        let offset = center.as_Vector3();
        let mut out: Vec<Triangle> = Vec::new();
        let mut k: usize = 0;
        while k < triangles.len()
            invariant
                k <= triangles@.len(),
                center.wf(),
                -0x10_0000 <= center.x <= 0x10_0000,
                -0x10_0000 <= center.y <= 0x10_0000,
                -0x10_0000 <= center.z <= 0x10_0000,
                offset.x == center.x && offset.y == center.y && offset.z == center.z,
                material.wf(),
                forall|m: int|
                    0 <= m < triangles@.len() ==> translatable(#[trigger] triangles@[m], center),
                out@.len() == k,
                forall|m: int|
                    0 <= m < k ==> (#[trigger] out@[m]).wf() && out@[m].material == Some(*material)
                        && out@[m].points[0] == triangles@[m].points[0].add_spec(center.as_vec())
                        && out@[m].points[1] == triangles@[m].points[1].add_spec(center.as_vec())
                        && out@[m].points[2] == triangles@[m].points[2].add_spec(center.as_vec()),
            decreases triangles@.len() - k,
        {
            proof {
                assert(translatable(triangles@[k as int], center));
                assert(center.as_vec() == offset);
            }
            let mut translated = triangles[k].translate(&offset);
            translated.set_material(material);
            out.push(translated);
            k += 1;
        }
        Mesh { center, triangles: out }
    }

    /// Copies of the mesh triangles.
    pub fn get_triangles(&self) -> (r: Vec<Triangle>)
        ensures
            r@ == self.triangles@,
    {
        let mut out: Vec<Triangle> = Vec::new();
        let mut k: usize = 0;
        while k < self.triangles.len()
            invariant
                k <= self.triangles@.len(),
                out@ == self.triangles@.subrange(0, k as int),
            decreases self.triangles@.len() - k,
        {
            out.push(self.triangles[k]);
            proof {
                assert(out@ =~= self.triangles@.subrange(0, k as int + 1));
            }
            k += 1;
        }
        proof {
            assert(out@ =~= self.triangles@);
        }
        out
    }
}

} // verus!
