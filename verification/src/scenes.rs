//! Scene-building helpers.

use vstd::prelude::*;

use crate::objects::triangle::{spec_cross_of_edges, vertex_bounded, Triangle};
use crate::vector::Vector3;

verus! {

/// Cut a quadrilateral, given as four corners, into two triangles.
pub fn triangulate_square(points: &Vec<Vector3>) -> (r: Vec<Triangle>)
    requires
        points@.len() == 4,
        forall|k: int| 0 <= k < 4 ==> vertex_bounded(#[trigger] points@[k]),
        !(spec_cross_of_edges(points@[0], points@[1], points@[2]) == (0int, 0int, 0int)),
        !(spec_cross_of_edges(points@[0], points@[2], points@[3]) == (0int, 0int, 0int)),
    ensures
        r@.len() == 2,
        forall|k: int| 0 <= k < 2 ==> (#[trigger] r@[k]).wf(),
        r@[0].points[0] == points@[0] && r@[0].points[1] == points@[1] && r@[0].points[2]
            == points@[2],
        r@[1].points[0] == points@[0] && r@[1].points[1] == points@[2] && r@[1].points[2]
            == points@[3],
{
    let mut tris: Vec<Triangle> = Vec::new();
    tris.push(Triangle::new(points[0], points[1], points[2]));
    tris.push(Triangle::new(points[0], points[2], points[3]));
    proof {
        assert(tris@[0].wf() && tris@[1].wf());
        assert(forall|k: int| 0 <= k < 2 ==> (#[trigger] tris@[k]).wf());
    }
    tris
}

} // verus!
