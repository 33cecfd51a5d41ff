//! Surface normals as their own vector kind.

use vstd::prelude::*;

use crate::math::sq;
use crate::vector::{spec_dot, Vector3};

verus! {

#[derive(Clone, Copy, PartialEq, Eq, Structural, Debug)]
pub struct Normal3 {
    pub x: i64,
    pub y: i64,
    pub z: i64,
}

impl Normal3 {
    pub fn new(x: i64, y: i64, z: i64) -> (r: Self)
        ensures
            r == (Normal3 { x, y, z }),
    {
        Normal3 { x, y, z }
    }

    /// The normal read as a plain vector.
    pub fn as_Vector3(&self) -> (r: Vector3)
        ensures
            r.x == self.x,
            r.y == self.y,
            r.z == self.z,
    {
        Vector3 { x: self.x, y: self.y, z: self.z }
    }

    pub fn length_squared(&self) -> (r: i64)
        requires
            self.as_vec_spec().op_bounded(),
        ensures
            r == spec_dot(self.as_vec_spec(), self.as_vec_spec()),
            r >= 0,
    {
        self.as_Vector3().length_squared()
    }

    pub fn length(&self) -> (r: i64)
        requires
            self.as_vec_spec().op_bounded(),
        ensures
            r >= 0,
            sq(r as int) <= spec_dot(self.as_vec_spec(), self.as_vec_spec()),
            spec_dot(self.as_vec_spec(), self.as_vec_spec()) < sq(r as int + 1),
    {
        self.as_Vector3().length()
    }

    /// The plain-vector view, for contracts.
    pub open spec fn as_vec_spec(self) -> Vector3 {
        Vector3 { x: self.x, y: self.y, z: self.z }
    }

    pub fn normalize(&self) -> (r: Normal3)
        requires
            self.as_vec_spec().op_bounded(),
            !(self.x == 0 && self.y == 0 && self.z == 0),
        ensures
            ({
                let v = self.as_vec_spec().spec_normalize();
                r.x == v.x && r.y == v.y && r.z == v.z
            }),
    {
        let v = self.as_Vector3().normalize();
        Normal3 { x: v.x, y: v.y, z: v.z }
    }

    /// The normal, flipped when it points away from `vec`.
    pub fn face_forward(&self, vec: &Vector3) -> (r: Normal3)
        requires
            self.as_vec_spec().op_bounded(),
            vec.op_bounded(),
            self.x > i64::MIN,
            self.y > i64::MIN,
            self.z > i64::MIN,
        ensures
            spec_dot(*vec, self.as_vec_spec()) < 0 ==> r == (Normal3 {
                x: (-self.x) as i64,
                y: (-self.y) as i64,
                z: (-self.z) as i64,
            }),
            spec_dot(*vec, self.as_vec_spec()) >= 0 ==> r == *self,
    {
        let d = vec.dot(&self.as_Vector3());
        if d < 0 {
            Normal3 { x: -self.x, y: -self.y, z: -self.z }
        } else {
            *self
        }
    }

    /// Fixed-point values are always finite, so there is never a NaN.
    pub fn has_nans(&self) -> (r: bool)
        ensures
            r == false,
    {
        false
    }
}

} // verus!
