//! A Monte-Carlo ray tracer over fixed-point coordinates.
//!
//! Geometry is carried in signed 16.16 fixed-point integers, so every
//! computation in the bounding-volume hierarchy, the ray-primitive
//! intersection routines, the path-tracing integrator and the tile scheduler
//! has an exact arithmetic meaning that the contracts can pin down.

pub mod bounds;
pub mod bounds3;
pub mod bvh;
pub mod camera;
pub mod cli;
pub mod film;
pub mod material;
pub mod math;
pub mod mesh;
pub mod normal3;
pub mod objects;
pub mod output;
pub mod point;
pub mod primitive;
pub mod prng;
pub mod ray;
pub mod rtcore;
pub mod scene;
pub mod scenes;
pub mod stl;
pub mod utils;
pub mod vector;
pub mod vector2;
