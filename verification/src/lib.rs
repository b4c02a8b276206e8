//! A ray caster on an integer grid.
//!
//! The library finds what a ray hits first in a scene of spheres, squares
//! and triangle meshes under nested transforms, with a bounding-volume
//! hierarchy over the triangles of every mesh, and computes the light that
//! falls on the point straight from the lights of the scene. Coordinates
//! are fixed-point numbers and ray parameters exact fractions, so that
//! every decision is the decision on the true values; where a result must
//! be rounded, the contract says how.

pub mod arith;
pub mod bounding_box;
pub mod box_laws;
pub mod bvh;
pub mod bvh_laws;
pub mod cramer;
pub mod geometry;
pub mod geometry_laws;
pub mod light;
pub mod mesh;
pub mod optics;
pub mod sampling;
pub mod scene;
pub mod scene_laws;
pub mod shading;
pub mod texture;
pub mod transport;
pub mod transform;
pub mod vector;
