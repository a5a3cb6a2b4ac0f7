//! A landscape model: a deterministic fixed-point gradient-noise heightfield
//! drives a quadtree-subdivided terrain mesh with scattered ground cover and
//! a camera that stays glued to the ground.

pub mod camera;
pub mod entropy;
pub mod fixed;
pub mod heightmap;
pub mod terrain;
