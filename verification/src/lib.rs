//! Mouse-ray picking for a small 3D scene, on an integer lattice.
//!
//! Every coordinate is a whole number of ticks, every rotation a quaternion with
//! integer components, and every comparison is made on exact products: whether a
//! ray hits a box is decided without rounding. What is handed out is rounded to the
//! tick. A bounding box is rounded outward, by less than one tick on each side, and
//! a distance is rounded down, by less than one tick.
//!
//! - [`scene`] holds the entities and the passes over them: the refresh of the
//!   bounding boxes, the picking pass that sets the hover flags, and the list of
//!   outlines to draw.
//! - [`bounds`] computes the bounding box of a placed shape, [`ray`] tests a ray
//!   against a bounding box, and [`camera`] turns a cursor position into a ray.
//! - [`bounds_laws`], [`ray_laws`] and [`rotation_laws`] state and prove what holds
//!   of these for every input.
//! - [`setup`] lays out the scene at startup and [`texture`] makes its test pattern.

pub mod bounds;
pub mod bounds_laws;
pub mod camera;
pub mod ray;
pub mod ray_laws;
pub mod rotation;
pub mod rotation_laws;
pub mod scene;
pub mod setup;
pub mod shape;
pub mod state;
pub mod texture;
pub mod transform;
pub mod vector;
