//! A small offline ray tracer over fixed-point coordinates.
//!
//! The tracer computes a raster image from a camera and a list of
//! geometric primitives (spheres and planes): one ray per pixel, a
//! closest-hit search per ray, Lambertian shading with hard shadows,
//! and bounded recursive mirror reflection.
//!
//! All scalars are fixed-point numbers: an `i128` holding the real
//! value times 65536.  Every arithmetic step is specified exactly over
//! mathematical integers, so each public function's contract pins down
//! the precise pixel values produced.

pub mod fixed;
pub mod vec3;
pub mod objects;
pub mod camera;
pub mod laws;
