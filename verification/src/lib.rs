//! Decision logic of a sphere ray tracer, and the pixel surfaces it draws on.
//!
//! Single-precision quantities are carried as their IEEE-754 bit patterns
//! ([`scalar::Scalar`]), so that every comparison the tracer makes is an
//! integer computation with a proved meaning. Arithmetic on such values is
//! left to the caller.
pub mod lights;
pub mod objects;
pub mod pixel;
pub mod properties;
pub mod rasterizer;
pub mod ray_tracer;
pub mod scalar;
pub mod scene;
pub mod serialization_defs;
pub mod state;
pub mod surface;
