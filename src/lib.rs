//! The integer side of a progressive Monte Carlo ray tracer: the shape of the
//! bounding-volume hierarchy, Perlin lattice hashing, image texels, display
//! pixel packing, progressive frame accumulation, the frame counter and the
//! interpretation of control keys.
pub mod image;
pub mod permutation;
mod random;
pub mod bvh;
pub mod perlin;
pub mod input;
pub mod fps_counter;
pub mod display;
pub mod texture;
