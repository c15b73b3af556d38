//! Verified building blocks of a stochastic ray tracer: the random source,
//! Perlin lattice permutations, raster sampling for image textures and the
//! shape of a bounding volume hierarchy.

pub mod bvh;
pub mod image;
pub mod perlin;
pub mod random;

