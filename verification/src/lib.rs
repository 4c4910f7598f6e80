//! A small ray-tracing library: a pinhole camera casts one ray per pixel into
//! a scene holding a single sphere under a gradient sky, colors are summed
//! into an accumulation buffer over repeated full-frame iterations, and the
//! averaged result is exported as RGBA bytes.
//!
//! All geometry and color arithmetic is exact fixed-point arithmetic over
//! scaled 64-bit integers (see [`fixed`]), so every stage of the pipeline is
//! specified and verified: camera ray generation, the shading rule, the
//! chunked accumulation pass, averaging, and byte export.
pub mod fixed;
pub mod raytracer;
pub mod vec3;
