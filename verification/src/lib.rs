//! A terminal renderer for a rotating 3-D torus.
//!
//! All geometry is carried in fixed-point integers (`FP` units per 1.0), so
//! every stage of the pipeline — mesh generation, rigid rotation, perspective
//! projection with painter's-algorithm occlusion, and luminance-to-glyph
//! mapping — has an exact arithmetic contract.  Trigonometric values enter the
//! library as precomputed fixed-point sine/cosine pairs; 3×3 matrix application
//! and dot products are delegated to `nalgebra` over integer scalars.

pub mod fixed;
pub mod vec3;
pub mod mesh;
pub mod transform;
pub mod render;
