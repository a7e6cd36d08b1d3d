//! Quadtree winding-number annotation for vector drawings.
//!
//! A drawing's paths are broken into monotonic abstract segments (lines
//! kept whole, quadratic curves split at extrema, cubic curves split at
//! extrema and inflection points), the drawing region is recursively
//! partitioned into a quadtree, and every leaf region is labeled with a
//! winding number derived incrementally from its parent's value and
//! locally counted boundary crossings.

pub mod geometry;
pub mod primitives;
pub mod segment;
pub mod tree;
pub mod annotate;
