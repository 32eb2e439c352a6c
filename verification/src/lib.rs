//! A verified tile-grid editing engine and occlusion-visibility cache.
//!
//! The crate has two algorithmic cores:
//!
//! * a tile-map editing engine: compact tile-definition handles, sparse
//!   integer-keyed grids, polymorphic tile sources (single, random,
//!   repeating, stamps), and an update/diff engine that rasterizes drawing
//!   gestures (lines, flood fills, rectangle fills, nine-slice stamps) into
//!   sparse change sets that can be applied and undone by value swapping;
//! * a visibility cache: a spatially hashed, per-observer record of
//!   occlusion-query results with a monotonic tri-state state machine and
//!   distance-based eviction.

pub mod geom;
pub mod grid_map;
pub mod handle;
pub mod transform;
pub mod rect;
pub mod source;
pub mod update;
pub mod tile_set;
pub mod visibility;
pub mod brush;
pub mod collider;
