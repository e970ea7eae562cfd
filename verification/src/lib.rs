//! A tile-based 2D vector rasterizer with a tile cache and texture atlas.
//!
//! Path geometry, given as straight-line commands in 26.6 fixed-point device
//! coordinates, is scan-converted into per-8x8-tile coverage: horizontal runs
//! of fully covered tiles and antialiased masks for partially covered tiles.
//! Mask tiles are bump-allocated into fixed-capacity atlas pages and their
//! bytes batched for upload; rasterization results are memoized by shape
//! identity (glyph id plus quantized subpixel offset, or rounded-corner
//! parameters). A scene accumulator turns cached tiles into colored vertex
//! quads. A pool timeline models deferred destruction of resources that the
//! device may still be reading.

use vstd::prelude::*;

pub mod atlas;
pub mod cache;
pub mod canvas;
pub mod descriptor;
pub mod fxp;
pub mod layout;
pub mod num;
pub mod raster;
pub mod scene;
pub mod sort;
pub mod sweep;
pub mod timeline;
pub mod typo;

verus! {

/// Width and height, in pixels, of one coverage tile.
pub const TILE_SIZE: usize = 8;

} // verus!
