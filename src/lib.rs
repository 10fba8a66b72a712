//! The CPU-side tiling core of a 2D vector renderer.
//!
//! Geometry enters the library in 4.8 fixed point: every coordinate is a
//! count of 1/256ths of a pixel, rounded down. The library scan-converts
//! monotone segments against a 16x16 pixel tile grid, packs fill records,
//! allocates alpha tiles, culls alpha tiles hidden under opaque solid tiles
//! and emits the resulting render commands.
//!
//! - `geometry`: tile coordinates, tile and fixed-point rectangles, segments.
//! - `tile_map`: a dense row-major array over a rectangle of tiles.
//! - `fill`: the packed fill record and its encoding.
//! - `built_object`: one path's tiles, fills and alpha-tile allocation.
//! - `tiles`: scan conversion of one path.
//! - `z_buffer`: opaque coverage per tile, culling and solid tiles.
//! - `scene`: paths, deduplicated paints, bounds and view box.
//! - `builder`: render commands, listeners and the build of a frame.
//! - `manager`: the frame-to-frame caching decisions.

pub mod builder;
pub mod built_object;
pub mod fill;
pub mod geometry;
pub mod manager;
pub mod scene;
pub mod tile_map;
pub mod tiles;
pub mod z_buffer;
