//! Converts a spatially indexed vector dataset (buildings, roads) into
//! voxel-world region files: an in-memory store of projected features answers
//! tile-membership queries, matched ways are turned into drawable paths, the
//! resulting raster is quantized into a small material palette, and each
//! chunk's palette indices are packed into a bit-dense block-state encoding.
//!
//! Projected coordinates are carried as fixed-point integers (`SUBPIXEL`
//! units per pixel); the floating-point map projection and the rasterization
//! engine live outside this crate and hand values in and out at its edges.
use vstd::prelude::*;

pub mod blockstate;
pub mod chunk;
pub mod coord;
pub mod geometry;
pub mod progress;
pub mod quantize;
pub mod region;
pub mod render;
pub mod store;

verus! {

/// Side length of one region's raster in pixels (32 chunks of 16 blocks).
pub const REGION_BLOCK_SIZE: u32 = 512;

} // verus!
