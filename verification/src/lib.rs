//! Voxel chunk encoding and per-frame resource preparation for a compute
//! pass that lights sparse 64x64x64 voxel volumes.

use vstd::prelude::*;

pub mod attributes;
pub mod cache;
pub mod chunk;
pub mod decode;
pub mod direct_pass;
pub mod error;
pub mod extremes;
pub mod frame;
pub mod gpu_chunk;
pub mod occupancy;
pub mod order;
pub mod sun;
pub mod wire;

verus! {

/// Edge length of a chunk, in voxels.
pub const CHUNK_EDGE: usize = 64;

/// Number of voxel cells in a chunk: 64 * 64 * 64.
pub const CHUNK_VOXEL_COUNT: usize = 262144;

/// Number of 32-bit words in a chunk's occupancy bitmask: one per 32
/// cells.
pub const OCCUPANCY_WORDS: usize = 8192;

/// Upper bound on the chunk instances bound to one compute dispatch. The
/// binding arrays of the shader interface are sized by it.
pub const MAX_CHUNKS: usize = 64;

} // verus!
