//! The sparse voxel grid and its cells.

use vstd::prelude::*;
use crate::{CHUNK_EDGE, CHUNK_VOXEL_COUNT};

verus! {

/// Three single-precision components, each carried as its IEEE-754 bit
/// pattern. The encoder only moves these values, it never does arithmetic
/// on them, so the bit pattern is all it needs.
#[derive(Clone, Copy, Debug, PartialEq, Eq, Structural)]
pub struct Vec3Bits {
    pub x: u32,
    pub y: u32,
    pub z: u32,
}

/// Shading data of one occupied voxel.
#[derive(Clone, Copy, Debug, PartialEq, Eq, Structural)]
pub struct FullVoxel {
    pub normal: Vec3Bits,
    pub color: Vec3Bits,
}

/// A chunk of voxels. Cell `i` sits at `(x, y, z)` with
/// `i == x + 64 * y + 4096 * z`.
#[derive(Clone, Debug)]
pub enum Chunk {
    Full { data: Vec<Option<FullVoxel>> },
}

impl View for Chunk {
    type V = Seq<Option<FullVoxel>>;

    open spec fn view(&self) -> Seq<Option<FullVoxel>> {
        match *self {
            Chunk::Full { data } => data@,
        }
    }
}

/// Index of the cell at `(x, y, z)`: `x` varies fastest, then `y`, then `z`.
pub open spec fn cell_index(x: int, y: int, z: int) -> int {
    x + 64 * y + 4096 * z
}

/// The `x` coordinate of cell `i`.
pub open spec fn cell_x(i: int) -> int {
    i % 64
}

/// The `y` coordinate of cell `i`.
pub open spec fn cell_y(i: int) -> int {
    (i / 64) % 64
}

/// The `z` coordinate of cell `i`.
pub open spec fn cell_z(i: int) -> int {
    i / 4096
}

/// Whether the voxel at `(x, y, z)` lies in the ball of radius 32 around
/// `(32, 32, 32)`, boundary included. With the chunk scaled to the cube
/// from -1 to 1 this is the unit ball around the origin.
pub open spec fn in_debug_sphere(x: int, y: int, z: int) -> bool {
    (x - 32) * (x - 32) + (y - 32) * (y - 32) + (z - 32) * (z - 32) <= 1024
}

/// The grid that keeps `shading[i]` in the cells inside the debug sphere
/// and leaves the others empty.
pub open spec fn debug_sphere_cells(shading: Seq<FullVoxel>) -> Seq<Option<FullVoxel>> {
    Seq::new(
        CHUNK_VOXEL_COUNT as nat,
        |i: int|
            if in_debug_sphere(cell_x(i), cell_y(i), cell_z(i)) {
                Some(shading[i])
            } else {
                None
            },
    )
}

/// Cell indices and coordinates determine each other.
pub proof fn lemma_cell_coordinates(x: int, y: int, z: int)
    requires
        0 <= x < 64,
        0 <= y < 64,
        0 <= z < 64,
    ensures
        0 <= cell_index(x, y, z) < CHUNK_VOXEL_COUNT,
        cell_x(cell_index(x, y, z)) == x,
        cell_y(cell_index(x, y, z)) == y,
        cell_z(cell_index(x, y, z)) == z,
{
}

/// Tells whether the voxel at `(x, y, z)` lies in the debug sphere.
pub fn debug_sphere_contains(x: usize, y: usize, z: usize) -> (inside: bool)
    ensures
        inside == in_debug_sphere(x as int, y as int, z as int),
{
    if x > CHUNK_EDGE || y > CHUNK_EDGE || z > CHUNK_EDGE {
        proof {
            lemma_far_from_sphere(x as int, y as int, z as int);
        }
        return false;
    }
    let dx: i64 = x as i64 - 32;
    let dy: i64 = y as i64 - 32;
    let dz: i64 = z as i64 - 32;
    assert(0 <= dx * dx <= 1024 && 0 <= dy * dy <= 1024 && 0 <= dz * dz <= 1024)
        by (nonlinear_arith)
        requires
            -32 <= dx <= 32,
            -32 <= dy <= 32,
            -32 <= dz <= 32,
    ;
    dx * dx + dy * dy + dz * dz <= 1024
}

/// A point with a coordinate beyond 64 lies outside the debug sphere.
proof fn lemma_far_from_sphere(x: int, y: int, z: int)
    requires
        x > 64 || y > 64 || z > 64,
    ensures
        !in_debug_sphere(x, y, z),
{
    assert((x - 32) * (x - 32) >= 0 && (y - 32) * (y - 32) >= 0 && (z - 32) * (z - 32) >= 0)
        by (nonlinear_arith);
    assert(x > 64 ==> (x - 32) * (x - 32) > 1024) by (nonlinear_arith);
    assert(y > 64 ==> (y - 32) * (y - 32) > 1024) by (nonlinear_arith);
    assert(z > 64 ==> (z - 32) * (z - 32) > 1024) by (nonlinear_arith);
}

impl Chunk {
    /// A chunk is well formed when it holds exactly one cell per voxel.
    pub open spec fn wf(&self) -> bool {
        self@.len() == CHUNK_VOXEL_COUNT
    }

    /// Makes a chunk of the given cells, provided there is exactly one per
    /// voxel.
    pub fn from_cells(data: Vec<Option<FullVoxel>>) -> (chunk: Option<Chunk>)
        ensures
            chunk is Some <==> data@.len() == CHUNK_VOXEL_COUNT,
            chunk matches Some(c) ==> c.wf() && c@ == data@,
    {
        if data.len() == CHUNK_VOXEL_COUNT {
            Some(Chunk::Full { data })
        } else {
            None
        }
    }

    /// The cells of the chunk, in index order.
    pub fn cells(&self) -> (data: &Vec<Option<FullVoxel>>)
        ensures
            data@ == self@,
    {
        let Chunk::Full { data } = self;
        data
    }

    /// A solid ball that touches the faces of the chunk. `shading` gives
    /// the attribute that each cell would carry, one per voxel; the cells
    /// outside the ball stay empty.
    pub fn debug_red_sphere_chunk(shading: &Vec<FullVoxel>) -> (chunk: Option<Chunk>)
        ensures
            chunk is Some <==> shading@.len() == CHUNK_VOXEL_COUNT,
            chunk matches Some(c) ==> c.wf() && c@ == debug_sphere_cells(shading@),
    {
        if shading.len() != CHUNK_VOXEL_COUNT {
            return None;
        }
        let mut buffer: Vec<Option<FullVoxel>> = Vec::new();
        let mut z: usize = 0;
        while z < CHUNK_EDGE
            invariant
                z <= CHUNK_EDGE,
                shading@.len() == CHUNK_VOXEL_COUNT,
                buffer@.len() == 4096 * z,
                forall|i: int| 0 <= i < buffer@.len() ==> buffer@[i] == debug_sphere_cells(shading@)[i],
            decreases CHUNK_EDGE - z,
        {
            let mut y: usize = 0;
            while y < CHUNK_EDGE
                invariant
                    y <= CHUNK_EDGE,
                    z < CHUNK_EDGE,
                    shading@.len() == CHUNK_VOXEL_COUNT,
                    buffer@.len() == 4096 * z + 64 * y,
                    forall|i: int|
                        0 <= i < buffer@.len() ==> buffer@[i] == debug_sphere_cells(shading@)[i],
                decreases CHUNK_EDGE - y,
            {
                let mut x: usize = 0;
                while x < CHUNK_EDGE
                    invariant
                        x <= CHUNK_EDGE,
                        y < CHUNK_EDGE,
                        z < CHUNK_EDGE,
                        shading@.len() == CHUNK_VOXEL_COUNT,
                        buffer@.len() == 4096 * z + 64 * y + x,
                        forall|i: int|
                            0 <= i < buffer@.len() ==> buffer@[i] == debug_sphere_cells(
                                shading@,
                            )[i],
                    decreases CHUNK_EDGE - x,
                {
                    let i = x + 64 * y + 4096 * z;
                    proof {
                        lemma_cell_coordinates(x as int, y as int, z as int);
                    }
                    let cell = if debug_sphere_contains(x, y, z) {
                        Some(shading[i])
                    } else {
                        None
                    };
                    buffer.push(cell);
                    x += 1;
                }
                y += 1;
            }
            z += 1;
        }
        assert(buffer@ =~= debug_sphere_cells(shading@));
        Some(Chunk::Full { data: buffer })
    }

    /// A chunk without occupied cells.
    pub fn new_empty() -> (chunk: Chunk)
        ensures
            chunk.wf(),
            forall|i: int| 0 <= i < CHUNK_VOXEL_COUNT ==> chunk@[i] is None,
    {
        let mut data: Vec<Option<FullVoxel>> = Vec::new();
        let mut i: usize = 0;
        while i < CHUNK_VOXEL_COUNT
            invariant
                i <= CHUNK_VOXEL_COUNT,
                data@.len() == i,
                forall|k: int| 0 <= k < i ==> data@[k] is None,
            decreases CHUNK_VOXEL_COUNT - i,
        {
            data.push(None);
            i += 1;
        }
        Chunk::Full { data }
    }
}

} // verus!
