//! The dense attribute buffer: the shading data of the occupied cells, in
//! cell order, with no gaps.

use vstd::prelude::*;
use crate::chunk::{Chunk, FullVoxel};

verus! {

/// Number of occupied cells among the first `n` cells.
pub open spec fn occupied_before(cells: Seq<Option<FullVoxel>>, n: int) -> nat
    decreases n,
{
    if n <= 0 {
        0
    } else if cells[n - 1] is Some {
        occupied_before(cells, n - 1) + 1
    } else {
        occupied_before(cells, n - 1)
    }
}

/// Number of occupied cells.
pub open spec fn occupied_count(cells: Seq<Option<FullVoxel>>) -> nat {
    occupied_before(cells, cells.len() as int)
}

/// The attributes of the occupied cells among the first `n` cells, in cell
/// order.
pub open spec fn dense_before(cells: Seq<Option<FullVoxel>>, n: int) -> Seq<FullVoxel>
    decreases n,
{
    if n <= 0 {
        Seq::empty()
    } else if cells[n - 1] is Some {
        dense_before(cells, n - 1).push(cells[n - 1]->0)
    } else {
        dense_before(cells, n - 1)
    }
}

/// The attributes of all occupied cells, in cell order.
pub open spec fn dense_attributes(cells: Seq<Option<FullVoxel>>) -> Seq<FullVoxel> {
    dense_before(cells, cells.len() as int)
}

/// The attributes of a chunk's occupied cells as they are handed to the GPU.
#[derive(Clone, Debug)]
pub struct GpuChunkAttributes {
    pub attributes: Vec<FullVoxel>,
}

/// The dense sequence has one entry per occupied cell.
pub proof fn lemma_dense_len(cells: Seq<Option<FullVoxel>>, n: int)
    ensures
        dense_before(cells, n).len() == occupied_before(cells, n),
    decreases n,
{
    if n > 0 {
        lemma_dense_len(cells, n - 1);
    }
}

/// Counting further never counts less, and at most one more per cell.
pub proof fn lemma_occupied_before_grows(cells: Seq<Option<FullVoxel>>, m: int, n: int)
    requires
        0 <= m <= n,
    ensures
        occupied_before(cells, m) <= occupied_before(cells, n) <= occupied_before(cells, m) + (n
            - m),
    decreases n - m,
{
    if m < n {
        lemma_occupied_before_grows(cells, m, n - 1);
    }
}

/// Extending the prefix keeps what the dense sequence already holds.
pub proof fn lemma_dense_before_prefix(cells: Seq<Option<FullVoxel>>, m: int, n: int, k: int)
    requires
        0 <= m <= n,
        0 <= k < occupied_before(cells, m),
    ensures
        k < dense_before(cells, n).len(),
        dense_before(cells, n)[k] == dense_before(cells, m)[k],
    decreases n - m,
{
    lemma_dense_len(cells, m);
    lemma_dense_len(cells, n);
    lemma_occupied_before_grows(cells, m, n);
    if m < n {
        lemma_dense_before_prefix(cells, m, n - 1, k);
        lemma_dense_len(cells, n - 1);
        lemma_occupied_before_grows(cells, m, n - 1);
    }
}

/// An occupied cell's attribute sits in the dense sequence at the position
/// given by the number of occupied cells before it.
pub proof fn lemma_dense_position(cells: Seq<Option<FullVoxel>>, i: int)
    requires
        0 <= i < cells.len(),
        cells[i] is Some,
    ensures
        occupied_before(cells, i) < dense_attributes(cells).len(),
        dense_attributes(cells)[occupied_before(cells, i) as int] == cells[i]->0,
{
    lemma_dense_len(cells, i);
    lemma_dense_len(cells, i + 1);
    assert(dense_before(cells, i + 1) == dense_before(cells, i).push(cells[i]->0));
    lemma_dense_before_prefix(cells, i + 1, cells.len() as int, occupied_before(cells, i) as int);
}

/// The dense sequence keeps the relative order of the cells: of two
/// occupied cells, the attribute of the one with the lower index comes
/// first.
pub proof fn lemma_dense_preserves_order(cells: Seq<Option<FullVoxel>>, i1: int, i2: int)
    requires
        0 <= i1 < i2 < cells.len(),
        cells[i1] is Some,
        cells[i2] is Some,
    ensures
        occupied_before(cells, i1) < occupied_before(cells, i2) < dense_attributes(cells).len(),
        dense_attributes(cells)[occupied_before(cells, i1) as int] == cells[i1]->0,
        dense_attributes(cells)[occupied_before(cells, i2) as int] == cells[i2]->0,
{
    lemma_dense_position(cells, i1);
    lemma_dense_position(cells, i2);
    lemma_occupied_before_grows(cells, i1 + 1, i2);
}

/// Every entry of the dense sequence is the attribute of an occupied cell,
/// and sits at that cell's position.
pub proof fn lemma_dense_source(cells: Seq<Option<FullVoxel>>, k: int) -> (i: int)
    requires
        0 <= k < dense_attributes(cells).len(),
    ensures
        0 <= i < cells.len(),
        cells[i] is Some,
        occupied_before(cells, i) == k,
        dense_attributes(cells)[k] == cells[i]->0,
{
    lemma_dense_len(cells, cells.len() as int);
    let i = dense_source_before(cells, cells.len() as int, k);
    lemma_dense_position(cells, i);
    i
}

/// The cell among the first `n` that is occupied and has `k` occupied
/// cells before it.
proof fn dense_source_before(cells: Seq<Option<FullVoxel>>, n: int, k: int) -> (i: int)
    requires
        0 <= n <= cells.len(),
        0 <= k < occupied_before(cells, n),
    ensures
        0 <= i < n,
        cells[i] is Some,
        occupied_before(cells, i) == k,
    decreases n,
{
    if cells[n - 1] is Some && occupied_before(cells, n - 1) == k {
        n - 1
    } else {
        dense_source_before(cells, n - 1, k)
    }
}

impl Chunk {
    /// Collects the attributes of the occupied cells, keeping their order.
    pub fn prepare_attributes(&self) -> (gpu: GpuChunkAttributes)
        ensures
            gpu.attributes@ == dense_attributes(self@),
    {
        let Chunk::Full { data } = self;
        let mut attributes: Vec<FullVoxel> = Vec::new();
        let mut i: usize = 0;
        while i < data.len()
            invariant
                i <= data@.len(),
                attributes@ == dense_before(data@, i as int),
            decreases data@.len() - i,
        {
            match data[i] {
                Some(voxel) => {
                    attributes.push(voxel);
                },
                None => {},
            }
            i += 1;
        }
        GpuChunkAttributes { attributes }
    }
}

} // verus!
