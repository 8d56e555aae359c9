//! The GPU form of a chunk asset: its occupancy bitmask and its dense
//! attributes, kept together.

use vstd::prelude::*;
use crate::attributes::{
    dense_attributes, dense_before, lemma_dense_position, lemma_occupied_before_grows,
    occupied_before, GpuChunkAttributes,
};
use crate::chunk::{Chunk, FullVoxel};
use crate::occupancy::{
    is_occupancy_of, lemma_occupancy_unique, lemma_occupancy_words, lemma_ones_before_bound,
    lemma_ones_before_counts, lemma_ones_before_step, lemma_popcount_is_dense_len, mask_bit,
    occupancy_words, ones_before, popcount, GpuChunkOccupancy,
};
use crate::CHUNK_VOXEL_COUNT;

verus! {

/// The grid that a bitmask and a dense attribute sequence stand for: cell
/// `i` is occupied exactly when bit `i` is set, and then carries the
/// attribute whose position is the number of set bits before bit `i`.
pub open spec fn sparse_cells(words: Seq<u32>, attributes: Seq<FullVoxel>) -> Seq<
    Option<FullVoxel>,
> {
    Seq::new(
        32 * words.len(),
        |i: int|
            if mask_bit(words, i) {
                Some(attributes[ones_before(words, i) as int])
            } else {
                None
            },
    )
}

/// Scattering the dense attributes of a grid by its occupancy bitmask gives
/// the grid back.
pub proof fn lemma_sparse_of_dense(cells: Seq<Option<FullVoxel>>)
    requires
        cells.len() % 32 == 0,
    ensures
        sparse_cells(occupancy_words(cells), dense_attributes(cells)) == cells,
{
    let words = occupancy_words(cells);
    let dense = dense_attributes(cells);
    let back = sparse_cells(words, dense);
    lemma_occupancy_words(cells);
    assert(back.len() == cells.len());
    assert forall|i: int| 0 <= i < cells.len() implies back[i] == cells[i] by {
        assert(mask_bit(words, i) == (cells[i] is Some));
        if cells[i] is Some {
            lemma_ones_before_counts(words, cells, i);
            lemma_dense_position(cells, i);
        }
    }
    assert(back =~= cells);
}

/// Gathering the occupied cells of a scattered grid gives the bitmask and
/// the attributes that it was scattered from.
pub proof fn lemma_dense_of_sparse(words: Seq<u32>, attributes: Seq<FullVoxel>)
    requires
        attributes.len() == popcount(words),
    ensures
        is_occupancy_of(words, sparse_cells(words, attributes)),
        occupancy_words(sparse_cells(words, attributes)) == words,
        dense_attributes(sparse_cells(words, attributes)) == attributes,
{
    let cells = sparse_cells(words, attributes);
    assert(is_occupancy_of(words, cells));
    lemma_occupancy_words(cells);
    lemma_occupancy_unique(occupancy_words(cells), words, cells);
    lemma_popcount_is_dense_len(words, cells);
    lemma_dense_before_of_sparse(words, attributes, cells.len() as int);
    assert(attributes.take(attributes.len() as int) =~= attributes);
}

/// The occupied cells among the first `n` cells of a scattered grid carry
/// the first attributes, as many as there are such cells.
proof fn lemma_dense_before_of_sparse(words: Seq<u32>, attributes: Seq<FullVoxel>, n: int)
    requires
        attributes.len() == popcount(words),
        0 <= n <= 32 * words.len(),
    ensures
        occupied_before(sparse_cells(words, attributes), n) <= attributes.len(),
        dense_before(sparse_cells(words, attributes), n) == attributes.take(
            occupied_before(sparse_cells(words, attributes), n) as int,
        ),
    decreases n,
{
    let cells = sparse_cells(words, attributes);
    assert(is_occupancy_of(words, cells));
    lemma_popcount_is_dense_len(words, cells);
    lemma_occupied_before_grows(cells, n, cells.len() as int);
    if n <= 0 {
        assert(dense_before(cells, n) =~= attributes.take(0));
    } else {
        lemma_dense_before_of_sparse(words, attributes, n - 1);
        let r = occupied_before(cells, n - 1) as int;
        if cells[n - 1] is Some {
            lemma_ones_before_counts(words, cells, n - 1);
            assert(cells[n - 1]->0 == attributes[r]);
            assert(attributes.take(r).push(attributes[r]) =~= attributes.take(r + 1));
        }
    }
}

/// A chunk asset as prepared for the GPU.
#[derive(Clone, Debug)]
pub struct GpuChunk {
    pub occupancy: GpuChunkOccupancy,
    pub attributes: GpuChunkAttributes,
}

impl GpuChunk {
    /// There is exactly one attribute per set bit of the bitmask.
    pub open spec fn wf(&self) -> bool {
        self.attributes.attributes@.len() == popcount(self.occupancy.occupancy@)
    }

    /// The grid that the bitmask and the attributes stand for.
    pub open spec fn cells(&self) -> Seq<Option<FullVoxel>> {
        sparse_cells(self.occupancy.occupancy@, self.attributes.attributes@)
    }

    /// Expands the bitmask and the attributes into a chunk again, provided
    /// there is one attribute per set bit.
    pub fn to_chunk(&self) -> (chunk: Option<Chunk>)
        ensures
            chunk is Some <==> self.wf(),
            chunk matches Some(c) ==> {
                &&& c.wf()
                &&& c@ == self.cells()
                &&& occupancy_words(c@) == self.occupancy.occupancy@
                &&& dense_attributes(c@) == self.attributes.attributes@
            },
    {
        let count = self.occupancy.popcount();
        if self.attributes.attributes.len() != count {
            return None;
        }
        let ghost words = self.occupancy.occupancy@;
        let ghost cells = self.cells();
        let mut data: Vec<Option<FullVoxel>> = Vec::new();
        let mut rank: usize = 0;
        let mut i: usize = 0;
        assert(0int / 32 == 0 && 0int % 32 == 0);
        while i < CHUNK_VOXEL_COUNT
            invariant
                i <= CHUNK_VOXEL_COUNT,
                words == self.occupancy.occupancy@,
                cells == self.cells(),
                self.attributes.attributes@.len() == popcount(words),
                count == popcount(words),
                rank == ones_before(words, i as int),
                data@.len() == i,
                forall|k: int| 0 <= k < i ==> data@[k] == cells[k],
            decreases CHUNK_VOXEL_COUNT - i,
        {
            let word = self.occupancy.occupancy[i / 32];
            let j = (i % 32) as u32;
            proof {
                lemma_ones_before_step(words, i as int);
                lemma_ones_before_bound(words, i + 1);
            }
            if (word >> j) & 1u32 == 1u32 {
                assert(mask_bit(words, i as int));
                data.push(Some(self.attributes.attributes[rank]));
                rank += 1;
            } else {
                assert(!mask_bit(words, i as int));
                data.push(None);
            }
            i += 1;
        }
        proof {
            assert(data@ =~= cells);
            lemma_dense_of_sparse(words, self.attributes.attributes@);
        }
        Some(Chunk::Full { data })
    }
}

impl Chunk {
    /// Prepares the chunk for the GPU: its occupancy bitmask and its dense
    /// attributes.
    pub fn prepare_asset(&self) -> (gpu: GpuChunk)
        requires
            self.wf(),
        ensures
            gpu.wf(),
            gpu.occupancy.occupancy@ == occupancy_words(self@),
            gpu.attributes.attributes@ == dense_attributes(self@),
    {
        let occupancy = self.prepare_occupancy();
        let attributes = self.prepare_attributes();
        proof {
            lemma_popcount_is_dense_len(occupancy.occupancy@, self@);
        }
        GpuChunk { occupancy, attributes }
    }
}

} // verus!
