//! What the encodings of the two extreme grids look like: the grid with
//! no occupied cell and the grid with no empty cell.

use vstd::prelude::*;
use crate::attributes::{dense_attributes, lemma_dense_len, occupied_before};
use crate::chunk::FullVoxel;
use crate::decode::lemma_combined_len;
use crate::occupancy::{
    lemma_occupancy_words, lemma_word_bit_zero, lemma_word_ext, mask_bit,
    occupancy_words, word_bit,
};
use crate::wire::{combined_bytes, ATTRIBUTE_BYTES};

verus! {

/// No cell of the grid is occupied.
pub open spec fn all_empty(cells: Seq<Option<FullVoxel>>) -> bool {
    forall|i: int| 0 <= i < cells.len() ==> cells[i] is None
}

/// Every cell of the grid is occupied.
pub open spec fn all_occupied(cells: Seq<Option<FullVoxel>>) -> bool {
    forall|i: int| 0 <= i < cells.len() ==> cells[i] is Some
}

/// A grid without occupied cells counts none.
proof fn lemma_none_occupied_before(cells: Seq<Option<FullVoxel>>, n: int)
    requires
        all_empty(cells),
        0 <= n <= cells.len(),
    ensures
        occupied_before(cells, n) == 0,
    decreases n,
{
    if n > 0 {
        lemma_none_occupied_before(cells, n - 1);
    }
}

/// A grid without empty cells counts every cell.
proof fn lemma_all_occupied_before(cells: Seq<Option<FullVoxel>>, n: int)
    requires
        all_occupied(cells),
        0 <= n <= cells.len(),
    ensures
        occupied_before(cells, n) == n,
    decreases n,
{
    if n > 0 {
        lemma_all_occupied_before(cells, n - 1);
    }
}

/// The word of all ones has every bit set.
proof fn lemma_word_bit_ones(j: u32)
    requires
        j < 32,
    ensures
        word_bit(0xffff_ffffu32, j),
{
    assert((0xffff_ffffu32 >> j) & 1u32 == 1u32) by (bit_vector)
        requires
            j < 32,
    ;
}

/// The grid without occupied cells encodes to zero words and no attributes,
/// so its combined buffer is the bitmask alone.
pub proof fn lemma_empty_grid(cells: Seq<Option<FullVoxel>>)
    requires
        cells.len() % 32 == 0,
        all_empty(cells),
    ensures
        forall|n: int| 0 <= n < cells.len() / 32 ==> occupancy_words(cells)[n] == 0,
        dense_attributes(cells).len() == 0,
        combined_bytes(cells).len() == 4 * (cells.len() / 32),
{
    let words = occupancy_words(cells);
    lemma_occupancy_words(cells);
    assert forall|n: int| 0 <= n < cells.len() / 32 implies words[n] == 0 by {
        assert forall|j: u32| j < 32 implies word_bit(words[n], j) == word_bit(0u32, j) by {
            let i = 32 * n + j;
            assert(i / 32 == n && i % 32 == j);
            assert(mask_bit(words, i) == (cells[i] is Some));
            lemma_word_bit_zero(j);
        }
        lemma_word_ext(words[n], 0u32);
    }
    lemma_none_occupied_before(cells, cells.len() as int);
    lemma_dense_len(cells, cells.len() as int);
    lemma_combined_len(cells);
}

/// The grid without empty cells encodes to words of all ones and one
/// attribute per cell.
pub proof fn lemma_full_grid(cells: Seq<Option<FullVoxel>>)
    requires
        cells.len() % 32 == 0,
        all_occupied(cells),
    ensures
        forall|n: int| 0 <= n < cells.len() / 32 ==> occupancy_words(cells)[n] == 0xffff_ffffu32,
        dense_attributes(cells).len() == cells.len(),
        combined_bytes(cells).len() == 4 * (cells.len() / 32) + ATTRIBUTE_BYTES * cells.len(),
{
    let words = occupancy_words(cells);
    lemma_occupancy_words(cells);
    assert forall|n: int| 0 <= n < cells.len() / 32 implies words[n] == 0xffff_ffffu32 by {
        assert forall|j: u32| j < 32 implies word_bit(words[n], j) == word_bit(
            0xffff_ffffu32,
            j,
        ) by {
            let i = 32 * n + j;
            assert(i / 32 == n && i % 32 == j);
            assert(mask_bit(words, i) == (cells[i] is Some));
            lemma_word_bit_ones(j);
        }
        lemma_word_ext(words[n], 0xffff_ffffu32);
    }
    lemma_all_occupied_before(cells, cells.len() as int);
    lemma_dense_len(cells, cells.len() as int);
    lemma_combined_len(cells);
}

} // verus!
