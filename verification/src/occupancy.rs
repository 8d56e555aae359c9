//! The occupancy bitmask: one bit per voxel cell, packed into 32-bit words.

use vstd::prelude::*;
use crate::attributes::{dense_attributes, lemma_dense_len, occupied_before, occupied_count};
use crate::chunk::{Chunk, FullVoxel};
use crate::{CHUNK_VOXEL_COUNT, OCCUPANCY_WORDS};

verus! {

/// Bit `j` of the word `w`, counted from the least significant bit.
pub open spec fn word_bit(w: u32, j: u32) -> bool {
    (w >> j) & 1u32 == 1u32
}

/// Bit `i` of a bitmask held as 32-bit words: bit `i % 32` of word `i / 32`.
pub open spec fn mask_bit(words: Seq<u32>, i: int) -> bool {
    word_bit(words[i / 32], (i % 32) as u32)
}

/// `words` is the occupancy bitmask of `cells`: it has one bit per cell, and
/// bit `i` is set exactly when cell `i` is occupied.
pub open spec fn is_occupancy_of(words: Seq<u32>, cells: Seq<Option<FullVoxel>>) -> bool {
    &&& cells.len() == 32 * words.len()
    &&& forall|i: int|
        #![trigger mask_bit(words, i)]
        #![trigger cells[i]]
        0 <= i < cells.len() ==> mask_bit(words, i) == (cells[i] is Some)
}

/// The occupancy bitmask of a chunk as it is handed to the GPU.
#[derive(Clone, Debug)]
pub struct GpuChunkOccupancy {
    pub occupancy: [u32; OCCUPANCY_WORDS],
}

/// The zero word has no bit set.
pub proof fn lemma_word_bit_zero(j: u32)
    requires
        j < 32,
    ensures
        !word_bit(0u32, j),
{
    assert(((0u32 >> j) & 1u32) != 1u32) by (bit_vector)
        requires
            j < 32,
    ;
}

/// Setting bit `j` of a word turns that bit on and leaves the others alone.
pub proof fn lemma_word_bit_set(w: u32, j: u32, k: u32)
    requires
        j < 32,
        k < 32,
    ensures
        word_bit(w | (1u32 << j), k) == (k == j || word_bit(w, k)),
{
    assert((((w | (1u32 << j)) >> k) & 1u32 == 1u32) == (k == j || ((w >> k) & 1u32 == 1u32)))
        by (bit_vector)
        requires
            j < 32,
            k < 32,
    ;
}

/// A word is determined by its 32 bits.
pub proof fn lemma_word_ext(a: u32, b: u32)
    requires
        forall|j: u32| j < 32 ==> word_bit(a, j) == word_bit(b, j),
    ensures
        a == b,
{
    assert(a == b) by (bit_vector)
        requires
            word_bit(a, 0) == word_bit(b, 0),
            word_bit(a, 1) == word_bit(b, 1),
            word_bit(a, 2) == word_bit(b, 2),
            word_bit(a, 3) == word_bit(b, 3),
            word_bit(a, 4) == word_bit(b, 4),
            word_bit(a, 5) == word_bit(b, 5),
            word_bit(a, 6) == word_bit(b, 6),
            word_bit(a, 7) == word_bit(b, 7),
            word_bit(a, 8) == word_bit(b, 8),
            word_bit(a, 9) == word_bit(b, 9),
            word_bit(a, 10) == word_bit(b, 10),
            word_bit(a, 11) == word_bit(b, 11),
            word_bit(a, 12) == word_bit(b, 12),
            word_bit(a, 13) == word_bit(b, 13),
            word_bit(a, 14) == word_bit(b, 14),
            word_bit(a, 15) == word_bit(b, 15),
            word_bit(a, 16) == word_bit(b, 16),
            word_bit(a, 17) == word_bit(b, 17),
            word_bit(a, 18) == word_bit(b, 18),
            word_bit(a, 19) == word_bit(b, 19),
            word_bit(a, 20) == word_bit(b, 20),
            word_bit(a, 21) == word_bit(b, 21),
            word_bit(a, 22) == word_bit(b, 22),
            word_bit(a, 23) == word_bit(b, 23),
            word_bit(a, 24) == word_bit(b, 24),
            word_bit(a, 25) == word_bit(b, 25),
            word_bit(a, 26) == word_bit(b, 26),
            word_bit(a, 27) == word_bit(b, 27),
            word_bit(a, 28) == word_bit(b, 28),
            word_bit(a, 29) == word_bit(b, 29),
            word_bit(a, 30) == word_bit(b, 30),
            word_bit(a, 31) == word_bit(b, 31),
    ;
}

/// The word that packs the occupancy of the `k` cells from `base` on: bit
/// `j` stands for cell `base + j`.
pub open spec fn packed_word(cells: Seq<Option<FullVoxel>>, base: int, k: int) -> u32
    decreases k,
{
    if k <= 0 {
        0u32
    } else if cells[base + k - 1] is Some {
        packed_word(cells, base, k - 1) | (1u32 << ((k - 1) as u32))
    } else {
        packed_word(cells, base, k - 1)
    }
}

/// The occupancy bitmask of a grid, one word per group of 32 cells.
pub open spec fn occupancy_words(cells: Seq<Option<FullVoxel>>) -> Seq<u32> {
    Seq::new((cells.len() / 32) as nat, |n: int| packed_word(cells, 32 * n, 32))
}

/// Bit `j` of a packed word is set exactly when it stands for one of the
/// packed cells and that cell is occupied.
pub proof fn lemma_packed_word_bit(cells: Seq<Option<FullVoxel>>, base: int, k: int, j: u32)
    requires
        0 <= k <= 32,
        j < 32,
    ensures
        word_bit(packed_word(cells, base, k), j) == (j < k && cells[base + j] is Some),
    decreases k,
{
    if k <= 0 {
        lemma_word_bit_zero(j);
    } else {
        lemma_packed_word_bit(cells, base, k - 1, j);
        if cells[base + k - 1] is Some {
            lemma_word_bit_set(packed_word(cells, base, k - 1), (k - 1) as u32, j);
        }
    }
}

/// The packed words of a grid whose cells come in whole groups of 32 are
/// its occupancy bitmask.
pub proof fn lemma_occupancy_words(cells: Seq<Option<FullVoxel>>)
    requires
        cells.len() % 32 == 0,
    ensures
        is_occupancy_of(occupancy_words(cells), cells),
{
    let words = occupancy_words(cells);
    assert forall|i: int| 0 <= i < cells.len() implies mask_bit(words, i) == (cells[i] is Some) by {
        lemma_packed_word_bit(cells, 32 * (i / 32), 32, (i % 32) as u32);
    }
}

/// Number of set bits among the lowest `k` bits of `w`.
pub open spec fn ones_below(w: u32, k: int) -> nat
    decreases k,
{
    if k <= 0 {
        0
    } else if word_bit(w, (k - 1) as u32) {
        ones_below(w, k - 1) + 1
    } else {
        ones_below(w, k - 1)
    }
}

/// Number of set bits in the first `n` words.
pub open spec fn popcount_before(words: Seq<u32>, n: int) -> nat
    decreases n,
{
    if n <= 0 {
        0
    } else {
        popcount_before(words, n - 1) + ones_below(words[n - 1], 32)
    }
}

/// Number of set bits in a bitmask.
pub open spec fn popcount(words: Seq<u32>) -> nat {
    popcount_before(words, words.len() as int)
}

/// Among `k` bits at most `k` are set.
pub proof fn lemma_ones_below_bound(w: u32, k: int)
    requires
        0 <= k,
    ensures
        ones_below(w, k) <= k,
    decreases k,
{
    if k > 0 {
        lemma_ones_below_bound(w, k - 1);
    }
}

/// Among `n` words at most `32 * n` bits are set.
pub proof fn lemma_popcount_before_bound(words: Seq<u32>, n: int)
    requires
        0 <= n,
    ensures
        popcount_before(words, n) <= 32 * n,
    decreases n,
{
    if n > 0 {
        lemma_popcount_before_bound(words, n - 1);
        lemma_ones_below_bound(words[n - 1], 32);
    }
}

/// The set bits among the lowest `k` bits of word `n` count the occupied
/// cells among the first `k` cells of group `n`.
pub proof fn lemma_ones_below_counts(words: Seq<u32>, cells: Seq<Option<FullVoxel>>, n: int, k: int)
    requires
        is_occupancy_of(words, cells),
        0 <= n < words.len(),
        0 <= k <= 32,
    ensures
        occupied_before(cells, 32 * n + k) == occupied_before(cells, 32 * n) + ones_below(
            words[n],
            k,
        ),
    decreases k,
{
    if k > 0 {
        lemma_ones_below_counts(words, cells, n, k - 1);
        let i = 32 * n + k - 1;
        assert(i / 32 == n && i % 32 == k - 1);
        assert(mask_bit(words, i) == (cells[i] is Some));
    }
}

/// The set bits in the first `n` words count the occupied cells among the
/// first `32 * n` cells.
pub proof fn lemma_popcount_before_counts(
    words: Seq<u32>,
    cells: Seq<Option<FullVoxel>>,
    n: int,
)
    requires
        is_occupancy_of(words, cells),
        0 <= n <= words.len(),
    ensures
        popcount_before(words, n) == occupied_before(cells, 32 * n),
    decreases n,
{
    if n > 0 {
        lemma_popcount_before_counts(words, cells, n - 1);
        lemma_ones_below_counts(words, cells, n - 1, 32);
    }
}

/// Number of set bits among the first `i` bits of a bitmask.
pub open spec fn ones_before(words: Seq<u32>, i: int) -> nat {
    popcount_before(words, i / 32) + ones_below(words[i / 32], i % 32)
}

/// The set bits among the first `i` bits of an occupancy bitmask count the
/// occupied cells among the first `i` cells.
pub proof fn lemma_ones_before_counts(words: Seq<u32>, cells: Seq<Option<FullVoxel>>, i: int)
    requires
        is_occupancy_of(words, cells),
        0 <= i <= cells.len(),
    ensures
        ones_before(words, i) == occupied_before(cells, i),
{
    lemma_popcount_before_counts(words, cells, i / 32);
    if i < cells.len() {
        lemma_ones_below_counts(words, cells, i / 32, i % 32);
    }
}

/// Going one bit further counts that bit if it is set.
pub proof fn lemma_ones_before_step(words: Seq<u32>, i: int)
    requires
        0 <= i < 32 * words.len(),
    ensures
        ones_before(words, i + 1) == ones_before(words, i) + if mask_bit(words, i) {
            1nat
        } else {
            0nat
        },
{
    let n = i / 32;
    let j = i % 32;
    assert(ones_below(words[n], j + 1) == ones_below(words[n], j) + if word_bit(
        words[n],
        j as u32,
    ) {
        1nat
    } else {
        0nat
    });
    if j == 31 {
        assert((i + 1) / 32 == n + 1 && (i + 1) % 32 == 0);
        assert(popcount_before(words, n + 1) == popcount_before(words, n) + ones_below(
            words[n],
            32,
        ));
    } else {
        assert((i + 1) / 32 == n && (i + 1) % 32 == j + 1);
    }
}

/// The set bits before a position are among all set bits.
pub proof fn lemma_ones_before_bound(words: Seq<u32>, i: int)
    requires
        0 <= i <= 32 * words.len(),
    ensures
        ones_before(words, i) <= popcount(words),
    decreases 32 * words.len() - i,
{
    if i < 32 * words.len() {
        lemma_ones_before_step(words, i);
        lemma_ones_before_bound(words, i + 1);
    } else {
        assert(i / 32 == words.len() && i % 32 == 0);
    }
}

/// The number of set bits in the occupancy bitmask of a grid is the number
/// of attributes in its dense sequence.
pub proof fn lemma_popcount_is_dense_len(words: Seq<u32>, cells: Seq<Option<FullVoxel>>)
    requires
        is_occupancy_of(words, cells),
    ensures
        popcount(words) == occupied_count(cells),
        popcount(words) == dense_attributes(cells).len(),
{
    lemma_popcount_before_counts(words, cells, words.len() as int);
    lemma_dense_len(cells, cells.len() as int);
}

/// Bit `i % 32` of word `i / 32` of a chunk's occupancy bitmask tells
/// whether cell `i` is occupied.
pub proof fn lemma_occupancy_bit(cells: Seq<Option<FullVoxel>>, i: int)
    requires
        cells.len() == CHUNK_VOXEL_COUNT,
        0 <= i < CHUNK_VOXEL_COUNT,
    ensures
        occupancy_words(cells).len() == OCCUPANCY_WORDS,
        mask_bit(occupancy_words(cells), i) == (cells[i] is Some),
{
    lemma_occupancy_words(cells);
}

/// The occupancy bitmask of a chunk has as many set bits as the chunk has
/// dense attributes.
pub proof fn lemma_popcount_matches_attributes(cells: Seq<Option<FullVoxel>>)
    requires
        cells.len() == CHUNK_VOXEL_COUNT,
    ensures
        popcount(occupancy_words(cells)) == dense_attributes(cells).len(),
{
    lemma_occupancy_words(cells);
    lemma_popcount_is_dense_len(occupancy_words(cells), cells);
}

/// A grid has only one occupancy bitmask.
pub proof fn lemma_occupancy_unique(a: Seq<u32>, b: Seq<u32>, cells: Seq<Option<FullVoxel>>)
    requires
        is_occupancy_of(a, cells),
        is_occupancy_of(b, cells),
    ensures
        a == b,
{
    assert forall|n: int| 0 <= n < a.len() implies a[n] == b[n] by {
        assert forall|j: u32| j < 32 implies word_bit(a[n], j) == word_bit(b[n], j) by {
            let i = 32 * n + j;
            assert(i / 32 == n && i % 32 == j);
            assert(mask_bit(a, i) == (cells[i] is Some));
            assert(mask_bit(b, i) == (cells[i] is Some));
        }
        lemma_word_ext(a[n], b[n]);
    }
    assert(a =~= b);
}

impl GpuChunkOccupancy {
    /// Counts the occupied cells that the bitmask records.
    pub fn popcount(&self) -> (count: usize)
        ensures
            count == popcount(self.occupancy@),
    {
        let mut count: usize = 0;
        let mut n: usize = 0;
        while n < OCCUPANCY_WORDS
            invariant
                n <= OCCUPANCY_WORDS,
                count == popcount_before(self.occupancy@, n as int),
                count <= 32 * n,
            decreases OCCUPANCY_WORDS - n,
        {
            let ones = word_ones(self.occupancy[n]);
            count = count + ones;
            n += 1;
        }
        count
    }
}

/// Counts the set bits of a word.
pub fn word_ones(w: u32) -> (ones: usize)
    ensures
        ones == ones_below(w, 32),
        ones <= 32,
{
    let mut ones: usize = 0;
    let mut k: u32 = 0;
    while k < 32
        invariant
            k <= 32,
            ones == ones_below(w, k as int),
            ones <= k,
        decreases 32 - k,
    {
        if (w >> k) & 1u32 == 1u32 {
            ones += 1;
        }
        k += 1;
    }
    ones
}

impl Chunk {
    /// Packs the occupancy of the cells into words: bit `j` of word `i` is
    /// set exactly when cell `32 * i + j` is occupied.
    pub fn prepare_occupancy(&self) -> (gpu: GpuChunkOccupancy)
        requires
            self.wf(),
        ensures
            gpu.occupancy@ == occupancy_words(self@),
            is_occupancy_of(gpu.occupancy@, self@),
    {
        let Chunk::Full { data } = self;
        let mut words: [u32; OCCUPANCY_WORDS] = [0u32; OCCUPANCY_WORDS];
        let mut w: usize = 0;
        while w < OCCUPANCY_WORDS
            invariant
                w <= OCCUPANCY_WORDS,
                data@.len() == CHUNK_VOXEL_COUNT,
                forall|n: int| 0 <= n < w ==> words@[n] == packed_word(data@, 32 * n, 32),
            decreases OCCUPANCY_WORDS - w,
        {
            let mut word: u32 = 0;
            let mut j: u32 = 0;
            while j < 32
                invariant
                    j <= 32,
                    w < OCCUPANCY_WORDS,
                    data@.len() == CHUNK_VOXEL_COUNT,
                    word == packed_word(data@, 32 * w, j as int),
                decreases 32 - j,
            {
                if data[w * 32 + j as usize].is_some() {
                    word = word | (1u32 << j);
                }
                j += 1;
            }
            words[w] = word;
            w += 1;
        }
        proof {
            assert(words@ =~= occupancy_words(data@));
            lemma_occupancy_words(data@);
        }
        GpuChunkOccupancy { occupancy: words }
    }
}

} // verus!
