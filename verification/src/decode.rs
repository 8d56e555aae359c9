//! Reading a combined buffer back into a chunk.

use vstd::prelude::*;
use crate::attributes::{dense_attributes, lemma_dense_len, occupied_count, GpuChunkAttributes};
use crate::chunk::{Chunk, FullVoxel, Vec3Bits};
use crate::gpu_chunk::{lemma_dense_of_sparse, lemma_sparse_of_dense, sparse_cells, GpuChunk};
use crate::occupancy::{
    lemma_occupancy_words, lemma_popcount_before_bound, lemma_popcount_is_dense_len,
    occupancy_words, popcount, GpuChunkOccupancy,
};
use crate::wire::{
    attribute_bytes, attribute_words, bytes_words, combined_bytes, le_word,
    lemma_attribute_words_inverts, lemma_bytes_words_inverts, lemma_words_attributes_inverts,
    lemma_words_bytes_inverts, read_word, words_attributes, words_bytes, ATTRIBUTE_BYTES,
    OCCUPANCY_BYTES,
};
use crate::{CHUNK_VOXEL_COUNT, OCCUPANCY_WORDS};

verus! {

/// The bitmask words that a combined buffer starts with.
pub open spec fn mask_words(bytes: Seq<u8>) -> Seq<u32> {
    bytes_words(bytes.take(OCCUPANCY_BYTES as int))
}

/// The attribute records that follow the bitmask in a combined buffer.
pub open spec fn record_attributes(bytes: Seq<u8>) -> Seq<FullVoxel> {
    words_attributes(bytes_words(bytes.skip(OCCUPANCY_BYTES as int)))
}

/// A buffer is a combined buffer when it holds a whole bitmask followed by
/// exactly one 24-byte record per set bit.
pub open spec fn is_combined(bytes: Seq<u8>) -> bool {
    &&& bytes.len() >= OCCUPANCY_BYTES
    &&& bytes.len() - OCCUPANCY_BYTES == ATTRIBUTE_BYTES * popcount(mask_words(bytes))
}

/// The grid that a combined buffer stands for.
pub open spec fn decoded_cells(bytes: Seq<u8>) -> Seq<Option<FullVoxel>> {
    sparse_cells(mask_words(bytes), record_attributes(bytes))
}

/// The combined buffer of a grid has 4 bytes per group of 32 cells and 24
/// bytes per occupied cell.
pub proof fn lemma_combined_len(cells: Seq<Option<FullVoxel>>)
    ensures
        combined_bytes(cells).len() == 4 * (cells.len() / 32) + ATTRIBUTE_BYTES * occupied_count(
            cells,
        ),
{
    lemma_dense_len(cells, cells.len() as int);
}

/// Decoding the combined buffer of a chunk gives the chunk back.
pub proof fn lemma_decode_inverts_encode(cells: Seq<Option<FullVoxel>>)
    requires
        cells.len() == CHUNK_VOXEL_COUNT,
    ensures
        is_combined(combined_bytes(cells)),
        decoded_cells(combined_bytes(cells)) == cells,
{
    let words = occupancy_words(cells);
    let dense = dense_attributes(cells);
    let bytes = combined_bytes(cells);
    lemma_combined_len(cells);
    assert(bytes.take(OCCUPANCY_BYTES as int) == words_bytes(words)) by {
        assert(bytes.take(OCCUPANCY_BYTES as int) =~= words_bytes(words));
    }
    assert(bytes.skip(OCCUPANCY_BYTES as int) == attribute_bytes(dense)) by {
        assert(bytes.skip(OCCUPANCY_BYTES as int) =~= attribute_bytes(dense));
    }
    assert(mask_words(bytes) == words) by {
        lemma_bytes_words_inverts(words);
    }
    assert(record_attributes(bytes) == dense) by {
        lemma_bytes_words_inverts(attribute_words(dense));
        lemma_words_attributes_inverts(dense);
    }
    assert(popcount(words) == dense.len()) by {
        lemma_occupancy_words(cells);
        lemma_popcount_is_dense_len(words, cells);
    }
    lemma_sparse_of_dense(cells);
}

/// The parts of a combined buffer have the sizes that its bitmask calls
/// for.
proof fn lemma_combined_parts(bytes: Seq<u8>)
    requires
        is_combined(bytes),
    ensures
        mask_words(bytes).len() == OCCUPANCY_WORDS,
        bytes.skip(OCCUPANCY_BYTES as int).len() % 4 == 0,
        bytes_words(bytes.skip(OCCUPANCY_BYTES as int)).len() == 6 * popcount(mask_words(bytes)),
        record_attributes(bytes).len() == popcount(mask_words(bytes)),
{
    let count = popcount(mask_words(bytes));
    let tail = bytes.skip(OCCUPANCY_BYTES as int);
    assert(tail.len() == 24 * count);
    assert(bytes_words(tail).len() == 6 * count);
}

/// A combined buffer is the bytes of its bitmask words followed by the
/// bytes of its records.
proof fn lemma_combined_split(bytes: Seq<u8>)
    requires
        is_combined(bytes),
    ensures
        bytes == words_bytes(mask_words(bytes)) + attribute_bytes(record_attributes(bytes)),
{
    let head = bytes.take(OCCUPANCY_BYTES as int);
    let tail = bytes.skip(OCCUPANCY_BYTES as int);
    let records = bytes_words(tail);
    assert(bytes == head + tail) by {
        assert(bytes =~= head + tail);
    }
    assert(words_bytes(mask_words(bytes)) == head) by {
        lemma_words_bytes_inverts(head);
    }
    assert(attribute_words(record_attributes(bytes)) == records) by {
        lemma_combined_parts(bytes);
        lemma_attribute_words_inverts(records);
    }
    assert(words_bytes(records) == tail) by {
        lemma_combined_parts(bytes);
        lemma_words_bytes_inverts(tail);
    }
}

/// Encoding the grid that a combined buffer stands for gives the buffer
/// back: decoding accepts nothing but encodings.
pub proof fn lemma_encode_inverts_decode(bytes: Seq<u8>)
    requires
        is_combined(bytes),
    ensures
        decoded_cells(bytes).len() == CHUNK_VOXEL_COUNT,
        combined_bytes(decoded_cells(bytes)) == bytes,
{
    lemma_combined_parts(bytes);
    lemma_combined_split(bytes);
    lemma_dense_of_sparse(mask_words(bytes), record_attributes(bytes));
}

/// Word `c` of record `r` of a combined buffer, read from its bytes.
proof fn lemma_record_word(bytes: Seq<u8>, r: int, c: int)
    requires
        is_combined(bytes),
        0 <= r < popcount(mask_words(bytes)),
        0 <= c < 6,
    ensures
        OCCUPANCY_BYTES + 24 * r + 4 * c + 4 <= bytes.len(),
        bytes_words(bytes.skip(OCCUPANCY_BYTES as int))[6 * r + c] == le_word(
            bytes[OCCUPANCY_BYTES + 24 * r + 4 * c],
            bytes[OCCUPANCY_BYTES + 24 * r + 4 * c + 1],
            bytes[OCCUPANCY_BYTES + 24 * r + 4 * c + 2],
            bytes[OCCUPANCY_BYTES + 24 * r + 4 * c + 3],
        ),
{
    lemma_combined_parts(bytes);
}

/// Reads record `r` of a combined buffer.
fn read_record(bytes: &[u8], r: usize) -> (voxel: FullVoxel)
    requires
        is_combined(bytes@),
        r < popcount(mask_words(bytes@)),
    ensures
        voxel == record_attributes(bytes@)[r as int],
{
    proof {
        lemma_combined_parts(bytes@);
        lemma_popcount_before_bound(mask_words(bytes@), OCCUPANCY_WORDS as int);
        lemma_record_word(bytes@, r as int, 0);
        lemma_record_word(bytes@, r as int, 1);
        lemma_record_word(bytes@, r as int, 2);
        lemma_record_word(bytes@, r as int, 3);
        lemma_record_word(bytes@, r as int, 4);
        lemma_record_word(bytes@, r as int, 5);
    }
    let at: usize = OCCUPANCY_BYTES + ATTRIBUTE_BYTES * r;
    FullVoxel {
        normal: Vec3Bits {
            x: read_word(bytes, at),
            y: read_word(bytes, at + 4),
            z: read_word(bytes, at + 8),
        },
        color: Vec3Bits {
            x: read_word(bytes, at + 12),
            y: read_word(bytes, at + 16),
            z: read_word(bytes, at + 20),
        },
    }
}

/// Reads the bitmask that a buffer starts with.
fn read_mask(bytes: &[u8]) -> (mask: GpuChunkOccupancy)
    requires
        bytes@.len() >= OCCUPANCY_BYTES,
    ensures
        mask.occupancy@ == mask_words(bytes@),
{
    let mut words: [u32; OCCUPANCY_WORDS] = [0u32; OCCUPANCY_WORDS];
    let mut n: usize = 0;
    while n < OCCUPANCY_WORDS
        invariant
            n <= OCCUPANCY_WORDS,
            bytes@.len() >= OCCUPANCY_BYTES,
            forall|m: int| 0 <= m < n ==> words@[m] == mask_words(bytes@)[m],
        decreases OCCUPANCY_WORDS - n,
    {
        let word = read_word(bytes, 4 * n);
        words[n] = word;
        n += 1;
    }
    assert(words@ =~= mask_words(bytes@));
    GpuChunkOccupancy { occupancy: words }
}

/// Reads the records that follow the bitmask of a combined buffer.
fn read_records(bytes: &[u8], count: usize) -> (records: GpuChunkAttributes)
    requires
        is_combined(bytes@),
        count == popcount(mask_words(bytes@)),
    ensures
        records.attributes@ == record_attributes(bytes@),
{
    let mut attributes: Vec<FullVoxel> = Vec::new();
    let mut r: usize = 0;
    proof {
        lemma_combined_parts(bytes@);
    }
    while r < count
        invariant
            r <= count,
            is_combined(bytes@),
            count == popcount(mask_words(bytes@)),
            count == record_attributes(bytes@).len(),
            attributes@.len() == r,
            forall|k: int| 0 <= k < r ==> attributes@[k] == record_attributes(bytes@)[k],
        decreases count - r,
    {
        attributes.push(read_record(bytes, r));
        r += 1;
    }
    assert(attributes@ =~= record_attributes(bytes@));
    GpuChunkAttributes { attributes }
}

/// Splits a combined buffer into the bitmask and the attributes that it
/// holds. A buffer that is not the combined buffer of any chunk is turned
/// down.
pub fn split_combined(bytes: &[u8]) -> (gpu: Option<GpuChunk>)
    ensures
        gpu is Some <==> is_combined(bytes@),
        gpu matches Some(g) ==> {
            &&& g.wf()
            &&& g.occupancy.occupancy@ == mask_words(bytes@)
            &&& g.attributes.attributes@ == record_attributes(bytes@)
        },
{
    if bytes.len() < OCCUPANCY_BYTES {
        return None;
    }
    let occupancy = read_mask(bytes);
    let count = occupancy.popcount();
    proof {
        lemma_popcount_before_bound(occupancy.occupancy@, OCCUPANCY_WORDS as int);
    }
    if bytes.len() - OCCUPANCY_BYTES != ATTRIBUTE_BYTES * count {
        return None;
    }
    proof {
        lemma_combined_parts(bytes@);
    }
    let attributes = read_records(bytes, count);
    Some(GpuChunk { occupancy, attributes })
}

/// Reads a combined buffer back into a chunk. A buffer that is not the
/// combined buffer of any chunk is turned down.
pub fn decode_combined(bytes: &[u8]) -> (chunk: Option<Chunk>)
    ensures
        chunk is Some <==> is_combined(bytes@),
        chunk matches Some(c) ==> c.wf() && c@ == decoded_cells(bytes@) && combined_bytes(c@)
            == bytes@,
{
    match split_combined(bytes) {
        Some(gpu) => {
            proof {
                lemma_encode_inverts_decode(bytes@);
            }
            gpu.to_chunk()
        },
        None => None,
    }
}

} // verus!
