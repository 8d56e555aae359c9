//! The byte layouts that the shader reads: little-endian 32-bit words, the
//! occupancy bitmask first, then one 24-byte record per occupied voxel.

use vstd::prelude::*;
use crate::attributes::{dense_attributes, GpuChunkAttributes};
use crate::chunk::{Chunk, FullVoxel, Vec3Bits};
use crate::occupancy::{occupancy_words, GpuChunkOccupancy};

verus! {

/// Size in bytes of one serialized voxel attribute.
pub const ATTRIBUTE_BYTES: usize = 24;

/// Size in bytes of the serialized occupancy bitmask: 8192 words of 4
/// bytes.
pub const OCCUPANCY_BYTES: usize = 32768;

/// The four bytes of a word, least significant first.
pub open spec fn le_bytes(x: u32) -> Seq<u8> {
    seq![
        (x & 0xff) as u8,
        ((x >> 8) & 0xff) as u8,
        ((x >> 16) & 0xff) as u8,
        ((x >> 24) & 0xff) as u8,
    ]
}

/// The word whose bytes, least significant first, are `b0` to `b3`.
pub open spec fn le_word(b0: u8, b1: u8, b2: u8, b3: u8) -> u32 {
    (b0 as u32) | ((b1 as u32) << 8) | ((b2 as u32) << 16) | ((b3 as u32) << 24)
}

/// The bytes of a sequence of words, each word little-endian.
pub open spec fn words_bytes(words: Seq<u32>) -> Seq<u8> {
    Seq::new(4 * words.len(), |i: int| le_bytes(words[i / 4])[i % 4])
}

/// The words that a sequence of bytes holds; trailing bytes that do not
/// fill a word are left out.
pub open spec fn bytes_words(bytes: Seq<u8>) -> Seq<u32> {
    Seq::new(
        (bytes.len() / 4) as nat,
        |n: int| le_word(bytes[4 * n], bytes[4 * n + 1], bytes[4 * n + 2], bytes[4 * n + 3]),
    )
}

/// The six words of a voxel attribute: the normal, then the color.
pub open spec fn voxel_words(v: FullVoxel) -> Seq<u32> {
    seq![v.normal.x, v.normal.y, v.normal.z, v.color.x, v.color.y, v.color.z]
}

/// The words of a sequence of attributes, six per attribute.
pub open spec fn attribute_words(attributes: Seq<FullVoxel>) -> Seq<u32> {
    Seq::new(6 * attributes.len(), |i: int| voxel_words(attributes[i / 6])[i % 6])
}

/// The attributes that a sequence of words holds, six words each.
pub open spec fn words_attributes(words: Seq<u32>) -> Seq<FullVoxel> {
    Seq::new(
        (words.len() / 6) as nat,
        |k: int|
            FullVoxel {
                normal: Vec3Bits { x: words[6 * k], y: words[6 * k + 1], z: words[6 * k + 2] },
                color: Vec3Bits { x: words[6 * k + 3], y: words[6 * k + 4], z: words[6 * k + 5] },
            },
    )
}

/// The serialized attribute buffer: 24 bytes per attribute, no padding.
pub open spec fn attribute_bytes(attributes: Seq<FullVoxel>) -> Seq<u8> {
    words_bytes(attribute_words(attributes))
}

/// The combined buffer of a grid: the bytes of its occupancy bitmask,
/// followed at once by the bytes of its dense attributes.
pub open spec fn combined_bytes(cells: Seq<Option<FullVoxel>>) -> Seq<u8> {
    words_bytes(occupancy_words(cells)) + attribute_bytes(dense_attributes(cells))
}

/// Splitting a word into bytes and joining them again gives the word back.
pub proof fn lemma_le_word_of_bytes(x: u32)
    ensures
        le_bytes(x).len() == 4,
        le_word(le_bytes(x)[0], le_bytes(x)[1], le_bytes(x)[2], le_bytes(x)[3]) == x,
{
    assert(x == (((x & 0xff) as u8) as u32) | ((((x >> 8) & 0xff) as u8) as u32) << 8 | ((((x >> 16)
        & 0xff) as u8) as u32) << 16 | ((((x >> 24) & 0xff) as u8) as u32) << 24) by (bit_vector);
}

/// Joining four bytes into a word and splitting it again gives the bytes
/// back.
pub proof fn lemma_le_bytes_of_word(b0: u8, b1: u8, b2: u8, b3: u8)
    ensures
        le_bytes(le_word(b0, b1, b2, b3)) == seq![b0, b1, b2, b3],
{
    let x = le_word(b0, b1, b2, b3);
    assert(x == (b0 as u32) | ((b1 as u32) << 8) | ((b2 as u32) << 16) | ((b3 as u32) << 24));
    assert((x & 0xff) as u8 == b0 && ((x >> 8) & 0xff) as u8 == b1 && ((x >> 16) & 0xff) as u8 == b2
        && ((x >> 24) & 0xff) as u8 == b3) by (bit_vector)
        requires
            x == (b0 as u32) | ((b1 as u32) << 8) | ((b2 as u32) << 16) | ((b3 as u32) << 24),
    ;
    assert(le_bytes(x) =~= seq![b0, b1, b2, b3]);
}

/// The bytes of a concatenation are the concatenation of the bytes.
pub proof fn lemma_words_bytes_concat(a: Seq<u32>, b: Seq<u32>)
    ensures
        words_bytes(a + b) == words_bytes(a) + words_bytes(b),
{
    let left = words_bytes(a + b);
    let right = words_bytes(a) + words_bytes(b);
    assert(left.len() == right.len());
    assert forall|i: int| 0 <= i < left.len() implies left[i] == right[i] by {
        if i < 4 * a.len() {
            assert((a + b)[i / 4] == a[i / 4]);
        } else {
            let r = i - 4 * a.len();
            assert(i / 4 == a.len() + r / 4 && i % 4 == r % 4);
            assert((a + b)[i / 4] == b[r / 4]);
        }
    }
    assert(left =~= right);
}

/// A single word serializes to its four bytes.
pub proof fn lemma_words_bytes_single(x: u32)
    ensures
        words_bytes(seq![x]) == le_bytes(x),
{
    assert(words_bytes(seq![x]) =~= le_bytes(x));
}

/// Appending a word appends its four bytes.
pub proof fn lemma_words_bytes_push(words: Seq<u32>, x: u32)
    ensures
        words_bytes(words.push(x)) == words_bytes(words) + le_bytes(x),
{
    assert(words.push(x) =~= words + seq![x]);
    lemma_words_bytes_concat(words, seq![x]);
    lemma_words_bytes_single(x);
}

/// Reading back the words of serialized words gives the words.
pub proof fn lemma_bytes_words_inverts(words: Seq<u32>)
    ensures
        bytes_words(words_bytes(words)) == words,
{
    let bytes = words_bytes(words);
    let back = bytes_words(bytes);
    assert(back.len() == words.len());
    assert forall|n: int| 0 <= n < words.len() implies back[n] == words[n] by {
        lemma_le_word_of_bytes(words[n]);
        assert((4 * n) / 4 == n && (4 * n) % 4 == 0);
        assert((4 * n + 1) / 4 == n && (4 * n + 1) % 4 == 1);
        assert((4 * n + 2) / 4 == n && (4 * n + 2) % 4 == 2);
        assert((4 * n + 3) / 4 == n && (4 * n + 3) % 4 == 3);
    }
    assert(back =~= words);
}

/// Serializing the words read from whole words' worth of bytes gives the
/// bytes.
pub proof fn lemma_words_bytes_inverts(bytes: Seq<u8>)
    requires
        bytes.len() % 4 == 0,
    ensures
        words_bytes(bytes_words(bytes)) == bytes,
{
    let words = bytes_words(bytes);
    let back = words_bytes(words);
    assert(back.len() == bytes.len());
    assert forall|i: int| 0 <= i < bytes.len() implies back[i] == bytes[i] by {
        let n = i / 4;
        lemma_le_bytes_of_word(bytes[4 * n], bytes[4 * n + 1], bytes[4 * n + 2], bytes[4 * n + 3]);
    }
    assert(back =~= bytes);
}

/// Appending an attribute appends its six words.
pub proof fn lemma_attribute_words_push(attributes: Seq<FullVoxel>, v: FullVoxel)
    ensures
        attribute_words(attributes.push(v)) == attribute_words(attributes) + voxel_words(v),
{
    let left = attribute_words(attributes.push(v));
    let right = attribute_words(attributes) + voxel_words(v);
    assert(left.len() == right.len());
    assert forall|i: int| 0 <= i < left.len() implies left[i] == right[i] by {
        if i >= 6 * attributes.len() {
            let r = i - 6 * attributes.len();
            assert(i / 6 == attributes.len() && i % 6 == r);
        }
    }
    assert(left =~= right);
}

/// Reading back the attributes of their words gives the attributes.
pub proof fn lemma_words_attributes_inverts(attributes: Seq<FullVoxel>)
    ensures
        words_attributes(attribute_words(attributes)) == attributes,
{
    let words = attribute_words(attributes);
    let back = words_attributes(words);
    assert(back.len() == attributes.len());
    assert forall|k: int| 0 <= k < attributes.len() implies back[k] == attributes[k] by {
        assert((6 * k) / 6 == k && (6 * k) % 6 == 0);
        assert((6 * k + 1) / 6 == k && (6 * k + 1) % 6 == 1);
        assert((6 * k + 2) / 6 == k && (6 * k + 2) % 6 == 2);
        assert((6 * k + 3) / 6 == k && (6 * k + 3) % 6 == 3);
        assert((6 * k + 4) / 6 == k && (6 * k + 4) % 6 == 4);
        assert((6 * k + 5) / 6 == k && (6 * k + 5) % 6 == 5);
    }
    assert(back =~= attributes);
}

/// The words of the attributes read from whole records' worth of words
/// are those words.
pub proof fn lemma_attribute_words_inverts(words: Seq<u32>)
    requires
        words.len() % 6 == 0,
    ensures
        attribute_words(words_attributes(words)) == words,
{
    let attributes = words_attributes(words);
    let back = attribute_words(attributes);
    assert(back.len() == words.len());
    assert forall|i: int| 0 <= i < words.len() implies back[i] == words[i] by {
        let k = i / 6;
        assert(i == 6 * k + i % 6);
    }
    assert(back =~= words);
}

/// Appends the little-endian bytes of a word.
fn push_word(out: &mut Vec<u8>, x: u32)
    ensures
        final(out)@ == old(out)@ + le_bytes(x),
{
    assert(x & 0xff < 256 && (x >> 8) & 0xff < 256 && (x >> 16) & 0xff < 256 && (x >> 24) & 0xff
        < 256) by (bit_vector);
    out.push((x & 0xff) as u8);
    out.push(((x >> 8) & 0xff) as u8);
    out.push(((x >> 16) & 0xff) as u8);
    out.push(((x >> 24) & 0xff) as u8);
    assert(out@ =~= old(out)@ + le_bytes(x));
}

/// Reads the little-endian word that starts at byte `at`.
pub(crate) fn read_word(bytes: &[u8], at: usize) -> (x: u32)
    requires
        at + 4 <= bytes@.len(),
    ensures
        x == le_word(bytes@[at as int], bytes@[at + 1], bytes@[at + 2], bytes@[at + 3]),
{
    let b0 = bytes[at];
    let b1 = bytes[at + 1];
    let b2 = bytes[at + 2];
    let b3 = bytes[at + 3];
    (b0 as u32) | ((b1 as u32) << 8) | ((b2 as u32) << 16) | ((b3 as u32) << 24)
}

/// Appends the bytes of a sequence of words.
fn append_words(out: &mut Vec<u8>, words: &[u32])
    ensures
        final(out)@ == old(out)@ + words_bytes(words@),
{
    let mut n: usize = 0;
    assert(words@.take(0) =~= Seq::<u32>::empty());
    assert(out@ =~= old(out)@ + words_bytes(words@.take(0)));
    while n < words.len()
        invariant
            n <= words@.len(),
            out@ == old(out)@ + words_bytes(words@.take(n as int)),
        decreases words@.len() - n,
    {
        push_word(out, words[n]);
        proof {
            assert(words@.take(n + 1) =~= words@.take(n as int).push(words@[n as int]));
            lemma_words_bytes_push(words@.take(n as int), words@[n as int]);
            assert(out@ =~= old(out)@ + words_bytes(words@.take(n + 1)));
        }
        n += 1;
    }
    assert(words@.take(n as int) =~= words@);
}

/// Appends the 24-byte records of a sequence of attributes.
fn append_attributes(out: &mut Vec<u8>, attributes: &Vec<FullVoxel>)
    ensures
        final(out)@ == old(out)@ + attribute_bytes(attributes@),
{
    let mut k: usize = 0;
    assert(attribute_words(attributes@.take(0)) =~= Seq::<u32>::empty());
    assert(out@ =~= old(out)@ + attribute_bytes(attributes@.take(0)));
    while k < attributes.len()
        invariant
            k <= attributes@.len(),
            out@ == old(out)@ + attribute_bytes(attributes@.take(k as int)),
        decreases attributes@.len() - k,
    {
        let v = attributes[k];
        let ghost before = out@;
        push_word(out, v.normal.x);
        push_word(out, v.normal.y);
        push_word(out, v.normal.z);
        push_word(out, v.color.x);
        push_word(out, v.color.y);
        push_word(out, v.color.z);
        proof {
            let done = attributes@.take(k as int);
            assert(attributes@.take(k + 1) =~= done.push(v));
            lemma_attribute_words_push(done, v);
            lemma_words_bytes_concat(attribute_words(done), voxel_words(v));
            lemma_voxel_bytes(v);
            assert(out@ =~= before + words_bytes(voxel_words(v)));
            assert(out@ =~= old(out)@ + attribute_bytes(attributes@.take(k + 1)));
        }
        k += 1;
    }
    assert(attributes@.take(k as int) =~= attributes@);
}

/// One attribute serializes to the bytes of its six words in order.
proof fn lemma_voxel_bytes(v: FullVoxel)
    ensures
        words_bytes(voxel_words(v)) == le_bytes(v.normal.x) + le_bytes(v.normal.y) + le_bytes(
            v.normal.z,
        ) + le_bytes(v.color.x) + le_bytes(v.color.y) + le_bytes(v.color.z),
        words_bytes(voxel_words(v)).len() == ATTRIBUTE_BYTES,
{
    let w0 = Seq::<u32>::empty();
    let w1 = w0.push(v.normal.x);
    let w2 = w1.push(v.normal.y);
    let w3 = w2.push(v.normal.z);
    let w4 = w3.push(v.color.x);
    let w5 = w4.push(v.color.y);
    let w6 = w5.push(v.color.z);
    assert(w6 =~= voxel_words(v));
    assert(words_bytes(w0) =~= Seq::<u8>::empty());
    lemma_words_bytes_push(w0, v.normal.x);
    lemma_words_bytes_push(w1, v.normal.y);
    lemma_words_bytes_push(w2, v.normal.z);
    lemma_words_bytes_push(w3, v.color.x);
    lemma_words_bytes_push(w4, v.color.y);
    lemma_words_bytes_push(w5, v.color.z);
    assert(words_bytes(w1) =~= le_bytes(v.normal.x));
}

impl GpuChunkOccupancy {
    /// Serializes the bitmask: 8192 little-endian words.
    pub fn to_bytes(&self) -> (bytes: Vec<u8>)
        ensures
            bytes@ == words_bytes(self.occupancy@),
            bytes@.len() == OCCUPANCY_BYTES,
    {
        let mut bytes: Vec<u8> = Vec::new();
        append_words(&mut bytes, self.occupancy.as_slice());
        assert(bytes@ =~= words_bytes(self.occupancy@));
        bytes
    }
}

impl GpuChunkAttributes {
    /// Serializes the attributes: one 24-byte record each, in order,
    /// without padding.
    pub fn to_bytes(&self) -> (bytes: Vec<u8>)
        ensures
            bytes@ == attribute_bytes(self.attributes@),
            bytes@.len() == ATTRIBUTE_BYTES * self.attributes@.len(),
    {
        let mut bytes: Vec<u8> = Vec::new();
        append_attributes(&mut bytes, &self.attributes);
        assert(bytes@ =~= attribute_bytes(self.attributes@));
        bytes
    }
}

impl Chunk {
    /// Serializes the chunk into one buffer: the occupancy bitmask, then the
    /// attribute records of the occupied cells, with nothing in between.
    pub fn encode_combined(&self) -> (bytes: Vec<u8>)
        requires
            self.wf(),
        ensures
            bytes@ == combined_bytes(self@),
    {
        let occupancy = self.prepare_occupancy();
        let attributes = self.prepare_attributes();
        let mut bytes: Vec<u8> = Vec::new();
        append_words(&mut bytes, occupancy.occupancy.as_slice());
        append_attributes(&mut bytes, &attributes.attributes);
        assert(bytes@ =~= combined_bytes(self@));
        bytes
    }
}

} // verus!
