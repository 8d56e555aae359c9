//! The chunk instances of a frame: which of them are visible, and in
//! which order they are drawn.

use vstd::prelude::*;
use crate::order::{
    distinct_entities, entities_of, lemma_ordered_entities, lemma_ordered_permutes,
    lemma_ordered_strictly_ascending, lemma_strictly_ascending_unique,
    lemma_strictly_increasing_unique, ordered, strictly_increasing,
};

verus! {

/// A 4x4 matrix of single-precision values, column by column, each value
/// carried as its IEEE-754 bit pattern.
#[derive(Clone, Copy, Debug, PartialEq, Eq)]
pub struct Mat4Bits {
    pub cols: [u32; 16],
}

/// One placement of a chunk asset in the scene, as the scene reports it
/// for a frame.
#[derive(Clone, Copy, Debug, PartialEq, Eq)]
pub struct ChunkInstance {
    /// The scene's stable ordinal of the instance. Frames are laid out by
    /// it.
    pub entity: u32,
    /// The chunk asset that the instance shows.
    pub asset: u64,
    /// The instance's world transform.
    pub transform: Mat4Bits,
    /// Whether the scene's visibility pass kept the instance.
    pub visible: bool,
}

/// The visible instances among the first `n` candidates, in the order in
/// which the scene reports them.
pub open spec fn visible_before(candidates: Seq<ChunkInstance>, n: int) -> Seq<ChunkInstance>
    decreases n,
{
    if n <= 0 {
        Seq::empty()
    } else if candidates[n - 1].visible {
        visible_before(candidates, n - 1).push(candidates[n - 1])
    } else {
        visible_before(candidates, n - 1)
    }
}

/// The visible instances, in the order in which the scene reports them.
pub open spec fn visible_instances(candidates: Seq<ChunkInstance>) -> Seq<ChunkInstance> {
    visible_before(candidates, candidates.len() as int)
}

/// The draw order of a frame: the visible instances by ascending ordinal.
pub open spec fn frame_order(candidates: Seq<ChunkInstance>) -> Seq<ChunkInstance> {
    ordered(visible_instances(candidates))
}

/// Keeps the instances that the scene flags visible.
pub fn filter_visible(candidates: &Vec<ChunkInstance>) -> (visible: Vec<ChunkInstance>)
    ensures
        visible@ == visible_instances(candidates@),
{
    let mut visible: Vec<ChunkInstance> = Vec::new();
    let mut n: usize = 0;
    while n < candidates.len()
        invariant
            n <= candidates@.len(),
            visible@ == visible_before(candidates@, n as int),
        decreases candidates@.len() - n,
    {
        if candidates[n].visible {
            visible.push(candidates[n]);
        }
        n += 1;
    }
    visible
}

/// The instances that are visible in a frame, by their ordinals.
#[derive(Clone, Debug)]
pub struct RenderableChunks(pub Vec<u32>);

/// Lists the ordinals of the visible instances, in the order in which the
/// scene reports them.
pub fn collect_renderable_chunks(candidates: &Vec<ChunkInstance>) -> (renderable: RenderableChunks)
    ensures
        renderable.0@ == entities_of(visible_instances(candidates@)),
{
    let mut entities: Vec<u32> = Vec::new();
    let mut n: usize = 0;
    assert(entities@ =~= entities_of(visible_before(candidates@, 0)));
    while n < candidates.len()
        invariant
            n <= candidates@.len(),
            entities@ == entities_of(visible_before(candidates@, n as int)),
        decreases candidates@.len() - n,
    {
        if candidates[n].visible {
            entities.push(candidates[n].entity);
            assert(entities@ =~= entities_of(visible_before(candidates@, n + 1)));
        }
        n += 1;
    }
    RenderableChunks(entities)
}

/// The draw order depends on nothing but the set of visible instances:
/// two frames that see the same instances, each under an ordinal of its
/// own, lay them out alike, in whatever order the scene reports them.
pub proof fn lemma_frame_order_deterministic(
    first: Seq<ChunkInstance>,
    second: Seq<ChunkInstance>,
)
    requires
        distinct_entities(visible_instances(first)),
        distinct_entities(visible_instances(second)),
        visible_instances(first).to_set() == visible_instances(second).to_set(),
    ensures
        frame_order(first) == frame_order(second),
{
    let va = visible_instances(first);
    let vb = visible_instances(second);
    lemma_ordered_permutes(va);
    lemma_ordered_permutes(vb);
    lemma_ordered_strictly_ascending(va);
    lemma_ordered_strictly_ascending(vb);
    assert forall|x: ChunkInstance| ordered(va).contains(x) <==> ordered(vb).contains(x) by {
        assert(va.to_set().contains(x) == va.contains(x));
        assert(vb.to_set().contains(x) == vb.contains(x));
    }
    lemma_strictly_ascending_unique(ordered(va), ordered(vb));
}

/// The layout of a frame depends on nothing but which instances are
/// visible: two frames whose visible instances carry the same ordinals,
/// none of them twice, line these ordinals up alike, wherever the
/// instances have moved and in whatever order the scene reports them.
pub proof fn lemma_frame_layout_deterministic(
    first: Seq<ChunkInstance>,
    second: Seq<ChunkInstance>,
)
    requires
        distinct_entities(visible_instances(first)),
        distinct_entities(visible_instances(second)),
        entities_of(visible_instances(first)).to_set() == entities_of(
            visible_instances(second),
        ).to_set(),
    ensures
        entities_of(frame_order(first)) == entities_of(frame_order(second)),
{
    let va = visible_instances(first);
    let vb = visible_instances(second);
    let ka = entities_of(ordered(va));
    let kb = entities_of(ordered(vb));
    lemma_ordered_strictly_ascending(va);
    lemma_ordered_strictly_ascending(vb);
    assert(strictly_increasing(ka)) by {
        assert forall|i: int, j: int| 0 <= i < j < ka.len() implies ka[i] < ka[j] by {
            assert(ordered(va)[i].entity < ordered(va)[j].entity);
        }
    }
    assert(strictly_increasing(kb)) by {
        assert forall|i: int, j: int| 0 <= i < j < kb.len() implies kb[i] < kb[j] by {
            assert(ordered(vb)[i].entity < ordered(vb)[j].entity);
        }
    }
    lemma_ordered_entities(va);
    lemma_ordered_entities(vb);
    assert forall|e: u32| ka.contains(e) <==> kb.contains(e) by {
        assert(entities_of(va).to_set().contains(e) == entities_of(va).contains(e));
        assert(entities_of(vb).to_set().contains(e) == entities_of(vb).contains(e));
    }
    lemma_strictly_increasing_unique(ka, kb);
}

} // verus!
