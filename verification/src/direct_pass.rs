//! The direct lighting pass: which chunks it renders in a frame, what it
//! binds, and how large its dispatch is.

use vstd::prelude::*;
use crate::cache::{
    uploaded_buffers, BufferHandle, CacheEntry, ChunkResourceCache, GpuChunkBuffers,
};
use crate::error::FrameError;
use crate::frame::{
    filter_visible, frame_order, lemma_frame_order_deterministic, visible_instances,
    ChunkInstance, Mat4Bits,
};
use crate::order::{
    ascending, distinct_entities, lemma_ordered_ascending, lemma_ordered_permutes,
    order_by_entity,
};
use crate::MAX_CHUNKS;

verus! {

/// Workgroups that one chunk takes along each axis.
pub const WORKGROUPS_PER_AXIS: u32 = 16;

/// Size in bytes of a chunk's output buffer: three 4-byte values for each
/// of the 262144 voxel cells.
pub const OUTPUT_BUFFER_BYTES: u64 = 3145728;

/// A visible chunk instance whose asset is uploaded: all that a rendered
/// chunk needs but its output buffer.
#[derive(Clone, Copy, Debug, PartialEq, Eq)]
pub struct PlannedChunk {
    pub entity: u32,
    pub transform: Mat4Bits,
    pub chunk_asset_id: u64,
    pub occupancy_buffer: BufferHandle,
    pub attribute_buffer: BufferHandle,
}

/// What a frame will render, before the output buffers are made.
#[derive(Clone, Debug)]
pub struct FramePlan {
    /// The chunks to render, in draw order.
    pub chunks: Vec<PlannedChunk>,
    /// The ordinals of the visible instances that are left out of this
    /// frame because their asset is not uploaded yet, in draw order.
    pub missing: Vec<u32>,
}

/// A chunk instance with all the buffers that the pass binds for it.
#[derive(Clone, Copy, Debug, PartialEq, Eq)]
pub struct RenderedChunk {
    pub entity: u32,
    pub transform: Mat4Bits,
    pub chunk_asset_id: u64,
    pub occupancy_buffer: BufferHandle,
    pub attribute_buffer: BufferHandle,
    pub direct_pass_output_buffer: BufferHandle,
}

/// The chunks of a frame, in draw order.
#[derive(Clone, Debug)]
pub struct ChunksToRender(pub Vec<RenderedChunk>);

/// The data that the chunks of a frame share: their world transforms, in
/// draw order.
#[derive(Clone, Debug)]
pub struct DirectPassGlobalBuffers {
    pub transform_buffer: Vec<Mat4Bits>,
}

/// The planned chunk of an instance whose asset has these buffers.
pub open spec fn planned_chunk(instance: ChunkInstance, buffers: GpuChunkBuffers) -> PlannedChunk {
    PlannedChunk {
        entity: instance.entity,
        transform: instance.transform,
        chunk_asset_id: instance.asset,
        occupancy_buffer: buffers.occupancy_buffer,
        attribute_buffer: buffers.attribute_buffer,
    }
}

/// The planned chunks of those among the first `n` instances whose asset
/// is uploaded, in their order.
pub open spec fn ready_before(
    order: Seq<ChunkInstance>,
    entries: Map<u64, CacheEntry>,
    n: int,
) -> Seq<PlannedChunk>
    decreases n,
{
    if n <= 0 {
        Seq::empty()
    } else if uploaded_buffers(entries, order[n - 1].asset) is Some {
        ready_before(order, entries, n - 1).push(
            planned_chunk(order[n - 1], uploaded_buffers(entries, order[n - 1].asset)->0),
        )
    } else {
        ready_before(order, entries, n - 1)
    }
}

/// The ordinals of those among the first `n` instances whose asset is not
/// uploaded, in their order.
pub open spec fn missing_before(
    order: Seq<ChunkInstance>,
    entries: Map<u64, CacheEntry>,
    n: int,
) -> Seq<u32>
    decreases n,
{
    if n <= 0 {
        Seq::empty()
    } else if uploaded_buffers(entries, order[n - 1].asset) is Some {
        missing_before(order, entries, n - 1)
    } else {
        missing_before(order, entries, n - 1).push(order[n - 1].entity)
    }
}

/// The chunks that a frame renders: the visible instances whose asset is
/// uploaded, in draw order.
pub open spec fn frame_chunks(candidates: Seq<ChunkInstance>, entries: Map<u64, CacheEntry>) -> Seq<
    PlannedChunk,
> {
    ready_before(frame_order(candidates), entries, frame_order(candidates).len() as int)
}

/// The visible instances that a frame leaves out because their asset is
/// not uploaded, in draw order.
pub open spec fn frame_missing(candidates: Seq<ChunkInstance>, entries: Map<u64, CacheEntry>) -> Seq<
    u32,
> {
    missing_before(frame_order(candidates), entries, frame_order(candidates).len() as int)
}

/// The ordinals of the planned chunks never go down.
pub open spec fn planned_ascending(chunks: Seq<PlannedChunk>) -> bool {
    forall|i: int, j: int| 0 <= i < j < chunks.len() ==> chunks[i].entity <= chunks[j].entity
}

impl FramePlan {
    /// A plan binds no more chunks than a dispatch can take, in ascending
    /// order of their ordinals.
    pub open spec fn wf(&self) -> bool {
        &&& self.chunks@.len() <= MAX_CHUNKS
        &&& planned_ascending(self.chunks@)
    }
}

/// Every instance is either planned or reported missing, and the planned
/// chunks keep the ascending order of the instances.
pub proof fn lemma_ready_before(order: Seq<ChunkInstance>, entries: Map<u64, CacheEntry>, n: int)
    requires
        ascending(order),
        0 <= n <= order.len(),
    ensures
        ready_before(order, entries, n).len() + missing_before(order, entries, n).len() == n,
        planned_ascending(ready_before(order, entries, n)),
        forall|k: int|
            0 <= k < ready_before(order, entries, n).len() ==> exists|i: int|
                0 <= i < n && order[i].entity == #[trigger] ready_before(order, entries, n)[k].entity,
    decreases n,
{
    if n > 0 {
        lemma_ready_before(order, entries, n - 1);
        let before = ready_before(order, entries, n - 1);
        let now = ready_before(order, entries, n);
        if uploaded_buffers(entries, order[n - 1].asset) is Some {
            assert forall|k: int| 0 <= k < now.len() implies exists|i: int|
                0 <= i < n && order[i].entity == #[trigger] now[k].entity by {
                if k < before.len() {
                    let i = choose|i: int| 0 <= i < n - 1 && order[i].entity == before[k].entity;
                    assert(order[i].entity == now[k].entity);
                } else {
                    assert(order[n - 1].entity == now[k].entity);
                }
            }
            assert forall|i: int, j: int| 0 <= i < j < now.len() implies now[i].entity
                <= now[j].entity by {
                if j == before.len() {
                    let p = choose|p: int| 0 <= p < n - 1 && order[p].entity == before[i].entity;
                    assert(order[p].entity <= order[n - 1].entity);
                } else {
                    assert(before[i].entity <= before[j].entity);
                }
            }
        } else {
            assert forall|k: int| 0 <= k < now.len() implies exists|i: int|
                0 <= i < n && order[i].entity == #[trigger] now[k].entity by {
                let i = choose|i: int| 0 <= i < n - 1 && order[i].entity == before[k].entity;
                assert(order[i].entity == now[k].entity);
            }
        }
    }
}

/// No visible instance is dropped in silence: each one is either rendered
/// or reported as left out.
pub proof fn lemma_frame_accounts_for_all(
    candidates: Seq<ChunkInstance>,
    entries: Map<u64, CacheEntry>,
)
    ensures
        frame_chunks(candidates, entries).len() + frame_missing(candidates, entries).len()
            == visible_instances(candidates).len(),
        planned_ascending(frame_chunks(candidates, entries)),
{
    lemma_ordered_permutes(visible_instances(candidates));
    lemma_ordered_ascending(visible_instances(candidates));
    lemma_ready_before(frame_order(candidates), entries, frame_order(candidates).len() as int);
}

/// Settles what a frame renders: the visible instances, in ascending
/// order of their ordinals, each with the buffers of its asset. More
/// visible instances than a dispatch can bind fail the frame; nothing is
/// cut off. A visible instance whose asset is not uploaded yet is left out
/// and reported in the plan.
pub fn plan_frame(candidates: &Vec<ChunkInstance>, cache: &ChunkResourceCache) -> (result: Result<
    FramePlan,
    FrameError,
>)
    ensures
        result is Ok <==> visible_instances(candidates@).len() <= MAX_CHUNKS,
        result matches Err(e) ==> e == (FrameError::CapacityExceeded {
            max: MAX_CHUNKS,
            visible: visible_instances(candidates@).len() as usize,
        }),
        result matches Ok(plan) ==> {
            &&& plan.wf()
            &&& plan.chunks@ == frame_chunks(candidates@, cache@)
            &&& plan.missing@ == frame_missing(candidates@, cache@)
            &&& plan.chunks@.len() + plan.missing@.len() == visible_instances(candidates@).len()
        },
{
    let visible = filter_visible(candidates);
    if visible.len() > MAX_CHUNKS {
        return Err(FrameError::CapacityExceeded { max: MAX_CHUNKS, visible: visible.len() });
    }
    let order = order_by_entity(&visible);
    proof {
        lemma_ordered_permutes(visible@);
        lemma_ordered_ascending(visible@);
    }
    let mut chunks: Vec<PlannedChunk> = Vec::new();
    let mut missing: Vec<u32> = Vec::new();
    let mut n: usize = 0;
    while n < order.len()
        invariant
            n <= order@.len(),
            chunks@ == ready_before(order@, cache@, n as int),
            missing@ == missing_before(order@, cache@, n as int),
        decreases order@.len() - n,
    {
        let instance = order[n];
        match cache.get(instance.asset) {
            Some(buffers) => {
                chunks.push(
                    PlannedChunk {
                        entity: instance.entity,
                        transform: instance.transform,
                        chunk_asset_id: instance.asset,
                        occupancy_buffer: buffers.occupancy_buffer,
                        attribute_buffer: buffers.attribute_buffer,
                    },
                );
            },
            None => {
                missing.push(instance.entity);
            },
        }
        n += 1;
    }
    proof {
        lemma_ready_before(order@, cache@, order@.len() as int);
    }
    Ok(FramePlan { chunks, missing })
}

/// The output buffers that the rendering host has to make for a plan: one
/// per chunk, in draw order, each of this size in bytes.
pub fn output_buffer_sizes(plan: &FramePlan) -> (sizes: Vec<u64>)
    ensures
        sizes@ == Seq::new(plan.chunks@.len(), |k: int| OUTPUT_BUFFER_BYTES),
{
    let mut sizes: Vec<u64> = Vec::new();
    let mut k: usize = 0;
    while k < plan.chunks.len()
        invariant
            k <= plan.chunks@.len(),
            sizes@ == Seq::new(k as nat, |k: int| OUTPUT_BUFFER_BYTES),
        decreases plan.chunks@.len() - k,
    {
        sizes.push(OUTPUT_BUFFER_BYTES);
        assert(sizes@ =~= Seq::new((k + 1) as nat, |k: int| OUTPUT_BUFFER_BYTES));
        k += 1;
    }
    sizes
}

/// The output buffer that the rendering host made for chunk `k` of a plan,
/// if it made one.
pub open spec fn output_at(outputs: Seq<Option<BufferHandle>>, k: int) -> Option<BufferHandle> {
    if 0 <= k < outputs.len() {
        outputs[k]
    } else {
        None
    }
}

/// The first of the chunks `0..n` that has no output buffer, or `n` if
/// each has one.
pub open spec fn first_unserved(outputs: Seq<Option<BufferHandle>>, n: int) -> int
    decreases n,
{
    if n <= 0 {
        0
    } else if first_unserved(outputs, n - 1) < n - 1 {
        first_unserved(outputs, n - 1)
    } else if output_at(outputs, n - 1) is None {
        n - 1
    } else {
        n
    }
}

/// The rendered chunk that a planned chunk and its output buffer make.
pub open spec fn rendered_chunk(chunk: PlannedChunk, output: BufferHandle) -> RenderedChunk {
    RenderedChunk {
        entity: chunk.entity,
        transform: chunk.transform,
        chunk_asset_id: chunk.chunk_asset_id,
        occupancy_buffer: chunk.occupancy_buffer,
        attribute_buffer: chunk.attribute_buffer,
        direct_pass_output_buffer: output,
    }
}

impl ChunksToRender {
    /// No more chunks than a dispatch can bind, in ascending order of
    /// their ordinals.
    pub open spec fn wf(&self) -> bool {
        &&& self.0@.len() <= MAX_CHUNKS
        &&& forall|i: int, j: int|
            0 <= i < j < self.0@.len() ==> self.0@[i].entity <= self.0@[j].entity
    }
}

/// The first unserved chunk is unserved, and every chunk before it is
/// served.
pub proof fn lemma_first_unserved(outputs: Seq<Option<BufferHandle>>, n: int)
    requires
        0 <= n,
    ensures
        0 <= first_unserved(outputs, n) <= n,
        forall|k: int| 0 <= k < first_unserved(outputs, n) ==> output_at(outputs, k) is Some,
        first_unserved(outputs, n) < n ==> output_at(outputs, first_unserved(outputs, n)) is None,
    decreases n,
{
    if n > 0 {
        lemma_first_unserved(outputs, n - 1);
    }
}

/// Completes the chunks of a plan with the output buffers that the
/// rendering host made for them, `outputs[k]` for chunk `k`, and lines up
/// their transforms. A chunk without an output buffer fails the frame and
/// names its asset; output buffers beyond the plan are not used.
pub fn prepare_renderable_chunks(plan: &FramePlan, outputs: &Vec<Option<BufferHandle>>) -> (result:
    Result<(ChunksToRender, DirectPassGlobalBuffers), FrameError>)
    ensures
        result is Ok <==> first_unserved(outputs@, plan.chunks@.len() as int)
            == plan.chunks@.len(),
        result matches Err(e) ==> e == (FrameError::DeviceResourceExhausted {
            asset: plan.chunks@[first_unserved(
                outputs@,
                plan.chunks@.len() as int,
            )].chunk_asset_id,
        }),
        result matches Ok((chunks, globals)) ==> {
            &&& plan.chunks@.len() <= outputs@.len()
            &&& chunks.0@.len() == plan.chunks@.len()
            &&& globals.transform_buffer@.len() == plan.chunks@.len()
            &&& forall|k: int| 0 <= k < plan.chunks@.len() ==> (#[trigger] outputs@[k]) is Some
            &&& forall|k: int|
                0 <= k < plan.chunks@.len() ==> #[trigger] chunks.0@[k] == rendered_chunk(
                    plan.chunks@[k],
                    outputs@[k]->0,
                )
            &&& forall|k: int|
                0 <= k < plan.chunks@.len() ==> #[trigger] globals.transform_buffer@[k]
                    == plan.chunks@[k].transform
            &&& plan.wf() ==> chunks.wf()
        },
{
    let mut chunks: Vec<RenderedChunk> = Vec::new();
    let mut transforms: Vec<Mat4Bits> = Vec::new();
    let mut k: usize = 0;
    while k < plan.chunks.len()
        invariant
            k <= plan.chunks@.len(),
            first_unserved(outputs@, k as int) == k,
            chunks@.len() == k,
            transforms@.len() == k,
            k <= outputs@.len(),
            forall|i: int| 0 <= i < k ==> (#[trigger] outputs@[i]) is Some,
            forall|i: int|
                0 <= i < k ==> #[trigger] chunks@[i] == rendered_chunk(
                    plan.chunks@[i],
                    outputs@[i]->0,
                ),
            forall|i: int| 0 <= i < k ==> #[trigger] transforms@[i] == plan.chunks@[i].transform,
        decreases plan.chunks@.len() - k,
    {
        let planned = plan.chunks[k];
        let output = if k < outputs.len() {
            outputs[k]
        } else {
            None
        };
        match output {
            Some(buffer) => {
                chunks.push(
                    RenderedChunk {
                        entity: planned.entity,
                        transform: planned.transform,
                        chunk_asset_id: planned.chunk_asset_id,
                        occupancy_buffer: planned.occupancy_buffer,
                        attribute_buffer: planned.attribute_buffer,
                        direct_pass_output_buffer: buffer,
                    },
                );
                transforms.push(planned.transform);
            },
            None => {
                proof {
                    lemma_unserved_stays(outputs@, k as int, plan.chunks@.len() as int);
                }
                return Err(FrameError::DeviceResourceExhausted { asset: planned.chunk_asset_id });
            },
        }
        k += 1;
    }
    Ok((ChunksToRender(chunks), DirectPassGlobalBuffers { transform_buffer: transforms }))
}

/// Once a chunk is unserved, looking further finds no earlier one.
proof fn lemma_unserved_stays(outputs: Seq<Option<BufferHandle>>, k: int, n: int)
    requires
        0 <= k < n,
        first_unserved(outputs, k) == k,
        output_at(outputs, k) is None,
    ensures
        first_unserved(outputs, n) == k,
    decreases n,
{
    if n > k + 1 {
        lemma_unserved_stays(outputs, k, n - 1);
    }
}

/// What the pass binds: per chunk, in draw order, the occupancy bitmask,
/// the attributes and the output buffer; and for all chunks together the
/// transforms and the lights.
#[derive(Clone, Debug)]
pub struct DirectPassBindings {
    pub occupancy: Vec<BufferHandle>,
    pub attributes: Vec<BufferHandle>,
    pub outputs: Vec<BufferHandle>,
    pub transforms: BufferHandle,
    pub lights: BufferHandle,
}

/// The bindings of a frame, and the number of chunks that they cover.
#[derive(Clone, Debug)]
pub struct DirectPassBindGroup(pub DirectPassBindings, pub usize);

impl DirectPassBindGroup {
    /// Each binding array has one entry per chunk, and there are no more
    /// chunks than the arrays of the shader can take.
    pub open spec fn wf(&self) -> bool {
        &&& self.1 <= MAX_CHUNKS
        &&& self.0.occupancy@.len() == self.1
        &&& self.0.attributes@.len() == self.1
        &&& self.0.outputs@.len() == self.1
    }
}

/// Gathers the bindings of a frame from its chunks, the uploaded
/// transforms and the uploaded lights. More chunks than the binding arrays
/// can take are turned down.
pub fn prepare_direct_pass_bind_groups(
    chunks_to_render: &ChunksToRender,
    transform_buffer: BufferHandle,
    sun_light_buffer: BufferHandle,
) -> (result: Result<DirectPassBindGroup, FrameError>)
    ensures
        result is Ok <==> chunks_to_render.0@.len() <= MAX_CHUNKS,
        result matches Err(e) ==> e == (FrameError::CapacityExceeded {
            max: MAX_CHUNKS,
            visible: chunks_to_render.0@.len() as usize,
        }),
        result matches Ok(group) ==> {
            &&& group.wf()
            &&& group.1 == chunks_to_render.0@.len()
            &&& group.0.transforms == transform_buffer
            &&& group.0.lights == sun_light_buffer
            &&& forall|k: int|
                #![trigger chunks_to_render.0@[k]]
                0 <= k < chunks_to_render.0@.len() ==> {
                    &&& group.0.occupancy@[k] == chunks_to_render.0@[k].occupancy_buffer
                    &&& group.0.attributes@[k] == chunks_to_render.0@[k].attribute_buffer
                    &&& group.0.outputs@[k] == chunks_to_render.0@[k].direct_pass_output_buffer
                }
        },
{
    let count = chunks_to_render.0.len();
    if count > MAX_CHUNKS {
        return Err(FrameError::CapacityExceeded { max: MAX_CHUNKS, visible: count });
    }
    let mut occupancy: Vec<BufferHandle> = Vec::new();
    let mut attributes: Vec<BufferHandle> = Vec::new();
    let mut outputs: Vec<BufferHandle> = Vec::new();
    let mut k: usize = 0;
    while k < count
        invariant
            k <= count,
            count == chunks_to_render.0@.len(),
            occupancy@.len() == k,
            attributes@.len() == k,
            outputs@.len() == k,
            forall|i: int|
                #![trigger chunks_to_render.0@[i]]
                0 <= i < k ==> {
                    &&& occupancy@[i] == chunks_to_render.0@[i].occupancy_buffer
                    &&& attributes@[i] == chunks_to_render.0@[i].attribute_buffer
                    &&& outputs@[i] == chunks_to_render.0@[i].direct_pass_output_buffer
                },
        decreases count - k,
    {
        let chunk = chunks_to_render.0[k];
        occupancy.push(chunk.occupancy_buffer);
        attributes.push(chunk.attribute_buffer);
        outputs.push(chunk.direct_pass_output_buffer);
        k += 1;
    }
    Ok(
        DirectPassBindGroup(
            DirectPassBindings {
                occupancy,
                attributes,
                outputs,
                transforms: transform_buffer,
                lights: sun_light_buffer,
            },
            count,
        ),
    )
}

/// The workgroup grid of the dispatch: a fixed tiling of one chunk along
/// the first two axes, and that tiling once per chunk along the third.
pub open spec fn workgroup_grid(chunk_count: int) -> (u32, u32, u32) {
    (WORKGROUPS_PER_AXIS, WORKGROUPS_PER_AXIS, (WORKGROUPS_PER_AXIS * chunk_count) as u32)
}

/// Decides the dispatch of a frame. There is none while the pipeline is
/// not compiled yet, and none for a frame without chunks.
pub fn direct_pass_dispatch(pipeline_ready: bool, bind_group: &DirectPassBindGroup) -> (grid:
    Option<(u32, u32, u32)>)
    requires
        bind_group.wf(),
    ensures
        grid == if pipeline_ready && bind_group.1 > 0 {
            Some(workgroup_grid(bind_group.1 as int))
        } else {
            None::<(u32, u32, u32)>
        },
        grid matches Some(g) ==> g.2 == 16 * bind_group.1,
{
    if pipeline_ready && bind_group.1 > 0 {
        let chunks = bind_group.1 as u32;
        Some((WORKGROUPS_PER_AXIS, WORKGROUPS_PER_AXIS, WORKGROUPS_PER_AXIS * chunks))
    } else {
        None
    }
}

/// How one binding of the pass is laid out.
#[derive(Clone, Copy, Debug, PartialEq, Eq)]
pub struct BindingLayout {
    /// The slot of the binding.
    pub binding: u32,
    /// Whether the shader only reads the buffers.
    pub read_only: bool,
    /// The length of the binding array, for a binding that is one.
    pub count: Option<u32>,
}

/// The layout of a binding array with one storage buffer per chunk.
pub open spec fn per_chunk_binding(binding: u32) -> BindingLayout {
    BindingLayout { binding, read_only: false, count: Some(MAX_CHUNKS as u32) }
}

/// The layout of a read-only storage buffer that all chunks share.
pub open spec fn shared_binding(binding: u32) -> BindingLayout {
    BindingLayout { binding, read_only: true, count: None }
}

/// The bindings of the pass, by slot: occupancy bitmasks, attributes,
/// outputs, transforms, lights.
pub fn direct_pass_layout() -> (layout: [BindingLayout; 5])
    ensures
        layout@ == seq![
            per_chunk_binding(0),
            per_chunk_binding(1),
            per_chunk_binding(2),
            shared_binding(3),
            shared_binding(4),
        ],
{
    let per_chunk = Some(MAX_CHUNKS as u32);
    let layout = [
        BindingLayout { binding: 0, read_only: false, count: per_chunk },
        BindingLayout { binding: 1, read_only: false, count: per_chunk },
        BindingLayout { binding: 2, read_only: false, count: per_chunk },
        BindingLayout { binding: 3, read_only: true, count: None },
        BindingLayout { binding: 4, read_only: true, count: None },
    ];
    assert(layout@ =~= seq![
        per_chunk_binding(0),
        per_chunk_binding(1),
        per_chunk_binding(2),
        shared_binding(3),
        shared_binding(4),
    ]);
    layout
}

/// Two frames that see the same instances, each under an ordinal of its
/// own, and find the same assets uploaded render the same chunks in the
/// same order.
pub proof fn lemma_frame_chunks_deterministic(
    first: Seq<ChunkInstance>,
    second: Seq<ChunkInstance>,
    entries: Map<u64, CacheEntry>,
)
    requires
        distinct_entities(visible_instances(first)),
        distinct_entities(visible_instances(second)),
        visible_instances(first).to_set() == visible_instances(second).to_set(),
    ensures
        frame_chunks(first, entries) == frame_chunks(second, entries),
        frame_missing(first, entries) == frame_missing(second, entries),
{
    lemma_frame_order_deterministic(first, second);
}

} // verus!
