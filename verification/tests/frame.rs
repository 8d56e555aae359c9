use manoka::cache::{BufferHandle, CacheAction, ChunkResourceCache, GpuChunkBuffers};
use manoka::direct_pass::{
    direct_pass_dispatch, direct_pass_layout, output_buffer_sizes, plan_frame, prepare_direct_pass_bind_groups,
    prepare_renderable_chunks, BindingLayout, ChunksToRender, FramePlan, PlannedChunk, RenderedChunk,
    OUTPUT_BUFFER_BYTES, WORKGROUPS_PER_AXIS,
};
use manoka::error::FrameError;
use manoka::frame::{collect_renderable_chunks, filter_visible, ChunkInstance, Mat4Bits};
use manoka::order::order_by_entity;
use manoka::MAX_CHUNKS;

fn matrix(seed: u32) -> Mat4Bits {
    let mut cols = [0u32; 16];
    for (k, c) in cols.iter_mut().enumerate() {
        *c = (seed as f32 + k as f32 * 0.5).to_bits();
    }
    Mat4Bits { cols }
}

fn instance(entity: u32, asset: u64, visible: bool) -> ChunkInstance {
    ChunkInstance { entity, asset, transform: matrix(entity), visible }
}

fn buffers(asset: u64) -> GpuChunkBuffers {
    GpuChunkBuffers {
        occupancy_buffer: BufferHandle(asset * 10 + 1),
        attribute_buffer: BufferHandle(asset * 10 + 2),
    }
}

fn cache_with(assets: &[u64]) -> ChunkResourceCache {
    let mut cache = ChunkResourceCache::new();
    for a in assets {
        assert_eq!(cache.request(*a, 0), CacheAction::Upload);
        assert_eq!(cache.complete(*a, 0, Some(buffers(*a))), Ok(Some(buffers(*a))));
    }
    cache
}

fn planned(entity: u32, asset: u64) -> PlannedChunk {
    PlannedChunk {
        entity,
        transform: matrix(entity),
        chunk_asset_id: asset,
        occupancy_buffer: BufferHandle(asset * 10 + 1),
        attribute_buffer: BufferHandle(asset * 10 + 2),
    }
}

fn rendered(entity: u32, asset: u64, output: u64) -> RenderedChunk {
    RenderedChunk {
        entity,
        transform: matrix(entity),
        chunk_asset_id: asset,
        occupancy_buffer: BufferHandle(asset * 10 + 1),
        attribute_buffer: BufferHandle(asset * 10 + 2),
        direct_pass_output_buffer: BufferHandle(output),
    }
}

#[test]
fn frame_constants() {
    assert_eq!(WORKGROUPS_PER_AXIS, 16);
    assert_eq!(OUTPUT_BUFFER_BYTES, 262144 * 12);
    assert!(MAX_CHUNKS >= 1);
}

#[test]
fn only_visible_instances_are_kept() {
    let candidates = vec![instance(4, 1, true), instance(2, 1, false), instance(9, 2, true), instance(1, 2, false)];
    assert_eq!(filter_visible(&candidates), vec![instance(4, 1, true), instance(9, 2, true)]);
    assert_eq!(collect_renderable_chunks(&candidates).0, vec![4, 9]);
    assert!(filter_visible(&Vec::new()).is_empty());
    assert!(collect_renderable_chunks(&vec![instance(3, 1, false)]).0.is_empty());
}

#[test]
fn instances_are_ordered_by_ordinal() {
    let shuffled = vec![
        instance(7, 1, true),
        instance(0, 1, true),
        instance(u32::MAX, 1, true),
        instance(3, 2, true),
        instance(5, 1, true),
    ];
    let sorted = order_by_entity(&shuffled);
    let entities: Vec<u32> = sorted.iter().map(|c| c.entity).collect();
    assert_eq!(entities, vec![0, 3, 5, 7, u32::MAX]);
    assert_eq!(sorted[1], instance(3, 2, true));
    assert!(order_by_entity(&Vec::new()).is_empty());
}

#[test]
fn equal_ordinals_keep_their_order_of_arrival() {
    let candidates = vec![instance(5, 30, true), instance(1, 10, true), instance(5, 20, true), instance(5, 10, true)];
    let sorted = order_by_entity(&candidates);
    let assets: Vec<u64> = sorted.iter().map(|c| c.asset).collect();
    assert_eq!(assets, vec![10, 30, 20, 10]);
}

#[test]
fn plan_lists_visible_chunks_in_draw_order() {
    let cache = cache_with(&[1, 2]);
    let candidates = vec![instance(8, 2, true), instance(3, 1, true), instance(5, 1, false), instance(1, 2, true)];
    let plan = plan_frame(&candidates, &cache).unwrap();
    assert_eq!(plan.chunks, vec![planned(1, 2), planned(3, 1), planned(8, 2)]);
    assert!(plan.missing.is_empty());
}

#[test]
fn same_visible_set_gives_the_same_plan() {
    let cache = cache_with(&[1, 2, 3]);
    let first = vec![instance(8, 2, true), instance(3, 1, true), instance(5, 3, false), instance(1, 2, true)];
    let second = vec![instance(1, 2, true), instance(6, 3, false), instance(8, 2, true), instance(3, 1, true)];
    let a = plan_frame(&first, &cache).unwrap();
    let b = plan_frame(&second, &cache).unwrap();
    assert_eq!(a.chunks, b.chunks);
    assert_eq!(a.missing, b.missing);
    let again = plan_frame(&first, &cache).unwrap();
    assert_eq!(a.chunks, again.chunks);
}

#[test]
fn exactly_max_chunks_fit() {
    let cache = cache_with(&[1]);
    let candidates: Vec<ChunkInstance> = (0..MAX_CHUNKS as u32).rev().map(|e| instance(e, 1, true)).collect();
    let plan = plan_frame(&candidates, &cache).unwrap();
    assert_eq!(plan.chunks.len(), MAX_CHUNKS);
    let entities: Vec<u32> = plan.chunks.iter().map(|c| c.entity).collect();
    assert_eq!(entities, (0..MAX_CHUNKS as u32).collect::<Vec<u32>>());
}

#[test]
fn one_more_than_max_chunks_is_a_capacity_error() {
    let cache = cache_with(&[1]);
    let mut candidates: Vec<ChunkInstance> = (0..MAX_CHUNKS as u32 + 1).map(|e| instance(e, 1, true)).collect();
    assert_eq!(
        plan_frame(&candidates, &cache).err(),
        Some(FrameError::CapacityExceeded { max: MAX_CHUNKS, visible: MAX_CHUNKS + 1 })
    );
    let empty = ChunkResourceCache::new();
    assert_eq!(
        plan_frame(&candidates, &empty).err(),
        Some(FrameError::CapacityExceeded { max: MAX_CHUNKS, visible: MAX_CHUNKS + 1 })
    );
    candidates[0].visible = false;
    assert!(plan_frame(&candidates, &cache).is_ok());
    candidates.extend((1000..1010).map(|e| instance(e, 1, false)));
    assert!(plan_frame(&candidates, &cache).is_ok());
}

#[test]
fn no_visible_instance_is_an_empty_frame() {
    let cache = cache_with(&[1]);
    let plan = plan_frame(&vec![instance(1, 1, false)], &cache).unwrap();
    assert!(plan.chunks.is_empty());
    assert!(plan.missing.is_empty());
    let (chunks, globals) = prepare_renderable_chunks(&plan, &Vec::new()).unwrap();
    assert!(chunks.0.is_empty());
    assert!(globals.transform_buffer.is_empty());
    let group = prepare_direct_pass_bind_groups(&chunks, BufferHandle(1), BufferHandle(2)).unwrap();
    assert_eq!(group.1, 0);
    assert_eq!(direct_pass_dispatch(true, &group), None);
}

#[test]
fn instance_without_uploaded_asset_is_left_out() {
    let cache = cache_with(&[1]);
    let candidates = vec![instance(9, 7, true), instance(4, 1, true), instance(2, 8, true), instance(6, 7, false)];
    let plan = plan_frame(&candidates, &cache).unwrap();
    assert_eq!(plan.chunks, vec![planned(4, 1)]);
    assert_eq!(plan.missing, vec![2, 9]);
}

#[test]
fn rendered_chunks_take_their_output_buffers_in_order() {
    let plan = FramePlan { chunks: vec![planned(1, 2), planned(3, 1), planned(8, 2)], missing: Vec::new() };
    let outputs = vec![Some(BufferHandle(100)), Some(BufferHandle(101)), Some(BufferHandle(102))];
    let (chunks, globals) = prepare_renderable_chunks(&plan, &outputs).unwrap();
    assert_eq!(chunks.0, vec![rendered(1, 2, 100), rendered(3, 1, 101), rendered(8, 2, 102)]);
    assert_eq!(globals.transform_buffer, vec![matrix(1), matrix(3), matrix(8)]);
    let more = vec![Some(BufferHandle(100)), Some(BufferHandle(101)), Some(BufferHandle(102)), None];
    let (chunks, _) = prepare_renderable_chunks(&plan, &more).unwrap();
    assert_eq!(chunks.0.len(), 3);
}

#[test]
fn failed_output_buffer_names_the_asset() {
    let plan = FramePlan { chunks: vec![planned(1, 2), planned(3, 5), planned(8, 6)], missing: Vec::new() };
    let outputs = vec![Some(BufferHandle(100)), None, None];
    assert_eq!(
        prepare_renderable_chunks(&plan, &outputs).err(),
        Some(FrameError::DeviceResourceExhausted { asset: 5 })
    );
    let short = vec![Some(BufferHandle(100)), Some(BufferHandle(101))];
    assert_eq!(
        prepare_renderable_chunks(&plan, &short).err(),
        Some(FrameError::DeviceResourceExhausted { asset: 6 })
    );
    assert_eq!(
        prepare_renderable_chunks(&plan, &Vec::new()).err(),
        Some(FrameError::DeviceResourceExhausted { asset: 2 })
    );
}

#[test]
fn bind_group_lists_the_buffers_by_slot() {
    let chunks = ChunksToRender(vec![rendered(1, 2, 100), rendered(3, 1, 101)]);
    let group = prepare_direct_pass_bind_groups(&chunks, BufferHandle(7), BufferHandle(9)).unwrap();
    assert_eq!(group.1, 2);
    assert_eq!(group.0.occupancy, vec![BufferHandle(21), BufferHandle(11)]);
    assert_eq!(group.0.attributes, vec![BufferHandle(22), BufferHandle(12)]);
    assert_eq!(group.0.outputs, vec![BufferHandle(100), BufferHandle(101)]);
    assert_eq!(group.0.transforms, BufferHandle(7));
    assert_eq!(group.0.lights, BufferHandle(9));
}

#[test]
fn bind_group_takes_no_more_than_max_chunks() {
    let full = ChunksToRender((0..MAX_CHUNKS as u32).map(|e| rendered(e, 1, 100 + e as u64)).collect());
    assert_eq!(prepare_direct_pass_bind_groups(&full, BufferHandle(7), BufferHandle(9)).unwrap().1, MAX_CHUNKS);
    let over = ChunksToRender((0..MAX_CHUNKS as u32 + 1).map(|e| rendered(e, 1, 100 + e as u64)).collect());
    assert_eq!(
        prepare_direct_pass_bind_groups(&over, BufferHandle(7), BufferHandle(9)).err(),
        Some(FrameError::CapacityExceeded { max: MAX_CHUNKS, visible: MAX_CHUNKS + 1 })
    );
}

#[test]
fn dispatch_grows_with_the_chunk_count() {
    let one = ChunksToRender(vec![rendered(1, 2, 100)]);
    let group = prepare_direct_pass_bind_groups(&one, BufferHandle(7), BufferHandle(9)).unwrap();
    assert_eq!(direct_pass_dispatch(true, &group), Some((16, 16, 16)));
    assert_eq!(direct_pass_dispatch(false, &group), None);
    let three = ChunksToRender(vec![rendered(1, 2, 100), rendered(2, 2, 101), rendered(3, 2, 102)]);
    let group = prepare_direct_pass_bind_groups(&three, BufferHandle(7), BufferHandle(9)).unwrap();
    assert_eq!(direct_pass_dispatch(true, &group), Some((16, 16, 48)));
    let full = ChunksToRender((0..MAX_CHUNKS as u32).map(|e| rendered(e, 1, 100 + e as u64)).collect());
    let group = prepare_direct_pass_bind_groups(&full, BufferHandle(7), BufferHandle(9)).unwrap();
    assert_eq!(direct_pass_dispatch(true, &group), Some((16, 16, 16 * MAX_CHUNKS as u32)));
}

#[test]
fn layout_has_three_arrays_and_two_shared_buffers() {
    let layout = direct_pass_layout();
    let per_chunk = Some(MAX_CHUNKS as u32);
    assert_eq!(
        layout,
        [
            BindingLayout { binding: 0, read_only: false, count: per_chunk },
            BindingLayout { binding: 1, read_only: false, count: per_chunk },
            BindingLayout { binding: 2, read_only: false, count: per_chunk },
            BindingLayout { binding: 3, read_only: true, count: None },
            BindingLayout { binding: 4, read_only: true, count: None },
        ]
    );
}

#[test]
fn cache_uploads_once_and_reuses() {
    let mut cache = ChunkResourceCache::new();
    assert_eq!(cache.get(5), None);
    assert_eq!(cache.request(5, 1), CacheAction::Upload);
    assert_eq!(cache.get(5), None);
    assert_eq!(cache.complete(5, 1, Some(buffers(5))), Ok(Some(buffers(5))));
    assert_eq!(cache.request(5, 1), CacheAction::Reuse(buffers(5)));
    assert_eq!(cache.request(5, 1), CacheAction::Reuse(buffers(5)));
    assert_eq!(cache.get(5), Some(buffers(5)));
    assert_eq!(cache.get(6), None);
    assert_eq!(cache.request(6, 1), CacheAction::Upload);
    assert_eq!(cache.request(5, 1), CacheAction::Reuse(buffers(5)));
}

#[test]
fn cache_asks_for_an_upload_only_once() {
    let mut cache = ChunkResourceCache::new();
    assert_eq!(cache.request(5, 1), CacheAction::Upload);
    assert_eq!(cache.request(5, 1), CacheAction::Wait);
    assert_eq!(cache.request(5, 1), CacheAction::Wait);
    assert_eq!(cache.request(6, 1), CacheAction::Upload);
    assert_eq!(cache.request(6, 1), CacheAction::Wait);
    assert_eq!(cache.complete(5, 1, Some(buffers(5))), Ok(Some(buffers(5))));
    assert_eq!(cache.request(5, 1), CacheAction::Reuse(buffers(5)));
    assert_eq!(cache.request(6, 1), CacheAction::Wait);
}

#[test]
fn cache_uploads_changed_content_again() {
    let mut cache = cache_with(&[5]);
    assert_eq!(cache.get(5), Some(buffers(5)));
    assert_eq!(cache.request(5, 2), CacheAction::Upload);
    assert_eq!(cache.get(5), None);
    assert_eq!(cache.request(5, 2), CacheAction::Wait);
    assert_eq!(cache.complete(5, 2, Some(buffers(50))), Ok(Some(buffers(50))));
    assert_eq!(cache.request(5, 2), CacheAction::Reuse(buffers(50)));
    assert_eq!(cache.get(5), Some(buffers(50)));
    cache.invalidate(5);
    assert_eq!(cache.get(5), None);
    assert_eq!(cache.request(5, 2), CacheAction::Upload);
    cache.invalidate(5);
    cache.invalidate(5);
    assert_eq!(cache.get(5), None);
}

#[test]
fn buffers_that_nobody_awaits_are_not_recorded() {
    let mut cache = ChunkResourceCache::new();
    assert_eq!(cache.complete(5, 1, Some(buffers(5))), Ok(None));
    assert_eq!(cache.get(5), None);
    assert_eq!(cache.request(5, 1), CacheAction::Upload);
    assert_eq!(cache.request(5, 2), CacheAction::Upload);
    assert_eq!(cache.complete(5, 1, Some(buffers(5))), Ok(None));
    assert_eq!(cache.get(5), None);
    assert_eq!(cache.request(5, 2), CacheAction::Wait);
    assert_eq!(cache.complete(5, 2, Some(buffers(50))), Ok(Some(buffers(50))));
    assert_eq!(cache.complete(5, 2, Some(buffers(51))), Ok(None));
    assert_eq!(cache.get(5), Some(buffers(50)));
}

#[test]
fn failed_upload_is_reported_and_can_be_tried_again() {
    let mut cache = ChunkResourceCache::new();
    assert_eq!(cache.request(5, 1), CacheAction::Upload);
    assert_eq!(cache.complete(5, 1, None), Err(FrameError::DeviceResourceExhausted { asset: 5 }));
    assert_eq!(cache.get(5), None);
    assert_eq!(cache.request(5, 1), CacheAction::Upload);
    assert_eq!(cache.complete(5, 1, Some(buffers(5))), Ok(Some(buffers(5))));
    assert_eq!(cache.complete(5, 2, None), Err(FrameError::DeviceResourceExhausted { asset: 5 }));
    assert_eq!(cache.request(5, 1), CacheAction::Reuse(buffers(5)));
    assert_eq!(cache.complete(6, 1, None), Err(FrameError::DeviceResourceExhausted { asset: 6 }));
    assert_eq!(cache.request(6, 1), CacheAction::Upload);
    assert_eq!(cache.request(5, 1), CacheAction::Reuse(buffers(5)));
}

#[test]
fn instance_whose_upload_is_under_way_is_left_out() {
    let mut cache = cache_with(&[1]);
    assert_eq!(cache.request(7, 0), CacheAction::Upload);
    let candidates = vec![instance(9, 7, true), instance(4, 1, true)];
    let plan = plan_frame(&candidates, &cache).unwrap();
    assert_eq!(plan.chunks, vec![planned(4, 1)]);
    assert_eq!(plan.missing, vec![9]);
    assert_eq!(cache.complete(7, 0, Some(buffers(7))), Ok(Some(buffers(7))));
    let plan = plan_frame(&candidates, &cache).unwrap();
    assert_eq!(plan.chunks, vec![planned(4, 1), planned(9, 7)]);
    assert!(plan.missing.is_empty());
}

#[test]
fn moved_instances_keep_their_places() {
    let cache = cache_with(&[1, 2]);
    let first = vec![instance(8, 2, true), instance(3, 1, true), instance(1, 2, true)];
    let mut second = vec![instance(1, 2, true), instance(8, 2, true), instance(3, 1, true)];
    for (k, moved) in second.iter_mut().enumerate() {
        moved.transform = matrix(100 + k as u32);
    }
    let a = plan_frame(&first, &cache).unwrap();
    let b = plan_frame(&second, &cache).unwrap();
    let places_a: Vec<u32> = a.chunks.iter().map(|c| c.entity).collect();
    let places_b: Vec<u32> = b.chunks.iter().map(|c| c.entity).collect();
    assert_eq!(places_a, vec![1, 3, 8]);
    assert_eq!(places_a, places_b);
    assert_eq!(b.chunks[0].transform, matrix(100));
    assert_eq!(b.chunks[2].transform, matrix(101));
}

#[test]
fn each_planned_chunk_asks_for_one_output_buffer() {
    let plan = FramePlan { chunks: vec![planned(1, 2), planned(3, 1), planned(8, 2)], missing: vec![4] };
    assert_eq!(output_buffer_sizes(&plan), vec![3145728, 3145728, 3145728]);
    let empty = FramePlan { chunks: Vec::new(), missing: vec![4] };
    assert!(output_buffer_sizes(&empty).is_empty());
}
