//! The per-asset cache of GPU buffers: each chunk asset is uploaded once
//! and its buffers are reused until the asset's content changes.

use std::collections::HashMap;
use vstd::prelude::*;
use crate::error::FrameError;

verus! {

broadcast use vstd::std_specs::hash::group_hash_axioms;

/// Names a buffer that the rendering host created. The library never looks
/// behind the name.
#[derive(Clone, Copy, Debug, PartialEq, Eq, Structural)]
pub struct BufferHandle(pub u64);

/// The two GPU buffers of an uploaded chunk asset.
#[derive(Clone, Copy, Debug, PartialEq, Eq, Structural)]
pub struct GpuChunkBuffers {
    pub occupancy_buffer: BufferHandle,
    pub attribute_buffer: BufferHandle,
}

/// What the cache knows of an asset: the version of its content that was
/// last asked for, and the buffers made from it. There are no buffers
/// while the upload is under way.
#[derive(Clone, Copy, Debug, PartialEq, Eq, Structural)]
pub struct CacheEntry {
    pub version: u64,
    pub buffers: Option<GpuChunkBuffers>,
}

/// What has to happen before an asset's buffers can be bound.
#[derive(Clone, Copy, Debug, PartialEq, Eq, Structural)]
pub enum CacheAction {
    /// The buffers of this content are there already.
    Reuse(GpuChunkBuffers),
    /// The content has to be encoded and uploaded, and the outcome handed
    /// to the cache.
    Upload,
    /// The upload of this content is under way; there is nothing to do
    /// but to await its outcome.
    Wait,
}

/// The buffers that the entries hold for an asset, if its upload is done.
pub open spec fn uploaded_buffers(entries: Map<u64, CacheEntry>, asset: u64) -> Option<
    GpuChunkBuffers,
> {
    if entries.contains_key(asset) {
        entries[asset].buffers
    } else {
        None
    }
}

/// The answer of a cache with the given entries to a request.
pub open spec fn action_for(entries: Map<u64, CacheEntry>, asset: u64, version: u64) -> CacheAction {
    if entries.contains_key(asset) && entries[asset].version == version {
        match entries[asset].buffers {
            Some(buffers) => CacheAction::Reuse(buffers),
            None => CacheAction::Wait,
        }
    } else {
        CacheAction::Upload
    }
}

/// The entries after a request: a request that is answered with an upload
/// leaves the mark that this upload is under way.
pub open spec fn requested(entries: Map<u64, CacheEntry>, asset: u64, version: u64) -> Map<
    u64,
    CacheEntry,
> {
    if action_for(entries, asset, version) is Upload {
        entries.insert(asset, CacheEntry { version, buffers: None })
    } else {
        entries
    }
}

/// Whether the upload of this content is under way.
pub open spec fn awaited(entries: Map<u64, CacheEntry>, asset: u64, version: u64) -> bool {
    action_for(entries, asset, version) is Wait
}

/// The entries after the outcome of an upload has come in. The buffers of
/// an awaited upload are recorded; a failed one is forgotten, so that the
/// next request asks for it again. An outcome that nobody awaits changes
/// nothing.
pub open spec fn completed(
    entries: Map<u64, CacheEntry>,
    asset: u64,
    version: u64,
    uploaded: Option<GpuChunkBuffers>,
) -> Map<u64, CacheEntry> {
    if !awaited(entries, asset, version) {
        entries
    } else if uploaded is Some {
        entries.insert(asset, CacheEntry { version, buffers: uploaded })
    } else {
        entries.remove(asset)
    }
}

/// What the caller learns of an outcome that it hands in.
pub open spec fn completion(
    entries: Map<u64, CacheEntry>,
    asset: u64,
    version: u64,
    uploaded: Option<GpuChunkBuffers>,
) -> Result<Option<GpuChunkBuffers>, FrameError> {
    if uploaded is None {
        Err(FrameError::DeviceResourceExhausted { asset })
    } else if awaited(entries, asset, version) {
        Ok(uploaded)
    } else {
        Ok(None)
    }
}

/// Maps each chunk asset to the buffers that hold its encoding.
pub struct ChunkResourceCache {
    entries: HashMap<u64, CacheEntry>,
}

impl View for ChunkResourceCache {
    type V = Map<u64, CacheEntry>;

    closed spec fn view(&self) -> Map<u64, CacheEntry> {
        self.entries@
    }
}

impl ChunkResourceCache {
    /// A cache that knows no asset.
    pub fn new() -> (cache: ChunkResourceCache)
        ensures
            cache@ == Map::<u64, CacheEntry>::empty(),
    {
        ChunkResourceCache { entries: HashMap::new() }
    }

    /// The buffers recorded for an asset, if its upload is done.
    pub fn get(&self, asset: u64) -> (buffers: Option<GpuChunkBuffers>)
        ensures
            buffers == uploaded_buffers(self@, asset),
    {
        match self.entries.get(&asset) {
            Some(entry) => entry.buffers,
            None => None,
        }
    }

    /// Asks for the buffers of an asset's content at `version`. They are
    /// reused if they are there. Otherwise the content has to be uploaded:
    /// the first request is told so, and every request after it is told to
    /// wait until the outcome has come in.
    pub fn request(&mut self, asset: u64, version: u64) -> (action: CacheAction)
        ensures
            action == action_for(old(self)@, asset, version),
            final(self)@ == requested(old(self)@, asset, version),
    {
        match self.entries.get(&asset) {
            Some(entry) => {
                if entry.version == version {
                    return match entry.buffers {
                        Some(buffers) => CacheAction::Reuse(buffers),
                        None => CacheAction::Wait,
                    };
                }
            },
            None => {},
        }
        self.entries.insert(asset, CacheEntry { version, buffers: None });
        CacheAction::Upload
    }

    /// Takes in the outcome of an upload. The buffers of an awaited upload
    /// are recorded and handed back. Buffers that nobody awaits, because
    /// the content has changed since or was never asked for, are not
    /// recorded: the caller is told so with `Ok(None)` and keeps them. A
    /// failed upload is reported with the asset's name.
    pub fn complete(&mut self, asset: u64, version: u64, uploaded: Option<GpuChunkBuffers>) -> (result:
        Result<Option<GpuChunkBuffers>, FrameError>)
        ensures
            result == completion(old(self)@, asset, version, uploaded),
            final(self)@ == completed(old(self)@, asset, version, uploaded),
    {
        let awaited = match self.entries.get(&asset) {
            Some(entry) => entry.version == version && entry.buffers.is_none(),
            None => false,
        };
        match uploaded {
            Some(buffers) => {
                if awaited {
                    self.entries.insert(asset, CacheEntry { version, buffers: Some(buffers) });
                    Ok(Some(buffers))
                } else {
                    Ok(None)
                }
            },
            None => {
                if awaited {
                    self.entries.remove(&asset);
                }
                Err(FrameError::DeviceResourceExhausted { asset })
            },
        }
    }

    /// Forgets an asset, so that its next request asks for an upload.
    pub fn invalidate(&mut self, asset: u64)
        ensures
            final(self)@ == old(self)@.remove(asset),
    {
        self.entries.remove(&asset);
    }
}

/// Preparing is idempotent: once the buffers of an asset's content are
/// recorded, every further request for that content reuses them and
/// leaves the cache as it is.
pub proof fn lemma_prepare_idempotent(
    entries: Map<u64, CacheEntry>,
    asset: u64,
    version: u64,
    buffers: GpuChunkBuffers,
)
    requires
        action_for(entries, asset, version) is Upload,
    ensures
        ({
            let ready = completed(requested(entries, asset, version), asset, version, Some(buffers));
            &&& completion(requested(entries, asset, version), asset, version, Some(buffers))
                == Ok::<Option<GpuChunkBuffers>, FrameError>(Some(buffers))
            &&& action_for(ready, asset, version) == CacheAction::Reuse(buffers)
            &&& requested(ready, asset, version) == ready
        }),
{
}

/// An upload is asked for once: whatever the cache held, after a request
/// for an asset's content no further request for that content is answered
/// with an upload until the outcome has come in, and a request changes
/// nothing for any other asset.
pub proof fn lemma_single_flight(
    entries: Map<u64, CacheEntry>,
    asset: u64,
    version: u64,
    other: u64,
    other_version: u64,
)
    ensures
        !(action_for(requested(entries, asset, version), asset, version) is Upload),
        requested(requested(entries, asset, version), asset, version) == requested(
            entries,
            asset,
            version,
        ),
        other != asset ==> action_for(requested(entries, asset, version), other, other_version)
            == action_for(entries, other, other_version),
{
}

/// Changed content is uploaded again: a request for another version than
/// the one that the cache holds, or for a forgotten asset, is answered
/// with an upload.
pub proof fn lemma_stale_entry_uploads(
    entries: Map<u64, CacheEntry>,
    asset: u64,
    version: u64,
    next: u64,
)
    requires
        entries.contains_key(asset),
        entries[asset].version == version,
    ensures
        next != version ==> action_for(entries, asset, next) is Upload,
        action_for(entries.remove(asset), asset, version) is Upload,
{
}

/// A failed upload can be tried again: once its failure has come in, the
/// next request for the content is answered with an upload.
pub proof fn lemma_failed_upload_retries(entries: Map<u64, CacheEntry>, asset: u64, version: u64)
    requires
        awaited(entries, asset, version),
    ensures
        completion(entries, asset, version, None) == Err::<Option<GpuChunkBuffers>, FrameError>(
            FrameError::DeviceResourceExhausted { asset },
        ),
        action_for(completed(entries, asset, version, None), asset, version) is Upload,
{
}

} // verus!
