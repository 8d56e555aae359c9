//! What can stop the preparation of a frame.

use vstd::prelude::*;

verus! {

/// A failure that the frame orchestrator has to act on.
#[derive(Clone, Copy, Debug, PartialEq, Eq, Structural)]
pub enum FrameError {
    /// More chunk instances are visible than one dispatch can bind.
    CapacityExceeded { max: usize, visible: usize },
    /// The rendering host could not create a buffer for this chunk asset.
    DeviceResourceExhausted { asset: u64 },
}

} // verus!
