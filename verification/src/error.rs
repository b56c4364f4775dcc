//! Error taxonomy of the queue engine.  Every validation failure is reported
//! before any engine state is mutated.

use vstd::prelude::*;
use crate::id::Id;

verus! {

#[derive(Clone, Copy, PartialEq, Eq, Structural, Debug)]
pub enum DeviceError {
    /// The handle does not resolve to a live device.
    Invalid,
    /// A native allocation failed; never retried automatically.
    OutOfMemory,
}

/// Which side of a copy a size constraint speaks of.
#[derive(Clone, Copy, PartialEq, Eq, Structural, Debug)]
pub enum CopySide {
    Source,
    Destination,
}

#[derive(Clone, Copy, PartialEq, Eq, Structural, Debug)]
pub enum TransferError {
    /// The resource handle is unknown or stale.
    InvalidResource,
    /// The destination was created without copy-destination capability.
    MissingCopyDstUsageFlag,
    /// The payload length is not a multiple of the copy alignment.
    UnalignedCopySize(u64),
    /// The destination offset is not a multiple of the copy alignment.
    UnalignedBufferOffset(u64),
    /// The write would run past the end of the destination buffer.
    BufferOverrun { start_offset: u64, end_offset: u64, buffer_size: u64, side: CopySide },
    /// The copy extent is not aligned to the format's texel block, or runs
    /// past the destination texture.
    InvalidExtent,
    /// The declared row pitch is not a whole number of texel blocks, or rows
    /// too few to cover the copy.
    UnalignedRowPitch(u32),
    /// The payload is smaller than the declared layout requires.
    InsufficientDataSize,
}

#[derive(Clone, Copy, PartialEq, Eq, Structural, Debug)]
pub enum QueueWriteError {
    Queue(DeviceError),
    Transfer(TransferError),
}

#[derive(Clone, Copy, PartialEq, Eq, Structural, Debug)]
pub enum QueueSubmitError {
    Queue(DeviceError),
    /// A handle in the submit list does not resolve to a command buffer.
    InvalidCommandBuffer(Id),
    /// A referenced buffer is in an invalid mapping state.
    BufferAccess(Id),
    /// The swap chain output was dropped before the command buffer was
    /// submitted.
    SwapChainOutputDropped,
    /// A fence wait exceeded the configured bound.
    StuckGpu,
}

} // verus!
