//! The queue engine: staged writes, submission stitching, and reclamation.
//!
//! `Global` owns the devices; each `Device` owns its resource tables, its
//! usage trackers, the accumulator of pending staged writes, and the list of
//! in-flight submissions.  The three public operations validate before they
//! mutate: a failed call leaves the device exactly as it was.  Native driver
//! work is described, never performed: a submission record carries the
//! stitched stream of barriers and command buffers for the caller to hand to
//! the driver, and reclamation consumes the caller's report of which fences
//! have signaled.

use vstd::prelude::*;
use crate::error::{CopySide, DeviceError, QueueSubmitError, QueueWriteError, TransferError};
use crate::id::{Backend, Id};
use crate::life::{record_use, LifeGuard, RefStore};
use crate::staging::{
    fill_staging, staged_contents, spec_block_rows_in_copy, spec_required_bytes,
    spec_stage_bytes_per_row, compute_stage_bytes_per_row, extent_block_aligned,
    layout_pitch_valid, validate_linear_texture_data, DeviceLimits, Extent3d, Origin3d,
    TextureCopyView, TextureDataLayout, TextureFormatInfo,
};
use crate::track::{
    batch_transitions, exit_states, needs_transition, next_state, optimize, spec_collapse,
    submission_exit, submission_transitions, LocalUse, RecordedUse, Transition, UsageTracker,
    BUFFER_USE_COPY_DST, BUFFER_USE_WRITE_ALL, TEXTURE_USE_COPY_DST, TEXTURE_USE_WRITE_ALL,
};

verus! {

/// Buffer write offsets and sizes must be multiples of this.
pub const COPY_BUFFER_ALIGNMENT: u64 = 4;

// Creation capabilities of a buffer.
pub const BUFFER_USAGE_MAP_READ: u32 = 1;
pub const BUFFER_USAGE_MAP_WRITE: u32 = 2;
pub const BUFFER_USAGE_COPY_SRC: u32 = 4;
pub const BUFFER_USAGE_COPY_DST: u32 = 8;
pub const BUFFER_USAGE_INDEX: u32 = 16;
pub const BUFFER_USAGE_VERTEX: u32 = 32;
pub const BUFFER_USAGE_UNIFORM: u32 = 64;
pub const BUFFER_USAGE_STORAGE: u32 = 128;
pub const BUFFER_USAGE_INDIRECT: u32 = 256;

// Creation capabilities of a texture.
pub const TEXTURE_USAGE_COPY_SRC: u32 = 1;
pub const TEXTURE_USAGE_COPY_DST: u32 = 2;
pub const TEXTURE_USAGE_SAMPLED: u32 = 4;
pub const TEXTURE_USAGE_STORAGE: u32 = 8;
pub const TEXTURE_USAGE_OUTPUT_ATTACHMENT: u32 = 16;

#[derive(Clone, Copy, PartialEq, Eq, Structural, Debug)]
pub enum BufferMapState {
    Idle,
    Active,
}

pub struct Buffer {
    pub size: u64,
    pub usage: u32,
    pub map_state: BufferMapState,
    pub life: LifeGuard,
}

pub struct Texture {
    pub size: Extent3d,
    pub usage: u32,
    pub format: TextureFormatInfo,
    pub life: LifeGuard,
}

pub struct SwapChain {
    pub acquired_view: bool,
    pub active_submission_index: u64,
    pub acquired_framebuffers: u64,
}

/// A recorded command buffer, as the engine sees it: the raw log of resource
/// uses its commands make, in recording order, and the swap chain it draws
/// to, if any.
pub struct CommandBuffer {
    pub buffer_uses: Vec<RecordedUse>,
    pub texture_uses: Vec<RecordedUse>,
    pub used_swap_chain: Option<Id>,
}

/// Host-visible staging memory, modelled by its contents.
pub struct StagingBuffer {
    pub contents: Vec<u8>,
}

/// Geometry of a buffer-to-image copy, in the staged layout.
#[derive(Clone, Copy, PartialEq, Eq, Structural, Debug)]
pub struct ImageCopyRegion {
    pub stage_bytes_per_row: u32,
    pub rows_per_image: u32,
    pub mip_level: u32,
    pub origin: Origin3d,
    pub extent: Extent3d,
}

/// One recorded transfer command of the pending-writes command buffer.
/// Staging buffers are named by their index in the temporary-buffer list.
pub enum TransferCommand {
    /// Host-write to transfer-read barrier on one staging buffer.
    StagingBarrier { staging: usize },
    BufferTransition(Transition),
    TextureTransition(Transition),
    CopyBufferToBuffer { src_staging: usize, dst: u32, dst_offset: u64, size: u64 },
    CopyBufferToTexture { src_staging: usize, dst: u32, region: ImageCopyRegion },
}

/// A recording command buffer of the engine's own transfer commands.
pub struct PendingCommands {
    pub commands: Vec<TransferCommand>,
}

/// One staged write: the staging allocation and the recording that copies
/// out of it.
pub struct StagingData {
    pub buffer: StagingBuffer,
    pub cmdbuf: PendingCommands,
}

/// Per-device accumulator of staged writes: at most one open recording plus
/// the staging buffers it reads, flushed into the next submission.
pub struct PendingWrites {
    pub command_buffer: Option<PendingCommands>,
    pub temp_buffers: Vec<StagingBuffer>,
}

impl PendingWrites {
    pub fn new() -> (r: PendingWrites)
        ensures
            r.command_buffer is None,
            r.temp_buffers@.len() == 0,
    {
        PendingWrites { command_buffer: None, temp_buffers: Vec::new() }
    }

    /// Tears the accumulator down at device teardown; every staging
    /// allocation it still holds is freed.  Returns how many were freed.
    pub fn dispose(self) -> (freed: usize)
        ensures
            freed == self.temp_buffers@.len(),
    {
        let PendingWrites { command_buffer: _, temp_buffers } = self;
        temp_buffers.len()
    }

    pub fn consume_temp(&mut self, buffer: StagingBuffer)
        ensures
            final(self).temp_buffers@ == old(self).temp_buffers@.push(buffer),
            final(self).command_buffer == old(self).command_buffer,
    {
        self.temp_buffers.push(buffer);
    }

    pub fn consume(&mut self, stage: StagingData)
        ensures
            final(self).temp_buffers@ == old(self).temp_buffers@.push(stage.buffer),
            final(self).command_buffer == Some(stage.cmdbuf),
    {
        let StagingData { buffer, cmdbuf } = stage;
        self.temp_buffers.push(buffer);
        self.command_buffer = Some(cmdbuf);
    }
}

/// Mutable access to one element of a vector.
fn vec_index_mut<T>(v: &mut Vec<T>, i: usize) -> (element: &mut T)
    requires
        i < old(v)@.len(),
    ensures
        *element == old(v)@[i as int],
        final(v)@ == old(v)@.update(i as int, *final(element)),
{
    &mut v[i]
}

/// A table of resources with generational slots: a freed slot gets a new
/// epoch, so stale handles fail to resolve instead of aliasing.
pub struct ResourceTable<T> {
    pub backend: Backend,
    pub epochs: Vec<u32>,
    pub values: Vec<Option<T>>,
}

impl<T> ResourceTable<T> {
    pub open spec fn wf(self) -> bool {
        self.epochs@.len() == self.values@.len() && self.values@.len() <= u32::MAX
    }

    /// Whether a handle names a live entry of this table.
    pub open spec fn resolves(self, id: Id) -> bool {
        &&& id.backend == self.backend
        &&& (id.index as int) < self.values@.len()
        &&& self.epochs@[id.index as int] == id.epoch
        &&& self.values@[id.index as int] is Some
    }

    /// The entry a resolving handle names.
    pub open spec fn value_of(self, id: Id) -> T
        recommends
            self.resolves(id),
    {
        self.values@[id.index as int]->0
    }

    pub fn new(backend: Backend) -> (r: ResourceTable<T>)
        ensures
            r.wf(),
            r.backend == backend,
            r.values@.len() == 0,
    {
        ResourceTable { backend, epochs: Vec::new(), values: Vec::new() }
    }

    /// Adds a resource under a fresh slot.
    pub fn register(&mut self, value: T) -> (id: Id)
        requires
            old(self).wf(),
            old(self).values@.len() < u32::MAX,
        ensures
            final(self).wf(),
            final(self).backend == old(self).backend,
            final(self).epochs@ == old(self).epochs@.push(1),
            final(self).values@ == old(self).values@.push(Some(value)),
            id.index == old(self).values@.len(),
            id.epoch == 1,
            id.backend == old(self).backend,
            final(self).resolves(id),
            final(self).value_of(id) == value,
    {
        let index = self.values.len();
        self.epochs.push(1);
        self.values.push(Some(value));
        proof {
            assert(self.values@[index as int] is Some);
        }
        Id { index: index as u32, epoch: 1, backend: self.backend }
    }

    /// Whether a handle resolves, as an executable test.
    pub fn contains(&self, id: Id) -> (r: bool)
        requires
            self.wf(),
        ensures
            r == self.resolves(id),
    {
        match self.get(id) {
            Some(_) => true,
            None => false,
        }
    }

    /// Resolves a handle to a borrow of its entry.
    pub fn get(&self, id: Id) -> (r: Option<&T>)
        requires
            self.wf(),
        ensures
            self.resolves(id) ==> (r matches Some(v) && *v == self.value_of(id)),
            !self.resolves(id) ==> r is None,
    {
        let matches_backend = match (id.backend, self.backend) {
            (Backend::Empty, Backend::Empty) => true,
            (Backend::Vulkan, Backend::Vulkan) => true,
            (Backend::Metal, Backend::Metal) => true,
            (Backend::Dx12, Backend::Dx12) => true,
            (Backend::Dx11, Backend::Dx11) => true,
            (Backend::Gl, Backend::Gl) => true,
            _ => false,
        };
        if !matches_backend || (id.index as usize) >= self.values.len()
            || self.epochs[id.index as usize] != id.epoch {
            None
        } else {
            self.values[id.index as usize].as_ref()
        }
    }

    /// Takes the entry of a slot out of the table, leaving the slot empty.
    pub fn take_at(&mut self, index: usize) -> (r: Option<T>)
        requires
            old(self).wf(),
            index < old(self).values@.len(),
        ensures
            final(self).wf(),
            final(self).backend == old(self).backend,
            final(self).epochs@ == old(self).epochs@,
            final(self).values@ == old(self).values@.update(index as int, Option::<T>::None),
            r == old(self).values@[index as int],
    {
        vec_index_mut(&mut self.values, index).take()
    }

    /// Puts an entry back into a slot.
    pub fn put_at(&mut self, index: usize, value: T)
        requires
            old(self).wf(),
            index < old(self).values@.len(),
        ensures
            final(self).wf(),
            final(self).backend == old(self).backend,
            final(self).epochs@ == old(self).epochs@,
            final(self).values@ == old(self).values@.update(index as int, Some(value)),
    {
        let slot = vec_index_mut(&mut self.values, index);
        *slot = Some(value);
    }

    /// Empties a slot and bumps its generation, so that stale handles fail
    /// to resolve and the slot can be reused.
    pub fn free(&mut self, index: usize)
        requires
            old(self).wf(),
            index < old(self).values@.len(),
            old(self).epochs@[index as int] < u32::MAX,
        ensures
            final(self).wf(),
            final(self).backend == old(self).backend,
            final(self).values@ == old(self).values@.update(index as int, Option::<T>::None),
            final(self).epochs@ == old(self).epochs@.update(
                index as int,
                (old(self).epochs@[index as int] + 1) as u32,
            ),
    {
        let _ = vec_index_mut(&mut self.values, index).take();
        let e = self.epochs[index];
        self.epochs.set(index, e + 1);
    }
}

/// One event offered to the optional recorder, before the operation mutates
/// any engine state.  Payload bytes are described by their size; the caller
/// persists them.
pub enum TraceEvent {
    WriteBuffer { id: Id, offset: u64, size: u64 },
    WriteTexture {
        texture: Id,
        mip_level: u32,
        origin: Origin3d,
        layout: TextureDataLayout,
        extent: Extent3d,
        data_size: u64,
    },
    Submit { index: u64, command_buffers: Vec<Id> },
}

/// The injected, optional recorder sink.  When `enabled` is false the
/// engine records nothing.
pub struct TraceLog {
    pub enabled: bool,
    pub events: Vec<TraceEvent>,
}

impl TraceLog {
    /// A sink that records nothing.
    pub fn disabled() -> (r: TraceLog)
        ensures
            !r.enabled,
            r.events@.len() == 0,
    {
        TraceLog { enabled: false, events: Vec::new() }
    }

    /// A sink that records every operation.
    pub fn attached() -> (r: TraceLog)
        ensures
            r.enabled,
            r.events@.len() == 0,
    {
        TraceLog { enabled: true, events: Vec::new() }
    }

    /// Offers one event; a no-op unless the recorder is attached.
    pub fn add(&mut self, event: TraceEvent)
        ensures
            final(self).enabled == old(self).enabled,
            final(self).events@ == if old(self).enabled {
                old(self).events@.push(event)
            } else {
                old(self).events@
            },
    {
        if self.enabled {
            self.events.push(event);
        }
    }
}

/// What one submission must run, in order: the flushed staged writes first,
/// then, per command buffer, the stitched barriers and the commands.
pub enum StreamItem {
    Flush(PendingCommands),
    Transit { buffer_transitions: Vec<Transition>, texture_transitions: Vec<Transition> },
    Execute { cmd_buf: Id },
}

/// Bookkeeping of one in-flight submission, consumed at reclamation time.
pub struct SubmissionRecord {
    pub index: u64,
    pub fence: u64,
    pub stream: Vec<StreamItem>,
    pub suspected_buffers: Vec<u32>,
    pub suspected_textures: Vec<u32>,
    pub temp_buffers: Vec<StagingBuffer>,
}

/// A resource whose native object the caller must now destroy.
#[derive(Clone, Copy, PartialEq, Eq, Structural, Debug)]
pub enum ReclaimedResource {
    Buffer(u32),
    Texture(u32),
}

pub struct Device {
    pub ref_store: RefStore,
    pub buffers: ResourceTable<Buffer>,
    pub textures: ResourceTable<Texture>,
    pub command_buffers: ResourceTable<CommandBuffer>,
    pub swap_chains: ResourceTable<SwapChain>,
    pub trackers_buffers: UsageTracker,
    pub trackers_textures: UsageTracker,
    pub pending_writes: PendingWrites,
    pub active_submission_index: u64,
    pub life_tracker: Vec<SubmissionRecord>,
    pub limits: DeviceLimits,
}

impl Device {
    pub open spec fn wf(self) -> bool {
        &&& self.buffers.wf()
        &&& self.textures.wf()
        &&& self.command_buffers.wf()
        &&& self.swap_chains.wf()
        &&& self.trackers_buffers.wf()
        &&& self.trackers_buffers.write_mask == BUFFER_USE_WRITE_ALL
        &&& self.trackers_textures.wf()
        &&& self.trackers_textures.write_mask == TEXTURE_USE_WRITE_ALL
        &&& self.limits.wf()
        &&& forall|s: int|
            0 <= s < self.textures.values@.len() && (#[trigger] self.textures.values@[s]) is Some
                ==> self.textures.values@[s]->0.format.wf()
        &&& forall|i: int, j: int|
            0 <= i < j < self.life_tracker@.len() ==> (#[trigger] self.life_tracker@[i]).index < (
            #[trigger] self.life_tracker@[j]).index
        &&& forall|i: int|
            0 <= i < self.life_tracker@.len() ==> (#[trigger] self.life_tracker@[i]).index
                <= self.active_submission_index
    }

    pub fn new(backend: Backend, limits: DeviceLimits) -> (r: Device)
        requires
            limits.wf(),
        ensures
            r.wf(),
            r.active_submission_index == 0,
            r.life_tracker@.len() == 0,
            r.pending_writes.command_buffer is None,
            r.pending_writes.temp_buffers@.len() == 0,
            r.buffers.values@.len() == 0,
            r.textures.values@.len() == 0,
            r.buffers.backend == backend,
            r.textures.backend == backend,
            r.command_buffers.backend == backend,
            r.swap_chains.backend == backend,
            r.trackers_buffers.as_map() =~= Map::<u32, u32>::empty(),
            r.trackers_textures.as_map() =~= Map::<u32, u32>::empty(),
            r.limits == limits,
    {
        Device {
            ref_store: RefStore::new(),
            buffers: ResourceTable::new(backend),
            textures: ResourceTable::new(backend),
            command_buffers: ResourceTable::new(backend),
            swap_chains: ResourceTable::new(backend),
            trackers_buffers: UsageTracker::new(BUFFER_USE_WRITE_ALL),
            trackers_textures: UsageTracker::new(TEXTURE_USE_WRITE_ALL),
            pending_writes: PendingWrites::new(),
            active_submission_index: 0,
            life_tracker: Vec::new(),
            limits,
        }
    }

    /// Allocates host-visible staging memory of the given size, zeroed, and
    /// hands back the open pending-writes recording (or a fresh one).
    pub fn prepare_stage(&mut self, size: u64) -> (r: Result<StagingData, DeviceError>)
        ensures
            size <= usize::MAX ==> (r matches Ok(stage) && {
                &&& stage.buffer.contents@ == Seq::<u8>::new(size as nat, |i: int| 0u8)
                &&& stage.cmdbuf.commands@ == (match old(self).pending_writes.command_buffer {
                    Some(cb) => cb.commands@,
                    None => Seq::<TransferCommand>::empty(),
                })
                &&& *final(self) == (Device {
                    pending_writes: PendingWrites {
                        command_buffer: None,
                        temp_buffers: old(self).pending_writes.temp_buffers,
                    },
                    ..*old(self)
                })
            }),
            size > usize::MAX ==> r == Result::<StagingData, DeviceError>::Err(
                DeviceError::OutOfMemory,
            ) && *final(self) == *old(self),
    {
        if size > usize::MAX as u64 {
            return Err(DeviceError::OutOfMemory);
        }
        let len = size as usize;
        let mut contents: Vec<u8> = Vec::new();
        let mut i: usize = 0;
        while i < len
            invariant
                i <= len,
                contents@ =~= Seq::<u8>::new(i as nat, |k: int| 0u8),
            decreases len - i,
        {
            contents.push(0);
            proof {
                assert(contents@ =~= Seq::<u8>::new((i + 1) as nat, |k: int| 0u8));
            }
            i = i + 1;
        }
        let cmdbuf = match self.pending_writes.command_buffer.take() {
            Some(cb) => cb,
            None => PendingCommands { commands: Vec::new() },
        };
        Ok(StagingData { buffer: StagingBuffer { contents }, cmdbuf })
    }

    /// The open pending-writes recording, opened now if none is.
    pub fn borrow_pending_writes(&mut self) -> (r: &mut PendingCommands)
        ensures
            (*r).commands@ == (match old(self).pending_writes.command_buffer {
                Some(cb) => cb.commands@,
                None => Seq::<TransferCommand>::empty(),
            }),
            *final(self) == (Device {
                pending_writes: PendingWrites {
                    command_buffer: Some(*final(r)),
                    temp_buffers: old(self).pending_writes.temp_buffers,
                },
                ..*old(self)
            }),
    {
        if self.pending_writes.command_buffer.is_none() {
            self.pending_writes.command_buffer = Some(PendingCommands { commands: Vec::new() });
        }
        match &mut self.pending_writes.command_buffer {
            Some(cb) => cb,
            None => unreached(),
        }
    }
}

/// `a + b`, clamped to the largest 64-bit value.
pub open spec fn sat_add_u64(a: int, b: int) -> u64 {
    if a + b > u64::MAX {
        u64::MAX
    } else {
        (a + b) as u64
    }
}

/// A copy of a byte vector.
fn clone_bytes(data: &Vec<u8>) -> (r: Vec<u8>)
    ensures
        r@ == data@,
{
    let mut out: Vec<u8> = Vec::new();
    let mut i: usize = 0;
    while i < data.len()
        invariant
            i <= data@.len(),
            out@ =~= data@.take(i as int),
        decreases data@.len() - i,
    {
        let b = data[i];
        out.push(b);
        proof {
            assert(out@ =~= data@.take(i + 1));
        }
        i = i + 1;
    }
    proof {
        assert(out@ =~= data@);
    }
    out
}

/// A copy of a handle list.
fn clone_ids(ids: &Vec<Id>) -> (r: Vec<Id>)
    ensures
        r@ == ids@,
{
    let mut out: Vec<Id> = Vec::new();
    let mut i: usize = 0;
    while i < ids.len()
        invariant
            i <= ids@.len(),
            out@ =~= ids@.take(i as int),
        decreases ids@.len() - i,
    {
        let id = ids[i];
        out.push(id);
        proof {
            assert(out@ =~= ids@.take(i + 1));
        }
        i = i + 1;
    }
    proof {
        assert(out@ =~= ids@);
    }
    out
}

/// What `write_buffer` returns, for every input: the validation cascade of
/// the buffer write path.  Every failure leaves the device untouched.
pub open spec fn write_buffer_outcome(pre: Device, id: Id, offset: u64, data: Seq<u8>) -> Result<
    (),
    QueueWriteError,
> {
    let n = data.len() as int;
    if n == 0 {
        Result::Ok(())
    } else if !pre.buffers.resolves(id) {
        Result::Err(QueueWriteError::Transfer(TransferError::InvalidResource))
    } else if n % (COPY_BUFFER_ALIGNMENT as int) != 0 {
        Result::Err(QueueWriteError::Transfer(TransferError::UnalignedCopySize(n as u64)))
    } else if offset as int % (COPY_BUFFER_ALIGNMENT as int) != 0 {
        Result::Err(QueueWriteError::Transfer(TransferError::UnalignedBufferOffset(offset)))
    } else if pre.buffers.value_of(id).usage & BUFFER_USAGE_COPY_DST == 0 {
        Result::Err(QueueWriteError::Transfer(TransferError::MissingCopyDstUsageFlag))
    } else if offset + n > pre.buffers.value_of(id).size {
        Result::Err(
            QueueWriteError::Transfer(
                TransferError::BufferOverrun {
                    start_offset: offset,
                    end_offset: sat_add_u64(offset as int, n),
                    buffer_size: pre.buffers.value_of(id).size,
                    side: CopySide::Destination,
                },
            ),
        )
    } else {
        Result::Ok(())
    }
}

/// How a successful, non-empty `write_buffer` changes the device: one more
/// staging buffer holding exactly the payload; the pending-writes recording
/// extended with the staging barrier, the destination's transition if one is
/// needed, and the copy; the tracker moved to copy-destination; the
/// destination's last use set to the next submission.  Nothing else changes.
pub open spec fn write_buffer_effect(
    pre: Device,
    post: Device,
    id: Id,
    offset: u64,
    data: Seq<u8>,
) -> bool {
    let slot = id.index;
    let buf = pre.buffers.value_of(id);
    let cur = pre.trackers_buffers.usage_of(slot);
    let staging = pre.pending_writes.temp_buffers@.len() as usize;
    let pre_cmds = match pre.pending_writes.command_buffer {
        Some(cb) => cb.commands@,
        None => Seq::<TransferCommand>::empty(),
    };
    let trans_cmds = match cur {
        Some(c) => if needs_transition(c, BUFFER_USE_COPY_DST, BUFFER_USE_WRITE_ALL) {
            seq![
                TransferCommand::BufferTransition(
                    Transition { slot, from: c, to: BUFFER_USE_COPY_DST },
                ),
            ]
        } else {
            Seq::<TransferCommand>::empty()
        },
        None => Seq::<TransferCommand>::empty(),
    };
    let copy_cmd = TransferCommand::CopyBufferToBuffer {
        src_staging: staging,
        dst: slot,
        dst_offset: offset,
        size: data.len() as u64,
    };
    &&& post.pending_writes.temp_buffers@.len() == pre.pending_writes.temp_buffers@.len() + 1
    &&& forall|k: int|
        0 <= k < pre.pending_writes.temp_buffers@.len() ==> #[trigger] post.pending_writes.temp_buffers@[k]
            == pre.pending_writes.temp_buffers@[k]
    &&& post.pending_writes.temp_buffers@.last().contents@ == data
    &&& (post.pending_writes.command_buffer matches Some(cb) && cb.commands@ == pre_cmds + seq![
        TransferCommand::StagingBarrier { staging },
    ] + trans_cmds + seq![copy_cmd])
    &&& post.trackers_buffers.as_map() == pre.trackers_buffers.as_map().insert(
        slot,
        next_state(cur, BUFFER_USE_COPY_DST, BUFFER_USE_WRITE_ALL),
    )
    &&& post.buffers.values@ == pre.buffers.values@.update(
        slot as int,
        Some(
            Buffer {
                life: LifeGuard {
                    ref_count: buf.life.ref_count,
                    submission_index: record_use(
                        buf.life.submission_index,
                        (pre.active_submission_index + 1) as u64,
                    ),
                },
                ..buf
            },
        ),
    )
    &&& post.buffers.epochs@ == pre.buffers.epochs@
    &&& post.buffers.backend == pre.buffers.backend
    &&& post.textures == pre.textures
    &&& post.command_buffers == pre.command_buffers
    &&& post.swap_chains == pre.swap_chains
    &&& post.ref_store == pre.ref_store
    &&& post.trackers_textures == pre.trackers_textures
    &&& post.active_submission_index == pre.active_submission_index
    &&& post.life_tracker == pre.life_tracker
    &&& post.limits == pre.limits
}

impl Device {
    /// Stages a buffer write: validates the handle, the copy alignment, the
    /// destination's capability and its size, and only then stages the
    /// payload, records the copy and barrier, transitions the tracker, and
    /// marks the destination used by the next submission.
    pub fn write_buffer(&mut self, buffer_id: Id, buffer_offset: u64, data: &Vec<u8>) -> (r:
        Result<(), QueueWriteError>)
        requires
            old(self).wf(),
            old(self).active_submission_index < u64::MAX,
        ensures
            final(self).wf(),
            r == write_buffer_outcome(*old(self), buffer_id, buffer_offset, data@),
            r matches Ok(_) && data@.len() > 0 ==> write_buffer_effect(
                *old(self),
                *final(self),
                buffer_id,
                buffer_offset,
                data@,
            ),
            r is Err || data@.len() == 0 ==> *final(self) == *old(self),
    {
        if data.len() == 0 {
            return Ok(());
        }
        let data_size = data.len() as u64;
        let (buf_size, buf_usage) = match self.buffers.get(buffer_id) {
            Some(b) => (b.size, b.usage),
            None => {
                return Err(QueueWriteError::Transfer(TransferError::InvalidResource));
            },
        };
        if data_size % COPY_BUFFER_ALIGNMENT != 0 {
            return Err(QueueWriteError::Transfer(TransferError::UnalignedCopySize(data_size)));
        }
        if buffer_offset % COPY_BUFFER_ALIGNMENT != 0 {
            return Err(
                QueueWriteError::Transfer(TransferError::UnalignedBufferOffset(buffer_offset)),
            );
        }
        if buf_usage & BUFFER_USAGE_COPY_DST == 0 {
            return Err(QueueWriteError::Transfer(TransferError::MissingCopyDstUsageFlag));
        }
        if data_size > buf_size || buffer_offset > buf_size - data_size {
            let end_offset = if buffer_offset > u64::MAX - data_size {
                u64::MAX
            } else {
                buffer_offset + data_size
            };
            return Err(
                QueueWriteError::Transfer(
                    TransferError::BufferOverrun {
                        start_offset: buffer_offset,
                        end_offset,
                        buffer_size: buf_size,
                        side: CopySide::Destination,
                    },
                ),
            );
        }
        // Validation passed; now mutate.
        let stage = match self.prepare_stage(data_size) {
            Ok(stage) => stage,
            Err(_) => unreached(),
        };
        let staging_index = self.pending_writes.temp_buffers.len();
        let contents = clone_bytes(data);
        let transition = self.trackers_buffers.use_replace(buffer_id.index, BUFFER_USE_COPY_DST);
        let idx = buffer_id.index as usize;
        let mut buf = match self.buffers.take_at(idx) {
            Some(b) => b,
            None => unreached(),
        };
        let _alive = buf.life.use_at(self.active_submission_index + 1);
        self.buffers.put_at(idx, buf);
        let mut cmdbuf = stage.cmdbuf;
        cmdbuf.commands.push(TransferCommand::StagingBarrier { staging: staging_index });
        match transition {
            Some(t) => {
                cmdbuf.commands.push(TransferCommand::BufferTransition(t));
            },
            None => {},
        }
        cmdbuf.commands.push(
            TransferCommand::CopyBufferToBuffer {
                src_staging: staging_index,
                dst: buffer_id.index,
                dst_offset: buffer_offset,
                size: data_size,
            },
        );
        self.pending_writes.consume(
            StagingData { buffer: StagingBuffer { contents }, cmdbuf },
        );
        proof {
            assert(self.buffers.values@ =~= old(self).buffers.values@.update(
                buffer_id.index as int,
                Some(
                    Buffer {
                        life: LifeGuard {
                            ref_count: old(self).buffers.value_of(buffer_id).life.ref_count,
                            submission_index: record_use(
                                old(self).buffers.value_of(buffer_id).life.submission_index,
                                (old(self).active_submission_index + 1) as u64,
                            ),
                        },
                        ..old(self).buffers.value_of(buffer_id)
                    },
                ),
            ));
            let pre_cmds = match old(self).pending_writes.command_buffer {
                Some(cb) => cb.commands@,
                None => Seq::<TransferCommand>::empty(),
            };
            let cur = old(self).trackers_buffers.usage_of(buffer_id.index);
            let trans_cmds = match cur {
                Some(c) => if needs_transition(c, BUFFER_USE_COPY_DST, BUFFER_USE_WRITE_ALL) {
                    seq![
                        TransferCommand::BufferTransition(
                            Transition { slot: buffer_id.index, from: c, to: BUFFER_USE_COPY_DST },
                        ),
                    ]
                } else {
                    Seq::<TransferCommand>::empty()
                },
                None => Seq::<TransferCommand>::empty(),
            };
            let copy_cmd = TransferCommand::CopyBufferToBuffer {
                src_staging: staging_index,
                dst: buffer_id.index,
                dst_offset: buffer_offset,
                size: data@.len() as u64,
            };
            assert(self.pending_writes.command_buffer matches Some(cb) && cb.commands@ =~= pre_cmds
                + seq![TransferCommand::StagingBarrier { staging: staging_index }] + trans_cmds
                + seq![copy_cmd]);
            assert(write_buffer_effect(
                *old(self),
                *self,
                buffer_id,
                buffer_offset,
                data@,
            ));
        }
        Ok(())
    }
}

pub open spec fn min_nat(a: nat, b: nat) -> nat {
    if a < b {
        a
    } else {
        b
    }
}

/// The copy must start on a block boundary and lie inside the destination
/// texture; the engine models a single mip level.
pub open spec fn copy_range_valid(view: TextureCopyView, tex: Texture, size: Extent3d) -> bool {
    &&& view.origin.x % tex.format.block_width == 0
    &&& view.origin.y % tex.format.block_height == 0
    &&& view.origin.x + size.width <= tex.size.width
    &&& view.origin.y + size.height <= tex.size.height
    &&& view.origin.z + size.depth <= tex.size.depth
    &&& view.mip_level == 0
}

/// Validates that a texture copy stays inside its destination.
pub fn validate_texture_copy_range(
    view: &TextureCopyView,
    fmt: &TextureFormatInfo,
    tex_size: &Extent3d,
    size: &Extent3d,
) -> (r: Result<(), TransferError>)
    requires
        fmt.wf(),
    ensures
        r matches Ok(_) <==> copy_range_valid(
            *view,
            Texture {
                size: *tex_size,
                usage: 0,
                format: *fmt,
                life: LifeGuard { ref_count: None, submission_index: 0 },
            },
            *size,
        ),
        r is Err ==> r == Result::<(), TransferError>::Err(TransferError::InvalidExtent),
{
    if view.origin.x % fmt.block_width != 0 || view.origin.y % fmt.block_height != 0
        || (view.origin.x as u64) + (size.width as u64) > (tex_size.width as u64)
        || (view.origin.y as u64) + (size.height as u64) > (tex_size.height as u64)
        || (view.origin.z as u64) + (size.depth as u64) > (tex_size.depth as u64)
        || view.mip_level != 0 {
        Err(TransferError::InvalidExtent)
    } else {
        Ok(())
    }
}

/// The staging allocation a texture write needs, in bytes.
pub open spec fn spec_stage_size(
    limits: DeviceLimits,
    fmt: TextureFormatInfo,
    layout: TextureDataLayout,
    size: Extent3d,
) -> nat {
    spec_stage_bytes_per_row(limits, fmt, size) * spec_block_rows_in_copy(layout, fmt, size)
}

/// What `write_texture` returns, for every input: the validation cascade of
/// the texture write path.  Every failure leaves the device untouched.
pub open spec fn write_texture_outcome(
    pre: Device,
    view: TextureCopyView,
    data: Seq<u8>,
    layout: TextureDataLayout,
    size: Extent3d,
) -> Result<(), QueueWriteError> {
    if size.width == 0 || size.height == 0 || size.depth == 0 {
        Result::Ok(())
    } else if !pre.textures.resolves(view.texture) {
        Result::Err(QueueWriteError::Transfer(TransferError::InvalidResource))
    } else {
        let tex = pre.textures.value_of(view.texture);
        let fmt = tex.format;
        if !extent_block_aligned(size, fmt) {
            Result::Err(QueueWriteError::Transfer(TransferError::InvalidExtent))
        } else if !layout_pitch_valid(layout, fmt, size) {
            Result::Err(
                QueueWriteError::Transfer(TransferError::UnalignedRowPitch(layout.bytes_per_row)),
            )
        } else if data.len() < spec_required_bytes(layout, fmt, size) {
            Result::Err(QueueWriteError::Transfer(TransferError::InsufficientDataSize))
        } else if tex.usage & TEXTURE_USAGE_COPY_DST == 0 {
            Result::Err(QueueWriteError::Transfer(TransferError::MissingCopyDstUsageFlag))
        } else if !copy_range_valid(view, tex, size) {
            Result::Err(QueueWriteError::Transfer(TransferError::InvalidExtent))
        } else if spec_stage_size(pre.limits, fmt, layout, size) > usize::MAX {
            Result::Err(QueueWriteError::Queue(DeviceError::OutOfMemory))
        } else {
            Result::Ok(())
        }
    }
}

/// How a successful, non-empty `write_texture` changes the device: one more
/// staging buffer holding the payload re-strided to the staged pitch; the
/// pending-writes recording extended with the staging barrier, the
/// destination's transition if one is needed, and the image copy; the
/// tracker moved to copy-destination; the destination's last use set to the
/// next submission.  Nothing else changes.
pub open spec fn write_texture_effect(
    pre: Device,
    post: Device,
    view: TextureCopyView,
    data: Seq<u8>,
    layout: TextureDataLayout,
    size: Extent3d,
) -> bool {
    let slot = view.texture.index;
    let tex = pre.textures.value_of(view.texture);
    let fmt = tex.format;
    let sbpr = spec_stage_bytes_per_row(pre.limits, fmt, size);
    let rows = spec_block_rows_in_copy(layout, fmt, size);
    let copy_bytes = min_nat(sbpr, layout.bytes_per_row as nat);
    let staging = pre.pending_writes.temp_buffers@.len() as usize;
    let cur = pre.trackers_textures.usage_of(slot);
    let pre_cmds = match pre.pending_writes.command_buffer {
        Some(cb) => cb.commands@,
        None => Seq::<TransferCommand>::empty(),
    };
    let trans_cmds = match cur {
        Some(c) => if needs_transition(c, TEXTURE_USE_COPY_DST, TEXTURE_USE_WRITE_ALL) {
            seq![
                TransferCommand::TextureTransition(
                    Transition { slot, from: c, to: TEXTURE_USE_COPY_DST },
                ),
            ]
        } else {
            Seq::<TransferCommand>::empty()
        },
        None => Seq::<TransferCommand>::empty(),
    };
    let copy_cmd = TransferCommand::CopyBufferToTexture {
        src_staging: staging,
        dst: slot,
        region: ImageCopyRegion {
            stage_bytes_per_row: sbpr as u32,
            rows_per_image: layout.rows_per_image,
            mip_level: view.mip_level,
            origin: view.origin,
            extent: size,
        },
    };
    &&& post.pending_writes.temp_buffers@.len() == pre.pending_writes.temp_buffers@.len() + 1
    &&& forall|k: int|
        0 <= k < pre.pending_writes.temp_buffers@.len() ==> #[trigger] post.pending_writes.temp_buffers@[k]
            == pre.pending_writes.temp_buffers@[k]
    &&& post.pending_writes.temp_buffers@.last().contents@ == staged_contents(
        data,
        layout.bytes_per_row as nat,
        sbpr,
        copy_bytes,
        rows,
    )
    &&& (post.pending_writes.command_buffer matches Some(cb) && cb.commands@ == pre_cmds + seq![
        TransferCommand::StagingBarrier { staging },
    ] + trans_cmds + seq![copy_cmd])
    &&& post.trackers_textures.as_map() == pre.trackers_textures.as_map().insert(
        slot,
        next_state(cur, TEXTURE_USE_COPY_DST, TEXTURE_USE_WRITE_ALL),
    )
    &&& post.textures.values@ == pre.textures.values@.update(
        slot as int,
        Some(
            Texture {
                life: LifeGuard {
                    ref_count: tex.life.ref_count,
                    submission_index: record_use(
                        tex.life.submission_index,
                        (pre.active_submission_index + 1) as u64,
                    ),
                },
                ..tex
            },
        ),
    )
    &&& post.textures.epochs@ == pre.textures.epochs@
    &&& post.textures.backend == pre.textures.backend
    &&& post.buffers == pre.buffers
    &&& post.command_buffers == pre.command_buffers
    &&& post.swap_chains == pre.swap_chains
    &&& post.ref_store == pre.ref_store
    &&& post.trackers_buffers == pre.trackers_buffers
    &&& post.active_submission_index == pre.active_submission_index
    &&& post.life_tracker == pre.life_tracker
    &&& post.limits == pre.limits
}

impl Device {
    /// Stages a texture write: validates the handle, the linear layout, the
    /// destination's capability and the copy range, computes the staged row
    /// pitch, and only then re-strides the payload into staging, records the
    /// image copy and barrier, transitions the tracker, and marks the
    /// destination used by the next submission.
    pub fn write_texture(
        &mut self,
        destination: &TextureCopyView,
        data: &Vec<u8>,
        data_layout: &TextureDataLayout,
        size: &Extent3d,
    ) -> (r: Result<(), QueueWriteError>)
        requires
            old(self).wf(),
            old(self).active_submission_index < u64::MAX,
        ensures
            final(self).wf(),
            r == write_texture_outcome(*old(self), *destination, data@, *data_layout, *size),
            (r matches Ok(_) && size.width > 0 && size.height > 0 && size.depth > 0)
                ==> write_texture_effect(
                *old(self),
                *final(self),
                *destination,
                data@,
                *data_layout,
                *size,
            ),
            (r is Err || size.width == 0 || size.height == 0 || size.depth == 0) ==> *final(self)
                == *old(self),
    {
        if size.width == 0 || size.height == 0 || size.depth == 0 {
            return Ok(());
        }
        let (tex_size, tex_usage, fmt) = match self.textures.get(destination.texture) {
            Some(t) => (t.size, t.usage, t.format),
            None => {
                return Err(QueueWriteError::Transfer(TransferError::InvalidResource));
            },
        };
        match validate_linear_texture_data(data_layout, &fmt, data.len() as u64, size) {
            Err(e) => {
                return Err(QueueWriteError::Transfer(e));
            },
            Ok(()) => {},
        }
        if tex_usage & TEXTURE_USAGE_COPY_DST == 0 {
            return Err(QueueWriteError::Transfer(TransferError::MissingCopyDstUsageFlag));
        }
        match validate_texture_copy_range(destination, &fmt, &tex_size, size) {
            Err(e) => {
                return Err(QueueWriteError::Transfer(e));
            },
            Ok(()) => {},
        }
        proof {
            assert((fmt.bytes_per_block as nat) * crate::staging::spec_width_blocks(*size, fmt)
                <= data_layout.bytes_per_row);
        }
        let stage_bpr = compute_stage_bytes_per_row(&self.limits, &fmt, size);
        let block_rows_per_image = data_layout.rows_per_image / fmt.block_height;
        let height_blocks = size.height / fmt.block_height;
        proof {
            assert((((size.depth - 1) as u64) as int * (block_rows_per_image as u64) as int + (
            height_blocks as u64) as int) < 0xffff_ffff_ffff_ffff) by (nonlinear_arith)
                requires
                    (size.depth - 1) as u64 <= 0xffff_ffffu64,
                    block_rows_per_image as u64 <= 0xffff_ffffu64,
                    height_blocks as u64 <= 0xffff_ffffu64,
            ;
        }
        let block_rows: u64 = ((size.depth - 1) as u64) * (block_rows_per_image as u64)
            + (height_blocks as u64);
        proof {
            assert(block_rows == spec_block_rows_in_copy(*data_layout, fmt, *size));
            assert(stage_bpr >= 1) by {
                if size.width < fmt.block_width {
                    vstd::arithmetic::div_mod::lemma_small_mod(
                        size.width as nat,
                        fmt.block_width as nat,
                    );
                }
                vstd::arithmetic::div_mod::lemma_div_non_zero(
                    size.width as int,
                    fmt.block_width as int,
                );
                assert((fmt.bytes_per_block as int) * (crate::staging::spec_width_blocks(
                    *size,
                    fmt,
                ) as int) >= 1 * 1) by (nonlinear_arith)
                    requires
                        fmt.bytes_per_block >= 1,
                        crate::staging::spec_width_blocks(*size, fmt) >= 1,
                ;
            }
        }
        let max_rows: u64 = (usize::MAX as u64) / (stage_bpr as u64);
        if block_rows > max_rows {
            proof {
                crate::staging::lemma_mul_div_bounds(
                    usize::MAX as int,
                    stage_bpr as int,
                    block_rows as int,
                );
                assert(spec_stage_size(self.limits, fmt, *data_layout, *size) == block_rows as int
                    * stage_bpr as int) by (nonlinear_arith)
                    requires
                        spec_stage_size(self.limits, fmt, *data_layout, *size) == stage_bpr as int
                            * block_rows as int,
                ;
            }
            return Err(QueueWriteError::Queue(DeviceError::OutOfMemory));
        }
        proof {
            crate::staging::lemma_mul_div_bounds(
                usize::MAX as int,
                stage_bpr as int,
                block_rows as int,
            );
            assert(block_rows as int * stage_bpr as int == stage_bpr as int * block_rows as int)
                by (nonlinear_arith);
        }
        let stage_size: u64 = (stage_bpr as u64) * block_rows;
        proof {
            assert(stage_size == spec_stage_size(self.limits, fmt, *data_layout, *size));
            assert(stage_size <= usize::MAX);
        }
        // Validation passed; now mutate.
        let stage = match self.prepare_stage(stage_size) {
            Ok(stage) => stage,
            Err(_) => unreached(),
        };
        let staging_index = self.pending_writes.temp_buffers.len();
        let copy_bytes: u32 = if stage_bpr < data_layout.bytes_per_row {
            stage_bpr
        } else {
            data_layout.bytes_per_row
        };
        proof {
            // Block rows are positive, and the payload covers every row.
            assert(block_rows >= 1) by {
                if size.height < fmt.block_height {
                    vstd::arithmetic::div_mod::lemma_small_mod(
                        size.height as nat,
                        fmt.block_height as nat,
                    );
                }
                vstd::arithmetic::div_mod::lemma_div_non_zero(
                    size.height as int,
                    fmt.block_height as int,
                );
                assert(((size.depth - 1) as u64) as int * (block_rows_per_image as u64) as int
                    >= 0) by (nonlinear_arith);
            }
            assert(stage_bpr >= 1) by {
                if size.width < fmt.block_width {
                    vstd::arithmetic::div_mod::lemma_small_mod(
                        size.width as nat,
                        fmt.block_width as nat,
                    );
                }
                vstd::arithmetic::div_mod::lemma_div_non_zero(
                    size.width as int,
                    fmt.block_width as int,
                );
                assert((fmt.bytes_per_block as int) * (crate::staging::spec_width_blocks(
                    *size,
                    fmt,
                ) as int) >= 1 * 1) by (nonlinear_arith)
                    requires
                        fmt.bytes_per_block >= 1,
                        crate::staging::spec_width_blocks(*size, fmt) >= 1,
                ;
            }
            assert(block_rows as int * (data_layout.bytes_per_row as int) == spec_required_bytes(
                *data_layout,
                fmt,
                *size,
            ));
            assert((block_rows - 1) as int * (data_layout.bytes_per_row as int) + (copy_bytes
                as int) <= block_rows as int * (data_layout.bytes_per_row as int))
                by (nonlinear_arith)
                requires
                    block_rows >= 1,
                    copy_bytes <= data_layout.bytes_per_row,
            ;
            assert(block_rows as int * (stage_bpr as int) == stage_size as int)
                by (nonlinear_arith)
                requires
                    stage_size as int == (stage_bpr as u64) as int * block_rows as int,
            ;
        }
        let staged = fill_staging(
            data,
            data_layout.bytes_per_row as usize,
            stage_bpr as usize,
            copy_bytes as usize,
            block_rows as usize,
        );
        let transition = self.trackers_textures.use_replace(
            destination.texture.index,
            TEXTURE_USE_COPY_DST,
        );
        let idx = destination.texture.index as usize;
        let mut tex = match self.textures.take_at(idx) {
            Some(t) => t,
            None => unreached(),
        };
        let _alive = tex.life.use_at(self.active_submission_index + 1);
        self.textures.put_at(idx, tex);
        let mut cmdbuf = stage.cmdbuf;
        cmdbuf.commands.push(TransferCommand::StagingBarrier { staging: staging_index });
        match transition {
            Some(t) => {
                cmdbuf.commands.push(TransferCommand::TextureTransition(t));
            },
            None => {},
        }
        cmdbuf.commands.push(
            TransferCommand::CopyBufferToTexture {
                src_staging: staging_index,
                dst: destination.texture.index,
                region: ImageCopyRegion {
                    stage_bytes_per_row: stage_bpr,
                    rows_per_image: data_layout.rows_per_image,
                    mip_level: destination.mip_level,
                    origin: destination.origin,
                    extent: *size,
                },
            },
        );
        self.pending_writes.consume(
            StagingData { buffer: StagingBuffer { contents: staged }, cmdbuf },
        );
        proof {
            assert(self.textures.values@ =~= old(self).textures.values@.update(
                destination.texture.index as int,
                Some(
                    Texture {
                        life: LifeGuard {
                            ref_count: old(self).textures.value_of(
                                destination.texture,
                            ).life.ref_count,
                            submission_index: record_use(
                                old(self).textures.value_of(
                                    destination.texture,
                                ).life.submission_index,
                                (old(self).active_submission_index + 1) as u64,
                            ),
                        },
                        ..old(self).textures.value_of(destination.texture)
                    },
                ),
            ));
            let pre_cmds = match old(self).pending_writes.command_buffer {
                Some(cb) => cb.commands@,
                None => Seq::<TransferCommand>::empty(),
            };
            let cur = old(self).trackers_textures.usage_of(destination.texture.index);
            let trans_cmds = match cur {
                Some(c) => if needs_transition(c, TEXTURE_USE_COPY_DST, TEXTURE_USE_WRITE_ALL) {
                    seq![
                        TransferCommand::TextureTransition(
                            Transition {
                                slot: destination.texture.index,
                                from: c,
                                to: TEXTURE_USE_COPY_DST,
                            },
                        ),
                    ]
                } else {
                    Seq::<TransferCommand>::empty()
                },
                None => Seq::<TransferCommand>::empty(),
            };
            let copy_cmd = TransferCommand::CopyBufferToTexture {
                src_staging: staging_index,
                dst: destination.texture.index,
                region: ImageCopyRegion {
                    stage_bytes_per_row: stage_bpr,
                    rows_per_image: data_layout.rows_per_image,
                    mip_level: destination.mip_level,
                    origin: destination.origin,
                    extent: *size,
                },
            };
            assert(self.pending_writes.command_buffer matches Some(cb) && cb.commands@ =~= pre_cmds
                + seq![TransferCommand::StagingBarrier { staging: staging_index }] + trans_cmds
                + seq![copy_cmd]);
            assert(write_texture_effect(
                *old(self),
                *self,
                *destination,
                data@,
                *data_layout,
                *size,
            ));
        }
        Ok(())
    }

    /// Registers a buffer of the given size and capabilities, alive with one
    /// external owner and no recorded use.
    pub fn create_buffer(&mut self, size: u64, usage: u32) -> (id: Id)
        requires
            old(self).wf(),
            old(self).buffers.values@.len() < u32::MAX,
        ensures
            final(self).wf(),
            final(self).buffers.resolves(id),
            id.index == old(self).buffers.values@.len(),
            final(self).buffers.value_of(id) == (Buffer {
                size,
                usage,
                map_state: BufferMapState::Idle,
                life: final(self).buffers.value_of(id).life,
            }),
            final(self).buffers.value_of(id).life.submission_index == 0,
            final(self).buffers.value_of(id).life.ref_count is Some,
            final(self).buffers.values@ == old(self).buffers.values@.push(
                Some(final(self).buffers.value_of(id)),
            ),
            final(self).buffers.epochs@ == old(self).buffers.epochs@.push(1),
            final(self).buffers.backend == old(self).buffers.backend,
            final(self).ref_store.counts@ == old(self).ref_store.counts@.push(1),
            *final(self) == (Device {
                buffers: final(self).buffers,
                ref_store: final(self).ref_store,
                ..*old(self)
            }),
    {
        let life = LifeGuard::new(&mut self.ref_store);
        let buffer = Buffer { size, usage, map_state: BufferMapState::Idle, life };
        self.buffers.register(buffer)
    }

    /// Registers a texture with the given extent, capabilities and format.
    pub fn create_texture(&mut self, size: Extent3d, usage: u32, format: TextureFormatInfo) -> (id:
        Id)
        requires
            old(self).wf(),
            old(self).textures.values@.len() < u32::MAX,
            format.wf(),
        ensures
            final(self).wf(),
            final(self).textures.resolves(id),
            id.index == old(self).textures.values@.len(),
            final(self).textures.value_of(id) == (Texture {
                size,
                usage,
                format,
                life: final(self).textures.value_of(id).life,
            }),
            final(self).textures.value_of(id).life.submission_index == 0,
            final(self).textures.value_of(id).life.ref_count is Some,
            final(self).textures.values@ == old(self).textures.values@.push(
                Some(final(self).textures.value_of(id)),
            ),
            final(self).textures.epochs@ == old(self).textures.epochs@.push(1),
            final(self).textures.backend == old(self).textures.backend,
            final(self).ref_store.counts@ == old(self).ref_store.counts@.push(1),
            *final(self) == (Device {
                textures: final(self).textures,
                ref_store: final(self).ref_store,
                ..*old(self)
            }),
    {
        let life = LifeGuard::new(&mut self.ref_store);
        let texture = Texture { size, usage, format, life };
        self.textures.register(texture)
    }

    /// Registers a swap chain; `acquired_view` says whether an output view
    /// is currently acquired.
    pub fn create_swap_chain(&mut self, acquired_view: bool) -> (id: Id)
        requires
            old(self).wf(),
            old(self).swap_chains.values@.len() < u32::MAX,
        ensures
            final(self).wf(),
            final(self).swap_chains.resolves(id),
            final(self).swap_chains.value_of(id) == (SwapChain {
                acquired_view,
                active_submission_index: 0,
                acquired_framebuffers: 0,
            }),
            *final(self) == (Device { swap_chains: final(self).swap_chains, ..*old(self) }),
            final(self).swap_chains.values@ == old(self).swap_chains.values@.push(
                Some(final(self).swap_chains.value_of(id)),
            ),
    {
        self.swap_chains.register(
            SwapChain { acquired_view, active_submission_index: 0, acquired_framebuffers: 0 },
        )
    }

    /// Registers a recorded command buffer for a later submission.
    pub fn register_command_buffer(&mut self, cmdbuf: CommandBuffer) -> (id: Id)
        requires
            old(self).wf(),
            old(self).command_buffers.values@.len() < u32::MAX,
        ensures
            final(self).wf(),
            final(self).command_buffers.resolves(id),
            final(self).command_buffers.value_of(id) == cmdbuf,
            *final(self) == (Device {
                command_buffers: final(self).command_buffers,
                ..*old(self)
            }),
            final(self).command_buffers.values@ == old(self).command_buffers.values@.push(
                Some(cmdbuf),
            ),
    {
        self.command_buffers.register(cmdbuf)
    }

    /// Gives up the caller's handle to a buffer.  The resource stays until
    /// every in-flight submission that uses it retires; it becomes a
    /// reclamation candidate once no owner is left.
    pub fn buffer_drop(&mut self, id: Id) -> (released: bool)
        requires
            old(self).wf(),
            old(self).buffers.resolves(id),
            old(self).buffers.value_of(id).life.ref_count matches Some(rc) && old(self).ref_store.valid(rc.slot as int),
        ensures
            final(self).wf(),
            final(self).buffers.value_of(id).life.ref_count is None,
            final(self).buffers.value_of(id).life.submission_index == old(self).buffers.value_of(
                id,
            ).life.submission_index,
            final(self).buffers.values@ == old(self).buffers.values@.update(
                id.index as int,
                Some(
                    Buffer {
                        life: LifeGuard {
                            ref_count: None,
                            submission_index: old(self).buffers.value_of(
                                id,
                            ).life.submission_index,
                        },
                        ..old(self).buffers.value_of(id)
                    },
                ),
            ),
            final(self).buffers.epochs@ == old(self).buffers.epochs@,
            final(self).buffers.backend == old(self).buffers.backend,
            *final(self) == (Device {
                buffers: final(self).buffers,
                ref_store: final(self).ref_store,
                ..*old(self)
            }),
    {
        let idx = id.index as usize;
        let mut buf = match self.buffers.take_at(idx) {
            Some(b) => b,
            None => unreached(),
        };
        let released = buf.life.release_external(&mut self.ref_store);
        self.buffers.put_at(idx, buf);
        proof {
            assert(self.buffers.values@ =~= old(self).buffers.values@.update(
                id.index as int,
                Some(
                    Buffer {
                        life: LifeGuard {
                            ref_count: None,
                            submission_index: old(self).buffers.value_of(
                                id,
                            ).life.submission_index,
                        },
                        ..old(self).buffers.value_of(id)
                    },
                ),
            ));
        }
        released
    }

    /// Gives up the caller's handle to a texture.
    pub fn texture_drop(&mut self, id: Id) -> (released: bool)
        requires
            old(self).wf(),
            old(self).textures.resolves(id),
            old(self).textures.value_of(id).life.ref_count matches Some(rc) && old(self).ref_store.valid(rc.slot as int),
        ensures
            final(self).wf(),
            final(self).textures.value_of(id).life.ref_count is None,
            final(self).textures.values@ == old(self).textures.values@.update(
                id.index as int,
                Some(
                    Texture {
                        life: LifeGuard {
                            ref_count: None,
                            submission_index: old(self).textures.value_of(
                                id,
                            ).life.submission_index,
                        },
                        ..old(self).textures.value_of(id)
                    },
                ),
            ),
            final(self).textures.epochs@ == old(self).textures.epochs@,
            final(self).textures.backend == old(self).textures.backend,
            *final(self) == (Device {
                textures: final(self).textures,
                ref_store: final(self).ref_store,
                ..*old(self)
            }),
    {
        let idx = id.index as usize;
        let mut tex = match self.textures.take_at(idx) {
            Some(t) => t,
            None => unreached(),
        };
        let released = tex.life.release_external(&mut self.ref_store);
        self.textures.put_at(idx, tex);
        proof {
            assert(self.textures.values@ =~= old(self).textures.values@.update(
                id.index as int,
                Some(
                    Texture {
                        life: LifeGuard {
                            ref_count: None,
                            submission_index: old(self).textures.value_of(
                                id,
                            ).life.submission_index,
                        },
                        ..old(self).textures.value_of(id)
                    },
                ),
            ));
        }
        released
    }
}

/// The collapsed buffer-use summaries of the submitted command buffers, in
/// caller order.
pub open spec fn batches_of_buffers(pre: Device, ids: Seq<Id>) -> Seq<Seq<LocalUse>> {
    ids.map_values(
        |id: Id| spec_collapse(BUFFER_USE_WRITE_ALL, pre.command_buffers.value_of(id).buffer_uses@),
    )
}

/// The collapsed texture-use summaries of the submitted command buffers.
pub open spec fn batches_of_textures(pre: Device, ids: Seq<Id>) -> Seq<Seq<LocalUse>> {
    ids.map_values(
        |id: Id| spec_collapse(
            TEXTURE_USE_WRITE_ALL,
            pre.command_buffers.value_of(id).texture_uses@,
        ),
    )
}

/// Some command buffer of the batch uses this slot.
pub open spec fn used_in(batches: Seq<Seq<LocalUse>>, slot: u32) -> bool {
    exists|k: int, j: int|
        0 <= k < batches.len() && 0 <= j < batches[k].len() && (#[trigger] batches[k][j]).slot
            == slot
}

/// The flushed pending-writes recording copies into this buffer slot.
pub open spec fn pending_buffer_dst(cb: Option<PendingCommands>, slot: u32) -> bool {
    cb matches Some(p) && (exists|j: int|
        0 <= j < p.commands@.len() && ((#[trigger] p.commands@[j]) matches
            TransferCommand::CopyBufferToBuffer { dst, .. } && dst == slot))
}

/// The flushed pending-writes recording copies into this texture slot.
pub open spec fn pending_texture_dst(cb: Option<PendingCommands>, slot: u32) -> bool {
    cb matches Some(p) && (exists|j: int|
        0 <= j < p.commands@.len() && ((#[trigger] p.commands@[j]) matches
            TransferCommand::CopyBufferToTexture { dst, .. } && dst == slot))
}

/// The buffer slot exists, and is not mapped while an external owner holds
/// it: submitting work on such a buffer is an access error.
pub open spec fn buffer_use_ok(pre: Device, slot: u32) -> bool {
    &&& (slot as int) < pre.buffers.values@.len()
    &&& pre.buffers.values@[slot as int] is Some
    &&& !(pre.buffers.values@[slot as int]->0.map_state == BufferMapState::Active
        && pre.buffers.values@[slot as int]->0.life.ref_count is Some)
}

pub open spec fn texture_slot_live(pre: Device, slot: u32) -> bool {
    (slot as int) < pre.textures.values@.len() && pre.textures.values@[slot as int] is Some
}

/// One command buffer may be submitted: its swap chain output is still
/// acquired, and every resource it recorded exists and is in a usable state.
pub open spec fn cmdbuf_ok(pre: Device, cb: CommandBuffer) -> bool {
    &&& (cb.used_swap_chain matches Some(sc) ==> pre.swap_chains.resolves(sc)
        && pre.swap_chains.value_of(sc).acquired_view)
    &&& forall|j: int|
        0 <= j < cb.buffer_uses@.len() ==> buffer_use_ok(pre, (#[trigger] cb.buffer_uses@[j]).slot)
    &&& forall|j: int|
        0 <= j < cb.texture_uses@.len() ==> texture_slot_live(
            pre,
            (#[trigger] cb.texture_uses@[j]).slot,
        )
}

/// A batch may be submitted: every handle resolves, no handle repeats, and
/// every command buffer is in a submittable state.
pub open spec fn submit_valid(pre: Device, ids: Seq<Id>) -> bool {
    &&& forall|k: int| 0 <= k < ids.len() ==> pre.command_buffers.resolves(#[trigger] ids[k])
    &&& forall|k: int| 0 <= k < ids.len() ==> (#[trigger] ids[k]).epoch < u32::MAX
    &&& forall|k: int|
        0 <= k < ids.len() ==> cmdbuf_ok(pre, pre.command_buffers.value_of(#[trigger] ids[k]))
    &&& forall|k1: int, k2: int| 0 <= k1 < k2 < ids.len() ==> ids[k1] != ids[k2]
}

/// The submitted batch, or the flushed staged writes, touch this buffer.
pub open spec fn buffer_used_by_submission(pre: Device, ids: Seq<Id>, slot: u32) -> bool {
    used_in(batches_of_buffers(pre, ids), slot) || pending_buffer_dst(
        pre.pending_writes.command_buffer,
        slot,
    )
}

pub open spec fn texture_used_by_submission(pre: Device, ids: Seq<Id>, slot: u32) -> bool {
    used_in(batches_of_textures(pre, ids), slot) || pending_texture_dst(
        pre.pending_writes.command_buffer,
        slot,
    )
}

/// The buffer lost its last external owner and this submission uses it, so
/// it belongs on the submission's suspected-dead list.
pub open spec fn buffer_suspect(pre: Device, ids: Seq<Id>, slot: u32) -> bool {
    dead_buffer_slot(pre, slot) && buffer_used_by_submission(pre, ids, slot)
}

pub open spec fn texture_suspect(pre: Device, ids: Seq<Id>, slot: u32) -> bool {
    dead_texture_slot(pre, slot) && texture_used_by_submission(pre, ids, slot)
}

/// The record a successful submission appends: its index and fence, the
/// stream of flushed writes, stitched barriers and command buffers in
/// execution order, the suspected-dead lists, and the staging buffers whose
/// lifetime now ends with this submission.
pub open spec fn submit_record_ok(pre: Device, ids: Seq<Id>, rec: SubmissionRecord) -> bool {
    let new_index = (pre.active_submission_index + 1) as u64;
    let bb = batches_of_buffers(pre, ids);
    let bt = batches_of_textures(pre, ids);
    let flush: int = if pre.pending_writes.command_buffer is Some {
        1int
    } else {
        0int
    };
    &&& rec.index == new_index
    &&& rec.fence == new_index
    &&& rec.temp_buffers@ == pre.pending_writes.temp_buffers@
    &&& rec.stream@.len() == flush + 2 * ids.len()
    &&& (pre.pending_writes.command_buffer matches Some(cb) ==> rec.stream@[0]
        == StreamItem::Flush(cb))
    &&& forall|k: int|
        0 <= k < ids.len() ==> ((#[trigger] rec.stream@[flush + 2 * k]) matches
            StreamItem::Transit { buffer_transitions, texture_transitions } && buffer_transitions@
            == submission_transitions(BUFFER_USE_WRITE_ALL, pre.trackers_buffers.as_map(), bb)[k]
            && texture_transitions@ == submission_transitions(
            TEXTURE_USE_WRITE_ALL,
            pre.trackers_textures.as_map(),
            bt,
        )[k])
    &&& forall|k: int|
        0 <= k < ids.len() ==> (#[trigger] rec.stream@[flush + 2 * k + 1]) == (StreamItem::Execute {
            cmd_buf: ids[k],
        })
    &&& forall|slot: u32|
        #[trigger] contains_slot(rec.suspected_buffers@, slot) <==> buffer_suspect(
            pre,
            ids,
            slot,
        )
    &&& forall|slot: u32|
        #[trigger] contains_slot(rec.suspected_textures@, slot) <==> texture_suspect(
            pre,
            ids,
            slot,
        )
}

/// How a successful submission changes the device.
pub open spec fn submit_effect(pre: Device, post: Device, ids: Seq<Id>) -> bool {
    let new_index = (pre.active_submission_index + 1) as u64;
    let bb = batches_of_buffers(pre, ids);
    let bt = batches_of_textures(pre, ids);
    &&& post.active_submission_index == new_index
    &&& post.life_tracker@.len() == pre.life_tracker@.len() + 1
    &&& forall|i: int|
        0 <= i < pre.life_tracker@.len() ==> #[trigger] post.life_tracker@[i]
            == pre.life_tracker@[i]
    &&& submit_record_ok(pre, ids, post.life_tracker@.last())
    &&& post.trackers_buffers.as_map() == submission_exit(pre.trackers_buffers.as_map(), bb)
    &&& post.trackers_textures.as_map() == submission_exit(pre.trackers_textures.as_map(), bt)
    &&& post.trackers_buffers.write_mask == pre.trackers_buffers.write_mask
    &&& post.trackers_textures.write_mask == pre.trackers_textures.write_mask
    &&& post.pending_writes.command_buffer is None
    &&& post.pending_writes.temp_buffers@.len() == 0
    &&& post.buffers.backend == pre.buffers.backend
    &&& post.buffers.epochs@ == pre.buffers.epochs@
    &&& post.buffers.values@.len() == pre.buffers.values@.len()
    &&& forall|slot: int|
        0 <= slot < pre.buffers.values@.len() ==> #[trigger] post.buffers.values@[slot] == (match
            pre.buffers.values@[slot] {
            Some(b) => Some(
                if used_in(bb, slot as u32) {
                    buffer_touched(b, new_index, true)
                } else if pending_buffer_dst(pre.pending_writes.command_buffer, slot as u32) {
                    buffer_touched(b, new_index, false)
                } else {
                    b
                },
            ),
            None => None,
        })
    &&& post.textures.backend == pre.textures.backend
    &&& post.textures.epochs@ == pre.textures.epochs@
    &&& post.textures.values@.len() == pre.textures.values@.len()
    &&& forall|slot: int|
        0 <= slot < pre.textures.values@.len() ==> #[trigger] post.textures.values@[slot] == (match
            pre.textures.values@[slot] {
            Some(t) => Some(
                if texture_used_by_submission(pre, ids, slot as u32) {
                    texture_touched(t, new_index)
                } else {
                    t
                },
            ),
            None => None,
        })
    &&& post.command_buffers.backend == pre.command_buffers.backend
    &&& post.command_buffers.values@.len() == pre.command_buffers.values@.len()
    &&& post.command_buffers.epochs@.len() == pre.command_buffers.epochs@.len()
    &&& forall|slot: int|
        0 <= slot < pre.command_buffers.values@.len() ==> (if exists|k: int|
            0 <= k < ids.len() && (#[trigger] ids[k]).index == slot {
            (#[trigger] post.command_buffers.values@[slot]) is None
                && post.command_buffers.epochs@[slot] == pre.command_buffers.epochs@[slot] + 1
        } else {
            post.command_buffers.values@[slot] == pre.command_buffers.values@[slot]
                && post.command_buffers.epochs@[slot] == pre.command_buffers.epochs@[slot]
        })
    &&& post.swap_chains.backend == pre.swap_chains.backend
    &&& post.swap_chains.epochs@ == pre.swap_chains.epochs@
    &&& post.swap_chains.values@.len() == pre.swap_chains.values@.len()
    &&& forall|slot: int|
        0 <= slot < pre.swap_chains.values@.len() ==> ((#[trigger] post.swap_chains.values@[slot])
            is Some <==> pre.swap_chains.values@[slot] is Some)
    &&& forall|slot: int|
        0 <= slot < pre.swap_chains.values@.len() && pre.swap_chains.values@[slot] is Some ==> (
        #[trigger] post.swap_chains.values@[slot])->0.acquired_view
            == pre.swap_chains.values@[slot]->0.acquired_view
    &&& post.ref_store == pre.ref_store
    &&& post.limits == pre.limits
}

/// One buffer after submission bookkeeping touched it: its last use is
/// raised to the submission index, and a mapping left by a dropped owner is
/// torn down when `unmap` applies.
pub open spec fn buffer_touched(b: Buffer, new_index: u64, unmap: bool) -> Buffer {
    Buffer {
        map_state: if unmap && b.life.ref_count is None && b.map_state == BufferMapState::Active {
            BufferMapState::Idle
        } else {
            b.map_state
        },
        life: LifeGuard {
            ref_count: b.life.ref_count,
            submission_index: record_use(b.life.submission_index, new_index),
        },
        ..b
    }
}

/// One texture after submission bookkeeping touched it.
pub open spec fn texture_touched(t: Texture, new_index: u64) -> Texture {
    Texture {
        life: LifeGuard {
            ref_count: t.life.ref_count,
            submission_index: record_use(t.life.submission_index, new_index),
        },
        ..t
    }
}

/// Marks one buffer slot used by the submission being built: raises its
/// last-use index and, when it has lost its external owner, tears down a
/// leftover mapping (if `unmap`) and adds it to the suspected-dead list.
fn touch_buffer(
    buffers: &mut ResourceTable<Buffer>,
    slot: u32,
    new_index: u64,
    unmap: bool,
    suspected: &mut Vec<u32>,
)
    requires
        old(buffers).wf(),
    ensures
        final(buffers).wf(),
        final(buffers).backend == old(buffers).backend,
        final(buffers).epochs@ == old(buffers).epochs@,
        (slot as int) < old(buffers).values@.len() && old(buffers).values@[slot as int] is Some
            ==> {
            &&& final(buffers).values@ == old(buffers).values@.update(
                slot as int,
                Some(buffer_touched(old(buffers).values@[slot as int]->0, new_index, unmap)),
            )
            &&& final(suspected)@ == (if old(buffers).values@[slot as int]->0.life.ref_count
                is None {
                old(suspected)@.push(slot)
            } else {
                old(suspected)@
            })
        },
        !((slot as int) < old(buffers).values@.len() && old(buffers).values@[slot as int]
            is Some) ==> final(buffers).values@ == old(buffers).values@ && final(suspected)@
            == old(suspected)@,
{
    if (slot as usize) < buffers.values.len() {
        let entry = match buffers.take_at(slot as usize) {
            Some(b) => b,
            None => {
                proof {
                    assert(buffers.values@ =~= old(buffers).values@);
                }
                return ;
            },
        };
        let mut b = entry;
        let alive = b.life.use_at(new_index);
        if !alive {
            if unmap {
                match b.map_state {
                    BufferMapState::Active => {
                        b.map_state = BufferMapState::Idle;
                    },
                    BufferMapState::Idle => {},
                }
            }
            suspected.push(slot);
        }
        buffers.put_at(slot as usize, b);
        proof {
            assert(buffers.values@ =~= old(buffers).values@.update(
                slot as int,
                Some(buffer_touched(old(buffers).values@[slot as int]->0, new_index, unmap)),
            ));
        }
    }
}

/// Marks one texture slot used by the submission being built.
fn touch_texture(
    textures: &mut ResourceTable<Texture>,
    slot: u32,
    new_index: u64,
    suspected: &mut Vec<u32>,
)
    requires
        old(textures).wf(),
    ensures
        final(textures).wf(),
        final(textures).backend == old(textures).backend,
        final(textures).epochs@ == old(textures).epochs@,
        (slot as int) < old(textures).values@.len() && old(textures).values@[slot as int] is Some
            ==> {
            &&& final(textures).values@ == old(textures).values@.update(
                slot as int,
                Some(texture_touched(old(textures).values@[slot as int]->0, new_index)),
            )
            &&& final(suspected)@ == (if old(textures).values@[slot as int]->0.life.ref_count
                is None {
                old(suspected)@.push(slot)
            } else {
                old(suspected)@
            })
        },
        !((slot as int) < old(textures).values@.len() && old(textures).values@[slot as int]
            is Some) ==> final(textures).values@ == old(textures).values@ && final(suspected)@
            == old(suspected)@,
{
    if (slot as usize) < textures.values.len() {
        let entry = match textures.take_at(slot as usize) {
            Some(t) => t,
            None => {
                proof {
                    assert(textures.values@ =~= old(textures).values@);
                }
                return ;
            },
        };
        let mut t = entry;
        let alive = t.life.use_at(new_index);
        if !alive {
            suspected.push(slot);
        }
        textures.put_at(slot as usize, t);
        proof {
            assert(textures.values@ =~= old(textures).values@.update(
                slot as int,
                Some(texture_touched(old(textures).values@[slot as int]->0, new_index)),
            ));
        }
    }
}

/// One of the first `upto` pending commands copies into this buffer slot.
spec fn pending_buffer_prefix(cmds: Seq<TransferCommand>, upto: int, slot: u32) -> bool {
    exists|j: int|
        0 <= j < upto && ((#[trigger] cmds[j]) matches TransferCommand::CopyBufferToBuffer {
            dst,
            ..
        } && dst == slot)
}

/// One of the first `upto` pending commands copies into this texture slot.
spec fn pending_texture_prefix(cmds: Seq<TransferCommand>, upto: int, slot: u32) -> bool {
    exists|j: int|
        0 <= j < upto && ((#[trigger] cmds[j]) matches TransferCommand::CopyBufferToTexture {
            dst,
            ..
        } && dst == slot)
}

/// One of the first `upto` collapsed entries names this slot.
spec fn slot_in_prefix(entries: Seq<LocalUse>, upto: int, slot: u32) -> bool {
    exists|j: int| 0 <= j < upto && (#[trigger] entries[j]).slot == slot
}

/// The slot appears somewhere in the list.
pub open spec fn contains_slot(s: Seq<u32>, slot: u32) -> bool {
    exists|i: int| 0 <= i < s.len() && s[i] == slot
}

/// The buffer in this slot exists but has lost its external owner.
pub open spec fn dead_buffer_slot(pre: Device, slot: u32) -> bool {
    (slot as int) < pre.buffers.values@.len() && pre.buffers.values@[slot as int] is Some
        && pre.buffers.values@[slot as int]->0.life.ref_count is None
}

/// The texture in this slot exists but has lost its external owner.
pub open spec fn dead_texture_slot(pre: Device, slot: u32) -> bool {
    (slot as int) < pre.textures.values@.len() && pre.textures.values@[slot as int] is Some
        && pre.textures.values@[slot as int]->0.life.ref_count is None
}

/// Membership in a sequence extended by one element.
proof fn lemma_push_membership(s: Seq<u32>, x: u32, slot: u32)
    ensures
        contains_slot(s.push(x), slot) <==> (contains_slot(s, slot) || slot == x),
{
    if exists|i: int| 0 <= i < s.push(x).len() && s.push(x)[i] == slot {
        let i = choose|i: int| 0 <= i < s.push(x).len() && s.push(x)[i] == slot;
        if i < s.len() {
            assert(s[i] == slot);
        }
    }
    if exists|i: int| 0 <= i < s.len() && s[i] == slot {
        let i = choose|i: int| 0 <= i < s.len() && s[i] == slot;
        assert(s.push(x)[i] == slot);
    }
    assert(s.push(x)[s.len() as int] == x);
}

/// Extending a batch prefix by one command buffer extends the used set by
/// exactly that command buffer's slots.
proof fn lemma_used_in_extend(batches: Seq<Seq<LocalUse>>, k: int, slot: u32)
    requires
        0 <= k < batches.len(),
    ensures
        used_in(batches.take(k + 1), slot) <==> (used_in(batches.take(k), slot) || slot_in_prefix(
            batches[k],
            batches[k].len() as int,
            slot,
        )),
{
    if used_in(batches.take(k + 1), slot) {
        let (k2, j) = choose|k2: int, j: int|
            0 <= k2 < batches.take(k + 1).len() && 0 <= j < batches.take(k + 1)[k2].len() && (
            #[trigger] batches.take(k + 1)[k2][j]).slot == slot;
        if k2 < k {
            assert(batches.take(k)[k2] == batches.take(k + 1)[k2]);
            assert(used_in(batches.take(k), slot));
        } else {
            assert(batches.take(k + 1)[k2] == batches[k]);
            assert(slot_in_prefix(batches[k], batches[k].len() as int, slot));
        }
    }
    if used_in(batches.take(k), slot) {
        let (k2, j) = choose|k2: int, j: int|
            0 <= k2 < batches.take(k).len() && 0 <= j < batches.take(k)[k2].len() && (
            #[trigger] batches.take(k)[k2][j]).slot == slot;
        assert(batches.take(k + 1)[k2] == batches.take(k)[k2]);
        assert(used_in(batches.take(k + 1), slot));
    }
    if slot_in_prefix(batches[k], batches[k].len() as int, slot) {
        let j = choose|j: int| 0 <= j < batches[k].len() && (#[trigger] batches[k][j]).slot == slot;
        assert(batches.take(k + 1)[k] == batches[k]);
        assert(used_in(batches.take(k + 1), slot));
    }
}

impl Device {
    /// Submits a batch of command buffers, in caller order.  After the whole
    /// batch is validated, the pending staged writes are flushed ahead of the
    /// batch, every touched resource's last use is raised to the new
    /// submission index (resources without an owner joining the
    /// suspected-dead list), the barriers each command buffer needs are
    /// stitched against the device-global state actually reached before it,
    /// and the submission record — stream, fence, suspected-dead lists,
    /// retired staging buffers — is appended for the reclamation pass.  A
    /// repeated or stale handle, a handle at its final generation, a dropped
    /// swap chain output, or a buffer mapped while still owned, fail the
    /// whole call before anything changes.
    #[verifier::rlimit(100)]
    pub fn submit(&mut self, command_buffer_ids: &Vec<Id>) -> (r: Result<(), QueueSubmitError>)
        requires
            old(self).wf(),
            old(self).active_submission_index < u64::MAX,
        ensures
            final(self).wf(),
            r matches Ok(_) <==> submit_valid(*old(self), command_buffer_ids@),
            r is Err ==> *final(self) == *old(self),
            r matches Ok(_) ==> submit_effect(*old(self), *final(self), command_buffer_ids@),
    {
        // Validation pass: nothing is mutated until the whole batch checks.
        let mut k: usize = 0;
        while k < command_buffer_ids.len()
            invariant
                old(self).wf(),
                *self == *old(self),
                k <= command_buffer_ids@.len(),
                forall|k2: int|
                    0 <= k2 < k ==> old(self).command_buffers.resolves(#[trigger] command_buffer_ids@[k2]),
                forall|k2: int| 0 <= k2 < k ==> (#[trigger] command_buffer_ids@[k2]).epoch < u32::MAX,
                forall|k2: int|
                    0 <= k2 < k ==> cmdbuf_ok(
                        *old(self),
                        old(self).command_buffers.value_of(#[trigger] command_buffer_ids@[k2]),
                    ),
                forall|k1: int, k2: int| 0 <= k1 < k2 < k ==> command_buffer_ids@[k1] != command_buffer_ids@[k2],
            decreases command_buffer_ids@.len() - k,
        {
            let id = command_buffer_ids[k];
            let mut k2: usize = 0;
            while k2 < k
                invariant
                    *self == *old(self),
                    old(self).wf(),
                    k2 <= k,
                    k < command_buffer_ids@.len(),
                    id == command_buffer_ids@[k as int],
                    forall|j: int| 0 <= j < k2 ==> command_buffer_ids@[j] != command_buffer_ids@[k as int],
                decreases k - k2,
            {
                if command_buffer_ids[k2] == id {
                    // A repeated handle would be unregistered twice.
                    proof {
                        assert(command_buffer_ids@[k2 as int] == command_buffer_ids@[k as int]);
                        assert(!submit_valid(*old(self), command_buffer_ids@));
                    }
                    return Err(QueueSubmitError::InvalidCommandBuffer(id));
                }
                k2 = k2 + 1;
            }
            if id.epoch == u32::MAX {
                proof {
                    assert(!submit_valid(*old(self), command_buffer_ids@)) by {
                        if submit_valid(*old(self), command_buffer_ids@) {
                            assert((command_buffer_ids@[k as int]).epoch < u32::MAX);
                        }
                    }
                }
                return Err(QueueSubmitError::InvalidCommandBuffer(id));
            }
            let cb = match self.command_buffers.get(id) {
                Some(cb) => cb,
                None => {
                    proof {
                        assert(!submit_valid(*old(self), command_buffer_ids@)) by {
                            if submit_valid(*old(self), command_buffer_ids@) {
                                assert(old(self).command_buffers.resolves(command_buffer_ids@[k as int]));
                            }
                        }
                    }
                    return Err(QueueSubmitError::InvalidCommandBuffer(id));
                },
            };
            match cb.used_swap_chain {
                Some(sc) => {
                    match self.swap_chains.get(sc) {
                        Some(s) => {
                            if !s.acquired_view {
                                proof {
                                    assert(!submit_valid(*old(self), command_buffer_ids@)) by {
                                        if submit_valid(*old(self), command_buffer_ids@) {
                                            assert(cmdbuf_ok(
                                                *old(self),
                                                old(self).command_buffers.value_of(
                                                    command_buffer_ids@[k as int],
                                                ),
                                            ));
                                        }
                                    }
                                }
                                return Err(QueueSubmitError::SwapChainOutputDropped);
                            }
                        },
                        None => {
                            proof {
                                assert(!submit_valid(*old(self), command_buffer_ids@)) by {
                                    if submit_valid(*old(self), command_buffer_ids@) {
                                        assert(cmdbuf_ok(
                                            *old(self),
                                            old(self).command_buffers.value_of(command_buffer_ids@[k as int]),
                                        ));
                                    }
                                }
                            }
                            return Err(QueueSubmitError::SwapChainOutputDropped);
                        },
                    }
                },
                None => {},
            }
            let mut j: usize = 0;
            while j < cb.buffer_uses.len()
                invariant
                    *self == *old(self),
                    old(self).wf(),
                    j <= cb.buffer_uses@.len(),
                    k < command_buffer_ids@.len(),
                    id == command_buffer_ids@[k as int],
                    old(self).command_buffers.resolves(id),
                    *cb == old(self).command_buffers.value_of(id),
                    forall|j2: int|
                        0 <= j2 < j ==> buffer_use_ok(
                            *old(self),
                            (#[trigger] cb.buffer_uses@[j2]).slot,
                        ),
                decreases cb.buffer_uses@.len() - j,
            {
                let slot = cb.buffer_uses[j].slot;
                proof {
                    assert(!buffer_use_ok(*old(self), slot) ==> !submit_valid(
                        *old(self),
                        command_buffer_ids@,
                    )) by {
                        if submit_valid(*old(self), command_buffer_ids@) {
                            assert(cmdbuf_ok(
                                *old(self),
                                old(self).command_buffers.value_of(command_buffer_ids@[k as int]),
                            ));
                            assert(buffer_use_ok(
                                *old(self),
                                cb.buffer_uses@[j as int].slot,
                            ));
                        }
                    }
                }
                if (slot as usize) >= self.buffers.values.len() {
                    return Err(QueueSubmitError::InvalidCommandBuffer(id));
                }
                match &self.buffers.values[slot as usize] {
                    Some(b) => {
                        let mapped_live = match b.map_state {
                            BufferMapState::Active => b.life.ref_count.is_some(),
                            BufferMapState::Idle => false,
                        };
                        if mapped_live {
                            return Err(
                                QueueSubmitError::BufferAccess(
                                    Id {
                                        index: slot,
                                        epoch: self.buffers.epochs[slot as usize],
                                        backend: self.buffers.backend,
                                    },
                                ),
                            );
                        }
                    },
                    None => {
                        return Err(QueueSubmitError::InvalidCommandBuffer(id));
                    },
                }
                j = j + 1;
            }
            let mut j: usize = 0;
            while j < cb.texture_uses.len()
                invariant
                    *self == *old(self),
                    old(self).wf(),
                    j <= cb.texture_uses@.len(),
                    k < command_buffer_ids@.len(),
                    id == command_buffer_ids@[k as int],
                    old(self).command_buffers.resolves(id),
                    *cb == old(self).command_buffers.value_of(id),
                    forall|j2: int|
                        0 <= j2 < j ==> texture_slot_live(
                            *old(self),
                            (#[trigger] cb.texture_uses@[j2]).slot,
                        ),
                decreases cb.texture_uses@.len() - j,
            {
                let slot = cb.texture_uses[j].slot;
                proof {
                    assert(!texture_slot_live(*old(self), slot) ==> !submit_valid(
                        *old(self),
                        command_buffer_ids@,
                    )) by {
                        if submit_valid(*old(self), command_buffer_ids@) {
                            assert(cmdbuf_ok(
                                *old(self),
                                old(self).command_buffers.value_of(command_buffer_ids@[k as int]),
                            ));
                            assert(texture_slot_live(
                                *old(self),
                                cb.texture_uses@[j as int].slot,
                            ));
                        }
                    }
                }
                if (slot as usize) >= self.textures.values.len() {
                    return Err(QueueSubmitError::InvalidCommandBuffer(id));
                }
                if self.textures.values[slot as usize].is_none() {
                    return Err(QueueSubmitError::InvalidCommandBuffer(id));
                }
                j = j + 1;
            }
            k = k + 1;
        }
        proof {
            assert(submit_valid(*old(self), command_buffer_ids@));
        }
        // Validation passed; now mutate.
        let ghost pre = *old(self);
        let ghost bb = batches_of_buffers(pre, command_buffer_ids@);
        let ghost bt = batches_of_textures(pre, command_buffer_ids@);
        let ghost flush: int = if pre.pending_writes.command_buffer is Some {
            1int
        } else {
            0int
        };
        let pending_cb = self.pending_writes.command_buffer.take();
        let mut temp_buffers: Vec<StagingBuffer> = Vec::new();
        core::mem::swap(&mut temp_buffers, &mut self.pending_writes.temp_buffers);
        self.active_submission_index = self.active_submission_index + 1;
        let new_index = self.active_submission_index;
        let mut suspected_buffers: Vec<u32> = Vec::new();
        let mut suspected_textures: Vec<u32> = Vec::new();
        let mut stream: Vec<StreamItem> = Vec::new();
        match pending_cb {
            Some(pcb) => {
                let ghost cmds = pcb.commands@;
                let mut j: usize = 0;
                while j < pcb.commands.len()
                    invariant
                        pre.wf(),
                        j <= cmds.len(),
                        cmds == pcb.commands@,
                        new_index == pre.active_submission_index + 1,
                        self.buffers.wf(),
                        self.buffers.backend == pre.buffers.backend,
                        self.buffers.epochs@ == pre.buffers.epochs@,
                        self.buffers.values@.len() == pre.buffers.values@.len(),
                        forall|slot: int|
                            0 <= slot < pre.buffers.values@.len()
                                ==> #[trigger] self.buffers.values@[slot] == (match
                                pre.buffers.values@[slot] {
                                Some(b) => Some(
                                    if pending_buffer_prefix(cmds, j as int, slot as u32) {
                                        buffer_touched(b, new_index, false)
                                    } else {
                                        b
                                    },
                                ),
                                None => None,
                            }),
                        forall|slot: u32|
                            #[trigger] contains_slot(suspected_buffers@, slot) <==> (
                            dead_buffer_slot(pre, slot) && pending_buffer_prefix(
                                cmds,
                                j as int,
                                slot,
                            )),
                        self.textures.wf(),
                        self.textures.backend == pre.textures.backend,
                        self.textures.epochs@ == pre.textures.epochs@,
                        self.textures.values@.len() == pre.textures.values@.len(),
                        forall|slot: int|
                            0 <= slot < pre.textures.values@.len()
                                ==> #[trigger] self.textures.values@[slot] == (match
                                pre.textures.values@[slot] {
                                Some(t) => Some(
                                    if pending_texture_prefix(cmds, j as int, slot as u32) {
                                        texture_touched(t, new_index)
                                    } else {
                                        t
                                    },
                                ),
                                None => None,
                            }),
                        forall|slot: u32|
                            #[trigger] contains_slot(suspected_textures@, slot) <==> (
                            dead_texture_slot(pre, slot) && pending_texture_prefix(
                                cmds,
                                j as int,
                                slot,
                            )),
                        self.command_buffers == pre.command_buffers,
                        self.swap_chains == pre.swap_chains,
                        self.trackers_buffers == pre.trackers_buffers,
                        self.trackers_textures == pre.trackers_textures,
                        self.pending_writes.command_buffer is None,
                        self.pending_writes.temp_buffers@.len() == 0,
                        self.active_submission_index == new_index,
                        self.life_tracker == pre.life_tracker,
                        self.ref_store == pre.ref_store,
                        self.limits == pre.limits,
                        temp_buffers@ == pre.pending_writes.temp_buffers@,
                        stream@.len() == 0,
                    decreases cmds.len() - j,
                {
                    let ghost old_mid = *self;
                    let ghost old_sb = suspected_buffers@;
                    let ghost old_st = suspected_textures@;

                    match &pcb.commands[j] {
                        TransferCommand::CopyBufferToBuffer { dst, .. } => {
                            touch_buffer(
                                &mut self.buffers,
                                *dst,
                                new_index,
                                false,
                                &mut suspected_buffers,
                            );
                        },
                        TransferCommand::CopyBufferToTexture { dst, .. } => {
                            touch_texture(
                                &mut self.textures,
                                *dst,
                                new_index,
                                &mut suspected_textures,
                            );
                        },
                        _ => {},
                    }
                    proof {
                        assert forall|slot: u32|
                            pending_buffer_prefix(cmds, j + 1, slot) implies (
                        pending_buffer_prefix(cmds, j as int, slot) || (cmds[j as int] matches
                            TransferCommand::CopyBufferToBuffer { dst, .. } && dst == slot)) by {
                            let j2 = choose|j2: int|
                                0 <= j2 < j + 1 && ((#[trigger] cmds[j2]) matches
                                    TransferCommand::CopyBufferToBuffer { dst, .. } && dst
                                    == slot);
                            if j2 < j {
                                assert(pending_buffer_prefix(cmds, j as int, slot));
                            }
                        }
                        assert forall|slot: u32|
                            pending_texture_prefix(cmds, j + 1, slot) implies (
                        pending_texture_prefix(cmds, j as int, slot) || (cmds[j as int] matches
                            TransferCommand::CopyBufferToTexture { dst, .. } && dst == slot)) by {
                            let j2 = choose|j2: int|
                                0 <= j2 < j + 1 && ((#[trigger] cmds[j2]) matches
                                    TransferCommand::CopyBufferToTexture { dst, .. } && dst
                                    == slot);
                            if j2 < j {
                                assert(pending_texture_prefix(cmds, j as int, slot));
                            }
                        }
                        assert(forall|slot: u32|
                            pending_buffer_prefix(cmds, j as int, slot)
                                ==> pending_buffer_prefix(cmds, j + 1, slot));
                        assert(forall|slot: u32|
                            pending_texture_prefix(cmds, j as int, slot)
                                ==> pending_texture_prefix(cmds, j + 1, slot));
                        match cmds[j as int] {
                            TransferCommand::CopyBufferToBuffer { dst, .. } => {
                                assert(pending_buffer_prefix(cmds, j + 1, dst));
                            },
                            TransferCommand::CopyBufferToTexture { dst, .. } => {
                                assert(pending_texture_prefix(cmds, j + 1, dst));
                            },
                            _ => {},
                        }
                        assert forall|slot: int|
                            0 <= slot < pre.buffers.values@.len()
                                implies #[trigger] self.buffers.values@[slot] == (match
                            pre.buffers.values@[slot] {
                            Some(b) => Some(
                                if pending_buffer_prefix(cmds, j + 1, slot as u32) {
                                    buffer_touched(b, new_index, false)
                                } else {
                                    b
                                },
                            ),
                            None => None,
                        }) by {
                            assert(old_mid.buffers.values@[slot] == (match pre.buffers.values@[
                            slot] {
                                Some(b) => Some(
                                    if pending_buffer_prefix(cmds, j as int, slot as u32) {
                                        buffer_touched(b, new_index, false)
                                    } else {
                                        b
                                    },
                                ),
                                None => None,
                            }));
                            if pre.buffers.values@[slot] is Some {
                                let b = pre.buffers.values@[slot]->0;
                                match cmds[j as int] {
                                    TransferCommand::CopyBufferToBuffer { dst, .. } => {
                                        if slot == dst as int && pending_buffer_prefix(
                                            cmds,
                                            j as int,
                                            dst,
                                        ) {
                                            assert(old_mid.buffers.values@[slot] == Some(
                                                buffer_touched(b, new_index, false),
                                            ));
                                            assert(buffer_touched(
                                                buffer_touched(b, new_index, false),
                                                new_index,
                                                false,
                                            ) == buffer_touched(b, new_index, false));
                                        }
                                    },
                                    _ => {},
                                }
                            }
                        }
                        assert forall|slot: u32|
                            #[trigger] contains_slot(suspected_buffers@, slot) <==> (
                        dead_buffer_slot(pre, slot) && pending_buffer_prefix(
                            cmds,
                            j + 1,
                            slot,
                        )) by {
                            assert(contains_slot(old_sb, slot) <==> (dead_buffer_slot(pre, slot)
                                && pending_buffer_prefix(cmds, j as int, slot)));
                            if (slot as int) < pre.buffers.values@.len()
                                && pre.buffers.values@[slot as int] is Some {
                                assert(old_mid.buffers.values@[slot as int] == (match
                                pre.buffers.values@[slot as int] {
                                    Some(b) => Some(
                                        if pending_buffer_prefix(cmds, j as int, slot) {
                                            buffer_touched(b, new_index, false)
                                        } else {
                                            b
                                        },
                                    ),
                                    None => None,
                                }));
                            }
                            match cmds[j as int] {
                                TransferCommand::CopyBufferToBuffer { dst, .. } => {
                                    if (dst as int) < pre.buffers.values@.len()
                                        && pre.buffers.values@[dst as int] is Some {
                                        assert(old_mid.buffers.values@[dst as int] is Some);
                                        assert(old_mid.buffers.values@[dst as int]->0.life.ref_count
                                            == pre.buffers.values@[dst as int]->0.life.ref_count);
                                        if pre.buffers.values@[dst as int]->0.life.ref_count
                                            is None {
                                            assert(suspected_buffers@ == old_sb.push(dst));
                                            lemma_push_membership(old_sb, dst, slot);
                                        } else {
                                            assert(suspected_buffers@ == old_sb);
                                        }
                                    } else {
                                        assert(suspected_buffers@ == old_sb);
                                    }
                                },
                                _ => {
                                    assert(suspected_buffers@ == old_sb);
                                },
                            }
                        }
                        assert forall|slot: int|
                            0 <= slot < pre.textures.values@.len()
                                implies #[trigger] self.textures.values@[slot] == (match
                            pre.textures.values@[slot] {
                            Some(t) => Some(
                                if pending_texture_prefix(cmds, j + 1, slot as u32) {
                                    texture_touched(t, new_index)
                                } else {
                                    t
                                },
                            ),
                            None => None,
                        }) by {
                            assert(old_mid.textures.values@[slot] == (match pre.textures.values@[
                            slot] {
                                Some(t) => Some(
                                    if pending_texture_prefix(cmds, j as int, slot as u32) {
                                        texture_touched(t, new_index)
                                    } else {
                                        t
                                    },
                                ),
                                None => None,
                            }));
                            if pre.textures.values@[slot] is Some {
                                let t = pre.textures.values@[slot]->0;
                                match cmds[j as int] {
                                    TransferCommand::CopyBufferToTexture { dst, .. } => {
                                        if slot == dst as int && pending_texture_prefix(
                                            cmds,
                                            j as int,
                                            dst,
                                        ) {
                                            assert(old_mid.textures.values@[slot] == Some(
                                                texture_touched(t, new_index),
                                            ));
                                            assert(texture_touched(
                                                texture_touched(t, new_index),
                                                new_index,
                                            ) == texture_touched(t, new_index));
                                        }
                                    },
                                    _ => {},
                                }
                            }
                        }
                        assert forall|slot: u32|
                            #[trigger] contains_slot(suspected_textures@, slot) <==> (
                        dead_texture_slot(pre, slot) && pending_texture_prefix(
                            cmds,
                            j + 1,
                            slot,
                        )) by {
                            assert(contains_slot(old_st, slot) <==> (dead_texture_slot(pre, slot)
                                && pending_texture_prefix(cmds, j as int, slot)));
                            if (slot as int) < pre.textures.values@.len()
                                && pre.textures.values@[slot as int] is Some {
                                assert(old_mid.textures.values@[slot as int] == (match
                                pre.textures.values@[slot as int] {
                                    Some(t) => Some(
                                        if pending_texture_prefix(cmds, j as int, slot) {
                                            texture_touched(t, new_index)
                                        } else {
                                            t
                                        },
                                    ),
                                    None => None,
                                }));
                            }
                            match cmds[j as int] {
                                TransferCommand::CopyBufferToTexture { dst, .. } => {
                                    if (dst as int) < pre.textures.values@.len()
                                        && pre.textures.values@[dst as int] is Some {
                                        assert(old_mid.textures.values@[dst as int] is Some);
                                        assert(old_mid.textures.values@[dst as int]->0.life.ref_count
                                            == pre.textures.values@[dst as int]->0.life.ref_count);
                                        if pre.textures.values@[dst as int]->0.life.ref_count
                                            is None {
                                            assert(suspected_textures@ == old_st.push(dst));
                                            lemma_push_membership(old_st, dst, slot);
                                        } else {
                                            assert(suspected_textures@ == old_st);
                                        }
                                    } else {
                                        assert(suspected_textures@ == old_st);
                                    }
                                },
                                _ => {
                                    assert(suspected_textures@ == old_st);
                                },
                            }
                        }
                    }
                    j = j + 1;
                }
                proof {
                    assert forall|slot: u32|
                        #[trigger] pending_buffer_dst(pre.pending_writes.command_buffer, slot)
                            implies pending_buffer_prefix(cmds, cmds.len() as int, slot) by {}
                    assert forall|slot: u32|
                        pending_buffer_prefix(cmds, cmds.len() as int, slot) implies
                        pending_buffer_dst(pre.pending_writes.command_buffer, slot) by {}
                    assert forall|slot: u32|
                        #[trigger] pending_texture_dst(pre.pending_writes.command_buffer, slot)
                            implies pending_texture_prefix(cmds, cmds.len() as int, slot) by {}
                    assert forall|slot: u32|
                        pending_texture_prefix(cmds, cmds.len() as int, slot) implies
                        pending_texture_dst(pre.pending_writes.command_buffer, slot) by {}
                }
                stream.push(StreamItem::Flush(pcb));
            },
            None => {},
        }
        // Per command buffer, in caller order: bookkeeping, stitching,
        // slot recycling.
        let mut k: usize = 0;
        while k < command_buffer_ids.len()
            invariant
                pre.wf(),
                submit_valid(pre, command_buffer_ids@),
                k <= command_buffer_ids@.len(),
                bb == batches_of_buffers(pre, command_buffer_ids@),
                bt == batches_of_textures(pre, command_buffer_ids@),
                flush == (if pre.pending_writes.command_buffer is Some {
                    1int
                } else {
                    0int
                }),
                new_index == pre.active_submission_index + 1,
                self.buffers.wf(),
                self.buffers.backend == pre.buffers.backend,
                self.buffers.epochs@ == pre.buffers.epochs@,
                self.buffers.values@.len() == pre.buffers.values@.len(),
                forall|slot: int|
                    0 <= slot < pre.buffers.values@.len() ==> #[trigger] self.buffers.values@[slot]
                        == (match pre.buffers.values@[slot] {
                        Some(b) => Some(
                            if used_in(bb.take(k as int), slot as u32) {
                                buffer_touched(b, new_index, true)
                            } else if pending_buffer_dst(
                                pre.pending_writes.command_buffer,
                                slot as u32,
                            ) {
                                buffer_touched(b, new_index, false)
                            } else {
                                b
                            },
                        ),
                        None => None,
                    }),
                forall|slot: u32|
                    #[trigger] contains_slot(suspected_buffers@, slot) <==> (dead_buffer_slot(
                        pre,
                        slot,
                    ) && (pending_buffer_dst(pre.pending_writes.command_buffer, slot) || used_in(
                        bb.take(k as int),
                        slot,
                    ))),
                self.textures.wf(),
                self.textures.backend == pre.textures.backend,
                self.textures.epochs@ == pre.textures.epochs@,
                self.textures.values@.len() == pre.textures.values@.len(),
                forall|slot: int|
                    0 <= slot < pre.textures.values@.len()
                        ==> #[trigger] self.textures.values@[slot] == (match
                        pre.textures.values@[slot] {
                        Some(t) => Some(
                            if used_in(bt.take(k as int), slot as u32) || pending_texture_dst(
                                pre.pending_writes.command_buffer,
                                slot as u32,
                            ) {
                                texture_touched(t, new_index)
                            } else {
                                t
                            },
                        ),
                        None => None,
                    }),
                forall|slot: u32|
                    #[trigger] contains_slot(suspected_textures@, slot) <==> (dead_texture_slot(
                        pre,
                        slot,
                    ) && (pending_texture_dst(pre.pending_writes.command_buffer, slot) || used_in(
                        bt.take(k as int),
                        slot,
                    ))),
                self.command_buffers.wf(),
                self.command_buffers.backend == pre.command_buffers.backend,
                self.command_buffers.values@.len() == pre.command_buffers.values@.len(),
                self.command_buffers.epochs@.len() == pre.command_buffers.epochs@.len(),
                forall|slot: int|
                    0 <= slot < pre.command_buffers.values@.len() ==> (if exists|k2: int|
                        0 <= k2 < k && (#[trigger] command_buffer_ids@[k2]).index == slot {
                        (#[trigger] self.command_buffers.values@[slot]) is None
                            && self.command_buffers.epochs@[slot]
                            == pre.command_buffers.epochs@[slot] + 1
                    } else {
                        self.command_buffers.values@[slot] == pre.command_buffers.values@[slot]
                            && self.command_buffers.epochs@[slot]
                            == pre.command_buffers.epochs@[slot]
                    }),
                self.swap_chains.wf(),
                self.swap_chains.backend == pre.swap_chains.backend,
                self.swap_chains.epochs@ == pre.swap_chains.epochs@,
                self.swap_chains.values@.len() == pre.swap_chains.values@.len(),
                forall|slot: int|
                    0 <= slot < pre.swap_chains.values@.len() ==> ((
                    #[trigger] self.swap_chains.values@[slot]) is Some
                        <==> pre.swap_chains.values@[slot] is Some),
                forall|slot: int|
                    0 <= slot < pre.swap_chains.values@.len() && pre.swap_chains.values@[slot]
                        is Some ==> (#[trigger] self.swap_chains.values@[slot])->0.acquired_view
                        == pre.swap_chains.values@[slot]->0.acquired_view,
                self.trackers_buffers.wf(),
                self.trackers_buffers.write_mask == BUFFER_USE_WRITE_ALL,
                self.trackers_buffers.as_map() == submission_exit(
                    pre.trackers_buffers.as_map(),
                    bb.take(k as int),
                ),
                self.trackers_textures.wf(),
                self.trackers_textures.write_mask == TEXTURE_USE_WRITE_ALL,
                self.trackers_textures.as_map() == submission_exit(
                    pre.trackers_textures.as_map(),
                    bt.take(k as int),
                ),
                self.pending_writes.command_buffer is None,
                self.pending_writes.temp_buffers@.len() == 0,
                self.active_submission_index == new_index,
                self.life_tracker == pre.life_tracker,
                self.ref_store == pre.ref_store,
                self.limits == pre.limits,
                temp_buffers@ == pre.pending_writes.temp_buffers@,
                stream@.len() == flush + 2 * k,
                (pre.pending_writes.command_buffer matches Some(cb) ==> stream@[0]
                    == StreamItem::Flush(cb)),
                forall|k2: int|
                    0 <= k2 < k ==> ((#[trigger] stream@[flush + 2 * k2]) matches
                        StreamItem::Transit { buffer_transitions, texture_transitions } && (
                    buffer_transitions@ == batch_transitions(
                        BUFFER_USE_WRITE_ALL,
                        submission_exit(pre.trackers_buffers.as_map(), bb.take(k2)),
                        bb[k2],
                    )) && (texture_transitions@ == batch_transitions(
                        TEXTURE_USE_WRITE_ALL,
                        submission_exit(pre.trackers_textures.as_map(), bt.take(k2)),
                        bt[k2],
                    ))),
                forall|k2: int|
                    0 <= k2 < k ==> (#[trigger] stream@[flush + 2 * k2 + 1])
                        == (StreamItem::Execute { cmd_buf: command_buffer_ids@[k2] }),
            decreases command_buffer_ids@.len() - k,
        {
            let id = command_buffer_ids[k];
            let idx = id.index as usize;
            proof {
                // The handle still resolves: only already-processed,
                // distinct handles were recycled.
                assert(pre.command_buffers.resolves(id));
                if exists|k2: int| 0 <= k2 < k && (#[trigger] command_buffer_ids@[k2]).index == id.index as int {
                    let k2 = choose|k2: int|
                        0 <= k2 < k && (#[trigger] command_buffer_ids@[k2]).index == id.index as int;
                    assert(pre.command_buffers.resolves(command_buffer_ids@[k2]));
                    assert(command_buffer_ids@[k2] != command_buffer_ids@[k as int]);
                    assert(command_buffer_ids@[k2].index == id.index && command_buffer_ids@[k2].epoch == id.epoch
                        && command_buffer_ids@[k2].backend == id.backend);
                    assert(false);
                }
            }
            let cb = match self.command_buffers.take_at(idx) {
                Some(cb) => cb,
                None => unreached(),
            };
            self.command_buffers.free(idx);
            let ghost mid_cmd = *self;
            proof {
                assert(cb == pre.command_buffers.value_of(id));
                assert(bb[k as int] == spec_collapse(BUFFER_USE_WRITE_ALL, cb.buffer_uses@));
                assert(bt[k as int] == spec_collapse(TEXTURE_USE_WRITE_ALL, cb.texture_uses@));
            }
            let collapsed_b = optimize(BUFFER_USE_WRITE_ALL, &cb.buffer_uses);
            let collapsed_t = optimize(TEXTURE_USE_WRITE_ALL, &cb.texture_uses);
            proof {
                crate::track::lemma_collapse_slots(BUFFER_USE_WRITE_ALL, cb.buffer_uses@);
                crate::track::lemma_collapse_slots(TEXTURE_USE_WRITE_ALL, cb.texture_uses@);
                assert(cmdbuf_ok(pre, cb));
            }
            let ghost entry_b = collapsed_b@;
            let ghost entry_t = collapsed_t@;
            let ghost buffers_at_k = self.buffers;
            let ghost suspected_b_at_k = suspected_buffers@;
            let ghost dev_b0 = *self;
            let ghost st_b0 = suspected_textures@;
            let ghost stream_b0 = stream@;
            let ghost temp_b0 = temp_buffers@;
            let mut j: usize = 0;
            while j < collapsed_b.len()
                invariant
                    *self == (Device { buffers: self.buffers, ..dev_b0 }),
                    suspected_textures@ == st_b0,
                    stream@ == stream_b0,
                    temp_buffers@ == temp_b0,
                    pre.wf(),
                    j <= entry_b.len(),
                    entry_b == collapsed_b@,
                    forall|j2: int|
                        0 <= j2 < entry_b.len() ==> exists|i: int|
                            0 <= i < cb.buffer_uses@.len() && (#[trigger] entry_b[j2]).slot
                                == cb.buffer_uses@[i].slot,
                    cmdbuf_ok(pre, cb),
                    new_index == pre.active_submission_index + 1,
                    self.buffers.wf(),
                    self.buffers.backend == buffers_at_k.backend,
                    self.buffers.epochs@ == buffers_at_k.epochs@,
                    self.buffers.values@.len() == buffers_at_k.values@.len(),
                    buffers_at_k.values@.len() == pre.buffers.values@.len(),
                    forall|slot: int|
                        0 <= slot < pre.buffers.values@.len()
                            ==> #[trigger] self.buffers.values@[slot] == (if slot_in_prefix(
                            entry_b,
                            j as int,
                            slot as u32,
                        ) {
                            match pre.buffers.values@[slot] {
                                Some(b) => Some(buffer_touched(b, new_index, true)),
                                None => None,
                            }
                        } else {
                            buffers_at_k.values@[slot]
                        }),
                    forall|slot: int|
                        0 <= slot < pre.buffers.values@.len() ==> ((
                        #[trigger] buffers_at_k.values@[slot]) is Some
                            <==> pre.buffers.values@[slot] is Some),
                    forall|slot: int|
                        0 <= slot < pre.buffers.values@.len() && pre.buffers.values@[slot] is Some
                            ==> ((#[trigger] buffers_at_k.values@[slot])->0.life.ref_count
                            == pre.buffers.values@[slot]->0.life.ref_count && (buffers_at_k.values@[
                        slot]->0.life.submission_index
                            == pre.buffers.values@[slot]->0.life.submission_index
                            || buffers_at_k.values@[slot]->0.life.submission_index == record_use(
                            pre.buffers.values@[slot]->0.life.submission_index,
                            new_index,
                        )) && (buffers_at_k.values@[slot]->0.map_state
                            == pre.buffers.values@[slot]->0.map_state || (
                        pre.buffers.values@[slot]->0.map_state == BufferMapState::Active
                            && pre.buffers.values@[slot]->0.life.ref_count is None
                            && buffers_at_k.values@[slot]->0.map_state == BufferMapState::Idle))
                            && buffers_at_k.values@[slot]->0.size == pre.buffers.values@[slot]->0.size
                            && buffers_at_k.values@[slot]->0.usage
                            == pre.buffers.values@[slot]->0.usage),
                    forall|slot: u32|
                        #[trigger] contains_slot(suspected_buffers@, slot) <==> (contains_slot(
                            suspected_b_at_k,
                            slot,
                        ) || (dead_buffer_slot(pre, slot) && slot_in_prefix(
                            entry_b,
                            j as int,
                            slot,
                        ))),
                decreases entry_b.len() - j,
            {
                let slot = collapsed_b[j].slot;
                proof {
                    let i = choose|i: int|
                        0 <= i < cb.buffer_uses@.len() && entry_b[j as int].slot
                            == cb.buffer_uses@[i].slot;
                    assert(buffer_use_ok(pre, cb.buffer_uses@[i].slot));
                    assert(buffer_use_ok(pre, slot));
                }
                let ghost before = *self;
                let ghost before_susp = suspected_buffers@;
                touch_buffer(&mut self.buffers, slot, new_index, true, &mut suspected_buffers);
                proof {
                    assert forall|s: u32| slot_in_prefix(entry_b, j + 1, s) implies (
                    slot_in_prefix(entry_b, j as int, s) || s == slot) by {
                        let j2 = choose|j2: int|
                            0 <= j2 < j + 1 && (#[trigger] entry_b[j2]).slot == s;
                        if j2 < j {
                            assert(slot_in_prefix(entry_b, j as int, s));
                        }
                    }
                    assert(forall|s: u32|
                        slot_in_prefix(entry_b, j as int, s) ==> slot_in_prefix(
                            entry_b,
                            j + 1,
                            s,
                        ));
                    assert(slot_in_prefix(entry_b, j + 1, slot));
                    // The touched value folds to the same state whether or
                    // not the slot was already touched this submission.
                    assert forall|s: int|
                        0 <= s < pre.buffers.values@.len() implies #[trigger] self.buffers.values@[s]
                        == (if slot_in_prefix(entry_b, j + 1, s as u32) {
                        match pre.buffers.values@[s] {
                            Some(b) => Some(buffer_touched(b, new_index, true)),
                            None => None,
                        }
                    } else {
                        buffers_at_k.values@[s]
                    }) by {
                        assert(before.buffers.values@[s] == (if slot_in_prefix(
                            entry_b,
                            j as int,
                            s as u32,
                        ) {
                            match pre.buffers.values@[s] {
                                Some(b) => Some(buffer_touched(b, new_index, true)),
                                None => None,
                            }
                        } else {
                            buffers_at_k.values@[s]
                        }));
                        if s == slot as int {
                            assert(pre.buffers.values@[s] is Some);
                            let b0 = pre.buffers.values@[s]->0;
                            let bk = buffers_at_k.values@[s]->0;
                            if slot_in_prefix(entry_b, j as int, slot) {
                                assert(before.buffers.values@[s] == Some(
                                    buffer_touched(b0, new_index, true),
                                ));
                                assert(buffer_touched(
                                    buffer_touched(b0, new_index, true),
                                    new_index,
                                    true,
                                ) == buffer_touched(b0, new_index, true));
                            } else {
                                assert(before.buffers.values@[s] == Some(bk));
                                assert(buffer_touched(bk, new_index, true) == buffer_touched(
                                    b0,
                                    new_index,
                                    true,
                                ));
                            }
                            assert(self.buffers.values@[s] == Some(
                                buffer_touched(b0, new_index, true),
                            ));
                        } else {
                            assert(self.buffers.values@[s] == before.buffers.values@[s]);
                            if slot_in_prefix(entry_b, j + 1, s as u32) {
                                assert(slot_in_prefix(entry_b, j as int, s as u32));
                            }
                        }
                    }
                    assert forall|s: u32|
                        #[trigger] contains_slot(suspected_buffers@, s) <==> (contains_slot(
                        suspected_b_at_k,
                        s,
                    ) || (dead_buffer_slot(pre, s) && slot_in_prefix(entry_b, j + 1, s))) by {
                        assert(contains_slot(before_susp, s) <==> (contains_slot(
                            suspected_b_at_k,
                            s,
                        ) || (dead_buffer_slot(pre, s) && slot_in_prefix(
                            entry_b,
                            j as int,
                            s,
                        ))));
                        assert(before.buffers.values@[slot as int] is Some);
                        assert(before.buffers.values@[slot as int]->0.life.ref_count
                            == pre.buffers.values@[slot as int]->0.life.ref_count);
                        if pre.buffers.values@[slot as int]->0.life.ref_count is None {
                            assert(suspected_buffers@ == before_susp.push(slot));
                            lemma_push_membership(before_susp, slot, s);
                        } else {
                            assert(suspected_buffers@ == before_susp);
                        }
                    }
                }
                j = j + 1;
            }
            proof {
                assert forall|slot: int|
                    0 <= slot < pre.buffers.values@.len() implies #[trigger] self.buffers.values@[slot]
                    == (match pre.buffers.values@[slot] {
                    Some(b) => Some(
                        if used_in(bb.take(k + 1), slot as u32) {
                            buffer_touched(b, new_index, true)
                        } else if pending_buffer_dst(
                            pre.pending_writes.command_buffer,
                            slot as u32,
                        ) {
                            buffer_touched(b, new_index, false)
                        } else {
                            b
                        },
                    ),
                    None => None,
                }) by {
                    lemma_used_in_extend(bb, k as int, slot as u32);
                    assert(bb[k as int].len() == entry_b.len());
                    if pre.buffers.values@[slot] is Some {
                        let b = pre.buffers.values@[slot]->0;
                        if slot_in_prefix(entry_b, entry_b.len() as int, slot as u32) {
                        } else {
                            if used_in(bb.take(k as int), slot as u32) {
                                assert(buffer_touched(buffer_touched(b, new_index, true), new_index, false)
                                    == buffer_touched(b, new_index, true));
                            }
                        }
                    }
                }
                assert forall|slot: u32|
                    #[trigger] contains_slot(suspected_buffers@, slot) <==> (dead_buffer_slot(
                        pre,
                        slot,
                    ) && (pending_buffer_dst(pre.pending_writes.command_buffer, slot) || used_in(
                        bb.take(k + 1),
                        slot,
                    ))) by {
                    lemma_used_in_extend(bb, k as int, slot);
                }
            }
            let ghost textures_at_k = self.textures;
            let ghost suspected_t_at_k = suspected_textures@;
            let ghost dev_t0 = *self;
            let ghost sb_t0 = suspected_buffers@;
            let ghost stream_t0 = stream@;
            let ghost temp_t0 = temp_buffers@;
            let mut j: usize = 0;
            while j < collapsed_t.len()
                invariant
                    *self == (Device { textures: self.textures, ..dev_t0 }),
                    suspected_buffers@ == sb_t0,
                    stream@ == stream_t0,
                    temp_buffers@ == temp_t0,
                    pre.wf(),
                    j <= entry_t.len(),
                    entry_t == collapsed_t@,
                    forall|j2: int|
                        0 <= j2 < entry_t.len() ==> exists|i: int|
                            0 <= i < cb.texture_uses@.len() && (#[trigger] entry_t[j2]).slot
                                == cb.texture_uses@[i].slot,
                    cmdbuf_ok(pre, cb),
                    new_index == pre.active_submission_index + 1,
                    self.textures.wf(),
                    self.textures.backend == textures_at_k.backend,
                    self.textures.epochs@ == textures_at_k.epochs@,
                    self.textures.values@.len() == textures_at_k.values@.len(),
                    textures_at_k.values@.len() == pre.textures.values@.len(),
                    forall|slot: int|
                        0 <= slot < pre.textures.values@.len()
                            ==> #[trigger] self.textures.values@[slot] == (if slot_in_prefix(
                            entry_t,
                            j as int,
                            slot as u32,
                        ) {
                            match pre.textures.values@[slot] {
                                Some(t) => Some(texture_touched(t, new_index)),
                                None => None,
                            }
                        } else {
                            textures_at_k.values@[slot]
                        }),
                    forall|slot: int|
                        0 <= slot < pre.textures.values@.len() ==> ((
                        #[trigger] textures_at_k.values@[slot]) is Some
                            <==> pre.textures.values@[slot] is Some),
                    forall|slot: int|
                        0 <= slot < pre.textures.values@.len() && pre.textures.values@[slot]
                            is Some ==> ((#[trigger] textures_at_k.values@[slot])->0.life.ref_count
                            == pre.textures.values@[slot]->0.life.ref_count
                            && (textures_at_k.values@[slot]->0.life.submission_index
                            == pre.textures.values@[slot]->0.life.submission_index
                            || textures_at_k.values@[slot]->0.life.submission_index == record_use(
                            pre.textures.values@[slot]->0.life.submission_index,
                            new_index,
                        )) && textures_at_k.values@[slot]->0.size
                            == pre.textures.values@[slot]->0.size
                            && textures_at_k.values@[slot]->0.usage
                            == pre.textures.values@[slot]->0.usage && textures_at_k.values@[
                        slot]->0.format == pre.textures.values@[slot]->0.format),
                    forall|slot: u32|
                        #[trigger] contains_slot(suspected_textures@, slot) <==> (contains_slot(
                            suspected_t_at_k,
                            slot,
                        ) || (dead_texture_slot(pre, slot) && slot_in_prefix(
                            entry_t,
                            j as int,
                            slot,
                        ))),
                decreases entry_t.len() - j,
            {
                let slot = collapsed_t[j].slot;
                proof {
                    let i = choose|i: int|
                        0 <= i < cb.texture_uses@.len() && entry_t[j as int].slot
                            == cb.texture_uses@[i].slot;
                    assert(texture_slot_live(pre, cb.texture_uses@[i].slot));
                    assert(texture_slot_live(pre, slot));
                }
                let ghost before = *self;
                let ghost before_susp = suspected_textures@;
                touch_texture(&mut self.textures, slot, new_index, &mut suspected_textures);
                proof {
                    assert forall|s: u32| slot_in_prefix(entry_t, j + 1, s) implies (
                    slot_in_prefix(entry_t, j as int, s) || s == slot) by {
                        let j2 = choose|j2: int|
                            0 <= j2 < j + 1 && (#[trigger] entry_t[j2]).slot == s;
                        if j2 < j {
                            assert(slot_in_prefix(entry_t, j as int, s));
                        }
                    }
                    assert(forall|s: u32|
                        slot_in_prefix(entry_t, j as int, s) ==> slot_in_prefix(
                            entry_t,
                            j + 1,
                            s,
                        ));
                    assert(slot_in_prefix(entry_t, j + 1, slot));
                    assert forall|s: int|
                        0 <= s < pre.textures.values@.len() implies #[trigger] self.textures.values@[s]
                        == (if slot_in_prefix(entry_t, j + 1, s as u32) {
                        match pre.textures.values@[s] {
                            Some(t) => Some(texture_touched(t, new_index)),
                            None => None,
                        }
                    } else {
                        textures_at_k.values@[s]
                    }) by {
                        if s == slot as int {
                            assert(pre.textures.values@[s] is Some);
                            let t0 = pre.textures.values@[s]->0;
                            let tk = textures_at_k.values@[s]->0;
                            if slot_in_prefix(entry_t, j as int, slot) {
                                assert(texture_touched(
                                    texture_touched(t0, new_index),
                                    new_index,
                                ) == texture_touched(t0, new_index));
                            } else {
                                assert(before.textures.values@[s] == Some(tk));
                                assert(texture_touched(tk, new_index) == texture_touched(
                                    t0,
                                    new_index,
                                ));
                            }
                        }
                    }
                    assert forall|s: u32|
                        #[trigger] contains_slot(suspected_textures@, s) <==> (contains_slot(
                        suspected_t_at_k,
                        s,
                    ) || (dead_texture_slot(pre, s) && slot_in_prefix(entry_t, j + 1, s))) by {
                        assert(contains_slot(before_susp, s) <==> (contains_slot(
                            suspected_t_at_k,
                            s,
                        ) || (dead_texture_slot(pre, s) && slot_in_prefix(
                            entry_t,
                            j as int,
                            s,
                        ))));
                        assert(before.textures.values@[slot as int] is Some);
                        assert(before.textures.values@[slot as int]->0.life.ref_count
                            == pre.textures.values@[slot as int]->0.life.ref_count);
                        if pre.textures.values@[slot as int]->0.life.ref_count is None {
                            assert(suspected_textures@ == before_susp.push(slot));
                            lemma_push_membership(before_susp, slot, s);
                        } else {
                            assert(suspected_textures@ == before_susp);
                        }
                    }
                }
                j = j + 1;
            }
            proof {
                assert forall|slot: int|
                    0 <= slot < pre.textures.values@.len() implies #[trigger] self.textures.values@[slot]
                    == (match pre.textures.values@[slot] {
                    Some(t) => Some(
                        if used_in(bt.take(k + 1), slot as u32) || pending_texture_dst(
                            pre.pending_writes.command_buffer,
                            slot as u32,
                        ) {
                            texture_touched(t, new_index)
                        } else {
                            t
                        },
                    ),
                    None => None,
                }) by {
                    lemma_used_in_extend(bt, k as int, slot as u32);
                    assert(bt[k as int].len() == entry_t.len());
                    if pre.textures.values@[slot] is Some {
                        let t = pre.textures.values@[slot]->0;
                        assert(texture_touched(texture_touched(t, new_index), new_index)
                            == texture_touched(t, new_index));
                    }
                }
                assert forall|slot: u32|
                    #[trigger] contains_slot(suspected_textures@, slot) <==> (dead_texture_slot(
                        pre,
                        slot,
                    ) && (pending_texture_dst(pre.pending_writes.command_buffer, slot) || used_in(
                        bt.take(k + 1),
                        slot,
                    ))) by {
                    lemma_used_in_extend(bt, k as int, slot);
                }
            }
            match cb.used_swap_chain {
                Some(sc) => {
                    let scidx = sc.index as usize;
                    proof {
                        assert(pre.swap_chains.resolves(sc));
                    }
                    let mut s = match self.swap_chains.take_at(scidx) {
                        Some(s) => s,
                        None => unreached(),
                    };
                    s.active_submission_index = new_index;
                    if s.acquired_framebuffers < u64::MAX {
                        s.acquired_framebuffers = s.acquired_framebuffers + 1;
                    }
                    self.swap_chains.put_at(scidx, s);
                },
                None => {},
            }
            let trans_b = self.trackers_buffers.stitch(&collapsed_b);
            let trans_t = self.trackers_textures.stitch(&collapsed_t);
            stream.push(
                StreamItem::Transit { buffer_transitions: trans_b, texture_transitions: trans_t },
            );
            stream.push(StreamItem::Execute { cmd_buf: id });
            proof {
                assert(bb.take(k + 1).drop_last() =~= bb.take(k as int));
                assert(bb.take(k + 1).last() == bb[k as int]);
                assert(bt.take(k + 1).drop_last() =~= bt.take(k as int));
                assert(bt.take(k + 1).last() == bt[k as int]);
                assert(stream@.len() == flush + 2 * (k + 1));
                assert forall|slot: int|
                    0 <= slot < pre.command_buffers.values@.len() implies (if exists|k2: int|
                        0 <= k2 < k + 1 && (#[trigger] command_buffer_ids@[k2]).index == slot {
                        (#[trigger] self.command_buffers.values@[slot]) is None
                            && self.command_buffers.epochs@[slot]
                            == pre.command_buffers.epochs@[slot] + 1
                    } else {
                        self.command_buffers.values@[slot] == pre.command_buffers.values@[slot]
                            && self.command_buffers.epochs@[slot]
                            == pre.command_buffers.epochs@[slot]
                    }) by {
                    if exists|k2: int| 0 <= k2 < k + 1 && (#[trigger] command_buffer_ids@[k2]).index == slot {
                        let k2 = choose|k2: int|
                            0 <= k2 < k + 1 && (#[trigger] command_buffer_ids@[k2]).index == slot;
                        if k2 < k {
                            assert(slot != id.index as int);
                        }
                    }
                }
            }
            k = k + 1;
        }
        proof {
            assert(bb.take(command_buffer_ids@.len() as int) =~= bb);
            assert(bt.take(command_buffer_ids@.len() as int) =~= bt);
        }
        let record = SubmissionRecord {
            index: new_index,
            fence: new_index,
            stream,
            suspected_buffers,
            suspected_textures,
            temp_buffers,
        };
        self.life_tracker.push(record);
        proof {
            crate::track::lemma_stitch_chained(
                BUFFER_USE_WRITE_ALL,
                pre.trackers_buffers.as_map(),
                bb,
            );
            crate::track::lemma_stitch_chained(
                TEXTURE_USE_WRITE_ALL,
                pre.trackers_textures.as_map(),
                bt,
            );
            assert(submit_record_ok(pre, command_buffer_ids@, self.life_tracker@.last()));
            assert(submit_effect(pre, *self, command_buffer_ids@));
        }
        Ok(())
    }
}

/// The slot appears among the first `upto` entries of the list.
pub open spec fn listed_in_prefix(s: Seq<u32>, upto: int, slot: u32) -> bool {
    exists|i: int| 0 <= i < upto && s[i] == slot
}

/// A reclaimed resource appears somewhere in the list.
pub open spec fn contains_reclaimed(s: Seq<ReclaimedResource>, r: ReclaimedResource) -> bool {
    exists|i: int| 0 <= i < s.len() && s[i] == r
}

/// How many leading submission records have retired once every fence up to
/// `last_done` has signaled.  Records retire strictly in issue order.
pub open spec fn drained_count(records: Seq<SubmissionRecord>, last_done: u64) -> int
    decreases records.len(),
{
    if records.len() == 0 || records[0].index > last_done {
        0
    } else {
        1 + drained_count(records.skip(1), last_done)
    }
}

/// The buffer is destroyed by this maintenance pass: a retired submission
/// suspected it, no owner is left, its last use is that very submission, and
/// its slot can still be recycled.
pub open spec fn buffer_reclaimable(pre: Device, rec: SubmissionRecord, slot: u32) -> bool {
    &&& contains_slot(rec.suspected_buffers@, slot)
    &&& dead_buffer_slot(pre, slot)
    &&& pre.buffers.values@[slot as int]->0.life.submission_index == rec.index
    &&& pre.buffers.epochs@[slot as int] < u32::MAX
}

pub open spec fn texture_reclaimable(pre: Device, rec: SubmissionRecord, slot: u32) -> bool {
    &&& contains_slot(rec.suspected_textures@, slot)
    &&& dead_texture_slot(pre, slot)
    &&& pre.textures.values@[slot as int]->0.life.submission_index == rec.index
    &&& pre.textures.epochs@[slot as int] < u32::MAX
}

impl Device {
    /// Destroys what one retired submission proved dead: every suspected
    /// resource whose last use is that submission, and no other.  Freed
    /// slots leave the trackers and get a new generation; the submission's
    /// staging buffers are freed with it.
    fn triage_record(&mut self, rec: SubmissionRecord, reclaimed: &mut Vec<ReclaimedResource>)
        requires
            old(self).wf(),
        ensures
            final(self).wf(),
            final(self).buffers.backend == old(self).buffers.backend,
            final(self).buffers.values@.len() == old(self).buffers.values@.len(),
            final(self).buffers.epochs@.len() == old(self).buffers.epochs@.len(),
            forall|slot: int|
                0 <= slot < old(self).buffers.values@.len() ==> (if buffer_reclaimable(
                    *old(self),
                    rec,
                    slot as u32,
                ) {
                    (#[trigger] final(self).buffers.values@[slot]) is None && final(self).buffers.epochs@[slot] == old(self).buffers.epochs@[slot] + 1 && !final(self).trackers_buffers.as_map().contains_key(slot as u32)
                } else {
                    final(self).buffers.values@[slot] == old(self).buffers.values@[slot] && final(self).buffers.epochs@[slot] == old(self).buffers.epochs@[slot]
                }),
            forall|slot: u32|
                !buffer_reclaimable(*old(self), rec, slot) ==> #[trigger] final(self).trackers_buffers.as_map().contains_key(slot) == old(self).trackers_buffers.as_map().contains_key(slot) && (old(self).trackers_buffers.as_map().contains_key(slot) ==> final(self).trackers_buffers.as_map()[slot] == old(self).trackers_buffers.as_map()[slot]),
            final(self).textures.backend == old(self).textures.backend,
            final(self).textures.values@.len() == old(self).textures.values@.len(),
            final(self).textures.epochs@.len() == old(self).textures.epochs@.len(),
            forall|slot: int|
                0 <= slot < old(self).textures.values@.len() ==> (if texture_reclaimable(
                    *old(self),
                    rec,
                    slot as u32,
                ) {
                    (#[trigger] final(self).textures.values@[slot]) is None && final(self).textures.epochs@[slot] == old(self).textures.epochs@[slot] + 1 && !final(self).trackers_textures.as_map().contains_key(slot as u32)
                } else {
                    final(self).textures.values@[slot] == old(self).textures.values@[slot] && final(self).textures.epochs@[slot] == old(self).textures.epochs@[slot]
                }),
            forall|slot: u32|
                !texture_reclaimable(*old(self), rec, slot) ==> #[trigger] final(self).trackers_textures.as_map().contains_key(slot) == old(self).trackers_textures.as_map().contains_key(slot) && (old(self).trackers_textures.as_map().contains_key(slot) ==> final(self).trackers_textures.as_map()[slot] == old(self).trackers_textures.as_map()[slot]),
            forall|r: ReclaimedResource|
                #[trigger] contains_reclaimed(final(reclaimed)@, r) <==> (contains_reclaimed(
                    old(reclaimed)@,
                    r,
                ) || (r matches ReclaimedResource::Buffer(slot) && buffer_reclaimable(
                    *old(self),
                    rec,
                    slot,
                )) || (r matches ReclaimedResource::Texture(slot) && texture_reclaimable(
                    *old(self),
                    rec,
                    slot,
                ))),
            final(self).command_buffers == old(self).command_buffers,
            final(self).swap_chains == old(self).swap_chains,
            final(self).pending_writes == old(self).pending_writes,
            final(self).active_submission_index == old(self).active_submission_index,
            final(self).life_tracker == old(self).life_tracker,
            final(self).ref_store == old(self).ref_store,
            final(self).limits == old(self).limits,
            final(self).trackers_buffers.write_mask == old(self).trackers_buffers.write_mask,
            final(self).trackers_textures.write_mask == old(self).trackers_textures.write_mask,
    {
        let ghost pre = *old(self);
        let ghost dev0 = *self;
        let ghost rb0 = reclaimed@;
        let mut i: usize = 0;
        while i < rec.suspected_buffers.len()
            invariant
                pre == dev0,
                pre.wf(),
                i <= rec.suspected_buffers@.len(),
                *self == (Device {
                    buffers: self.buffers,
                    trackers_buffers: self.trackers_buffers,
                    ..dev0
                }),
                self.buffers.wf(),
                self.trackers_buffers.wf(),
                self.trackers_buffers.write_mask == pre.trackers_buffers.write_mask,
                self.buffers.backend == pre.buffers.backend,
                self.buffers.values@.len() == pre.buffers.values@.len(),
                self.buffers.epochs@.len() == pre.buffers.epochs@.len(),
                forall|slot: int|
                    0 <= slot < pre.buffers.values@.len() ==> (if buffer_reclaimable(
                        pre,
                        rec,
                        slot as u32,
                    ) && listed_in_prefix(rec.suspected_buffers@, i as int, slot as u32) {
                        (#[trigger] self.buffers.values@[slot]) is None && self.buffers.epochs@[
                        slot] == pre.buffers.epochs@[slot] + 1
                            && !self.trackers_buffers.as_map().contains_key(slot as u32)
                    } else {
                        self.buffers.values@[slot] == pre.buffers.values@[slot]
                            && self.buffers.epochs@[slot] == pre.buffers.epochs@[slot]
                    }),
                forall|slot: u32|
                    !(buffer_reclaimable(pre, rec, slot) && listed_in_prefix(rec.suspected_buffers@,
                        i as int,
                        slot,
                    )) ==> #[trigger] self.trackers_buffers.as_map().contains_key(slot)
                        == pre.trackers_buffers.as_map().contains_key(slot) && (
                    pre.trackers_buffers.as_map().contains_key(slot)
                        ==> self.trackers_buffers.as_map()[slot]
                        == pre.trackers_buffers.as_map()[slot]),
                forall|r: ReclaimedResource|
                    #[trigger] contains_reclaimed(reclaimed@, r) <==> (contains_reclaimed(rb0, r)
                        || (r matches ReclaimedResource::Buffer(slot) && buffer_reclaimable(
                        pre,
                        rec,
                        slot,
                    ) && listed_in_prefix(rec.suspected_buffers@, i as int, slot))),
            decreases rec.suspected_buffers@.len() - i,
        {
            let slot = rec.suspected_buffers[i];
            let ghost before = *self;
            let ghost rb_before = reclaimed@;
            let mut destroy = false;
            if (slot as usize) < self.buffers.values.len() && self.buffers.epochs[slot as usize]
                < u32::MAX {
                match &self.buffers.values[slot as usize] {
                    Some(b) => {
                        if b.life.ref_count.is_none() && b.life.submission_index == rec.index {
                            destroy = true;
                        }
                    },
                    None => {},
                }
            }
            if destroy {
                self.buffers.free(slot as usize);
                self.trackers_buffers.remove(slot);
                reclaimed.push(ReclaimedResource::Buffer(slot));
            }
            proof {
                assert(listed_in_prefix(rec.suspected_buffers@, i + 1, slot));
                assert forall|s: u32| listed_in_prefix(rec.suspected_buffers@, i + 1, s) implies (
                listed_in_prefix(rec.suspected_buffers@, i as int, s) || s == slot) by {
                    let j2 = choose|j2: int|
                        0 <= j2 < i + 1 && rec.suspected_buffers@[j2] == s;
                    if j2 < i {
                        assert(listed_in_prefix(rec.suspected_buffers@, i as int, s));
                    }
                }
                assert(forall|s: u32|
                    listed_in_prefix(rec.suspected_buffers@, i as int, s) ==> listed_in_prefix(rec.suspected_buffers@,
                        i + 1,
                        s,
                    ));
                if destroy {
                    assert forall|r: ReclaimedResource|
                        #[trigger] contains_reclaimed(reclaimed@, r) <==> (contains_reclaimed(
                        rb0,
                        r,
                    ) || (r matches ReclaimedResource::Buffer(s) && buffer_reclaimable(
                        pre,
                        rec,
                        s,
                    ) && listed_in_prefix(rec.suspected_buffers@, i + 1, s))) by {
                        lemma_push_reclaimed(rb_before, ReclaimedResource::Buffer(slot), r);
                    }
                }
            }
            i = i + 1;
        }
        let ghost mid = *self;
        let ghost rb_mid = reclaimed@;
        let mut i: usize = 0;
        while i < rec.suspected_textures.len()
            invariant
                pre == dev0,
                pre.wf(),
                i <= rec.suspected_textures@.len(),
                *self == (Device {
                    textures: self.textures,
                    trackers_textures: self.trackers_textures,
                    ..mid
                }),
                mid.textures == pre.textures,
                mid.trackers_textures == pre.trackers_textures,
                self.textures.wf(),
                self.trackers_textures.wf(),
                self.trackers_textures.write_mask == pre.trackers_textures.write_mask,
                self.textures.backend == pre.textures.backend,
                self.textures.values@.len() == pre.textures.values@.len(),
                self.textures.epochs@.len() == pre.textures.epochs@.len(),
                forall|slot: int|
                    0 <= slot < pre.textures.values@.len() ==> (if texture_reclaimable(
                        pre,
                        rec,
                        slot as u32,
                    ) && listed_in_prefix(rec.suspected_textures@, i as int, slot as u32) {
                        (#[trigger] self.textures.values@[slot]) is None && self.textures.epochs@[
                        slot] == pre.textures.epochs@[slot] + 1
                            && !self.trackers_textures.as_map().contains_key(slot as u32)
                    } else {
                        self.textures.values@[slot] == pre.textures.values@[slot]
                            && self.textures.epochs@[slot] == pre.textures.epochs@[slot]
                    }),
                forall|slot: u32|
                    !(texture_reclaimable(pre, rec, slot) && listed_in_prefix(rec.suspected_textures@,
                        i as int,
                        slot,
                    )) ==> #[trigger] self.trackers_textures.as_map().contains_key(slot)
                        == pre.trackers_textures.as_map().contains_key(slot) && (
                    pre.trackers_textures.as_map().contains_key(slot)
                        ==> self.trackers_textures.as_map()[slot]
                        == pre.trackers_textures.as_map()[slot]),
                forall|r: ReclaimedResource|
                    #[trigger] contains_reclaimed(reclaimed@, r) <==> (contains_reclaimed(
                        rb_mid,
                        r,
                    ) || (r matches ReclaimedResource::Texture(slot) && texture_reclaimable(
                        pre,
                        rec,
                        slot,
                    ) && listed_in_prefix(rec.suspected_textures@, i as int, slot))),
            decreases rec.suspected_textures@.len() - i,
        {
            let slot = rec.suspected_textures[i];
            let ghost rb_before = reclaimed@;
            let mut destroy = false;
            if (slot as usize) < self.textures.values.len() && self.textures.epochs[slot as usize]
                < u32::MAX {
                match &self.textures.values[slot as usize] {
                    Some(t) => {
                        if t.life.ref_count.is_none() && t.life.submission_index == rec.index {
                            destroy = true;
                        }
                    },
                    None => {},
                }
            }
            if destroy {
                self.textures.free(slot as usize);
                self.trackers_textures.remove(slot);
                reclaimed.push(ReclaimedResource::Texture(slot));
            }
            proof {
                assert(listed_in_prefix(rec.suspected_textures@, i + 1, slot));
                assert forall|s: u32| listed_in_prefix(rec.suspected_textures@, i + 1, s) implies (
                listed_in_prefix(rec.suspected_textures@, i as int, s) || s == slot) by {
                    let j2 = choose|j2: int|
                        0 <= j2 < i + 1 && rec.suspected_textures@[j2] == s;
                    if j2 < i {
                        assert(listed_in_prefix(rec.suspected_textures@, i as int, s));
                    }
                }
                assert(forall|s: u32|
                    listed_in_prefix(rec.suspected_textures@, i as int, s) ==> listed_in_prefix(rec.suspected_textures@,
                        i + 1,
                        s,
                    ));
                if destroy {
                    assert forall|r: ReclaimedResource|
                        #[trigger] contains_reclaimed(reclaimed@, r) <==> (contains_reclaimed(
                        rb_mid,
                        r,
                    ) || (r matches ReclaimedResource::Texture(s) && texture_reclaimable(
                        pre,
                        rec,
                        s,
                    ) && listed_in_prefix(rec.suspected_textures@, i + 1, s))) by {
                        lemma_push_reclaimed(rb_before, ReclaimedResource::Texture(slot), r);
                    }
                }
            }
            i = i + 1;
        }
        let SubmissionRecord { temp_buffers, .. } = rec;
        let _freed_staging = temp_buffers.len();
    }
}

/// Some retired record among the first `upto` reclaims this buffer slot.
pub open spec fn buffer_reclaimed_by(
    pre: Device,
    records: Seq<SubmissionRecord>,
    upto: int,
    slot: u32,
) -> bool {
    exists|i: int| 0 <= i < upto && buffer_reclaimable(pre, records[i], slot)
}

/// Some retired record among the first `upto` reclaims this texture slot.
pub open spec fn texture_reclaimed_by(
    pre: Device,
    records: Seq<SubmissionRecord>,
    upto: int,
    slot: u32,
) -> bool {
    exists|i: int| 0 <= i < upto && texture_reclaimable(pre, records[i], slot)
}

impl Device {
    /// The maintenance pass.  The caller reports, after polling, the highest
    /// submission index whose fence has signaled; fences signal in issue
    /// order.  Every retired submission is drained in order: each resource
    /// on its suspected-dead list whose last use equals that submission is
    /// destroyed — its slot recycled with a new generation, its tracker
    /// entry dropped — and is returned so the caller can release the native
    /// object.  A resource that still has an owner, or whose last use is a
    /// later, unretired submission, is never destroyed.
    pub fn maintain(&mut self, last_done: u64) -> (reclaimed: Vec<ReclaimedResource>)
        requires
            old(self).wf(),
        ensures
            final(self).wf(),
            final(self).life_tracker@ == old(self).life_tracker@.skip(
                drained_count(old(self).life_tracker@, last_done),
            ),
            final(self).buffers.values@.len() == old(self).buffers.values@.len(),
            forall|slot: int|
                0 <= slot < old(self).buffers.values@.len()
                    ==> #[trigger] final(self).buffers.values@[slot] == (if buffer_reclaimed_by(
                    *old(self),
                    old(self).life_tracker@,
                    drained_count(old(self).life_tracker@, last_done),
                    slot as u32,
                ) {
                    Option::<Buffer>::None
                } else {
                    old(self).buffers.values@[slot]
                }),
            final(self).textures.values@.len() == old(self).textures.values@.len(),
            forall|slot: int|
                0 <= slot < old(self).textures.values@.len()
                    ==> #[trigger] final(self).textures.values@[slot] == (if texture_reclaimed_by(
                    *old(self),
                    old(self).life_tracker@,
                    drained_count(old(self).life_tracker@, last_done),
                    slot as u32,
                ) {
                    Option::<Texture>::None
                } else {
                    old(self).textures.values@[slot]
                }),
            forall|r: ReclaimedResource|
                #[trigger] contains_reclaimed(reclaimed@, r) <==> ((r matches
                    ReclaimedResource::Buffer(slot) && buffer_reclaimed_by(
                    *old(self),
                    old(self).life_tracker@,
                    drained_count(old(self).life_tracker@, last_done),
                    slot,
                )) || (r matches ReclaimedResource::Texture(slot) && texture_reclaimed_by(
                    *old(self),
                    old(self).life_tracker@,
                    drained_count(old(self).life_tracker@, last_done),
                    slot,
                ))),
            final(self).command_buffers == old(self).command_buffers,
            final(self).swap_chains == old(self).swap_chains,
            final(self).pending_writes == old(self).pending_writes,
            final(self).active_submission_index == old(self).active_submission_index,
            final(self).ref_store == old(self).ref_store,
            final(self).limits == old(self).limits,
    {
        let ghost pre = *old(self);
        let ghost records = pre.life_tracker@;
        let total = self.life_tracker.len();
        let mut reclaimed: Vec<ReclaimedResource> = Vec::new();
        let mut k: usize = 0;
        loop
            invariant
                pre.wf(),
                records == pre.life_tracker@,
                records.len() == total,
                k <= records.len(),
                forall|i: int| 0 <= i < k ==> (#[trigger] records[i]).index <= last_done,
                self.life_tracker@ == records.skip(k as int),
                self.buffers.wf(),
                self.buffers.backend == pre.buffers.backend,
                self.buffers.values@.len() == pre.buffers.values@.len(),
                self.buffers.epochs@.len() == pre.buffers.epochs@.len(),
                forall|slot: int|
                    0 <= slot < pre.buffers.values@.len() ==> #[trigger] self.buffers.values@[slot]
                        == (if buffer_reclaimed_by(pre, records, k as int, slot as u32) {
                        Option::<Buffer>::None
                    } else {
                        pre.buffers.values@[slot]
                    }),
                forall|slot: int|
                    0 <= slot < pre.buffers.values@.len() ==> #[trigger] self.buffers.epochs@[slot]
                        == (if buffer_reclaimed_by(pre, records, k as int, slot as u32) {
                        (pre.buffers.epochs@[slot] + 1) as u32
                    } else {
                        pre.buffers.epochs@[slot]
                    }),
                self.textures.wf(),
                self.textures.backend == pre.textures.backend,
                self.textures.values@.len() == pre.textures.values@.len(),
                self.textures.epochs@.len() == pre.textures.epochs@.len(),
                forall|slot: int|
                    0 <= slot < pre.textures.values@.len()
                        ==> #[trigger] self.textures.values@[slot] == (if texture_reclaimed_by(
                        pre,
                        records,
                        k as int,
                        slot as u32,
                    ) {
                        Option::<Texture>::None
                    } else {
                        pre.textures.values@[slot]
                    }),
                forall|slot: int|
                    0 <= slot < pre.textures.values@.len()
                        ==> #[trigger] self.textures.epochs@[slot] == (if texture_reclaimed_by(
                        pre,
                        records,
                        k as int,
                        slot as u32,
                    ) {
                        (pre.textures.epochs@[slot] + 1) as u32
                    } else {
                        pre.textures.epochs@[slot]
                    }),
                forall|r: ReclaimedResource|
                    #[trigger] contains_reclaimed(reclaimed@, r) <==> ((r matches
                        ReclaimedResource::Buffer(slot) && buffer_reclaimed_by(
                        pre,
                        records,
                        k as int,
                        slot,
                    )) || (r matches ReclaimedResource::Texture(slot) && texture_reclaimed_by(
                        pre,
                        records,
                        k as int,
                        slot,
                    ))),
                forall|s: int|
                    0 <= s < self.textures.values@.len() && (#[trigger] self.textures.values@[s])
                        is Some ==> self.textures.values@[s]->0.format.wf(),
                self.trackers_buffers.wf(),
                self.trackers_buffers.write_mask == pre.trackers_buffers.write_mask,
                self.trackers_textures.wf(),
                self.trackers_textures.write_mask == pre.trackers_textures.write_mask,
                self.command_buffers == pre.command_buffers,
                self.swap_chains == pre.swap_chains,
                self.pending_writes == pre.pending_writes,
                self.active_submission_index == pre.active_submission_index,
                self.ref_store == pre.ref_store,
                self.limits == pre.limits,
            ensures
                drained_count(records, last_done) == k,
            decreases records.len() - k,
        {
            if self.life_tracker.len() == 0 {
                proof {
                    assert(records.skip(k as int).len() == 0);
                    assert(drained_count(records.skip(k as int), last_done) == 0);
                    lemma_drained_split(records, k as int, last_done);
                }
                break ;
            }
            let first_index = self.life_tracker[0].index;
            if first_index > last_done {
                proof {
                    assert(records.skip(k as int)[0].index > last_done);
                    assert(drained_count(records.skip(k as int), last_done) == 0);
                    lemma_drained_split(records, k as int, last_done);
                }
                break ;
            }
            let rec = self.life_tracker.remove(0);
            proof {
                assert(records.skip(k as int)[0] == records[k as int]);
                assert(self.life_tracker@ =~= records.skip(k + 1));
            }
            let ghost before = *self;
            let ghost rb_before = reclaimed@;
            self.triage_record(rec, &mut reclaimed);
            proof {
                // A resource's last use matches at most one record, so
                // whether a record reclaims a slot can be judged against the
                // device state before the whole pass.
                assert forall|slot: u32|
                    buffer_reclaimable(before, rec, slot) <==> buffer_reclaimable(
                    pre,
                    records[k as int],
                    slot,
                ) by {
                    if (slot as int) < pre.buffers.values@.len() {
                        assert(before.buffers.values@[slot as int] == (if buffer_reclaimed_by(
                            pre,
                            records,
                            k as int,
                            slot,
                        ) {
                            Option::<Buffer>::None
                        } else {
                            pre.buffers.values@[slot as int]
                        }));
                        assert(before.buffers.epochs@[slot as int] == (if buffer_reclaimed_by(
                            pre,
                            records,
                            k as int,
                            slot,
                        ) {
                            (pre.buffers.epochs@[slot as int] + 1) as u32
                        } else {
                            pre.buffers.epochs@[slot as int]
                        }));
                        if buffer_reclaimed_by(pre, records, k as int, slot) {
                            let i = choose|i: int|
                                0 <= i < k && buffer_reclaimable(pre, records[i], slot);
                            assert(records[i].index < records[k as int].index);
                        }
                    }
                }
                assert forall|slot: u32|
                    texture_reclaimable(before, rec, slot) <==> texture_reclaimable(
                    pre,
                    records[k as int],
                    slot,
                ) by {
                    if (slot as int) < pre.textures.values@.len() {
                        assert(before.textures.values@[slot as int] == (if texture_reclaimed_by(
                            pre,
                            records,
                            k as int,
                            slot,
                        ) {
                            Option::<Texture>::None
                        } else {
                            pre.textures.values@[slot as int]
                        }));
                        assert(before.textures.epochs@[slot as int] == (if texture_reclaimed_by(
                            pre,
                            records,
                            k as int,
                            slot,
                        ) {
                            (pre.textures.epochs@[slot as int] + 1) as u32
                        } else {
                            pre.textures.epochs@[slot as int]
                        }));
                        if texture_reclaimed_by(pre, records, k as int, slot) {
                            let i = choose|i: int|
                                0 <= i < k && texture_reclaimable(pre, records[i], slot);
                            assert(records[i].index < records[k as int].index);
                        }
                    }
                }
                assert forall|slot: u32| #[trigger] buffer_reclaimed_by(
                    pre,
                    records,
                    k + 1,
                    slot,
                ) <==> (buffer_reclaimed_by(pre, records, k as int, slot) || buffer_reclaimable(
                    pre,
                    records[k as int],
                    slot,
                )) by {
                    if buffer_reclaimed_by(pre, records, k + 1, slot) {
                        let i = choose|i: int|
                            0 <= i < k + 1 && buffer_reclaimable(pre, records[i], slot);
                        if i < k {
                            assert(buffer_reclaimed_by(pre, records, k as int, slot));
                        }
                    }
                }
                assert forall|slot: u32| #[trigger] texture_reclaimed_by(
                    pre,
                    records,
                    k + 1,
                    slot,
                ) <==> (texture_reclaimed_by(pre, records, k as int, slot) || texture_reclaimable(
                    pre,
                    records[k as int],
                    slot,
                )) by {
                    if texture_reclaimed_by(pre, records, k + 1, slot) {
                        let i = choose|i: int|
                            0 <= i < k + 1 && texture_reclaimable(pre, records[i], slot);
                        if i < k {
                            assert(texture_reclaimed_by(pre, records, k as int, slot));
                        }
                    }
                }
                assert forall|slot: int|
                    0 <= slot < pre.buffers.values@.len() implies ((#[trigger] self.buffers.epochs@[slot])
                    == (if buffer_reclaimed_by(pre, records, k + 1, slot as u32) {
                    (pre.buffers.epochs@[slot] + 1) as u32
                } else {
                    pre.buffers.epochs@[slot]
                })) && (self.buffers.values@[slot] == (if buffer_reclaimed_by(
                    pre,
                    records,
                    k + 1,
                    slot as u32,
                ) {
                    Option::<Buffer>::None
                } else {
                    pre.buffers.values@[slot]
                })) by {
                    assert(rec == records[k as int]);
                    assert(buffer_reclaimable(before, rec, slot as u32) <==> buffer_reclaimable(
                        pre,
                        records[k as int],
                        slot as u32,
                    ));
                    if buffer_reclaimed_by(pre, records, k as int, slot as u32) {
                        let i = choose|i: int|
                            0 <= i < k && buffer_reclaimable(pre, records[i], slot as u32);
                        assert(pre.buffers.epochs@[slot] < u32::MAX);
                    }
                    assert(before.buffers.values@[slot] == (if buffer_reclaimed_by(
                        pre,
                        records,
                        k as int,
                        slot as u32,
                    ) {
                        Option::<Buffer>::None
                    } else {
                        pre.buffers.values@[slot]
                    }));
                    assert(before.buffers.epochs@[slot] == (if buffer_reclaimed_by(
                        pre,
                        records,
                        k as int,
                        slot as u32,
                    ) {
                        (pre.buffers.epochs@[slot] + 1) as u32
                    } else {
                        pre.buffers.epochs@[slot]
                    }));
                    assert(buffer_reclaimed_by(pre, records, k + 1, slot as u32) <==> (
                    buffer_reclaimed_by(pre, records, k as int, slot as u32) || buffer_reclaimable(
                        pre,
                        records[k as int],
                        slot as u32,
                    )));
                    if buffer_reclaimable(before, rec, slot as u32) {
                        assert(self.buffers.values@[slot] is None);
                        assert(buffer_reclaimed_by(pre, records, k + 1, slot as u32));
                        assert(self.buffers.epochs@[slot] == before.buffers.epochs@[slot] + 1);
                        assert(!buffer_reclaimed_by(pre, records, k as int, slot as u32));
                        assert(self.buffers.epochs@[slot] == (pre.buffers.epochs@[slot] + 1) as u32);
                    } else {
                        assert(self.buffers.values@[slot] == before.buffers.values@[slot]);
                        assert(self.buffers.epochs@[slot] == before.buffers.epochs@[slot]);
                        if buffer_reclaimed_by(pre, records, k + 1, slot as u32) {
                            assert(buffer_reclaimed_by(pre, records, k as int, slot as u32));
                        }
                    }
                }
                assert forall|slot: int|
                    0 <= slot < pre.buffers.values@.len() implies #[trigger] self.buffers.values@[slot]
                    == (if buffer_reclaimed_by(pre, records, k + 1, slot as u32) {
                    Option::<Buffer>::None
                } else {
                    pre.buffers.values@[slot]
                }) by {
                    assert(self.buffers.epochs@[slot] == (if buffer_reclaimed_by(
                        pre,
                        records,
                        k + 1,
                        slot as u32,
                    ) {
                        (pre.buffers.epochs@[slot] + 1) as u32
                    } else {
                        pre.buffers.epochs@[slot]
                    }));
                }
                assert forall|slot: int|
                    0 <= slot < pre.textures.values@.len() implies ((#[trigger] self.textures.epochs@[slot])
                    == (if texture_reclaimed_by(pre, records, k + 1, slot as u32) {
                    (pre.textures.epochs@[slot] + 1) as u32
                } else {
                    pre.textures.epochs@[slot]
                })) && (self.textures.values@[slot] == (if texture_reclaimed_by(
                    pre,
                    records,
                    k + 1,
                    slot as u32,
                ) {
                    Option::<Texture>::None
                } else {
                    pre.textures.values@[slot]
                })) by {
                    assert(rec == records[k as int]);
                    assert(texture_reclaimable(before, rec, slot as u32) <==> texture_reclaimable(
                        pre,
                        records[k as int],
                        slot as u32,
                    ));
                    if texture_reclaimed_by(pre, records, k as int, slot as u32) {
                        let i = choose|i: int|
                            0 <= i < k && texture_reclaimable(pre, records[i], slot as u32);
                        assert(pre.textures.epochs@[slot] < u32::MAX);
                    }
                    assert(before.textures.values@[slot] == (if texture_reclaimed_by(
                        pre,
                        records,
                        k as int,
                        slot as u32,
                    ) {
                        Option::<Texture>::None
                    } else {
                        pre.textures.values@[slot]
                    }));
                    assert(before.textures.epochs@[slot] == (if texture_reclaimed_by(
                        pre,
                        records,
                        k as int,
                        slot as u32,
                    ) {
                        (pre.textures.epochs@[slot] + 1) as u32
                    } else {
                        pre.textures.epochs@[slot]
                    }));
                    assert(texture_reclaimed_by(pre, records, k + 1, slot as u32) <==> (
                    texture_reclaimed_by(pre, records, k as int, slot as u32)
                        || texture_reclaimable(pre, records[k as int], slot as u32)));
                    if texture_reclaimable(before, rec, slot as u32) {
                        assert(self.textures.values@[slot] is None);
                        assert(texture_reclaimed_by(pre, records, k + 1, slot as u32));
                        assert(self.textures.epochs@[slot] == before.textures.epochs@[slot] + 1);
                        assert(!texture_reclaimed_by(pre, records, k as int, slot as u32));
                        assert(self.textures.epochs@[slot] == (pre.textures.epochs@[slot]
                            + 1) as u32);
                    } else {
                        assert(self.textures.values@[slot] == before.textures.values@[slot]);
                        assert(self.textures.epochs@[slot] == before.textures.epochs@[slot]);
                        if texture_reclaimed_by(pre, records, k + 1, slot as u32) {
                            assert(texture_reclaimed_by(pre, records, k as int, slot as u32));
                        }
                    }
                }
                assert forall|slot: int|
                    0 <= slot < pre.textures.values@.len() implies #[trigger] self.textures.values@[slot]
                    == (if texture_reclaimed_by(pre, records, k + 1, slot as u32) {
                    Option::<Texture>::None
                } else {
                    pre.textures.values@[slot]
                }) by {
                    assert(self.textures.epochs@[slot] == (if texture_reclaimed_by(
                        pre,
                        records,
                        k + 1,
                        slot as u32,
                    ) {
                        (pre.textures.epochs@[slot] + 1) as u32
                    } else {
                        pre.textures.epochs@[slot]
                    }));
                }
                assert forall|r: ReclaimedResource|
                    #[trigger] contains_reclaimed(reclaimed@, r) <==> ((r matches
                        ReclaimedResource::Buffer(slot) && buffer_reclaimed_by(
                        pre,
                        records,
                        k + 1,
                        slot,
                    )) || (r matches ReclaimedResource::Texture(slot) && texture_reclaimed_by(
                        pre,
                        records,
                        k + 1,
                        slot,
                    ))) by {
                    assert(contains_reclaimed(rb_before, r) <==> ((r matches
                        ReclaimedResource::Buffer(slot) && buffer_reclaimed_by(
                        pre,
                        records,
                        k as int,
                        slot,
                    )) || (r matches ReclaimedResource::Texture(slot) && texture_reclaimed_by(
                        pre,
                        records,
                        k as int,
                        slot,
                    ))));
                    match r {
                        ReclaimedResource::Buffer(slot) => {
                            assert(buffer_reclaimable(before, rec, slot) <==> buffer_reclaimable(
                                pre,
                                records[k as int],
                                slot,
                            ));
                            assert(buffer_reclaimed_by(pre, records, k + 1, slot) <==> (
                            buffer_reclaimed_by(pre, records, k as int, slot)
                                || buffer_reclaimable(pre, records[k as int], slot)));
                        },
                        ReclaimedResource::Texture(slot) => {
                            assert(texture_reclaimable(before, rec, slot) <==> texture_reclaimable(
                                pre,
                                records[k as int],
                                slot,
                            ));
                            assert(texture_reclaimed_by(pre, records, k + 1, slot) <==> (
                            texture_reclaimed_by(pre, records, k as int, slot)
                                || texture_reclaimable(pre, records[k as int], slot)));
                        },
                    }
                }
            }
            k = k + 1;
        }
        reclaimed
    }
}

/// Splitting the drained prefix at a point where every earlier record has
/// retired.
proof fn lemma_drained_split(records: Seq<SubmissionRecord>, k: int, last_done: u64)
    requires
        0 <= k <= records.len(),
        forall|i: int| 0 <= i < k ==> (#[trigger] records[i]).index <= last_done,
        drained_count(records.skip(k), last_done) == 0,
    ensures
        drained_count(records, last_done) == k,
    decreases k,
{
    if k == 0 {
        assert(records.skip(0) =~= records);
    } else {
        assert(records[0].index <= last_done);
        assert(records.skip(1).skip(k - 1) =~= records.skip(k));
        assert forall|i: int| 0 <= i < k - 1 implies (#[trigger] records.skip(1)[i]).index
            <= last_done by {
            assert(records.skip(1)[i] == records[i + 1]);
            assert(records[i + 1].index <= last_done);
        }
        lemma_drained_split(records.skip(1), k - 1, last_done);
    }
}

/// Membership in a reclaimed-resource list extended by one element.
proof fn lemma_push_reclaimed(s: Seq<ReclaimedResource>, x: ReclaimedResource, r: ReclaimedResource)
    ensures
        contains_reclaimed(s.push(x), r) <==> (contains_reclaimed(s, r) || r == x),
{
    if exists|i: int| 0 <= i < s.push(x).len() && s.push(x)[i] == r {
        let i = choose|i: int| 0 <= i < s.push(x).len() && s.push(x)[i] == r;
        if i < s.len() {
            assert(s[i] == r);
        }
    }
    if exists|i: int| 0 <= i < s.len() && s[i] == r {
        let i = choose|i: int| 0 <= i < s.len() && s[i] == r;
        assert(s.push(x)[i] == r);
    }
    assert(s.push(x)[s.len() as int] == x);
}

pub struct Global {
    pub devices: ResourceTable<Device>,
}

impl Global {
    pub open spec fn wf(self) -> bool {
        &&& self.devices.wf()
        &&& forall|s: int|
            0 <= s < self.devices.values@.len() && (#[trigger] self.devices.values@[s]) is Some
                ==> self.devices.values@[s]->0.wf()
    }

    pub fn new(backend: Backend) -> (r: Global)
        ensures
            r.wf(),
            r.devices.values@.len() == 0,
            r.devices.backend == backend,
    {
        Global { devices: ResourceTable::new(backend) }
    }

    /// Writes `data` into a buffer at `offset` through the staging path,
    /// after offering the operation to the recorder.  Validation happens
    /// before any mutation: on an error the devices are exactly as before.
    pub fn queue_write_buffer(
        &mut self,
        queue_id: Id,
        buffer_id: Id,
        buffer_offset: u64,
        data: &Vec<u8>,
        trace: &mut TraceLog,
    ) -> (r: Result<(), QueueWriteError>)
        requires
            old(self).wf(),
            old(self).devices.resolves(queue_id) ==> old(self).devices.value_of(
                queue_id,
            ).active_submission_index < u64::MAX,
        ensures
            final(self).wf(),
            final(trace).enabled == old(trace).enabled,
            final(trace).events@ == (if old(trace).enabled {
                old(trace).events@.push(
                    TraceEvent::WriteBuffer {
                        id: buffer_id,
                        offset: buffer_offset,
                        size: data@.len() as u64,
                    },
                )
            } else {
                old(trace).events@
            }),
            final(self).devices.backend == old(self).devices.backend,
            final(self).devices.epochs@ == old(self).devices.epochs@,
            final(self).devices.values@.len() == old(self).devices.values@.len(),
            !old(self).devices.resolves(queue_id) ==> r == Result::<(), QueueWriteError>::Err(
                QueueWriteError::Queue(DeviceError::Invalid),
            ) && final(self).devices.values@ == old(self).devices.values@,
            old(self).devices.resolves(queue_id) ==> ({
                let pre_dev = old(self).devices.value_of(queue_id);
                &&& r == write_buffer_outcome(pre_dev, buffer_id, buffer_offset, data@)
                &&& (final(self).devices.values@[queue_id.index as int] matches Some(post_dev)
                    && {
                    &&& (r matches Ok(_) && data@.len() > 0) ==> write_buffer_effect(
                        pre_dev,
                        post_dev,
                        buffer_id,
                        buffer_offset,
                        data@,
                    )
                    &&& (r is Err || data@.len() == 0) ==> post_dev == pre_dev
                })
                &&& forall|j: int|
                    0 <= j < old(self).devices.values@.len() && j != queue_id.index as int
                        ==> final(self).devices.values@[j] == old(self).devices.values@[j]
            }),
    {
        trace.add(
            TraceEvent::WriteBuffer {
                id: buffer_id,
                offset: buffer_offset,
                size: data.len() as u64,
            },
        );
        if !self.devices.contains(queue_id) {
            return Err(QueueWriteError::Queue(DeviceError::Invalid));
        }
        let idx = queue_id.index as usize;
        let mut dev = match self.devices.take_at(idx) {
            Some(d) => d,
            None => unreached(),
        };
        let r = dev.write_buffer(buffer_id, buffer_offset, data);
        self.devices.put_at(idx, dev);
        r
    }

    /// Writes texture data through the staging path, after offering the
    /// operation to the recorder.  Validation happens before any mutation:
    /// on an error the devices are exactly as before.
    pub fn queue_write_texture(
        &mut self,
        queue_id: Id,
        destination: &TextureCopyView,
        data: &Vec<u8>,
        data_layout: &TextureDataLayout,
        size: &Extent3d,
        trace: &mut TraceLog,
    ) -> (r: Result<(), QueueWriteError>)
        requires
            old(self).wf(),
            old(self).devices.resolves(queue_id) ==> old(self).devices.value_of(
                queue_id,
            ).active_submission_index < u64::MAX,
        ensures
            final(self).wf(),
            final(trace).enabled == old(trace).enabled,
            final(trace).events@ == (if old(trace).enabled {
                old(trace).events@.push(
                    TraceEvent::WriteTexture {
                        texture: destination.texture,
                        mip_level: destination.mip_level,
                        origin: destination.origin,
                        layout: *data_layout,
                        extent: *size,
                        data_size: data@.len() as u64,
                    },
                )
            } else {
                old(trace).events@
            }),
            final(self).devices.backend == old(self).devices.backend,
            final(self).devices.epochs@ == old(self).devices.epochs@,
            final(self).devices.values@.len() == old(self).devices.values@.len(),
            !old(self).devices.resolves(queue_id) ==> r == Result::<(), QueueWriteError>::Err(
                QueueWriteError::Queue(DeviceError::Invalid),
            ) && final(self).devices.values@ == old(self).devices.values@,
            old(self).devices.resolves(queue_id) ==> ({
                let pre_dev = old(self).devices.value_of(queue_id);
                &&& r == write_texture_outcome(pre_dev, *destination, data@, *data_layout, *size)
                &&& (final(self).devices.values@[queue_id.index as int] matches Some(post_dev)
                    && {
                    &&& (r matches Ok(_) && size.width > 0 && size.height > 0 && size.depth > 0)
                        ==> write_texture_effect(
                        pre_dev,
                        post_dev,
                        *destination,
                        data@,
                        *data_layout,
                        *size,
                    )
                    &&& (r is Err || size.width == 0 || size.height == 0 || size.depth == 0)
                        ==> post_dev == pre_dev
                })
                &&& forall|j: int|
                    0 <= j < old(self).devices.values@.len() && j != queue_id.index as int
                        ==> final(self).devices.values@[j] == old(self).devices.values@[j]
            }),
    {
        trace.add(
            TraceEvent::WriteTexture {
                texture: destination.texture,
                mip_level: destination.mip_level,
                origin: destination.origin,
                layout: *data_layout,
                extent: *size,
                data_size: data.len() as u64,
            },
        );
        if !self.devices.contains(queue_id) {
            return Err(QueueWriteError::Queue(DeviceError::Invalid));
        }
        let idx = queue_id.index as usize;
        let mut dev = match self.devices.take_at(idx) {
            Some(d) => d,
            None => unreached(),
        };
        let r = dev.write_texture(destination, data, data_layout, size);
        self.devices.put_at(idx, dev);
        r
    }

    /// Submits a batch of command buffers to a queue, after offering the
    /// operation to the recorder.  On success the new submission record —
    /// the last entry of the device's in-flight list — carries everything
    /// the caller must hand to the native driver.
    pub fn queue_submit(
        &mut self,
        queue_id: Id,
        command_buffer_ids: &Vec<Id>,
        trace: &mut TraceLog,
    ) -> (r: Result<(), QueueSubmitError>)
        requires
            old(self).wf(),
            old(self).devices.resolves(queue_id) ==> old(self).devices.value_of(
                queue_id,
            ).active_submission_index < u64::MAX,
        ensures
            final(self).wf(),
            final(trace).enabled == old(trace).enabled,
            old(trace).enabled && old(self).devices.resolves(queue_id) ==> (final(trace).events@.len() == old(trace).events@.len() + 1 && old(trace).events@ == final(trace).events@.take(old(trace).events@.len() as int) && (final(trace).events@.last()
                matches TraceEvent::Submit { index, command_buffers } && index == (old(
                self,
            ).devices.value_of(queue_id).active_submission_index + 1) as u64 && command_buffers@
                == command_buffer_ids@)),
            (!old(trace).enabled || !old(self).devices.resolves(queue_id)) ==> final(trace).events@ == old(trace).events@,
            final(self).devices.backend == old(self).devices.backend,
            final(self).devices.epochs@ == old(self).devices.epochs@,
            final(self).devices.values@.len() == old(self).devices.values@.len(),
            !old(self).devices.resolves(queue_id) ==> r == Result::<(), QueueSubmitError>::Err(
                QueueSubmitError::Queue(DeviceError::Invalid),
            ) && final(self).devices.values@ == old(self).devices.values@,
            old(self).devices.resolves(queue_id) ==> ({
                let pre_dev = old(self).devices.value_of(queue_id);
                &&& (r matches Ok(_) <==> submit_valid(pre_dev, command_buffer_ids@))
                &&& (final(self).devices.values@[queue_id.index as int] matches Some(post_dev)
                    && {
                    &&& r matches Ok(_) ==> submit_effect(pre_dev, post_dev, command_buffer_ids@)
                    &&& r is Err ==> post_dev == pre_dev
                })
                &&& forall|j: int|
                    0 <= j < old(self).devices.values@.len() && j != queue_id.index as int
                        ==> final(self).devices.values@[j] == old(self).devices.values@[j]
            }),
    {
        if !self.devices.contains(queue_id) {
            return Err(QueueSubmitError::Queue(DeviceError::Invalid));
        }
        let next_index = match self.devices.get(queue_id) {
            Some(d) => d.active_submission_index + 1,
            None => unreached(),
        };
        trace.add(
            TraceEvent::Submit {
                index: next_index,
                command_buffers: clone_ids(command_buffer_ids),
            },
        );
        let idx = queue_id.index as usize;
        let mut dev = match self.devices.take_at(idx) {
            Some(d) => d,
            None => unreached(),
        };
        let r = dev.submit(command_buffer_ids);
        self.devices.put_at(idx, dev);
        r
    }

    /// Runs the maintenance pass on a queue's device.  The caller reports
    /// the highest submission index whose fence has signaled and whether the
    /// wait stayed within the configured bound; an exceeded bound surfaces
    /// as a stuck device after the retired submissions have still been
    /// reclaimed, so prior state is never corrupted.
    pub fn queue_maintain(
        &mut self,
        queue_id: Id,
        last_done: u64,
        within_bound: bool,
    ) -> (r: Result<Vec<ReclaimedResource>, QueueSubmitError>)
        requires
            old(self).wf(),
        ensures
            final(self).wf(),
            final(self).devices.backend == old(self).devices.backend,
            final(self).devices.epochs@ == old(self).devices.epochs@,
            final(self).devices.values@.len() == old(self).devices.values@.len(),
            !old(self).devices.resolves(queue_id) ==> r == Result::<
                Vec<ReclaimedResource>,
                QueueSubmitError,
            >::Err(QueueSubmitError::Queue(DeviceError::Invalid)) && final(self).devices.values@
                == old(self).devices.values@,
            old(self).devices.resolves(queue_id) ==> ({
                let pre_dev = old(self).devices.value_of(queue_id);
                let drained = drained_count(pre_dev.life_tracker@, last_done);
                &&& (final(self).devices.values@[queue_id.index as int] matches Some(post_dev)
                    && {
                    &&& post_dev.life_tracker@ == pre_dev.life_tracker@.skip(drained)
                    &&& forall|slot: int|
                        0 <= slot < pre_dev.buffers.values@.len()
                            ==> #[trigger] post_dev.buffers.values@[slot] == (if
                        buffer_reclaimed_by(pre_dev, pre_dev.life_tracker@, drained, slot as u32) {
                            Option::<Buffer>::None
                        } else {
                            pre_dev.buffers.values@[slot]
                        })
                    &&& forall|slot: int|
                        0 <= slot < pre_dev.textures.values@.len()
                            ==> #[trigger] post_dev.textures.values@[slot] == (if
                        texture_reclaimed_by(
                            pre_dev,
                            pre_dev.life_tracker@,
                            drained,
                            slot as u32,
                        ) {
                            Option::<Texture>::None
                        } else {
                            pre_dev.textures.values@[slot]
                        })
                })
                &&& (r matches Ok(out) ==> (forall|x: ReclaimedResource|
                    #[trigger] contains_reclaimed(out@, x) <==> ((x matches
                        ReclaimedResource::Buffer(slot) && buffer_reclaimed_by(
                        pre_dev,
                        pre_dev.life_tracker@,
                        drained,
                        slot,
                    )) || (x matches ReclaimedResource::Texture(slot) && texture_reclaimed_by(
                        pre_dev,
                        pre_dev.life_tracker@,
                        drained,
                        slot,
                    )))))
                &&& (r is Err ==> r == Result::<Vec<ReclaimedResource>, QueueSubmitError>::Err(
                    QueueSubmitError::StuckGpu,
                ))
                &&& (r is Err <==> !within_bound && pre_dev.life_tracker@.skip(drained).len() > 0)
                &&& forall|j: int|
                    0 <= j < old(self).devices.values@.len() && j != queue_id.index as int
                        ==> final(self).devices.values@[j] == old(self).devices.values@[j]
            }),
    {
        if !self.devices.contains(queue_id) {
            return Err(QueueSubmitError::Queue(DeviceError::Invalid));
        }
        let idx = queue_id.index as usize;
        let mut dev = match self.devices.take_at(idx) {
            Some(d) => d,
            None => unreached(),
        };
        let reclaimed = dev.maintain(last_done);
        let stuck = !within_bound && dev.life_tracker.len() > 0;
        self.devices.put_at(idx, dev);
        if stuck {
            Err(QueueSubmitError::StuckGpu)
        } else {
            Ok(reclaimed)
        }
    }

    /// Adds a device and returns its queue handle.
    pub fn register_device(&mut self, device: Device) -> (id: Id)
        requires
            old(self).wf(),
            device.wf(),
            old(self).devices.values@.len() < u32::MAX,
        ensures
            final(self).wf(),
            final(self).devices.resolves(id),
            final(self).devices.value_of(id) == device,
            final(self).devices.backend == old(self).devices.backend,
            final(self).devices.values@ == old(self).devices.values@.push(Some(device)),
            id.index == old(self).devices.values@.len(),
    {
        let id = self.devices.register(device);
        id
    }
}

} // verus!
