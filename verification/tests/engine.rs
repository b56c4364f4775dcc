use wgpu_core::error::{CopySide, DeviceError, QueueSubmitError, QueueWriteError, TransferError};
use wgpu_core::id::{Backend, Id, IdentityPassThroughFactory};
use wgpu_core::life::{LifeGuard, RefStore};
use wgpu_core::queue::{
    BufferMapState, CommandBuffer, Device, Global, PendingWrites, ReclaimedResource, StreamItem,
    TraceEvent, TraceLog, BUFFER_USAGE_COPY_DST, TEXTURE_USAGE_COPY_DST,
};
use wgpu_core::track::{BUFFER_USE_COPY_DST, BUFFER_USE_COPY_SRC};
use wgpu_core::staging::{
    validate_linear_texture_data, DeviceLimits, Extent3d, Origin3d, TextureCopyView,
    TextureDataLayout, TextureFormatInfo,
};
use wgpu_core::track::RecordedUse;

fn limits() -> DeviceLimits {
    DeviceLimits { optimal_buffer_copy_pitch_alignment: 4 }
}

fn rgba() -> TextureFormatInfo {
    TextureFormatInfo { bytes_per_block: 4, block_width: 1, block_height: 1 }
}

fn new_global() -> (Global, Id) {
    let mut global = Global::new(Backend::Empty);
    let device = Device::new(Backend::Empty, limits());
    let queue = global.register_device(device);
    (global, queue)
}

fn device_of<'a>(global: &'a Global, queue: Id) -> &'a Device {
    global.devices.values[queue.index as usize].as_ref().unwrap()
}

fn device_mut<'a>(global: &'a mut Global, queue: Id) -> &'a mut Device {
    global.devices.values[queue.index as usize].as_mut().unwrap()
}

#[test]
fn loom() {
    let mut store = RefStore::new();
    let ref_count_main = store.register();
    let ref_count_spawned = ref_count_main.clone_in(&mut store);
    let tmp = ref_count_spawned.clone_in(&mut store);
    let _ = tmp.rich_drop(&mut store);
    let dropped_in_spawned = ref_count_spawned.rich_drop(&mut store);
    let dropped_in_main = ref_count_main.rich_drop(&mut store);
    assert_ne!(dropped_in_main, dropped_in_spawned, "must drop exactly once");
}

#[test]
fn last_use_index_is_monotonic() {
    let mut store = RefStore::new();
    let mut guard = LifeGuard::new(&mut store);
    assert!(guard.use_at(5));
    assert!(guard.use_at(3));
    assert_eq!(guard.submission_index, 5);
    assert!(guard.use_at(9));
    assert_eq!(guard.submission_index, 9);
}

#[test]
fn identity_pass_through_retags_backend() {
    let filter = IdentityPassThroughFactory.spawn(0);
    let id = Id::zip(7, 3, Backend::Empty);
    let out = filter.process(id, Backend::Vulkan);
    assert_eq!(out.unzip(), (7, 3, Backend::Vulkan));
    filter.free(out);
}

#[test]
fn write_buffer_succeeds_and_tracks_copy_dst() {
    let (mut global, queue) = new_global();
    let buffer = device_mut(&mut global, queue).create_buffer(64, BUFFER_USAGE_COPY_DST);
    let mut trace = TraceLog::disabled();
    let data: Vec<u8> = (0u8..16).collect();
    let r = global.queue_write_buffer(queue, buffer, 4, &data, &mut trace);
    assert_eq!(r, Ok(()));
    let dev = device_of(&global, queue);
    assert_eq!(dev.trackers_buffers.query(buffer.index), Some(BUFFER_USE_COPY_DST));
    assert_eq!(dev.pending_writes.temp_buffers.len(), 1);
    assert_eq!(dev.pending_writes.temp_buffers[0].contents, data);
    let b = dev.buffers.values[buffer.index as usize].as_ref().unwrap();
    assert_eq!(b.life.submission_index, 1);
}

#[test]
fn write_buffer_missing_copy_dst_leaves_tracker_unchanged() {
    let (mut global, queue) = new_global();
    let buffer = device_mut(&mut global, queue).create_buffer(64, 0);
    let mut trace = TraceLog::disabled();
    let data: Vec<u8> = vec![0; 16];
    let r = global.queue_write_buffer(queue, buffer, 4, &data, &mut trace);
    assert_eq!(r, Err(QueueWriteError::Transfer(TransferError::MissingCopyDstUsageFlag)));
    let dev = device_of(&global, queue);
    assert_eq!(dev.trackers_buffers.query(buffer.index), None);
    assert_eq!(dev.pending_writes.temp_buffers.len(), 0);
}

#[test]
fn write_buffer_misaligned_offset_has_no_side_effect() {
    let (mut global, queue) = new_global();
    let buffer = device_mut(&mut global, queue).create_buffer(64, BUFFER_USAGE_COPY_DST);
    let mut trace = TraceLog::disabled();
    let data: Vec<u8> = vec![7; 16];
    let r = global.queue_write_buffer(queue, buffer, 3, &data, &mut trace);
    assert_eq!(r, Err(QueueWriteError::Transfer(TransferError::UnalignedBufferOffset(3))));
    let dev = device_of(&global, queue);
    assert_eq!(dev.pending_writes.temp_buffers.len(), 0);
    assert!(dev.pending_writes.command_buffer.is_none());
    assert_eq!(dev.trackers_buffers.query(buffer.index), None);
}

#[test]
fn write_buffer_error_variants() {
    let (mut global, queue) = new_global();
    let buffer = device_mut(&mut global, queue).create_buffer(64, BUFFER_USAGE_COPY_DST);
    let mut trace = TraceLog::disabled();
    let r = global.queue_write_buffer(queue, buffer, 0, &vec![1; 15], &mut trace);
    assert_eq!(r, Err(QueueWriteError::Transfer(TransferError::UnalignedCopySize(15))));
    let r = global.queue_write_buffer(queue, buffer, 56, &vec![1; 16], &mut trace);
    assert_eq!(
        r,
        Err(QueueWriteError::Transfer(TransferError::BufferOverrun {
            start_offset: 56,
            end_offset: 72,
            buffer_size: 64,
            side: CopySide::Destination,
        }))
    );
    let stale = Id::zip(42, 1, Backend::Empty);
    let r = global.queue_write_buffer(queue, stale, 0, &vec![1; 16], &mut trace);
    assert_eq!(r, Err(QueueWriteError::Transfer(TransferError::InvalidResource)));
    let bad_queue = Id::zip(9, 9, Backend::Empty);
    let r = global.queue_write_buffer(bad_queue, buffer, 0, &vec![1; 16], &mut trace);
    assert_eq!(r, Err(QueueWriteError::Queue(DeviceError::Invalid)));
    let r = global.queue_write_buffer(queue, buffer, 0, &Vec::new(), &mut trace);
    assert_eq!(r, Ok(()));
    assert_eq!(device_of(&global, queue).pending_writes.temp_buffers.len(), 0);
}

#[test]
fn write_texture_fast_path_stages_payload_unchanged() {
    let (mut global, queue) = new_global();
    let texture = device_mut(&mut global, queue).create_texture(
        Extent3d { width: 4, height: 2, depth: 1 },
        TEXTURE_USAGE_COPY_DST,
        rgba(),
    );
    let mut trace = TraceLog::disabled();
    let view = TextureCopyView { texture, mip_level: 0, origin: Origin3d { x: 0, y: 0, z: 0 } };
    // The declared pitch equals the staged pitch: lcm(4, 4) = 4, and the
    // natural row of 4 texels at 4 bytes each is 16, already aligned.
    let layout = TextureDataLayout { bytes_per_row: 16, rows_per_image: 2 };
    let size = Extent3d { width: 4, height: 2, depth: 1 };
    let data: Vec<u8> = (0u8..32).collect();
    let r = global.queue_write_texture(queue, &view, &data, &layout, &size, &mut trace);
    assert_eq!(r, Ok(()));
    let dev = device_of(&global, queue);
    assert_eq!(dev.pending_writes.temp_buffers[0].contents, data);
}

#[test]
fn write_texture_slow_path_restrides_rows() {
    let (mut global, queue) = new_global();
    let texture = device_mut(&mut global, queue).create_texture(
        Extent3d { width: 4, height: 2, depth: 1 },
        TEXTURE_USAGE_COPY_DST,
        rgba(),
    );
    let mut trace = TraceLog::disabled();
    let view = TextureCopyView { texture, mip_level: 0, origin: Origin3d { x: 0, y: 0, z: 0 } };
    // Caller rows are 20 bytes, the staged pitch is 16: each staged row must
    // hold the first 16 bytes of the matching source row.
    let layout = TextureDataLayout { bytes_per_row: 20, rows_per_image: 2 };
    let size = Extent3d { width: 4, height: 2, depth: 1 };
    let data: Vec<u8> = (0u8..40).collect();
    let r = global.queue_write_texture(queue, &view, &data, &layout, &size, &mut trace);
    assert_eq!(r, Ok(()));
    let dev = device_of(&global, queue);
    let staged = &dev.pending_writes.temp_buffers[0].contents;
    let mut reference: Vec<u8> = Vec::new();
    for row in 0..2usize {
        reference.extend_from_slice(&data[row * 20..row * 20 + 16]);
    }
    assert_eq!(staged, &reference);
}

#[test]
fn write_texture_error_variants() {
    let (mut global, queue) = new_global();
    let fmt = TextureFormatInfo { bytes_per_block: 8, block_width: 4, block_height: 4 };
    let texture = device_mut(&mut global, queue).create_texture(
        Extent3d { width: 8, height: 8, depth: 1 },
        TEXTURE_USAGE_COPY_DST,
        fmt,
    );
    let mut trace = TraceLog::disabled();
    let view = TextureCopyView { texture, mip_level: 0, origin: Origin3d { x: 0, y: 0, z: 0 } };
    // Extent not block-aligned.
    let layout = TextureDataLayout { bytes_per_row: 16, rows_per_image: 8 };
    let r = global.queue_write_texture(
        queue,
        &view,
        &vec![0; 64],
        &layout,
        &Extent3d { width: 6, height: 8, depth: 1 },
        &mut trace,
    );
    assert_eq!(r, Err(QueueWriteError::Transfer(TransferError::InvalidExtent)));
    // Row pitch not a whole number of blocks.
    let layout = TextureDataLayout { bytes_per_row: 15, rows_per_image: 8 };
    let r = global.queue_write_texture(
        queue,
        &view,
        &vec![0; 64],
        &layout,
        &Extent3d { width: 8, height: 8, depth: 1 },
        &mut trace,
    );
    assert_eq!(r, Err(QueueWriteError::Transfer(TransferError::UnalignedRowPitch(15))));
    // Payload smaller than the declared rows.
    let layout = TextureDataLayout { bytes_per_row: 16, rows_per_image: 8 };
    let r = global.queue_write_texture(
        queue,
        &view,
        &vec![0; 16],
        &layout,
        &Extent3d { width: 8, height: 8, depth: 1 },
        &mut trace,
    );
    assert_eq!(r, Err(QueueWriteError::Transfer(TransferError::InsufficientDataSize)));
    // Zero-sized writes succeed without effect.
    let r = global.queue_write_texture(
        queue,
        &view,
        &Vec::new(),
        &layout,
        &Extent3d { width: 0, height: 8, depth: 1 },
        &mut trace,
    );
    assert_eq!(r, Ok(()));
}

#[test]
fn validate_linear_data_exact_requirement() {
    let fmt = rgba();
    let layout = TextureDataLayout { bytes_per_row: 16, rows_per_image: 2 };
    let size = Extent3d { width: 4, height: 2, depth: 2 };
    // Two layers of two rows each at 16 bytes per row.
    assert_eq!(validate_linear_texture_data(&layout, &fmt, 64, &size), Ok(()));
    assert_eq!(
        validate_linear_texture_data(&layout, &fmt, 63, &size),
        Err(TransferError::InsufficientDataSize)
    );
}

#[test]
fn submit_stitches_one_transition_per_usage_change() {
    let (mut global, queue) = new_global();
    let dev = device_mut(&mut global, queue);
    let buffer = dev.create_buffer(64, BUFFER_USAGE_COPY_DST);
    let c1 = dev.register_command_buffer(CommandBuffer {
        buffer_uses: vec![RecordedUse { slot: buffer.index, usage: BUFFER_USE_COPY_DST }],
        texture_uses: Vec::new(),
        used_swap_chain: None,
    });
    let c2 = dev.register_command_buffer(CommandBuffer {
        buffer_uses: vec![RecordedUse { slot: buffer.index, usage: BUFFER_USE_COPY_SRC }],
        texture_uses: Vec::new(),
        used_swap_chain: None,
    });
    let mut trace = TraceLog::disabled();
    let r = global.queue_submit(queue, &vec![c1, c2], &mut trace);
    assert_eq!(r, Ok(()));
    let dev = device_of(&global, queue);
    assert_eq!(dev.active_submission_index, 1);
    let record = dev.life_tracker.last().unwrap();
    assert_eq!(record.index, 1);
    assert_eq!(record.stream.len(), 4);
    // First command buffer finds untracked state: no barrier.
    match &record.stream[0] {
        StreamItem::Transit { buffer_transitions, .. } => {
            assert_eq!(buffer_transitions.len(), 0);
        }
        _ => panic!("expected a transit item"),
    }
    assert!(matches!(&record.stream[1], StreamItem::Execute { cmd_buf } if *cmd_buf == c1));
    // Second command buffer changes copy-destination to copy-source:
    // exactly one barrier, out of the state actually reached.
    match &record.stream[2] {
        StreamItem::Transit { buffer_transitions, .. } => {
            assert_eq!(buffer_transitions.len(), 1);
            assert_eq!(buffer_transitions[0].slot, buffer.index);
            assert_eq!(buffer_transitions[0].from, BUFFER_USE_COPY_DST);
            assert_eq!(buffer_transitions[0].to, BUFFER_USE_COPY_SRC);
        }
        _ => panic!("expected a transit item"),
    }
    assert_eq!(dev.trackers_buffers.query(buffer.index), Some(BUFFER_USE_COPY_SRC));
    // The submitted command buffers were unregistered and their slots
    // recycled under a new generation.
    assert!(dev.command_buffers.values[c1.index as usize].is_none());
    assert_eq!(dev.command_buffers.epochs[c1.index as usize], c1.epoch + 1);
}

#[test]
fn submit_error_variants() {
    let (mut global, queue) = new_global();
    let dev = device_mut(&mut global, queue);
    let buffer = dev.create_buffer(64, BUFFER_USAGE_COPY_DST);
    let sc = dev.create_swap_chain(false);
    let c_sc = dev.register_command_buffer(CommandBuffer {
        buffer_uses: Vec::new(),
        texture_uses: Vec::new(),
        used_swap_chain: Some(sc),
    });
    let mut trace = TraceLog::disabled();
    let r = global.queue_submit(queue, &vec![c_sc], &mut trace);
    assert_eq!(r, Err(QueueSubmitError::SwapChainOutputDropped));
    let bogus = Id::zip(50, 1, Backend::Empty);
    let r = global.queue_submit(queue, &vec![bogus], &mut trace);
    assert_eq!(r, Err(QueueSubmitError::InvalidCommandBuffer(bogus)));
    // A buffer mapped while still owned is an access error.
    let dev = device_mut(&mut global, queue);
    dev.buffers.values[buffer.index as usize].as_mut().unwrap().map_state =
        BufferMapState::Active;
    let c_mapped = dev.register_command_buffer(CommandBuffer {
        buffer_uses: vec![RecordedUse { slot: buffer.index, usage: BUFFER_USE_COPY_SRC }],
        texture_uses: Vec::new(),
        used_swap_chain: None,
    });
    let r = global.queue_submit(queue, &vec![c_mapped], &mut trace);
    assert!(matches!(r, Err(QueueSubmitError::BufferAccess(_))));
}

#[test]
fn maintain_reclaims_only_retired_last_use() {
    let (mut global, queue) = new_global();
    let dev = device_mut(&mut global, queue);
    let buffer = dev.create_buffer(64, BUFFER_USAGE_COPY_DST);
    let released = dev.buffer_drop(buffer);
    assert!(released);
    let c1 = dev.register_command_buffer(CommandBuffer {
        buffer_uses: vec![RecordedUse { slot: buffer.index, usage: BUFFER_USE_COPY_SRC }],
        texture_uses: Vec::new(),
        used_swap_chain: None,
    });
    let c2 = dev.register_command_buffer(CommandBuffer {
        buffer_uses: vec![RecordedUse { slot: buffer.index, usage: BUFFER_USE_COPY_SRC }],
        texture_uses: Vec::new(),
        used_swap_chain: None,
    });
    let mut trace = TraceLog::disabled();
    global.queue_submit(queue, &vec![c1], &mut trace).unwrap();
    global.queue_submit(queue, &vec![c2], &mut trace).unwrap();
    // Submission 1 retired, but the buffer's last use is submission 2: it
    // must survive this pass.
    let reclaimed = global.queue_maintain(queue, 1, true).unwrap();
    assert_eq!(reclaimed.len(), 0);
    assert!(device_of(&global, queue).buffers.values[buffer.index as usize].is_some());
    // Once submission 2 retires the buffer is destroyed exactly once.
    let reclaimed = global.queue_maintain(queue, 2, true).unwrap();
    assert_eq!(reclaimed, vec![ReclaimedResource::Buffer(buffer.index)]);
    let dev = device_of(&global, queue);
    assert!(dev.buffers.values[buffer.index as usize].is_none());
    assert_eq!(dev.buffers.epochs[buffer.index as usize], buffer.epoch + 1);
    assert_eq!(dev.trackers_buffers.query(buffer.index), None);
    assert_eq!(dev.life_tracker.len(), 0);
}

#[test]
fn maintain_reports_stuck_device_after_bounded_wait() {
    let (mut global, queue) = new_global();
    let dev = device_mut(&mut global, queue);
    let c1 = dev.register_command_buffer(CommandBuffer {
        buffer_uses: Vec::new(),
        texture_uses: Vec::new(),
        used_swap_chain: None,
    });
    let mut trace = TraceLog::disabled();
    global.queue_submit(queue, &vec![c1], &mut trace).unwrap();
    let r = global.queue_maintain(queue, 0, false);
    assert_eq!(r, Err(QueueSubmitError::StuckGpu));
    // The in-flight record is untouched and retires normally afterwards.
    assert_eq!(device_of(&global, queue).life_tracker.len(), 1);
    let r = global.queue_maintain(queue, 1, true);
    assert_eq!(r, Ok(Vec::new()));
}

#[test]
fn submit_flushes_pending_writes_first() {
    let (mut global, queue) = new_global();
    let buffer = device_mut(&mut global, queue).create_buffer(64, BUFFER_USAGE_COPY_DST);
    let mut trace = TraceLog::disabled();
    global.queue_write_buffer(queue, buffer, 0, &vec![9; 16], &mut trace).unwrap();
    let c1 = device_mut(&mut global, queue).register_command_buffer(CommandBuffer {
        buffer_uses: Vec::new(),
        texture_uses: Vec::new(),
        used_swap_chain: None,
    });
    global.queue_submit(queue, &vec![c1], &mut trace).unwrap();
    let dev = device_of(&global, queue);
    let record = dev.life_tracker.last().unwrap();
    assert_eq!(record.stream.len(), 3);
    assert!(matches!(&record.stream[0], StreamItem::Flush(_)));
    assert_eq!(record.temp_buffers.len(), 1);
    assert!(dev.pending_writes.command_buffer.is_none());
    assert_eq!(dev.pending_writes.temp_buffers.len(), 0);
}

#[test]
fn recorder_sees_operations_before_they_apply() {
    let (mut global, queue) = new_global();
    let buffer = device_mut(&mut global, queue).create_buffer(64, BUFFER_USAGE_COPY_DST);
    let mut trace = TraceLog::attached();
    global.queue_write_buffer(queue, buffer, 8, &vec![1; 16], &mut trace).unwrap();
    assert_eq!(trace.events.len(), 1);
    assert!(matches!(
        &trace.events[0],
        TraceEvent::WriteBuffer { id, offset: 8, size: 16 } if *id == buffer
    ));
    let mut silent = TraceLog::disabled();
    global.queue_write_buffer(queue, buffer, 8, &vec![1; 16], &mut silent).unwrap();
    assert_eq!(silent.events.len(), 0);
}

#[test]
fn pending_writes_dispose_frees_all_staging() {
    let (mut global, queue) = new_global();
    let buffer = device_mut(&mut global, queue).create_buffer(64, BUFFER_USAGE_COPY_DST);
    let mut trace = TraceLog::disabled();
    global.queue_write_buffer(queue, buffer, 0, &vec![1; 16], &mut trace).unwrap();
    global.queue_write_buffer(queue, buffer, 16, &vec![2; 16], &mut trace).unwrap();
    let dev = device_mut(&mut global, queue);
    let pending = std::mem::replace(&mut dev.pending_writes, PendingWrites::new());
    assert_eq!(pending.dispose(), 2);
}
