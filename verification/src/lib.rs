//! Resource-lifetime and command-submission engine for a GPU queue.
//!
//! The library tracks the usage state of every buffer and texture, stages
//! host-supplied bytes for upload, computes the synchronization barriers that
//! must run between command buffers, and reclaims resources only once the
//! device has retired the last submission that used them.  All decisions are
//! made here, over plain values; the caller performs the native driver calls
//! that each decision describes.

pub mod align;
pub mod error;
pub mod id;
pub mod life;
pub mod queue;
pub mod staging;
pub mod track;
