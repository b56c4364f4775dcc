//! Generational resource handles.
//!
//! A handle names a slot in a per-kind table together with the generation
//! (epoch) the slot had when the resource was created, so a stale handle
//! fails lookup instead of aliasing a recycled slot; the backend tag records
//! which native driver the resource belongs to.

use vstd::prelude::*;

verus! {

#[derive(Clone, Copy, PartialEq, Eq, Structural, Debug)]
pub enum Backend {
    Empty,
    Vulkan,
    Metal,
    Dx12,
    Dx11,
    Gl,
}

/// Generational handle: slot index, generation, backend tag.
#[derive(Clone, Copy, PartialEq, Eq, Structural, Debug)]
pub struct Id {
    pub index: u32,
    pub epoch: u32,
    pub backend: Backend,
}

impl Id {
    pub fn zip(index: u32, epoch: u32, backend: Backend) -> (r: Id)
        ensures
            r == (Id { index, epoch, backend }),
    {
        Id { index, epoch, backend }
    }

    pub fn unzip(self) -> (r: (u32, u32, Backend))
        ensures
            r == (self.index, self.epoch, self.backend),
    {
        (self.index, self.epoch, self.backend)
    }
}

/// Identity handler that passes externally chosen handles through unchanged,
/// only re-tagging them with the backend they are used on.
#[derive(Debug)]
pub struct IdentityPassThrough;

impl IdentityPassThrough {
    pub fn process(&self, id: Id, backend: Backend) -> (r: Id)
        ensures
            r.index == id.index,
            r.epoch == id.epoch,
            r.backend == backend,
    {
        let (index, epoch, _backend) = id.unzip();
        Id::zip(index, epoch, backend)
    }

    pub fn free(&self, _id: Id) {
    }
}

pub struct IdentityPassThroughFactory;

impl IdentityPassThroughFactory {
    pub fn spawn(&self, _min_index: u32) -> (r: IdentityPassThrough)
        ensures
            true,
    {
        IdentityPassThrough
    }
}

} // verus!
