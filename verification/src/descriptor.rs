//! The bindless descriptor index allocator: a free list threaded through
//! the slot array itself. Slot `i` holds the index of the next free slot;
//! an allocated slot points at itself. Exhaustion — the free head equal to
//! the slot count — is a caller error, not a runtime condition.

use vstd::prelude::*;

verus! {

/// A descriptor index handed to shaders.
pub type CpuDescriptor = u32;

/// The device-side half of a descriptor table, as opaque handles.
#[derive(Debug, Clone, Copy, PartialEq, Eq, Structural)]
pub struct GpuDescriptors {
    pub layout: u64,
    pub set: u64,
}

/// A fixed-capacity descriptor table with an intrusive free list.
pub struct Descriptors {
    pub free_handle: usize,
    pub cpu: Vec<CpuDescriptor>,
    pub gpu: GpuDescriptors,
}

impl Descriptors {
    /// The head is a slot or the out-of-memory sentinel, and every slot's
    /// link stays within the table.
    pub open spec fn wf(self) -> bool {
        &&& self.free_handle <= self.cpu@.len()
        &&& self.cpu@.len() < 0x1_0000_0000
        &&& forall|i: int| 0 <= i < self.cpu@.len() ==> (#[trigger] self.cpu@[i]) <= self.cpu@.len()
    }

    /// A table of `len` slots, each free and linked to its successor.
    #[verifier::loop_isolation(false)]
    pub fn new(len: usize, gpu: GpuDescriptors) -> (r: Self)
        requires
            len < 0x1_0000_0000,
        ensures
            r.wf(),
            r.free_handle == 0,
            r.cpu@.len() == len,
            forall|i: int| 0 <= i < len ==> (#[trigger] r.cpu@[i]) as int == i + 1,
            r.gpu == gpu,
    {
        let mut cpu: Vec<CpuDescriptor> = Vec::new();
        let mut i: usize = 0;
        while i < len
            invariant
                0 <= i <= len,
                cpu@.len() == i,
                forall|k: int| 0 <= k < i ==> (#[trigger] cpu@[k]) as int == k + 1,
            decreases len - i,
        {
            cpu.push(i as u32 + 1);
            i += 1;
        }
        Descriptors { free_handle: 0, cpu, gpu }
    }

    /// The sentinel meaning no slot is free.
    pub fn invalid_index(&self) -> (r: usize)
        ensures
            r == self.cpu@.len(),
    {
        self.cpu.len()
    }

    /// Takes the first free slot: the head advances to the slot's link,
    /// and the slot marks itself allocated by pointing at itself. The
    /// table must not be exhausted, and the head must be a free slot.
    pub fn create(&mut self) -> (r: CpuDescriptor)
        requires
            old(self).wf(),
            old(self).free_handle < old(self).cpu@.len(),
            old(self).cpu@[old(self).free_handle as int] != old(self).free_handle,
        ensures
            final(self).wf(),
            r as int == old(self).free_handle,
            final(self).free_handle == old(self).cpu@[old(self).free_handle as int],
            final(self).cpu@ == old(self).cpu@.update(
                old(self).free_handle as int,
                old(self).free_handle as u32,
            ),
            final(self).gpu == old(self).gpu,
    {
        let idx = self.free_handle;
        let handle = self.cpu[idx];
        self.free_handle = handle as usize;
        self.cpu.set(idx, idx as u32);
        idx as u32
    }
}

} // verus!
