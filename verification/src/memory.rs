//! The physical page allocator.
//!
//! A monotonic (bump) allocator over a fixed physical region: it hands out
//! zero-filled, page-aligned regions and never reclaims them. The cursor
//! only advances, so distinct allocations can never overlap; a ghost
//! history of every region handed out makes that provable for whole call
//! sequences.

use vstd::prelude::*;

use crate::KernelError;
use crate::common::PAddr;

verus! {

/// Size in bytes of one page, the unit of all allocation and mapping.
pub const PAGE_SIZE: u32 = 4096;

/// A region of physical memory handed out by the allocator: its base
/// address and its contents, which are zero-filled on allocation.
#[derive(Debug)]
pub struct PageRegion {
    /// Physical address of the first byte; always page-aligned.
    pub paddr: PAddr,
    /// The bytes backing the region, one per physical byte.
    pub bytes: Vec<u8>,
}

/// The bump allocator's state: a cursor that only moves forward and the
/// fixed upper bound of the usable physical region.
pub struct PageAllocator {
    /// The next free physical address; page-aligned, monotonically
    /// non-decreasing.
    pub next_paddr: PAddr,
    /// One past the last usable physical address.
    pub ram_end: PAddr,
    /// Every region handed out so far, as (base address, page count).
    pub history: Ghost<Seq<(PAddr, u32)>>,
}

/// Whether physical address `addr` lies inside the region `r`.
pub open spec fn region_contains(r: (PAddr, u32), addr: int) -> bool {
    r.0 <= addr < r.0 + r.1 * PAGE_SIZE
}

impl PageAllocator {
    /// Validity of the allocator state: cursor and bound are page-aligned,
    /// the cursor never passes the bound, and the recorded regions are
    /// aligned and laid out in order strictly below the cursor.
    pub open spec fn wf(self) -> bool {
        &&& self.next_paddr % PAGE_SIZE == 0
        &&& self.ram_end % PAGE_SIZE == 0
        &&& self.next_paddr <= self.ram_end
        &&& forall|i: int|
            0 <= i < self.history@.len() ==> (#[trigger] self.history@[i]).0 % PAGE_SIZE == 0
        &&& forall|i: int|
            0 <= i < self.history@.len()
                ==> (#[trigger] self.history@[i]).0 + self.history@[i].1 * PAGE_SIZE
                <= self.next_paddr
        &&& forall|i: int, j: int|
            0 <= i < j < self.history@.len()
                ==> (#[trigger] self.history@[i]).0 + self.history@[i].1 * PAGE_SIZE
                <= (#[trigger] self.history@[j]).0
    }

    /// Creates an allocator over the physical region
    /// `[free_ram_start, free_ram_end)`.
    pub fn new(free_ram_start: PAddr, free_ram_end: PAddr) -> (r: Self)
        requires
            free_ram_start % PAGE_SIZE == 0,
            free_ram_end % PAGE_SIZE == 0,
            free_ram_start <= free_ram_end,
        ensures
            r.wf(),
            r.next_paddr == free_ram_start,
            r.ram_end == free_ram_end,
            r.history@ =~= Seq::<(PAddr, u32)>::empty(),
    {
        PageAllocator {
            next_paddr: free_ram_start,
            ram_end: free_ram_end,
            history: Ghost(Seq::empty()),
        }
    }

    /// Allocates `n` zero-filled pages, or reports exhaustion when the
    /// request would pass the end of the physical pool. The cursor never
    /// wraps around: a request that does not fit leaves the allocator
    /// unchanged.
    pub fn alloc_pages(&mut self, n: u32) -> (r: Result<PageRegion, KernelError>)
        requires
            old(self).wf(),
        ensures
            final(self).wf(),
            final(self).ram_end == old(self).ram_end,
            r is Ok <==> old(self).next_paddr + n * PAGE_SIZE <= old(self).ram_end,
            match r {
                Ok(region) => {
                    &&& region.paddr == old(self).next_paddr
                    &&& region.paddr % PAGE_SIZE == 0
                    &&& region.bytes@.len() == n * PAGE_SIZE
                    &&& forall|i: int| 0 <= i < region.bytes@.len() ==> region.bytes@[i] == 0
                    &&& final(self).next_paddr == old(self).next_paddr + n * PAGE_SIZE
                    &&& final(self).history@ =~= old(self).history@.push((region.paddr, n))
                },
                Err(e) => {
                    &&& e == KernelError::OutOfMemory
                    &&& *final(self) == *old(self)
                },
            },
    {
        let need: u64 = (n as u64) * (PAGE_SIZE as u64);
        let room: u64 = (self.ram_end - self.next_paddr) as u64;
        if need > room {
            return Err(KernelError::OutOfMemory);
        }
        let paddr = self.next_paddr;
        self.next_paddr = self.next_paddr + (need as u32);
        self.history = Ghost(self.history@.push((paddr, n)));
        let bytes = vec![0u8; need as usize];
        Ok(PageRegion { paddr, bytes })
    }
}

/// No byte belongs to two different allocations: any two regions the
/// allocator has handed out over its lifetime are disjoint.
pub proof fn lemma_allocations_pairwise_disjoint(a: PageAllocator, i: int, j: int)
    requires
        a.wf(),
        0 <= i < a.history@.len(),
        0 <= j < a.history@.len(),
        i != j,
    ensures
        forall|addr: int|
            !(region_contains(a.history@[i], addr) && region_contains(a.history@[j], addr)),
{
    if i < j {
        assert(a.history@[i].0 + a.history@[i].1 * PAGE_SIZE <= a.history@[j].0);
    } else {
        assert(a.history@[j].0 + a.history@[j].1 * PAGE_SIZE <= a.history@[i].0);
    }
}

} // verus!
