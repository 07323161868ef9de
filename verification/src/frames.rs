//! The physical-frame allocator the walker draws table frames from.
//!
//! This models the embedding kernel's hardware handler at its interface:
//! page-aligned, non-zero frame addresses handed out one at a time,
//! released frames kept on a free list for reuse, and a fixed capacity
//! whose exhaustion surfaces as allocation failure.  The count of live
//! frames is the externally observable measure of the table's memory
//! footprint.

use vstd::prelude::*;

verus! {

/// Allocates and releases page-sized physical frames.
pub struct FrameAlloc {
    /// Next never-yet-issued frame address.
    next: u64,
    /// Frame addresses released and available for reuse.
    free: Vec<u64>,
    /// Number of frames currently allocated and not released.
    live: u64,
    /// Maximum number of simultaneously live frames.
    cap: u64,
}

impl FrameAlloc {
    /// Number of frames currently live.
    pub closed spec fn spec_live(self) -> u64 {
        self.live
    }

    /// The allocator's fixed capacity.
    pub closed spec fn spec_cap(self) -> u64 {
        self.cap
    }

    /// Internal consistency: every address ever issued is page-aligned,
    /// non-zero and below `4096 * (cap + 1)`, and live plus reusable
    /// frames never exceed the capacity.
    pub closed spec fn wf(self) -> bool {
        &&& self.next % 4096 == 0
        &&& 4096 <= self.next
        &&& self.live + self.free@.len() <= self.cap
        &&& self.next <= 4096 * (1 + self.live + self.free@.len())
        &&& self.cap <= 0x3ffff
        &&& forall|i: int|
            0 <= i < self.free@.len()
                ==> #[trigger] self.free@[i] % 4096 == 0 && 0 < self.free@[i] < 0x4000_0000
        &&& 1 <= self.cap
    }

    /// A fresh allocator that has issued nothing.
    pub fn new(cap: u64) -> (a: FrameAlloc)
        requires
            1 <= cap <= 0x3ffff,
        ensures
            a.wf(),
            a.spec_live() == 0,
            a.spec_cap() == cap,
    {
        FrameAlloc { next: 4096, free: Vec::new(), live: 0, cap }
    }

    /// Hands out one zero-owner frame, or fails exactly when the
    /// capacity is exhausted.  Every issued address is page-aligned,
    /// non-zero and below `2^30`, so it always fits the entry encoding's
    /// address field.
    pub fn alloc_frame(&mut self) -> (r: Option<u64>)
        requires
            old(self).wf(),
        ensures
            final(self).wf(),
            final(self).spec_cap() == old(self).spec_cap(),
            r is None <==> old(self).spec_live() == old(self).spec_cap(),
            r is None ==> final(self).spec_live() == old(self).spec_live(),
            r matches Some(p) ==> {
                &&& final(self).spec_live() == old(self).spec_live() + 1
                &&& p % 4096 == 0
                &&& 0 < p < 0x4000_0000
            },
    {
        if self.live == self.cap {
            return None;
        }
        proof {
            if self.free@.len() == 0 {
                assert(self.next <= 4096 * (1 + self.live + self.free@.len()));
                assert(4096 * (1 + self.live) <= 4096 * self.cap);
                assert(4096 * self.cap <= 4096 * 0x3ffff);
            }
        }
        let p = match self.free.pop() {
            Some(p) => p,
            None => {
                let p = self.next;
                self.next = self.next + 4096;
                p
            },
        };
        self.live = self.live + 1;
        Some(p)
    }

    /// Takes back a released frame.  The live count never goes below
    /// zero: the walker releases only frames it allocated, so the
    /// guarding branch is never taken in a well-formed table.
    pub fn dealloc_frame(&mut self, p: u64)
        requires
            old(self).wf(),
            p % 4096 == 0,
            0 < p < 0x4000_0000,
        ensures
            final(self).wf(),
            final(self).spec_cap() == old(self).spec_cap(),
            final(self).spec_live() == if old(self).spec_live() >= 1 {
                old(self).spec_live() - 1
            } else {
                0
            },
            final(self).spec_live() <= old(self).spec_live(),
    {
        if self.live >= 1 {
            self.free.push(p);
            self.live = self.live - 1;
        }
    }

    /// A live count never exceeds the capacity.
    pub proof fn lemma_live_le_cap(self)
        requires
            self.wf(),
        ensures
            self.spec_live() <= self.spec_cap(),
    {
    }

    /// Number of frames currently live, for callers tracking the
    /// table's footprint.
    pub fn live_count(&self) -> (r: u64)
        ensures
            r == self.spec_live(),
    {
        self.live
    }

    /// The fixed capacity.
    pub fn capacity(&self) -> (r: u64)
        ensures
            r == self.spec_cap(),
    {
        self.cap
    }
}

} // verus!
