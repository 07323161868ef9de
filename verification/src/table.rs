//! The generic walker: one algorithm that reads, builds, updates and
//! tears down a multi-level translation tree, for any geometry the
//! metadata describes.
//!
//! Frames are strictly tree-owned: the root lives as long as the table,
//! and every other frame is owned by the single intermediate entry that
//! names it.  Each frame pairs its 512 encoded entries with the owned
//! child frames, and well-formedness ties the two together: an entry is
//! empty, a leaf, or an intermediate entry, exactly one of the three, and
//! an intermediate entry's recorded address is its child frame's.

use vstd::prelude::*;

use crate::entry::{
    decode_flags, pte_is_huge, pte_is_leaf, pte_is_table, pte_paddr, flags_ok, make_page_pte,
    make_table_pte, read_pte_flags, read_pte_paddr, rewrite_pte_flags, spec_page_pte,
    spec_with_flags, lemma_page_pte_fields, lemma_table_pte_fields, lemma_with_flags_fields,
};
use crate::frames::FrameAlloc;
use crate::meta::{
    low_mask, lemma_path_eq_trans, lemma_region_shape, PagingMetaData, PAGE_SIZE_1G, PAGE_SIZE_2M,
    PAGE_SIZE_4K,
};
use crate::{PagingError, TlbFlush};

verus! {

/// One table frame: a page-sized array of encoded entries, plus the
/// owned child frame behind every intermediate entry.
pub(crate) struct Frame {
    pub(crate) entries: Vec<u64>,
    pub(crate) children: Vec<Option<Box<Frame>>>,
    pub(crate) paddr: u64,
}

impl Frame {
    /// Every entry of this frame is zero.
    pub(crate) open spec fn all_empty(self) -> bool {
        forall|i: int| 0 <= i < 512 ==> self.entries@[i] == 0
    }

    /// The tree rooted here is well formed for a frame standing at level
    /// `l`: correct arity, a frame address the entry encoding and the
    /// allocator can both carry, and every slot in exactly one state.
    pub(crate) open spec fn wf_node(self, g: PagingMetaData, l: int) -> bool
        decreases g.levels - l, 1int,
    {
        &&& self.entries@.len() == 512
        &&& self.children@.len() == 512
        &&& self.paddr % 4096 == 0
        &&& 0 < self.paddr < 0x4000_0000
        &&& forall|i: int| #![trigger self.entries@[i]] 0 <= i < 512 ==> self.slot_wf(g, l, i)
    }

    /// One slot in one of the three entry states.  An intermediate entry
    /// exists exactly where a child frame is owned, records that child's
    /// address, and the child — one level down, itself well formed — is
    /// never left with all entries empty (eager pruning reclaims it).  A
    /// leaf carries the huge marker exactly when it stands above the
    /// final level.
    pub(crate) open spec fn slot_wf(self, g: PagingMetaData, l: int, i: int) -> bool
        decreases g.levels - l, 0int,
    {
        let e = self.entries@[i];
        match self.children@[i] {
            Some(c) => {
                &&& pte_is_table(e)
                &&& l + 1 < g.levels
                &&& pte_paddr(e) == c.paddr
                &&& (g.levels - (l + 1) >= 0 && c.wf_node(g, l + 1))
                &&& !c.all_empty()
            },
            None => {
                &&& !pte_is_table(e)
                &&& (pte_is_leaf(e) ==> (pte_is_huge(e) <==> l + 1 < g.levels))
            },
        }
    }

    /// The mapping that covers `va` in the subtree standing at level `l`:
    /// its physical base, attribute word and page size.  The walk stops
    /// at the first leaf — before the final level only a huge leaf
    /// terminates it — and fails where a slot is empty.
    pub(crate) open spec fn node_lookup(self, g: PagingMetaData, l: int, va: u64) -> Option<
        (u64, u64, u64),
    >
        decreases g.levels - l,
    {
        if l < 0 || l >= g.levels {
            None
        } else {
            let e = self.entries@[g.index_of(l, va) as int];
            if pte_is_leaf(e) && (l + 1 == g.levels || pte_is_huge(e)) {
                Some((pte_paddr(e), decode_flags(e), g.level_size(l)))
            } else if l + 1 < g.levels {
                match self.children@[g.index_of(l, va) as int] {
                    Some(c) => c.node_lookup(g, l + 1, va),
                    None => None,
                }
            } else {
                None
            }
        }
    }

    /// Whether installing a leaf for `va` at level `tl` runs into an
    /// existing entry: a non-empty slot at the target level, or a leaf
    /// met on the way down.  Missing intermediate frames never block -
    /// they are built on demand.
    pub(crate) open spec fn map_blocked(self, g: PagingMetaData, l: int, tl: int, va: u64) -> bool
        decreases g.levels - l,
    {
        if l < 0 || l >= g.levels {
            false
        } else {
            let e = self.entries@[g.index_of(l, va) as int];
            if l == tl {
                e != 0
            } else if pte_is_leaf(e) {
                true
            } else {
                match self.children@[g.index_of(l, va) as int] {
                    Some(c) => l + 1 < g.levels && c.map_blocked(g, l + 1, tl, va),
                    None => false,
                }
            }
        }
    }

    /// How many intermediate frames are missing on `va`'s path from
    /// level `l` down to the target level.
    pub(crate) open spec fn missing_frames(self, g: PagingMetaData, l: int, tl: int, va: u64) -> int
        decreases g.levels - l,
    {
        if l < 0 || l >= g.levels || l >= tl {
            0
        } else {
            match self.children@[g.index_of(l, va) as int] {
                Some(c) => c.missing_frames(g, l + 1, tl, va),
                None => tl - l,
            }
        }
    }

    /// A fresh, zero-filled frame at address `paddr`, well formed at any
    /// level of any geometry.
    pub(crate) fn empty_frame(paddr: u64, Ghost(g): Ghost<PagingMetaData>, Ghost(l): Ghost<int>) -> (f:
        Frame)
        requires
            paddr % 4096 == 0,
            0 < paddr < 0x4000_0000,
        ensures
            f.wf_node(g, l),
            f.all_empty(),
            f.paddr == paddr,
            forall|va: u64| f.node_lookup(g, l, va) is None,
    {
        let mut entries: Vec<u64> = Vec::new();
        let mut children: Vec<Option<Box<Frame>>> = Vec::new();
        let mut n: usize = 0;
        while n < 512
            invariant
                entries@.len() == n,
                children@.len() == n,
                n <= 512,
                forall|i: int| 0 <= i < n ==> entries@[i] == 0,
                forall|i: int| 0 <= i < n ==> children@[i] is None,
            decreases 512 - n,
        {
            entries.push(0);
            children.push(None);
            n = n + 1;
        }
        let f = Frame { entries, children, paddr };
        proof {
            assert(!pte_is_leaf(0u64) && !pte_is_table(0u64) && !pte_is_huge(0u64))
                by (bit_vector);
            assert forall|i: int| 0 <= i < 512 implies f.slot_wf(g, l, i) by {
                assert(f.entries@[i] == 0);
            }
            assert forall|va: u64| f.node_lookup(g, l, va) is None by {
                if 0 <= l < g.levels {
                    crate::meta::lemma_index_bound(g, l, va);
                    assert(f.entries@[g.index_of(l, va) as int] == 0);
                    assert(f.children@[g.index_of(l, va) as int] is None);
                }
            }
        }
        f
    }
}

/// A multi-level translation table: the generic walker, its geometry,
/// the frame allocator it draws from, and the translation-cache
/// invalidation requests it has issued, in order.
pub struct PageTable64 {
    meta: PagingMetaData,
    root: Frame,
    frames: FrameAlloc,
    flushes: Vec<TlbFlush>,
}

impl PageTable64 {
    /// The geometry this table walks.
    pub closed spec fn spec_meta(self) -> PagingMetaData {
        self.meta
    }

    /// The mapping covering `va`: physical base, attribute word, and the
    /// page size actually used.
    pub closed spec fn lookup(self, va: u64) -> Option<(u64, u64, u64)> {
        self.root.node_lookup(self.meta, 0, va)
    }

    /// Every invalidation request issued so far, oldest first.
    pub closed spec fn flush_log(self) -> Seq<TlbFlush> {
        self.flushes@
    }

    /// Number of live frames, the root included.
    pub closed spec fn spec_live_frames(self) -> u64 {
        self.frames.spec_live()
    }

    /// The allocator capacity chosen at construction.
    pub closed spec fn spec_capacity(self) -> u64 {
        self.frames.spec_cap()
    }

    /// The table's invariant.
    pub closed spec fn wf(self) -> bool {
        &&& self.meta.wf()
        &&& self.frames.wf()
        &&& self.root.wf_node(self.meta, 0)
    }

    /// Creates an empty table for geometry `meta`, allocating and
    /// zeroing the root frame; the table may own at most `cap` frames at
    /// once.
    pub fn new(meta: PagingMetaData, cap: u64) -> (t: PageTable64)
        requires
            meta.wf(),
            1 <= cap <= 0x3ffff,
        ensures
            t.wf(),
            t.spec_meta() == meta,
            t.spec_capacity() == cap,
            t.spec_live_frames() == 1,
            t.flush_log() =~= Seq::<TlbFlush>::empty(),
            forall|va: u64| t.lookup(va) is None,
    {
        let mut frames = FrameAlloc::new(cap);
        let rp = match frames.alloc_frame() {
            Some(p) => p,
            None => {
                proof {
                    assert(false);
                }
                4096
            },
        };
        let root = Frame::empty_frame(rp, Ghost(meta), Ghost(0int));
        PageTable64 { meta, root, frames, flushes: Vec::new() }
    }

    /// The number of table frames currently owned, root included: the
    /// observable memory footprint, which eager pruning drives back down.
    pub fn live_frames(&self) -> (r: u64)
        ensures
            r == self.spec_live_frames(),
    {
        self.frames.live_count()
    }

    /// The recorded invalidation requests, oldest first.
    pub fn flushes(&self) -> (r: &Vec<TlbFlush>)
        ensures
            r@ == self.flush_log(),
    {
        &self.flushes
    }

    /// Whether mapping `va` at granularity `size` would run into an
    /// existing entry along the walk: the no-implicit-overwrite rule.
    pub closed spec fn map_conflict(self, va: u64, size: u64) -> bool {
        self.root.map_blocked(self.meta, 0, self.meta.size_level(size), va)
    }

    /// How many intermediate frames a mapping of `va` at granularity
    /// `size` would have to allocate.
    pub closed spec fn frames_needed(self, va: u64, size: u64) -> int {
        self.root.missing_frames(self.meta, 0, self.meta.size_level(size), va)
    }

    /// The error [`Self::map`] returns, if any: validation first
    /// (granularity, alignment, address bounds), then the overwrite
    /// check, then memory.
    pub open spec fn map_result_spec(self, va: u64, pa: u64, flags: u64, size: u64) -> Option<
        PagingError,
    > {
        let g = self.spec_meta();
        if !g.size_ok(size) {
            Some(PagingError::InvalidPageSize)
        } else if va % size != 0 || pa % size != 0 {
            Some(PagingError::Misaligned)
        } else if va >= g.va_limit() || pa >= g.pa_limit() {
            Some(PagingError::AddressOutOfRange)
        } else if self.map_conflict(va, size) {
            Some(PagingError::AlreadyMapped)
        } else if self.frames_needed(va, size) > self.spec_capacity() - self.spec_live_frames() {
            Some(PagingError::OutOfMemory)
        } else {
            None
        }
    }

    /// A failed operation changes nothing an embedder can observe: no
    /// mapping, no frame count, no invalidation request.
    pub open spec fn unchanged_view(self, post: Self) -> bool {
        &&& (forall|va2: u64| post.lookup(va2) == self.lookup(va2))
        &&& post.flush_log() =~= self.flush_log()
        &&& post.spec_live_frames() == self.spec_live_frames()
    }

    /// What a successful `map` does: every address of the mapped region
    /// now resolves to this mapping, every other translatable address is
    /// untouched, exactly one single-address invalidation request is
    /// recorded, and exactly the missing intermediate frames were
    /// allocated.
    pub open spec fn map_effect(self, post: Self, va: u64, pa: u64, flags: u64, size: u64) -> bool {
        &&& (forall|va2: u64|
            va <= va2 < va + size ==> post.lookup(va2) == Some((pa, flags, size)))
        &&& (forall|va2: u64|
            va2 < self.spec_meta().va_limit() && !(va <= va2 < va + size) ==> post.lookup(va2)
                == self.lookup(va2))
        &&& post.flush_log() =~= self.flush_log().push(TlbFlush::Address(va))
        &&& post.spec_live_frames() == self.spec_live_frames() + self.frames_needed(va, size)
    }

    /// Installs a mapping of `size` bytes from `va` to `pa` with
    /// attribute word `flags`: validates granularity, alignment and
    /// address bounds, walks down to the level matching `size` building
    /// missing intermediate frames, refuses to overwrite any existing
    /// entry, and on success records a single-address invalidation
    /// request.  A failed call leaves the table exactly as it was - in
    /// particular, a walk that runs out of frames is torn back down.
    pub fn map(&mut self, va: u64, pa: u64, flags: u64, size: u64) -> (r: Result<
        (),
        PagingError,
    >)
        requires
            old(self).wf(),
            flags_ok(flags),
        ensures
            final(self).wf(),
            final(self).spec_meta() == old(self).spec_meta(),
            final(self).spec_capacity() == old(self).spec_capacity(),
            (match old(self).map_result_spec(va, pa, flags, size) {
                Some(e) => r == Err::<(), PagingError>(e) && old(self).unchanged_view(
                    *final(self),
                ),
                None => r == Ok::<(), PagingError>(()) && old(self).map_effect(
                    *final(self),
                    va,
                    pa,
                    flags,
                    size,
                ),
            }),
    {
        if !(size == PAGE_SIZE_4K || size == PAGE_SIZE_2M || size == PAGE_SIZE_1G) {
            return Err(PagingError::InvalidPageSize);
        }
        if va % size != 0 || pa % size != 0 {
            return Err(PagingError::Misaligned);
        }
        if va >= self.meta.va_limit_x() || pa >= self.meta.pa_limit_x() {
            return Err(PagingError::AddressOutOfRange);
        }
        let tl: u64 = if size == PAGE_SIZE_4K {
            self.meta.levels - 1
        } else if size == PAGE_SIZE_2M {
            self.meta.levels - 2
        } else {
            self.meta.levels - 3
        };
        let ghost g = self.meta;
        let ghost st = g.level_shift(tl as int);
        proof {
            assert(tl == g.size_level(size));
            assert(st == 12 || st == 21 || st == 30) by {
                assert(g.level_shift(g.levels - 1) == 12);
                assert(g.level_shift(g.levels - 2) == 21);
                assert(g.level_shift(g.levels - 3) == 30);
            }
            assert(size == 1u64 << st) by {
                assert(1u64 << 12u64 == 0x1000 && 1u64 << 21u64 == 0x20_0000 && 1u64 << 30u64
                    == 0x4000_0000) by (bit_vector);
            }
            assert(va & low_mask(st) == 0 && pa & 0xfffu64 == 0) by (bit_vector)
                requires
                    va % size == 0,
                    pa % size == 0,
                    size == 1u64 << st,
                    st == 12 || st == 21 || st == 30,
            ;
            let pb = g.pa_max_bits;
            assert(pa < 0x1_0000_0000_0000u64) by (bit_vector)
                requires
                    pa < 1u64 << pb,
                    pb <= 48,
            ;
        }
        let r = map_rec(&mut self.root, &self.meta, 0, tl, va, pa, flags, &mut self.frames);
        proof {
            lemma_missing_nonneg(old(self).root, g, 0, tl as int, va);
        }
        match r {
            Ok(()) => {
                self.flushes.push(TlbFlush::Address(va));
                proof {
                    assert forall|va2: u64| va <= va2 < va + size implies self.lookup(va2) == Some(
                        (pa, flags, size),
                    ) by {
                        let off = (va2 - va) as u64;
                        crate::meta::lemma_region_offsets(g, tl as int, va, off);
                        crate::meta::lemma_path_eq_region(g, tl as int, va, va2);
                    }
                    assert forall|va2: u64|
                        va2 < g.va_limit() && !(va <= va2 < va + size) implies self.lookup(va2)
                        == old(self).lookup(va2) by {
                        if g.path_eq(0, tl as int, va, va2) {
                            crate::meta::lemma_path_eq_region(g, tl as int, va, va2);
                            crate::meta::lemma_same_region_bound(g, tl as int, va, va2);
                        }
                    }
                }
                Ok(())
            },
            Err(e) => Err(e),
        }
    }

    /// The error [`Self::unmap`] and [`Self::update_flags`] return, if
    /// any: an address beyond the covered bits, or one no mapping
    /// covers.
    pub open spec fn probe_result_spec(self, va: u64) -> Option<PagingError> {
        if va >= self.spec_meta().va_limit() {
            Some(PagingError::AddressOutOfRange)
        } else if self.lookup(va) is None {
            Some(PagingError::NotMapped)
        } else {
            None
        }
    }

    /// What a successful `unmap` does: the whole page the mapping
    /// covering `va` occupied resolves to nothing, every other
    /// translatable address is untouched, one single-address
    /// invalidation request is recorded, and pruning can only return
    /// frames, never take them.
    pub open spec fn unmap_effect(self, post: Self, va: u64) -> bool {
        match self.lookup(va) {
            Some((pb, fl, sz)) => {
                let base = (va - (va % sz)) as u64;
                &&& (forall|va2: u64| base <= va2 < base + sz ==> post.lookup(va2) is None)
                &&& (forall|va2: u64|
                    va2 < self.spec_meta().va_limit() && !(base <= va2 < base + sz)
                        ==> post.lookup(va2) == self.lookup(va2))
                &&& post.flush_log() =~= self.flush_log().push(TlbFlush::Address(va))
                &&& post.spec_live_frames() <= self.spec_live_frames()
            },
            None => false,
        }
    }

    /// What a successful `update_flags` does: the covering mapping keeps
    /// its physical base and size, carries the new attribute word, and
    /// one single-address invalidation request is recorded.
    pub open spec fn update_effect(self, post: Self, va: u64, flags: u64) -> bool {
        match self.lookup(va) {
            Some((pb, fl, sz)) => {
                let base = (va - (va % sz)) as u64;
                &&& (forall|va2: u64|
                    base <= va2 < base + sz ==> post.lookup(va2) == Some((pb, flags, sz)))
                &&& (forall|va2: u64|
                    va2 < self.spec_meta().va_limit() && !(base <= va2 < base + sz)
                        ==> post.lookup(va2) == self.lookup(va2))
                &&& post.flush_log() =~= self.flush_log().push(TlbFlush::Address(va))
                &&& post.spec_live_frames() == self.spec_live_frames()
            },
            None => false,
        }
    }

    /// Removes the mapping covering `va`: clears its entry, prunes every
    /// intermediate frame the removal leaves empty, and records a
    /// single-address invalidation request.
    pub fn unmap(&mut self, va: u64) -> (r: Result<(), PagingError>)
        requires
            old(self).wf(),
        ensures
            final(self).wf(),
            final(self).spec_meta() == old(self).spec_meta(),
            final(self).spec_capacity() == old(self).spec_capacity(),
            (match old(self).probe_result_spec(va) {
                Some(e) => r == Err::<(), PagingError>(e) && old(self).unchanged_view(
                    *final(self),
                ),
                None => r == Ok::<(), PagingError>(()) && old(self).unmap_effect(
                    *final(self),
                    va,
                ),
            }),
    {
        if va >= self.meta.va_limit_x() {
            return Err(PagingError::AddressOutOfRange);
        }
        let ghost g = self.meta;
        let (rr, lv, _emp) = unmap_rec(&mut self.root, &self.meta, 0, va, &mut self.frames);
        match rr {
            Ok((pb, fl, sz)) => {
                self.flushes.push(TlbFlush::Address(va));
                proof {
                    lemma_region_shape(g, lv@, va);
                    let base = (va - (va % sz)) as u64;
                    assert forall|va2: u64| base <= va2 < base + sz implies self.lookup(
                        va2,
                    ) is None by {
                        let off = (va2 - base) as u64;
                        crate::meta::lemma_region_offsets(g, lv@, base, off);
                        crate::meta::lemma_path_eq_region(g, lv@, base, va2);
                        lemma_path_eq_trans(g, lv@, va, base, va2);
                    }
                    assert forall|va2: u64|
                        va2 < g.va_limit() && !(base <= va2 < base + sz) implies self.lookup(va2)
                        == old(self).lookup(va2) by {
                        if g.path_eq(0, lv@, va, va2) {
                            lemma_path_eq_trans(g, lv@, va, base, va2);
                            crate::meta::lemma_path_eq_region(g, lv@, base, va2);
                            crate::meta::lemma_same_region_bound(g, lv@, base, va2);
                        }
                    }
                }
                Ok(())
            },
            Err(e) => Err(e),
        }
    }

    /// Rewrites the attribute word of the mapping covering `va`,
    /// preserving its physical base and size, and records a
    /// single-address invalidation request.
    pub fn update_flags(&mut self, va: u64, flags: u64) -> (r: Result<(), PagingError>)
        requires
            old(self).wf(),
            flags_ok(flags),
        ensures
            final(self).wf(),
            final(self).spec_meta() == old(self).spec_meta(),
            final(self).spec_capacity() == old(self).spec_capacity(),
            (match old(self).probe_result_spec(va) {
                Some(e) => r == Err::<(), PagingError>(e) && old(self).unchanged_view(
                    *final(self),
                ),
                None => r == Ok::<(), PagingError>(()) && old(self).update_effect(
                    *final(self),
                    va,
                    flags,
                ),
            }),
    {
        if va >= self.meta.va_limit_x() {
            return Err(PagingError::AddressOutOfRange);
        }
        let ghost g = self.meta;
        let (rr, lv) = update_rec(&mut self.root, &self.meta, 0, va, flags);
        match rr {
            Ok(()) => {
                self.flushes.push(TlbFlush::Address(va));
                proof {
                    lemma_region_shape(g, lv@, va);
                    let (pb, fl0, sz) = old(self).lookup(va)->Some_0;
                    let base = (va - (va % sz)) as u64;
                    assert forall|va2: u64| base <= va2 < base + sz implies self.lookup(va2)
                        == Some((pb, flags, sz)) by {
                        let off = (va2 - base) as u64;
                        crate::meta::lemma_region_offsets(g, lv@, base, off);
                        crate::meta::lemma_path_eq_region(g, lv@, base, va2);
                        lemma_path_eq_trans(g, lv@, va, base, va2);
                    }
                    assert forall|va2: u64|
                        va2 < g.va_limit() && !(base <= va2 < base + sz) implies self.lookup(va2)
                        == old(self).lookup(va2) by {
                        if g.path_eq(0, lv@, va, va2) {
                            lemma_path_eq_trans(g, lv@, va, base, va2);
                            crate::meta::lemma_path_eq_region(g, lv@, base, va2);
                            crate::meta::lemma_same_region_bound(g, lv@, base, va2);
                        }
                    }
                }
                Ok(())
            },
            Err(e) => Err(e),
        }
    }

    /// Tears every mapping down: frees all owned frames reachable from
    /// the root, zeroes the root frame, and records exactly one
    /// full-cache invalidation request - one sequence regardless of how
    /// many mappings existed.
    pub fn clear_all(&mut self) -> (r: Result<(), PagingError>)
        requires
            old(self).wf(),
        ensures
            final(self).wf(),
            final(self).spec_meta() == old(self).spec_meta(),
            final(self).spec_capacity() == old(self).spec_capacity(),
            r == Ok::<(), PagingError>(()),
            forall|va2: u64| final(self).lookup(va2) is None,
            final(self).flush_log() =~= old(self).flush_log().push(TlbFlush::All),
            final(self).spec_live_frames() <= old(self).spec_live_frames(),
    {
        let ghost g = self.meta;
        clear_rec(&mut self.root, &self.meta, 0, &mut self.frames);
        self.flushes.push(TlbFlush::All);
        proof {
            assert forall|va2: u64| self.lookup(va2) is None by {
                lemma_empty_lookup(self.root, g, 0, va2);
            }
        }
        Ok(())
    }

    /// What [`Self::translate`] returns: the walk fails on an address
    /// beyond the covered bits or on an empty slot, and otherwise yields
    /// the mapped base plus the offset of `va` inside the page actually
    /// used.
    pub open spec fn translate_spec(self, va: u64) -> Result<(u64, u64, u64), PagingError> {
        if va >= self.spec_meta().va_limit() {
            Err(PagingError::AddressOutOfRange)
        } else {
            match self.lookup(va) {
                Some((pb, fl, sz)) => Ok(
                    (((pb + (va & ((sz - 1) as u64))) as u64, fl, sz)),
                ),
                None => Err(PagingError::NotMapped),
            }
        }
    }

    /// Resolves `va` to a physical address, the mapping's attribute word
    /// and the page size used.  Read-only: no slot is written, no frame
    /// allocated, no invalidation issued.
    pub fn translate(&self, va: u64) -> (r: Result<(u64, u64, u64), PagingError>)
        requires
            self.wf(),
        ensures
            r == self.translate_spec(va),
    {
        if va >= self.meta.va_limit_x() {
            return Err(PagingError::AddressOutOfRange);
        }
        match lookup_rec(&self.root, &self.meta, 0, va) {
            Some((pb, fl, sz)) => {
                proof {
                    assert(pb <= 0x0000_ffff_ffff_f000u64 && (va & ((sz - 1) as u64)) <= ((sz
                        - 1) as u64)) by (bit_vector)
                        requires
                            pb == (pb & 0x0000_ffff_ffff_f000u64),
                    ;
                }
                Ok((pb + (va & (sz - 1)), fl, sz))
            },
            None => Err(PagingError::NotMapped),
        }
    }
}

/// A walk can never be missing a negative number of frames.
proof fn lemma_missing_nonneg(f: Frame, g: PagingMetaData, l: int, tl: int, va: u64)
    ensures
        f.missing_frames(g, l, tl, va) >= 0,
    decreases g.levels - l,
{
    if l < 0 || l >= g.levels || l >= tl {
    } else {
        match f.children@[g.index_of(l, va) as int] {
            Some(c) => {
                lemma_missing_nonneg(*c, g, l + 1, tl, va);
            },
            None => {},
        }
    }
}

/// Two frames that agree on the slot `va2` selects at level `l` resolve
/// `va2` identically.
proof fn lemma_lookup_same_slot(f1: Frame, f2: Frame, g: PagingMetaData, l: int, va2: u64)
    requires
        0 <= l < g.levels,
        f1.entries@[g.index_of(l, va2) as int] == f2.entries@[g.index_of(l, va2) as int],
        f1.children@[g.index_of(l, va2) as int] == f2.children@[g.index_of(l, va2) as int],
    ensures
        f1.node_lookup(g, l, va2) == f2.node_lookup(g, l, va2),
{
}

/// Builds the mapping: descends to the target level, allocating missing
/// intermediate frames on the way, and installs the leaf.  On any
/// failure the subtree and the allocator's live count are left as they
/// were - a partially built chain is torn back down, so a failed call
/// never leaves empty intermediate frames behind.
#[verifier::rlimit(100)]
#[verifier::spinoff_prover]
fn map_rec(
    f: &mut Frame,
    g: &PagingMetaData,
    l: u64,
    tl: u64,
    va: u64,
    pa: u64,
    fl: u64,
    fa: &mut FrameAlloc,
) -> (r: Result<(), PagingError>)
    requires
        g.wf(),
        old(fa).wf(),
        l <= tl < g.levels,
        old(f).wf_node(*g, l as int),
        flags_ok(fl),
        pa & 0xfff == 0,
        pa < 0x1_0000_0000_0000u64,
    ensures
        final(fa).wf(),
        final(fa).spec_cap() == old(fa).spec_cap(),
        final(f).paddr == old(f).paddr,
        final(f).wf_node(*g, l as int),
        match r {
            Ok(()) => {
                &&& forall|va2: u64|
                    g.path_eq(l as int, tl as int, va, va2) ==> final(f).node_lookup(
                        *g,
                        l as int,
                        va2,
                    ) == Some((pa, fl, g.level_size(tl as int)))
                &&& forall|va2: u64|
                    !g.path_eq(l as int, tl as int, va, va2) ==> final(f).node_lookup(
                        *g,
                        l as int,
                        va2,
                    ) == old(f).node_lookup(*g, l as int, va2)
                &&& !final(f).all_empty()
                &&& !old(f).map_blocked(*g, l as int, tl as int, va)
                &&& old(f).missing_frames(*g, l as int, tl as int, va) <= old(fa).spec_cap()
                    - old(fa).spec_live()
                &&& final(fa).spec_live() == old(fa).spec_live() + old(f).missing_frames(
                    *g,
                    l as int,
                    tl as int,
                    va,
                )
            },
            Err(e) => {
                &&& final(f).entries@ =~= old(f).entries@
                &&& forall|va2: u64|
                    final(f).node_lookup(*g, l as int, va2) == old(f).node_lookup(
                        *g,
                        l as int,
                        va2,
                    )
                &&& final(fa).spec_live() == old(fa).spec_live()
                &&& (e == PagingError::AlreadyMapped <==> old(f).map_blocked(
                    *g,
                    l as int,
                    tl as int,
                    va,
                ))
                &&& (e == PagingError::AlreadyMapped || e == PagingError::OutOfMemory)
                &&& (e == PagingError::OutOfMemory ==> old(f).missing_frames(
                    *g,
                    l as int,
                    tl as int,
                    va,
                ) > old(fa).spec_cap() - old(fa).spec_live())
            },
        },
    decreases g.levels - l,
{
    let ghost f0 = *f;
    let i = g.index_of_x(l, va);
    let iu = i as usize;
    proof {
        assert(f.entries@[i as int] == f.entries@[i as int]);
        assert(f.slot_wf(*g, l as int, i as int));
    }
    let e = f.entries[iu];
    if l == tl {
        if e != 0 {
            return Err(PagingError::AlreadyMapped);
        }
        let huge = l + 1 < g.levels;
        let ne = make_page_pte(pa, fl, huge);
        f.entries.set(iu, ne);
        proof {
            lemma_page_pte_fields(pa, fl, huge);
            assert(!pte_is_leaf(0u64)) by (bit_vector);
            assert(!pte_is_table(spec_page_pte(pa, fl, huge))) by {
                assert(pte_is_leaf(spec_page_pte(pa, fl, huge)));
                assert(forall|x: u64| x & 1 != 0 ==> !(x != 0 && x & 1 == 0));
            }
            assert(f.entries@ =~= f0.entries@.update(i as int, spec_page_pte(pa, fl, huge)));
            assert(f.children@ == f0.children@);
            assert(f0.slot_wf(*g, l as int, i as int));
            assert(f0.children@[i as int] is None);
            assert(!f.all_empty()) by {
                assert(f.entries@[i as int] != 0);
            }
            assert forall|va2: u64| g.path_eq(l as int, tl as int, va, va2) implies f.node_lookup(
                *g,
                l as int,
                va2,
            ) == Some((pa, fl, g.level_size(tl as int))) by {
                crate::meta::lemma_path_eq_split(*g, l as int, tl as int, va, va2);
                assert(g.index_of(l as int, va2) == i);
            }
            assert forall|va2: u64| !g.path_eq(l as int, tl as int, va, va2) implies f.node_lookup(
                *g,
                l as int,
                va2,
            ) == f0.node_lookup(*g, l as int, va2) by {
                crate::meta::lemma_path_eq_split(*g, l as int, tl as int, va, va2);
                assert(g.index_of(l as int, va2) != i);
                crate::meta::lemma_index_bound(*g, l as int, va2);
                lemma_lookup_same_slot(*f, f0, *g, l as int, va2);
            }
            fa.lemma_live_le_cap();
            assert(f.entries@.len() == 512);
            assert(f.children@.len() == 512);
        }
        return Ok(());
    }
    if e & 1 != 0 {
        // a leaf (base or huge) already covers this range
        return Err(PagingError::AlreadyMapped);
    }
    if e != 0 {
        // an intermediate entry: descend into the owned child
        let copt = f.children.remove(iu);
        let ghost ch0 = f.children@;
        match copt {
            Some(mut c) => {
                let r = map_rec(&mut *c, g, l + 1, tl, va, pa, fl, fa);
                f.children.insert(iu, Some(c));
                proof {
                    assert(f.children@ =~= f0.children@.update(i as int, Some(c)));
                    assert(f.entries@ =~= f0.entries@);
                    let cpre = f0.children@[i as int]->Some_0;
                    assert forall|i2: int| 0 <= i2 < 512 implies f.slot_wf(*g, l as int, i2) by {
                        assert(f0.entries@[i2] == f0.entries@[i2]);
                        assert(f0.slot_wf(*g, l as int, i2));
                        if i2 == i as int {
                            if r is Err {
                                assert(!cpre.all_empty());
                                let j = choose|j: int| 0 <= j < 512 && cpre.entries@[j] != 0;
                                assert(c.entries@[j] != 0);
                            }
                        }
                    }
                    if r is Ok {
                        assert forall|va2: u64|
                            g.path_eq(l as int, tl as int, va, va2) implies f.node_lookup(
                            *g,
                            l as int,
                            va2,
                        ) == Some((pa, fl, g.level_size(tl as int))) by {
                            crate::meta::lemma_path_eq_split(*g, l as int, tl as int, va, va2);
                            assert(g.index_of(l as int, va2) == i);
                            assert(f.children@[g.index_of(l as int, va2) as int] == Some(c));
                        }
                        assert forall|va2: u64|
                            !g.path_eq(l as int, tl as int, va, va2) implies f.node_lookup(
                            *g,
                            l as int,
                            va2,
                        ) == f0.node_lookup(*g, l as int, va2) by {
                            crate::meta::lemma_path_eq_split(*g, l as int, tl as int, va, va2);
                            if g.index_of(l as int, va2) == i {
                                assert(!g.path_eq(l as int + 1, tl as int, va, va2));
                                assert(f0.children@[g.index_of(l as int, va2) as int] == Some(
                                    cpre,
                                ));
                                assert(f.children@[g.index_of(l as int, va2) as int] == Some(c));
                                assert(c.node_lookup(*g, l as int + 1, va2)
                                    == cpre.node_lookup(*g, l as int + 1, va2));
                            } else {
                                crate::meta::lemma_index_bound(*g, l as int, va2);
                                crate::meta::lemma_index_bound(*g, l as int, va2);
                lemma_lookup_same_slot(*f, f0, *g, l as int, va2);
                            }
                        }
                        assert(!f.all_empty()) by {
                            assert(f.entries@[i as int] != 0);
                        }
                    } else {
                        assert forall|va2: u64| #![auto] f.node_lookup(*g, l as int, va2)
                            == f0.node_lookup(*g, l as int, va2) by {
                            if g.index_of(l as int, va2) == i {
                                assert(f0.children@[g.index_of(l as int, va2) as int] == Some(
                                    cpre,
                                ));
                                assert(f.children@[g.index_of(l as int, va2) as int] == Some(c));
                                assert(c.node_lookup(*g, l as int + 1, va2)
                                    == cpre.node_lookup(*g, l as int + 1, va2));
                            } else {
                                crate::meta::lemma_index_bound(*g, l as int, va2);
                                crate::meta::lemma_index_bound(*g, l as int, va2);
                lemma_lookup_same_slot(*f, f0, *g, l as int, va2);
                            }
                        }
                    }
                }
                r
            },
            None => {
                proof {
                    assert(false);
                }
                Err(PagingError::NotMapped)
            },
        }
    } else {
        // empty slot: build a fresh subtree, tearing it down again if a
        // deeper allocation fails
        match fa.alloc_frame() {
            None => {
                proof {
                    assert(old(fa).spec_cap() - old(fa).spec_live() == 0);
                    assert(f.missing_frames(*g, l as int, tl as int, va) == tl - l) by {
                        assert(!pte_is_table(e));
                        assert(f.children@[i as int] is None);
                    }
                }
                Err(PagingError::OutOfMemory)
            },
            Some(p) => {
                let mut child = Frame::empty_frame(p, Ghost(*g), Ghost(l as int + 1));
                let ghost child0 = child;
                proof {
                    let li = l as int;
                    let ci = g.index_of(li + 1, va) as int;
                    crate::meta::lemma_index_bound(*g, li + 1, va);
                    assert(child0.entries@[ci] == 0);
                    assert(child0.slot_wf(*g, li + 1, ci));
                    assert(!pte_is_leaf(0u64) && !pte_is_table(0u64)) by (bit_vector);
                    assert(child0.children@[ci] is None);
                    assert(!child0.map_blocked(*g, li + 1, tl as int, va));
                    assert(child0.missing_frames(*g, li + 1, tl as int, va) == if li + 1 < tl {
                        tl - li - 1
                    } else {
                        0
                    });
                }
                let r = map_rec(&mut child, g, l + 1, tl, va, pa, fl, fa);
                match r {
                    Ok(()) => {
                        let te = make_table_pte(p);
                        f.entries.set(iu, te);
                        f.children.set(iu, Some(Box::new(child)));
                        proof {
                            assert(p % 4096 == 0 ==> p & 0xfffu64 == 0) by (bit_vector);
                            lemma_table_pte_fields(p);
                            assert forall|i2: int| 0 <= i2 < 512 implies f.slot_wf(
                                *g,
                                l as int,
                                i2,
                            ) by {
                                assert(f0.entries@[i2] == f0.entries@[i2]);
                                assert(f0.slot_wf(*g, l as int, i2));
                            }
                            assert forall|va2: u64|
                                g.path_eq(l as int, tl as int, va, va2) implies f.node_lookup(
                                *g,
                                l as int,
                                va2,
                            ) == Some((pa, fl, g.level_size(tl as int))) by {
                                crate::meta::lemma_path_eq_split(*g, l as int, tl as int, va, va2);
                                assert(g.index_of(l as int, va2) == i);
                                assert(f.children@[i as int] == Some(Box::new(child)));
                            }
                            assert forall|va2: u64|
                                !g.path_eq(l as int, tl as int, va, va2) implies f.node_lookup(
                                *g,
                                l as int,
                                va2,
                            ) == f0.node_lookup(*g, l as int, va2) by {
                                crate::meta::lemma_path_eq_split(*g, l as int, tl as int, va, va2);
                                if g.index_of(l as int, va2) == i {
                                    assert(!g.path_eq(l as int + 1, tl as int, va, va2));
                                    assert(f0.children@[i as int] is None);
                                    assert(f0.node_lookup(*g, l as int, va2) is None);
                                } else {
                                    crate::meta::lemma_index_bound(*g, l as int, va2);
                                crate::meta::lemma_index_bound(*g, l as int, va2);
                lemma_lookup_same_slot(*f, f0, *g, l as int, va2);
                                }
                            }
                            assert(!f.all_empty()) by {
                                assert(f.entries@[i as int] != 0);
                            }
                            assert(f0.missing_frames(*g, l as int, tl as int, va) == tl - l) by {
                                assert(f0.children@[i as int] is None);
                            }
                        }
                        Ok(())
                    },
                    Err(er) => {
                        fa.dealloc_frame(p);
                        proof {
                            assert(f.entries@ =~= f0.entries@);
                            assert(er == PagingError::OutOfMemory);
                            assert(f0.children@[i as int] is None);
                            assert(f0.missing_frames(*g, l as int, tl as int, va) == tl - l);
                            assert(!f0.map_blocked(*g, l as int, tl as int, va));
                        }
                        Err(er)
                    },
                }
            },
        }
    }
}

/// A mapping anywhere on the shared part of the walk path blocks a new
/// installation: whatever level the existing leaf or the shared table
/// entry stands at, the walk towards the target level meets a non-empty
/// entry.
proof fn lemma_lookup_blocks(f: Frame, g: PagingMetaData, l: int, tl: int, va: u64, va2: u64)
    requires
        g.wf(),
        f.wf_node(g, l),
        0 <= l <= tl < g.levels,
        g.path_eq(l, tl, va, va2),
        f.node_lookup(g, l, va2) is Some,
    ensures
        f.map_blocked(g, l, tl, va),
    decreases g.levels - l,
{
    crate::meta::lemma_index_bound(g, l, va2);
    crate::meta::lemma_path_eq_split(g, l, tl, va, va2);
    let i = g.index_of(l, va2) as int;
    assert(f.entries@[i] == f.entries@[i]);
    assert(f.slot_wf(g, l, i));
    let e = f.entries@[i];
    assert(!pte_is_leaf(0u64)) by (bit_vector);
    if pte_is_leaf(e) && (l + 1 == g.levels || pte_is_huge(e)) {
        assert(e != 0);
    } else {
        assert(f.children@[i] is Some);
        let c = f.children@[i]->Some_0;
        assert(e != 0);
        if l < tl {
            lemma_lookup_blocks(*c, g, l + 1, tl, va, va2);
        }
    }
}

/// Every size a walk can report is one level's page size: at least the
/// base page, at most the widest level.
proof fn lemma_node_lookup_size(f: Frame, g: PagingMetaData, l: int, va: u64)
    requires
        g.wf(),
    ensures
        (match f.node_lookup(g, l, va) {
            Some((pb, fl, sz)) => 4096 <= sz <= 0x1_0000_0000_0000u64,
            None => true,
        }),
    decreases g.levels - l,
{
    if 0 <= l < g.levels {
        let sh = g.level_shift(l);
        assert(12 <= sh <= 48) by {
            assert(0 <= 9 * (g.levels - 1 - l) <= 9 * 4);
        }
        assert(4096 <= (1u64 << sh) <= 0x1_0000_0000_0000u64) by (bit_vector)
            requires
                12 <= sh <= 48,
        ;
        match f.children@[g.index_of(l, va) as int] {
            Some(c) => {
                lemma_node_lookup_size(*c, g, l + 1, va);
            },
            None => {},
        }
    }
}

impl PageTable64 {
    /// A well-formed table walks a well-formed geometry.
    pub proof fn lemma_wf_meta(self)
        requires
            self.wf(),
        ensures
            self.spec_meta().wf(),
    {
    }

    /// Whatever the walk resolves covers at least one base page and at
    /// most the widest level's span.
    pub proof fn lemma_lookup_bounds(self, va: u64)
        requires
            self.wf(),
            self.lookup(va) is Some,
        ensures
            4096 <= self.lookup(va)->Some_0.2 <= 0x1_0000_0000_0000u64,
    {
        lemma_node_lookup_size(self.root, self.meta, 0, va);
    }

    /// No owned intermediate frame of this table is drained: once the
    /// last entry under a frame is removed, the frame itself is
    /// released and its parent's entry cleared.
    pub closed spec fn no_dangling_frames(self) -> bool {
        self.root.no_empty_rec(self.meta, 0)
    }

    /// Eager pruning, as an invariant: a well-formed table never
    /// retains a frame with no entries under it, so unmapping every
    /// leaf below an intermediate frame has released that frame.
    pub proof fn lemma_eager_pruning(self)
        requires
            self.wf(),
        ensures
            self.no_dangling_frames(),
    {
        lemma_no_empty_rec(self.root, self.meta, 0);
    }

    /// The no-implicit-overwrite rule, seen from outside: if any address
    /// of the requested range is already covered by a mapping, a `map`
    /// of that range fails with the overwrite error, and by
    /// [`Self::map`]'s contract it mutates nothing.
    pub proof fn lemma_overlap_already_mapped(
        self,
        va: u64,
        pa: u64,
        flags: u64,
        size: u64,
        va2: u64,
    )
        requires
            self.wf(),
            self.spec_meta().size_ok(size),
            va % size == 0,
            pa % size == 0,
            va < self.spec_meta().va_limit(),
            pa < self.spec_meta().pa_limit(),
            va <= va2 < va + size,
            self.lookup(va2) is Some,
        ensures
            self.map_result_spec(va, pa, flags, size) == Some(PagingError::AlreadyMapped),
    {
        let g = self.meta;
        let tl = g.size_level(size);
        let st = g.level_shift(tl);
        assert(st == 12 || st == 21 || st == 30) by {
            assert(g.level_shift(g.levels - 1) == 12);
            assert(g.level_shift(g.levels - 2) == 21);
            assert(g.level_shift(g.levels - 3) == 30);
        }
        assert(size == 1u64 << st) by {
            assert(1u64 << 12u64 == 0x1000 && 1u64 << 21u64 == 0x20_0000 && 1u64 << 30u64
                == 0x4000_0000) by (bit_vector);
        }
        assert(va & low_mask(st) == 0) by (bit_vector)
            requires
                va % size == 0,
                size == 1u64 << st,
                st == 12 || st == 21 || st == 30,
        ;
        let off = (va2 - va) as u64;
        crate::meta::lemma_region_offsets(g, tl, va, off);
        crate::meta::lemma_path_eq_region(g, tl, va, va2);
        lemma_lookup_blocks(self.root, g, 0, tl, va, va2);
    }
}

impl Frame {
    /// No owned frame anywhere below is drained: eager pruning has
    /// reclaimed every intermediate frame whose entries were all
    /// removed.
    pub(crate) open spec fn no_empty_rec(self, g: PagingMetaData, l: int) -> bool
        decreases g.levels - l, 1int,
    {
        forall|i: int|
            #![trigger self.children@[i]]
            0 <= i < 512 ==> self.child_live(g, l, i)
    }

    /// The frame behind slot `i`, if owned, still holds an entry, and so
    /// on below it.
    pub(crate) open spec fn child_live(self, g: PagingMetaData, l: int, i: int) -> bool
        decreases g.levels - l, 0int,
    {
        match self.children@[i] {
            Some(c) => !c.all_empty() && (g.levels - l >= 1 && c.no_empty_rec(g, l + 1)),
            None => true,
        }
    }
}

/// Well-formedness already forbids dangling frames: every owned child
/// frame still carries an entry.
proof fn lemma_no_empty_rec(f: Frame, g: PagingMetaData, l: int)
    requires
        f.wf_node(g, l),
    ensures
        f.no_empty_rec(g, l),
    decreases g.levels - l,
{
    assert forall|i: int| #![trigger f.children@[i]] 0 <= i < 512 implies f.child_live(
        g,
        l,
        i,
    ) by {
        assert(f.entries@[i] == f.entries@[i]);
        assert(f.slot_wf(g, l, i));
        match f.children@[i] {
            Some(c) => {
                lemma_no_empty_rec(*c, g, l + 1);
            },
            None => {},
        }
    }
}

/// An all-empty, well-formed frame resolves nothing.
proof fn lemma_empty_lookup(f: Frame, g: PagingMetaData, l: int, va: u64)
    requires
        f.wf_node(g, l),
        f.all_empty(),
    ensures
        f.node_lookup(g, l, va) is None,
{
    if 0 <= l < g.levels {
        crate::meta::lemma_index_bound(g, l, va);
        assert(f.entries@[g.index_of(l, va) as int] == 0);
        assert(f.slot_wf(g, l, g.index_of(l, va) as int));
        assert(!pte_is_leaf(0u64) && !pte_is_table(0u64)) by (bit_vector);
        assert(f.children@[g.index_of(l, va) as int] is None);
    }
}

/// Scans one frame for any remaining entry.
fn frame_is_empty(f: &Frame) -> (b: bool)
    requires
        f.entries@.len() == 512,
    ensures
        b == f.all_empty(),
{
    let mut k: usize = 0;
    while k < 512
        invariant
            f.entries@.len() == 512,
            k <= 512,
            forall|j: int| 0 <= j < k ==> f.entries@[j] == 0,
        decreases 512 - k,
    {
        if f.entries[k] != 0 {
            return false;
        }
        k = k + 1;
    }
    true
}

/// Removes the mapping covering `va` in the subtree at level `l`,
/// pruning every intermediate frame the removal leaves empty.  Returns
/// the removed mapping, the level it was found at, and whether this
/// frame itself is now entirely empty (so the caller prunes it in turn).
#[verifier::rlimit(100)]
#[verifier::spinoff_prover]
fn unmap_rec(f: &mut Frame, g: &PagingMetaData, l: u64, va: u64, fa: &mut FrameAlloc) -> (r: (
    Result<(u64, u64, u64), PagingError>,
    Ghost<int>,
    bool,
))
    requires
        g.wf(),
        old(fa).wf(),
        l < g.levels,
        old(f).wf_node(*g, l as int),
    ensures
        final(fa).wf(),
        final(fa).spec_cap() == old(fa).spec_cap(),
        final(fa).spec_live() <= old(fa).spec_live(),
        final(f).paddr == old(f).paddr,
        final(f).wf_node(*g, l as int),
        r.2 == final(f).all_empty(),
        match r.0 {
            Ok((pb, fl, sz)) => {
                &&& l <= r.1@ < g.levels
                &&& sz == g.level_size(r.1@)
                &&& old(f).node_lookup(*g, l as int, va) == Some((pb, fl, sz))
                &&& forall|va2: u64|
                    g.path_eq(l as int, r.1@, va, va2) ==> final(f).node_lookup(
                        *g,
                        l as int,
                        va2,
                    ) is None
                &&& forall|va2: u64|
                    !g.path_eq(l as int, r.1@, va, va2) ==> final(f).node_lookup(
                        *g,
                        l as int,
                        va2,
                    ) == old(f).node_lookup(*g, l as int, va2)
            },
            Err(e) => {
                &&& e == PagingError::NotMapped
                &&& old(f).node_lookup(*g, l as int, va) is None
                &&& final(f).entries@ =~= old(f).entries@
                &&& forall|va2: u64|
                    final(f).node_lookup(*g, l as int, va2) == old(f).node_lookup(
                        *g,
                        l as int,
                        va2,
                    )
                &&& final(fa).spec_live() == old(fa).spec_live()
            },
        },
    decreases g.levels - l,
{
    let ghost f0 = *f;
    let i = g.index_of_x(l, va);
    let iu = i as usize;
    proof {
        assert(f.entries@[i as int] == f.entries@[i as int]);
        assert(f.slot_wf(*g, l as int, i as int));
        assert(!pte_is_leaf(0u64) && !pte_is_table(0u64)) by (bit_vector);
    }
    let e = f.entries[iu];
    if e & 1 != 0 && (l + 1 == g.levels || e & 0x40 != 0) {
        // the mapping to remove terminates here
        let pb = read_pte_paddr(e);
        let fl = read_pte_flags(e);
        let sh = g.level_shift_x(l);
        let sz = 1u64 << sh;
        f.entries.set(iu, 0);
        proof {
            assert(sz == g.level_size(l as int));
            assert(f0.node_lookup(*g, l as int, va) == Some((pb, fl, sz)));
            assert(f.entries@ =~= f0.entries@.update(i as int, 0u64));
            assert(f.children@ == f0.children@);
            assert(f0.children@[i as int] is None);
            assert forall|va2: u64|
                g.path_eq(l as int, l as int, va, va2) implies f.node_lookup(
                *g,
                l as int,
                va2,
            ) is None by {
                crate::meta::lemma_path_eq_split(*g, l as int, l as int, va, va2);
                assert(g.index_of(l as int, va2) == i);
            }
            assert forall|va2: u64|
                !g.path_eq(l as int, l as int, va, va2) implies f.node_lookup(*g, l as int, va2)
                == f0.node_lookup(*g, l as int, va2) by {
                crate::meta::lemma_path_eq_split(*g, l as int, l as int, va, va2);
                assert(g.index_of(l as int, va2) != i);
                crate::meta::lemma_index_bound(*g, l as int, va2);
                lemma_lookup_same_slot(*f, f0, *g, l as int, va2);
            }
            assert(f0.slot_wf(*g, l as int, i as int));
            assert(f.entries@.len() == 512);
            assert(f.children@.len() == 512);
            assert(f.wf_node(*g, l as int));
        }
        let emp = frame_is_empty(f);
        return (Ok((pb, fl, sz)), Ghost(l as int), emp);
    }
    if l + 1 < g.levels && e != 0 {
        // intermediate entry: remove below, then prune if drained
        let copt = f.children.remove(iu);
        match copt {
            Some(mut c) => {
                let (rr, lv, child_empty) = unmap_rec(&mut *c, g, l + 1, va, fa);
                let ghost cpre = f0.children@[i as int]->Some_0;
                if rr.is_ok() && child_empty {
                    let cp = c.paddr;
                    fa.dealloc_frame(cp);
                    f.children.insert(iu, None);
                    f.entries.set(iu, 0);
                    proof {
                        assert(f.children@ =~= f0.children@.update(i as int, None));
                        assert(f.entries@ =~= f0.entries@.update(i as int, 0u64));
                        assert forall|va2: u64|
                            g.path_eq(l as int, lv@, va, va2) implies f.node_lookup(
                            *g,
                            l as int,
                            va2,
                        ) is None by {
                            crate::meta::lemma_path_eq_split(*g, l as int, lv@, va, va2);
                            assert(g.index_of(l as int, va2) == i);
                        }
                        assert forall|va2: u64|
                            !g.path_eq(l as int, lv@, va, va2) implies f.node_lookup(
                            *g,
                            l as int,
                            va2,
                        ) == f0.node_lookup(*g, l as int, va2) by {
                            crate::meta::lemma_path_eq_split(*g, l as int, lv@, va, va2);
                            crate::meta::lemma_index_bound(*g, l as int, va2);
                            if g.index_of(l as int, va2) == i {
                                assert(!g.path_eq(l as int + 1, lv@, va, va2));
                                assert(f0.children@[i as int] == Some(cpre));
                                assert(c.node_lookup(*g, l as int + 1, va2)
                                    == cpre.node_lookup(*g, l as int + 1, va2));
                                lemma_empty_lookup(*c, *g, l as int + 1, va2);
                            } else {
                                lemma_lookup_same_slot(*f, f0, *g, l as int, va2);
                            }
                        }
                    }
                    let emp = frame_is_empty(f);
                    (rr, lv, emp)
                } else {
                    f.children.insert(iu, Some(c));
                    proof {
                        assert(f.children@ =~= f0.children@.update(i as int, Some(c)));
                        assert(f.entries@ =~= f0.entries@);
                        assert forall|i2: int| 0 <= i2 < 512 implies f.slot_wf(
                            *g,
                            l as int,
                            i2,
                        ) by {
                            assert(f0.entries@[i2] == f0.entries@[i2]);
                            assert(f0.slot_wf(*g, l as int, i2));
                            if i2 == i as int && rr is Err {
                                assert(!cpre.all_empty());
                                let j = choose|j: int| 0 <= j < 512 && cpre.entries@[j] != 0;
                                assert(c.entries@[j] != 0);
                            }
                        }
                        if rr is Ok {
                            assert forall|va2: u64|
                                g.path_eq(l as int, lv@, va, va2) implies f.node_lookup(
                                *g,
                                l as int,
                                va2,
                            ) is None by {
                                crate::meta::lemma_path_eq_split(*g, l as int, lv@, va, va2);
                                assert(g.index_of(l as int, va2) == i);
                                assert(f.children@[i as int] == Some(c));
                            }
                            assert forall|va2: u64|
                                !g.path_eq(l as int, lv@, va, va2) implies f.node_lookup(
                                *g,
                                l as int,
                                va2,
                            ) == f0.node_lookup(*g, l as int, va2) by {
                                crate::meta::lemma_path_eq_split(*g, l as int, lv@, va, va2);
                                crate::meta::lemma_index_bound(*g, l as int, va2);
                                if g.index_of(l as int, va2) == i {
                                    assert(!g.path_eq(l as int + 1, lv@, va, va2));
                                    assert(f0.children@[i as int] == Some(cpre));
                                    assert(f.children@[i as int] == Some(c));
                                    assert(c.node_lookup(*g, l as int + 1, va2)
                                        == cpre.node_lookup(*g, l as int + 1, va2));
                                } else {
                                    lemma_lookup_same_slot(*f, f0, *g, l as int, va2);
                                }
                            }
                        } else {
                            assert forall|va2: u64| #![auto] f.node_lookup(*g, l as int, va2)
                                == f0.node_lookup(*g, l as int, va2) by {
                                crate::meta::lemma_index_bound(*g, l as int, va2);
                                if g.index_of(l as int, va2) == i {
                                    assert(f0.children@[i as int] == Some(cpre));
                                    assert(f.children@[i as int] == Some(c));
                                    assert(c.node_lookup(*g, l as int + 1, va2)
                                        == cpre.node_lookup(*g, l as int + 1, va2));
                                } else {
                                    lemma_lookup_same_slot(*f, f0, *g, l as int, va2);
                                }
                            }
                        }
                        assert(!f.all_empty()) by {
                            assert(f.entries@[i as int] != 0);
                        }
                    }
                    (rr, lv, false)
                }
            },
            None => {
                proof {
                    assert(false);
                }
                (Err(PagingError::NotMapped), Ghost(0int), false)
            },
        }
    } else {
        // empty on the path, or an empty final-level slot: nothing mapped
        proof {
            assert(f0.node_lookup(*g, l as int, va) is None);
        }
        let emp = frame_is_empty(f);
        (Err(PagingError::NotMapped), Ghost(0int), emp)
    }
}

/// Rewrites the flags of the mapping covering `va`, keeping its
/// physical base and size.
#[verifier::rlimit(100)]
#[verifier::spinoff_prover]
fn update_rec(f: &mut Frame, g: &PagingMetaData, l: u64, va: u64, fl: u64) -> (r: (
    Result<(), PagingError>,
    Ghost<int>,
))
    requires
        g.wf(),
        l < g.levels,
        old(f).wf_node(*g, l as int),
        flags_ok(fl),
    ensures
        final(f).paddr == old(f).paddr,
        final(f).wf_node(*g, l as int),
        !final(f).all_empty() == !old(f).all_empty(),
        match r.0 {
            Ok(()) => {
                &&& l <= r.1@ < g.levels
                &&& (match old(f).node_lookup(*g, l as int, va) {
                    Some((pb, fl0, sz)) => {
                        &&& sz == g.level_size(r.1@)
                        &&& (forall|va2: u64|
                            g.path_eq(l as int, r.1@, va, va2) ==> final(f).node_lookup(
                                *g,
                                l as int,
                                va2,
                            ) == Some((pb, fl, sz)))
                        &&& (forall|va2: u64|
                            !g.path_eq(l as int, r.1@, va, va2) ==> final(f).node_lookup(
                                *g,
                                l as int,
                                va2,
                            ) == old(f).node_lookup(*g, l as int, va2))
                    },
                    None => false,
                })
            },
            Err(e) => {
                &&& e == PagingError::NotMapped
                &&& old(f).node_lookup(*g, l as int, va) is None
                &&& forall|va2: u64|
                    final(f).node_lookup(*g, l as int, va2) == old(f).node_lookup(
                        *g,
                        l as int,
                        va2,
                    )
            },
        },
    decreases g.levels - l,
{
    let ghost f0 = *f;
    let i = g.index_of_x(l, va);
    let iu = i as usize;
    proof {
        assert(f.entries@[i as int] == f.entries@[i as int]);
        assert(f.slot_wf(*g, l as int, i as int));
        assert(!pte_is_leaf(0u64) && !pte_is_table(0u64)) by (bit_vector);
    }
    let e = f.entries[iu];
    if e & 1 != 0 && (l + 1 == g.levels || e & 0x40 != 0) {
        let huge = l + 1 < g.levels;
        let ne = rewrite_pte_flags(e, fl, huge);
        f.entries.set(iu, ne);
        proof {
            lemma_with_flags_fields(e, fl, huge);
            assert(f.entries@ =~= f0.entries@.update(i as int, spec_with_flags(e, fl, huge)));
            assert(f.children@ == f0.children@);
            assert(f0.children@[i as int] is None);
            assert(!pte_is_table(spec_with_flags(e, fl, huge))) by {
                assert(pte_is_leaf(spec_with_flags(e, fl, huge)));
            }
            assert forall|va2: u64|
                g.path_eq(l as int, l as int, va, va2) implies f.node_lookup(*g, l as int, va2)
                == Some((pte_paddr(e), fl, g.level_size(l as int))) by {
                crate::meta::lemma_path_eq_split(*g, l as int, l as int, va, va2);
                assert(g.index_of(l as int, va2) == i);
            }
            assert forall|va2: u64|
                !g.path_eq(l as int, l as int, va, va2) implies f.node_lookup(*g, l as int, va2)
                == f0.node_lookup(*g, l as int, va2) by {
                crate::meta::lemma_path_eq_split(*g, l as int, l as int, va, va2);
                assert(g.index_of(l as int, va2) != i);
                crate::meta::lemma_index_bound(*g, l as int, va2);
                lemma_lookup_same_slot(*f, f0, *g, l as int, va2);
            }
            assert(!f.all_empty()) by {
                assert(f.entries@[i as int] != 0);
            }
            assert(!f0.all_empty()) by {
                assert(f0.entries@[i as int] != 0);
            }
            assert(f0.slot_wf(*g, l as int, i as int));
            assert(f.entries@.len() == 512);
            assert(f.children@.len() == 512);
            assert(f.wf_node(*g, l as int));
        }
        (Ok(()), Ghost(l as int))
    } else if l + 1 < g.levels && e != 0 {
        let copt = f.children.remove(iu);
        match copt {
            Some(mut c) => {
                let (rr, lv) = update_rec(&mut *c, g, l + 1, va, fl);
                f.children.insert(iu, Some(c));
                proof {
                    let cpre = f0.children@[i as int]->Some_0;
                    assert(f.children@ =~= f0.children@.update(i as int, Some(c)));
                    assert(f.entries@ =~= f0.entries@);
                    assert forall|i2: int| 0 <= i2 < 512 implies f.slot_wf(*g, l as int, i2) by {
                        assert(f0.entries@[i2] == f0.entries@[i2]);
                        assert(f0.slot_wf(*g, l as int, i2));
                        if i2 == i as int {
                            assert(!cpre.all_empty());
                            assert(!c.all_empty());
                        }
                    }
                    assert forall|va2: u64| #![auto] g.index_of(l as int, va2) == i implies
                        f.node_lookup(*g, l as int, va2) == c.node_lookup(*g, l as int + 1, va2)
                        && f0.node_lookup(*g, l as int, va2) == cpre.node_lookup(
                        *g,
                        l as int + 1,
                        va2,
                    ) by {
                        crate::meta::lemma_index_bound(*g, l as int, va2);
                        assert(f.children@[i as int] == Some(c));
                        assert(f0.children@[i as int] == Some(cpre));
                    }
                    assert forall|va2: u64| #![auto] g.index_of(l as int, va2) != i implies
                        f.node_lookup(*g, l as int, va2) == f0.node_lookup(
                        *g,
                        l as int,
                        va2,
                    ) by {
                        crate::meta::lemma_index_bound(*g, l as int, va2);
                        lemma_lookup_same_slot(*f, f0, *g, l as int, va2);
                    }
                    if rr is Ok {
                        assert forall|va2: u64|
                            g.path_eq(l as int, lv@, va, va2) || !g.path_eq(
                                l as int,
                                lv@,
                                va,
                                va2,
                            ) implies true by {}
                        assert forall|va2: u64| #![auto] g.path_eq(l as int, lv@, va, va2)
                            == (g.index_of(l as int, va2) == i && g.path_eq(
                            l as int + 1,
                            lv@,
                            va,
                            va2,
                        )) by {
                            crate::meta::lemma_path_eq_split(*g, l as int, lv@, va, va2);
                        }
                    }
                    assert(!f.all_empty()) by {
                        assert(f.entries@[i as int] != 0);
                    }
                    assert(!f0.all_empty()) by {
                        assert(f0.entries@[i as int] != 0);
                    }
                }
                (rr, lv)
            },
            None => {
                proof {
                    assert(false);
                }
                (Err(PagingError::NotMapped), Ghost(0int))
            },
        }
    } else {
        proof {
            assert(f0.node_lookup(*g, l as int, va) is None);
        }
        (Err(PagingError::NotMapped), Ghost(0int))
    }
}

/// Frees every child frame in the subtree and zeroes this frame's
/// entries.
#[verifier::rlimit(100)]
#[verifier::spinoff_prover]
fn clear_rec(f: &mut Frame, g: &PagingMetaData, l: u64, fa: &mut FrameAlloc)
    requires
        g.wf(),
        old(fa).wf(),
        l < g.levels,
        old(f).wf_node(*g, l as int),
    ensures
        final(fa).wf(),
        final(fa).spec_cap() == old(fa).spec_cap(),
        final(fa).spec_live() <= old(fa).spec_live(),
        final(f).paddr == old(f).paddr,
        final(f).wf_node(*g, l as int),
        final(f).all_empty(),
    decreases g.levels - l,
{
    let ghost f0 = *f;
    let mut k: usize = 0;
    while k < 512
        invariant
            g.wf(),
            fa.wf(),
            fa.spec_cap() == old(fa).spec_cap(),
            fa.spec_live() <= old(fa).spec_live(),
            l < g.levels,
            k <= 512,
            f.paddr == f0.paddr,
            f.entries@.len() == 512,
            f.children@.len() == 512,
            forall|j: int| 0 <= j < k ==> f.entries@[j] == 0,
            forall|j: int| 0 <= j < k ==> f.children@[j] is None,
            forall|j: int|
                k <= j < 512 ==> f.entries@[j] == f0.entries@[j] && f.children@[j]
                    == f0.children@[j],
            f0.wf_node(*g, l as int),
        decreases 512 - k,
    {
        proof {
            assert(f0.entries@[k as int] == f0.entries@[k as int]);
            assert(f0.slot_wf(*g, l as int, k as int));
        }
        let copt = f.children.remove(k);
        f.children.insert(k, None);
        match copt {
            Some(mut c) => {
                clear_rec(&mut *c, g, l + 1, fa);
                fa.dealloc_frame(c.paddr);
            },
            None => {},
        }
        f.entries.set(k, 0);
        proof {
            assert(f.children@ =~= f.children@);
        }
        k = k + 1;
    }
    proof {
        assert(!pte_is_leaf(0u64) && !pte_is_table(0u64)) by (bit_vector);
        assert forall|i2: int| 0 <= i2 < 512 implies f.slot_wf(*g, l as int, i2) by {
            assert(f.entries@[i2] == 0);
            assert(f.children@[i2] is None);
        }
    }
}

/// The read-only descent: from the frame at level `l`, resolve `va` in
/// its subtree.
fn lookup_rec(f: &Frame, g: &PagingMetaData, l: u64, va: u64) -> (r: Option<(u64, u64, u64)>)
    requires
        g.wf(),
        l < g.levels,
        f.wf_node(*g, l as int),
    ensures
        r == f.node_lookup(*g, l as int, va),
        r matches Some((pb, fl, sz)) ==> pb == pte_paddr(pb) && 1 <= sz <= 0x1_0000_0000_0000u64,
    decreases g.levels - l,
{
    let i = g.index_of_x(l, va);
    let iu = i as usize;
    proof {
        assert(f.wf_node(*g, l as int));
        assert((i as int) < 512);
        assert(f.entries@[i as int] == f.entries@[i as int]);
        assert(f.slot_wf(*g, l as int, i as int));
    }
    let e = f.entries[iu];
    if e & 1 != 0 && (l + 1 == g.levels || e & 0x40 != 0) {
        let pb = read_pte_paddr(e);
        let fl = read_pte_flags(e);
        let sh = g.level_shift_x(l);
        proof {
            let m = 0x0000_ffff_ffff_f000u64;
            assert((e & m) == ((e & m) & m)) by (bit_vector);
            assert(sh <= 48) by {
                assert(9 * (g.levels - 1 - l) <= 9 * 4);
            }
            assert(1u64 <= (1u64 << sh) && (1u64 << sh) <= 0x1_0000_0000_0000u64) by (bit_vector)
                requires
                    sh <= 48,
            ;
        }
        Some((pb, fl, 1u64 << sh))
    } else if l + 1 < g.levels {
        match &f.children[iu] {
            Some(c) => lookup_rec(c, g, l + 1, va),
            None => None,
        }
    } else {
        None
    }
}

} // verus!
