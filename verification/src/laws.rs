//! The engine's cross-operation guarantees, stated and proved against
//! the public contracts alone.

use vstd::arithmetic::div_mod::lemma_mod_bound;
use vstd::prelude::*;

use crate::meta::PagingMetaData;
use crate::table::PageTable64;
use crate::{PagingError, TlbFlush};

verus! {

/// Mapping then translating: after a successful `map` of
/// `(va, pa, flags, size)`, translating any address of the mapped
/// region - its base, or the base plus any offset below `size`, huge or
/// not - returns exactly the mapped physical address plus that offset,
/// with the mapped flags and the mapped size.
pub proof fn lemma_map_translates_region(
    pre: PageTable64,
    post: PageTable64,
    va: u64,
    pa: u64,
    flags: u64,
    size: u64,
    off: u64,
)
    requires
        pre.wf(),
        pre.map_result_spec(va, pa, flags, size) is None,
        pre.map_effect(post, va, pa, flags, size),
        post.spec_meta() == pre.spec_meta(),
        off < size,
    ensures
        post.translate_spec((va + off) as u64) == Ok::<(u64, u64, u64), PagingError>(
            (((pa + off) as u64), flags, size),
        ),
{
    let g = pre.spec_meta();
    pre.lemma_wf_meta();
    let lims = ((12 + 9 * g.levels) as u64);
    assert(39 <= lims < 64) by {
        assert(3 <= g.levels <= 5);
    }
    assert(size == 0x1000 || size == 0x20_0000 || size == 0x4000_0000);
    let va2 = (va + off) as u64;
    assert(va2 == va + off && va2 < 1u64 << lims && va2 & ((size - 1) as u64) == off) by (
    bit_vector)
        requires
            va % size == 0,
            off < size,
            va < 1u64 << lims,
            39 <= lims < 64,
            size == 0x1000 || size == 0x20_0000 || size == 0x4000_0000,
            va2 == ((va + off) as u64),
    ;
    assert(post.lookup(va2) == Some((pa, flags, size)));
    let pb = g.pa_max_bits;
    assert(pa + off <= 0x1_0000_0000_0000u64 + 0x4000_0000u64) by (bit_vector)
        requires
            pa < 1u64 << pb,
            pb <= 48,
            off < size,
            size == 0x1000 || size == 0x20_0000 || size == 0x4000_0000,
    ;
}

/// Unmapping after mapping: once the mapping covering `va` is removed,
/// translating `va` fails with the not-mapped error.
pub proof fn lemma_unmap_then_not_mapped(pre: PageTable64, post: PageTable64, va: u64)
    requires
        pre.wf(),
        pre.probe_result_spec(va) is None,
        pre.unmap_effect(post, va),
        post.spec_meta() == pre.spec_meta(),
    ensures
        post.translate_spec(va) == Err::<(u64, u64, u64), PagingError>(PagingError::NotMapped),
{
    pre.lemma_lookup_bounds(va);
    let (pb, fl, sz) = pre.lookup(va)->Some_0;
    let base = (va - (va % sz)) as u64;
    lemma_mod_bound(va as int, sz as int);
    assert(sz >= 4096);
    assert(0 <= va % sz);
    assert(va % sz < sz);
    assert(va % sz <= va) by (nonlinear_arith)
        requires
            sz >= 1,
    ;
    assert(base <= va < base + sz);
    assert(post.lookup(va) is None);
}

/// Invalidation-path selection: a successful single-address operation
/// records exactly one targeted invalidation request for that address,
/// and a full teardown records exactly one full-cache request, however
/// many mappings existed.
pub proof fn lemma_invalidation_selection(pre: PageTable64, post: PageTable64, va: u64)
    requires
        pre.wf(),
        pre.unmap_effect(post, va),
        pre.probe_result_spec(va) is None,
    ensures
        post.flush_log().len() == pre.flush_log().len() + 1,
        post.flush_log().last() == TlbFlush::Address(va),
{
    let (pb, fl, sz) = pre.lookup(va)->Some_0;
}

/// Level-index extraction partitions the translated virtual-address
/// bits across the levels with no overlap and no gap: the fields are
/// contiguous nine-bit ranges stacked from the page offset upward, and
/// two in-bounds addresses with equal indexes at every level and an
/// equal page offset are the same address.
pub proof fn lemma_index_partition(g: PagingMetaData, va1: u64, va2: u64)
    requires
        g.wf(),
        va1 < g.va_limit(),
        va2 < g.va_limit(),
    ensures
        g.level_shift(g.levels - 1) == 12,
        forall|k: int|
            0 <= k < g.levels - 1 ==> #[trigger] g.level_shift(k) == g.level_shift(k + 1) + 9,
        (g.path_eq(0, g.levels - 1, va1, va2) && va1 % 4096 == va2 % 4096) ==> va1 == va2,
{
    assert forall|k: int|
        0 <= k < g.levels - 1 implies #[trigger] g.level_shift(k) == g.level_shift(k + 1)
        + 9 by {
        assert(9 * (g.levels - 1 - k) == 9 * (g.levels - 1 - (k + 1)) + 9);
    }
    if g.path_eq(0, g.levels - 1, va1, va2) && va1 % 4096 == va2 % 4096 {
        crate::meta::lemma_path_eq_region(g, g.levels - 1, va1, va2);
        assert(va1 >> 12u64 == va2 >> 12u64 && va1 % 4096 == va2 % 4096 ==> va1 == va2) by (
        bit_vector);
    }
}

} // verus!
