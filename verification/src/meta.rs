//! Per-architecture table geometry, and the index arithmetic of the walk.
//!
//! A [`PagingMetaData`] value holds the constants that parameterize the
//! generic walker: how many levels are actually walked and how many
//! physical-address bits are significant.  Every supported architecture
//! (3-, 4- or 5-level) uses 4 KiB base pages and 512-entry directories, so
//! level `l` of an `levels`-deep walk extracts virtual-address bits
//! `[12 + 9*(levels-1-l), 12 + 9*(levels-l))`, level `0` being the root.

use vstd::prelude::*;

verus! {

/// Size in bytes of a base page, and of one table frame.
pub const PAGE_SIZE_4K: u64 = 0x1000;
/// Size in bytes of a huge page installed one level above the leaf.
pub const PAGE_SIZE_2M: u64 = 0x20_0000;
/// Size in bytes of a huge page installed two levels above the leaf.
pub const PAGE_SIZE_1G: u64 = 0x4000_0000;

/// Number of entries in one table frame.
pub const ENTRY_COUNT: u64 = 512;

/// The immutable geometry of one architecture's translation tables.
///
/// One value per architecture; never mutated after construction.
#[derive(Clone, Copy, Debug, PartialEq, Eq, Structural)]
pub struct PagingMetaData {
    /// Number of tree levels actually walked (3 to 5).
    pub levels: u64,
    /// Upper bound on significant physical-address bits.
    pub pa_max_bits: u64,
}

impl PagingMetaData {
    /// The geometry the walker accepts: a 3- to 5-level walk whose
    /// physical addresses fit the entry encoding's 48-bit address field.
    pub open spec fn wf(self) -> bool {
        &&& 3 <= self.levels <= 5
        &&& 30 <= self.pa_max_bits <= 48
    }

    /// Position of the lowest virtual-address bit consulted at level `l`.
    pub open spec fn level_shift(self, l: int) -> u64 {
        (12 + 9 * (self.levels - 1 - l)) as u64
    }

    /// Bytes covered by one entry at level `l`: the page size of a leaf
    /// installed there.
    pub open spec fn level_size(self, l: int) -> u64 {
        1u64 << self.level_shift(l)
    }

    /// The table index extracted from `va` at level `l`: a pure, total
    /// function of the address and the geometry, independent of any table
    /// contents.
    pub open spec fn index_of(self, l: int, va: u64) -> u64 {
        (va >> self.level_shift(l)) & 0x1ff
    }

    /// One past the highest virtual address the walk can translate: the
    /// active levels consult bits `[12, 12 + 9*levels)`.
    pub open spec fn va_limit(self) -> u64 {
        1u64 << ((12 + 9 * self.levels) as u64)
    }

    /// One past the highest acceptable physical address.
    pub open spec fn pa_limit(self) -> u64 {
        1u64 << self.pa_max_bits
    }

    /// Whether `size` is a supported mapping granularity: the base page,
    /// or a huge size that stops the walk at an intermediate level.
    pub open spec fn size_ok(self, size: u64) -> bool {
        size == PAGE_SIZE_4K || size == PAGE_SIZE_2M || size == PAGE_SIZE_1G
    }

    /// The level at which a leaf of `size` bytes is installed.
    pub open spec fn size_level(self, size: u64) -> int {
        if size == PAGE_SIZE_4K {
            self.levels - 1
        } else if size == PAGE_SIZE_2M {
            self.levels - 2
        } else {
            self.levels - 3
        }
    }

    /// Exec mirror of [`Self::level_shift`].
    pub fn level_shift_x(&self, l: u64) -> (r: u64)
        requires
            self.wf(),
            l < self.levels,
        ensures
            r == self.level_shift(l as int),
    {
        12 + 9 * (self.levels - 1 - l)
    }

    /// Exec mirror of [`Self::index_of`]; the result always fits a table
    /// index.
    pub fn index_of_x(&self, l: u64, va: u64) -> (r: u64)
        requires
            self.wf(),
            l < self.levels,
        ensures
            r == self.index_of(l as int, va),
            r < 512,
    {
        let sh = self.level_shift_x(l);
        let r = (va >> sh) & 0x1ff;
        proof {
            assert((va >> sh) & 0x1ff < 512) by (bit_vector);
        }
        r
    }

    /// Exec mirror of [`Self::va_limit`].
    pub fn va_limit_x(&self) -> (r: u64)
        requires
            self.wf(),
        ensures
            r == self.va_limit(),
    {
        1u64 << (12 + 9 * self.levels)
    }

    /// Exec mirror of [`Self::pa_limit`].
    pub fn pa_limit_x(&self) -> (r: u64)
        requires
            self.wf(),
        ensures
            r == self.pa_limit(),
    {
        1u64 << self.pa_max_bits
    }

    /// Two virtual addresses agree on every index from level `from` up to
    /// and including level `to`: they name the same entry slot at each of
    /// those levels.
    pub open spec fn path_eq(self, from: int, to: int, va1: u64, va2: u64) -> bool {
        forall|k: int| from <= k <= to ==> self.index_of(k, va1) == self.index_of(k, va2)
    }
}

/// Indexes agree at and above the leaf-of-`size` level exactly when the two
/// addresses lie in the same `size`-aligned region: the indexes partition
/// the virtual-address bits, so together with the in-bounds assumption they
/// determine the bits at and above the region offset.
pub proof fn lemma_path_eq_region(g: PagingMetaData, tl: int, va1: u64, va2: u64)
    requires
        g.wf(),
        0 <= tl < g.levels,
        va1 < g.va_limit(),
        va2 < g.va_limit(),
    ensures
        g.path_eq(0, tl, va1, va2) <==> va1 >> g.level_shift(tl) == va2 >> g.level_shift(tl),
{
    let st = g.level_shift(tl);
    if va1 >> st == va2 >> st {
        assert forall|k: int| 0 <= k <= tl implies g.index_of(k, va1) == g.index_of(k, va2) by {
            let sh = g.level_shift(k);
            assert(sh == st + 9 * (tl - k));
            let d = (sh - st) as u64;
            assert(sh == st + d && d < 64 && st < 64) by {
                assert(9 * (tl - k) >= 0);
                assert(9 * (g.levels - 1 - k) <= 9 * 4);
            }
            assert(va1 >> st == va2 >> st && sh == st + d && d < 64 && st < 64
                ==> (va1 >> sh) & 0x1ff == (va2 >> sh) & 0x1ff) by (bit_vector);
        }
    }
    if g.path_eq(0, tl, va1, va2) {
        lemma_path_reconstruct(g, tl, va1, va2);
    }
}

/// From the top of the address space down to level `to`, equal indexes force
/// equal high bits, nine bits at a time.
proof fn lemma_path_reconstruct(g: PagingMetaData, to: int, va1: u64, va2: u64)
    requires
        g.wf(),
        0 <= to < g.levels,
        va1 < g.va_limit(),
        va2 < g.va_limit(),
        g.path_eq(0, to, va1, va2),
    ensures
        va1 >> g.level_shift(to) == va2 >> g.level_shift(to),
    decreases to,
{
    let sh = g.level_shift(to);
    if to == 0 {
        let lim = (12 + 9 * g.levels) as u64;
        assert(g.index_of(0, va1) == g.index_of(0, va2));
        assert(va1 < 1u64 << lim && va2 < 1u64 << lim && lim == sh + 9 && sh < 64 && lim < 64
            && (va1 >> sh) & 0x1ff == (va2 >> sh) & 0x1ff
            ==> va1 >> sh == va2 >> sh) by (bit_vector);
    } else {
        lemma_path_reconstruct(g, to - 1, va1, va2);
        let sp = g.level_shift(to - 1);
        assert(g.index_of(to, va1) == g.index_of(to, va2));
        assert(va1 >> sp == va2 >> sp && sp == sh + 9 && sh < 64 && sp < 64
            && (va1 >> sh) & 0x1ff == (va2 >> sh) & 0x1ff
            ==> va1 >> sh == va2 >> sh) by (bit_vector);
    }
}

/// Agreement on levels `from..=to` is agreement at `from` plus agreement
/// on the rest of the path.
pub proof fn lemma_path_eq_split(g: PagingMetaData, from: int, to: int, va1: u64, va2: u64)
    requires
        from <= to,
    ensures
        g.path_eq(from, to, va1, va2) <==> (g.index_of(from, va1) == g.index_of(from, va2)
            && g.path_eq(from + 1, to, va1, va2)),
{
    if g.path_eq(from, to, va1, va2) {
        assert(g.index_of(from, va1) == g.index_of(from, va2));
        assert forall|k: int| from + 1 <= k <= to implies g.index_of(k, va1) == g.index_of(
            k,
            va2,
        ) by {
            assert(from <= k <= to);
        }
    }
    if g.index_of(from, va1) == g.index_of(from, va2) && g.path_eq(from + 1, to, va1, va2) {
        assert forall|k: int| from <= k <= to implies g.index_of(k, va1) == g.index_of(
            k,
            va2,
        ) by {
            if k != from {
                assert(from + 1 <= k <= to);
            }
        }
    }
}

/// Walk-path agreement with a common address carries over between two
/// addresses.
pub proof fn lemma_path_eq_trans(g: PagingMetaData, lv: int, va: u64, base: u64, va2: u64)
    requires
        g.path_eq(0, lv, va, base),
    ensures
        g.path_eq(0, lv, va, va2) <==> g.path_eq(0, lv, base, va2),
{
    if g.path_eq(0, lv, va, va2) {
        assert forall|k: int| 0 <= k <= lv implies g.index_of(k, base) == g.index_of(
            k,
            va2,
        ) by {
            assert(g.index_of(k, va) == g.index_of(k, base));
            assert(g.index_of(k, va) == g.index_of(k, va2));
        }
    }
    if g.path_eq(0, lv, base, va2) {
        assert forall|k: int| 0 <= k <= lv implies g.index_of(k, va) == g.index_of(
            k,
            va2,
        ) by {
            assert(g.index_of(k, va) == g.index_of(k, base));
            assert(g.index_of(k, base) == g.index_of(k, va2));
        }
    }
}

/// The size-aligned base of the page covering `va` at level `lv` lies
/// below `va`, is aligned to that level's size, and shares `va`'s walk
/// path down to `lv`.
#[verifier::rlimit(100)]
pub proof fn lemma_region_shape(g: PagingMetaData, lv: int, va: u64)
    requires
        g.wf(),
        0 <= lv < g.levels,
        va < g.va_limit(),
    ensures
        ({
            let sz = g.level_size(lv);
            let base = (va - (va % sz)) as u64;
            &&& base & low_mask(g.level_shift(lv)) == 0
            &&& base <= va
            &&& base < g.va_limit()
            &&& g.path_eq(0, lv, va, base)
        }),
{
    let st = g.level_shift(lv);
    let sz = g.level_size(lv);
    let base = (va - (va % sz)) as u64;
    assert(st == 12 || st == 21 || st == 30 || st == 39 || st == 48) by {
        assert(st == 12 + 9 * (g.levels - 1 - lv));
        assert(0 <= g.levels - 1 - lv <= 4);
    }
    if st == 12 {
        assert(1u64 << 12u64 == 0x1000 && low_mask(12u64) == 0xfff) by (bit_vector);
        assert(base & 0xfffu64 == 0 && base <= va && base >> 12u64 == va >> 12u64)
            by (bit_vector)
            requires
                base == ((va - (va % 0x1000u64)) as u64),
        ;
    }
    if st == 21 {
        assert(1u64 << 21u64 == 0x20_0000 && low_mask(21u64) == 0x1f_ffff) by (bit_vector);
        assert(base & 0x1f_ffffu64 == 0 && base <= va && base >> 21u64 == va >> 21u64)
            by (bit_vector)
            requires
                base == ((va - (va % 0x20_0000u64)) as u64),
        ;
    }
    if st == 30 {
        assert(1u64 << 30u64 == 0x4000_0000 && low_mask(30u64) == 0x3fff_ffff) by (bit_vector);
        assert(base & 0x3fff_ffffu64 == 0 && base <= va && base >> 30u64 == va >> 30u64)
            by (bit_vector)
            requires
                base == ((va - (va % 0x4000_0000u64)) as u64),
        ;
    }
    if st == 39 {
        assert(1u64 << 39u64 == 0x80_0000_0000 && low_mask(39u64) == 0x7f_ffff_ffff) by (bit_vector);
        assert(base & 0x7f_ffff_ffffu64 == 0 && base <= va && base >> 39u64 == va >> 39u64)
            by (bit_vector)
            requires
                base == ((va - (va % 0x80_0000_0000u64)) as u64),
        ;
    }
    if st == 48 {
        assert(1u64 << 48u64 == 0x1_0000_0000_0000 && low_mask(48u64) == 0xffff_ffff_ffff) by (bit_vector);
        assert(base & 0xffff_ffff_ffffu64 == 0 && base <= va && base >> 48u64 == va >> 48u64)
            by (bit_vector)
            requires
                base == ((va - (va % 0x1_0000_0000_0000u64)) as u64),
        ;
    }
    lemma_path_eq_region(g, lv, va, base);
}

/// An extracted index always fits a 512-entry table.
pub proof fn lemma_index_bound(g: PagingMetaData, l: int, va: u64)
    ensures
        g.index_of(l, va) < 512,
{
    let sh = g.level_shift(l);
    assert((va >> sh) & 0x1ff < 512) by (bit_vector);
}

/// The mask selecting the offset bits below position `sh`.
pub open spec fn low_mask(sh: u64) -> u64 {
    ((1u64 << sh) - 1) as u64
}

/// Within one `size`-aligned region the high bits are those of the base, so
/// every offset lands on the same walk path, and the offset is recovered by
/// masking.
pub proof fn lemma_region_offsets(g: PagingMetaData, tl: int, va: u64, off: u64)
    requires
        g.wf(),
        0 <= tl < g.levels,
        va & low_mask(g.level_shift(tl)) == 0,
        off < 1u64 << g.level_shift(tl),
        va < g.va_limit(),
    ensures
        va + off < g.va_limit(),
        ((va + off) as u64) >> g.level_shift(tl) == va >> g.level_shift(tl),
        ((va + off) as u64) & low_mask(g.level_shift(tl)) == off,
{
    let st = g.level_shift(tl);
    let lim = (12 + 9 * g.levels) as u64;
    assert(st < lim && lim < 64) by {
        assert(9 * (g.levels - 1 - tl) < 9 * g.levels);
    }
    assert(va & low_mask(st) == 0 && off < 1u64 << st && va < 1u64 << lim
        && st < lim && lim < 64
        ==> va + off < 1u64 << lim
            && ((va + off) as u64) >> st == va >> st
            && ((va + off) as u64) & low_mask(st) == off) by (bit_vector);
}

/// Conversely, two in-bounds addresses with the same high bits differ only
/// in their region offset.
pub proof fn lemma_same_region_bound(g: PagingMetaData, tl: int, va: u64, va2: u64)
    requires
        g.wf(),
        0 <= tl < g.levels,
        va & low_mask(g.level_shift(tl)) == 0,
        va2 >> g.level_shift(tl) == va >> g.level_shift(tl),
    ensures
        va <= va2 < va + (1u64 << g.level_shift(tl)),
{
    let st = g.level_shift(tl);
    assert(st <= 48) by {
        assert(9 * (g.levels - 1 - tl) <= 9 * 4);
    }
    assert(va & low_mask(st) == 0 && va2 >> st == va >> st && st <= 48
        ==> va <= va2 && va2 < va + (1u64 << st)) by (bit_vector);
}

} // verus!
