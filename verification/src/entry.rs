//! The LoongArch64 table-entry codec: how one 64-bit entry encodes a
//! physical-address field and permission/status flags.
//!
//! Bit layout (low bits of the TLB-refill entry format): `V` (valid) bit 0,
//! `D` (dirty) bit 1, `PLVL`/`PLVH` (privilege level) bits 2-3,
//! `MATL`/`MATH` (memory access type) bits 4-5, `GH` (global/huge) bit 6,
//! `P` (present) bit 7, `W` (writable) bit 8, `NR` (not readable) bit 61,
//! `NX` (not executable) bit 62; the physical-address field occupies bits
//! 12..48.  A next-level table entry stores only the child frame's
//! physical address, so its low bits - in particular `V` - are all zero;
//! the walker tells the three entry states apart by `V` and by being
//! all-zero, and exactly one state holds of any entry it ever stores.

use vstd::prelude::*;

verus! {

/// The mapped region is readable.
pub const FLAG_READ: u64 = 1;
/// The mapped region is writable.
pub const FLAG_WRITE: u64 = 2;
/// The mapped region is executable.
pub const FLAG_EXECUTE: u64 = 4;
/// The mapped region is accessible from user privilege.
pub const FLAG_USER: u64 = 8;
/// The mapped region is device memory (strongly-ordered uncached).
pub const FLAG_DEVICE: u64 = 0x10;
/// The mapped region is weakly-ordered uncached.
pub const FLAG_UNCACHED: u64 = 0x20;

/// The physical-address field of an entry: bits 12..48.
pub const PTE_PADDR_MASK: u64 = 0x0000_ffff_ffff_f000;

/// The attribute combinations the architecture can represent faithfully:
/// at least one permission or attribute bit, no bits beyond the six
/// defined ones, and not device and uncached at once (they share the
/// two-bit memory-access-type field).
pub open spec fn flags_ok(f: u64) -> bool {
    &&& f != 0
    &&& f & !0x3fu64 == 0
    &&& !(f & FLAG_DEVICE != 0 && f & FLAG_UNCACHED != 0)
}

/// Flag bits of a leaf entry for attribute word `f`.  An empty `f` yields
/// the all-zero (absent) entry; otherwise valid and present are set,
/// write implies dirty, read and execute are stated negatively, user sets
/// both privilege bits, and the access type is device, uncached or
/// coherent-cached.
pub open spec fn encode_flags(f: u64) -> u64 {
    if f == 0 {
        0
    } else {
        0x81u64
            | (if f & FLAG_READ == 0 { 1u64 << 61 } else { 0 })
            | (if f & FLAG_WRITE != 0 { 0x102u64 } else { 0 })
            | (if f & FLAG_EXECUTE == 0 { 1u64 << 62 } else { 0 })
            | (if f & FLAG_USER != 0 { 0xcu64 } else { 0 })
            | (if f & FLAG_DEVICE != 0 {
                0u64
            } else if f & FLAG_UNCACHED != 0 {
                0x20u64
            } else {
                0x10u64
            })
    }
}

/// The attribute word read back from an entry's flag bits.
pub open spec fn decode_flags(e: u64) -> u64 {
    if e & 1 == 0 {
        0
    } else {
        (if e & (1u64 << 61) == 0 { FLAG_READ } else { 0 })
            | (if e & 0x100 != 0 { FLAG_WRITE } else { 0 })
            | (if e & (1u64 << 62) == 0 { FLAG_EXECUTE } else { 0 })
            | (if e & 0xc == 0xc { FLAG_USER } else { 0 })
            | (if e & 0x10 == 0 {
                if e & 0x20 != 0 {
                    FLAG_UNCACHED
                } else {
                    FLAG_DEVICE
                }
            } else {
                0
            })
    }
}

/// A leaf (or huge-leaf) entry: the valid bit is set.
pub open spec fn pte_is_leaf(e: u64) -> bool {
    e & 1 != 0
}

/// An intermediate entry naming a child frame: non-zero but not valid,
/// exactly what the table-entry constructor produces.
pub open spec fn pte_is_table(e: u64) -> bool {
    e != 0 && e & 1 == 0
}

/// The huge marker of a leaf entry.
pub open spec fn pte_is_huge(e: u64) -> bool {
    e & 0x40 != 0
}

/// The physical-address field.
pub open spec fn pte_paddr(e: u64) -> u64 {
    e & PTE_PADDR_MASK
}

/// An entry pointing at the next-level table frame at `p`.
pub open spec fn spec_table_pte(p: u64) -> u64 {
    p & PTE_PADDR_MASK
}

/// A leaf entry mapping `p` with attribute word `f`, huge when installed
/// above the final level.
pub open spec fn spec_page_pte(p: u64, f: u64, huge: bool) -> u64 {
    (p & PTE_PADDR_MASK) | encode_flags(f) | (if huge { 0x40u64 } else { 0u64 })
}

/// A leaf entry with the flags rewritten and the address field kept.
pub open spec fn spec_with_flags(e: u64, f: u64, huge: bool) -> u64 {
    (e & PTE_PADDR_MASK) | encode_flags(f) | (if huge { 0x40u64 } else { 0u64 })
}

/// Builds a next-level table entry.
pub fn make_table_pte(p: u64) -> (r: u64)
    ensures
        r == spec_table_pte(p),
{
    p & PTE_PADDR_MASK
}

/// Builds a leaf entry.
pub fn make_page_pte(p: u64, f: u64, huge: bool) -> (r: u64)
    ensures
        r == spec_page_pte(p, f, huge),
{
    let fl = if f == 0 {
        0
    } else {
        0x81u64
            | (if f & FLAG_READ == 0 { 1u64 << 61 } else { 0 })
            | (if f & FLAG_WRITE != 0 { 0x102u64 } else { 0 })
            | (if f & FLAG_EXECUTE == 0 { 1u64 << 62 } else { 0 })
            | (if f & FLAG_USER != 0 { 0xcu64 } else { 0 })
            | (if f & FLAG_DEVICE != 0 {
                0u64
            } else if f & FLAG_UNCACHED != 0 {
                0x20u64
            } else {
                0x10u64
            })
    };
    (p & PTE_PADDR_MASK) | fl | (if huge { 0x40u64 } else { 0u64 })
}

/// Rewrites the flags of an existing leaf entry, preserving its
/// physical-address field.
pub fn rewrite_pte_flags(e: u64, f: u64, huge: bool) -> (r: u64)
    ensures
        r == spec_with_flags(e, f, huge),
{
    let fl = make_page_pte(0, f, huge);
    proof {
        let ef = encode_flags(f);
        let hb: u64 = if huge { 0x40u64 } else { 0u64 };
        assert((e & PTE_PADDR_MASK) | ((0u64 & PTE_PADDR_MASK) | ef | hb)
            == (e & PTE_PADDR_MASK) | ef | hb) by (bit_vector);
    }
    (e & PTE_PADDR_MASK) | fl
}

/// Reads the attribute word of an entry.
pub fn read_pte_flags(e: u64) -> (r: u64)
    ensures
        r == decode_flags(e),
{
    if e & 1 == 0 {
        0
    } else {
        (if e & (1u64 << 61) == 0 { FLAG_READ } else { 0 })
            | (if e & 0x100 != 0 { FLAG_WRITE } else { 0 })
            | (if e & (1u64 << 62) == 0 { FLAG_EXECUTE } else { 0 })
            | (if e & 0xc == 0xc { FLAG_USER } else { 0 })
            | (if e & 0x10 == 0 {
                if e & 0x20 != 0 {
                    FLAG_UNCACHED
                } else {
                    FLAG_DEVICE
                }
            } else {
                0
            })
    }
}

/// Reads the physical-address field of an entry.
pub fn read_pte_paddr(e: u64) -> (r: u64)
    ensures
        r == pte_paddr(e),
{
    e & PTE_PADDR_MASK
}

/// Decoding inverts encoding on every representable attribute word.
pub proof fn lemma_flags_roundtrip(f: u64)
    by (bit_vector)
    requires
        flags_ok(f),
    ensures
        decode_flags(encode_flags(f)) == f,
{
}

/// A freshly built leaf entry is a leaf, carries exactly the requested
/// address, flags and huge marker, and is never mistaken for a table
/// entry or an empty one.
pub proof fn lemma_page_pte_fields(p: u64, f: u64, huge: bool)
    by (bit_vector)
    requires
        flags_ok(f),
        p & 0xfffu64 == 0,
        p < 0x1_0000_0000_0000u64,
    ensures
        pte_is_leaf(spec_page_pte(p, f, huge)),
        pte_paddr(spec_page_pte(p, f, huge)) == p,
        pte_is_huge(spec_page_pte(p, f, huge)) == huge,
        decode_flags(spec_page_pte(p, f, huge)) == f,
{
}

/// A freshly built table entry is a table entry carrying exactly the
/// child's address, and carries no huge marker.
pub proof fn lemma_table_pte_fields(p: u64)
    by (bit_vector)
    requires
        p & 0xfffu64 == 0,
        0 < p,
        p < 0x1_0000_0000_0000u64,
    ensures
        pte_is_table(spec_table_pte(p)),
        pte_paddr(spec_table_pte(p)) == p,
        !pte_is_huge(spec_table_pte(p)),
{
}

/// Rewriting flags keeps the address field and yields a leaf with the new
/// flags and the requested huge marker.
pub proof fn lemma_with_flags_fields(e: u64, f: u64, huge: bool)
    by (bit_vector)
    requires
        flags_ok(f),
    ensures
        pte_is_leaf(spec_with_flags(e, f, huge)),
        pte_paddr(spec_with_flags(e, f, huge)) == pte_paddr(e),
        pte_is_huge(spec_with_flags(e, f, huge)) == huge,
        decode_flags(spec_with_flags(e, f, huge)) == f,
{
}

} // verus!
