//! Concrete architecture adapters: the constants and invalidation
//! sequences that instantiate the generic walker for one processor.
//!
//! The LoongArch64 adapter is the fully specified reference.  Its
//! hardware can walk up to five levels; this adapter activates three by
//! programming the two page-walk-controller registers so that two
//! directory slots have width zero - structurally disabled, never
//! consulted - rather than assuming a fixed maximal depth.

use vstd::prelude::*;

use crate::meta::PagingMetaData;
use crate::TlbFlush;

verus! {

/// One local translation-cache invalidation sequence: a full completion
/// barrier, then one invalidate instruction with an operation code and
/// its two data operands (address-space identifier and virtual
/// address).
#[derive(Clone, Copy, Debug, PartialEq, Eq, Structural)]
pub struct InvTlbOp {
    /// A barrier completing all earlier memory accesses precedes the
    /// invalidation, and the invalidation completes before any later
    /// access.
    pub barrier: bool,
    /// The invalidate instruction's operation selector.
    pub op: u8,
    /// The address-space-identifier operand; zero selects the current
    /// one or none, depending on `op`.
    pub asid: u64,
    /// The virtual-address operand; zero when `op` filters no address.
    pub addr: u64,
}

/// Metadata of LoongArch64 page tables.
pub struct LA64MetaData;

impl LA64MetaData {
    /// Number of tree levels actually walked.  The hardware offers five;
    /// the two page-walk-controller values below disable two of them.
    pub const LEVELS: usize = 3;

    /// Upper bound on significant physical-address bits.
    pub const PA_MAX_BITS: usize = 40;

    /// Upper bound on significant virtual-address bits.  Bit 39 selects
    /// between the lower-half and higher-half tables; one table instance
    /// covers one half, so the walker bounds addresses by the 39 bits
    /// the three active levels translate.
    pub const VA_MAX_BITS: usize = 40;

    /// Page Walk Controller for the lower-half address space.
    ///
    /// | Bits  | Field     | Value |
    /// | ----- | --------- | ----- |
    /// | 4:0   | PTBase    |    12 |
    /// | 9:5   | PTWidth   |     9 |
    /// | 14:10 | Dir1Base  |    21 |
    /// | 19:15 | Dir1Width |     9 |
    /// | 24:20 | Dir2Base  |     0 |
    /// | 29:25 | Dir2Width |     0 (disabled) |
    /// | 31:30 | PTEWidth  |     0 |
    pub const PWCL_VALUE: u32 = 12 | (9 << 5) | (21 << 10) | (9 << 15);

    /// Page Walk Controller for the higher-half address space.
    ///
    /// | Bits  | Field     | Value |
    /// | ----- | --------- | ----- |
    /// | 5:0   | Dir3Base  |    30 |
    /// | 11:6  | Dir3Width |     9 |
    /// | 17:12 | Dir4Base  |     0 |
    /// | 23:18 | Dir4Width |     0 (disabled) |
    pub const PWCH_VALUE: u32 = 30 | (9 << 6);

    /// The geometry the generic walker takes for this architecture:
    /// three active levels, 40 significant physical bits.
    pub fn metadata() -> (m: PagingMetaData)
        ensures
            m == (PagingMetaData { levels: 3, pa_max_bits: 40 }),
            m.wf(),
    {
        PagingMetaData { levels: 3, pa_max_bits: 40 }
    }

    /// The local invalidation sequence for one request.  The
    /// single-address path emits a completion barrier, then the
    /// invalidate operation clearing non-global entries that match the
    /// current address-space identifier and the given address (the
    /// identifier operand stays zero: "current" is implied).  The
    /// full-flush path emits the same barrier, then the operation
    /// clearing every entry, both operands zero.  The embedding kernel
    /// executes the returned sequence on the local core.
    pub fn flush_sequence(target: TlbFlush) -> (r: InvTlbOp)
        ensures
            (match target {
                TlbFlush::Address(va) => r == (InvTlbOp {
                    barrier: true,
                    op: 0x05,
                    asid: 0,
                    addr: va,
                }),
                TlbFlush::All => r == (InvTlbOp { barrier: true, op: 0x00, asid: 0, addr: 0 }),
            }),
    {
        match target {
            TlbFlush::Address(va) => InvTlbOp { barrier: true, op: 0x05, asid: 0, addr: va },
            TlbFlush::All => InvTlbOp { barrier: true, op: 0x00, asid: 0, addr: 0 },
        }
    }
}

/// The page-walk-controller values activate exactly the three levels the
/// geometry declares, at exactly the bit positions the walker consults:
/// the page table at bit 12 with nine index bits, directory 1 at bit 21,
/// directory 3 at bit 30, and directories 2 and 4 configured with width
/// zero - structurally disabled, so a walk takes exactly three steps.
pub proof fn lemma_la64_walk_configuration()
    ensures
        LA64MetaData::PWCL_VALUE & 0x1f == 12,
        (LA64MetaData::PWCL_VALUE >> 5) & 0x1f == 9,
        (LA64MetaData::PWCL_VALUE >> 10) & 0x1f == 21,
        (LA64MetaData::PWCL_VALUE >> 15) & 0x1f == 9,
        (LA64MetaData::PWCL_VALUE >> 25) & 0x1f == 0,
        LA64MetaData::PWCH_VALUE & 0x3f == 30,
        (LA64MetaData::PWCH_VALUE >> 6) & 0x3f == 9,
        (LA64MetaData::PWCH_VALUE >> 18) & 0x3f == 0,
        ({
            let m = PagingMetaData { levels: 3, pa_max_bits: 40 };
            &&& m.level_shift(2) == 12
            &&& m.level_shift(1) == 21
            &&& m.level_shift(0) == 30
        }),
{
    assert((12u32 | (9u32 << 5) | (21u32 << 10) | (9u32 << 15)) & 0x1f == 12
        && ((12u32 | (9u32 << 5) | (21u32 << 10) | (9u32 << 15)) >> 5) & 0x1f == 9
        && ((12u32 | (9u32 << 5) | (21u32 << 10) | (9u32 << 15)) >> 10) & 0x1f == 21
        && ((12u32 | (9u32 << 5) | (21u32 << 10) | (9u32 << 15)) >> 15) & 0x1f == 9
        && ((12u32 | (9u32 << 5) | (21u32 << 10) | (9u32 << 15)) >> 25) & 0x1f == 0
        && (30u32 | (9u32 << 6)) & 0x3f == 30
        && ((30u32 | (9u32 << 6)) >> 6) & 0x3f == 9
        && ((30u32 | (9u32 << 6)) >> 18) & 0x3f == 0) by (bit_vector);
}

} // verus!
