//! A hardware-independent engine for walking and mutating multi-level CPU
//! address-translation tables (page tables).
//!
//! A single generic walker descends, builds and tears down the translation
//! tree; per-architecture differences (walk depth, address-width limits,
//! translation-cache invalidation sequences) enter purely as data through
//! [`meta::PagingMetaData`].  The LoongArch64 adapter
//! [`arch::LA64MetaData`] is the fully specified reference geometry: a
//! three-level walk configured by disabling two of the five hardware
//! directory slots.
//!
//! The engine itself never touches hardware.  Translation-cache
//! invalidation requests are recorded as [`TlbFlush`] values in the order
//! the hardware must see them; the embedding kernel drains them and runs
//! the architecture's instruction sequence (for LoongArch64, the one
//! described by [`arch::LA64MetaData::flush_sequence`]).

use vstd::prelude::*;

pub mod arch;
pub mod entry;
pub mod frames;
pub mod laws;
pub mod meta;
pub mod table;

verus! {

/// The recoverable failure modes of every table operation.
#[derive(Clone, Copy, Debug, PartialEq, Eq, Structural)]
pub enum PagingError {
    /// The target address has no active mapping at the expected level.
    NotMapped,
    /// The target range already holds an entry; the caller must unmap first.
    AlreadyMapped,
    /// Frame allocation failed while building intermediate levels.
    OutOfMemory,
    /// A supplied address exceeds the architecture's significant bits.
    AddressOutOfRange,
    /// An address is not aligned to the requested page size.
    Misaligned,
    /// The requested size is not a supported granularity.
    InvalidPageSize,
}

/// A local translation-cache invalidation request, recorded by the walker
/// in issue order and executed by the embedder on the local core.
#[derive(Clone, Copy, Debug, PartialEq, Eq, Structural)]
pub enum TlbFlush {
    /// Invalidate the cached translations of one virtual address.
    Address(u64),
    /// Invalidate the entire local translation cache.
    All,
}

} // verus!
