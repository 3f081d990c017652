//! The conditions on which the firmware panics, that is, halts the guest.

use vstd::prelude::*;

verus! {

/// Why the firmware cannot go on.
#[derive(Clone, Copy, Debug, PartialEq, Eq, Structural)]
pub enum Fault {
    /// The image has more program headers than the loader has room for.
    TooManyHeaders,
    /// The load address, the end or the entry point does not fit in 64 bits.
    AddressOverflow,
    /// A segment has more bytes in the file than in memory.
    SegmentOverrun,
    /// A relocatable image without a loaded segment has nothing to relocate.
    NothingLoaded,
    /// More bytes were to be measured than SHA-256 can take.
    MessageTooLong,
    /// The relocation tables run past the end of the bounce buffer.
    TableOverrun,
    /// A relocation names a symbol that is not in the table.
    SymbolOutOfRange,
    /// A relocation's place is not inside the loaded image.
    OffsetOutOfRange,
    /// The place of an undefined weak symbol does not hold zero.
    WeakNotZero,
    /// A relocated value does not fit in 64 bits with sign.
    ValueOverflow,
    /// A global offset table relocation has an addend.
    NonZeroAddend,
    /// A relocation is of a type, this one, that the loader does not know.
    UnknownRelocation(u32),
}

} // verus!
