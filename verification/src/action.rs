//! What the firmware asks of the processor and of the hypervisor.

use vstd::prelude::*;

use crate::fault::Fault;

verus! {

/// One thing that is done outside the library.
#[derive(Clone, Copy, Debug, PartialEq, Eq, Structural)]
pub enum Action {
    /// Write the byte to the debug port.
    DebugWrite(u8),
    /// Write the command's code to the command register and read the register
    /// back. The bounce buffer then holds the hypervisor's answer.
    Command(u8),
    /// Have the hypervisor change the state of the pages of a range.
    PageStateChange {
        /// The first address.
        addr: u64,
        /// The number of bytes.
        len: u64,
        /// Whether the pages become private.
        private: bool,
    },
    /// Set up the page tables.
    SetupPaging {
        /// Whether a range stays shared with the hypervisor.
        shared: bool,
        /// The first address of that range.
        addr: u64,
        /// The number of bytes of that range.
        len: u64,
    },
    /// Call the code at the entry point with two arguments.
    Jump {
        /// The entry point.
        entry_point: u64,
        /// The first argument.
        first: u64,
        /// The second argument.
        second: u64,
    },
    /// Panic.
    Panic(Fault),
}

} // verus!
