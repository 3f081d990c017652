//! The fixed places of the guest's memory, and the start of a loaded kernel.

use vstd::prelude::*;

use crate::action::Action;
use crate::boot::Header;

verus! {

/// Where the boot parameters (the "zero page") lie.
pub const ZERO_PAGE_START: u64 = 0x7000;

/// Length of a reference hash.
pub const HASH_SIZE_BYTES: u64 = 32;

/// Where the number of memory map entries stands in the zero page.
pub const E820_ENTRIES_OFFSET: u64 = 0x1e8;

/// Where the memory map stands in the zero page.
pub const E820_TABLE_OFFSET: u64 = 0x2d0;

/// Where the CPUID page lies.
pub const CPUID_PAGE_ADDR: u64 = 0x1000;

/// Length of the CPUID page, and of the zero page.
pub const CPUID_PAGE_LEN: u64 = 0x1000;

/// Where the secrets page lies.
pub const SECRETS_PAGE_ADDR: u64 = 0x2000;

/// Length of the secrets page.
pub const SECRETS_PAGE_LEN: u64 = 0x1000;

/// How many bytes of the kernel's code are shown on the debug port.
pub const CODE_SHOWN: usize = 6;

/// A kernel that is ready to be started.
#[derive(Clone, Copy, Debug)]
pub struct Kernel {
    /// The setup header.
    pub hdr: Header,
    /// Where the kernel is entered.
    pub entry_point: u64,
}

/// What is done to start a kernel at `entry_point`, whose code begins with
/// `code`: the first bytes of the code are shown on the debug port between two
/// marks, then the kernel is called with the address of the zero page as its
/// second argument.
pub open spec fn boot_actions(entry_point: u64, code: Seq<u8>) -> Seq<Action> {
    seq![Action::DebugWrite(0xa0)] + code.map_values(|b: u8| Action::DebugWrite(b)) + seq![
        Action::DebugWrite(0xa0),
        Action::Jump { entry_point, first: 0, second: ZERO_PAGE_START },
    ]
}

impl Kernel {
    /// A kernel without a setup header or an entry point.
    pub fn new() -> (kernel: Self)
        ensures
            kernel.hdr == Header::zeroed(),
            kernel.entry_point == 0,
    {
        Kernel { hdr: Header::default(), entry_point: 0 }
    }

    /// What is done to start the kernel whose code begins with `code`.
    pub fn boot(&self, code: &[u8]) -> (actions: Vec<Action>)
        requires
            code@.len() == CODE_SHOWN,
        ensures
            actions@ == boot_actions(self.entry_point, code@),
            actions@ == seq![
                Action::DebugWrite(0xa0),
                Action::DebugWrite(code@[0]),
                Action::DebugWrite(code@[1]),
                Action::DebugWrite(code@[2]),
                Action::DebugWrite(code@[3]),
                Action::DebugWrite(code@[4]),
                Action::DebugWrite(code@[5]),
                Action::DebugWrite(0xa0),
                Action::Jump { entry_point: self.entry_point, first: 0, second: 0x7000 },
            ],
    {
        let mut actions: Vec<Action> = Vec::new();
        actions.push(Action::DebugWrite(0xa0));
        let mut i: usize = 0;
        while i < CODE_SHOWN
            invariant
                i <= CODE_SHOWN,
                code@.len() == CODE_SHOWN,
                actions@ =~= seq![Action::DebugWrite(0xa0)] + code@.subrange(
                    0,
                    i as int,
                ).map_values(|b: u8| Action::DebugWrite(b)),
            decreases CODE_SHOWN - i,
        {
            actions.push(Action::DebugWrite(code[i]));
            i = i + 1;
        }
        actions.push(Action::DebugWrite(0xa0));
        actions.push(
            Action::Jump { entry_point: self.entry_point, first: 0, second: ZERO_PAGE_START },
        );
        assert(code@.subrange(0, CODE_SHOWN as int) =~= code@);
        proof {
            law_boot_actions(self.entry_point, code@);
        }
        actions
    }
}

/// A kernel is started with six bytes of its code shown between two marks, and then
/// called at its entry point with the address of the boot parameters.
pub proof fn law_boot_actions(entry_point: u64, code: Seq<u8>)
    requires
        code.len() == 6,
    ensures
        boot_actions(entry_point, code) == seq![
            Action::DebugWrite(0xa0),
            Action::DebugWrite(code[0]),
            Action::DebugWrite(code[1]),
            Action::DebugWrite(code[2]),
            Action::DebugWrite(code[3]),
            Action::DebugWrite(code[4]),
            Action::DebugWrite(code[5]),
            Action::DebugWrite(0xa0),
            Action::Jump { entry_point, first: 0, second: 0x7000 },
        ],
{
    assert(boot_actions(entry_point, code) =~= seq![
        Action::DebugWrite(0xa0),
        Action::DebugWrite(code[0]),
        Action::DebugWrite(code[1]),
        Action::DebugWrite(code[2]),
        Action::DebugWrite(code[3]),
        Action::DebugWrite(code[4]),
        Action::DebugWrite(code[5]),
        Action::DebugWrite(0xa0),
        Action::Jump { entry_point, first: 0, second: 0x7000 },
    ]);
}

/// Where the pages lie that the hypervisor fills in: the CPUID page, the secrets page
/// and the boot parameters, with the number of memory map entries and the memory map.
pub proof fn law_pages()
    ensures
        CPUID_PAGE_ADDR == 0x1000 && CPUID_PAGE_LEN == 0x1000,
        SECRETS_PAGE_ADDR == 0x2000 && SECRETS_PAGE_LEN == 0x1000,
        ZERO_PAGE_START == 0x7000,
        ZERO_PAGE_START + E820_ENTRIES_OFFSET == 0x71e8,
        ZERO_PAGE_START + E820_TABLE_OFFSET == 0x72d0,
        HASH_SIZE_BYTES == 32,
        CODE_SHOWN == 6,
{
}

} // verus!
