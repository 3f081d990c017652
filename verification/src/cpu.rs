//! The control registers as the firmware sets them: vector instructions on.

use vstd::prelude::*;

verus! {

/// CR0: monitor coprocessor.
pub const CR0_MONITOR_COPROCESSOR: u64 = 0x2;

/// CR0: emulate coprocessor.
pub const CR0_EMULATE_COPROCESSOR: u64 = 0x4;

/// CR0: task switched.
pub const CR0_TASK_SWITCHED: u64 = 0x8;

/// CR0: extension type.
pub const CR0_EXTENSION_TYPE: u64 = 0x10;

/// CR0: write protect.
pub const CR0_WRITE_PROTECT: u64 = 0x1_0000;

/// CR0: alignment mask.
pub const CR0_ALIGNMENT_MASK: u64 = 0x4_0000;

/// CR4: the operating system saves vector registers.
pub const CR4_OSFXSR: u64 = 0x200;

/// CR4: the operating system handles vector exceptions.
pub const CR4_OSXMMEXCPT_ENABLE: u64 = 0x400;

/// CR4: the operating system saves extended state.
pub const CR4_OSXSAVE: u64 = 0x4_0000;

/// XCR0: floating point state.
pub const XCR0_X87: u64 = 0x1;

/// XCR0: 128-bit vector state.
pub const XCR0_SSE: u64 = 0x2;

/// XCR0: 256-bit vector state.
pub const XCR0_AVX: u64 = 0x4;

/// Whether a register has the bit `flag`.
pub open spec fn flag_on(register: u64, flag: u64) -> bool {
    register & flag == flag
}

/// CR0 with the coprocessor neither emulated nor lost to a task switch, and
/// monitoring, extension type, alignment mask and write protection on.
pub fn sse_cr0(cr0: u64) -> (new: u64)
    ensures
        !flag_on(new, CR0_EMULATE_COPROCESSOR),
        !flag_on(new, CR0_TASK_SWITCHED),
        flag_on(new, CR0_MONITOR_COPROCESSOR),
        flag_on(new, CR0_EXTENSION_TYPE),
        flag_on(new, CR0_ALIGNMENT_MASK),
        flag_on(new, CR0_WRITE_PROTECT),
        new & !0x5_001eu64 == cr0 & !0x5_001eu64,
        new == (cr0 & !0xcu64) | 0x5_0012,
{
    let new: u64 = (cr0 & !CR0_EMULATE_COPROCESSOR & !CR0_TASK_SWITCHED) | CR0_MONITOR_COPROCESSOR
        | CR0_EXTENSION_TYPE | CR0_ALIGNMENT_MASK | CR0_WRITE_PROTECT;
    proof {
        assert(new & 0x4 == 0 && new & 0x8 == 0 && new & 0x2 == 0x2 && new & 0x10 == 0x10 && new
            & 0x4_0000 == 0x4_0000 && new & 0x1_0000 == 0x1_0000 && new & !0x5_001eu64 == cr0
            & !0x5_001eu64 && new == (cr0 & !0xcu64) | 0x5_0012) by (bit_vector)
            requires
                new == (cr0 & !0x4u64 & !0x8u64) | 0x2 | 0x10 | 0x4_0000 | 0x1_0000,
        ;
    }
    new
}

/// CR4 with the three flags for vector instructions on.
pub fn sse_cr4(cr4: u64) -> (new: u64)
    ensures
        flag_on(new, CR4_OSFXSR),
        flag_on(new, CR4_OSXSAVE),
        flag_on(new, CR4_OSXMMEXCPT_ENABLE),
        new & !0x4_0600u64 == cr4 & !0x4_0600u64,
        new == cr4 | 0x4_0600,
{
    let new: u64 = cr4 | CR4_OSFXSR | CR4_OSXSAVE | CR4_OSXMMEXCPT_ENABLE;
    proof {
        assert(new & 0x200 == 0x200 && new & 0x400 == 0x400 && new & 0x4_0000 == 0x4_0000 && new
            & !0x4_0600u64 == cr4 & !0x4_0600u64 && new == cr4 | 0x4_0600) by (bit_vector)
            requires
                new == cr4 | 0x200 | 0x4_0000 | 0x400,
        ;
    }
    new
}

/// XCR0 with the three kinds of state on.
pub fn sse_xcr0(xcr0: u64) -> (new: u64)
    ensures
        flag_on(new, XCR0_SSE),
        flag_on(new, XCR0_AVX),
        flag_on(new, XCR0_X87),
        new & !0x7u64 == xcr0 & !0x7u64,
        new == xcr0 | 0x7,
{
    let new: u64 = xcr0 | XCR0_SSE | XCR0_AVX | XCR0_X87;
    proof {
        assert(new & 0x1 == 0x1 && new & 0x2 == 0x2 && new & 0x4 == 0x4 && new & !0x7u64 == xcr0
            & !0x7u64 && new == xcr0 | 0x7) by (bit_vector)
            requires
                new == xcr0 | 0x2 | 0x4 | 0x1,
        ;
    }
    new
}

} // verus!
