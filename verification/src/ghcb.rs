//! The guest-hypervisor communication block (GHCB): the page and the model
//! specific register on which the guest talks to the hypervisor.

use vstd::prelude::*;

use crate::bytes::{
    append, law_digits_determine, law_le_digits, law_le_round_trip, le_bytes, lemma_digits_read,
    read_u16, read_u32, read_u64, u16_at, u16_digits, u32_at, u32_digits, u64_at, u64_digits,
};
use crate::mem::MemoryRegion;

verus! {

/// Where the GHCB lies.
pub const GHCB_ADDR: u32 = 0x3000;

/// The model specific register for the GHCB.
pub const GHCB_MSR: u32 = 0xC001_0130;

/// Length of the GHCB.
pub const GHCB_LEN: usize = 0x1000;

/// Length of a page whose state is changed.
pub const PAGE_SIZE: u64 = 0x1000;

/// The GHCB page.
#[derive(Clone, Copy, Debug)]
pub struct Ghcb {
    /// Reserved.
    pub reserved1: [u8; 0xcb],
    /// Current privilege level.
    pub cpl: u8,
    /// Reserved.
    pub reserved2: [u8; 0x74],
    /// XSS.
    pub xss: u64,
    /// Reserved.
    pub reserved3: [u8; 0x18],
    /// DR7.
    pub dr7: u64,
    /// Reserved.
    pub reserved4: [u8; 0x90],
    /// RAX.
    pub rax: u64,
    /// Reserved.
    pub reserved5: [u8; 0x100],
    /// Reserved.
    pub reserved6: u64,
    /// RCX.
    pub rcx: u64,
    /// RDX.
    pub rdx: u64,
    /// RBX.
    pub rbx: u64,
    /// Reserved.
    pub reserved7: [u8; 0x70],
    /// Why the guest exits.
    pub sw_exitcode: u64,
    /// More on why the guest exits.
    pub sw_exitinfo1: u64,
    /// More on why the guest exits.
    pub sw_exitinfo2: u64,
    /// Address of the scratch area.
    pub sw_scratch: u64,
    /// Reserved.
    pub reserved8: [u8; 0x38],
    /// XCR0.
    pub xcr0: u64,
    /// Which eight-byte fields are valid.
    pub valid_bitmap: [u8; 0x10],
    /// Address of the saved state.
    pub x86_state_gpa: u64,
    /// Reserved.
    pub reserved9: [u8; 0x3f8],
    /// Buffer.
    pub shared_buf: [u8; 0x7f0],
    /// Reserved.
    pub reserved10: [u8; 0x0a],
    /// Version of the protocol.
    pub protocol_version: u16,
    /// How the page is used.
    pub ghcb_usage: u32,
}

/// Something that is done on the GHCB's register.
#[derive(Clone, Copy, Debug, PartialEq, Eq, Structural)]
pub enum GhcbAction {
    /// Write the value to the register.
    WriteMsr(u64),
    /// Read the register. What it holds is not used.
    ReadMsr,
    /// Exit to the hypervisor.
    VmgExit,
}

/// Where the GHCB lies.
pub fn ghcb_page() -> (region: MemoryRegion)
    ensures
        region == (MemoryRegion { base: GHCB_ADDR as u64, length: GHCB_LEN as u64 }),
        region == (MemoryRegion { base: 0x3000, length: 0x1000 }),
{
    MemoryRegion::new(GHCB_ADDR as u64, GHCB_LEN as u64)
}

/// The request for one page: the operation from bit 52 on, the page's address,
/// and the number of the request.
pub open spec fn page_request(addr: u64, private: bool) -> u64 {
    (if private {
        0x10_0000_0000_0000u64
    } else {
        0x20_0000_0000_0000u64
    }) | (addr & !0xfffu64) | 0x014u64
}

/// What is done to change the state of `n` pages from `addr` on: a request and
/// an exit for each.
pub open spec fn page_requests(addr: int, n: nat, private: bool) -> Seq<GhcbAction> {
    Seq::new(
        2 * n,
        |i: int|
            if i % 2 == 0 {
                GhcbAction::WriteMsr(page_request((addr + 0x1000 * (i / 2)) as u64, private))
            } else {
                GhcbAction::VmgExit
            },
    )
}

/// What is done to change the state of the pages of a range: one request for
/// each page of 4 KiB, after which the register gets back the value that it had.
pub fn page_state_change(addr: u64, len: u64, private: bool, prev_value: u64) -> (actions: Vec<
    GhcbAction,
>)
    requires
        len % PAGE_SIZE == 0,
        addr + len <= u64::MAX,
    ensures
        actions@ == page_requests(addr as int, (len / PAGE_SIZE) as nat, private).push(
            GhcbAction::WriteMsr(prev_value),
        ),
        actions@.len() == 2 * (len / 4096) + 1,
        forall|k: int|
            #![trigger actions@[2 * k]]
            0 <= k < len / 4096 ==> actions@[2 * k] == GhcbAction::WriteMsr(
                (if private {
                    0x10_0000_0000_0000u64
                } else {
                    0x20_0000_0000_0000u64
                }) | (((addr + 4096 * k) as u64) & !0xfffu64) | 0x14u64,
            ) && actions@[2 * k + 1] == GhcbAction::VmgExit,
        actions@.last() == GhcbAction::WriteMsr(prev_value),
{
    let ghost n: nat = (len / PAGE_SIZE) as nat;
    let mut actions: Vec<GhcbAction> = Vec::new();
    let mut len_left: u64 = len;
    let mut at: u64 = addr;
    let ghost mut i: nat = 0;
    while len_left > 0
        invariant
            i <= n,
            len == 0x1000 * n,
            len_left == len - 0x1000 * i,
            at == addr + 0x1000 * i,
            addr + len <= u64::MAX,
            actions@ =~= page_requests(addr as int, i, private),
        decreases len_left,
    {
        let mut value: u64 = if private {
            0x10_0000_0000_0000
        } else {
            0x20_0000_0000_0000
        };
        value = value | (at & !0xfff);
        value = value | 0x014;
        actions.push(GhcbAction::WriteMsr(value));
        actions.push(GhcbAction::VmgExit);
        len_left = len_left - 0x1000;
        at = at + 0x1000;
        proof {
            i = i + 1;
        }
    }
    actions.push(GhcbAction::WriteMsr(prev_value));
    actions
}

/// What is done to register the GHCB: its address is announced, and stays in
/// the register.
pub fn register_ghcb_page() -> (actions: Vec<GhcbAction>)
    ensures
        actions@ == seq![
            GhcbAction::WriteMsr(0x3012),
            GhcbAction::VmgExit,
            GhcbAction::ReadMsr,
            GhcbAction::WriteMsr(GHCB_ADDR as u64),
        ],
        actions@.last() == GhcbAction::WriteMsr(0x3000),
{
    let announced: u64 = GHCB_ADDR as u64 | 0x12;
    assert(0x3000u64 | 0x12 == 0x3012) by (bit_vector);
    let mut actions: Vec<GhcbAction> = Vec::new();
    actions.push(GhcbAction::WriteMsr(announced));
    actions.push(GhcbAction::VmgExit);
    actions.push(GhcbAction::ReadMsr);
    actions.push(GhcbAction::WriteMsr(GHCB_ADDR as u64));
    assert(actions@ =~= seq![
        GhcbAction::WriteMsr(0x3012),
        GhcbAction::VmgExit,
        GhcbAction::ReadMsr,
        GhcbAction::WriteMsr(GHCB_ADDR as u64),
    ]);
    actions
}

/// The bytes from `at` on as an array.
fn array_at<const N: usize>(s: &[u8], at: usize) -> (a: [u8; N])
    requires
        at + N <= s@.len(),
    ensures
        a@ == s@.subrange(at as int, at + N),
{
    let len: usize = s.len();
    let mut a: [u8; N] = [0; N];
    let mut i: usize = 0;
    while i < N
        invariant
            i <= N,
            len == s@.len(),
            at + N <= len,
            forall|j: int| 0 <= j < i ==> a@[j] == s@[at + j],
        decreases N - i,
    {
        a[i] = s[at + i];
        i = i + 1;
    }
    assert(a@ =~= s@.subrange(at as int, at + N));
    a
}

impl Ghcb {
    /// Whether the bytes of the page are those of the block.
    pub open spec fn laid_out(self, page: Seq<u8>) -> bool {
        &&& page.len() == GHCB_LEN
        &&& page.subrange(0, 0xcb) == self.reserved1@
        &&& page[0xcb] == self.cpl
        &&& page.subrange(0xcc, 0x140) == self.reserved2@
        &&& page.subrange(0x140, 0x148) == le_bytes(self.xss as nat, 8)
        &&& page.subrange(0x148, 0x160) == self.reserved3@
        &&& page.subrange(0x160, 0x168) == le_bytes(self.dr7 as nat, 8)
        &&& page.subrange(0x168, 0x1f8) == self.reserved4@
        &&& page.subrange(0x1f8, 0x200) == le_bytes(self.rax as nat, 8)
        &&& page.subrange(0x200, 0x300) == self.reserved5@
        &&& page.subrange(0x300, 0x308) == le_bytes(self.reserved6 as nat, 8)
        &&& page.subrange(0x308, 0x310) == le_bytes(self.rcx as nat, 8)
        &&& page.subrange(0x310, 0x318) == le_bytes(self.rdx as nat, 8)
        &&& page.subrange(0x318, 0x320) == le_bytes(self.rbx as nat, 8)
        &&& page.subrange(0x320, 0x390) == self.reserved7@
        &&& page.subrange(0x390, 0x398) == le_bytes(self.sw_exitcode as nat, 8)
        &&& page.subrange(0x398, 0x3a0) == le_bytes(self.sw_exitinfo1 as nat, 8)
        &&& page.subrange(0x3a0, 0x3a8) == le_bytes(self.sw_exitinfo2 as nat, 8)
        &&& page.subrange(0x3a8, 0x3b0) == le_bytes(self.sw_scratch as nat, 8)
        &&& page.subrange(0x3b0, 0x3e8) == self.reserved8@
        &&& page.subrange(0x3e8, 0x3f0) == le_bytes(self.xcr0 as nat, 8)
        &&& page.subrange(0x3f0, 0x400) == self.valid_bitmap@
        &&& page.subrange(0x400, 0x408) == le_bytes(self.x86_state_gpa as nat, 8)
        &&& page.subrange(0x408, 0x800) == self.reserved9@
        &&& page.subrange(0x800, 0xff0) == self.shared_buf@
        &&& page.subrange(0xff0, 0xffa) == self.reserved10@
        &&& page.subrange(0xffa, 0xffc) == le_bytes(self.protocol_version as nat, 2)
        &&& page.subrange(0xffc, 0x1000) == le_bytes(self.ghcb_usage as nat, 4)
    }

    /// The block that a page holds.
    pub fn from_page(page: &[u8]) -> (ghcb: Self)
        requires
            page@.len() == GHCB_LEN,
        ensures
            ghcb.laid_out(page@),
    {
        let ghcb = Ghcb {
            reserved1: array_at(page, 0),
            cpl: page[0xcb],
            reserved2: array_at(page, 0xcc),
            xss: read_u64(page, 0x140),
            reserved3: array_at(page, 0x148),
            dr7: read_u64(page, 0x160),
            reserved4: array_at(page, 0x168),
            rax: read_u64(page, 0x1f8),
            reserved5: array_at(page, 0x200),
            reserved6: read_u64(page, 0x300),
            rcx: read_u64(page, 0x308),
            rdx: read_u64(page, 0x310),
            rbx: read_u64(page, 0x318),
            reserved7: array_at(page, 0x320),
            sw_exitcode: read_u64(page, 0x390),
            sw_exitinfo1: read_u64(page, 0x398),
            sw_exitinfo2: read_u64(page, 0x3a0),
            sw_scratch: read_u64(page, 0x3a8),
            reserved8: array_at(page, 0x3b0),
            xcr0: read_u64(page, 0x3e8),
            valid_bitmap: array_at(page, 0x3f0),
            x86_state_gpa: read_u64(page, 0x400),
            reserved9: array_at(page, 0x408),
            shared_buf: array_at(page, 0x800),
            reserved10: array_at(page, 0xff0),
            protocol_version: read_u16(page, 0xffa),
            ghcb_usage: read_u32(page, 0xffc),
        };
        proof {
            law_le_digits(page@.subrange(0x140, 0x148));
            law_le_digits(page@.subrange(0x160, 0x168));
            law_le_digits(page@.subrange(0x1f8, 0x200));
            law_le_digits(page@.subrange(0x300, 0x308));
            law_le_digits(page@.subrange(0x308, 0x310));
            law_le_digits(page@.subrange(0x310, 0x318));
            law_le_digits(page@.subrange(0x318, 0x320));
            law_le_digits(page@.subrange(0x390, 0x398));
            law_le_digits(page@.subrange(0x398, 0x3a0));
            law_le_digits(page@.subrange(0x3a0, 0x3a8));
            law_le_digits(page@.subrange(0x3a8, 0x3b0));
            law_le_digits(page@.subrange(0x3e8, 0x3f0));
            law_le_digits(page@.subrange(0x400, 0x408));
            law_le_digits(page@.subrange(0xffa, 0xffc));
            law_le_digits(page@.subrange(0xffc, 0x1000));
        }
        ghcb
    }

    /// The bytes of the page before `reserved6`.
    fn first_part(&self) -> (v: Vec<u8>)
        ensures
            v@.len() == 0x300,
            v@.subrange(0x0, 0xcb) == self.reserved1@,
            v@[0xcb] == self.cpl,
            v@.subrange(0xcc, 0x140) == self.reserved2@,
            v@.subrange(0x140, 0x148) == le_bytes(self.xss as nat, 8),
            v@.subrange(0x148, 0x160) == self.reserved3@,
            v@.subrange(0x160, 0x168) == le_bytes(self.dr7 as nat, 8),
            v@.subrange(0x168, 0x1f8) == self.reserved4@,
            v@.subrange(0x1f8, 0x200) == le_bytes(self.rax as nat, 8),
            v@.subrange(0x200, 0x300) == self.reserved5@,
    {
        let mut v: Vec<u8> = Vec::new();
        append(&mut v, self.reserved1.as_slice());
        v.push(self.cpl);
        append(&mut v, self.reserved2.as_slice());
        append(&mut v, u64_digits(self.xss).as_slice());
        append(&mut v, self.reserved3.as_slice());
        append(&mut v, u64_digits(self.dr7).as_slice());
        append(&mut v, self.reserved4.as_slice());
        append(&mut v, u64_digits(self.rax).as_slice());
        append(&mut v, self.reserved5.as_slice());
        proof {
            law_le_round_trip(self.xss as nat, 8);
            law_le_round_trip(self.dr7 as nat, 8);
            law_le_round_trip(self.rax as nat, 8);
            assert(v@.subrange(0x0, 0xcb) =~= self.reserved1@);
            assert(v@.subrange(0xcc, 0x140) =~= self.reserved2@);
            assert(v@.subrange(0x140, 0x148) =~= le_bytes(self.xss as nat, 8));
            assert(v@.subrange(0x148, 0x160) =~= self.reserved3@);
            assert(v@.subrange(0x160, 0x168) =~= le_bytes(self.dr7 as nat, 8));
            assert(v@.subrange(0x168, 0x1f8) =~= self.reserved4@);
            assert(v@.subrange(0x1f8, 0x200) =~= le_bytes(self.rax as nat, 8));
            assert(v@.subrange(0x200, 0x300) =~= self.reserved5@);
        }
        v
    }

    /// The bytes of the page from `reserved6` to `sw_scratch`.
    fn middle_part(&self) -> (v: Vec<u8>)
        ensures
            v@.len() == 0xb0,
            v@.subrange(0x0, 0x8) == le_bytes(self.reserved6 as nat, 8),
            v@.subrange(0x8, 0x10) == le_bytes(self.rcx as nat, 8),
            v@.subrange(0x10, 0x18) == le_bytes(self.rdx as nat, 8),
            v@.subrange(0x18, 0x20) == le_bytes(self.rbx as nat, 8),
            v@.subrange(0x20, 0x90) == self.reserved7@,
            v@.subrange(0x90, 0x98) == le_bytes(self.sw_exitcode as nat, 8),
            v@.subrange(0x98, 0xa0) == le_bytes(self.sw_exitinfo1 as nat, 8),
            v@.subrange(0xa0, 0xa8) == le_bytes(self.sw_exitinfo2 as nat, 8),
            v@.subrange(0xa8, 0xb0) == le_bytes(self.sw_scratch as nat, 8),
    {
        let mut v: Vec<u8> = Vec::new();
        append(&mut v, u64_digits(self.reserved6).as_slice());
        append(&mut v, u64_digits(self.rcx).as_slice());
        append(&mut v, u64_digits(self.rdx).as_slice());
        append(&mut v, u64_digits(self.rbx).as_slice());
        append(&mut v, self.reserved7.as_slice());
        append(&mut v, u64_digits(self.sw_exitcode).as_slice());
        append(&mut v, u64_digits(self.sw_exitinfo1).as_slice());
        append(&mut v, u64_digits(self.sw_exitinfo2).as_slice());
        append(&mut v, u64_digits(self.sw_scratch).as_slice());
        proof {
            law_le_round_trip(self.reserved6 as nat, 8);
            law_le_round_trip(self.rcx as nat, 8);
            law_le_round_trip(self.rdx as nat, 8);
            law_le_round_trip(self.rbx as nat, 8);
            law_le_round_trip(self.sw_exitcode as nat, 8);
            law_le_round_trip(self.sw_exitinfo1 as nat, 8);
            law_le_round_trip(self.sw_exitinfo2 as nat, 8);
            law_le_round_trip(self.sw_scratch as nat, 8);
            assert(v@.subrange(0x0, 0x8) =~= le_bytes(self.reserved6 as nat, 8));
            assert(v@.subrange(0x8, 0x10) =~= le_bytes(self.rcx as nat, 8));
            assert(v@.subrange(0x10, 0x18) =~= le_bytes(self.rdx as nat, 8));
            assert(v@.subrange(0x18, 0x20) =~= le_bytes(self.rbx as nat, 8));
            assert(v@.subrange(0x20, 0x90) =~= self.reserved7@);
            assert(v@.subrange(0x90, 0x98) =~= le_bytes(self.sw_exitcode as nat, 8));
            assert(v@.subrange(0x98, 0xa0) =~= le_bytes(self.sw_exitinfo1 as nat, 8));
            assert(v@.subrange(0xa0, 0xa8) =~= le_bytes(self.sw_exitinfo2 as nat, 8));
            assert(v@.subrange(0xa8, 0xb0) =~= le_bytes(self.sw_scratch as nat, 8));
        }
        v
    }

    /// The bytes of the page from `reserved8` on.
    fn last_part(&self) -> (v: Vec<u8>)
        ensures
            v@.len() == 0xc50,
            v@.subrange(0x0, 0x38) == self.reserved8@,
            v@.subrange(0x38, 0x40) == le_bytes(self.xcr0 as nat, 8),
            v@.subrange(0x40, 0x50) == self.valid_bitmap@,
            v@.subrange(0x50, 0x58) == le_bytes(self.x86_state_gpa as nat, 8),
            v@.subrange(0x58, 0x450) == self.reserved9@,
            v@.subrange(0x450, 0xc40) == self.shared_buf@,
            v@.subrange(0xc40, 0xc4a) == self.reserved10@,
            v@.subrange(0xc4a, 0xc4c) == le_bytes(self.protocol_version as nat, 2),
            v@.subrange(0xc4c, 0xc50) == le_bytes(self.ghcb_usage as nat, 4),
    {
        let mut v: Vec<u8> = Vec::new();
        append(&mut v, self.reserved8.as_slice());
        append(&mut v, u64_digits(self.xcr0).as_slice());
        append(&mut v, self.valid_bitmap.as_slice());
        append(&mut v, u64_digits(self.x86_state_gpa).as_slice());
        append(&mut v, self.reserved9.as_slice());
        append(&mut v, self.shared_buf.as_slice());
        append(&mut v, self.reserved10.as_slice());
        append(&mut v, u16_digits(self.protocol_version).as_slice());
        append(&mut v, u32_digits(self.ghcb_usage).as_slice());
        proof {
            law_le_round_trip(self.xcr0 as nat, 8);
            law_le_round_trip(self.x86_state_gpa as nat, 8);
            law_le_round_trip(self.protocol_version as nat, 2);
            law_le_round_trip(self.ghcb_usage as nat, 4);
            assert(v@.subrange(0x0, 0x38) =~= self.reserved8@);
            assert(v@.subrange(0x38, 0x40) =~= le_bytes(self.xcr0 as nat, 8));
            assert(v@.subrange(0x40, 0x50) =~= self.valid_bitmap@);
            assert(v@.subrange(0x50, 0x58) =~= le_bytes(self.x86_state_gpa as nat, 8));
            assert(v@.subrange(0x58, 0x450) =~= self.reserved9@);
            assert(v@.subrange(0x450, 0xc40) =~= self.shared_buf@);
            assert(v@.subrange(0xc40, 0xc4a) =~= self.reserved10@);
            assert(v@.subrange(0xc4a, 0xc4c) =~= le_bytes(self.protocol_version as nat, 2));
            assert(v@.subrange(0xc4c, 0xc50) =~= le_bytes(self.ghcb_usage as nat, 4));
        }
        v
    }

    /// The page that holds the block.
    pub fn to_page(&self) -> (page: Vec<u8>)
        ensures
            self.laid_out(page@),
    {
        let a: Vec<u8> = self.first_part();
        let b: Vec<u8> = self.middle_part();
        let c: Vec<u8> = self.last_part();
        let mut v: Vec<u8> = Vec::new();
        append(&mut v, a.as_slice());
        append(&mut v, b.as_slice());
        append(&mut v, c.as_slice());
        proof {
            assert(v@.subrange(0x0, 0xcb) =~= a@.subrange(0x0, 0xcb));
            assert(v@.subrange(0xcc, 0x140) =~= a@.subrange(0xcc, 0x140));
            assert(v@.subrange(0x140, 0x148) =~= a@.subrange(0x140, 0x148));
            assert(v@.subrange(0x148, 0x160) =~= a@.subrange(0x148, 0x160));
            assert(v@.subrange(0x160, 0x168) =~= a@.subrange(0x160, 0x168));
            assert(v@.subrange(0x168, 0x1f8) =~= a@.subrange(0x168, 0x1f8));
            assert(v@.subrange(0x1f8, 0x200) =~= a@.subrange(0x1f8, 0x200));
            assert(v@.subrange(0x200, 0x300) =~= a@.subrange(0x200, 0x300));
            assert(v@.subrange(0x300, 0x308) =~= b@.subrange(0x0, 0x8));
            assert(v@.subrange(0x308, 0x310) =~= b@.subrange(0x8, 0x10));
            assert(v@.subrange(0x310, 0x318) =~= b@.subrange(0x10, 0x18));
            assert(v@.subrange(0x318, 0x320) =~= b@.subrange(0x18, 0x20));
            assert(v@.subrange(0x320, 0x390) =~= b@.subrange(0x20, 0x90));
            assert(v@.subrange(0x390, 0x398) =~= b@.subrange(0x90, 0x98));
            assert(v@.subrange(0x398, 0x3a0) =~= b@.subrange(0x98, 0xa0));
            assert(v@.subrange(0x3a0, 0x3a8) =~= b@.subrange(0xa0, 0xa8));
            assert(v@.subrange(0x3a8, 0x3b0) =~= b@.subrange(0xa8, 0xb0));
            assert(v@.subrange(0x3b0, 0x3e8) =~= c@.subrange(0x0, 0x38));
            assert(v@.subrange(0x3e8, 0x3f0) =~= c@.subrange(0x38, 0x40));
            assert(v@.subrange(0x3f0, 0x400) =~= c@.subrange(0x40, 0x50));
            assert(v@.subrange(0x400, 0x408) =~= c@.subrange(0x50, 0x58));
            assert(v@.subrange(0x408, 0x800) =~= c@.subrange(0x58, 0x450));
            assert(v@.subrange(0x800, 0xff0) =~= c@.subrange(0x450, 0xc40));
            assert(v@.subrange(0xff0, 0xffa) =~= c@.subrange(0xc40, 0xc4a));
            assert(v@.subrange(0xffa, 0xffc) =~= c@.subrange(0xc4a, 0xc4c));
            assert(v@.subrange(0xffc, 0x1000) =~= c@.subrange(0xc4c, 0xc50));
        }
        v
    }

    /// Fills in the block for a write of `value` to the I/O port `port`.
    pub fn port_io(&mut self, port: u16, value: u8)
        ensures
            final(self).valid_bitmap@ == port_io_bitmap(),
            *final(self) == old(self).with_port_io(port, value, final(self).valid_bitmap),
            final(self).rax == value,
            final(self).sw_exitcode == 0x7b,
            final(self).sw_exitinfo1 == 0x1_0000 * port + 0x10,
            final(self).sw_exitinfo2 == 0,
            final(self).sw_scratch == 0,
            final(self).protocol_version == 2,
            final(self).ghcb_usage == 0,
    {
        let rax: u64 = value as u64;
        let exitinfo1: u64 = ((port as u64) << 16) | 0x10;
        assert(exitinfo1 == port as u64 * 0x1_0000 + 0x10) by {
            let p: u64 = port as u64;
            assert(p <= 0xffff ==> (p << 16) | 0x10 == p * 0x1_0000 + 0x10) by (bit_vector);
        }

        let rax_offset: usize = 0x01f8 / 8;
        let rax_byte_offset: usize = rax_offset / 8;
        let rax_bit_position: usize = rax_offset % 8;

        let exitcode_offset: usize = 0x0390 / 8;
        let exitcode_byte_offset: usize = exitcode_offset / 8;
        let exitcode_bit_position: usize = exitcode_offset % 8;

        let exitinfo1_offset: usize = 0x0398 / 8;
        let exitinfo1_byte_offset: usize = exitinfo1_offset / 8;
        let exitinfo1_bit_position: usize = exitinfo1_offset % 8;

        let exitinfo2_offset: usize = 0x03a0 / 8;
        let exitinfo2_byte_offset: usize = exitinfo2_offset / 8;
        let exitinfo2_bit_position: usize = exitinfo2_offset % 8;

        let scratch_offset: usize = 0x03a8 / 8;
        let scratch_byte_offset: usize = scratch_offset / 8;
        let scratch_bit_position: usize = scratch_offset % 8;

        self.protocol_version = 2;
        self.rax = rax;
        self.sw_exitcode = 0x7b;
        self.sw_exitinfo1 = exitinfo1;
        self.sw_exitinfo2 = 0;
        self.sw_scratch = 0;
        self.ghcb_usage = 0;

        let mut bitmap: [u8; 16] = [0; 16];
        bitmap[rax_byte_offset] = bitmap[rax_byte_offset] | (1u8 << rax_bit_position);
        bitmap[exitcode_byte_offset] = bitmap[exitcode_byte_offset] | (1u8
            << exitcode_bit_position);
        bitmap[exitinfo1_byte_offset] = bitmap[exitinfo1_byte_offset] | (1u8
            << exitinfo1_bit_position);
        bitmap[exitinfo2_byte_offset] = bitmap[exitinfo2_byte_offset] | (1u8
            << exitinfo2_bit_position);
        bitmap[scratch_byte_offset] = bitmap[scratch_byte_offset] | (1u8 << scratch_bit_position);
        proof {
            assert(0u8 | (1u8 << 7usize) == 0x80) by (bit_vector);
            assert((((0u8 | (1u8 << 2usize)) | (1u8 << 3usize)) | (1u8 << 4usize)) | (1u8
                << 5usize) == 0x3c) by (bit_vector);
            assert(bitmap@ =~= port_io_bitmap());
        }
        self.valid_bitmap = bitmap;
    }

    /// The block after it was filled in for a write of `value` to `port`.
    pub open spec fn with_port_io(self, port: u16, value: u8, valid_bitmap: [u8; 0x10]) -> Self {
        Ghcb {
            protocol_version: 2,
            rax: value as u64,
            sw_exitcode: 0x7b,
            sw_exitinfo1: (port * 0x1_0000 + 0x10) as u64,
            sw_exitinfo2: 0,
            sw_scratch: 0,
            valid_bitmap,
            ghcb_usage: 0,
            ..self
        }
    }
}

/// The valid bits of a port write: bit 63 for `rax` (offset 0x1f8), and bits 114
/// to 117 for the exit code, the two exit infos and the scratch address (offsets
/// 0x390 to 0x3a8).
pub open spec fn port_io_bitmap() -> Seq<u8> {
    Seq::new(
        16,
        |i: int|
            if i == 7 {
                0x80u8
            } else if i == 14 {
                0x3cu8
            } else {
                0u8
            },
    )
}

/// Whether a bitmap marks the eight-byte field number `n` of the page as valid.
pub open spec fn field_valid(bitmap: Seq<u8>, n: int) -> bool {
    bitmap[n / 8] & (1u8 << ((n % 8) as u8)) != 0
}

/// A page holds one block only: what is read from a page that was written is
/// what was written.
pub proof fn law_page_determines_block(a: Ghcb, b: Ghcb, page: Seq<u8>)
    requires
        a.laid_out(page),
        b.laid_out(page),
    ensures
        a == b,
{
    law_digits_determine(a.xss, b.xss, 8);
    law_digits_determine(a.dr7, b.dr7, 8);
    law_digits_determine(a.rax, b.rax, 8);
    law_digits_determine(a.reserved6, b.reserved6, 8);
    law_digits_determine(a.rcx, b.rcx, 8);
    law_digits_determine(a.rdx, b.rdx, 8);
    law_digits_determine(a.rbx, b.rbx, 8);
    law_digits_determine(a.sw_exitcode, b.sw_exitcode, 8);
    law_digits_determine(a.sw_exitinfo1, b.sw_exitinfo1, 8);
    law_digits_determine(a.sw_exitinfo2, b.sw_exitinfo2, 8);
    law_digits_determine(a.sw_scratch, b.sw_scratch, 8);
    law_digits_determine(a.xcr0, b.xcr0, 8);
    law_digits_determine(a.x86_state_gpa, b.x86_state_gpa, 8);
    law_digits_determine(a.protocol_version as u64, b.protocol_version as u64, 2);
    law_digits_determine(a.ghcb_usage as u64, b.ghcb_usage as u64, 4);
    assert(a.reserved1 =~= b.reserved1);
    assert(a.reserved2 =~= b.reserved2);
    assert(a.reserved3 =~= b.reserved3);
    assert(a.reserved4 =~= b.reserved4);
    assert(a.reserved5 =~= b.reserved5);
    assert(a.reserved7 =~= b.reserved7);
    assert(a.reserved8 =~= b.reserved8);
    assert(a.valid_bitmap =~= b.valid_bitmap);
    assert(a.reserved9 =~= b.reserved9);
    assert(a.shared_buf =~= b.shared_buf);
    assert(a.reserved10 =~= b.reserved10);
}

/// A block is held by one page only: a page that is read and written back does
/// not change.
pub proof fn law_block_determines_page(ghcb: Ghcb, p: Seq<u8>, q: Seq<u8>)
    requires
        ghcb.laid_out(p),
        ghcb.laid_out(q),
    ensures
        p == q,
{
    lemma_other_bytes(ghcb, ghcb, p, q);
    lemma_same_range(p, q, 0x1f8, 0x200);
    lemma_same_range(p, q, 0x390, 0x398);
    lemma_same_range(p, q, 0x398, 0x3a0);
    lemma_same_range(p, q, 0x3a0, 0x3a8);
    lemma_same_range(p, q, 0x3a8, 0x3b0);
    lemma_same_range(p, q, 0x3f0, 0x400);
    lemma_same_range(p, q, 0xffa, 0xffc);
    lemma_same_range(p, q, 0xffc, 0x1000);
    assert forall|i: int| 0 <= i < p.len() implies p[i] == q[i] by {
        assert(!port_io_byte(i) ==> p[i] == q[i]);
    }
    assert(p =~= q);
}

proof fn lemma_same_range(p: Seq<u8>, q: Seq<u8>, from: int, to: int)
    requires
        0 <= from <= to <= p.len(),
        to <= q.len(),
        p.subrange(from, to) == q.subrange(from, to),
    ensures
        forall|i: int| from <= i < to ==> p[i] == q[i],
{
    assert forall|i: int| from <= i < to implies p[i] == q[i] by {
        assert(p[i] == p.subrange(from, to)[i - from]);
        assert(q[i] == q.subrange(from, to)[i - from]);
    }
}

/// Whether a byte of the page belongs to a field that a port write fills in.
pub open spec fn port_io_byte(i: int) -> bool {
    ||| 0x1f8 <= i < 0x200
    ||| 0x390 <= i < 0x398
    ||| 0x398 <= i < 0x3a0
    ||| 0x3a0 <= i < 0x3a8
    ||| 0x3a8 <= i < 0x3b0
    ||| 0x3f0 <= i < 0x400
    ||| 0xffa <= i < 0xffc
    ||| 0xffc <= i < 0x1000
}

/// Whether two blocks agree in all fields but those that a port write fills in.
spec fn same_other_fields(a: Ghcb, b: Ghcb) -> bool {
    b == (Ghcb {
        protocol_version: b.protocol_version,
        rax: b.rax,
        sw_exitcode: b.sw_exitcode,
        sw_exitinfo1: b.sw_exitinfo1,
        sw_exitinfo2: b.sw_exitinfo2,
        sw_scratch: b.sw_scratch,
        valid_bitmap: b.valid_bitmap,
        ghcb_usage: b.ghcb_usage,
        ..a
    })
}

proof fn lemma_other_bytes(a: Ghcb, b: Ghcb, p: Seq<u8>, q: Seq<u8>)
    requires
        a.laid_out(p),
        b.laid_out(q),
        same_other_fields(a, b),
    ensures
        forall|i: int| 0 <= i < GHCB_LEN && !port_io_byte(i) ==> p[i] == q[i],
{
    lemma_same_range(p, q, 0x0, 0xcb);
    lemma_same_range(p, q, 0xcc, 0x140);
    lemma_same_range(p, q, 0x140, 0x148);
    lemma_same_range(p, q, 0x148, 0x160);
    lemma_same_range(p, q, 0x160, 0x168);
    lemma_same_range(p, q, 0x168, 0x1f8);
    lemma_same_range(p, q, 0x200, 0x300);
    lemma_same_range(p, q, 0x300, 0x308);
    lemma_same_range(p, q, 0x308, 0x310);
    lemma_same_range(p, q, 0x310, 0x318);
    lemma_same_range(p, q, 0x318, 0x320);
    lemma_same_range(p, q, 0x320, 0x390);
    lemma_same_range(p, q, 0x3b0, 0x3e8);
    lemma_same_range(p, q, 0x3e8, 0x3f0);
    lemma_same_range(p, q, 0x400, 0x408);
    lemma_same_range(p, q, 0x408, 0x800);
    lemma_same_range(p, q, 0x800, 0xff0);
    lemma_same_range(p, q, 0xff0, 0xffa);
}

/// Filling in the block for a port write leaves every byte of the page as it was
/// but those of the fields that are filled in.
pub proof fn law_port_io_touches_only(
    ghcb: Ghcb,
    port: u16,
    value: u8,
    valid_bitmap: [u8; 0x10],
    p: Seq<u8>,
    q: Seq<u8>,
)
    requires
        ghcb.laid_out(p),
        ghcb.with_port_io(port, value, valid_bitmap).laid_out(q),
    ensures
        forall|i: int| 0 <= i < GHCB_LEN && !port_io_byte(i) ==> p[i] == q[i],
{
    lemma_other_bytes(ghcb, ghcb.with_port_io(port, value, valid_bitmap), p, q);
}

/// A port write marks as valid the eight-byte fields of the save area that it
/// fills in, and no others: `rax`, the exit code, the two exit infos and the
/// scratch address.
pub proof fn law_port_io_valid_bits(n: int)
    requires
        0 <= n < 128,
    ensures
        field_valid(port_io_bitmap(), n) <==> (n == 63 || 114 <= n <= 117),
{
    let k: u8 = (n % 8) as u8;
    assert((0x80u8 & (1u8 << k) != 0) == (k == 7)) by (bit_vector)
        requires
            k < 8,
    ;
    assert((0x3cu8 & (1u8 << k) != 0) == (2 <= k <= 5)) by (bit_vector)
        requires
            k < 8,
    ;
    assert(0u8 & (1u8 << k) == 0) by (bit_vector);
}

/// Each page of the range is asked for once, in order, and nothing else is: the
/// requests are as many as the pages, and the request number `k` is for the page
/// number `k`.
pub proof fn law_each_page_once(addr: u64, len: u64, private: bool, k: int)
    requires
        len % PAGE_SIZE == 0,
        addr + len <= u64::MAX,
        0 <= k < len as int / 0x1000,
    ensures
        page_requests(addr as int, (len / PAGE_SIZE) as nat, private).len() == 2 * (len as int
            / 0x1000),
        page_requests(addr as int, (len / PAGE_SIZE) as nat, private)[2 * k]
            == GhcbAction::WriteMsr(page_request((addr + 0x1000 * k) as u64, private)),
        page_requests(addr as int, (len / PAGE_SIZE) as nat, private)[2 * k + 1]
            == GhcbAction::VmgExit,
{
}

/// What the hypervisor reads from a request for a page below 2^52: the page's
/// number, the operation (1 private, 2 shared) and the number of the request.
pub proof fn law_page_request_fields(addr: u64, private: bool)
    requires
        addr < 0x10_0000_0000_0000,
    ensures
        page_request(addr, private) as int / 0x10_0000_0000_0000 == (if private {
            1int
        } else {
            2int
        }),
        page_request(addr, private) as int % 0x10_0000_0000_0000 / 0x1000 == addr as int / 0x1000,
        page_request(addr, private) % 0x1000 == 0x14,
{
    let p: u64 = 0x10_0000_0000_0000;
    let q: u64 = 0x20_0000_0000_0000;
    let r1: u64 = p | (addr & !0xfffu64) | 0x014u64;
    let r2: u64 = q | (addr & !0xfffu64) | 0x014u64;
    assert(r1 == p + (addr / 0x1000) * 0x1000 + 0x14) by (bit_vector)
        requires
            addr < 0x10_0000_0000_0000,
            p == 0x10_0000_0000_0000,
            r1 == p | (addr & !0xfffu64) | 0x014u64,
    ;
    assert(r2 == q + (addr / 0x1000) * 0x1000 + 0x14) by (bit_vector)
        requires
            addr < 0x10_0000_0000_0000,
            q == 0x20_0000_0000_0000,
            r2 == q | (addr & !0xfffu64) | 0x014u64,
    ;
}

/// Where the fields of the block stand in the page.
pub proof fn law_fields_in_page(ghcb: Ghcb, page: Seq<u8>)
    requires
        ghcb.laid_out(page),
    ensures
        page.len() == 0x1000,
        page[0xcb] == ghcb.cpl,
        u64_at(page, 0x140) == ghcb.xss,
        u64_at(page, 0x160) == ghcb.dr7,
        u64_at(page, 0x1f8) == ghcb.rax,
        u64_at(page, 0x300) == ghcb.reserved6,
        u64_at(page, 0x308) == ghcb.rcx,
        u64_at(page, 0x310) == ghcb.rdx,
        u64_at(page, 0x318) == ghcb.rbx,
        u64_at(page, 0x390) == ghcb.sw_exitcode,
        u64_at(page, 0x398) == ghcb.sw_exitinfo1,
        u64_at(page, 0x3a0) == ghcb.sw_exitinfo2,
        u64_at(page, 0x3a8) == ghcb.sw_scratch,
        u64_at(page, 0x3e8) == ghcb.xcr0,
        u64_at(page, 0x400) == ghcb.x86_state_gpa,
        u16_at(page, 0xffa) == ghcb.protocol_version,
        u32_at(page, 0xffc) == ghcb.ghcb_usage,
        forall|i: int| 0 <= i < 0xcb ==> page[i] == #[trigger] ghcb.reserved1@[i],
        forall|i: int| 0 <= i < 0x74 ==> page[0xcc + i] == #[trigger] ghcb.reserved2@[i],
        forall|i: int| 0 <= i < 0x18 ==> page[0x148 + i] == #[trigger] ghcb.reserved3@[i],
        forall|i: int| 0 <= i < 0x90 ==> page[0x168 + i] == #[trigger] ghcb.reserved4@[i],
        forall|i: int| 0 <= i < 0x100 ==> page[0x200 + i] == #[trigger] ghcb.reserved5@[i],
        forall|i: int| 0 <= i < 0x70 ==> page[0x320 + i] == #[trigger] ghcb.reserved7@[i],
        forall|i: int| 0 <= i < 0x38 ==> page[0x3b0 + i] == #[trigger] ghcb.reserved8@[i],
        forall|i: int| 0 <= i < 0x10 ==> page[0x3f0 + i] == #[trigger] ghcb.valid_bitmap@[i],
        forall|i: int| 0 <= i < 0x3f8 ==> page[0x408 + i] == #[trigger] ghcb.reserved9@[i],
        forall|i: int| 0 <= i < 0x7f0 ==> page[0x800 + i] == #[trigger] ghcb.shared_buf@[i],
        forall|i: int| 0 <= i < 0xa ==> page[0xff0 + i] == #[trigger] ghcb.reserved10@[i],
{
    lemma_digits_read(page, 0x140, ghcb.xss);
    lemma_digits_read(page, 0x160, ghcb.dr7);
    lemma_digits_read(page, 0x1f8, ghcb.rax);
    lemma_digits_read(page, 0x300, ghcb.reserved6);
    lemma_digits_read(page, 0x308, ghcb.rcx);
    lemma_digits_read(page, 0x310, ghcb.rdx);
    lemma_digits_read(page, 0x318, ghcb.rbx);
    lemma_digits_read(page, 0x390, ghcb.sw_exitcode);
    lemma_digits_read(page, 0x398, ghcb.sw_exitinfo1);
    lemma_digits_read(page, 0x3a0, ghcb.sw_exitinfo2);
    lemma_digits_read(page, 0x3a8, ghcb.sw_scratch);
    lemma_digits_read(page, 0x3e8, ghcb.xcr0);
    lemma_digits_read(page, 0x400, ghcb.x86_state_gpa);
    lemma_digits_read(page, 0xffa, ghcb.protocol_version as u64);
    lemma_digits_read(page, 0xffc, ghcb.ghcb_usage as u64);
    assert forall|i: int| 0 <= i < 0xcb implies page[i]
        == #[trigger] ghcb.reserved1@[i] by {
        assert(page.subrange(0x0, 0xcb)[i] == ghcb.reserved1@[i]);
    }
    assert forall|i: int| 0 <= i < 0x74 implies page[0xcc + i]
        == #[trigger] ghcb.reserved2@[i] by {
        assert(page.subrange(0xcc, 0x140)[i] == ghcb.reserved2@[i]);
    }
    assert forall|i: int| 0 <= i < 0x18 implies page[0x148 + i]
        == #[trigger] ghcb.reserved3@[i] by {
        assert(page.subrange(0x148, 0x160)[i] == ghcb.reserved3@[i]);
    }
    assert forall|i: int| 0 <= i < 0x90 implies page[0x168 + i]
        == #[trigger] ghcb.reserved4@[i] by {
        assert(page.subrange(0x168, 0x1f8)[i] == ghcb.reserved4@[i]);
    }
    assert forall|i: int| 0 <= i < 0x100 implies page[0x200 + i]
        == #[trigger] ghcb.reserved5@[i] by {
        assert(page.subrange(0x200, 0x300)[i] == ghcb.reserved5@[i]);
    }
    assert forall|i: int| 0 <= i < 0x70 implies page[0x320 + i]
        == #[trigger] ghcb.reserved7@[i] by {
        assert(page.subrange(0x320, 0x390)[i] == ghcb.reserved7@[i]);
    }
    assert forall|i: int| 0 <= i < 0x38 implies page[0x3b0 + i]
        == #[trigger] ghcb.reserved8@[i] by {
        assert(page.subrange(0x3b0, 0x3e8)[i] == ghcb.reserved8@[i]);
    }
    assert forall|i: int| 0 <= i < 0x10 implies page[0x3f0 + i]
        == #[trigger] ghcb.valid_bitmap@[i] by {
        assert(page.subrange(0x3f0, 0x400)[i] == ghcb.valid_bitmap@[i]);
    }
    assert forall|i: int| 0 <= i < 0x3f8 implies page[0x408 + i]
        == #[trigger] ghcb.reserved9@[i] by {
        assert(page.subrange(0x408, 0x800)[i] == ghcb.reserved9@[i]);
    }
    assert forall|i: int| 0 <= i < 0x7f0 implies page[0x800 + i]
        == #[trigger] ghcb.shared_buf@[i] by {
        assert(page.subrange(0x800, 0xff0)[i] == ghcb.shared_buf@[i]);
    }
    assert forall|i: int| 0 <= i < 0xa implies page[0xff0 + i]
        == #[trigger] ghcb.reserved10@[i] by {
        assert(page.subrange(0xff0, 0xffa)[i] == ghcb.reserved10@[i]);
    }
}

/// What the hypervisor reads from a page that was filled in for a port write is the
/// write that was asked for: an exit for port I/O (0x7b) whose information holds the
/// port in its upper part and a write of one byte (0x10) in its lower, with the value
/// in `rax`, no further information and no scratch area, and these fields, and no
/// others, marked as valid. Every other byte is as it was.
pub proof fn law_port_write_on_page(
    ghcb: Ghcb,
    port: u16,
    value: u8,
    valid_bitmap: [u8; 0x10],
    before: Seq<u8>,
    page: Seq<u8>,
)
    requires
        ghcb.laid_out(before),
        valid_bitmap@ == port_io_bitmap(),
        ghcb.with_port_io(port, value, valid_bitmap).laid_out(page),
    ensures
        u64_at(page, 0x390) == 0x7b,
        u64_at(page, 0x398) as int / 0x1_0000 == port,
        u64_at(page, 0x398) as int % 0x1_0000 == 0x10,
        u64_at(page, 0x3a0) == 0,
        u64_at(page, 0x3a8) == 0,
        u64_at(page, 0x1f8) == value,
        u16_at(page, 0xffa) == 2,
        u32_at(page, 0xffc) == 0,
        page[0x3f7] == 0x80,
        page[0x3fe] == 0x3c,
        forall|i: int| 0x3f0 <= i < 0x400 && i != 0x3f7 && i != 0x3fe ==> page[i] == 0,
        forall|i: int|
            0 <= i < 0x1000 && !(0x1f8 <= i < 0x200) && !(0x390 <= i < 0x3b0) && !(0x3f0 <= i
                < 0x400) && !(0xffa <= i) ==> page[i] == before[i],
{
    let after = ghcb.with_port_io(port, value, valid_bitmap);
    law_fields_in_page(after, page);
    law_port_io_touches_only(ghcb, port, value, valid_bitmap, before, page);
    assert forall|i: int|
        0 <= i < 0x1000 && !(0x1f8 <= i < 0x200) && !(0x390 <= i < 0x3b0) && !(0x3f0 <= i < 0x400)
            && !(0xffa <= i) implies page[i] == before[i] by {
        assert(!port_io_byte(i));
    }
    assert forall|i: int| 0x3f0 <= i < 0x400 implies page[i] == valid_bitmap@[i - 0x3f0] by {
        assert(page[0x3f0 + (i - 0x3f0)] == after.valid_bitmap@[i - 0x3f0]);
    }
}

/// Where the GHCB and its register are, and that a page has 4 KiB.
pub proof fn law_ghcb_places()
    ensures
        GHCB_ADDR == 0x3000 && GHCB_LEN == 0x1000,
        GHCB_MSR == 0xc001_0130,
        PAGE_SIZE == 0x1000,
{
}

} // verus!
