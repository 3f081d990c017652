//! Where the initrd lies in plain text before it is loaded.

use vstd::prelude::*;

use crate::load_state::Initrd;

verus! {

/// Length of a large page.
pub const LARGE_PAGE: u64 = 0x200000;

/// An address rounded down to a large page.
pub open spec fn large_page_of(addr: int) -> int {
    addr - addr % 0x200000
}

/// The length of the pages that the plain text of an initrd of `len` bytes takes
/// up: rounded up to a large page.
pub open spec fn size_aligned(len: int) -> int {
    if len % 0x200000 == 0 {
        len
    } else {
        large_page_of(len) + LARGE_PAGE
    }
}

/// Rounds an address down to a large page.
fn align_to_pagesize(address: u64) -> (aligned: u64)
    ensures
        aligned == large_page_of(address as int),
{
    let aligned: u64 = address & !(0x200000u64 - 1);
    assert(aligned == address - address % 0x200000) by (bit_vector)
        requires
            aligned == address & !0x1fffffu64,
    ;
    aligned
}

/// Where an initrd of `len` bytes that goes to `load_addr` lies in plain text:
/// just before its final place, from the beginning of a large page on.
pub fn place_initrd(load_addr: u64, len: u64) -> (initrd: Initrd)
    requires
        len <= large_page_of(load_addr as int),
    ensures
        initrd.load_addr == load_addr,
        initrd.len == len,
        initrd.plain_text_addr == large_page_of(large_page_of(load_addr as int) - len),
        initrd.size_aligned == size_aligned(len as int),
        initrd.plain_text_addr + initrd.size_aligned <= load_addr,
        initrd.plain_text_addr == (load_addr as int / 0x200000 * 0x200000 - len) / 0x200000
            * 0x200000,
        initrd.size_aligned == (len + 0x1fffff) / 0x200000 * 0x200000,
{
    let load_addr_aligned: u64 = align_to_pagesize(load_addr);
    let plain_text_addr: u64 = align_to_pagesize(load_addr_aligned - len);
    let masked: u64 = len & (LARGE_PAGE - 1);
    assert(masked == len % 0x200000) by (bit_vector)
        requires
            masked == len & 0x1fffffu64,
    ;
    let size_aligned: u64 = if masked != 0 {
        align_to_pagesize(len) + LARGE_PAGE
    } else {
        len
    };
    Initrd { plain_text_addr, load_addr, len, size_aligned }
}

/// The plain text of the initrd ends before its final place begins, and begins
/// with a large page.
pub proof fn law_plain_text_before_load(load_addr: u64, len: u64)
    requires
        len <= large_page_of(load_addr as int),
    ensures
        0 <= large_page_of(large_page_of(load_addr as int) - len),
        large_page_of(large_page_of(load_addr as int) - len) + len <= load_addr,
        large_page_of(large_page_of(load_addr as int) - len) % 0x200000 == 0,
{
}

/// The pages of the plain text, which are shared with the hypervisor, end before
/// the final place of the initrd begins.
pub proof fn law_window_before_load(load_addr: u64, len: u64)
    requires
        len <= large_page_of(load_addr as int),
    ensures
        large_page_of(large_page_of(load_addr as int) - len) + size_aligned(len as int)
            <= load_addr,
{
}

/// The pages of the plain text are whole large pages, and the initrd fits in
/// them.
pub proof fn law_pages_cover_initrd(len: u64)
    ensures
        len <= size_aligned(len as int) < len + LARGE_PAGE,
        size_aligned(len as int) % 0x200000 == 0,
{
}

} // verus!
