//! What the guest's memory holds when the kernel is entered.

use vstd::prelude::*;

use crate::boot::{with_ramdisk, with_setup_data};
use crate::bytes::{splice, u16_at, u32_at, u64_at};
use crate::fw_cfg::{hashes_agree, law_device_regions, FwCfg, KERNEL_LOAD_ADDR};
use crate::guest_laws::{
    apart, bytes_at, law_guest_loads, lemma_device_after, with_bytes, with_reply, Guest,
};
use crate::load_laws::{
    actions_before, advance, blocks_before, commands, fits, held, law_commands,
    law_measured_is_served, law_step, outcome, served, state_after, undisturbed, Input,
};
use crate::load_state::{loadable, next_loadable, phdr_at, Initrd, LoadState, Phase};
use crate::loader::{CPUID_PAGE_LEN, ZERO_PAGE_START};
use crate::measure::sha256;
use crate::mem::MemoryRegion;
use crate::reloc::relocated;
use crate::step_laws::{
    base_of, law_header_numbers, law_initrd_checked, law_initrd_copied, law_made_ready,
    law_program_header_numbers, law_regions, to_load,
};

verus! {

/// The boot parameters.
pub open spec fn zero_page() -> MemoryRegion {
    MemoryRegion { base: ZERO_PAGE_START, length: CPUID_PAGE_LEN }
}

/// The pages of the initrd's plain text.
pub open spec fn plain_text_window(initrd: Initrd) -> MemoryRegion {
    MemoryRegion { base: initrd.plain_text_addr, length: initrd.size_aligned }
}

/// Where the initrd is loaded.
pub open spec fn initrd_region(initrd: Initrd) -> MemoryRegion {
    MemoryRegion { base: initrd.load_addr, length: initrd.len }
}

/// Whether an address lies in a region.
pub open spec fn inside(region: MemoryRegion, a: int) -> bool {
    region.base <= a < region.base + region.length
}

/// Whether the hypervisor writes to the memory only that it shares with the guest:
/// the bounce buffer and the pages of the initrd's plain text.
pub open spec fn writes_shared_only(initrd: Initrd, reply: Map<int, u8>) -> bool {
    forall|a: int| #[trigger]
        reply.dom().contains(a) ==> inside(FwCfg::at_start().bounce_buffer, a) || inside(
            plain_text_window(initrd),
            a,
        )
}

/// Whether all that the hypervisor writes goes to shared memory.
pub open spec fn host_keeps_to_shared(initrd: Initrd, replies: Seq<Map<int, u8>>) -> bool {
    forall|j: int| 0 <= j < replies.len() ==> writes_shared_only(initrd, #[trigger] replies[j])
}

/// Whether a region has no address in common with shared memory.
pub open spec fn unshared(initrd: Initrd, region: MemoryRegion) -> bool {
    &&& apart(region, FwCfg::at_start().bounce_buffer)
    &&& apart(region, plain_text_window(initrd))
}

/// Whether neither the boot parameters nor the place of the initrd is shared, and
/// they have no address in common.
pub open spec fn initrd_placed(initrd: Initrd) -> bool {
    &&& unshared(initrd, zero_page())
    &&& unshared(initrd, initrd_region(initrd))
    &&& apart(zero_page(), initrd_region(initrd))
}

/// Whether the program header number `i` is that of a segment that is loaded.
pub open spec fn is_segment(s: LoadState, i: int) -> bool {
    0 <= i < s.phnum() && loadable(s.phdr(i))
}

/// Where the segment number `i` is loaded.
pub open spec fn segment_region(s: LoadState, i: int) -> MemoryRegion {
    MemoryRegion { base: s.segment_start(i) as u64, length: s.phdr(i).p_memsz }
}

/// Whether the segments have no address in common with each other, with shared
/// memory, with the boot parameters and with the place of the initrd.
pub open spec fn segments_placed(s: LoadState) -> bool {
    &&& forall|i: int| #[trigger]
        is_segment(s, i) ==> {
            &&& unshared(s.initrd, segment_region(s, i))
            &&& apart(segment_region(s, i), zero_page())
            &&& apart(segment_region(s, i), initrd_region(s.initrd))
        }
    &&& forall|i: int, j: int|
        #[trigger] is_segment(s, i) && #[trigger] is_segment(s, j) && i != j ==> apart(
            segment_region(s, i),
            segment_region(s, j),
        )
}

/// How many bytes the file holds of the segments before the program header number
/// `i`.
pub open spec fn file_bytes_before(phdrs: Seq<u8>, i: nat) -> nat
    decreases i,
{
    if i == 0 {
        0
    } else {
        let p = phdr_at(phdrs, i - 1);
        file_bytes_before(phdrs, (i - 1) as nat) + if loadable(p) {
            p.p_filesz as nat
        } else {
            0
        }
    }
}

/// Where the segment number `i` begins in what the hypervisor serves: the ELF
/// header, the program headers and the segments before it come first.
pub open spec fn served_at(s: LoadState, i: int) -> int {
    64 + s.phdrs.len() as int + file_bytes_before(s.phdrs, i as nat)
}

/// What the segment number `i` is made of: the bytes that were served for it, and
/// zeros behind them.
pub open spec fn segment_image(s: LoadState, served: Seq<u8>, i: int) -> Seq<u8> {
    served.subrange(served_at(s, i), served_at(s, i) + s.phdr(i).p_filesz) + Seq::new(
        (s.phdr(i).p_memsz - s.phdr(i).p_filesz) as nat,
        |j: int| 0u8,
    )
}

/// The part of a relocatable image in which the segment number `i` lies.
pub open spec fn segment_part(s: LoadState, image: Seq<u8>, i: int) -> Seq<u8> {
    let at = s.segment_start(i) - KERNEL_LOAD_ADDR;
    image.subrange(at, at + s.phdr(i).p_memsz)
}

impl LoadState {
    /// Whether all headers were read.
    pub open spec fn settled(self) -> bool {
        match self.phase {
            Phase::HeaderCopy | Phase::HeaderHash | Phase::PhdrCopy | Phase::PhdrHash => false,
            _ => true,
        }
    }

    /// Whether the kernel was loaded, and relocated if it can be.
    pub open spec fn kernel_loaded(self) -> bool {
        self.phase == Phase::KernelHash || self.hash_complete()
    }
}

proof fn lemma_reply_kept(
    memory: spec_fn(int) -> u8,
    initrd: Initrd,
    reply: Map<int, u8>,
    region: MemoryRegion,
)
    requires
        writes_shared_only(initrd, reply),
        unshared(initrd, region),
    ensures
        bytes_at(with_reply(memory, reply), region) == bytes_at(memory, region),
{
    let kept = bytes_at(with_reply(memory, reply), region);
    assert forall|i: int| 0 <= i < region.length implies #[trigger] kept[i] == bytes_at(
        memory,
        region,
    )[i] by {
        assert(!reply.dom().contains(region.base + i));
    }
    assert(kept =~= bytes_at(memory, region));
}

proof fn lemma_write_kept(
    memory: spec_fn(int) -> u8,
    written: MemoryRegion,
    b: Seq<u8>,
    region: MemoryRegion,
)
    requires
        b.len() == written.length,
        apart(written, region),
    ensures
        bytes_at(with_bytes(memory, written, b), region) == bytes_at(memory, region),
{
    assert(bytes_at(with_bytes(memory, written, b), region) =~= bytes_at(memory, region));
}

proof fn lemma_write_read(memory: spec_fn(int) -> u8, region: MemoryRegion, b: Seq<u8>)
    requires
        b.len() == region.length,
    ensures
        bytes_at(with_bytes(memory, region, b), region) == b,
{
    assert(bytes_at(with_bytes(memory, region, b), region) =~= b);
}

/// What holds of the states of a guest, and of what its steps leave.
proof fn lemma_guest_valid(
    initrd: Initrd,
    memory: spec_fn(int) -> u8,
    replies: Seq<Map<int, u8>>,
    k: nat,
)
    requires
        k <= replies.len(),
    ensures
        Guest::initial(initrd, memory).after(replies, k).state.valid(),
        Guest::initial(initrd, memory).after(replies, k).state.initrd == initrd,
{
    let g = Guest::initial(initrd, memory);
    law_guest_loads(g, replies, k);
    law_commands(FwCfg::at_start(), initrd, g.inputs(replies), k);
    lemma_device_after(initrd, memory, replies, k);
}

/// The length of what a step leaves, and that a load that has halted stays so.
proof fn lemma_step_basics(s: LoadState, input: Input)
    requires
        s.valid(),
        input.source.len() == s.source_region().length,
        input.target.len() == s.target_region().length,
    ensures
        advance(s, input).target.len() == s.target_region().length,
        s.phase is Halted ==> advance(s, input).state.phase is Halted,
        s.settled() ==> advance(s, input).state.settled() && advance(s, input).state.header
            == s.header && advance(s, input).state.phdrs == s.phdrs,
        advance(s, input).state.initrd == s.initrd,
{
    reveal(advance);
    law_step(s, input.source, input.target);
}

impl LoadState {
    /// Whether the load is at the first segment from the program header number `i`
    /// on, or behind the segments if there is none.
    spec fn at_segment_from(self, i: nat) -> bool {
        let j = next_loadable(self.phdrs, self.phnum(), i);
        self.phase == if j < self.phnum() {
            Phase::SegmentCopy { index: j as usize, offset: 0 }
        } else if self.relocatable() {
            Phase::Relocate
        } else {
            Phase::KernelHash
        }
    }
}

/// The segments are entered when all headers were hashed.
proof fn lemma_first_segment(s: LoadState, input: Input)
    requires
        s.valid(),
        !s.settled(),
        advance(s, input).state.settled(),
        !(advance(s, input).state.phase is Halted),
    ensures
        advance(s, input).state.phdrs_ok(),
        advance(s, input).state.message.len() == 64 + advance(s, input).state.phdrs.len(),
        advance(s, input).state.at_segment_from(0),
{
    reveal(advance);
}

/// A block is copied.
proof fn lemma_copy_step(s: LoadState, input: Input, index: usize, offset: u64)
    requires
        s.valid(),
        s.phase == (Phase::SegmentCopy { index, offset }),
        input.target.len() == s.target_region().length,
        !(advance(s, input).state.phase is Halted),
    ensures
        ({
            let n = s.block_len(index as int, offset);
            &&& offset + n <= input.target.len()
            &&& advance(s, input).state == s.at(Phase::SegmentHash { index, offset })
            &&& advance(s, input).target == splice(
                input.target,
                offset as int,
                input.source.subrange(0, n),
            )
        }),
{
    reveal(advance);
}

/// A block is hashed.
proof fn lemma_hash_step(s: LoadState, input: Input, index: usize, offset: u64)
    requires
        s.valid(),
        s.phase == (Phase::SegmentHash { index, offset }),
        input.target.len() == s.target_region().length,
        !(advance(s, input).state.phase is Halted),
    ensures
        ({
            let n = s.block_len(index as int, offset);
            let p = s.phdr(index as int);
            let t = advance(s, input).state;
            let end = s.segment_start(index as int) + p.p_memsz;
            &&& t.message == s.message + input.target.subrange(offset as int, offset + n)
            &&& t.header == s.header
            &&& t.phdrs == s.phdrs
            &&& t.max_addr >= s.max_addr
            &&& offset + n < p.p_filesz ==> {
                &&& t.phase == Phase::SegmentCopy { index, offset: (offset + n) as u64 }
                &&& advance(s, input).target == input.target
            }
            &&& offset + n >= p.p_filesz ==> {
                &&& offset + n == p.p_filesz
                &&& end <= t.max_addr
                &&& t.at_segment_from((index + 1) as nat)
                &&& advance(s, input).target == input.target.subrange(0, p.p_filesz as int)
                    + Seq::new((p.p_memsz - p.p_filesz) as nat, |j: int| 0u8)
            }
        }),
{
    reveal(advance);
}

/// What the steps behind the segments leave as it is.
proof fn lemma_tail_step(s: LoadState, input: Input)
    requires
        s.valid(),
        s.kernel_loaded() || s.phase == Phase::Relocate,
        input.source.len() == s.source_region().length,
        input.target.len() == s.target_region().length,
        !(advance(s, input).state.phase is Halted),
    ensures
        ({
            let t = advance(s, input).state;
            &&& t.kernel_loaded()
            &&& t.message == s.message
            &&& t.header == s.header
            &&& t.phdrs == s.phdrs
            &&& t.initrd == s.initrd
            &&& t.max_addr == s.max_addr
            &&& s.phase == Phase::Relocate ==> {
                &&& t.phase == Phase::KernelHash
                &&& relocated(input.target, input.source).1 is None
                &&& advance(s, input).target == relocated(input.target, input.source).0
            }
        }),
{
    reveal(advance);
}

/// No segment lies between a program header and the next loadable one.
proof fn lemma_skipped(phdrs: Seq<u8>, n: nat, i: nat)
    requires
        i <= n,
    ensures
        i <= next_loadable(phdrs, n, i) <= n,
        forall|l: int| i <= l < next_loadable(phdrs, n, i) ==> !loadable(
            #[trigger] phdr_at(phdrs, l),
        ),
        file_bytes_before(phdrs, next_loadable(phdrs, n, i)) == file_bytes_before(phdrs, i),
    decreases n - i,
{
    if i < n && !loadable(phdr_at(phdrs, i as int)) {
        lemma_skipped(phdrs, n, i + 1);
    }
}

impl Guest {
    /// Whether the segment number `i` is in memory, as far as it was hashed.
    spec fn segment_held(self, i: int) -> bool {
        let s = self.state;
        &&& bytes_at(self.memory, segment_region(s, i)) == segment_image(s, s.message, i)
        &&& s.phdr(i).p_filesz <= s.phdr(i).p_memsz
        &&& served_at(s, i) + s.phdr(i).p_filesz <= s.message.len()
        &&& s.segment_start(i) + s.phdr(i).p_memsz <= s.max_addr
    }

    /// Whether the segments before the program header number `i` are in memory.
    spec fn segments_held(self, i: int) -> bool {
        forall|l: int| #[trigger] is_segment(self.state, l) && l < i ==> self.segment_held(l)
    }

    /// What of the kernel is in memory.
    spec fn kernel_held(self) -> bool {
        let s = self.state;
        match s.phase {
            Phase::SegmentCopy { index, offset } | Phase::SegmentHash { index, offset } => {
                let at = served_at(s, index as int);
                &&& s.message.len() == at + offset
                &&& offset <= s.phdr(index as int).p_memsz
                &&& self.segments_held(index as int)
                &&& bytes_at(self.memory, segment_region(s, index as int)).subrange(
                    0,
                    offset as int,
                ) == s.message.subrange(at, at + offset)
            },
            Phase::Relocate => s.relocatable() && self.segments_held(s.phnum() as int),
            _ => s.kernel_loaded() && !s.relocatable() ==> self.segments_held(s.phnum() as int),
        }
    }
}

/// Entering the next segment.
proof fn lemma_enter(g: Guest, i: nat)
    requires
        g.state.phdrs_ok(),
        i <= g.state.phnum(),
        g.state.at_segment_from(i),
        g.state.message.len() == served_at(g.state, i as int),
        g.segments_held(i as int),
    ensures
        g.kernel_held(),
{
    let s = g.state;
    let j = next_loadable(s.phdrs, s.phnum(), i);
    lemma_skipped(s.phdrs, s.phnum(), i);
    assert forall|l: int| #[trigger] is_segment(s, l) && l < j implies g.segment_held(l) by {
        assert(s.phdr(l) == phdr_at(s.phdrs, l));
    }
    if j < s.phnum() {
        assert(bytes_at(g.memory, segment_region(s, j as int)).subrange(0, 0)
            =~= s.message.subrange(s.message.len() as int, s.message.len() as int));
    }
}

/// A segment stays in memory if its bytes do and what was hashed goes on.
proof fn lemma_still_held(g: Guest, h: Guest, l: int)
    requires
        g.segment_held(l),
        is_segment(g.state, l),
        h.state.header == g.state.header,
        h.state.phdrs == g.state.phdrs,
        h.state.max_addr >= g.state.max_addr,
        g.state.message.len() <= h.state.message.len(),
        h.state.message.subrange(0, g.state.message.len() as int) == g.state.message,
        bytes_at(h.memory, segment_region(g.state, l)) == bytes_at(
            g.memory,
            segment_region(g.state, l),
        ),
    ensures
        h.segment_held(l),
{
    let at = served_at(g.state, l);
    let n = g.state.phdr(l).p_filesz as int;
    assert(h.state.message.subrange(at, at + n) =~= g.state.message.subrange(at, at + n));
}

/// A step leaves a region as it is that is not shared and not the step's to change.
proof fn lemma_region_step(g: Guest, reply: Map<int, u8>, region: MemoryRegion)
    requires
        g.state.valid(),
        writes_shared_only(g.state.initrd, reply),
        unshared(g.state.initrd, region),
        apart(g.state.target_region(), region),
    ensures
        bytes_at(g.next(reply).memory, region) == bytes_at(g.memory, region),
{
    let out = advance(g.state, g.input(reply));
    lemma_step_basics(g.state, g.input(reply));
    lemma_reply_kept(g.memory, g.state.initrd, reply, region);
    lemma_write_kept(
        with_reply(g.memory, reply),
        g.state.target_region(),
        out.target,
        region,
    );
}

/// What a step leaves in the region that is its to change.
proof fn lemma_target_step(g: Guest, reply: Map<int, u8>)
    requires
        g.state.valid(),
    ensures
        bytes_at(g.next(reply).memory, g.state.target_region()) == advance(
            g.state,
            g.input(reply),
        ).target,
{
    lemma_step_basics(g.state, g.input(reply));
    lemma_write_read(
        with_reply(g.memory, reply),
        g.state.target_region(),
        advance(g.state, g.input(reply)).target,
    );
}

/// The segments before the one that a step works on stay in memory.
proof fn lemma_others_held(g: Guest, reply: Map<int, u8>, index: int)
    requires
        g.state.valid(),
        segments_placed(g.state),
        writes_shared_only(g.state.initrd, reply),
        is_segment(g.state, index),
        g.state.target_region() == segment_region(g.state, index),
        g.segments_held(index),
        g.next(reply).state.header == g.state.header,
        g.next(reply).state.phdrs == g.state.phdrs,
        g.next(reply).state.max_addr >= g.state.max_addr,
        g.state.message.len() <= g.next(reply).state.message.len(),
        g.next(reply).state.message.subrange(0, g.state.message.len() as int) == g.state.message,
    ensures
        g.next(reply).segments_held(index),
{
    let h = g.next(reply);
    assert forall|l: int| #[trigger] is_segment(h.state, l) && l < index implies h.segment_held(
        l,
    ) by {
        assert(is_segment(g.state, l));
        assert(g.segment_held(l));
        lemma_region_step(g, reply, segment_region(g.state, l));
        lemma_still_held(g, h, l);
    }
}

proof fn lemma_copy_held(g: Guest, reply: Map<int, u8>, index: usize, offset: u64)
    requires
        g.state.valid(),
        segments_placed(g.state),
        writes_shared_only(g.state.initrd, reply),
        g.state.phase == (Phase::SegmentCopy { index, offset }),
        !(g.next(reply).state.phase is Halted),
        g.kernel_held(),
    ensures
        g.next(reply).kernel_held(),
{
    let s = g.state;
    let h = g.next(reply);
    let r = segment_region(s, index as int);
    assert(is_segment(s, index as int));
    lemma_copy_step(s, g.input(reply), index, offset);
    lemma_reply_kept(g.memory, s.initrd, reply, r);
    lemma_target_step(g, reply);
    assert(h.state.message.subrange(0, s.message.len() as int) =~= s.message);
    lemma_others_held(g, reply, index as int);
    assert(bytes_at(h.memory, r).subrange(0, offset as int) =~= bytes_at(g.memory, r).subrange(
        0,
        offset as int,
    ));
}

proof fn lemma_hash_held(g: Guest, reply: Map<int, u8>, index: usize, offset: u64)
    requires
        g.state.valid(),
        segments_placed(g.state),
        writes_shared_only(g.state.initrd, reply),
        g.state.phase == (Phase::SegmentHash { index, offset }),
        !(g.next(reply).state.phase is Halted),
        g.kernel_held(),
    ensures
        g.next(reply).kernel_held(),
{
    let s = g.state;
    let h = g.next(reply);
    let r = segment_region(s, index as int);
    let p = s.phdr(index as int);
    let n = s.block_len(index as int, offset);
    let at = served_at(s, index as int);
    let target = g.input(reply).target;
    assert(is_segment(s, index as int));
    lemma_hash_step(s, g.input(reply), index, offset);
    lemma_reply_kept(g.memory, s.initrd, reply, r);
    lemma_target_step(g, reply);
    assert(target == bytes_at(g.memory, r));
    assert(h.state.message.subrange(0, s.message.len() as int) =~= s.message);
    lemma_others_held(g, reply, index as int);
    let loaded = target.subrange(0, offset + n);
    let hashed = h.state.message.subrange(at, at + offset + n);
    assert forall|i: int| 0 <= i < offset + n implies #[trigger] loaded[i] == hashed[i] by {
        if i < offset {
            assert(target.subrange(0, offset as int)[i] == s.message.subrange(at, at + offset)[i]);
        }
    }
    assert(loaded =~= hashed);
    if offset + n < p.p_filesz {
        assert(bytes_at(h.memory, r) == target);
    } else {
        assert(bytes_at(h.memory, r) == segment_image(h.state, h.state.message, index as int));
        assert forall|l: int| #[trigger]
            is_segment(h.state, l) && l < index + 1 implies h.segment_held(l) by {
            if l == index {
                assert(h.segment_held(l));
            }
        }
        assert(served_at(h.state, index + 1) == at + p.p_filesz) by {
            assert(phdr_at(s.phdrs, index as int) == p);
        }
        lemma_enter(h, (index + 1) as nat);
    }
}

/// Behind the segments, they stay in memory.
proof fn lemma_tail_region(g: Guest, reply: Map<int, u8>, i: int)
    requires
        g.state.valid(),
        g.state.kernel_loaded(),
        segments_placed(g.state),
        writes_shared_only(g.state.initrd, reply),
        is_segment(g.state, i),
    ensures
        bytes_at(g.next(reply).memory, segment_region(g.state, i)) == bytes_at(
            g.memory,
            segment_region(g.state, i),
        ),
{
    lemma_region_step(g, reply, segment_region(g.state, i));
}

proof fn lemma_tail_held(g: Guest, reply: Map<int, u8>)
    requires
        g.state.valid(),
        segments_placed(g.state),
        writes_shared_only(g.state.initrd, reply),
        g.state.kernel_loaded() || g.state.phase == Phase::Relocate,
        !(g.next(reply).state.phase is Halted),
        g.kernel_held(),
    ensures
        g.next(reply).kernel_held(),
{
    let h = g.next(reply);
    lemma_tail_step(g.state, g.input(reply));
    if !g.state.relocatable() {
        assert(h.state.message.subrange(0, g.state.message.len() as int) =~= g.state.message);
        assert forall|l: int| #[trigger] is_segment(h.state, l) implies h.segment_held(l) by {
            assert(is_segment(g.state, l));
            assert(g.segment_held(l));
            lemma_tail_region(g, reply, l);
            lemma_still_held(g, h, l);
        }
    }
}

/// Segments are placed alike in states with the same headers.
proof fn lemma_placed_alike(s: LoadState, t: LoadState)
    requires
        segments_placed(t),
        s.header == t.header,
        s.phdrs == t.phdrs,
        s.initrd == t.initrd,
    ensures
        segments_placed(s),
{
    assert forall|i: int| #[trigger] is_segment(s, i) implies {
        &&& unshared(s.initrd, segment_region(s, i))
        &&& apart(segment_region(s, i), zero_page())
        &&& apart(segment_region(s, i), initrd_region(s.initrd))
    } by {
        assert(is_segment(t, i));
    }
    assert forall|i: int, j: int|
        #[trigger] is_segment(s, i) && #[trigger] is_segment(s, j) && i != j implies apart(
        segment_region(s, i),
        segment_region(s, j),
    ) by {
        assert(is_segment(t, i) && is_segment(t, j));
    }
}

/// What holds of two states of a guest, one step after the other.
proof fn lemma_guest_step(
    initrd: Initrd,
    memory: spec_fn(int) -> u8,
    replies: Seq<Map<int, u8>>,
    j: nat,
)
    requires
        j < replies.len(),
        host_keeps_to_shared(initrd, replies),
    ensures
        ({
            let g = Guest::initial(initrd, memory).after(replies, j);
            let h = Guest::initial(initrd, memory).after(replies, j + 1);
            &&& h == g.next(replies[j as int])
            &&& g.state.valid()
            &&& g.state.initrd == initrd
            &&& h.state.initrd == initrd
            &&& writes_shared_only(initrd, replies[j as int])
            &&& g.state.phase is Halted ==> h.state.phase is Halted
            &&& g.state.settled() ==> {
                &&& h.state.settled()
                &&& h.state.header == g.state.header
                &&& h.state.phdrs == g.state.phdrs
                &&& segments_placed(h.state) ==> segments_placed(g.state)
            }
        }),
{
    let g = Guest::initial(initrd, memory).after(replies, j);
    let h = Guest::initial(initrd, memory).after(replies, j + 1);
    lemma_guest_valid(initrd, memory, replies, j);
    lemma_step_basics(g.state, g.input(replies[j as int]));
    if g.state.settled() && segments_placed(h.state) {
        lemma_placed_alike(g.state, h.state);
    }
}

/// While segments are loaded, and behind them, what was loaded is in memory.
proof fn lemma_kernel_held(
    initrd: Initrd,
    memory: spec_fn(int) -> u8,
    replies: Seq<Map<int, u8>>,
    k: nat,
)
    requires
        k <= replies.len(),
        host_keeps_to_shared(initrd, replies),
        Guest::initial(initrd, memory).after(replies, k).state.settled(),
        !(Guest::initial(initrd, memory).after(replies, k).state.phase is Halted),
        segments_placed(Guest::initial(initrd, memory).after(replies, k).state),
    ensures
        Guest::initial(initrd, memory).after(replies, k).kernel_held(),
    decreases k,
{
    if k > 0 {
        let j = (k - 1) as nat;
        let g = Guest::initial(initrd, memory).after(replies, j);
        let h = Guest::initial(initrd, memory).after(replies, k);
        let reply = replies[j as int];
        lemma_guest_step(initrd, memory, replies, j);
        if g.state.settled() {
            lemma_kernel_held(initrd, memory, replies, j);
            match g.state.phase {
                Phase::SegmentCopy { index, offset } => {
                    lemma_copy_held(g, reply, index, offset);
                },
                Phase::SegmentHash { index, offset } => {
                    lemma_hash_held(g, reply, index, offset);
                },
                _ => {
                    lemma_tail_held(g, reply);
                },
            }
        } else {
            lemma_first_segment(g.state, g.input(reply));
            lemma_enter(h, 0);
        }
    }
}

/// The headers of a guest that has read them all stay as they are, and a guest that
/// has halted stays so.
proof fn lemma_forward(
    initrd: Initrd,
    memory: spec_fn(int) -> u8,
    replies: Seq<Map<int, u8>>,
    j: nat,
    k: nat,
)
    requires
        j <= k <= replies.len(),
        host_keeps_to_shared(initrd, replies),
    ensures
        ({
            let s = Guest::initial(initrd, memory).after(replies, j).state;
            let t = Guest::initial(initrd, memory).after(replies, k).state;
            &&& s.phase is Halted ==> t.phase is Halted
            &&& s.settled() ==> {
                &&& t.settled()
                &&& t.header == s.header
                &&& t.phdrs == s.phdrs
                &&& segments_placed(t) ==> segments_placed(s)
            }
        }),
    decreases k - j,
{
    if j < k {
        lemma_forward(initrd, memory, replies, j, (k - 1) as nat);
        lemma_guest_step(initrd, memory, replies, (k - 1) as nat);
    }
}

/// In a guest whose regions are placed apart, nobody else changes the memory that
/// the steps work on.
proof fn lemma_undisturbed(
    initrd: Initrd,
    memory: spec_fn(int) -> u8,
    replies: Seq<Map<int, u8>>,
)
    requires
        host_keeps_to_shared(initrd, replies),
        initrd_placed(initrd),
        segments_placed(Guest::initial(initrd, memory).after(replies, replies.len()).state),
        !(Guest::initial(initrd, memory).after(replies, replies.len()).state.phase is Halted),
    ensures
        undisturbed(
            Guest::initial(initrd, memory).state,
            Guest::initial(initrd, memory).inputs(replies),
        ),
{
    let first = Guest::initial(initrd, memory);
    let s = first.state;
    let inputs = first.inputs(replies);
    assert forall|k: nat| #![trigger outcome(s, inputs, k)]
        k + 1 < inputs.len() && state_after(s, inputs, k).target_region() == state_after(
            s,
            inputs,
            k + 1,
        ).target_region() implies inputs[k as int + 1].target == outcome(s, inputs, k).target by {
        let g = first.after(replies, k);
        let h = first.after(replies, k + 1);
        let region = g.state.target_region();
        law_guest_loads(first, replies, k);
        law_guest_loads(first, replies, k + 1);
        lemma_guest_step(initrd, memory, replies, k);
        lemma_guest_step(initrd, memory, replies, k + 1);
        lemma_forward(initrd, memory, replies, k, replies.len());
        lemma_forward(initrd, memory, replies, k + 1, replies.len());
        assert(inputs[k as int] == g.input(replies[k as int]));
        assert(inputs[k as int + 1] == h.input(replies[k as int + 1]));
        match g.state.phase {
            Phase::SegmentCopy { index, .. } | Phase::SegmentHash { index, .. } => {
                assert(is_segment(g.state, index as int));
            },
            Phase::Relocate => {
                lemma_tail_step(g.state, g.input(replies[k as int]));
            },
            _ => {},
        }
        assert(unshared(initrd, region));
        lemma_target_step(g, replies[k as int]);
        lemma_reply_kept(h.memory, initrd, replies[k as int + 1], region);
    }
}

/// What the hypervisor has served to a guest for its kernel.
pub open spec fn served_to(
    initrd: Initrd,
    memory: spec_fn(int) -> u8,
    replies: Seq<Map<int, u8>>,
) -> Seq<u8> {
    let first = Guest::initial(initrd, memory);
    served(first.state, first.inputs(replies), replies.len())
}

proof fn lemma_served(initrd: Initrd, memory: spec_fn(int) -> u8, replies: Seq<Map<int, u8>>)
    requires
        host_keeps_to_shared(initrd, replies),
        initrd_placed(initrd),
        segments_placed(Guest::initial(initrd, memory).after(replies, replies.len()).state),
        Guest::initial(initrd, memory).after(replies, replies.len()).state.kernel_loaded(),
    ensures
        served_to(initrd, memory, replies) == Guest::initial(initrd, memory).after(
            replies,
            replies.len(),
        ).state.message,
{
    let first = Guest::initial(initrd, memory);
    let n = replies.len();
    let t = first.after(replies, n).state;
    law_guest_loads(first, replies, n);
    lemma_undisturbed(initrd, memory, replies);
    law_measured_is_served(FwCfg::at_start(), initrd, first.inputs(replies), n);
    assert(t.message + t.pending(held(first.state, first.inputs(replies), n)) =~= t.message);
}

/// When a kernel that cannot be relocated is loaded, and until it is entered, the
/// memory of each of its segments holds the bytes that were served for it, and
/// zeros behind them.
pub proof fn law_fixed_kernel_in_memory(
    initrd: Initrd,
    memory: spec_fn(int) -> u8,
    replies: Seq<Map<int, u8>>,
    i: int,
)
    requires
        host_keeps_to_shared(initrd, replies),
        initrd_placed(initrd),
        ({
            let s = Guest::initial(initrd, memory).after(replies, replies.len()).state;
            &&& s.kernel_loaded()
            &&& !s.relocatable()
            &&& segments_placed(s)
            &&& is_segment(s, i)
        }),
    ensures
        ({
            let g = Guest::initial(initrd, memory).after(replies, replies.len());
            let all = served_to(initrd, memory, replies);
            &&& g.state.phdr(i).p_filesz <= g.state.phdr(i).p_memsz
            &&& served_at(g.state, i) + g.state.phdr(i).p_filesz <= all.len()
            &&& bytes_at(g.memory, segment_region(g.state, i)) == segment_image(g.state, all, i)
        }),
{
    let g = Guest::initial(initrd, memory).after(replies, replies.len());
    lemma_kernel_held(initrd, memory, replies, replies.len());
    lemma_served(initrd, memory, replies);
    assert(g.segment_held(i));
}

/// Whether the guest `g` relocates its kernel next, to the effect that the guest
/// `h`, which has come further, has in memory: the image that was relocated had in
/// the part of each segment what was served for it, and the memory of each segment
/// holds that part of the image as relocated by the tables that were served.
pub open spec fn relocated_from(
    g: Guest,
    reply: Map<int, u8>,
    h: Guest,
    served: Seq<u8>,
) -> bool {
    let image = g.input(reply).target;
    let tables = g.input(reply).source;
    &&& g.state.phase == Phase::Relocate
    &&& relocated(image, tables).1 is None
    &&& forall|i: int| #[trigger]
        is_segment(h.state, i) ==> {
            &&& segment_part(h.state, image, i) == segment_image(h.state, served, i)
            &&& bytes_at(h.memory, segment_region(h.state, i)) == segment_part(
                h.state,
                relocated(image, tables).0,
                i,
            )
        }
}

/// The memory of a segment is part of the memory of the image.
proof fn lemma_part(memory: spec_fn(int) -> u8, s: LoadState, i: int)
    requires
        s.relocatable(),
        s.segment_start(i) + s.phdr(i).p_memsz <= s.max_addr,
    ensures
        bytes_at(memory, segment_region(s, i)) == segment_part(
            s,
            bytes_at(
                memory,
                MemoryRegion {
                    base: KERNEL_LOAD_ADDR,
                    length: (s.max_addr - KERNEL_LOAD_ADDR) as u64,
                },
            ),
            i,
        ),
{
    assert(bytes_at(memory, segment_region(s, i)) =~= segment_part(
        s,
        bytes_at(
            memory,
            MemoryRegion { base: KERNEL_LOAD_ADDR, length: (s.max_addr - KERNEL_LOAD_ADDR) as u64 },
        ),
        i,
    ));
}

proof fn lemma_relocate_held(g: Guest, reply: Map<int, u8>)
    requires
        g.state.valid(),
        segments_placed(g.state),
        writes_shared_only(g.state.initrd, reply),
        g.state.phase == Phase::Relocate,
        !(g.next(reply).state.phase is Halted),
        g.kernel_held(),
    ensures
        relocated_from(g, reply, g.next(reply), g.next(reply).state.message),
{
    let s = g.state;
    let h = g.next(reply);
    lemma_tail_step(s, g.input(reply));
    lemma_target_step(g, reply);
    assert forall|i: int| #[trigger] is_segment(h.state, i) implies {
        &&& segment_part(h.state, g.input(reply).target, i) == segment_image(
            h.state,
            h.state.message,
            i,
        )
        &&& bytes_at(h.memory, segment_region(h.state, i)) == segment_part(
            h.state,
            relocated(g.input(reply).target, g.input(reply).source).0,
            i,
        )
    } by {
        assert(is_segment(s, i));
        assert(g.segment_held(i));
        lemma_reply_kept(g.memory, s.initrd, reply, segment_region(s, i));
        lemma_part(with_reply(g.memory, reply), s, i);
        lemma_part(h.memory, s, i);
    }
}

proof fn lemma_relocated(
    initrd: Initrd,
    memory: spec_fn(int) -> u8,
    replies: Seq<Map<int, u8>>,
    k: nat,
)
    requires
        k <= replies.len(),
        host_keeps_to_shared(initrd, replies),
        Guest::initial(initrd, memory).after(replies, k).state.kernel_loaded(),
        Guest::initial(initrd, memory).after(replies, k).state.relocatable(),
        segments_placed(Guest::initial(initrd, memory).after(replies, k).state),
    ensures
        exists|j: nat|
            j < k && #[trigger] relocated_from(
                Guest::initial(initrd, memory).after(replies, j),
                replies[j as int],
                Guest::initial(initrd, memory).after(replies, k),
                Guest::initial(initrd, memory).after(replies, k).state.message,
            ),
    decreases k,
{
    if k > 0 {
        let first = Guest::initial(initrd, memory);
        let j = (k - 1) as nat;
        let g = first.after(replies, j);
        let h = first.after(replies, k);
        let reply = replies[j as int];
        lemma_guest_step(initrd, memory, replies, j);
        if !g.state.settled() {
            lemma_first_segment(g.state, g.input(reply));
        } else if g.state.phase == Phase::Relocate {
            lemma_kernel_held(initrd, memory, replies, j);
            lemma_relocate_held(g, reply);
            assert(relocated_from(first.after(replies, j), replies[j as int], h, h.state.message));
        } else if g.state.kernel_loaded() {
            lemma_relocated(initrd, memory, replies, j);
            lemma_tail_step(g.state, g.input(reply));
            let l = choose|l: nat|
                l < j && #[trigger] relocated_from(
                    first.after(replies, l),
                    replies[l as int],
                    g,
                    g.state.message,
                );
            assert(relocated_from(
                first.after(replies, l),
                replies[l as int],
                h,
                h.state.message,
            )) by {
                assert forall|i: int| #[trigger] is_segment(h.state, i) implies bytes_at(
                    h.memory,
                    segment_region(h.state, i),
                ) == bytes_at(g.memory, segment_region(h.state, i)) && is_segment(
                    g.state,
                    i,
                ) by {
                    assert(is_segment(g.state, i));
                    lemma_tail_region(g, reply, i);
                }
            }
        } else {
            match g.state.phase {
                Phase::SegmentCopy { index, offset } => {
                    lemma_copy_step(g.state, g.input(reply), index, offset);
                },
                Phase::SegmentHash { index, offset } => {
                    lemma_hash_step(g.state, g.input(reply), index, offset);
                },
                _ => {},
            }
        }
    }
}

/// When a relocatable kernel is loaded, and until it is entered, the memory of each
/// of its segments holds the bytes that were served for it, with zeros behind them,
/// as relocated by the tables that were served.
pub proof fn law_relocated_kernel_in_memory(
    initrd: Initrd,
    memory: spec_fn(int) -> u8,
    replies: Seq<Map<int, u8>>,
)
    requires
        host_keeps_to_shared(initrd, replies),
        initrd_placed(initrd),
        ({
            let s = Guest::initial(initrd, memory).after(replies, replies.len()).state;
            &&& s.kernel_loaded()
            &&& s.relocatable()
            &&& segments_placed(s)
        }),
    ensures
        exists|j: nat|
            j < replies.len() && #[trigger] relocated_from(
                Guest::initial(initrd, memory).after(replies, j),
                replies[j as int],
                Guest::initial(initrd, memory).after(replies, replies.len()),
                served_to(initrd, memory, replies),
            ),
{
    lemma_relocated(initrd, memory, replies, replies.len());
    lemma_served(initrd, memory, replies);
}

/// What the boot parameters are that were `page` at first.
spec fn page_at(s: LoadState, page: Seq<u8>) -> Seq<u8> {
    let entered = with_ramdisk(
        page,
        (s.initrd.load_addr % 0x1_0000_0000) as u32,
        (s.initrd.len % 0x1_0000_0000) as u32,
    );
    match s.phase {
        Phase::SetupData => entered,
        Phase::InitrdCopy
        | Phase::InitrdHash
        | Phase::Boot
        | Phase::Done
        | Phase::Rejected => with_setup_data(entered),
        _ => page,
    }
}

/// How a step changes the boot parameters.
proof fn lemma_page_step(s: LoadState, input: Input, page: Seq<u8>)
    requires
        s.valid(),
        !(advance(s, input).state.phase is Halted),
        s.phase == Phase::Ramdisk || s.phase == Phase::SetupData ==> input.target == page_at(
            s,
            page,
        ),
    ensures
        s.phase == Phase::Ramdisk || s.phase == Phase::SetupData ==> advance(s, input).target
            == page_at(advance(s, input).state, page),
        s.phase != Phase::Ramdisk && s.phase != Phase::SetupData ==> page_at(
            advance(s, input).state,
            page,
        ) == page_at(s, page),
{
    reveal(advance);
}

proof fn lemma_page(
    initrd: Initrd,
    memory: spec_fn(int) -> u8,
    replies: Seq<Map<int, u8>>,
    k: nat,
)
    requires
        k <= replies.len(),
        host_keeps_to_shared(initrd, replies),
        initrd_placed(initrd),
        !(Guest::initial(initrd, memory).after(replies, k).state.phase is Halted),
        Guest::initial(initrd, memory).after(replies, k).state.settled() ==> segments_placed(
            Guest::initial(initrd, memory).after(replies, k).state,
        ),
    ensures
        bytes_at(Guest::initial(initrd, memory).after(replies, k).memory, zero_page()) == page_at(
            Guest::initial(initrd, memory).after(replies, k).state,
            bytes_at(memory, zero_page()),
        ),
    decreases k,
{
    if k > 0 {
        let j = (k - 1) as nat;
        let g = Guest::initial(initrd, memory).after(replies, j);
        let reply = replies[j as int];
        let page = bytes_at(memory, zero_page());
        lemma_guest_step(initrd, memory, replies, j);
        lemma_page(initrd, memory, replies, j);
        lemma_reply_kept(g.memory, initrd, reply, zero_page());
        lemma_page_step(g.state, g.input(reply), page);
        match g.state.phase {
            Phase::Ramdisk | Phase::SetupData => {
                lemma_target_step(g, reply);
            },
            Phase::SegmentCopy { index, .. } | Phase::SegmentHash { index, .. } => {
                assert(is_segment(g.state, index as int));
                lemma_region_step(g, reply, zero_page());
            },
            _ => {
                lemma_region_step(g, reply, zero_page());
            },
        }
    }
}

/// When the kernel is entered, the boot parameters are those that the guest had at
/// first, with the initrd entered and the firmware's setup data added.
pub proof fn law_boot_parameters_in_memory(
    initrd: Initrd,
    memory: spec_fn(int) -> u8,
    replies: Seq<Map<int, u8>>,
)
    requires
        host_keeps_to_shared(initrd, replies),
        initrd_placed(initrd),
        Guest::initial(initrd, memory).after(replies, replies.len()).state.accepted(),
        segments_placed(Guest::initial(initrd, memory).after(replies, replies.len()).state),
    ensures
        bytes_at(
            Guest::initial(initrd, memory).after(replies, replies.len()).memory,
            zero_page(),
        ) == with_setup_data(
            with_ramdisk(
                bytes_at(memory, zero_page()),
                (initrd.load_addr % 0x1_0000_0000) as u32,
                (initrd.len % 0x1_0000_0000) as u32,
            ),
        ),
{
    lemma_page(initrd, memory, replies, replies.len());
    lemma_guest_valid(initrd, memory, replies, replies.len());
}

/// Whether the reference hash of the initrd has no address in common with shared
/// memory, with the place of the initrd and with the segments.
pub open spec fn reference_placed(s: LoadState) -> bool {
    let reference = FwCfg::at_start().initrd_hash;
    &&& unshared(s.initrd, reference)
    &&& apart(initrd_region(s.initrd), reference)
    &&& forall|i: int| #[trigger]
        is_segment(s, i) ==> apart(segment_region(s, i), reference)
}

/// The reference hash of the initrd stays as it is.
proof fn lemma_reference_kept(
    initrd: Initrd,
    memory: spec_fn(int) -> u8,
    replies: Seq<Map<int, u8>>,
    k: nat,
    t: LoadState,
)
    requires
        k <= replies.len(),
        host_keeps_to_shared(initrd, replies),
        reference_placed(t),
        t.initrd == initrd,
        ({
            let s = Guest::initial(initrd, memory).after(replies, k).state;
            s.settled() ==> s.header == t.header && s.phdrs == t.phdrs
        }),
    ensures
        bytes_at(
            Guest::initial(initrd, memory).after(replies, k).memory,
            FwCfg::at_start().initrd_hash,
        ) == bytes_at(memory, FwCfg::at_start().initrd_hash),
    decreases k,
{
    if k > 0 {
        let j = (k - 1) as nat;
        let g = Guest::initial(initrd, memory).after(replies, j);
        lemma_guest_step(initrd, memory, replies, j);
        lemma_reference_kept(initrd, memory, replies, j, t);
        match g.state.phase {
            Phase::SegmentCopy { index, .. } | Phase::SegmentHash { index, .. } => {
                assert(is_segment(t, index as int));
            },
            _ => {},
        }
        lemma_region_step(g, replies[j as int], FwCfg::at_start().initrd_hash);
    }
}

/// The step with which a load with an initrd is accepted.
proof fn lemma_accept_step(s: LoadState, input: Input)
    requires
        s.valid(),
        s.initrd.len > 0,
        !s.accepted(),
        advance(s, input).state.accepted(),
    ensures
        s.phase == Phase::InitrdHash,
        hashes_agree(sha256(input.target), input.source),
        advance(s, input).target == input.target,
{
    reveal(advance);
}

proof fn lemma_initrd_held(
    initrd: Initrd,
    memory: spec_fn(int) -> u8,
    replies: Seq<Map<int, u8>>,
    k: nat,
)
    requires
        k <= replies.len(),
        host_keeps_to_shared(initrd, replies),
        initrd_placed(initrd),
        initrd.len > 0,
        Guest::initial(initrd, memory).after(replies, k).state.accepted(),
        reference_placed(Guest::initial(initrd, memory).after(replies, k).state),
    ensures
        hashes_agree(
            sha256(
                bytes_at(
                    Guest::initial(initrd, memory).after(replies, k).memory,
                    initrd_region(initrd),
                ),
            ),
            bytes_at(memory, FwCfg::at_start().initrd_hash),
        ),
    decreases k,
{
    if k > 0 {
        let j = (k - 1) as nat;
        let g = Guest::initial(initrd, memory).after(replies, j);
        let h = Guest::initial(initrd, memory).after(replies, k);
        let reply = replies[j as int];
        lemma_guest_step(initrd, memory, replies, j);
        if g.state.accepted() {
            assert forall|i: int| #[trigger] is_segment(g.state, i) implies apart(
                segment_region(g.state, i),
                FwCfg::at_start().initrd_hash,
            ) by {
                assert(is_segment(h.state, i));
            }
            lemma_initrd_held(initrd, memory, replies, j);
            lemma_region_step(g, reply, initrd_region(initrd));
        } else {
            lemma_accept_step(g.state, g.input(reply));
            lemma_target_step(g, reply);
            lemma_reference_kept(initrd, memory, replies, j, h.state);
            lemma_device_after(initrd, memory, replies, j);
            lemma_reply_kept(g.memory, initrd, reply, FwCfg::at_start().initrd_hash);
        }
    }
}

/// When the kernel is entered, the hash of the initrd in memory agrees with the
/// reference hash that the guest had at first.
pub proof fn law_initrd_in_memory(
    initrd: Initrd,
    memory: spec_fn(int) -> u8,
    replies: Seq<Map<int, u8>>,
)
    requires
        host_keeps_to_shared(initrd, replies),
        initrd_placed(initrd),
        initrd.len > 0,
        Guest::initial(initrd, memory).after(replies, replies.len()).state.accepted(),
        reference_placed(Guest::initial(initrd, memory).after(replies, replies.len()).state),
    ensures
        hashes_agree(
            sha256(
                bytes_at(
                    Guest::initial(initrd, memory).after(replies, replies.len()).memory,
                    initrd_region(initrd),
                ),
            ),
            bytes_at(memory, FwCfg::at_start().initrd_hash),
        ),
{
    lemma_initrd_held(initrd, memory, replies, replies.len());
}

/// The number of blocks of 2 MiB, the last of which may be shorter, in which the
/// segments of the first `n` program headers are served.
pub open spec fn blocks_to_serve(phdrs: Seq<u8>, n: nat) -> nat
    decreases n,
{
    if n == 0 {
        0
    } else if to_load(phdrs, n - 1) {
        blocks_to_serve(phdrs, (n - 1) as nat) + ((u64_at(phdrs, 56 * (n - 1) + 0x20) + 0x1fffff)
            / 0x200000) as nat
    } else {
        blocks_to_serve(phdrs, (n - 1) as nat)
    }
}

/// The number of bytes in which the segments of the first `n` program headers are
/// served.
pub open spec fn bytes_to_serve(phdrs: Seq<u8>, n: nat) -> nat
    decreases n,
{
    if n == 0 {
        0
    } else if to_load(phdrs, n - 1) {
        bytes_to_serve(phdrs, (n - 1) as nat) + u64_at(phdrs, 56 * (n - 1) + 0x20) as nat
    } else {
        bytes_to_serve(phdrs, (n - 1) as nat)
    }
}

proof fn lemma_to_serve(s: LoadState, n: nat)
    requires
        56 * n <= s.phdrs.len(),
    ensures
        blocks_before(s.phdrs, n) == blocks_to_serve(s.phdrs, n),
        file_bytes_before(s.phdrs, n) == bytes_to_serve(s.phdrs, n),
    decreases n,
{
    if n > 0 {
        lemma_to_serve(s, (n - 1) as nat);
        law_program_header_numbers(s, n - 1, 0);
        assert(phdr_at(s.phdrs, n - 1) == s.phdr(n - 1));
    }
}

/// All program headers were read when the segments are gone through.
proof fn lemma_phdrs_read(fw_cfg: FwCfg, initrd: Initrd, inputs: Seq<Input>, k: nat)
    requires
        fw_cfg.wf(),
        fits(LoadState::initial(fw_cfg, initrd), inputs),
        k <= inputs.len(),
        state_after(LoadState::initial(fw_cfg, initrd), inputs, k).settled(),
        !(state_after(LoadState::initial(fw_cfg, initrd), inputs, k).phase is Halted),
    ensures
        state_after(LoadState::initial(fw_cfg, initrd), inputs, k).phdrs_ok(),
    decreases k,
{
    if k > 0 {
        let first = LoadState::initial(fw_cfg, initrd);
        let j = (k - 1) as nat;
        let s = state_after(first, inputs, j);
        law_commands(fw_cfg, initrd, inputs, j);
        lemma_step_basics(s, inputs[j as int]);
        if s.settled() {
            lemma_phdrs_read(fw_cfg, initrd, inputs, j);
        } else {
            lemma_first_segment(s, inputs[j as int]);
        }
    }
}

/// What the hypervisor is asked for, counted: the ELF header once, each program header
/// once, and a block for each 2 MiB or part of 2 MiB of the file's bytes of each
/// program header of type 1, up to where the load has come. Nothing is asked for a
/// program header of another type. A relocatable kernel's tables are asked for once,
/// behind that.
pub proof fn law_commands_counted(fw_cfg: FwCfg, initrd: Initrd, inputs: Seq<Input>, k: nat)
    requires
        fw_cfg.wf(),
        fits(LoadState::initial(fw_cfg, initrd), inputs),
        k <= inputs.len(),
    ensures
        ({
            let t = state_after(LoadState::initial(fw_cfg, initrd), inputs, k);
            let given = commands(
                actions_before(LoadState::initial(fw_cfg, initrd), inputs, k),
            );
            let n = u16_at(t.header, 0x38) as nat;
            let headers = seq![3u8] + Seq::new(n, |i: int| 4u8);
            let all = headers + Seq::new(blocks_to_serve(t.phdrs, n), |i: int| 5u8);
            match t.phase {
                Phase::HeaderCopy
                | Phase::HeaderHash
                | Phase::PhdrCopy
                | Phase::PhdrHash
                | Phase::Halted(_) => true,
                Phase::SegmentCopy { index, offset } | Phase::SegmentHash {
                    index,
                    offset,
                } => given == headers + Seq::new(
                    blocks_to_serve(t.phdrs, index as nat) + (offset / 0x200000) as nat + 1,
                    |i: int| 5u8,
                ),
                _ => given == if u16_at(t.header, 0x10) == 3 {
                    all.push(6)
                } else {
                    all
                },
            }
        }),
{
    let t = state_after(LoadState::initial(fw_cfg, initrd), inputs, k);
    let given = commands(actions_before(LoadState::initial(fw_cfg, initrd), inputs, k));
    let n = u16_at(t.header, 0x38) as nat;
    let headers = seq![3u8] + Seq::new(n, |i: int| 4u8);
    law_commands(fw_cfg, initrd, inputs, k);
    if t.settled() && !(t.phase is Halted) {
        lemma_phdrs_read(fw_cfg, initrd, inputs, k);
        law_header_numbers(t);
        lemma_to_serve(t, n);
        assert(t.header_commands() =~= headers);
        match t.phase {
            Phase::SegmentCopy { index, offset } | Phase::SegmentHash { index, offset } => {
                lemma_to_serve(t, index as nat);
                assert(given =~= headers + Seq::new(
                    blocks_to_serve(t.phdrs, index as nat) + (offset / 0x200000) as nat + 1,
                    |i: int| 5u8,
                ));
            },
            _ => {
                let all = headers + Seq::new(blocks_to_serve(t.phdrs, n), |i: int| 5u8);
                assert(given =~= if u16_at(t.header, 0x10) == 3 {
                    all.push(6)
                } else {
                    all
                });
            },
        }
    }
}

/// What the segments are, in the numbers that stand in the headers: those of type 1 of
/// which the file holds bytes, at their addresses, relative to 16 MiB in a relocatable
/// kernel, and in what is served behind the headers in the order of the table.
pub proof fn law_segments_are(s: LoadState, i: int)
    requires
        s.phdrs.len() == 56 * u16_at(s.header, 0x38),
        0 <= i < u16_at(s.header, 0x38),
    ensures
        is_segment(s, i) <==> to_load(s.phdrs, i),
        segment_region(s, i).length == u64_at(s.phdrs, 56 * i + 0x28),
        base_of(s.header) + u64_at(s.phdrs, 56 * i + 0x10) <= u64::MAX ==> segment_region(s, i).base
            == base_of(s.header) + u64_at(s.phdrs, 56 * i + 0x10),
        served_at(s, i) == 64 + s.phdrs.len() + bytes_to_serve(s.phdrs, i as nat),
        forall|image: Seq<u8>| u16_at(s.header, 0x10) == 3 ==> #[trigger] segment_part(s, image, i)
            == image.subrange(
            u64_at(s.phdrs, 56 * i + 0x10) as int,
            u64_at(s.phdrs, 56 * i + 0x10) + u64_at(s.phdrs, 56 * i + 0x28),
        ),
        forall|all: Seq<u8>| #[trigger]
            segment_image(s, all, i) == all.subrange(
                64 + s.phdrs.len() as int + bytes_to_serve(s.phdrs, i as nat),
                64 + s.phdrs.len() as int + bytes_to_serve(s.phdrs, i as nat) + u64_at(
                    s.phdrs,
                    56 * i + 0x20,
                ),
            ) + Seq::new(
                (u64_at(s.phdrs, 56 * i + 0x28) - u64_at(s.phdrs, 56 * i + 0x20)) as nat,
                |j: int| 0u8,
            ),
{
    law_header_numbers(s);
    law_program_header_numbers(s, i, 0);
    lemma_to_serve(s, i as nat);
}

/// When a kernel that cannot be relocated is loaded, and until it is entered, the
/// memory at the address of each program header of type 1 of which the file holds
/// bytes holds those bytes, as they were served, and zeros behind them.
pub proof fn law_file_in_memory(
    initrd: Initrd,
    memory: spec_fn(int) -> u8,
    replies: Seq<Map<int, u8>>,
    i: int,
)
    requires
        host_keeps_to_shared(initrd, replies),
        initrd_placed(initrd),
        ({
            let s = Guest::initial(initrd, memory).after(replies, replies.len()).state;
            &&& s.kernel_loaded()
            &&& segments_placed(s)
            &&& u16_at(s.header, 0x10) != 3
            &&& 0 <= i < u16_at(s.header, 0x38)
            &&& u32_at(s.phdrs, 56 * i) == 1
            &&& u64_at(s.phdrs, 56 * i + 0x20) != 0
        }),
    ensures
        ({
            let g = Guest::initial(initrd, memory).after(replies, replies.len());
            let filesz = u64_at(g.state.phdrs, 56 * i + 0x20);
            let memsz = u64_at(g.state.phdrs, 56 * i + 0x28);
            let at = 64 + 56 * u16_at(g.state.header, 0x38) + bytes_to_serve(
                g.state.phdrs,
                i as nat,
            );
            &&& filesz <= memsz
            &&& bytes_at(
                g.memory,
                MemoryRegion { base: u64_at(g.state.phdrs, 56 * i + 0x10), length: memsz },
            ) == served_to(initrd, memory, replies).subrange(at, at + filesz) + Seq::new(
                (memsz - filesz) as nat,
                |j: int| 0u8,
            )
        }),
{
    let first = Guest::initial(initrd, memory);
    let s = first.after(replies, replies.len()).state;
    law_guest_loads(first, replies, replies.len());
    lemma_phdrs_read(FwCfg::at_start(), initrd, first.inputs(replies), replies.len());
    law_header_numbers(s);
    law_segments_are(s, i);
    law_program_header_numbers(s, i, 0);
    law_fixed_kernel_in_memory(initrd, memory, replies, i);
}

/// The plain text of the initrd in a memory.
pub open spec fn plain_text_in(memory: spec_fn(int) -> u8, initrd: Initrd) -> Seq<u8> {
    Seq::new(initrd.len as nat, |i: int| memory(initrd.plain_text_addr + i))
}

/// The initrd at its load address in a memory.
pub open spec fn loaded_in(memory: spec_fn(int) -> u8, initrd: Initrd) -> Seq<u8> {
    Seq::new(initrd.len as nat, |i: int| memory(initrd.load_addr + i))
}

/// The step that copies the initrd leaves at its load address what was at the address
/// of its plain text.
proof fn lemma_copied(g: Guest, reply: Map<int, u8>)
    requires
        g.state.valid(),
        g.state.phase == Phase::InitrdCopy,
    ensures
        g.next(reply).state == (LoadState { phase: Phase::InitrdHash, ..g.state }),
        bytes_at(g.next(reply).memory, initrd_region(g.state.initrd)) == plain_text_in(
            with_reply(g.memory, reply),
            g.state.initrd,
        ),
{
    let text = plain_text_in(with_reply(g.memory, reply), g.state.initrd);
    law_regions(g.state);
    lemma_target_step(g, reply);
    reveal(advance);
    law_initrd_copied(g.state, g.input(reply).source, g.input(reply).target);
    assert(g.input(reply).source =~= text);
}

proof fn lemma_plain_text_copied(
    initrd: Initrd,
    memory: spec_fn(int) -> u8,
    replies: Seq<Map<int, u8>>,
    k: nat,
)
    requires
        k <= replies.len(),
        host_keeps_to_shared(initrd, replies),
        initrd_placed(initrd),
        initrd.len > 0,
        ({
            let s = Guest::initial(initrd, memory).after(replies, k).state;
            s.accepted() || s.phase == Phase::InitrdHash
        }),
    ensures
        exists|j: nat|
            j < k && (#[trigger] Guest::initial(initrd, memory).after(replies, j)).state.phase
                == Phase::InitrdCopy && bytes_at(
                Guest::initial(initrd, memory).after(replies, k).memory,
                initrd_region(initrd),
            ) == plain_text_in(
                with_reply(
                    Guest::initial(initrd, memory).after(replies, j).memory,
                    replies[j as int],
                ),
                initrd,
            ),
    decreases k,
{
    if k > 0 {
        let j = (k - 1) as nat;
        let g = Guest::initial(initrd, memory).after(replies, j);
        let h = Guest::initial(initrd, memory).after(replies, k);
        let reply = replies[j as int];
        lemma_guest_step(initrd, memory, replies, j);
        if h.state.phase == Phase::InitrdHash {
            lemma_before_check(g.state, g.input(reply));
            lemma_copied(g, reply);
        } else {
            if !g.state.accepted() {
                lemma_accept_step(g.state, g.input(reply));
                lemma_target_step(g, reply);
                lemma_reply_kept(g.memory, initrd, reply, initrd_region(initrd));
            } else {
                lemma_region_step(g, reply, initrd_region(initrd));
            }
            lemma_plain_text_copied(initrd, memory, replies, j);
            let l = choose|l: nat|
                l < j && (#[trigger] Guest::initial(initrd, memory).after(replies, l)).state.phase
                    == Phase::InitrdCopy && bytes_at(g.memory, initrd_region(initrd))
                    == plain_text_in(
                    with_reply(
                        Guest::initial(initrd, memory).after(replies, l).memory,
                        replies[l as int],
                    ),
                    initrd,
                );
            assert(Guest::initial(initrd, memory).after(replies, l).state.phase
                == Phase::InitrdCopy);
        }
    }
}

/// Only the step that copies the initrd comes before the one that checks it.
proof fn lemma_before_check(s: LoadState, input: Input)
    requires
        s.valid(),
        advance(s, input).state.phase == Phase::InitrdHash,
    ensures
        s.phase == Phase::InitrdCopy,
{
    reveal(advance);
}

/// When a load with an initrd is accepted, and until the kernel is entered, the memory
/// from the initrd's load address on holds what the memory from the address of its
/// plain text on held when it was copied.
pub proof fn law_plain_text_loaded(
    initrd: Initrd,
    memory: spec_fn(int) -> u8,
    replies: Seq<Map<int, u8>>,
)
    requires
        host_keeps_to_shared(initrd, replies),
        initrd_placed(initrd),
        initrd.len > 0,
        Guest::initial(initrd, memory).after(replies, replies.len()).state.accepted(),
    ensures
        exists|j: nat|
            j < replies.len() && (#[trigger] Guest::initial(initrd, memory).after(
                replies,
                j,
            )).state.phase == Phase::InitrdCopy && loaded_in(
                Guest::initial(initrd, memory).after(replies, replies.len()).memory,
                initrd,
            ) == plain_text_in(
                with_reply(
                    Guest::initial(initrd, memory).after(replies, j).memory,
                    replies[j as int],
                ),
                initrd,
            ),
{
    lemma_plain_text_copied(initrd, memory, replies, replies.len());
    let last = Guest::initial(initrd, memory).after(replies, replies.len()).memory;
    assert(loaded_in(last, initrd) =~= bytes_at(last, initrd_region(initrd)));
}

/// A right initrd is not rejected, and a wrong one is: two steps after the copy of the
/// initrd begins, the kernel is about to be entered if the 32 bytes of the hash of the
/// plain text, as it was when it was copied, are those that the guest had at first in
/// the 32 bytes from 0xfffc0 on, and the load is rejected otherwise.
pub proof fn law_initrd_verdict(
    initrd: Initrd,
    memory: spec_fn(int) -> u8,
    replies: Seq<Map<int, u8>>,
    j: nat,
)
    requires
        host_keeps_to_shared(initrd, replies),
        initrd_placed(initrd),
        0 < initrd.len <= 0x1fff_ffff_ffff_ffff,
        j + 2 <= replies.len(),
        Guest::initial(initrd, memory).after(replies, j).state.phase == Phase::InitrdCopy,
        reference_placed(Guest::initial(initrd, memory).after(replies, j).state),
    ensures
        ({
            let text = plain_text_in(
                with_reply(
                    Guest::initial(initrd, memory).after(replies, j).memory,
                    replies[j as int],
                ),
                initrd,
            );
            let right = forall|i: int|
                0 <= i < 32 ==> sha256(text)[i] == #[trigger] memory(0xfffc0 + i);
            Guest::initial(initrd, memory).after(replies, j + 2).state.phase == if right {
                Phase::Boot
            } else {
                Phase::Rejected
            }
        }),
{
    let first = Guest::initial(initrd, memory);
    let g = first.after(replies, j);
    let h = first.after(replies, j + 1);
    let text = plain_text_in(with_reply(g.memory, replies[j as int]), initrd);
    let reply = replies[j as int + 1];
    let reference = FwCfg::at_start().initrd_hash;
    lemma_guest_step(initrd, memory, replies, j);
    lemma_guest_step(initrd, memory, replies, j + 1);
    lemma_copied(g, replies[j as int]);
    lemma_reply_kept(h.memory, initrd, reply, initrd_region(initrd));
    lemma_device_after(initrd, memory, replies, j + 1);
    lemma_reference_kept(initrd, memory, replies, j + 1, g.state);
    lemma_reply_kept(h.memory, initrd, reply, reference);
    law_regions(h.state);
    law_device_regions();
    let source = h.input(reply).source;
    assert(source == bytes_at(memory, reference));
    assert(h.input(reply).target == text);
    assert forall|i: int| 0 <= i < 32 implies #[trigger] source[i] == memory(0xfffc0 + i) by {}
    assert forall|i: int| 0 <= i < 32 implies #[trigger] memory(0xfffc0 + i) == source[i] by {}
    reveal(advance);
    law_initrd_checked(h.state, source, text);
    law_made_ready(h.state);
    if forall|i: int| 0 <= i < 32 ==> sha256(text)[i] == #[trigger] memory(0xfffc0 + i) {
        assert forall|i: int| 0 <= i < 32 implies sha256(text)[i] == #[trigger] source[i] by {
            assert(sha256(text)[i] == memory(0xfffc0 + i));
        }
    } else {
        let i = choose|i: int| 0 <= i < 32 && sha256(text)[i] != #[trigger] memory(0xfffc0 + i);
        assert(sha256(text)[i] != source[i]);
    }
}

} // verus!
