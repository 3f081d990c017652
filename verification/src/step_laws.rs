//! What each step of a load does, in the numbers that stand in the headers.
//!
//! Of the ELF header these count: the type at 0x10 (3: relocatable), the entry point
//! at 0x18, the number of program headers at 0x38. Of a program header of 56 bytes:
//! the type at 0 (1: to be loaded), the address at 0x10, the bytes in the file at 0x20
//! and in memory at 0x28.

use vstd::prelude::*;

use crate::action::Action;
use crate::boot::{with_ramdisk, with_setup_data};
use crate::bytes::{law_u32_value, lemma_read_in_part, u16_at, u32_at, u64_at};
use crate::elf::law_records;
use crate::fault::Fault;
use crate::fw_cfg::FwCfg;
use crate::load_state::{
    entry_codes, loadable, next_loadable, phdr_at, skip_code, skip_codes, Initrd, LoadState,
    Outcome, Phase,
};
use crate::loader::boot_actions;
use crate::measure::sha256;
use crate::mem::MemoryRegion;
use crate::reloc::relocated;

verus! {

/// Whether the program header number `i` asks for its segment to be loaded: its type
/// is 1, and the file holds some of it.
pub open spec fn to_load(phdrs: Seq<u8>, i: int) -> bool {
    u32_at(phdrs, 56 * i) == 1 && u64_at(phdrs, 56 * i + 0x20) != 0
}

/// The address to which the addresses of a kernel with the ELF header `h` are
/// relative: 16 MiB if it is relocatable.
pub open spec fn base_of(h: Seq<u8>) -> int {
    if u16_at(h, 0x10) == 3 {
        0x1000000
    } else {
        0
    }
}

/// Where a load begins: with nothing read or hashed.
pub proof fn law_initial(fw_cfg: FwCfg, initrd: Initrd)
    ensures
        ({
            let s = LoadState::initial(fw_cfg, initrd);
            &&& s.phase == Phase::HeaderCopy
            &&& s.bounce_buffer == fw_cfg.bounce_buffer
            &&& s.initrd_hash == fw_cfg.initrd_hash
            &&& s.initrd == initrd
            &&& s.header.len() == 0 && s.phdrs.len() == 0 && s.message.len() == 0
            &&& s.digest is None
            &&& s.max_addr == 0 && s.entry_point == 0
        }),
        LoadState::opening() == seq![Action::Command(3), Action::DebugWrite(0x50)],
{
    assert(LoadState::opening() =~= seq![Action::Command(3), Action::DebugWrite(0x50)]);
}

/// What the ELF header says.
pub proof fn law_header_numbers(s: LoadState)
    ensures
        s.relocatable() <==> u16_at(s.header, 0x10) == 3,
        s.phnum() == u16_at(s.header, 0x38),
        s.elf().e_entry == u64_at(s.header, 0x18),
        s.load_base() == base_of(s.header),
{
    law_records(s.header);
}

/// What a program header says, and what is made of it.
pub proof fn law_program_header_numbers(s: LoadState, i: int, offset: u64)
    requires
        0 <= i,
        56 * i + 56 <= s.phdrs.len(),
        offset <= u64_at(s.phdrs, 56 * i + 0x20),
    ensures
        s.phdr(i).p_type == u32_at(s.phdrs, 56 * i),
        s.phdr(i).p_vaddr == u64_at(s.phdrs, 56 * i + 0x10),
        s.phdr(i).p_filesz == u64_at(s.phdrs, 56 * i + 0x20),
        s.phdr(i).p_memsz == u64_at(s.phdrs, 56 * i + 0x28),
        loadable(s.phdr(i)) <==> to_load(s.phdrs, i),
        s.segment_start(i) == base_of(s.header) + u64_at(s.phdrs, 56 * i + 0x10),
        s.block_len(i, offset) == if u64_at(s.phdrs, 56 * i + 0x20) - offset < 0x200000 {
            u64_at(s.phdrs, 56 * i + 0x20) - offset
        } else {
            0x200000
        },
{
    let from = 56 * i;
    law_records(s.phdrs.subrange(from, from + 56));
    lemma_read_in_part(s.phdrs, from, from + 56, 0);
    lemma_read_in_part(s.phdrs, from, from + 56, 0x10);
    lemma_read_in_part(s.phdrs, from, from + 56, 0x20);
    lemma_read_in_part(s.phdrs, from, from + 56, 0x28);
    law_header_numbers(s);
}

/// The next segment to load is the first whose header asks for it; those before it
/// do not.
pub proof fn law_next_segment(s: LoadState, i: nat)
    requires
        i <= s.phnum(),
        s.phdrs.len() == 56 * s.phnum(),
    ensures
        ({
            let j = next_loadable(s.phdrs, s.phnum(), i);
            &&& i <= j <= s.phnum()
            &&& j < s.phnum() ==> to_load(s.phdrs, j as int)
            &&& forall|l: int| i <= l < j ==> !#[trigger] to_load(s.phdrs, l)
        }),
    decreases s.phnum() - i,
{
    if i < s.phnum() {
        law_program_header_numbers(s, i as int, 0);
        if !loadable(phdr_at(s.phdrs, i as int)) {
            law_next_segment(s, i + 1);
        }
    }
}

/// For each program header that is passed over, the two low bytes of its type are
/// shown between two marks.
pub proof fn law_passed_over_shown(phdrs: Seq<u8>, i: nat, j: nat, l: int)
    requires
        i <= l < j,
        56 * j <= phdrs.len(),
    ensures
        skip_codes(phdrs, i, j).len() == 4 * (j - i),
        skip_codes(phdrs, i, j)[4 * (l - i)] == Action::DebugWrite(0xf5),
        skip_codes(phdrs, i, j)[4 * (l - i) + 1] == Action::DebugWrite(phdrs[56 * l + 1]),
        skip_codes(phdrs, i, j)[4 * (l - i) + 2] == Action::DebugWrite(phdrs[56 * l]),
        skip_codes(phdrs, i, j)[4 * (l - i) + 3] == Action::DebugWrite(0xf5),
    decreases j - i,
{
    let first = skip_code(phdr_at(phdrs, i as int));
    let rest = skip_codes(phdrs, i + 1, j);
    let at = 4 * (l - i);
    lemma_skip_len(phdrs, i, j);
    assert(skip_codes(phdrs, i, j) == first + rest);
    if l == i {
        lemma_skip_first(phdrs, i as int);
    } else {
        law_passed_over_shown(phdrs, i + 1, j, l);
        lemma_skip_len(phdrs, i + 1, j);
        assert((first + rest)[at] == rest[at - 4]);
        assert((first + rest)[at + 1] == rest[at - 3]);
        assert((first + rest)[at + 2] == rest[at - 2]);
        assert((first + rest)[at + 3] == rest[at - 1]);
    }
}

proof fn lemma_skip_first(phdrs: Seq<u8>, i: int)
    requires
        0 <= i,
        56 * i + 56 <= phdrs.len(),
    ensures
        skip_code(phdr_at(phdrs, i)) == seq![
            Action::DebugWrite(0xf5),
            Action::DebugWrite(phdrs[56 * i + 1]),
            Action::DebugWrite(phdrs[56 * i]),
            Action::DebugWrite(0xf5),
        ],
{
    let from = 56 * i;
    let p = phdr_at(phdrs, i);
    law_records(phdrs.subrange(from, from + 56));
    lemma_read_in_part(phdrs, from, from + 56, 0);
    law_u32_value(phdrs, from);
    assert(p.p_type % 256 == phdrs[from]);
    assert(p.p_type / 256 % 256 == phdrs[from + 1]);
}

proof fn lemma_skip_len(phdrs: Seq<u8>, i: nat, j: nat)
    requires
        i <= j,
    ensures
        skip_codes(phdrs, i, j).len() == 4 * (j - i),
    decreases j - i,
{
    if i < j {
        lemma_skip_len(phdrs, i + 1, j);
    }
}

/// The entry point is shown byte by byte, the high one first, but for the first code,
/// which shows the bits from 54 on.
pub proof fn law_entry_shown(e: u64)
    ensures
        entry_codes(e).len() == 8,
        forall|i: int| 0 <= i < 8 ==> (#[trigger] entry_codes(e)[i]) is DebugWrite,
        entry_codes(e)[0]->DebugWrite_0 == e / 0x40_0000_0000_0000 % 256,
        0x1_0000_0000_0000 * entry_codes(e)[1]->DebugWrite_0 + 0x100_0000_0000
            * entry_codes(e)[2]->DebugWrite_0 + 0x1_0000_0000 * entry_codes(e)[3]->DebugWrite_0
            + 0x100_0000 * entry_codes(e)[4]->DebugWrite_0 + 0x1_0000
            * entry_codes(e)[5]->DebugWrite_0 + 0x100 * entry_codes(e)[6]->DebugWrite_0
            + entry_codes(e)[7]->DebugWrite_0 == e % 0x100_0000_0000_0000,
{
    assert(e % 0x100_0000_0000_0000 == 0x1_0000_0000_0000 * (e / 0x1_0000_0000_0000 % 256)
        + 0x100_0000_0000 * (e / 0x100_0000_0000 % 256) + 0x1_0000_0000 * (e / 0x1_0000_0000 % 256)
        + 0x100_0000 * (e / 0x100_0000 % 256) + 0x1_0000 * (e / 0x1_0000 % 256) + 0x100 * (e / 0x100
        % 256) + e % 256) by (bit_vector);
}

/// Where each step works: headers, segments and tables are read in the bounce buffer.
/// A segment goes to its address, relative to 16 MiB in a relocatable kernel. A
/// relocatable kernel is relocated from 16 MiB to the end of its last segment. The
/// boot parameters are the page at 0x7000. The initrd is copied from its plain text to
/// its load address and checked there. Six bytes of code are read at the entry point.
/// No other memory is read or changed.
pub proof fn law_regions(s: LoadState)
    requires
        s.valid(),
    ensures
        s.source_region() == (match s.phase {
            Phase::HeaderCopy | Phase::PhdrCopy | Phase::SegmentCopy {
                ..
            } | Phase::Relocate => s.bounce_buffer,
            Phase::InitrdCopy => MemoryRegion {
                base: s.initrd.plain_text_addr,
                length: s.initrd.len,
            },
            Phase::InitrdHash => s.initrd_hash,
            Phase::Boot => MemoryRegion { base: s.entry_point, length: 6 },
            _ => MemoryRegion { base: 0, length: 0 },
        }),
        match s.phase {
            Phase::SegmentCopy { index, .. } | Phase::SegmentHash { index, .. } => {
                &&& s.target_region().base == base_of(s.header) + u64_at(
                    s.phdrs,
                    56 * index + 0x10,
                )
                &&& s.target_region().length == u64_at(s.phdrs, 56 * index + 0x28)
                &&& to_load(s.phdrs, index as int)
                &&& index < u16_at(s.header, 0x38)
            },
            Phase::Relocate => s.target_region().base == 0x1000000 && s.target_region().base
                + s.target_region().length == s.max_addr,
            Phase::Ramdisk | Phase::SetupData => s.target_region() == (MemoryRegion {
                base: 0x7000,
                length: 0x1000,
            }),
            Phase::InitrdCopy | Phase::InitrdHash => s.target_region() == (MemoryRegion {
                base: s.initrd.load_addr,
                length: s.initrd.len,
            }),
            _ => s.target_region() == (MemoryRegion { base: 0, length: 0 }),
        },
{
    match s.phase {
        Phase::SegmentCopy { index, .. } | Phase::SegmentHash { index, .. } => {
            law_program_header_numbers(s, index as int, 0);
            law_header_numbers(s);
        },
        _ => {},
    }
}

/// A load is over when the kernel was started, the initrd rejected, or the firmware
/// has panicked.
pub proof fn law_finished(s: LoadState)
    ensures
        s.finished() <==> match s.phase {
            Phase::Done | Phase::Rejected | Phase::Halted(_) => true,
            _ => false,
        },
        s.finished() ==> forall|source: Seq<u8>, target: Seq<u8>|
            #[trigger] s.next(source, target) == (Outcome {
                state: s,
                actions: Seq::empty(),
                target,
            }),
{
}

/// The ELF header is the first 64 bytes that are served.
pub proof fn law_header_copied(s: LoadState, source: Seq<u8>, target: Seq<u8>)
    requires
        s.phase == Phase::HeaderCopy,
    ensures
        s.next(source, target) == (Outcome {
            state: LoadState { phase: Phase::HeaderHash, header: source.subrange(0, 64), ..s },
            actions: seq![Action::DebugWrite(0x51), Action::DebugWrite(0x60)],
            target,
        }),
{
}

/// A program header is the first 56 bytes that are served.
pub proof fn law_phdr_copied(s: LoadState, source: Seq<u8>, target: Seq<u8>)
    requires
        s.phase == Phase::PhdrCopy,
    ensures
        s.next(source, target) == (Outcome {
            state: LoadState {
                phase: Phase::PhdrHash,
                phdrs: s.phdrs + source.subrange(0, 56),
                ..s
            },
            actions: seq![Action::DebugWrite(0x51), Action::DebugWrite(0x60)],
            target,
        }),
{
}

/// From a program header on, the headers that ask for no segment are shown and
/// passed over. The next segment is asked for, unless its address does not fit in 64
/// bits. Behind the last, a relocatable kernel of which something was loaded is
/// relocated with the tables that are asked for, and another is hashed to the end.
pub proof fn law_segment_asked_for(s: LoadState, i: nat)
    ensures
        ({
            let n = u16_at(s.header, 0x38) as nat;
            let j = next_loadable(s.phdrs, n, i);
            let passed = skip_codes(s.phdrs, i, j);
            s.segments_from(i) == if j < n && base_of(s.header) + s.phdr(j as int).p_vaddr
                > u64::MAX {
                (
                    LoadState { phase: Phase::Halted(Fault::AddressOverflow), ..s },
                    passed + seq![
                        Action::DebugWrite(0xf6),
                        Action::Panic(Fault::AddressOverflow),
                    ],
                )
            } else if j < n {
                (
                    LoadState {
                        phase: Phase::SegmentCopy { index: j as usize, offset: 0 },
                        ..s
                    },
                    passed + seq![
                        Action::DebugWrite(0xf6),
                        Action::Command(5),
                        Action::DebugWrite(0x50),
                    ],
                )
            } else if u16_at(s.header, 0x10) != 3 {
                (
                    LoadState { phase: Phase::KernelHash, ..s },
                    passed + seq![Action::DebugWrite(0x60)],
                )
            } else if s.max_addr < 0x1000000 {
                (
                    LoadState { phase: Phase::Halted(Fault::NothingLoaded), ..s },
                    passed + seq![Action::Panic(Fault::NothingLoaded)],
                )
            } else {
                (LoadState { phase: Phase::Relocate, ..s }, passed + seq![Action::Command(6)])
            }
        }),
{
    law_header_numbers(s);
    let n = s.phnum();
    let j = next_loadable(s.phdrs, n, i);
    let passed = skip_codes(s.phdrs, i, j);
    assert(seq![Action::DebugWrite(0xf6)] + seq![Action::Panic(Fault::AddressOverflow)] =~= seq![
        Action::DebugWrite(0xf6),
        Action::Panic(Fault::AddressOverflow),
    ]);
}

/// As long as program headers are missing, the next is asked for; then their number
/// is shown between two marks and the segments are gone through.
pub proof fn law_header_asked_for(s: LoadState)
    requires
        s.phdrs.len() <= 56 * u16_at(s.header, 0x38),
        u16_at(s.header, 0x38) <= 64,
    ensures
        s.phdrs.len() < 56 * u16_at(s.header, 0x38) ==> s.headers_on() == (
            LoadState { phase: Phase::PhdrCopy, ..s },
            seq![Action::Command(4), Action::DebugWrite(0x50)],
        ),
        s.phdrs.len() == 56 * u16_at(s.header, 0x38) ==> s.headers_on() == (
            s.segments_from(0).0,
            seq![
                Action::DebugWrite(0xf4),
                Action::DebugWrite(u16_at(s.header, 0x38) as u8),
                Action::DebugWrite(0xf4),
            ] + s.segments_from(0).1,
        ),
{
    law_header_numbers(s);
}

/// The ELF header is hashed whole. What is shown is whether the kernel is relocatable
/// and the number of its program headers. More than 64 of them are too many.
pub proof fn law_header_hashed(s: LoadState, source: Seq<u8>, target: Seq<u8>)
    requires
        s.phase == Phase::HeaderHash,
    ensures
        ({
            let t = LoadState { message: s.message + s.header, ..s };
            let n = u16_at(s.header, 0x38);
            let shown = seq![
                Action::DebugWrite(0x61),
                Action::DebugWrite(
                    if u16_at(s.header, 0x10) == 3 {
                        0xca
                    } else {
                        0xcb
                    },
                ),
                Action::DebugWrite(0xbb),
                Action::DebugWrite((n % 256) as u8),
                Action::DebugWrite(0xbb),
            ];
            &&& s.next(source, target).target == target
            &&& n <= 64 ==> s.next(source, target).state == t.headers_on().0 && s.next(
                source,
                target,
            ).actions == shown + t.headers_on().1
            &&& n > 64 ==> s.next(source, target).state == (LoadState {
                phase: Phase::Halted(Fault::TooManyHeaders),
                ..t
            }) && s.next(source, target).actions == shown + seq![
                Action::Panic(Fault::TooManyHeaders),
            ]
        }),
{
    let t = LoadState { message: s.message + s.header, ..s };
    law_header_numbers(s);
    law_header_numbers(t);
}

/// The program header that was read last is hashed whole.
pub proof fn law_phdr_hashed(s: LoadState, source: Seq<u8>, target: Seq<u8>)
    requires
        s.phase == Phase::PhdrHash,
    ensures
        ({
            let t = LoadState {
                message: s.message + s.phdrs.subrange(
                    s.phdrs.len() - 56,
                    s.phdrs.len() as int,
                ),
                ..s
            };
            s.next(source, target) == (Outcome {
                state: t.headers_on().0,
                actions: seq![Action::DebugWrite(0x61)] + t.headers_on().1,
                target,
            })
        }),
{
}

/// A block is as much of a segment as is left, or 2 MiB. It goes behind the blocks
/// before it, unless it would go past the end of the segment in memory.
pub proof fn law_block_copied(
    s: LoadState,
    source: Seq<u8>,
    target: Seq<u8>,
    index: usize,
    offset: u64,
)
    requires
        s.valid(),
        s.phase == (Phase::SegmentCopy { index, offset }),
        source.len() == s.source_region().length,
        target.len() == s.target_region().length,
    ensures
        ({
            let rest = u64_at(s.phdrs, 56 * index + 0x20) - offset;
            let n = if rest < 0x200000 {
                rest
            } else {
                0x200000
            };
            let out = s.next(source, target);
            &&& rest > 0
            &&& offset + n > target.len() ==> out == (Outcome {
                state: LoadState { phase: Phase::Halted(Fault::SegmentOverrun), ..s },
                actions: seq![Action::Panic(Fault::SegmentOverrun)],
                target,
            })
            &&& offset + n <= target.len() ==> {
                &&& out.state == (LoadState { phase: Phase::SegmentHash { index, offset }, ..s })
                &&& out.actions == seq![Action::DebugWrite(0x51), Action::DebugWrite(0x60)]
                &&& out.target == target.subrange(0, offset as int) + source.subrange(0, n)
                    + target.subrange(offset + n, target.len() as int)
            }
        }),
{
    let filesz = u64_at(s.phdrs, 56 * index + 0x20);
    law_program_header_numbers(s, index as int, 0);
    lemma_block_copied(s, source, target, index, offset, filesz);
}

proof fn lemma_block_copied(
    s: LoadState,
    source: Seq<u8>,
    target: Seq<u8>,
    index: usize,
    offset: u64,
    filesz: u64,
)
    requires
        s.valid(),
        s.phdr(index as int).p_filesz == filesz,
        s.phase == (Phase::SegmentCopy { index, offset }),
        source.len() == s.source_region().length,
        target.len() == s.target_region().length,
    ensures
        ({
            let rest = filesz - offset;
            let n = if rest < 0x200000 {
                rest
            } else {
                0x200000
            };
            let out = s.next(source, target);
            &&& rest > 0
            &&& offset + n > target.len() ==> out == (Outcome {
                state: LoadState { phase: Phase::Halted(Fault::SegmentOverrun), ..s },
                actions: seq![Action::Panic(Fault::SegmentOverrun)],
                target,
            })
            &&& offset + n <= target.len() ==> {
                &&& out.state == (LoadState { phase: Phase::SegmentHash { index, offset }, ..s })
                &&& out.actions == seq![Action::DebugWrite(0x51), Action::DebugWrite(0x60)]
                &&& out.target == target.subrange(0, offset as int) + source.subrange(0, n)
                    + target.subrange(offset + n, target.len() as int)
            }
        }),
{
    let n = s.block_len(index as int, offset);
    if offset + n <= target.len() {
        assert(s.next(source, target).target =~= target.subrange(0, offset as int)
            + source.subrange(0, n) + target.subrange(offset + n, target.len() as int));
    }
}

/// A block is hashed in memory, behind what was hashed before. If more of the segment
/// is to come, the next block is asked for. Otherwise the rest of the segment is
/// filled with zeros, the end of what is loaded moves up to the end of the segment if
/// that is higher, and the segments behind it are gone through.
pub proof fn law_block_hashed(
    s: LoadState,
    source: Seq<u8>,
    target: Seq<u8>,
    index: usize,
    offset: u64,
)
    requires
        s.valid(),
        s.phase == (Phase::SegmentHash { index, offset }),
        target.len() == s.target_region().length,
    ensures
        ({
            let filesz = u64_at(s.phdrs, 56 * index + 0x20);
            let rest = filesz - offset;
            let n = if rest < 0x200000 {
                rest
            } else {
                0x200000
            };
            let end = base_of(s.header) + u64_at(s.phdrs, 56 * index + 0x10) + u64_at(
                s.phdrs,
                56 * index + 0x28,
            );
            let t = LoadState {
                message: s.message + target.subrange(offset as int, offset + n),
                ..s
            };
            let u = LoadState {
                max_addr: if end > s.max_addr {
                    end as u64
                } else {
                    s.max_addr
                },
                ..t
            };
            let out = s.next(source, target);
            let filled = target.subrange(0, filesz as int) + Seq::new(
                (target.len() - filesz) as nat,
                |i: int| 0u8,
            );
            &&& s.message.len() + n > 0x1fff_ffff_ffff_ffff ==> out == (Outcome {
                state: LoadState { phase: Phase::Halted(Fault::MessageTooLong), ..s },
                actions: seq![Action::Panic(Fault::MessageTooLong)],
                target,
            })
            &&& s.message.len() + n <= 0x1fff_ffff_ffff_ffff && offset + n < filesz ==> out == (
            Outcome {
                state: LoadState {
                    phase: Phase::SegmentCopy { index, offset: (offset + n) as u64 },
                    ..t
                },
                actions: seq![
                    Action::DebugWrite(0x61),
                    Action::Command(5),
                    Action::DebugWrite(0x50),
                ],
                target,
            })
            &&& s.message.len() + n <= 0x1fff_ffff_ffff_ffff && offset + n >= filesz && end
                <= u64::MAX ==> out == (Outcome {
                state: u.segments_from((index + 1) as nat).0,
                actions: seq![Action::DebugWrite(0x61)] + u.segments_from((index + 1) as nat).1,
                target: filled,
            })
            &&& s.message.len() + n <= 0x1fff_ffff_ffff_ffff && offset + n >= filesz && end
                > u64::MAX ==> out == (Outcome {
                state: LoadState { phase: Phase::Halted(Fault::AddressOverflow), ..t },
                actions: seq![
                    Action::DebugWrite(0x61),
                    Action::Panic(Fault::AddressOverflow),
                ],
                target: filled,
            })
        }),
{
    let filesz = u64_at(s.phdrs, 56 * index + 0x20);
    let end = base_of(s.header) + u64_at(s.phdrs, 56 * index + 0x10) + u64_at(
        s.phdrs,
        56 * index + 0x28,
    );
    law_program_header_numbers(s, index as int, 0);
    lemma_block_hashed(s, source, target, index, offset, filesz, end);
}

proof fn lemma_block_hashed(
    s: LoadState,
    source: Seq<u8>,
    target: Seq<u8>,
    index: usize,
    offset: u64,
    filesz: u64,
    end: int,
)
    requires
        s.valid(),
        s.phdr(index as int).p_filesz == filesz,
        s.segment_start(index as int) + s.phdr(index as int).p_memsz == end,
        s.phase == (Phase::SegmentHash { index, offset }),
        target.len() == s.target_region().length,
    ensures
        ({
            let rest = filesz - offset;
            let n = if rest < 0x200000 {
                rest
            } else {
                0x200000
            };
            let t = LoadState {
                message: s.message + target.subrange(offset as int, offset + n),
                ..s
            };
            let u = LoadState {
                max_addr: if end > s.max_addr {
                    end as u64
                } else {
                    s.max_addr
                },
                ..t
            };
            let out = s.next(source, target);
            let filled = target.subrange(0, filesz as int) + Seq::new(
                (target.len() - filesz) as nat,
                |i: int| 0u8,
            );
            &&& s.message.len() + n > 0x1fff_ffff_ffff_ffff ==> out == (Outcome {
                state: LoadState { phase: Phase::Halted(Fault::MessageTooLong), ..s },
                actions: seq![Action::Panic(Fault::MessageTooLong)],
                target,
            })
            &&& s.message.len() + n <= 0x1fff_ffff_ffff_ffff && offset + n < filesz ==> out == (
            Outcome {
                state: LoadState {
                    phase: Phase::SegmentCopy { index, offset: (offset + n) as u64 },
                    ..t
                },
                actions: seq![
                    Action::DebugWrite(0x61),
                    Action::Command(5),
                    Action::DebugWrite(0x50),
                ],
                target,
            })
            &&& s.message.len() + n <= 0x1fff_ffff_ffff_ffff && offset + n >= filesz && end
                <= u64::MAX ==> out == (Outcome {
                state: u.segments_from((index + 1) as nat).0,
                actions: seq![Action::DebugWrite(0x61)] + u.segments_from((index + 1) as nat).1,
                target: filled,
            })
            &&& s.message.len() + n <= 0x1fff_ffff_ffff_ffff && offset + n >= filesz && end
                > u64::MAX ==> out == (Outcome {
                state: LoadState { phase: Phase::Halted(Fault::AddressOverflow), ..t },
                actions: seq![
                    Action::DebugWrite(0x61),
                    Action::Panic(Fault::AddressOverflow),
                ],
                target: filled,
            })
        }),
{
    let n = s.block_len(index as int, offset);
    let t = LoadState { message: s.message + target.subrange(offset as int, offset + n), ..s };
    assert(t.segment_start(index as int) == s.segment_start(index as int));
    assert(seq![Action::DebugWrite(0x61)] + seq![Action::Panic(Fault::AddressOverflow)] =~= seq![
        Action::DebugWrite(0x61),
        Action::Panic(Fault::AddressOverflow),
    ]);
    assert(LoadState { max_addr: t.max_addr, ..t } == t);
    assert(s.next(source, target) == s.segment_hashed(index, offset, target));
}

/// The image is relocated by the tables that were served, and the hash of the kernel
/// completed behind that.
pub proof fn law_image_relocated(s: LoadState, source: Seq<u8>, target: Seq<u8>)
    requires
        s.phase == Phase::Relocate,
    ensures
        s.next(source, target) == (match relocated(target, source).1 {
            Some(f) => Outcome {
                state: LoadState { phase: Phase::Halted(f), ..s },
                actions: seq![Action::Panic(f)],
                target: relocated(target, source).0,
            },
            None => Outcome {
                state: LoadState { phase: Phase::KernelHash, ..s },
                actions: seq![Action::DebugWrite(0x60)],
                target: relocated(target, source).0,
            },
        }),
{
}

/// The hash of the kernel is that of all that was hashed, and the kernel is entered
/// where its header says, relative to 16 MiB if it is relocatable.
pub proof fn law_kernel_hashed(s: LoadState, source: Seq<u8>, target: Seq<u8>)
    requires
        s.phase == Phase::KernelHash,
    ensures
        ({
            let entry = base_of(s.header) + u64_at(s.header, 0x18);
            let t = LoadState { digest: Some(sha256(s.message)), ..s };
            let shown = seq![Action::DebugWrite(0x61), Action::DebugWrite(0x90)];
            s.next(source, target) == if entry <= u64::MAX {
                Outcome {
                    state: LoadState { phase: Phase::Ramdisk, entry_point: entry as u64, ..t },
                    actions: shown,
                    target,
                }
            } else {
                Outcome {
                    state: LoadState { phase: Phase::Halted(Fault::AddressOverflow), ..t },
                    actions: shown + seq![Action::Panic(Fault::AddressOverflow)],
                    target,
                }
            }
        }),
{
    law_header_numbers(s);
    law_header_numbers(LoadState { digest: Some(sha256(s.message)), ..s });
}

/// The low 32 bits of the initrd's load address and of its length are entered in the
/// boot parameters.
pub proof fn law_initrd_entered(s: LoadState, source: Seq<u8>, target: Seq<u8>)
    requires
        s.phase == Phase::Ramdisk,
    ensures
        s.next(source, target) == (Outcome {
            state: LoadState { phase: Phase::SetupData, ..s },
            actions: seq![Action::DebugWrite(0x91)],
            target: with_ramdisk(
                target,
                (s.initrd.load_addr % 0x1_0000_0000) as u32,
                (s.initrd.len % 0x1_0000_0000) as u32,
            ),
        }),
{
}

/// When all is loaded, the pages of the initrd's plain text, if there is an initrd,
/// become private, all memory is mapped encrypted, and the entry point is shown.
pub proof fn law_made_ready(s: LoadState)
    ensures
        s.ready().0 == (LoadState { phase: Phase::Boot, ..s }),
        s.initrd.len == 0 ==> s.ready().1 == seq![
            Action::DebugWrite(0x93),
            Action::DebugWrite(0x94),
            Action::DebugWrite(0x95),
            Action::SetupPaging { shared: false, addr: 0, len: 0 },
            Action::DebugWrite(0x96),
            Action::DebugWrite(0x99),
        ] + entry_codes(s.entry_point) + seq![Action::DebugWrite(0x99)],
        s.initrd.len > 0 ==> s.ready().1 == seq![
            Action::DebugWrite(0x93),
            Action::DebugWrite(0x94),
            Action::PageStateChange {
                addr: s.initrd.plain_text_addr,
                len: s.initrd.size_aligned,
                private: true,
            },
            Action::DebugWrite(0x95),
            Action::SetupPaging { shared: false, addr: 0, len: 0 },
            Action::DebugWrite(0x96),
            Action::DebugWrite(0x99),
        ] + entry_codes(s.entry_point) + seq![Action::DebugWrite(0x99)],
{
    if s.initrd.len == 0 {
        assert(s.ready().1 =~= seq![
            Action::DebugWrite(0x93),
            Action::DebugWrite(0x94),
            Action::DebugWrite(0x95),
            Action::SetupPaging { shared: false, addr: 0, len: 0 },
            Action::DebugWrite(0x96),
            Action::DebugWrite(0x99),
        ] + entry_codes(s.entry_point) + seq![Action::DebugWrite(0x99)]);
    } else {
        assert(s.ready().1 =~= seq![
            Action::DebugWrite(0x93),
            Action::DebugWrite(0x94),
            Action::PageStateChange {
                addr: s.initrd.plain_text_addr,
                len: s.initrd.size_aligned,
                private: true,
            },
            Action::DebugWrite(0x95),
            Action::SetupPaging { shared: false, addr: 0, len: 0 },
            Action::DebugWrite(0x96),
            Action::DebugWrite(0x99),
        ] + entry_codes(s.entry_point) + seq![Action::DebugWrite(0x99)]);
    }
}

/// The setup data are added to the boot parameters, and the initrd is copied next if
/// there is one.
pub proof fn law_setup_data_added(s: LoadState, source: Seq<u8>, target: Seq<u8>)
    requires
        s.phase == Phase::SetupData,
    ensures
        s.next(source, target) == if s.initrd.len > 0 {
            Outcome {
                state: LoadState { phase: Phase::InitrdCopy, ..s },
                actions: seq![Action::DebugWrite(0x92), Action::DebugWrite(0x52)],
                target: with_setup_data(target),
            }
        } else {
            Outcome {
                state: s.ready().0,
                actions: seq![Action::DebugWrite(0x92)] + s.ready().1,
                target: with_setup_data(target),
            }
        },
{
    assert(seq![Action::DebugWrite(0x92)] + seq![Action::DebugWrite(0x52)] =~= seq![
        Action::DebugWrite(0x92),
        Action::DebugWrite(0x52),
    ]);
}

/// The initrd in encrypted memory is the plain text that was read.
pub proof fn law_initrd_copied(s: LoadState, source: Seq<u8>, target: Seq<u8>)
    requires
        s.phase == Phase::InitrdCopy,
    ensures
        s.next(source, target) == (Outcome {
            state: LoadState { phase: Phase::InitrdHash, ..s },
            actions: seq![Action::DebugWrite(0x53), Action::DebugWrite(0x62)],
            target: source,
        }),
{
}

/// The initrd in encrypted memory is accepted if and only if the 32 bytes of its hash
/// are those of the reference hash. More than SHA-256 can take is not hashed.
pub proof fn law_initrd_checked(s: LoadState, source: Seq<u8>, target: Seq<u8>)
    requires
        s.phase == Phase::InitrdHash,
    ensures
        s.next(source, target).target == target,
        target.len() > 0x1fff_ffff_ffff_ffff ==> {
            &&& s.next(source, target).state == (LoadState {
                phase: Phase::Halted(Fault::MessageTooLong),
                ..s
            })
            &&& s.next(source, target).actions == seq![Action::Panic(Fault::MessageTooLong)]
        },
        target.len() <= 0x1fff_ffff_ffff_ffff && (forall|i: int|
            0 <= i < 32 ==> sha256(target)[i] == #[trigger] source[i]) ==> {
            &&& s.next(source, target).state == s.ready().0
            &&& s.next(source, target).actions == seq![Action::DebugWrite(0x63)] + s.ready().1
        },
        target.len() <= 0x1fff_ffff_ffff_ffff && (exists|i: int|
            0 <= i < 32 && sha256(target)[i] != #[trigger] source[i]) ==> {
            &&& s.next(source, target).state == (LoadState { phase: Phase::Rejected, ..s })
            &&& s.next(source, target).actions == seq![Action::DebugWrite(0xff)]
        },
{
}

/// The kernel is started at its entry point.
pub proof fn law_kernel_started(s: LoadState, source: Seq<u8>, target: Seq<u8>)
    requires
        s.phase == Phase::Boot,
    ensures
        s.next(source, target) == (Outcome {
            state: LoadState { phase: Phase::Done, ..s },
            actions: boot_actions(s.entry_point, source),
            target,
        }),
{
}

} // verus!
