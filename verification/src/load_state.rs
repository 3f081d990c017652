//! The states of a load, and what each step makes of them.
//!
//! The hypervisor is asked for one block after the other. Each block is copied
//! from the bounce buffer to encrypted memory first and measured there, so that
//! what is measured is what is used.

use vstd::prelude::*;

use crate::action::Action;
use crate::boot::{with_ramdisk, with_setup_data};
use crate::bytes::splice;
use crate::elf::{
    elf_header_of, program_header_of, ElfHeader, ProgramHeader, ELF_HDR_SIZE, ET_DYN, PT_LOAD,
};
use crate::fault::Fault;
use crate::fw_cfg::{hashes_agree, Command, FwCfg, FW_CFG_DATA_SIZE, KERNEL_LOAD_ADDR};
use crate::loader::{boot_actions, CODE_SHOWN, CPUID_PAGE_LEN, HASH_SIZE_BYTES, ZERO_PAGE_START};
use crate::measure::{sha256, MAX_MESSAGE};
use crate::mem::MemoryRegion;
use crate::reloc::relocated;

verus! {

/// Debug code: a block of the kernel is about to be copied.
pub const COPY_START: u8 = 0x50;

/// Debug code: a block of the kernel was copied.
pub const COPY_END: u8 = 0x51;

/// Debug code: the initrd is about to be copied.
pub const INITRD_COPY_START: u8 = 0x52;

/// Debug code: the initrd was copied.
pub const INITRD_COPY_END: u8 = 0x53;

/// Debug code: a block of the kernel is about to be hashed.
pub const HASH_START: u8 = 0x60;

/// Debug code: a block of the kernel was hashed.
pub const HASH_END: u8 = 0x61;

/// Debug code: the initrd is about to be hashed.
pub const INITRD_HASH_START: u8 = 0x62;

/// Debug code: the initrd was hashed.
pub const INITRD_HASH_END: u8 = 0x63;

/// The most program headers that an image may have.
pub const MAX_PHDRS: u16 = 64;

/// Where the initrd is, and where it is to go.
#[derive(Clone, Copy, Debug, PartialEq, Eq, Structural)]
pub struct Initrd {
    /// Where the initrd lies in plain text.
    pub plain_text_addr: u64,
    /// Where the initrd is loaded in encrypted memory.
    pub load_addr: u64,
    /// Length of the initrd.
    pub len: u64,
    /// Length of the pages that the plain text takes up.
    pub size_aligned: u64,
}

/// How far a load has come: what is done next.
#[derive(Clone, Copy, Debug, PartialEq, Eq, Structural)]
pub enum Phase {
    /// The ELF header is copied.
    HeaderCopy,
    /// The ELF header is hashed.
    HeaderHash,
    /// A program header is copied.
    PhdrCopy,
    /// A program header is hashed.
    PhdrHash,
    /// A block of a segment is copied.
    SegmentCopy {
        /// The number of the segment's program header.
        index: usize,
        /// Where the block goes in the segment.
        offset: u64,
    },
    /// A block of a segment is hashed.
    SegmentHash {
        /// The number of the segment's program header.
        index: usize,
        /// Where the block is in the segment.
        offset: u64,
    },
    /// The kernel is relocated.
    Relocate,
    /// The hash of the kernel is completed.
    KernelHash,
    /// The initrd is entered in the boot parameters.
    Ramdisk,
    /// The setup data are added to the boot parameters.
    SetupData,
    /// The initrd is copied.
    InitrdCopy,
    /// The initrd is hashed and checked.
    InitrdHash,
    /// The kernel is started.
    Boot,
    /// The kernel was started.
    Done,
    /// The initrd was not the one that was expected.
    Rejected,
    /// The firmware has panicked.
    Halted(Fault),
}

/// The state of a load.
#[verifier::ext_equal]
pub struct LoadState {
    /// The bounce buffer.
    pub bounce_buffer: MemoryRegion,
    /// The reference hash of the initrd.
    pub initrd_hash: MemoryRegion,
    /// The initrd.
    pub initrd: Initrd,
    /// What is done next.
    pub phase: Phase,
    /// The ELF header.
    pub header: Seq<u8>,
    /// The program headers that were copied so far.
    pub phdrs: Seq<u8>,
    /// What of the kernel was hashed so far.
    pub message: Seq<u8>,
    /// The hash of the kernel, once it is complete.
    pub digest: Option<Seq<u8>>,
    /// The highest end of a segment that was loaded so far.
    pub max_addr: u64,
    /// Where the kernel is entered, once it is known.
    pub entry_point: u64,
}

/// The program header number `i` of the table `phdrs`.
pub open spec fn phdr_at(phdrs: Seq<u8>, i: int) -> ProgramHeader {
    program_header_of(phdrs.subrange(56 * i, 56 * i + 56))
}

/// Whether a program header's segment is loaded.
pub open spec fn loadable(p: ProgramHeader) -> bool {
    p.p_filesz != 0 && p.p_type == PT_LOAD
}

/// The number of the first loadable program header from `i` on, or `n`.
pub open spec fn next_loadable(phdrs: Seq<u8>, n: nat, i: nat) -> nat
    decreases n - i,
{
    if i >= n {
        n
    } else if loadable(phdr_at(phdrs, i as int)) {
        i
    } else {
        next_loadable(phdrs, n, i + 1)
    }
}

/// The debug codes for a program header that is passed over.
pub open spec fn skip_code(p: ProgramHeader) -> Seq<Action> {
    seq![
        Action::DebugWrite(0xf5),
        Action::DebugWrite((p.p_type / 256 % 256) as u8),
        Action::DebugWrite((p.p_type % 256) as u8),
        Action::DebugWrite(0xf5),
    ]
}

/// The debug codes for the program headers `i` to `j`, which are passed over.
pub open spec fn skip_codes(phdrs: Seq<u8>, i: nat, j: nat) -> Seq<Action>
    decreases j - i,
{
    if i >= j {
        Seq::empty()
    } else {
        skip_code(phdr_at(phdrs, i as int)) + skip_codes(phdrs, i + 1, j)
    }
}

/// The debug codes that show an entry point.
pub open spec fn entry_codes(e: u64) -> Seq<Action> {
    seq![
        Action::DebugWrite((e / 0x40_0000_0000_0000 % 256) as u8),
        Action::DebugWrite((e / 0x1_0000_0000_0000 % 256) as u8),
        Action::DebugWrite((e / 0x100_0000_0000 % 256) as u8),
        Action::DebugWrite((e / 0x1_0000_0000 % 256) as u8),
        Action::DebugWrite((e / 0x100_0000 % 256) as u8),
        Action::DebugWrite((e / 0x1_0000 % 256) as u8),
        Action::DebugWrite((e / 0x100 % 256) as u8),
        Action::DebugWrite((e % 256) as u8),
    ]
}

/// What a step of a load makes of the state, what is done outside after it,
/// and what it leaves in the memory that it was handed.
#[verifier::ext_equal]
pub struct Outcome {
    /// The state after the step.
    pub state: LoadState,
    /// What is done outside.
    pub actions: Seq<Action>,
    /// The memory after the step.
    pub target: Seq<u8>,
}

impl LoadState {
    /// A load that has not begun.
    pub open spec fn initial(fw_cfg: FwCfg, initrd: Initrd) -> Self {
        LoadState {
            bounce_buffer: fw_cfg.bounce_buffer,
            initrd_hash: fw_cfg.initrd_hash,
            initrd,
            phase: Phase::HeaderCopy,
            header: Seq::empty(),
            phdrs: Seq::empty(),
            message: Seq::empty(),
            digest: None,
            max_addr: 0,
            entry_point: 0,
        }
    }

    /// The state in another phase.
    pub open spec fn at(self, phase: Phase) -> Self {
        LoadState { phase, ..self }
    }

    /// The ELF header.
    pub open spec fn elf(self) -> ElfHeader {
        elf_header_of(self.header)
    }

    /// Whether the kernel is relocatable.
    pub open spec fn relocatable(self) -> bool {
        self.elf().e_type == ET_DYN
    }

    /// The number of program headers.
    pub open spec fn phnum(self) -> nat {
        self.elf().e_phnum as nat
    }

    /// The address to which the kernel's own addresses are relative.
    pub open spec fn load_base(self) -> int {
        if self.relocatable() {
            KERNEL_LOAD_ADDR as int
        } else {
            0
        }
    }

    /// The program header number `i`.
    pub open spec fn phdr(self, i: int) -> ProgramHeader {
        phdr_at(self.phdrs, i)
    }

    /// Where the segment number `i` is loaded.
    pub open spec fn segment_start(self, i: int) -> int {
        self.load_base() + self.phdr(i).p_vaddr
    }

    /// How many bytes of the segment number `i` the hypervisor serves at once,
    /// when `offset` bytes of it are loaded.
    pub open spec fn block_len(self, i: int, offset: u64) -> int {
        let rest = self.phdr(i).p_filesz - offset;
        if rest < FW_CFG_DATA_SIZE {
            rest
        } else {
            FW_CFG_DATA_SIZE as int
        }
    }

    /// The memory that the next step reads.
    pub open spec fn source_region(self) -> MemoryRegion {
        match self.phase {
            Phase::HeaderCopy | Phase::PhdrCopy | Phase::SegmentCopy {
                ..
            } | Phase::Relocate => self.bounce_buffer,
            Phase::InitrdCopy => MemoryRegion {
                base: self.initrd.plain_text_addr,
                length: self.initrd.len,
            },
            Phase::InitrdHash => self.initrd_hash,
            Phase::Boot => MemoryRegion { base: self.entry_point, length: CODE_SHOWN as u64 },
            _ => MemoryRegion { base: 0, length: 0 },
        }
    }

    /// The memory that the next step may change.
    pub open spec fn target_region(self) -> MemoryRegion {
        match self.phase {
            Phase::SegmentCopy { index, offset } | Phase::SegmentHash {
                index,
                offset,
            } => MemoryRegion {
                base: self.segment_start(index as int) as u64,
                length: self.phdr(index as int).p_memsz,
            },
            Phase::Relocate => MemoryRegion {
                base: KERNEL_LOAD_ADDR,
                length: (self.max_addr - KERNEL_LOAD_ADDR) as u64,
            },
            Phase::Ramdisk | Phase::SetupData => MemoryRegion {
                base: ZERO_PAGE_START,
                length: CPUID_PAGE_LEN,
            },
            Phase::InitrdCopy | Phase::InitrdHash => MemoryRegion {
                base: self.initrd.load_addr,
                length: self.initrd.len,
            },
            _ => MemoryRegion { base: 0, length: 0 },
        }
    }

    /// Whether the load is over.
    pub open spec fn finished(self) -> bool {
        self.phase == Phase::Done || self.phase == Phase::Rejected || self.phase is Halted
    }

    /// Whether the ELF header was read and has not too many program headers.
    pub open spec fn header_ok(self) -> bool {
        self.header.len() == ELF_HDR_SIZE && self.phnum() <= MAX_PHDRS
    }

    /// Whether all program headers were read.
    pub open spec fn phdrs_ok(self) -> bool {
        self.header_ok() && self.phdrs.len() == 56 * self.phnum()
    }

    /// Whether `offset` is a place in the segment number `i` at which a block
    /// begins.
    pub open spec fn block_start(self, i: int, offset: u64) -> bool {
        &&& self.phdrs_ok()
        &&& i < self.phnum()
        &&& loadable(self.phdr(i))
        &&& offset < self.phdr(i).p_filesz
        &&& offset as int % FW_CFG_DATA_SIZE as int == 0
        &&& self.segment_start(i) <= u64::MAX
    }

    /// What holds of every state of a load.
    pub open spec fn valid(self) -> bool {
        &&& self.bounce_buffer.length == FW_CFG_DATA_SIZE
        &&& self.initrd_hash.length == HASH_SIZE_BYTES
        &&& self.message.len() <= MAX_MESSAGE
        &&& match self.phase {
            Phase::HeaderCopy => self.message.len() == 0 && self.phdrs.len() == 0,
            Phase::HeaderHash => self.header.len() == ELF_HDR_SIZE && self.message.len() == 0
                && self.phdrs.len() == 0,
            Phase::PhdrCopy => {
                &&& self.header_ok()
                &&& self.phdrs.len() as int % 56 == 0
                &&& self.phdrs.len() < 56 * self.phnum()
                &&& self.message.len() == 64 + self.phdrs.len()
            },
            Phase::PhdrHash => {
                &&& self.header_ok()
                &&& self.phdrs.len() as int % 56 == 0
                &&& 0 < self.phdrs.len() <= 56 * self.phnum()
                &&& self.message.len() == 64 + self.phdrs.len() - 56
            },
            Phase::SegmentCopy { index, offset } => self.block_start(index as int, offset),
            Phase::SegmentHash { index, offset } => {
                &&& self.block_start(index as int, offset)
                &&& offset + self.block_len(index as int, offset) <= self.phdr(
                    index as int,
                ).p_memsz
            },
            Phase::Relocate => self.phdrs_ok() && self.max_addr >= KERNEL_LOAD_ADDR,
            Phase::KernelHash => self.phdrs_ok(),
            Phase::Halted(_) => true,
            _ => {
                &&& self.digest == Some(sha256(self.message))
                &&& self.entry_point == self.load_base() + self.elf().e_entry
            },
        }
    }

    /// The load stops with a panic.
    pub open spec fn halt(self, fault: Fault) -> (LoadState, Seq<Action>) {
        (self.at(Phase::Halted(fault)), seq![Action::Panic(fault)])
    }

    /// The program headers from number `i` on are gone through: the next
    /// segment is loaded, or, after the last, the kernel is relocated, if it can
    /// be, and its hash completed.
    pub open spec fn segments_from(self, i: nat) -> (LoadState, Seq<Action>) {
        let j = next_loadable(self.phdrs, self.phnum(), i);
        let skipped = skip_codes(self.phdrs, i, j);
        let (state, actions) = if j < self.phnum() {
            if self.segment_start(j as int) > u64::MAX {
                let (state, actions) = self.halt(Fault::AddressOverflow);
                (state, seq![Action::DebugWrite(0xf6)] + actions)
            } else {
                (
                    self.at(Phase::SegmentCopy { index: j as usize, offset: 0 }),
                    seq![
                        Action::DebugWrite(0xf6),
                        Action::Command(Command::SegData.code()),
                        Action::DebugWrite(COPY_START),
                    ],
                )
            }
        } else if self.relocatable() {
            if self.max_addr < KERNEL_LOAD_ADDR {
                self.halt(Fault::NothingLoaded)
            } else {
                (self.at(Phase::Relocate), seq![Action::Command(Command::ElfRela.code())])
            }
        } else {
            (self.at(Phase::KernelHash), seq![Action::DebugWrite(HASH_START)])
        };
        (state, skipped + actions)
    }

    /// The next program header is asked for, or, after the last, the segments
    /// are gone through.
    pub open spec fn headers_on(self) -> (LoadState, Seq<Action>) {
        if self.phdrs.len() < 56 * self.phnum() {
            (
                self.at(Phase::PhdrCopy),
                seq![
                    Action::Command(Command::PhdrData.code()),
                    Action::DebugWrite(COPY_START),
                ],
            )
        } else {
            let (state, actions) = self.segments_from(0);
            (
                state,
                seq![
                    Action::DebugWrite(0xf4),
                    Action::DebugWrite(self.phnum() as u8),
                    Action::DebugWrite(0xf4),
                ] + actions,
            )
        }
    }

    /// What is done when all is loaded: the pages of the initrd's plain text
    /// become private, all memory is mapped encrypted, and the entry point is
    /// shown.
    pub open spec fn ready(self) -> (LoadState, Seq<Action>) {
        (
            self.at(Phase::Boot),
            seq![Action::DebugWrite(0x93), Action::DebugWrite(0x94)] + (if self.initrd.len > 0 {
                seq![
                    Action::PageStateChange {
                        addr: self.initrd.plain_text_addr,
                        len: self.initrd.size_aligned,
                        private: true,
                    },
                ]
            } else {
                Seq::empty()
            }) + seq![
                Action::DebugWrite(0x95),
                Action::SetupPaging { shared: false, addr: 0, len: 0 },
                Action::DebugWrite(0x96),
                Action::DebugWrite(0x99),
            ] + entry_codes(self.entry_point) + seq![Action::DebugWrite(0x99)],
        )
    }

    /// A block was copied and is hashed next.
    pub open spec fn copied(self, phase: Phase) -> (LoadState, Seq<Action>) {
        (
            self.at(phase),
            seq![Action::DebugWrite(COPY_END), Action::DebugWrite(HASH_START)],
        )
    }

    /// The ELF header was hashed.
    pub open spec fn header_hashed(self) -> (LoadState, Seq<Action>) {
        let s = LoadState { message: self.message + self.header, ..self };
        let shown = seq![
            Action::DebugWrite(HASH_END),
            Action::DebugWrite(
                if s.relocatable() {
                    0xca
                } else {
                    0xcb
                },
            ),
            Action::DebugWrite(0xbb),
            Action::DebugWrite((s.phnum() % 256) as u8),
            Action::DebugWrite(0xbb),
        ];
        let (state, actions) = if s.phnum() > MAX_PHDRS {
            s.halt(Fault::TooManyHeaders)
        } else {
            s.headers_on()
        };
        (state, shown + actions)
    }

    /// The program header that was copied last was hashed.
    pub open spec fn phdr_hashed(self) -> (LoadState, Seq<Action>) {
        let m = self.phdrs.len() as int;
        let s = LoadState { message: self.message + self.phdrs.subrange(m - 56, m), ..self };
        let (state, actions) = s.headers_on();
        (state, seq![Action::DebugWrite(HASH_END)] + actions)
    }

    /// A block of a segment is hashed, which `segment` holds from `offset` on.
    /// When the block was the last, the rest of the segment is filled with
    /// zeros.
    pub open spec fn segment_hashed(self, index: usize, offset: u64, segment: Seq<u8>) -> Outcome {
        let p = self.phdr(index as int);
        let n = self.block_len(index as int, offset);
        if self.message.len() + n > MAX_MESSAGE {
            let (state, actions) = self.halt(Fault::MessageTooLong);
            Outcome { state, actions, target: segment }
        } else {
            let s = LoadState {
                message: self.message + segment.subrange(offset as int, offset + n),
                ..self
            };
            if offset + n < p.p_filesz {
                Outcome {
                    state: s.at(Phase::SegmentCopy { index, offset: (offset + n) as u64 }),
                    actions: seq![
                        Action::DebugWrite(HASH_END),
                        Action::Command(Command::SegData.code()),
                        Action::DebugWrite(COPY_START),
                    ],
                    target: segment,
                }
            } else {
                let end = s.segment_start(index as int) + p.p_memsz;
                let (state, actions) = if end > u64::MAX {
                    s.halt(Fault::AddressOverflow)
                } else if end > s.max_addr {
                    LoadState { max_addr: end as u64, ..s }.segments_from((index + 1) as nat)
                } else {
                    s.segments_from((index + 1) as nat)
                };
                Outcome {
                    state,
                    actions: seq![Action::DebugWrite(HASH_END)] + actions,
                    target: segment.subrange(0, p.p_filesz as int) + Seq::new(
                        (segment.len() - p.p_filesz) as nat,
                        |i: int| 0u8,
                    ),
                }
            }
        }
    }

    /// The hash of the kernel is complete, and its entry point known.
    pub open spec fn kernel_hashed(self) -> (LoadState, Seq<Action>) {
        let s = LoadState { digest: Some(sha256(self.message)), ..self };
        let entry = s.load_base() + s.elf().e_entry;
        let shown = seq![Action::DebugWrite(HASH_END), Action::DebugWrite(0x90)];
        if entry > u64::MAX {
            let (state, actions) = s.halt(Fault::AddressOverflow);
            (state, shown + actions)
        } else {
            (LoadState { entry_point: entry as u64, ..s }.at(Phase::Ramdisk), shown)
        }
    }

    /// What is done outside before the first step.
    pub open spec fn opening() -> Seq<Action> {
        seq![Action::Command(Command::ElfHdr.code()), Action::DebugWrite(COPY_START)]
    }

    /// One step of a load. `source` is what the memory to be read holds, and
    /// `target` what the memory to be changed holds.
    pub open spec fn next(self, source: Seq<u8>, target: Seq<u8>) -> Outcome {
        match self.phase {
            Phase::HeaderCopy => {
                let s = LoadState { header: source.subrange(0, 64), ..self };
                let (state, actions) = s.copied(Phase::HeaderHash);
                Outcome { state, actions, target }
            },
            Phase::HeaderHash => {
                let (state, actions) = self.header_hashed();
                Outcome { state, actions, target }
            },
            Phase::PhdrCopy => {
                let s = LoadState { phdrs: self.phdrs + source.subrange(0, 56), ..self };
                let (state, actions) = s.copied(Phase::PhdrHash);
                Outcome { state, actions, target }
            },
            Phase::PhdrHash => {
                let (state, actions) = self.phdr_hashed();
                Outcome { state, actions, target }
            },
            Phase::SegmentCopy { index, offset } => {
                let n = self.block_len(index as int, offset);
                if offset + n > target.len() {
                    let (state, actions) = self.halt(Fault::SegmentOverrun);
                    Outcome { state, actions, target }
                } else {
                    let (state, actions) = self.copied(Phase::SegmentHash { index, offset });
                    Outcome {
                        state,
                        actions,
                        target: splice(target, offset as int, source.subrange(0, n)),
                    }
                }
            },
            Phase::SegmentHash { index, offset } => self.segment_hashed(index, offset, target),
            Phase::Relocate => {
                let (memory, fault) = relocated(target, source);
                let (state, actions) = match fault {
                    Some(f) => self.halt(f),
                    None => (
                        self.at(Phase::KernelHash),
                        seq![Action::DebugWrite(HASH_START)],
                    ),
                };
                Outcome { state, actions, target: memory }
            },
            Phase::KernelHash => {
                let (state, actions) = self.kernel_hashed();
                Outcome { state, actions, target }
            },
            Phase::Ramdisk => Outcome {
                state: self.at(Phase::SetupData),
                actions: seq![Action::DebugWrite(0x91)],
                target: with_ramdisk(
                    target,
                    (self.initrd.load_addr % 0x1_0000_0000) as u32,
                    (self.initrd.len % 0x1_0000_0000) as u32,
                ),
            },
            Phase::SetupData => {
                let (state, actions) = if self.initrd.len > 0 {
                    (
                        self.at(Phase::InitrdCopy),
                        seq![Action::DebugWrite(INITRD_COPY_START)],
                    )
                } else {
                    self.ready()
                };
                Outcome {
                    state,
                    actions: seq![Action::DebugWrite(0x92)] + actions,
                    target: with_setup_data(target),
                }
            },
            Phase::InitrdCopy => Outcome {
                state: self.at(Phase::InitrdHash),
                actions: seq![
                    Action::DebugWrite(INITRD_COPY_END),
                    Action::DebugWrite(INITRD_HASH_START),
                ],
                target: source,
            },
            Phase::InitrdHash => {
                let (state, actions) = if target.len() > MAX_MESSAGE {
                    self.halt(Fault::MessageTooLong)
                } else if hashes_agree(sha256(target), source) {
                    let (state, actions) = self.ready();
                    (state, seq![Action::DebugWrite(INITRD_HASH_END)] + actions)
                } else {
                    (self.at(Phase::Rejected), seq![Action::DebugWrite(0xff)])
                };
                Outcome { state, actions, target }
            },
            Phase::Boot => Outcome {
                state: self.at(Phase::Done),
                actions: boot_actions(self.entry_point, source),
                target,
            },
            _ => Outcome { state: self, actions: Seq::empty(), target },
        }
    }
}

} // verus!
