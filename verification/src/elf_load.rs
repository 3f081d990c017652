//! Loading an ELF kernel, as a machine: between two things that are done
//! outside, one step of the load.

use sha2::Sha256;
use vstd::prelude::*;
use vstd::slice::slice_subrange;

use crate::action::Action;
use crate::boot::{link_setup_data, set_ramdisk};
use crate::bytes::{append, copy_into, to_vec, zero_from};
use crate::elf::{
    read_elf_header, read_program_header, ElfHeader, ProgramHeader, ELF_HDR_SIZE, ELF_PHDR_SIZE,
    ET_DYN, PT_LOAD,
};
use crate::fault::Fault;
use crate::fw_cfg::{Command, FwCfg, FW_CFG_DATA_SIZE, KERNEL_LOAD_ADDR};
use crate::load_state::{
    loadable, next_loadable, phdr_at, skip_code, skip_codes, Initrd, LoadState, Outcome, Phase,
    COPY_END, COPY_START, HASH_END, HASH_START, INITRD_COPY_END, INITRD_COPY_START,
    INITRD_HASH_START, MAX_PHDRS,
};
use crate::loader::{Kernel, CODE_SHOWN, CPUID_PAGE_LEN, HASH_SIZE_BYTES, ZERO_PAGE_START};
use crate::measure::{absorbed, finalize, new_hasher, sha256, update, MAX_MESSAGE};
use crate::mem::MemoryRegion;
use crate::reloc::perform_relocs;

verus! {

proof fn lemma_next_loadable(phdrs: Seq<u8>, n: nat, i: nat)
    requires
        i <= n,
    ensures
        i <= next_loadable(phdrs, n, i) <= n,
        next_loadable(phdrs, n, i) < n ==> loadable(
            phdr_at(phdrs, next_loadable(phdrs, n, i) as int),
        ),
    decreases n - i,
{
    if i < n && !loadable(phdr_at(phdrs, i as int)) {
        lemma_next_loadable(phdrs, n, i + 1);
    }
}

/// The loading of an ELF kernel.
pub struct ElfLoad {
    bounce_buffer: MemoryRegion,
    initrd_hash: MemoryRegion,
    initrd: Initrd,
    phase: Phase,
    header: Vec<u8>,
    phdrs: Vec<u8>,
    hasher: Sha256,
    hashed: u64,
    message: Ghost<Seq<u8>>,
    digest: Option<[u8; 32]>,
    max_addr: u64,
    kernel: Kernel,
}

impl View for ElfLoad {
    type V = LoadState;

    closed spec fn view(&self) -> LoadState {
        LoadState {
            bounce_buffer: self.bounce_buffer,
            initrd_hash: self.initrd_hash,
            initrd: self.initrd,
            phase: self.phase,
            header: self.header@,
            phdrs: self.phdrs@,
            message: self.message@,
            digest: match self.digest {
                Some(d) => Some(d@),
                None => None,
            },
            max_addr: self.max_addr,
            entry_point: self.kernel.entry_point,
        }
    }
}

impl ElfLoad {
    /// Whether the state is one of a load, and the hasher has taken in what was
    /// hashed so far.
    pub closed spec fn wf(self) -> bool {
        &&& self@.valid()
        &&& self.sound()
        &&& match self.phase {
            Phase::HeaderCopy
            | Phase::HeaderHash
            | Phase::PhdrCopy
            | Phase::PhdrHash
            | Phase::SegmentCopy { .. }
            | Phase::SegmentHash { .. }
            | Phase::Relocate
            | Phase::KernelHash => self.digest is None,
            _ => true,
        }
    }

    /// What holds in every phase.
    closed spec fn sound(self) -> bool {
        &&& self@.bounce_buffer.length == FW_CFG_DATA_SIZE
        &&& self@.initrd_hash.length == HASH_SIZE_BYTES
        &&& self.message@.len() <= MAX_MESSAGE
        &&& self.hashed == self.message@.len()
        &&& self.digest is None ==> absorbed(self.hasher) == self.message@
    }

    /// Whether the kernel is still being hashed. The phase may be about to
    /// change.
    closed spec fn hashing(self) -> bool {
        self.sound() && self.digest is None
    }

    /// The state of every load is one of those that a load can be in.
    pub proof fn law_valid(self)
        requires
            self.wf(),
        ensures
            self@.valid(),
    {
    }

    /// A load that has not begun.
    pub fn new(fw_cfg: &FwCfg, initrd: Initrd) -> (load: Self)
        requires
            fw_cfg.wf(),
        ensures
            load.wf(),
            load@ == LoadState::initial(*fw_cfg, initrd),
    {
        let load = ElfLoad {
            bounce_buffer: fw_cfg.bounce_buffer,
            initrd_hash: fw_cfg.initrd_hash,
            initrd,
            phase: Phase::HeaderCopy,
            header: Vec::new(),
            phdrs: Vec::new(),
            hasher: new_hasher(),
            hashed: 0,
            message: Ghost(Seq::empty()),
            digest: None,
            max_addr: 0,
            kernel: Kernel::new(),
        };
        assert(load@ =~= LoadState::initial(*fw_cfg, initrd));
        load
    }

    /// The ELF header that was read.
    fn elf(&self) -> (h: ElfHeader)
        requires
            self@.header.len() == ELF_HDR_SIZE,
        ensures
            h == self@.elf(),
    {
        read_elf_header(self.header.as_slice())
    }

    /// The program header number `i`.
    fn phdr(&self, i: usize) -> (p: ProgramHeader)
        requires
            56 * (i + 1) <= self@.phdrs.len(),
        ensures
            p == self@.phdr(i as int),
    {
        assert(self.phdrs.len() == self.phdrs@.len());
        read_program_header(slice_subrange(self.phdrs.as_slice(), 56 * i, 56 * i + ELF_PHDR_SIZE))
    }

    /// The memory that the next step reads.
    pub fn source_region(&self) -> (region: MemoryRegion)
        ensures
            region == self@.source_region(),
    {
        match self.phase {
            Phase::HeaderCopy | Phase::PhdrCopy | Phase::SegmentCopy {
                ..
            } | Phase::Relocate => self.bounce_buffer,
            Phase::InitrdCopy => MemoryRegion::new(self.initrd.plain_text_addr, self.initrd.len),
            Phase::InitrdHash => self.initrd_hash,
            Phase::Boot => MemoryRegion::new(self.kernel.entry_point, CODE_SHOWN as u64),
            _ => MemoryRegion::new(0, 0),
        }
    }

    /// The memory that the next step may change.
    pub fn target_region(&self) -> (region: MemoryRegion)
        requires
            self.wf(),
        ensures
            region == self@.target_region(),
    {
        match self.phase {
            Phase::SegmentCopy { index, .. } | Phase::SegmentHash { index, .. } => {
                let p: ProgramHeader = self.phdr(index);
                let base: u64 = if self.elf().e_type == ET_DYN {
                    KERNEL_LOAD_ADDR + p.p_vaddr
                } else {
                    p.p_vaddr
                };
                MemoryRegion::new(base, p.p_memsz)
            },
            Phase::Relocate => MemoryRegion::new(
                KERNEL_LOAD_ADDR,
                self.max_addr - KERNEL_LOAD_ADDR,
            ),
            Phase::Ramdisk | Phase::SetupData => MemoryRegion::new(ZERO_PAGE_START, CPUID_PAGE_LEN),
            Phase::InitrdCopy | Phase::InitrdHash => MemoryRegion::new(
                self.initrd.load_addr,
                self.initrd.len,
            ),
            _ => MemoryRegion::new(0, 0),
        }
    }

    /// Whether the load is over.
    pub fn finished(&self) -> (b: bool)
        ensures
            b == self@.finished(),
    {
        match self.phase {
            Phase::Done | Phase::Rejected | Phase::Halted(_) => true,
            _ => false,
        }
    }

    /// Stops the load with a panic.
    fn halt(&mut self, fault: Fault, actions: &mut Vec<Action>)
        requires
            old(self).sound(),
        ensures
            final(self).wf(),
            final(self)@ == old(self)@.halt(fault).0,
            final(actions)@ == old(actions)@ + old(self)@.halt(fault).1,
    {
        self.phase = Phase::Halted(fault);
        actions.push(Action::Panic(fault));
        assert(self@ =~= old(self)@.halt(fault).0);
        assert(actions@ =~= old(actions)@ + old(self)@.halt(fault).1);
    }

    /// Goes through the program headers from number `start` on.
    #[verifier::rlimit(40)]
    fn segments_from(&mut self, start: usize, actions: &mut Vec<Action>)
        requires
            old(self).hashing(),
            old(self)@.phdrs_ok(),
            start <= old(self)@.phnum(),
        ensures
            final(self).wf(),
            final(self)@ == old(self)@.segments_from(start as nat).0,
            final(actions)@ == old(actions)@ + old(self)@.segments_from(start as nat).1,
    {
        let elf: ElfHeader = self.elf();
        let relocatable: bool = elf.e_type == ET_DYN;
        let n: usize = elf.e_phnum as usize;
        let ghost s = self@;
        let ghost before = actions@;
        let ghost j = next_loadable(s.phdrs, n as nat, start as nat);
        proof {
            lemma_next_loadable(s.phdrs, n as nat, start as nat);
        }
        let mut i: usize = start;
        while i < n
            invariant
                i <= n,
                n == s.phnum(),
                s.phdrs_ok(),
                self@ == s,
                *self == *old(self),
                j == next_loadable(s.phdrs, n as nat, i as nat),
                i <= j <= n,
                before + skip_codes(s.phdrs, start as nat, j) =~= actions@ + skip_codes(
                    s.phdrs,
                    i as nat,
                    j,
                ),
            ensures
                i == j,
            decreases n - i,
        {
            let p: ProgramHeader = self.phdr(i);
            if p.p_filesz != 0 && p.p_type == PT_LOAD {
                break;
            }
            proof {
                lemma_next_loadable(s.phdrs, n as nat, (i + 1) as nat);
            }
            let ghost a = actions@;
            actions.push(Action::DebugWrite(0xf5));
            actions.push(Action::DebugWrite((p.p_type / 256 % 256) as u8));
            actions.push(Action::DebugWrite((p.p_type % 256) as u8));
            actions.push(Action::DebugWrite(0xf5));
            assert(actions@ =~= a + skip_code(p));
            i = i + 1;
        }
        assert(actions@ =~= before + skip_codes(s.phdrs, start as nat, j));
        if i < n {
            actions.push(Action::DebugWrite(0xf6));
            let p: ProgramHeader = self.phdr(i);
            if relocatable && p.p_vaddr > u64::MAX - KERNEL_LOAD_ADDR {
                self.halt(Fault::AddressOverflow, actions);
            } else {
                self.phase = Phase::SegmentCopy { index: i, offset: 0 };
                actions.push(Action::Command(u8::from(Command::SegData)));
                actions.push(Action::DebugWrite(COPY_START));
            }
        } else if relocatable {
            if self.max_addr < KERNEL_LOAD_ADDR {
                self.halt(Fault::NothingLoaded, actions);
            } else {
                self.phase = Phase::Relocate;
                actions.push(Action::Command(u8::from(Command::ElfRela)));
            }
        } else {
            self.phase = Phase::KernelHash;
            actions.push(Action::DebugWrite(HASH_START));
        }
        assert(self@ =~= s.segments_from(start as nat).0);
        assert(actions@ =~= before + s.segments_from(start as nat).1);
    }

    /// Asks for the next program header, or, after the last, goes through the
    /// segments.
    fn headers_on(&mut self, actions: &mut Vec<Action>)
        requires
            old(self).hashing(),
            old(self)@.header_ok(),
            old(self)@.phdrs.len() as int % 56 == 0,
            old(self)@.phdrs.len() <= 56 * old(self)@.phnum(),
            old(self)@.message.len() == 64 + old(self)@.phdrs.len(),
        ensures
            final(self).wf(),
            final(self)@ == old(self)@.headers_on().0,
            final(actions)@ == old(actions)@ + old(self)@.headers_on().1,
    {
        let ghost s = self@;
        let ghost before = actions@;
        let n: u16 = self.elf().e_phnum;
        if self.phdrs.len() < 56 * n as usize {
            self.phase = Phase::PhdrCopy;
            actions.push(Action::Command(u8::from(Command::PhdrData)));
            actions.push(Action::DebugWrite(COPY_START));
        } else {
            actions.push(Action::DebugWrite(0xf4));
            actions.push(Action::DebugWrite(n as u8));
            actions.push(Action::DebugWrite(0xf4));
            self.segments_from(0, actions);
        }
        assert(self@ =~= s.headers_on().0);
        assert(actions@ =~= before + s.headers_on().1);
    }

    /// Makes everything ready for the start of the kernel.
    fn ready(&mut self, actions: &mut Vec<Action>)
        requires
            old(self).wf(),
            old(self)@.phase == Phase::SetupData || old(self)@.phase == Phase::InitrdHash,
        ensures
            final(self).wf(),
            final(self)@ == old(self)@.ready().0,
            final(actions)@ == old(actions)@ + old(self)@.ready().1,
    {
        let ghost s = self@;
        let ghost before = actions@;
        actions.push(Action::DebugWrite(0x93));
        actions.push(Action::DebugWrite(0x94));
        if self.initrd.len > 0 {
            actions.push(
                Action::PageStateChange {
                    addr: self.initrd.plain_text_addr,
                    len: self.initrd.size_aligned,
                    private: true,
                },
            );
        }
        actions.push(Action::DebugWrite(0x95));
        actions.push(Action::SetupPaging { shared: false, addr: 0, len: 0 });
        actions.push(Action::DebugWrite(0x96));
        actions.push(Action::DebugWrite(0x99));
        let e: u64 = self.kernel.entry_point;
        actions.push(Action::DebugWrite((e / 0x40_0000_0000_0000 % 256) as u8));
        actions.push(Action::DebugWrite((e / 0x1_0000_0000_0000 % 256) as u8));
        actions.push(Action::DebugWrite((e / 0x100_0000_0000 % 256) as u8));
        actions.push(Action::DebugWrite((e / 0x1_0000_0000 % 256) as u8));
        actions.push(Action::DebugWrite((e / 0x100_0000 % 256) as u8));
        actions.push(Action::DebugWrite((e / 0x1_0000 % 256) as u8));
        actions.push(Action::DebugWrite((e / 0x100 % 256) as u8));
        actions.push(Action::DebugWrite((e % 256) as u8));
        actions.push(Action::DebugWrite(0x99));
        self.phase = Phase::Boot;
        assert(self@ =~= s.ready().0);
        assert(actions@ =~= before + s.ready().1);
    }

    /// Hashes the ELF header.
    fn hash_header(&mut self, actions: &mut Vec<Action>)
        requires
            old(self).wf(),
            old(self)@.phase == Phase::HeaderHash,
            old(actions)@.len() == 0,
        ensures
            final(self).wf(),
            final(self)@ == old(self)@.header_hashed().0,
            final(actions)@ == old(self)@.header_hashed().1,
    {
        let ghost s = self@;
        update(&mut self.hasher, self.header.as_slice());
        self.hashed = self.hashed + ELF_HDR_SIZE as u64;
        self.message = Ghost(self.message@ + self.header@);
        let ghost t = self@;
        assert(t =~= LoadState { message: s.message + s.header, ..s });
        let elf: ElfHeader = self.elf();
        actions.push(Action::DebugWrite(HASH_END));
        actions.push(
            Action::DebugWrite(
                if elf.e_type == ET_DYN {
                    0xca
                } else {
                    0xcb
                },
            ),
        );
        actions.push(Action::DebugWrite(0xbb));
        actions.push(Action::DebugWrite((elf.e_phnum % 256) as u8));
        actions.push(Action::DebugWrite(0xbb));
        if elf.e_phnum > MAX_PHDRS {
            self.halt(Fault::TooManyHeaders, actions);
        } else {
            self.headers_on(actions);
        }
        assert(actions@ =~= s.header_hashed().1);
    }

    /// Hashes the program header that was copied last.
    fn hash_phdr(&mut self, actions: &mut Vec<Action>)
        requires
            old(self).wf(),
            old(self)@.phase == Phase::PhdrHash,
            old(actions)@.len() == 0,
        ensures
            final(self).wf(),
            final(self)@ == old(self)@.phdr_hashed().0,
            final(actions)@ == old(self)@.phdr_hashed().1,
    {
        let ghost s = self@;
        let m: usize = self.phdrs.len();
        update(&mut self.hasher, slice_subrange(self.phdrs.as_slice(), m - ELF_PHDR_SIZE, m));
        self.hashed = self.hashed + ELF_PHDR_SIZE as u64;
        self.message = Ghost(self.message@ + self.phdrs@.subrange(m - 56, m as int));
        assert(self@ =~= LoadState {
            message: s.message + s.phdrs.subrange(m - 56, m as int),
            ..s
        });
        actions.push(Action::DebugWrite(HASH_END));
        self.headers_on(actions);
        assert(actions@ =~= s.phdr_hashed().1);
    }

    /// Copies a block of a segment.
    fn copy_block(
        &mut self,
        index: usize,
        offset: u64,
        source: &[u8],
        target: &mut [u8],
        actions: &mut Vec<Action>,
    )
        requires
            old(self).wf(),
            old(self)@.phase == (Phase::SegmentCopy { index, offset }),
            source@.len() == FW_CFG_DATA_SIZE,
            old(target)@.len() == old(self)@.target_region().length,
            old(actions)@.len() == 0,
        ensures
            final(self).wf(),
            (Outcome {
                state: final(self)@,
                actions: final(actions)@,
                target: final(target)@,
            }) == old(self)@.next(source@, old(target)@),
    {
        let ghost s = self@;
        let ghost before = target@;
        let p: ProgramHeader = self.phdr(index);
        let rest: u64 = p.p_filesz - offset;
        let n: u64 = if rest < FW_CFG_DATA_SIZE {
            rest
        } else {
            FW_CFG_DATA_SIZE
        };
        let len: u64 = target.len() as u64;
        if offset > len || n > len - offset {
            self.halt(Fault::SegmentOverrun, actions);
        } else {
            copy_into(target, offset as usize, slice_subrange(source, 0, n as usize));
            self.phase = Phase::SegmentHash { index, offset };
            actions.push(Action::DebugWrite(COPY_END));
            actions.push(Action::DebugWrite(HASH_START));
        }
        let ghost out = s.next(source@, before);
        assert(self@ =~= out.state);
        assert(actions@ =~= out.actions);
        assert(target@ =~= out.target);
    }

    /// Hashes a block of a segment, and after the last fills the rest of the
    /// segment with zeros.
    fn hash_block(
        &mut self,
        index: usize,
        offset: u64,
        target: &mut [u8],
        actions: &mut Vec<Action>,
    )
        requires
            old(self).wf(),
            old(self)@.phase == (Phase::SegmentHash { index, offset }),
            old(target)@.len() == old(self)@.target_region().length,
            old(actions)@.len() == 0,
        ensures
            final(self).wf(),
            (Outcome {
                state: final(self)@,
                actions: final(actions)@,
                target: final(target)@,
            }) == old(self)@.segment_hashed(index, offset, old(target)@),
    {
        let ghost s = self@;
        let ghost before = target@;
        let ghost out = s.segment_hashed(index, offset, before);
        let p: ProgramHeader = self.phdr(index);
        let rest: u64 = p.p_filesz - offset;
        let n: u64 = if rest < FW_CFG_DATA_SIZE {
            rest
        } else {
            FW_CFG_DATA_SIZE
        };
        assert(target.len() == before.len());
        if n > MAX_MESSAGE - self.hashed {
            self.halt(Fault::MessageTooLong, actions);
            assert(actions@ =~= out.actions);
            return;
        }
        let from: usize = offset as usize;
        let to: usize = (offset + n) as usize;
        update(&mut self.hasher, slice_subrange(target, from, to));
        self.hashed = self.hashed + n;
        self.message = Ghost(self.message@ + before.subrange(from as int, to as int));
        let ghost t = self@;
        assert(t =~= LoadState {
            message: s.message + before.subrange(from as int, to as int),
            ..s
        });
        actions.push(Action::DebugWrite(HASH_END));
        if offset + n < p.p_filesz {
            self.phase = Phase::SegmentCopy { index, offset: offset + n };
            actions.push(Action::Command(u8::from(Command::SegData)));
            actions.push(Action::DebugWrite(COPY_START));
            assert(self@ =~= out.state);
            assert(actions@ =~= out.actions);
        } else {
            zero_from(target, p.p_filesz as usize);
            let start: u64 = if self.elf().e_type == ET_DYN {
                KERNEL_LOAD_ADDR + p.p_vaddr
            } else {
                p.p_vaddr
            };
            if p.p_memsz > u64::MAX - start {
                self.halt(Fault::AddressOverflow, actions);
            } else {
                if start + p.p_memsz > self.max_addr {
                    self.max_addr = start + p.p_memsz;
                    assert(self@ =~= LoadState { max_addr: self.max_addr, ..t });
                }
                self.segments_from(index + 1, actions);
            }
            assert(self@ =~= out.state);
            assert(actions@ =~= out.actions);
            assert(target@ =~= out.target);
        }
    }

    /// Completes the hash of the kernel and finds its entry point.
    fn hash_kernel(&mut self, actions: &mut Vec<Action>)
        requires
            old(self).wf(),
            old(self)@.phase == Phase::KernelHash,
            old(actions)@.len() == 0,
        ensures
            final(self).wf(),
            final(self)@ == old(self)@.kernel_hashed().0,
            final(actions)@ == old(self)@.kernel_hashed().1,
    {
        let ghost s = self@;
        let mut hasher = new_hasher();
        std::mem::swap(&mut hasher, &mut self.hasher);
        let digest: [u8; 32] = finalize(hasher);
        self.digest = Some(digest);
        assert(self@ =~= LoadState { digest: Some(sha256(s.message)), ..s });
        actions.push(Action::DebugWrite(HASH_END));
        actions.push(Action::DebugWrite(0x90));
        let elf: ElfHeader = self.elf();
        if elf.e_type == ET_DYN && elf.e_entry > u64::MAX - KERNEL_LOAD_ADDR {
            self.halt(Fault::AddressOverflow, actions);
        } else {
            self.kernel.entry_point = if elf.e_type == ET_DYN {
                KERNEL_LOAD_ADDR + elf.e_entry
            } else {
                elf.e_entry
            };
            self.phase = Phase::Ramdisk;
        }
        assert(self@ =~= s.kernel_hashed().0);
        assert(actions@ =~= s.kernel_hashed().1);
    }

    /// What is done outside before the first step.
    pub fn start(&self) -> (actions: Vec<Action>)
        ensures
            actions@ == LoadState::opening(),
    {
        let mut actions: Vec<Action> = Vec::new();
        actions.push(Action::Command(u8::from(Command::ElfHdr)));
        actions.push(Action::DebugWrite(COPY_START));
        assert(actions@ =~= LoadState::opening());
        actions
    }

    /// One step of the load. `source` and `target` are the memory of
    /// `source_region` and of `target_region`. What is to be done outside before
    /// the next step is returned.
    #[verifier::rlimit(40)]
    pub fn step(&mut self, source: &[u8], target: &mut [u8]) -> (actions: Vec<Action>)
        requires
            old(self).wf(),
            source@.len() == old(self)@.source_region().length,
            old(target)@.len() == old(self)@.target_region().length,
        ensures
            final(self).wf(),
            (Outcome {
                state: final(self)@,
                actions: actions@,
                target: final(target)@,
            }) == old(self)@.next(source@, old(target)@),
    {
        let ghost s = self@;
        let ghost before = target@;
        let ghost out = s.next(source@, before);
        let mut actions: Vec<Action> = Vec::new();
        match self.phase {
            Phase::HeaderCopy => {
                self.header = to_vec(slice_subrange(source, 0, ELF_HDR_SIZE));
                self.phase = Phase::HeaderHash;
                actions.push(Action::DebugWrite(COPY_END));
                actions.push(Action::DebugWrite(HASH_START));
            },
            Phase::HeaderHash => {
                self.hash_header(&mut actions);
            },
            Phase::PhdrCopy => {
                append(&mut self.phdrs, slice_subrange(source, 0, ELF_PHDR_SIZE));
                self.phase = Phase::PhdrHash;
                actions.push(Action::DebugWrite(COPY_END));
                actions.push(Action::DebugWrite(HASH_START));
            },
            Phase::PhdrHash => {
                self.hash_phdr(&mut actions);
            },
            Phase::SegmentCopy { index, offset } => {
                self.copy_block(index, offset, source, target, &mut actions);
            },
            Phase::SegmentHash { index, offset } => {
                self.hash_block(index, offset, target, &mut actions);
            },
            Phase::Relocate => {
                match perform_relocs(source, target) {
                    Ok(_) => {
                        self.phase = Phase::KernelHash;
                        actions.push(Action::DebugWrite(HASH_START));
                    },
                    Err(f) => {
                        self.halt(f, &mut actions);
                    },
                }
            },
            Phase::KernelHash => {
                self.hash_kernel(&mut actions);
            },
            Phase::Ramdisk => {
                set_ramdisk(
                    target,
                    (self.initrd.load_addr % 0x1_0000_0000) as u32,
                    (self.initrd.len % 0x1_0000_0000) as u32,
                );
                self.phase = Phase::SetupData;
                actions.push(Action::DebugWrite(0x91));
            },
            Phase::SetupData => {
                link_setup_data(target);
                actions.push(Action::DebugWrite(0x92));
                if self.initrd.len > 0 {
                    self.phase = Phase::InitrdCopy;
                    actions.push(Action::DebugWrite(INITRD_COPY_START));
                } else {
                    self.ready(&mut actions);
                }
            },
            Phase::InitrdCopy => {
                copy_into(target, 0, source);
                self.phase = Phase::InitrdHash;
                actions.push(Action::DebugWrite(INITRD_COPY_END));
                actions.push(Action::DebugWrite(INITRD_HASH_START));
            },
            Phase::InitrdHash => {
                if target.len() as u64 > MAX_MESSAGE {
                    self.halt(Fault::MessageTooLong, &mut actions);
                } else {
                    match FwCfg::check_initrd(target, source, &mut actions) {
                        Ok(_) => {
                            self.ready(&mut actions);
                        },
                        Err(_) => {
                            self.phase = Phase::Rejected;
                        },
                    }
                }
            },
            Phase::Boot => {
                actions = self.kernel.boot(source);
                self.phase = Phase::Done;
            },
            _ => {},
        }
        assert(self@ =~= out.state);
        assert(actions@ =~= out.actions);
        assert(target@ =~= out.target);
        actions
    }

    /// The hash of the kernel, once it is complete.
    pub fn kernel_digest(&self) -> (digest: Option<[u8; 32]>)
        ensures
            self@.digest == match digest {
                Some(d) => Some(d@),
                None => None,
            },
    {
        self.digest
    }

    /// Whether what was loaded is accepted so far.
    pub fn result(&self) -> (res: Result<(), &'static str>)
        ensures
            res is Err <==> self@.phase == Phase::Rejected,
            res matches Err(m) ==> m@ == "Failed to validate initrd hash"@,
    {
        match self.phase {
            Phase::Rejected => Err("Failed to validate initrd hash"),
            _ => Ok(()),
        }
    }
}

} // verus!
