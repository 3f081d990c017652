//! Whole loads against a simulated hypervisor and guest memory.

use hypervisor_fw::action::Action;
use hypervisor_fw::elf_load::ElfLoad;
use hypervisor_fw::fault::Fault;
use hypervisor_fw::fw_cfg::{FwCfg, KernelLoad, KernelType};
use hypervisor_fw::mem::MemoryRegion;
use sha2::{Digest, Sha256};

const MEM: usize = 0x1a0_0000;
const BOUNCE: usize = 0xe0_0000;
const BLOCK: usize = 0x20_0000;
const BASE: u64 = 0x100_0000;
const ZERO_PAGE: usize = 0x7000;
const KERNEL_HASH: usize = 0x10_0000 - 32;
const INITRD_HASH: usize = 0x10_0000 - 64;

#[derive(Clone)]
struct Phdr {
    typ: u32,
    vaddr: u64,
    memsz: u64,
    filesz: u64,
    file: Vec<u8>,
}

fn seg(vaddr: u64, file: Vec<u8>, memsz: u64) -> Phdr {
    Phdr { typ: 1, vaddr, memsz, filesz: file.len() as u64, file }
}

struct Guest {
    mem: Vec<u8>,
    header: Vec<u8>,
    phdrs: Vec<Phdr>,
    rela: Vec<u8>,
    next_phdr: usize,
    next_block: usize,
    commands: Vec<u8>,
    actions: Vec<Action>,
}

fn header(e_type: u16, entry: u64, phnum: u16) -> Vec<u8> {
    let mut h = vec![0u8; 64];
    h[0..4].copy_from_slice(b"\x7fELF");
    h[16..18].copy_from_slice(&e_type.to_le_bytes());
    h[24..32].copy_from_slice(&entry.to_le_bytes());
    h[56..58].copy_from_slice(&phnum.to_le_bytes());
    h
}

fn phdr_bytes(p: &Phdr) -> Vec<u8> {
    let mut b = vec![0u8; 56];
    b[0..4].copy_from_slice(&p.typ.to_le_bytes());
    b[16..24].copy_from_slice(&p.vaddr.to_le_bytes());
    b[32..40].copy_from_slice(&p.filesz.to_le_bytes());
    b[40..48].copy_from_slice(&p.memsz.to_le_bytes());
    b
}

fn blocks(phdrs: &[Phdr]) -> Vec<Vec<u8>> {
    let mut all = Vec::new();
    for p in phdrs {
        if p.typ == 1 && p.filesz != 0 {
            for c in p.file.chunks(BLOCK) {
                all.push(c.to_vec());
            }
        }
    }
    all
}

impl Guest {
    fn new(e_type: u16, entry: u64, phdrs: Vec<Phdr>, rela: Vec<u8>) -> Guest {
        Guest {
            mem: vec![0xeeu8; MEM],
            header: header(e_type, entry, phdrs.len() as u16),
            phdrs,
            rela,
            next_phdr: 0,
            next_block: 0,
            commands: Vec::new(),
            actions: Vec::new(),
        }
    }

    fn serve(&mut self, data: &[u8]) {
        self.mem[BOUNCE..BOUNCE + BLOCK].fill(0xdd);
        self.mem[BOUNCE..BOUNCE + data.len()].copy_from_slice(data);
    }

    fn perform(&mut self, a: Action) {
        self.actions.push(a);
        if let Action::Command(c) = a {
            self.commands.push(c);
            let data = match c {
                3 => self.header.clone(),
                4 => {
                    self.next_phdr += 1;
                    phdr_bytes(&self.phdrs[self.next_phdr - 1])
                }
                5 => {
                    self.next_block += 1;
                    blocks(&self.phdrs)[self.next_block - 1].clone()
                }
                6 => self.rela.clone(),
                _ => panic!("unexpected command"),
            };
            self.serve(&data);
        }
    }

    fn slice(&self, r: MemoryRegion) -> Vec<u8> {
        self.mem[r.base as usize..(r.base + r.length) as usize].to_vec()
    }

    fn run(&mut self, load: &mut ElfLoad) {
        for a in load.start() {
            self.perform(a);
        }
        while !load.finished() {
            let from = load.source_region();
            let to = load.target_region();
            let source = self.slice(from);
            let mut target = self.slice(to);
            let actions = load.step(&source, &mut target);
            self.mem[to.base as usize..(to.base + to.length) as usize].copy_from_slice(&target);
            for a in actions {
                self.perform(a);
            }
        }
    }

    fn debug_codes(&self) -> Vec<u8> {
        self.actions
            .iter()
            .filter_map(|a| match a {
                Action::DebugWrite(v) => Some(*v),
                _ => None,
            })
            .collect()
    }

    fn halted_with(&self, fault: Fault) -> bool {
        self.actions.last() == Some(&Action::Panic(fault))
            && !self.actions.iter().any(|a| matches!(a, Action::Jump { .. }))
    }
}

fn load(plain: u64, at: u64, len: u64, aligned: u64) -> ElfLoad {
    match FwCfg::new().load_kernel(plain, at, len, aligned) {
        KernelLoad::Elf(l) => l,
        KernelLoad::BzImage => panic!("not an ELF load"),
    }
}

fn pattern(n: usize, seed: u8) -> Vec<u8> {
    (0..n).map(|i| (i as u64 * 31 + seed as u64) as u8 ^ (i >> 8) as u8).collect()
}

fn no_relocs() -> Vec<u8> {
    vec![0u8; 16]
}

fn zero_setup_data(g: &mut Guest) {
    g.mem[ZERO_PAGE + 0x250..ZERO_PAGE + 0x258].fill(0);
}

#[test]
fn fixed_kernel_without_initrd() {
    let code = pattern(100, 7);
    let mut g = Guest::new(2, 0x120_0010, vec![seg(0x120_0000, code.clone(), 150)], Vec::new());
    zero_setup_data(&mut g);
    let before = g.mem.clone();
    let mut l = load(0x10, 0x1_2345_6789, 0, 0);
    g.run(&mut l);
    assert_eq!(g.commands, vec![3, 4, 5]);
    assert_eq!(&g.mem[0x120_0000..0x120_0064], &code[..]);
    assert!(g.mem[0x120_0064..0x120_0096].iter().all(|b| *b == 0));
    assert_eq!(g.mem[0x120_0096], 0xee);
    let mut expected = vec![
        0x50, 0x51, 0x60, 0x61, 0xcb, 0xbb, 1, 0xbb, 0x50, 0x51, 0x60, 0x61, 0xf4, 1, 0xf4, 0xf6,
        0x50, 0x51, 0x60, 0x61, 0x60, 0x61, 0x90, 0x91, 0x92, 0x93, 0x94, 0x95, 0x96, 0x99, 0, 0,
        0, 0, 0x01, 0x20, 0x00, 0x10, 0x99, 0xa0,
    ];
    expected.extend_from_slice(&code[0x10..0x16]);
    expected.push(0xa0);
    assert_eq!(g.debug_codes(), expected);
    assert_eq!(
        g.actions.last(),
        Some(&Action::Jump { entry_point: 0x120_0010, first: 0, second: 0x7000 })
    );
    assert!(!g.actions.iter().any(|a| matches!(a, Action::PageStateChange { .. })));
    assert!(g.actions.contains(&Action::SetupPaging { shared: false, addr: 0, len: 0 }));
    // Boot parameters: place and length of the initrd, cut to 32 bits.
    assert_eq!(&g.mem[ZERO_PAGE + 0x218..ZERO_PAGE + 0x220], &[0x89, 0x67, 0x45, 0x23, 0, 0, 0, 0]);
    assert_eq!(g.mem[ZERO_PAGE + 0x250..ZERO_PAGE + 0x258], 0x7fc4u64.to_le_bytes());
    assert_eq!(g.mem[ZERO_PAGE..ZERO_PAGE + 0x218], before[ZERO_PAGE..ZERO_PAGE + 0x218]);
    // The measurement is that of all that was served.
    let mut h = Sha256::new();
    h.update(&g.header);
    h.update(phdr_bytes(&g.phdrs[0]));
    h.update(&code);
    let digest: [u8; 32] = h.finalize().into();
    assert_eq!(l.kernel_digest(), Some(digest));
    assert_eq!(l.result(), Ok(()));
}

#[test]
fn relocatable_kernel_in_blocks() {
    let big = pattern(BLOCK * 2 + 5, 3);
    let small = pattern(64, 9);
    let note = Phdr { typ: 0x6474_e551, vaddr: 0, memsz: 8, filesz: 8, file: vec![0; 8] };
    let bss = Phdr { typ: 1, vaddr: 0x40_0000, memsz: 0x100, filesz: 0, file: Vec::new() };
    let phdrs = vec![
        note,
        seg(0, big.clone(), big.len() as u64 + 11),
        bss,
        seg(0x50_0000, small.clone(), 64),
    ];
    // One relative relocation: the word at 0x10 becomes the load address plus 0x1234.
    let mut rela = Vec::new();
    rela.extend_from_slice(&0u64.to_le_bytes());
    rela.extend_from_slice(&1u64.to_le_bytes());
    rela.extend_from_slice(&0x10u64.to_le_bytes());
    rela.extend_from_slice(&8u64.to_le_bytes());
    rela.extend_from_slice(&0x1234i64.to_le_bytes());
    let mut g = Guest::new(3, 0x20, phdrs, rela);
    let mut l = load(0, 0, 0, 0);
    g.run(&mut l);
    assert_eq!(g.commands, vec![3, 4, 4, 4, 4, 5, 5, 5, 5, 6]);
    let b = BASE as usize;
    assert_eq!(g.mem[b..b + 0x10], big[..0x10]);
    assert_eq!(g.mem[b + 0x10..b + 0x18], 0x100_1234u64.to_le_bytes());
    assert_eq!(g.mem[b + 0x18..b + big.len()], big[0x18..]);
    assert!(g.mem[b + big.len()..b + big.len() + 11].iter().all(|x| *x == 0));
    assert_eq!(g.mem[b + big.len() + 11], 0xee);
    assert_eq!(g.mem[b + 0x50_0000..b + 0x50_0040], small[..]);
    assert_eq!(
        g.actions.last(),
        Some(&Action::Jump { entry_point: BASE + 0x20, first: 0, second: 0x7000 })
    );
    let codes = g.debug_codes();
    assert_eq!(codes[4], 0xca);
    // The passed-over headers show the two low bytes of their types.
    let at = codes.windows(4).position(|w| w == [0xf5, 0xe5, 0x51, 0xf5]);
    assert!(at.is_some());
    assert!(codes.windows(4).any(|w| w == [0xf5, 0x00, 0x01, 0xf5]));
    let mut h = Sha256::new();
    h.update(&g.header);
    for p in &g.phdrs {
        h.update(phdr_bytes(p));
    }
    h.update(&big);
    h.update(&small);
    let digest: [u8; 32] = h.finalize().into();
    assert_eq!(l.kernel_digest(), Some(digest));
    // Setup data that are there already stay.
    assert_eq!(g.mem[ZERO_PAGE + 0x250..ZERO_PAGE + 0x258], [0xee; 8]);
}

#[test]
fn initrd_accepted() {
    let mut g = Guest::new(2, 0x120_0000, vec![seg(0x120_0000, pattern(32, 1), 32)], Vec::new());
    let initrd = pattern(1000, 77);
    g.mem[0x60_0000..0x60_0000 + 1000].copy_from_slice(&initrd);
    let hash: [u8; 32] = Sha256::digest(&initrd).into();
    g.mem[INITRD_HASH..INITRD_HASH + 32].copy_from_slice(&hash);
    let mut l = load(0x60_0000, 0x80_0000, 1000, 0x20_0000);
    g.run(&mut l);
    assert_eq!(g.mem[0x80_0000..0x80_0000 + 1000], initrd[..]);
    assert_eq!(g.mem[0x80_0000 + 1000], 0xee);
    let codes = g.debug_codes();
    let at = codes.iter().position(|c| *c == 0x92).unwrap();
    assert_eq!(codes[at..at + 8], [0x92, 0x52, 0x53, 0x62, 0x63, 0x93, 0x94, 0x95]);
    let psc = Action::PageStateChange { addr: 0x60_0000, len: 0x20_0000, private: true };
    let i = g.actions.iter().position(|a| *a == psc).unwrap();
    assert_eq!(g.actions[i - 1], Action::DebugWrite(0x94));
    assert_eq!(g.actions[i + 1], Action::DebugWrite(0x95));
    assert!(matches!(g.actions.last(), Some(Action::Jump { .. })));
    assert_eq!(g.mem[ZERO_PAGE + 0x218..ZERO_PAGE + 0x21c], 0x80_0000u32.to_le_bytes());
    assert_eq!(g.mem[ZERO_PAGE + 0x21c..ZERO_PAGE + 0x220], 1000u32.to_le_bytes());
    assert_eq!(l.result(), Ok(()));
}

#[test]
fn reference_hash_of_kernel_influences_nothing() {
    let run = |reference: [u8; 32]| {
        let segment = seg(0x120_0000, pattern(32, 1), 32);
        let mut g = Guest::new(2, 0x120_0000, vec![segment], Vec::new());
        g.mem[KERNEL_HASH..KERNEL_HASH + 32].copy_from_slice(&reference);
        let mut l = load(0, 0, 0, 0);
        g.run(&mut l);
        assert_eq!(g.mem[KERNEL_HASH..KERNEL_HASH + 32], reference);
        g.mem[KERNEL_HASH..KERNEL_HASH + 32].fill(0);
        (g, l)
    };
    let (g, l) = run([0x11; 32]);
    let digest = l.kernel_digest().unwrap();
    let (h, m) = run(digest);
    assert_eq!(m.kernel_digest(), Some(digest));
    assert_eq!(g.actions, h.actions);
    assert!(matches!(g.actions.last(), Some(Action::Jump { .. })));
    assert!(g.mem == h.mem);
    assert_eq!(l.result(), m.result());
}

#[test]
fn initrd_rejected() {
    let mut g = Guest::new(2, 0x120_0000, vec![seg(0x120_0000, pattern(32, 1), 32)], Vec::new());
    let initrd = pattern(1000, 77);
    g.mem[0x60_0000..0x60_0000 + 1000].copy_from_slice(&initrd);
    let mut hash: [u8; 32] = Sha256::digest(&initrd).into();
    hash[31] ^= 1;
    g.mem[INITRD_HASH..INITRD_HASH + 32].copy_from_slice(&hash);
    let mut l = load(0x60_0000, 0x80_0000, 1000, 0x20_0000);
    g.run(&mut l);
    assert_eq!(l.result(), Err("Failed to validate initrd hash"));
    assert_eq!(g.actions.last(), Some(&Action::DebugWrite(0xff)));
    assert!(!g.actions.iter().any(|a| {
        matches!(
            a,
            Action::Jump { .. } | Action::SetupPaging { .. } | Action::PageStateChange { .. }
        )
    }));
    let again = l.step(&[], &mut []);
    assert!(again.is_empty());
}

#[test]
fn no_program_headers() {
    let mut g = Guest::new(2, 0x120_0000, Vec::new(), Vec::new());
    let mut l = load(0, 0, 0, 0);
    g.run(&mut l);
    assert_eq!(g.commands, vec![3]);
    assert!(matches!(g.actions.last(), Some(Action::Jump { .. })));
}

#[test]
fn most_program_headers() {
    let note = Phdr { typ: 4, vaddr: 0, memsz: 0, filesz: 0, file: Vec::new() };
    let mut g = Guest::new(2, 0x120_0000, vec![note; 64], Vec::new());
    let mut l = load(0, 0, 0, 0);
    g.run(&mut l);
    assert_eq!(g.commands.len(), 65);
    assert!(matches!(g.actions.last(), Some(Action::Jump { .. })));
}

#[test]
fn too_many_headers() {
    let note = Phdr { typ: 4, vaddr: 0, memsz: 0, filesz: 0, file: Vec::new() };
    let mut g = Guest::new(2, 0, vec![note; 65], Vec::new());
    let mut l = load(0, 0, 0, 0);
    g.run(&mut l);
    assert!(g.halted_with(Fault::TooManyHeaders));
    assert_eq!(g.commands, vec![3]);
    assert_eq!(g.debug_codes(), vec![0x50, 0x51, 0x60, 0x61, 0xcb, 0xbb, 65, 0xbb]);
}

#[test]
fn header_count_is_shown_cut() {
    let mut g = Guest::new(3, 0, Vec::new(), Vec::new());
    g.header = header(3, 0, 0x1234);
    let mut l = load(0, 0, 0, 0);
    g.run(&mut l);
    assert!(g.halted_with(Fault::TooManyHeaders));
    assert_eq!(g.debug_codes()[4..], [0xca, 0xbb, 0x34, 0xbb]);
}

#[test]
fn load_address_overflow() {
    let p = seg(u64::MAX - 0xff_ffff, pattern(4, 0), 4);
    let mut g = Guest::new(3, 0, vec![p], no_relocs());
    let mut l = load(0, 0, 0, 0);
    g.run(&mut l);
    assert!(g.halted_with(Fault::AddressOverflow));
    assert_eq!(g.commands, vec![3, 4]);
    assert_eq!(g.debug_codes().last(), Some(&0xf6));
}

#[test]
fn entry_point_overflow() {
    let mut g = Guest::new(3, u64::MAX, vec![seg(0, pattern(4, 0), 4)], no_relocs());
    let mut l = load(0, 0, 0, 0);
    g.run(&mut l);
    assert!(g.halted_with(Fault::AddressOverflow));
    assert_eq!(g.debug_codes().last(), Some(&0x90));
}

#[test]
fn segment_overrun() {
    let mut p = seg(0x120_0000, pattern(BLOCK + 10, 5), (BLOCK + 9) as u64);
    p.filesz = (BLOCK + 10) as u64;
    let mut g = Guest::new(2, 0, vec![p], Vec::new());
    let mut l = load(0, 0, 0, 0);
    g.run(&mut l);
    assert!(g.halted_with(Fault::SegmentOverrun));
    // The first block was loaded.
    assert_eq!(g.commands, vec![3, 4, 5, 5]);
    assert_eq!(g.mem[0x120_0000..0x120_0000 + BLOCK], pattern(BLOCK + 10, 5)[..BLOCK]);
}

#[test]
fn nothing_loaded() {
    let mut g = Guest::new(3, 0, Vec::new(), no_relocs());
    let mut l = load(0, 0, 0, 0);
    g.run(&mut l);
    assert!(g.halted_with(Fault::NothingLoaded));
}

#[test]
fn relocation_fault_stops_the_load() {
    let mut rela = no_relocs();
    rela[8] = 1;
    rela.extend_from_slice(&0u64.to_le_bytes());
    rela.extend_from_slice(&37u64.to_le_bytes());
    rela.extend_from_slice(&0u64.to_le_bytes());
    let mut g = Guest::new(3, 0, vec![seg(0, pattern(64, 0), 64)], rela);
    let mut l = load(0, 0, 0, 0);
    g.run(&mut l);
    assert!(g.halted_with(Fault::UnknownRelocation(37)));
    assert_eq!(l.kernel_digest(), None);
}

#[test]
fn kernel_types() {
    let mut fw = FwCfg::new();
    assert_eq!(fw.kernel_type, KernelType::Elf);
    assert!(matches!(fw.load_kernel(0, 0, 0, 0), KernelLoad::Elf(_)));
    fw.kernel_type = KernelType::BzImage;
    assert!(matches!(fw.load_kernel(0, 0, 0, 0), KernelLoad::BzImage));
}

#[test]
fn regions_asked_for() {
    let mut l = FwCfg::new().load_kernel_elf(0, 0, 0, 0);
    assert_eq!(l.source_region(), MemoryRegion { base: 0xe0_0000, length: 0x20_0000 });
    assert_eq!(l.target_region(), MemoryRegion { base: 0, length: 0 });
    let bounce = vec![0u8; BLOCK];
    let actions = l.step(&bounce, &mut []);
    assert_eq!(actions, vec![Action::DebugWrite(0x51), Action::DebugWrite(0x60)]);
    assert_eq!(l.source_region().length, 0);
}
