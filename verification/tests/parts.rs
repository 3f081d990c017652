//! The parts of the firmware, on given values.

use hypervisor_fw::action::Action;
use hypervisor_fw::boot::{
    boot_flag, e820_table_region, link_setup_data, ram_entries, set_ramdisk, BootE820Entry, CCBlob,
    Header, SetupData,
};
use hypervisor_fw::bytes::{
    copy_into, read_u16, read_u32, read_u64, to_vec, u16_digits, u32_digits, u64_digits, zero_from,
};
use hypervisor_fw::cpu::{
    sse_cr0, sse_cr4, sse_xcr0, CR0_ALIGNMENT_MASK, CR0_EMULATE_COPROCESSOR, CR0_EXTENSION_TYPE,
    CR0_MONITOR_COPROCESSOR, CR0_TASK_SWITCHED, CR0_WRITE_PROTECT, CR4_OSFXSR,
    CR4_OSXMMEXCPT_ENABLE, CR4_OSXSAVE, XCR0_AVX, XCR0_SSE, XCR0_X87,
};
use hypervisor_fw::elf;
use hypervisor_fw::fault::Fault;
use hypervisor_fw::fw_cfg::{Command, Error, FwCfg};
use hypervisor_fw::ghcb::{
    ghcb_page, page_state_change, register_ghcb_page, Ghcb, GhcbAction,
};
use hypervisor_fw::initrd::place_initrd;
use hypervisor_fw::loader::Kernel;
use hypervisor_fw::mem::MemoryRegion;
use hypervisor_fw::reloc::perform_relocs;
use x86_64::registers::control::{Cr0Flags, Cr4Flags};
use x86_64::registers::xcontrol::XCr0Flags;
use x86_64::structures::paging::{PageSize, Size2MiB};

#[test]
fn little_endian_numbers() {
    let s = [1u8, 2, 3, 4, 5, 6, 7, 8, 9];
    assert_eq!(read_u16(&s, 1), 0x0302);
    assert_eq!(read_u32(&s, 1), 0x0504_0302);
    assert_eq!(read_u64(&s, 1), 0x0908_0706_0504_0302);
    assert_eq!(u16_digits(0xabcd), [0xcd, 0xab]);
    assert_eq!(u32_digits(0x0102_0304), [4, 3, 2, 1]);
    assert_eq!(u64_digits(u64::MAX - 1), [0xfe, 255, 255, 255, 255, 255, 255, 255]);
    assert_eq!(read_u64(&u64_digits(0xdead_beef_0bad_cafe), 0), 0xdead_beef_0bad_cafe);
}

#[test]
fn copies() {
    let mut d = [9u8; 6];
    copy_into(&mut d, 2, &[1, 2]);
    assert_eq!(d, [9, 9, 1, 2, 9, 9]);
    zero_from(&mut d, 3);
    assert_eq!(d, [9, 9, 1, 0, 0, 0]);
    let mut w = [1u8, 2, 3, 4, 5, 6, 7, 8, 9, 10];
    let digits = u64_digits(read_u64(&w, 1));
    copy_into(&mut w, 1, &digits);
    assert_eq!(w, [1, 2, 3, 4, 5, 6, 7, 8, 9, 10]);
    zero_from(&mut d, 6);
    assert_eq!(to_vec(&d), vec![9, 9, 1, 0, 0, 0]);
}

#[test]
fn elf_constants() {
    assert_eq!(elf::ET_DYN, goblin::elf64::header::ET_DYN);
    assert_eq!(elf::PT_LOAD, goblin::elf64::program_header::PT_LOAD);
    assert_eq!(elf::STB_WEAK, goblin::elf64::sym::STB_WEAK);
    assert_eq!(elf::SHN_UNDEF as u32, goblin::elf64::section_header::SHN_UNDEF);
    assert_eq!(elf::R_X86_64_64, goblin::elf64::reloc::R_X86_64_64);
    assert_eq!(elf::R_X86_64_GLOB_DAT, goblin::elf64::reloc::R_X86_64_GLOB_DAT);
    assert_eq!(elf::R_X86_64_RELATIVE, goblin::elf64::reloc::R_X86_64_RELATIVE);
    assert_eq!(elf::ELF_HDR_SIZE, goblin::elf64::header::SIZEOF_EHDR);
    assert_eq!(elf::ELF_PHDR_SIZE, goblin::elf64::program_header::SIZEOF_PHDR);
    assert_eq!(elf::ELF_SYM_SIZE, goblin::elf64::sym::SIZEOF_SYM);
    assert_eq!(elf::ELF_RELA_SIZE, goblin::elf64::reloc::SIZEOF_RELA);
}

fn symbol(info: u8, shndx: u16, value: u64) -> Vec<u8> {
    let mut b = vec![0xaau8; 24];
    b[4] = info;
    b[6..8].copy_from_slice(&shndx.to_le_bytes());
    b[8..16].copy_from_slice(&value.to_le_bytes());
    b
}

fn rela(offset: u64, sym: u64, typ: u64, addend: i64) -> Vec<u8> {
    let mut b = Vec::new();
    b.extend_from_slice(&offset.to_le_bytes());
    b.extend_from_slice(&(sym << 32 | typ).to_le_bytes());
    b.extend_from_slice(&addend.to_le_bytes());
    b
}

fn tables(syms: &[Vec<u8>], relas: &[Vec<u8>]) -> Vec<u8> {
    let mut b = Vec::new();
    b.extend_from_slice(&(syms.len() as u64).to_le_bytes());
    for s in syms {
        b.extend_from_slice(s);
    }
    b.extend_from_slice(&(relas.len() as u64).to_le_bytes());
    for r in relas {
        b.extend_from_slice(r);
    }
    b.resize(0x200, 0);
    b
}

#[test]
fn relocations_of_each_type() {
    let b = tables(
        &[symbol(0x12, 1, 0x500), symbol(0x20, 0, 0), symbol(0x20, 7, u64::MAX)],
        &[
            rela(0, 0, 8, -0x100),
            rela(8, 0, 1, 0x10),
            rela(16, 0, 6, 0),
            rela(24, 1, 1, 99),
            rela(33, 2, 1, 1),
            rela(44, 1, 6, 5),
        ],
    );
    let mut mem = vec![0x77u8; 60];
    mem[24..32].fill(0);
    mem[44..52].fill(0);
    assert_eq!(perform_relocs(&b, &mut mem), Ok(()));
    assert_eq!(mem[0..8], 0xff_ff00u64.to_le_bytes());
    assert_eq!(mem[8..16], 0x100_0510u64.to_le_bytes());
    assert_eq!(mem[16..24], 0x100_0500u64.to_le_bytes());
    assert_eq!(mem[24..32], [0; 8]);
    assert_eq!(mem[32], 0x77);
    assert_eq!(mem[33..41], 0x100_0000u64.to_le_bytes());
    assert_eq!(mem[41..44], [0x77; 3]);
    assert_eq!(mem[44..52], [0; 8]);
    assert_eq!(mem[52..], [0x77; 8]);
}

#[test]
fn relocating_again_changes_nothing() {
    let b = tables(
        &[symbol(0x12, 1, 0x500), symbol(0x20, 0, 0)],
        &[rela(0, 0, 8, 0x77), rela(20, 0, 1, 0x10), rela(8, 1, 1, 99), rela(28, 0, 6, 0)],
    );
    let mut once = vec![0x77u8; 40];
    once[8..16].fill(0);
    assert_eq!(perform_relocs(&b, &mut once), Ok(()));
    assert_eq!(once[8..16], [0; 8]);
    let mut twice = once.clone();
    assert_eq!(perform_relocs(&b, &mut twice), Ok(()));
    assert_eq!(twice, once);
}

#[test]
fn negative_relocated_value() {
    let b = tables(&[], &[rela(0, 0, 8, -0x100_0001)]);
    let mut mem = vec![0u8; 8];
    assert_eq!(perform_relocs(&b, &mut mem), Ok(()));
    assert_eq!(mem, vec![0xff; 8]);
}

#[test]
fn later_relocation_wins() {
    let b = tables(&[], &[rela(0, 0, 8, 0), rela(4, 0, 8, 0x0403_0201)]);
    let mut mem = vec![0u8; 12];
    assert_eq!(perform_relocs(&b, &mut mem), Ok(()));
    assert_eq!(mem, vec![0, 0, 0, 1, 1, 2, 3, 5, 0, 0, 0, 0]);
}

#[test]
fn relocation_faults() {
    let defined = symbol(0x10, 1, 0x10);
    let weak = symbol(0x20, 0, 0);
    let huge = symbol(0x10, 1, i64::MAX as u64);
    let cases: Vec<(Vec<u8>, Fault)> = vec![
        (tables(&[], &[rela(0, 0, 1, 0)]), Fault::SymbolOutOfRange),
        (tables(&[defined.clone()], &[rela(0, 1, 6, 0)]), Fault::SymbolOutOfRange),
        (tables(&[], &[rela(9, 0, 8, 0)]), Fault::OffsetOutOfRange),
        (tables(&[], &[rela(u64::MAX, 0, 8, 0)]), Fault::OffsetOutOfRange),
        (tables(&[weak.clone()], &[rela(9, 0, 1, 0)]), Fault::OffsetOutOfRange),
        (tables(&[weak], &[rela(0, 0, 6, 0)]), Fault::WeakNotZero),
        (tables(&[], &[rela(0, 0, 8, i64::MAX)]), Fault::ValueOverflow),
        (tables(&[huge], &[rela(0, 0, 1, -0x100_0000)]), Fault::ValueOverflow),
        (tables(&[defined.clone()], &[rela(0, 0, 1, i64::MAX)]), Fault::ValueOverflow),
        (tables(&[defined], &[rela(0, 0, 6, 1)]), Fault::NonZeroAddend),
        (tables(&[], &[rela(0, 7, 2, 0)]), Fault::UnknownRelocation(2)),
        (vec![0; 7], Fault::TableOverrun),
        (vec![0; 15], Fault::TableOverrun),
        (vec![0xff; 64], Fault::TableOverrun),
        (vec![1, 0, 0, 0, 0, 0, 0, 0, 0, 0, 0, 0], Fault::TableOverrun),
    ];
    for (b, fault) in cases {
        let mut mem = vec![0x55u8; 16];
        assert_eq!(perform_relocs(&b, &mut mem), Err(fault));
        assert_eq!(mem, vec![0x55u8; 16]);
    }
    let mut b = tables(&[], &[]);
    b[8..16].copy_from_slice(&22u64.to_le_bytes());
    assert_eq!(perform_relocs(&b, &mut []), Err(Fault::TableOverrun));
}

#[test]
fn relocations_before_a_fault_stay() {
    let b = tables(&[], &[rela(0, 0, 8, 0), rela(8, 0, 9, 0)]);
    let mut mem = vec![0x55u8; 16];
    assert_eq!(perform_relocs(&b, &mut mem), Err(Fault::UnknownRelocation(9)));
    assert_eq!(mem[0..8], 0x100_0000u64.to_le_bytes());
    assert_eq!(mem[8..], [0x55; 8]);
}

#[test]
fn command_codes() {
    let codes: Vec<u8> = vec![
        Command::ElfHdr.into(),
        Command::PhdrData.into(),
        Command::SegData.into(),
        Command::ElfRela.into(),
        Command::ElfDynSym.into(),
    ];
    assert_eq!(codes, vec![3, 4, 5, 6, 7]);
}

#[test]
fn device_regions() {
    let fw = FwCfg::new();
    assert_eq!(fw.cmd_reg, 0x81);
    assert_eq!(fw.bounce_buffer, MemoryRegion::new(0xe0_0000, 0x20_0000));
    assert_eq!(fw.kernel_hash, MemoryRegion::new(0xf_ffe0, 32));
    assert_eq!(fw.initrd_hash, MemoryRegion::new(0xf_ffc0, 32));
}

#[test]
fn hash_comparison() {
    let mut shown = Vec::new();
    let a = [7u8; 32];
    let mut b = [7u8; 40];
    assert_eq!(FwCfg::validate_hash(&a, &b, &mut shown), Ok(()));
    assert!(shown.is_empty());
    b[39] = 0;
    assert_eq!(FwCfg::validate_hash(&a, &b, &mut shown), Ok(()));
    b[31] = 8;
    assert_eq!(FwCfg::validate_hash(&a, &b, &mut shown), Err(Error::HashMismatch));
    assert_eq!(shown, vec![Action::DebugWrite(0xff)]);
    b[31] = 7;
    assert_eq!(FwCfg::validate_hash(&[7, 8], &b, &mut shown), Err(Error::HashMismatch));
    assert_eq!(FwCfg::validate_hash(&a, &[6], &mut shown), Err(Error::HashMismatch));
    b[0] = 0;
    assert_eq!(FwCfg::validate_hash(&a, &b, &mut shown), Err(Error::HashMismatch));
}

#[test]
fn initrd_hash_of_abc() {
    // SHA-256 of "abc".
    let mut hash = [
        0xba, 0x78, 0x16, 0xbf, 0x8f, 0x01, 0xcf, 0xea, 0x41, 0x41, 0x40, 0xde, 0x5d, 0xae, 0x22,
        0x23, 0xb0, 0x03, 0x61, 0xa3, 0x96, 0x17, 0x7a, 0x9c, 0xb4, 0x10, 0xff, 0x61, 0xf2, 0x00,
        0x15, 0xad,
    ];
    let mut encrypted = [0u8; 3];
    let mut shown = vec![Action::DebugWrite(0x92)];
    assert_eq!(FwCfg::load_initrd(b"abc", &mut encrypted, &hash, &mut shown), Ok(()));
    let codes = [0x92, 0x52, 0x53, 0x62, 0x63].map(Action::DebugWrite);
    assert_eq!(shown, codes);
    assert_eq!(&encrypted, b"abc");
    hash[5] = 0;
    let mut other = [0u8; 3];
    assert_eq!(
        FwCfg::load_initrd(b"abc", &mut other, &hash, &mut shown),
        Err("Failed to validate initrd hash")
    );
    assert_eq!(&other, b"abc");
    assert_eq!(shown[5..], [0x52, 0x53, 0x62, 0xff].map(Action::DebugWrite));
}

#[test]
fn new_kernel_and_boot() {
    let mut k = Kernel::new();
    assert_eq!(k.entry_point, 0);
    assert_eq!(k.hdr.boot_flag, Header::default().boot_flag);
    assert_eq!(k.hdr.setup_data, 0);
    k.entry_point = 0x1234;
    let actions = k.boot(&[1, 2, 3, 4, 5, 6]);
    assert_eq!(
        actions,
        vec![
            Action::DebugWrite(0xa0),
            Action::DebugWrite(1),
            Action::DebugWrite(2),
            Action::DebugWrite(3),
            Action::DebugWrite(4),
            Action::DebugWrite(5),
            Action::DebugWrite(6),
            Action::DebugWrite(0xa0),
            Action::Jump { entry_point: 0x1234, first: 0, second: 0x7000 },
        ]
    );
}

#[test]
fn setup_data_bytes() {
    let d = SetupData { next: 0, _type: 7, len: 4, cc_blob_addr: 0x7fd8 };
    assert_eq!(
        d.as_slice(),
        vec![0, 0, 0, 0, 0, 0, 0, 0, 7, 0, 0, 0, 4, 0, 0, 0, 0xd8, 0x7f, 0, 0]
    );
    let c = CCBlob {
        magic: 0x4544_4d41,
        version: 1,
        reserved: 2,
        secrets_phys: 3,
        secrets_len: 4,
        reserved1: 5,
        cpuid_phys: 6,
        cpuid_len: 7,
        reserved2: 8,
    };
    let b = c.as_slice();
    assert_eq!(b.len(), 40);
    assert_eq!(&b[..8], b"AMDE\x01\x00\x02\x00");
    assert_eq!(b[8], 3);
    assert_eq!(b[16], 4);
    assert_eq!(b[20], 5);
    assert_eq!(b[24], 6);
    assert_eq!(b[32], 7);
    assert_eq!(b[36], 8);
}

#[test]
fn setup_data_is_linked_once() {
    let mut page = vec![0u8; 0x1000];
    page[0x100] = 0x42;
    link_setup_data(&mut page);
    assert_eq!(read_u64(&page, 0x250), 0x7fc4);
    assert_eq!(read_u32(&page, 0xfc4 + 8), 7);
    assert_eq!(read_u32(&page, 0xfc4 + 12), 4);
    assert_eq!(read_u32(&page, 0xfc4 + 16), 0x7fd8);
    assert_eq!(read_u32(&page, 0xfd8), 0x4544_4d41);
    assert_eq!(read_u64(&page, 0xfd8 + 8), 0x2000);
    assert_eq!(read_u32(&page, 0xfd8 + 16), 0x1000);
    assert_eq!(read_u64(&page, 0xfd8 + 24), 0x1000);
    assert_eq!(read_u32(&page, 0xfd8 + 32), 4096);
    assert_eq!(page[0x100], 0x42);
    page[0xfd8] = 0;
    let once = page.clone();
    link_setup_data(&mut page);
    assert_eq!(page, once);
}

#[test]
fn ramdisk_fields() {
    let mut page = vec![0x11u8; 0x1000];
    set_ramdisk(&mut page, 0xa0b0_c0d0, 5);
    assert_eq!(read_u32(&page, 0x218), 0xa0b0_c0d0);
    assert_eq!(read_u32(&page, 0x21c), 5);
    assert_eq!(page[0x217], 0x11);
    assert_eq!(page[0x220], 0x11);
}

#[test]
fn boot_flag_bytes() {
    let mut page = vec![0u8; 0x1000];
    page[0x1fe] = 0x55;
    page[0x1ff] = 0xaa;
    assert_eq!(boot_flag(&page), [0x55, 0xaa]);
}

#[test]
fn memory_map() {
    assert_eq!(e820_table_region(3), MemoryRegion::new(0x72d0, 60));
    let mut table = Vec::new();
    for (addr, size, typ) in [(0u64, 0x1000u64, 1u32), (0x1000, 0x2000, 2), (0x5000, 0x6000, 1)] {
        table.extend_from_slice(&addr.to_le_bytes());
        table.extend_from_slice(&size.to_le_bytes());
        table.extend_from_slice(&typ.to_le_bytes());
    }
    assert_eq!(
        ram_entries(&table, 3),
        vec![
            BootE820Entry { addr: 0, size: 0x1000, type_: 1 },
            BootE820Entry { addr: 0x5000, size: 0x6000, type_: 1 },
        ]
    );
    assert!(ram_entries(&[], 0).is_empty());
}

#[test]
fn page_state_requests() {
    let private = 1u64 << 52;
    assert_eq!(
        page_state_change(0x5000, 0x2000, true, 0x3000),
        vec![
            GhcbAction::WriteMsr(private | 0x5000 | 0x14),
            GhcbAction::VmgExit,
            GhcbAction::WriteMsr(private | 0x6000 | 0x14),
            GhcbAction::VmgExit,
            GhcbAction::WriteMsr(0x3000),
        ]
    );
    assert_eq!(
        page_state_change(0x5123, 0x1000, false, 9),
        vec![
            GhcbAction::WriteMsr((2u64 << 52) | 0x5000 | 0x14),
            GhcbAction::VmgExit,
            GhcbAction::WriteMsr(9),
        ]
    );
    assert_eq!(page_state_change(0x5000, 0, true, 1), vec![GhcbAction::WriteMsr(1)]);
}

#[test]
fn ghcb_registration() {
    assert_eq!(ghcb_page(), MemoryRegion::new(0x3000, 0x1000));
    assert_eq!(
        register_ghcb_page(),
        vec![
            GhcbAction::WriteMsr(0x3012),
            GhcbAction::VmgExit,
            GhcbAction::ReadMsr,
            GhcbAction::WriteMsr(0x3000),
        ]
    );
}

#[test]
fn ghcb_page_round_trip() {
    let page: Vec<u8> = (0..0x1000u32).map(|i| (i * 7 + (i >> 8)) as u8).collect();
    let ghcb = Ghcb::from_page(&page);
    assert_eq!(ghcb.cpl, page[0xcb]);
    assert_eq!(ghcb.rax, read_u64(&page, 0x1f8));
    assert_eq!(ghcb.sw_scratch, read_u64(&page, 0x3a8));
    assert_eq!(ghcb.valid_bitmap, page[0x3f0..0x400]);
    assert_eq!(ghcb.protocol_version, read_u16(&page, 0xffa));
    assert_eq!(ghcb.ghcb_usage, read_u32(&page, 0xffc));
    assert_eq!(ghcb.to_page(), page);
}

#[test]
fn port_write() {
    let page = vec![0xffu8; 0x1000];
    let mut ghcb = Ghcb::from_page(&page);
    ghcb.port_io(0x81, 0x42);
    assert_eq!(ghcb.rax, 0x42);
    assert_eq!(ghcb.sw_exitcode, 0x7b);
    assert_eq!(ghcb.sw_exitinfo1, 0x81_0010);
    assert_eq!(ghcb.sw_exitinfo2, 0);
    assert_eq!(ghcb.sw_scratch, 0);
    assert_eq!(ghcb.protocol_version, 2);
    assert_eq!(ghcb.ghcb_usage, 0);
    let mut bitmap = [0u8; 16];
    bitmap[7] = 0x80;
    bitmap[14] = 0x3c;
    assert_eq!(ghcb.valid_bitmap, bitmap);
    let after = ghcb.to_page();
    let touched = |i: usize| {
        (0x1f8..0x200).contains(&i)
            || (0x390..0x3b0).contains(&i)
            || (0x3f0..0x400).contains(&i)
            || i >= 0xffa
    };
    for i in 0..0x1000 {
        assert!(touched(i) || after[i] == 0xff);
    }
}

#[test]
fn control_registers() {
    assert_eq!(CR0_EMULATE_COPROCESSOR, Cr0Flags::EMULATE_COPROCESSOR.bits());
    assert_eq!(CR0_TASK_SWITCHED, Cr0Flags::TASK_SWITCHED.bits());
    assert_eq!(CR0_MONITOR_COPROCESSOR, Cr0Flags::MONITOR_COPROCESSOR.bits());
    assert_eq!(CR0_EXTENSION_TYPE, Cr0Flags::EXTENSION_TYPE.bits());
    assert_eq!(CR0_ALIGNMENT_MASK, Cr0Flags::ALIGNMENT_MASK.bits());
    assert_eq!(CR0_WRITE_PROTECT, Cr0Flags::WRITE_PROTECT.bits());
    assert_eq!(CR4_OSFXSR, Cr4Flags::OSFXSR.bits());
    assert_eq!(CR4_OSXSAVE, Cr4Flags::OSXSAVE.bits());
    assert_eq!(CR4_OSXMMEXCPT_ENABLE, Cr4Flags::OSXMMEXCPT_ENABLE.bits());
    assert_eq!(XCR0_SSE, XCr0Flags::SSE.bits());
    assert_eq!(XCR0_AVX, XCr0Flags::AVX.bits());
    assert_eq!(XCR0_X87, XCr0Flags::X87.bits());
    assert_eq!(sse_cr0(0x8000_000d), 0x8005_0013);
    assert_eq!(sse_cr4(0x20), 0x4_0620);
    assert_eq!(sse_xcr0(0x80), 0x87);
}

#[test]
fn initrd_placement() {
    assert_eq!(Size2MiB::SIZE, hypervisor_fw::initrd::LARGE_PAGE);
    let i = place_initrd(0x400_0123, 0x30_0000);
    assert_eq!(i.plain_text_addr, 0x3c0_0000);
    assert_eq!(i.load_addr, 0x400_0123);
    assert_eq!(i.len, 0x30_0000);
    assert_eq!(i.size_aligned, 0x40_0000);
    assert_eq!(place_initrd(0x400_0000, 0).size_aligned, 0);
    assert_eq!(place_initrd(0x400_0000, 0x20_0000).size_aligned, 0x20_0000);
    assert_eq!(place_initrd(0x400_0000, 0x40_0000).size_aligned, 0x40_0000);
    let whole = place_initrd(0x1000_0000, 0x40_0000);
    assert_eq!(whole.plain_text_addr, 0xfc0_0000);
    assert_eq!(whole.size_aligned, 0x40_0000);
    let part = place_initrd(0x1012_3456, 0x40_0001);
    assert_eq!(part.plain_text_addr, 0xfa0_0000);
    assert_eq!(part.size_aligned, 0x60_0000);
    assert!(part.plain_text_addr + part.size_aligned <= part.load_addr);
    assert_eq!(place_initrd(0x400_0000, 1).plain_text_addr, 0x3e0_0000);
    assert_eq!(place_initrd(0x400_0000, 1).size_aligned, 0x20_0000);
}
