//! The records of a 64-bit little-endian ELF file that the loader reads.

use vstd::prelude::*;

use crate::bytes::{signed, u16_at, u32_at, u64_at};

verus! {

/// Length of the file header in bytes.
pub const ELF_HDR_SIZE: usize = 64;

/// Length of a program header in bytes.
pub const ELF_PHDR_SIZE: usize = 56;

/// Length of a symbol in bytes.
pub const ELF_SYM_SIZE: usize = 24;

/// Length of a relocation with addend in bytes.
pub const ELF_RELA_SIZE: usize = 24;

/// File type of a relocatable (position-independent) image.
pub const ET_DYN: u16 = 3;

/// Type of a program header whose segment is to be loaded.
pub const PT_LOAD: u32 = 1;

/// Symbol binding "weak".
pub const STB_WEAK: u8 = 2;

/// Section index of an undefined symbol.
pub const SHN_UNDEF: u16 = 0;

/// Relocation by the value of a symbol plus the addend.
pub const R_X86_64_64: u32 = 1;

/// Relocation of a global offset table entry by the value of a symbol.
pub const R_X86_64_GLOB_DAT: u32 = 6;

/// Relocation by the load address plus the addend.
pub const R_X86_64_RELATIVE: u32 = 8;

/// What the loader reads of the file header.
#[derive(Clone, Copy, Debug, PartialEq, Eq, Structural)]
pub struct ElfHeader {
    /// Object file type.
    pub e_type: u16,
    /// Entry point.
    pub e_entry: u64,
    /// Number of program headers.
    pub e_phnum: u16,
}

/// What the loader reads of a program header.
#[derive(Clone, Copy, Debug, PartialEq, Eq, Structural)]
pub struct ProgramHeader {
    /// Segment type.
    pub p_type: u32,
    /// Address of the segment, relative to the load address in a relocatable image.
    pub p_vaddr: u64,
    /// Bytes of the segment that the file holds.
    pub p_filesz: u64,
    /// Bytes of memory that the segment takes up.
    pub p_memsz: u64,
}

/// What the loader reads of a symbol.
#[derive(Clone, Copy, Debug, PartialEq, Eq, Structural)]
pub struct Symbol {
    /// Type and binding.
    pub st_info: u8,
    /// Section index.
    pub st_shndx: u16,
    /// Value.
    pub st_value: u64,
}

/// A relocation with addend.
#[derive(Clone, Copy, Debug, PartialEq, Eq, Structural)]
pub struct Relocation {
    /// Place of the relocated word, relative to the load address.
    pub r_offset: u64,
    /// Relocation type and symbol index.
    pub r_info: u64,
    /// Addend.
    pub r_addend: i64,
}

/// The file header that the bytes `b` hold.
pub open spec fn elf_header_of(b: Seq<u8>) -> ElfHeader {
    ElfHeader { e_type: u16_at(b, 16), e_entry: u64_at(b, 24), e_phnum: u16_at(b, 56) }
}

/// The program header that the bytes `b` hold.
pub open spec fn program_header_of(b: Seq<u8>) -> ProgramHeader {
    ProgramHeader {
        p_type: u32_at(b, 0),
        p_vaddr: u64_at(b, 16),
        p_filesz: u64_at(b, 32),
        p_memsz: u64_at(b, 40),
    }
}

/// The symbol that the bytes `b` hold.
pub open spec fn symbol_of(b: Seq<u8>) -> Symbol {
    Symbol { st_info: b[4], st_shndx: u16_at(b, 6), st_value: u64_at(b, 8) }
}

/// The relocation that the bytes `b` hold.
pub open spec fn relocation_of(b: Seq<u8>) -> Relocation {
    Relocation {
        r_offset: u64_at(b, 0),
        r_info: u64_at(b, 8),
        r_addend: signed(u64_at(b, 16)) as i64,
    }
}

/// Calls `plain::copy_from_bytes` on `goblin`'s 64-bit file header. The
/// contract claims that the header's fields are the little-endian numbers at
/// their places in the first 64 bytes.
#[verifier::external_body]
pub(crate) fn read_elf_header(bytes: &[u8]) -> (h: ElfHeader)
    requires
        bytes@.len() >= ELF_HDR_SIZE,
    ensures
        h == elf_header_of(bytes@),
{
    let mut raw = goblin::elf64::header::Header::default();
    plain::copy_from_bytes(&mut raw, bytes).unwrap();
    ElfHeader {
        e_type: u16::from_le(raw.e_type),
        e_entry: u64::from_le(raw.e_entry),
        e_phnum: u16::from_le(raw.e_phnum),
    }
}

/// Calls `plain::copy_from_bytes` on `goblin`'s 64-bit program header. The
/// contract claims that the header's fields are the little-endian numbers at
/// their places in the first 56 bytes.
#[verifier::external_body]
pub(crate) fn read_program_header(bytes: &[u8]) -> (h: ProgramHeader)
    requires
        bytes@.len() >= ELF_PHDR_SIZE,
    ensures
        h == program_header_of(bytes@),
{
    let mut raw = goblin::elf64::program_header::ProgramHeader::default();
    plain::copy_from_bytes(&mut raw, bytes).unwrap();
    ProgramHeader {
        p_type: u32::from_le(raw.p_type),
        p_vaddr: u64::from_le(raw.p_vaddr),
        p_filesz: u64::from_le(raw.p_filesz),
        p_memsz: u64::from_le(raw.p_memsz),
    }
}

/// Calls `plain::copy_from_bytes` on `goblin`'s 64-bit symbol. The contract
/// claims that the symbol's fields are the little-endian numbers at their
/// places in the first 24 bytes.
#[verifier::external_body]
pub(crate) fn read_symbol(bytes: &[u8]) -> (s: Symbol)
    requires
        bytes@.len() >= ELF_SYM_SIZE,
    ensures
        s == symbol_of(bytes@),
{
    let mut raw = goblin::elf64::sym::Sym::default();
    plain::copy_from_bytes(&mut raw, bytes).unwrap();
    Symbol {
        st_info: raw.st_info,
        st_shndx: u16::from_le(raw.st_shndx),
        st_value: u64::from_le(raw.st_value),
    }
}

/// Calls `plain::copy_from_bytes` on `goblin`'s 64-bit relocation. The
/// contract claims that the relocation's fields are the little-endian numbers
/// at their places in the first 24 bytes, the addend in two's complement.
#[verifier::external_body]
pub(crate) fn read_relocation(bytes: &[u8]) -> (r: Relocation)
    requires
        bytes@.len() >= ELF_RELA_SIZE,
    ensures
        r == relocation_of(bytes@),
{
    let mut raw = goblin::elf64::reloc::Rela::default();
    plain::copy_from_bytes(&mut raw, bytes).unwrap();
    Relocation {
        r_offset: u64::from_le(raw.r_offset),
        r_info: u64::from_le(raw.r_info),
        r_addend: i64::from_le(raw.r_addend),
    }
}

/// `goblin::elf64::reloc::r_sym`: the symbol index is the upper half of a
/// relocation's info word.
pub assume_specification[ goblin::elf64::reloc::r_sym ](info: u64) -> (sym: u32)
    ensures
        sym == info / 0x1_0000_0000,
;

/// `goblin::elf64::reloc::r_type`: the relocation type is the lower half of a
/// relocation's info word.
pub assume_specification[ goblin::elf64::reloc::r_type ](info: u64) -> (typ: u32)
    ensures
        typ == info % 0x1_0000_0000,
;

/// `goblin::elf64::sym::st_bind`: the binding is the upper four bits of a
/// symbol's info byte.
pub assume_specification[ goblin::elf64::sym::st_bind ](info: u8) -> (bind: u8)
    ensures
        bind == info / 16,
;

/// Where the fields of the records stand, and that all are little-endian.
pub proof fn law_records(b: Seq<u8>)
    ensures
        elf_header_of(b).e_type == u16_at(b, 0x10),
        elf_header_of(b).e_entry == u64_at(b, 0x18),
        elf_header_of(b).e_phnum == u16_at(b, 0x38),
        program_header_of(b).p_type == u32_at(b, 0),
        program_header_of(b).p_vaddr == u64_at(b, 0x10),
        program_header_of(b).p_filesz == u64_at(b, 0x20),
        program_header_of(b).p_memsz == u64_at(b, 0x28),
        symbol_of(b).st_info == b[4],
        symbol_of(b).st_shndx == u16_at(b, 6),
        symbol_of(b).st_value == u64_at(b, 8),
        relocation_of(b).r_offset == u64_at(b, 0),
        relocation_of(b).r_info == u64_at(b, 8),
        relocation_of(b).r_addend == signed(u64_at(b, 0x10)),
{
}

} // verus!
