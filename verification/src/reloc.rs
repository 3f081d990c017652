//! Relocation of a position-independent kernel to its load address.
//!
//! The hypervisor serves the tables in the bounce buffer: the number of
//! symbols, the symbols, the number of relocations, the relocations.

use vstd::prelude::*;
use vstd::slice::slice_subrange;

use crate::bytes::{
    copy_into, law_le_round_trip, law_read_back_u64, law_rewrite_u64, law_zero_word, le_bytes,
    read_u64, signed, splice, u64_at, u64_digits, word_of,
};
use crate::elf::{
    read_relocation, read_symbol, relocation_of, symbol_of, Relocation, Symbol, ELF_RELA_SIZE,
    ELF_SYM_SIZE, R_X86_64_64, R_X86_64_GLOB_DAT, R_X86_64_RELATIVE, SHN_UNDEF, STB_WEAK,
};
use crate::fault::Fault;
use crate::fw_cfg::KERNEL_LOAD_ADDR;

verus! {

/// The number of symbols that the tables in `b` announce.
pub open spec fn symbol_count(b: Seq<u8>) -> nat {
    u64_at(b, 0) as nat
}

/// Where the number of relocations stands in `b`.
pub open spec fn relocation_count_at(b: Seq<u8>) -> int {
    8 + 24 * symbol_count(b) as int
}

/// The number of relocations that the tables in `b` announce.
pub open spec fn relocation_count(b: Seq<u8>) -> nat {
    u64_at(b, relocation_count_at(b)) as nat
}

/// Whether both tables lie inside `b`.
pub open spec fn tables_fit(b: Seq<u8>) -> bool {
    &&& 8 <= b.len()
    &&& relocation_count_at(b) + 8 <= b.len()
    &&& relocation_count_at(b) + 8 + 24 * relocation_count(b) <= b.len()
}

/// The symbol table in `b`.
pub open spec fn symbols(b: Seq<u8>) -> Seq<Symbol> {
    Seq::new(symbol_count(b), |i: int| symbol_of(b.subrange(8 + 24 * i, 8 + 24 * i + 24)))
}

/// The relocation table in `b`.
pub open spec fn relocations(b: Seq<u8>) -> Seq<Relocation> {
    let start = relocation_count_at(b) + 8;
    Seq::new(
        relocation_count(b),
        |i: int| relocation_of(b.subrange(start + 24 * i, start + 24 * i + 24)),
    )
}

/// The type of a relocation.
pub open spec fn reloc_type(r: Relocation) -> int {
    r.r_info as int % 0x1_0000_0000
}

/// The index of a relocation's symbol.
pub open spec fn reloc_symbol(r: Relocation) -> int {
    r.r_info as int / 0x1_0000_0000
}

/// Whether a symbol is weak and defined nowhere.
pub open spec fn weak_undefined(s: Symbol) -> bool {
    s.st_info / 16 == STB_WEAK && s.st_shndx == SHN_UNDEF
}

/// Whether an integer fits in 64 bits with sign.
pub open spec fn fits_i64(v: int) -> bool {
    i64::MIN <= v <= i64::MAX
}

/// Whether the eight bytes from `at` on lie inside a memory of `len` bytes.
pub open spec fn word_inside(len: nat, at: u64) -> bool {
    at + 8 <= len
}

/// Whether the eight bytes from `at` on are all zero.
pub open spec fn word_is_zero(mem: Seq<u8>, at: u64) -> bool {
    forall|i: int| at <= i < at + 8 ==> mem[i] == 0
}

/// The memory `mem` with the relocated value `v` stored at `at`.
pub open spec fn place(mem: Seq<u8>, at: u64, v: int) -> Result<Seq<u8>, Fault> {
    if !word_inside(mem.len(), at) {
        Err(Fault::OffsetOutOfRange)
    } else {
        Ok(splice(mem, at as int, le_bytes(word_of(v) as nat, 8)))
    }
}

/// What one relocation makes of the loaded image `mem`.
pub open spec fn relocate(mem: Seq<u8>, syms: Seq<Symbol>, r: Relocation) -> Result<
    Seq<u8>,
    Fault,
> {
    let typ = reloc_type(r);
    let index = reloc_symbol(r);
    if typ == R_X86_64_RELATIVE {
        if !fits_i64(KERNEL_LOAD_ADDR + r.r_addend) {
            Err(Fault::ValueOverflow)
        } else {
            place(mem, r.r_offset, KERNEL_LOAD_ADDR + r.r_addend)
        }
    } else if typ == R_X86_64_64 || typ == R_X86_64_GLOB_DAT {
        if index >= syms.len() {
            Err(Fault::SymbolOutOfRange)
        } else if weak_undefined(syms[index]) {
            if !word_inside(mem.len(), r.r_offset) {
                Err(Fault::OffsetOutOfRange)
            } else if !word_is_zero(mem, r.r_offset) {
                Err(Fault::WeakNotZero)
            } else {
                Ok(mem)
            }
        } else {
            let s = KERNEL_LOAD_ADDR + signed(syms[index].st_value);
            if !fits_i64(s) || !fits_i64(s + r.r_addend) {
                Err(Fault::ValueOverflow)
            } else if typ == R_X86_64_GLOB_DAT && r.r_addend != 0 {
                Err(Fault::NonZeroAddend)
            } else {
                place(mem, r.r_offset, s + r.r_addend)
            }
        }
    } else {
        Err(Fault::UnknownRelocation(typ as u32))
    }
}

/// What the relocations from number `i` on make of the loaded image `mem`, and
/// the fault that stopped them, if one did.
pub open spec fn relocate_from(
    mem: Seq<u8>,
    syms: Seq<Symbol>,
    relocs: Seq<Relocation>,
    i: nat,
) -> (Seq<u8>, Option<Fault>)
    decreases relocs.len() - i,
{
    if i >= relocs.len() {
        (mem, None)
    } else {
        match relocate(mem, syms, relocs[i as int]) {
            Ok(m) => relocate_from(m, syms, relocs, i + 1),
            Err(f) => (mem, Some(f)),
        }
    }
}

/// What the tables in `b` make of the loaded image `mem`, and the fault that
/// stopped them, if one did.
pub open spec fn relocated(mem: Seq<u8>, b: Seq<u8>) -> (Seq<u8>, Option<Fault>) {
    if !tables_fit(b) {
        (mem, Some(Fault::TableOverrun))
    } else {
        relocate_from(mem, symbols(b), relocations(b), 0)
    }
}

/// Stores the relocated value `v` at `at`.
fn place_value(mem: &mut [u8], at: u64, v: i64) -> (res: Result<(), Fault>)
    ensures
        match place(old(mem)@, at, v as int) {
            Ok(m) => res == Ok::<(), Fault>(()) && final(mem)@ == m,
            Err(f) => res == Err::<(), Fault>(f) && final(mem)@ == old(mem)@,
        },
{
    let len: u64 = mem.len() as u64;
    if len < 8 || at > len - 8 {
        return Err(Fault::OffsetOutOfRange);
    }
    let word: u64 = v as u64;
    assert(word == word_of(v as int)) by {
        assert(v >= 0 ==> v as u64 == v) by (bit_vector);
        assert(v < 0 ==> v as u64 == v + 0x1_0000_0000_0000_0000) by (bit_vector);
    }
    let digits: [u8; 8] = u64_digits(word);
    copy_into(mem, at as usize, digits.as_slice());
    Ok(())
}

/// Applies one relocation to the loaded image.
fn apply(mem: &mut [u8], bounce: &[u8], count: u64, r: Relocation) -> (res: Result<(), Fault>)
    requires
        count == symbol_count(bounce@),
        8 + 24 * count <= bounce@.len(),
    ensures
        match relocate(old(mem)@, symbols(bounce@), r) {
            Ok(m) => res == Ok::<(), Fault>(()) && final(mem)@ == m,
            Err(f) => res == Err::<(), Fault>(f) && final(mem)@ == old(mem)@,
        },
{
    let base: i64 = KERNEL_LOAD_ADDR as i64;
    let typ: u32 = goblin::elf64::reloc::r_type(r.r_info);
    if typ == R_X86_64_RELATIVE {
        return match base.checked_add(r.r_addend) {
            Some(v) => place_value(mem, r.r_offset, v),
            None => Err(Fault::ValueOverflow),
        };
    }
    if typ != R_X86_64_64 && typ != R_X86_64_GLOB_DAT {
        return Err(Fault::UnknownRelocation(typ));
    }
    let index: u64 = goblin::elf64::reloc::r_sym(r.r_info) as u64;
    if index >= count {
        return Err(Fault::SymbolOutOfRange);
    }
    assert(bounce.len() == bounce@.len());
    let at: usize = 8 + 24 * index as usize;
    let sym: Symbol = read_symbol(slice_subrange(bounce, at, at + ELF_SYM_SIZE));
    assert(sym == symbols(bounce@)[index as int]);
    if goblin::elf64::sym::st_bind(sym.st_info) == STB_WEAK && sym.st_shndx == SHN_UNDEF {
        let len: u64 = mem.len() as u64;
        if len < 8 || r.r_offset > len - 8 {
            return Err(Fault::OffsetOutOfRange);
        }
        let word: u64 = read_u64(mem, r.r_offset as usize);
        proof {
            law_zero_word(mem@, r.r_offset as int);
        }
        return if word != 0 {
            Err(Fault::WeakNotZero)
        } else {
            Ok(())
        };
    }
    let raw: u64 = sym.st_value;
    let value: i64 = raw as i64;
    assert(value == signed(raw)) by {
        assert(raw < 0x8000_0000_0000_0000 ==> raw as i64 == raw) by (bit_vector);
        assert(raw >= 0x8000_0000_0000_0000 ==> raw as i64 == raw - 0x1_0000_0000_0000_0000)
            by (bit_vector);
    }
    match base.checked_add(value) {
        None => Err(Fault::ValueOverflow),
        Some(s) => match s.checked_add(r.r_addend) {
            None => Err(Fault::ValueOverflow),
            Some(v) => if typ == R_X86_64_GLOB_DAT && r.r_addend != 0 {
                Err(Fault::NonZeroAddend)
            } else {
                place_value(mem, r.r_offset, v)
            },
        },
    }
}

/// Applies the relocations that the bounce buffer serves to the loaded image,
/// in the order of the table. The first that cannot be applied stops them.
pub fn perform_relocs(bounce: &[u8], memory: &mut [u8]) -> (res: Result<(), Fault>)
    ensures
        final(memory)@ == relocated(old(memory)@, bounce@).0,
        res == match relocated(old(memory)@, bounce@).1 {
            Some(f) => Err::<(), Fault>(f),
            None => Ok(()),
        },
{
    let len: u64 = bounce.len() as u64;
    if len < 8 {
        return Err(Fault::TableOverrun);
    }
    let count: u64 = read_u64(bounce, 0);
    if count > (len - 8) / 24 || len - 8 - 24 * count < 8 {
        return Err(Fault::TableOverrun);
    }
    let count_at: u64 = 8 + 24 * count;
    let number: u64 = read_u64(bounce, count_at as usize);
    if number > (len - count_at - 8) / 24 {
        return Err(Fault::TableOverrun);
    }
    let ghost syms = symbols(bounce@);
    let ghost relocs = relocations(bounce@);
    let start: u64 = count_at + 8;
    let mut i: u64 = 0;
    while i < number
        invariant
            i <= number,
            len == bounce@.len(),
            len <= usize::MAX,
            start == count_at + 8,
            count_at == 8 + 24 * count,
            start + 24 * number <= len,
            count == symbol_count(bounce@),
            number == relocation_count(bounce@),
            syms == symbols(bounce@),
            relocs == relocations(bounce@),
            tables_fit(bounce@),
            relocate_from(old(memory)@, syms, relocs, 0) == relocate_from(
                memory@,
                syms,
                relocs,
                i as nat,
            ),
        decreases number - i,
    {
        let at: usize = (start + 24 * i) as usize;
        let r: Relocation = read_relocation(slice_subrange(bounce, at, at + ELF_RELA_SIZE));
        assert(r == relocs[i as int]);
        match apply(memory, bounce, count, r) {
            Ok(_) => {
                i = i + 1;
            },
            Err(f) => {
                return Err(f);
            },
        }
    }
    Ok(())
}

pub(crate) proof fn lemma_relocated_len(mem: Seq<u8>, b: Seq<u8>)
    ensures
        relocated(mem, b).0.len() == mem.len(),
{
    law_relocation_keeps_length(mem, symbols(b), relocations(b), 0);
}

/// Relocation does not change the length of the image.
pub proof fn law_relocation_keeps_length(
    mem: Seq<u8>,
    syms: Seq<Symbol>,
    relocs: Seq<Relocation>,
    i: nat,
)
    ensures
        relocate_from(mem, syms, relocs, i).0.len() == mem.len(),
    decreases relocs.len() - i,
{
    if i < relocs.len() {
        match relocate(mem, syms, relocs[i as int]) {
            Ok(m) => {
                law_relocation_keeps_length(m, syms, relocs, i + 1);
            },
            Err(_) => {},
        }
    }
}

/// Whether a relocation's word covers the byte at `i`.
pub open spec fn covers(r: Relocation, i: int) -> bool {
    r.r_offset <= i < r.r_offset + 8
}

/// Relocation changes no byte that no relocation's word covers.
pub proof fn law_relocation_changes_only_words(
    mem: Seq<u8>,
    syms: Seq<Symbol>,
    relocs: Seq<Relocation>,
    from: nat,
    i: int,
)
    requires
        0 <= i < mem.len(),
        forall|k: int| from <= k < relocs.len() ==> !covers(#[trigger] relocs[k], i),
    ensures
        relocate_from(mem, syms, relocs, from).0[i] == mem[i],
    decreases relocs.len() - from,
{
    if from < relocs.len() {
        assert(!covers(relocs[from as int], i));
        assert forall|w: nat| (#[trigger] le_bytes(w, 8)).len() == 8 by {
            law_le_round_trip(w, 8);
        }
        match relocate(mem, syms, relocs[from as int]) {
            Ok(m) => {
                law_relocation_changes_only_words(m, syms, relocs, from + 1, i);
            },
            Err(_) => {},
        }
    }
}

/// The value that a relocation stores, if it stores one.
pub open spec fn stored(syms: Seq<Symbol>, r: Relocation) -> Option<int> {
    if reloc_type(r) == R_X86_64_RELATIVE {
        Some(KERNEL_LOAD_ADDR + r.r_addend)
    } else if reloc_symbol(r) < syms.len() && !weak_undefined(syms[reloc_symbol(r)]) {
        Some(KERNEL_LOAD_ADDR + signed(syms[reloc_symbol(r)].st_value) + r.r_addend)
    } else {
        None
    }
}

/// Whether two relocations' words have a byte in common.
pub open spec fn overlap(a: Relocation, b: Relocation) -> bool {
    a.r_offset < b.r_offset + 8 && b.r_offset < a.r_offset + 8
}

/// After relocations that all could be applied, each relocation's word holds the
/// load address plus the symbol's value, if there is a symbol, plus the addend,
/// unless a later relocation covers part of it.
pub proof fn law_relocated_words(
    mem: Seq<u8>,
    syms: Seq<Symbol>,
    relocs: Seq<Relocation>,
    from: nat,
    k: int,
)
    requires
        from <= k < relocs.len(),
        relocate_from(mem, syms, relocs, from).1 is None,
        stored(syms, relocs[k]) is Some,
        forall|l: int| k < l < relocs.len() ==> !overlap(relocs[k], #[trigger] relocs[l]),
    ensures
        relocs[k].r_offset + 8 <= mem.len(),
        u64_at(relocate_from(mem, syms, relocs, from).0, relocs[k].r_offset as int) == word_of(
            stored(syms, relocs[k])->0,
        ),
    decreases relocs.len() - from,
{
    let r = relocs[from as int];
    let m = relocate(mem, syms, r)->Ok_0;
    let at = relocs[k].r_offset as int;
    if from < k {
        law_relocated_words(m, syms, relocs, from + 1, k);
    } else {
        let last = relocate_from(m, syms, relocs, from + 1).0;
        law_relocation_keeps_length(m, syms, relocs, from + 1);
        assert forall|i: int| at <= i < at + 8 implies last[i] == m[i] by {
            assert forall|l: int| from + 1 <= l < relocs.len() implies !covers(
                #[trigger] relocs[l],
                i,
            ) by {
                assert(!overlap(relocs[k], relocs[l]));
            }
            law_relocation_changes_only_words(m, syms, relocs, from + 1, i);
        }
        assert(last.subrange(at, at + 8) =~= m.subrange(at, at + 8));
        law_read_back_u64(mem, at, word_of(stored(syms, r)->0));
    }
}

/// After relocations that all could be applied, the word of an undefined weak
/// symbol holds zero, unless a later relocation covers part of it.
pub proof fn law_weak_words(
    mem: Seq<u8>,
    syms: Seq<Symbol>,
    relocs: Seq<Relocation>,
    from: nat,
    k: int,
)
    requires
        from <= k < relocs.len(),
        relocate_from(mem, syms, relocs, from).1 is None,
        stored(syms, relocs[k]) is None,
        forall|l: int| k < l < relocs.len() ==> !overlap(relocs[k], #[trigger] relocs[l]),
    ensures
        relocs[k].r_offset + 8 <= mem.len(),
        word_is_zero(relocate_from(mem, syms, relocs, from).0, relocs[k].r_offset),
    decreases relocs.len() - from,
{
    let r = relocs[from as int];
    let m = relocate(mem, syms, r)->Ok_0;
    let at = relocs[k].r_offset as int;
    if from < k {
        law_weak_words(m, syms, relocs, from + 1, k);
    } else {
        let last = relocate_from(m, syms, relocs, from + 1).0;
        assert forall|i: int| at <= i < at + 8 implies last[i] == 0 by {
            assert forall|l: int| from + 1 <= l < relocs.len() implies !covers(
                #[trigger] relocs[l],
                i,
            ) by {
                assert(!overlap(relocs[k], relocs[l]));
            }
            law_relocation_changes_only_words(m, syms, relocs, from + 1, i);
        }
    }
}

/// Whether no two relocations' words have a byte in common.
pub open spec fn words_disjoint(relocs: Seq<Relocation>) -> bool {
    forall|i: int, j: int|
        0 <= i < j < relocs.len() ==> !overlap(#[trigger] relocs[i], #[trigger] relocs[j])
}

/// Relocating again changes nothing: if the words of the relocations are disjoint
/// and all could be applied, they all can be applied to the relocated image, and
/// leave it as it is.
pub proof fn law_relocation_idempotent(mem: Seq<u8>, b: Seq<u8>)
    requires
        words_disjoint(relocations(b)),
        relocated(mem, b).1 is None,
    ensures
        relocated(relocated(mem, b).0, b) == (relocated(mem, b).0, None::<Fault>),
{
    lemma_relocated_again(mem, relocated(mem, b).0, symbols(b), relocations(b), 0);
}

proof fn lemma_relocated_again(
    mem: Seq<u8>,
    last: Seq<u8>,
    syms: Seq<Symbol>,
    relocs: Seq<Relocation>,
    i: nat,
)
    requires
        words_disjoint(relocs),
        relocate_from(mem, syms, relocs, 0) == (last, None::<Fault>),
    ensures
        relocate_from(last, syms, relocs, i) == (last, None::<Fault>),
    decreases relocs.len() - i,
{
    if i < relocs.len() {
        let r = relocs[i as int];
        law_relocation_keeps_length(mem, syms, relocs, 0);
        lemma_applied(mem, syms, relocs, 0, i as int);
        match stored(syms, r) {
            Some(v) => {
                law_relocated_words(mem, syms, relocs, 0, i as int);
                law_rewrite_u64(last, r.r_offset as int);
            },
            None => {
                law_weak_words(mem, syms, relocs, 0, i as int);
            },
        }
        assert(relocate(last, syms, r) == Ok::<Seq<u8>, Fault>(last));
        lemma_relocated_again(mem, last, syms, relocs, i + 1);
    }
}

/// A relocation of a run that was not stopped can be applied to an image of zeros
/// as long as the one that was relocated.
pub(crate) proof fn lemma_applied(
    mem: Seq<u8>,
    syms: Seq<Symbol>,
    relocs: Seq<Relocation>,
    from: nat,
    k: int,
)
    requires
        from <= k < relocs.len(),
        relocate_from(mem, syms, relocs, from).1 is None,
    ensures
        relocate(Seq::new(mem.len(), |i: int| 0u8), syms, relocs[k]) is Ok,
    decreases relocs.len() - from,
{
    if from < k {
        let m = relocate(mem, syms, relocs[from as int])->Ok_0;
        lemma_applied(m, syms, relocs, from + 1, k);
    }
}

} // verus!
