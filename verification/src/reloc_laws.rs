//! What relocation does to an image, in the numbers that stand in the tables.
//!
//! The tables are: the number of symbols in eight bytes, the symbols of 24 bytes each
//! (the info byte at 4, the section index at 6, the value at 8), the number of
//! relocations in eight bytes, and the relocations of 24 bytes each (the offset at 0,
//! the type at 8, the symbol's number at 12, the addend at 16).

use vstd::prelude::*;

use crate::bytes::{
    law_le_round_trip, law_u32_value, law_u64_value, law_zero_word, le_bytes, lemma_read_in_part,
    signed, u16_at, u32_at, u64_at, word_of,
};
use crate::elf::{law_records, Relocation, Symbol};
use crate::fault::Fault;
use crate::reloc::{
    covers, law_relocated_words, law_relocation_changes_only_words, law_relocation_keeps_length,
    law_weak_words, lemma_applied, overlap, reloc_symbol, reloc_type, relocate, relocate_from,
    relocated, relocations, stored, symbols, tables_fit,
};

verus! {

/// Where the relocation number `k` stands in the tables `b`.
pub open spec fn entry_at(b: Seq<u8>, k: int) -> int {
    16 + 24 * u64_at(b, 0) + 24 * k
}

/// Where the symbol of the relocation number `k` stands in the tables `b`.
pub open spec fn symbol_at(b: Seq<u8>, k: int) -> int {
    8 + 24 * u32_at(b, entry_at(b, k) + 12)
}

/// The number of relocations in the tables `b`.
pub open spec fn entries(b: Seq<u8>) -> int {
    u64_at(b, 8 + 24 * u64_at(b, 0)) as int
}

/// What the tables hold, as the relocation code reads them.
proof fn lemma_entry(b: Seq<u8>, k: int)
    requires
        tables_fit(b),
        0 <= k < entries(b),
    ensures
        relocations(b).len() == entries(b),
        symbols(b).len() == u64_at(b, 0),
        entry_at(b, k) + 24 <= b.len(),
        relocations(b)[k].r_offset == u64_at(b, entry_at(b, k)),
        reloc_type(relocations(b)[k]) == u32_at(b, entry_at(b, k) + 8),
        reloc_symbol(relocations(b)[k]) == u32_at(b, entry_at(b, k) + 12),
        relocations(b)[k].r_addend == signed(u64_at(b, entry_at(b, k) + 16)),
        u32_at(b, entry_at(b, k) + 12) < u64_at(b, 0) ==> {
            let s = symbols(b)[u32_at(b, entry_at(b, k) + 12) as int];
            &&& symbol_at(b, k) + 24 <= b.len()
            &&& s.st_info == b[symbol_at(b, k) + 4]
            &&& s.st_shndx == u16_at(b, symbol_at(b, k) + 6)
            &&& s.st_value == u64_at(b, symbol_at(b, k) + 8)
        },
{
    let at = entry_at(b, k);
    law_records(b.subrange(at, at + 24));
    lemma_read_in_part(b, at, at + 24, 0);
    lemma_read_in_part(b, at, at + 24, 8);
    lemma_read_in_part(b, at, at + 24, 16);
    lemma_halves(b, at + 8);
    if u32_at(b, at + 12) < u64_at(b, 0) {
        let from = symbol_at(b, k);
        law_records(b.subrange(from, from + 24));
        lemma_read_in_part(b, from, from + 24, 6);
        lemma_read_in_part(b, from, from + 24, 8);
    }
}

/// The halves of a 64-bit number are the 32-bit numbers in its bytes.
proof fn lemma_halves(b: Seq<u8>, at: int)
    requires
        0 <= at,
        at + 8 <= b.len(),
    ensures
        u64_at(b, at) as int % 0x1_0000_0000 == u32_at(b, at),
        u64_at(b, at) as int / 0x1_0000_0000 == u32_at(b, at + 4),
{
    law_u64_value(b, at);
    law_u32_value(b, at);
    law_u32_value(b, at + 4);
}

/// Two's complement of a sum is the sum modulo 2^64 of the words.
proof fn lemma_sum(v: u64, a: u64)
    ensures
        -0x8000_0000_0000_0000 <= 0x1000000 + signed(v) + signed(a) <= 0x7fff_ffff_ffff_ffff
            ==> word_of(0x1000000 + signed(v) + signed(a)) == (0x1000000 + v + a)
            % 0x1_0000_0000_0000_0000,
{
}

/// After relocations that all could be applied, the eight bytes at the offset of a
/// relocation that no later one overlaps hold what its type asks for. Type 8: the
/// load address plus the addend. Types 1 and 6, with a symbol that is defined or not
/// weak: the load address plus the symbol's value plus the addend. With a symbol that
/// is weak and not defined: zero. There is no other type, the symbol is in the table,
/// and the addend of a type 6 relocation that stores a value is zero. Sums are modulo
/// 2^64.
pub proof fn law_word_of_each_relocation(mem: Seq<u8>, b: Seq<u8>, k: int)
    requires
        relocated(mem, b).1 is None,
        0 <= k < entries(b),
        forall|l: int|
            k < l < entries(b) ==> {
                ||| (#[trigger] u64_at(b, entry_at(b, l))) >= u64_at(b, entry_at(b, k)) + 8
                ||| u64_at(b, entry_at(b, k)) >= u64_at(b, entry_at(b, l)) + 8
            },
    ensures
        ({
            let e = 16 + 24 * u64_at(b, 0) + 24 * k;
            let offset = u64_at(b, e);
            let typ = u32_at(b, e + 8);
            let symbol = u32_at(b, e + 12);
            let addend = u64_at(b, e + 16);
            let s = 8 + 24 * symbol;
            let image = relocated(mem, b).0;
            &&& e + 24 <= b.len()
            &&& offset + 8 <= mem.len()
            &&& image.len() == mem.len()
            &&& typ == 1 || typ == 6 || typ == 8
            &&& typ == 8 ==> u64_at(image, offset as int) == (0x1000000 + addend)
                % 0x1_0000_0000_0000_0000
            &&& typ != 8 ==> symbol < u64_at(b, 0)
            &&& typ != 8 && (u16_at(b, s + 6) != 0 || b[s + 4] / 16 != 2) ==> {
                &&& u64_at(image, offset as int) == (0x1000000 + u64_at(b, s + 8) + addend)
                    % 0x1_0000_0000_0000_0000
                &&& typ == 6 ==> addend == 0
            }
            &&& typ != 8 && u16_at(b, s + 6) == 0 && b[s + 4] / 16 == 2 ==> u64_at(
                image,
                offset as int,
            ) == 0
        }),
{
    let syms = symbols(b);
    let relocs = relocations(b);
    let r = relocs[k];
    let image = relocated(mem, b).0;
    let e = entry_at(b, k);
    let addend = u64_at(b, e + 16);
    lemma_entry(b, k);
    law_relocation_keeps_length(mem, syms, relocs, 0);
    lemma_applied(mem, syms, relocs, 0, k);
    assert forall|l: int| k < l < relocs.len() implies !overlap(
        relocs[k],
        #[trigger] relocs[l],
    ) by {
        lemma_entry(b, l);
        assert(u64_at(b, entry_at(b, l)) == relocs[l].r_offset);
    }
    match stored(syms, r) {
        Some(v) => {
            law_relocated_words(mem, syms, relocs, 0, k);
            if reloc_type(r) == 8 {
                lemma_sum(0, addend);
            } else {
                lemma_sum(u64_at(b, symbol_at(b, k) + 8), addend);
            }
        },
        None => {
            law_weak_words(mem, syms, relocs, 0, k);
            law_zero_word(image, r.r_offset as int);
        },
    }
}

/// Relocation changes no byte but those at the offsets that stand in the table,
/// whether it is stopped or not, and never the length of the image.
pub proof fn law_other_bytes_stay(mem: Seq<u8>, b: Seq<u8>, i: int)
    requires
        0 <= i < mem.len(),
        forall|k: int|
            0 <= k < entries(b) ==> !((#[trigger] u64_at(b, entry_at(b, k))) <= i < u64_at(
                b,
                entry_at(b, k),
            ) + 8),
    ensures
        relocated(mem, b).0.len() == mem.len(),
        relocated(mem, b).0[i] == mem[i],
{
    if tables_fit(b) {
        law_relocation_keeps_length(mem, symbols(b), relocations(b), 0);
        assert forall|k: int| 0 <= k < relocations(b).len() implies !covers(
            #[trigger] relocations(b)[k],
            i,
        ) by {
            lemma_entry(b, k);
            assert(!(u64_at(b, entry_at(b, k)) <= i < u64_at(b, entry_at(b, k)) + 8));
        }
        law_relocation_changes_only_words(mem, symbols(b), relocations(b), 0, i);
    }
}

/// Whether the relocation number `k` can be applied to an image of `len` bytes: its
/// type is known, its word lies inside the image, its symbol is in the table and is
/// defined or not weak, no sum leaves the 64 bits with sign, and the addend of a
/// type 6 relocation is zero.
pub open spec fn applicable(b: Seq<u8>, len: nat, k: int) -> bool {
    let e = 16 + 24 * u64_at(b, 0) + 24 * k;
    let typ = u32_at(b, e + 8);
    let symbol = u32_at(b, e + 12);
    let addend = signed(u64_at(b, e + 16));
    let s = 8 + 24 * symbol;
    let value = signed(u64_at(b, s + 8));
    &&& u64_at(b, e) + 8 <= len
    &&& typ == 1 || typ == 6 || typ == 8
    &&& typ == 8 ==> 0x1000000 + addend <= 0x7fff_ffff_ffff_ffff
    &&& typ != 8 ==> {
        &&& symbol < u64_at(b, 0)
        &&& u16_at(b, s + 6) != 0 || b[s + 4] / 16 != 2
        &&& 0x1000000 + value <= 0x7fff_ffff_ffff_ffff
        &&& -0x8000_0000_0000_0000 <= 0x1000000 + value + addend <= 0x7fff_ffff_ffff_ffff
        &&& typ == 6 ==> addend == 0
    }
}

/// Whether the relocation number `k` passes over the symbol that it names: the type is
/// 1 or 6, the symbol is weak and not defined, and the word, which lies inside the
/// image and which no other relocation overlaps, is zero.
pub open spec fn passes_over(b: Seq<u8>, mem: Seq<u8>, k: int) -> bool {
    let e = 16 + 24 * u64_at(b, 0) + 24 * k;
    let offset = u64_at(b, e);
    let typ = u32_at(b, e + 8);
    let symbol = u32_at(b, e + 12);
    let s = 8 + 24 * symbol;
    &&& typ == 1 || typ == 6
    &&& symbol < u64_at(b, 0)
    &&& u16_at(b, s + 6) == 0 && b[s + 4] / 16 == 2
    &&& offset + 8 <= mem.len()
    &&& forall|i: int| offset <= i < offset + 8 ==> mem[i] == 0
    &&& forall|l: int|
        0 <= l < entries(b) && l != k ==> {
            ||| (#[trigger] u64_at(b, entry_at(b, l))) >= offset + 8
            ||| offset >= u64_at(b, entry_at(b, l)) + 8
        }
}

/// Tables that lie inside the bounce buffer, and whose relocations can all be
/// applied or passed over, are never refused.
pub proof fn law_good_tables_apply(mem: Seq<u8>, b: Seq<u8>)
    requires
        8 <= b.len(),
        16 + 24 * u64_at(b, 0) <= b.len(),
        16 + 24 * u64_at(b, 0) + 24 * u64_at(b, 8 + 24 * u64_at(b, 0)) <= b.len(),
        forall|k: int|
            0 <= k < entries(b) ==> #[trigger] applicable(b, mem.len(), k) || passes_over(
                b,
                mem,
                k,
            ),
    ensures
        relocated(mem, b).1 is None,
{
    lemma_applies_from(mem, b, 0);
}

proof fn lemma_applies_from(mem: Seq<u8>, b: Seq<u8>, i: nat)
    requires
        tables_fit(b),
        forall|k: int|
            i <= k < entries(b) ==> #[trigger] applicable(b, mem.len(), k) || passes_over(
                b,
                mem,
                k,
            ),
    ensures
        relocate_from(mem, symbols(b), relocations(b), i).1 is None,
    decreases relocations(b).len() - i,
{
    if i < relocations(b).len() {
        lemma_entry(b, i as int);
        assert(applicable(b, mem.len(), i as int) || passes_over(b, mem, i as int));
        let r = relocations(b)[i as int];
        let m = relocate(mem, symbols(b), r);
        assert(m is Ok);
        let after = m->Ok_0;
        lemma_one_changes(mem, symbols(b), r);
        assert forall|k: int| i + 1 <= k < entries(b) implies #[trigger] applicable(
            b,
            after.len(),
            k,
        ) || passes_over(b, after, k) by {
            assert(applicable(b, mem.len(), k) || passes_over(b, mem, k));
            if passes_over(b, mem, k) {
                let offset = u64_at(b, entry_at(b, k));
                let other = u64_at(b, entry_at(b, i as int));
                assert(other >= offset + 8 || offset >= other + 8);
                assert forall|a: int| offset <= a < offset + 8 implies after[a] == 0 by {
                    assert(mem[a] == 0);
                    assert(relocate(mem, symbols(b), r)->Ok_0[a] == mem[a]);
                }
                assert(passes_over(b, after, k));
            }
        }
        lemma_applies_from(after, b, i + 1);
    }
}

/// One relocation changes its word only.
proof fn lemma_one_changes(mem: Seq<u8>, syms: Seq<Symbol>, r: Relocation)
    requires
        relocate(mem, syms, r) is Ok,
    ensures
        relocate(mem, syms, r)->Ok_0.len() == mem.len(),
        forall|i: int|
            0 <= i < mem.len() && !(r.r_offset <= i < r.r_offset + 8) ==> relocate(
                mem,
                syms,
                r,
            )->Ok_0[i] == mem[i],
{
    assert forall|w: nat| (#[trigger] le_bytes(w, 8)).len() == 8 by {
        law_le_round_trip(w, 8);
    }
}

/// Whether the relocation number `k` of the tables `b` gives reason for the fault.
pub open spec fn fault_at(b: Seq<u8>, len: nat, k: int, fault: Fault) -> bool {
    let e = 16 + 24 * u64_at(b, 0) + 24 * k;
    let typ = u32_at(b, e + 8);
    let symbol = u32_at(b, e + 12);
    let addend = signed(u64_at(b, e + 16));
    let s = 8 + 24 * symbol;
    let value = signed(u64_at(b, s + 8));
    match fault {
        Fault::UnknownRelocation(t) => t == typ && t != 1 && t != 6 && t != 8,
        Fault::SymbolOutOfRange => (typ == 1 || typ == 6) && symbol >= u64_at(b, 0),
        Fault::OffsetOutOfRange => u64_at(b, e) + 8 > len,
        Fault::WeakNotZero => (typ == 1 || typ == 6) && u16_at(b, s + 6) == 0 && b[s + 4] / 16
            == 2,
        Fault::ValueOverflow => {
            ||| typ == 8 && 0x1000000 + addend > 0x7fff_ffff_ffff_ffff
            ||| typ != 8 && 0x1000000 + value > 0x7fff_ffff_ffff_ffff
            ||| typ != 8 && 0x1000000 + value + addend > 0x7fff_ffff_ffff_ffff
            ||| typ != 8 && 0x1000000 + value + addend < -0x8000_0000_0000_0000
        },
        Fault::NonZeroAddend => typ == 6 && addend != 0,
        _ => false,
    }
}

/// Relocation is stopped with a reason only: the tables do not lie inside the bounce
/// buffer, or one of the relocations cannot be applied, for the reason that the fault
/// names.
pub proof fn law_faults_have_reasons(mem: Seq<u8>, b: Seq<u8>)
    requires
        relocated(mem, b).1 is Some,
    ensures
        relocated(mem, b).1 == Some(Fault::TableOverrun) <==> (8 > b.len() || 16 + 24 * u64_at(
            b,
            0,
        ) > b.len() || 16 + 24 * u64_at(b, 0) + 24 * u64_at(b, 8 + 24 * u64_at(b, 0)) > b.len()),
        relocated(mem, b).1 != Some(Fault::TableOverrun) ==> exists|k: int|
            0 <= k < entries(b) && #[trigger] fault_at(
                b,
                mem.len(),
                k,
                relocated(mem, b).1->Some_0,
            ),
{
    if tables_fit(b) {
        lemma_fault_from(mem, b, 0);
    }
}

proof fn lemma_fault_from(mem: Seq<u8>, b: Seq<u8>, i: nat)
    requires
        tables_fit(b),
        relocate_from(mem, symbols(b), relocations(b), i).1 is Some,
    ensures
        exists|k: int|
            0 <= k < entries(b) && #[trigger] fault_at(
                b,
                mem.len(),
                k,
                relocate_from(mem, symbols(b), relocations(b), i).1->Some_0,
            ),
        relocate_from(mem, symbols(b), relocations(b), i).1 != Some(Fault::TableOverrun),
    decreases relocations(b).len() - i,
{
    let fault = relocate_from(mem, symbols(b), relocations(b), i).1->Some_0;
    if i < relocations(b).len() {
        lemma_entry(b, i as int);
        match relocate(mem, symbols(b), relocations(b)[i as int]) {
            Ok(m) => {
                assert(m.len() == mem.len());
                lemma_fault_from(m, b, i + 1);
                let k = choose|k: int|
                    0 <= k < entries(b) && #[trigger] fault_at(b, m.len(), k, fault);
                assert(0 <= k < entries(b) && fault_at(b, mem.len(), k, fault));
                assert(exists|k: int|
                    0 <= k < entries(b) && #[trigger] fault_at(b, mem.len(), k, fault));
            },
            Err(f) => {
                assert(fault == f);
                assert(fault_at(b, mem.len(), i as int, fault));
                assert(0 <= i < entries(b));
                assert(exists|k: int|
                    0 <= k < entries(b) && #[trigger] fault_at(b, mem.len(), k, fault));
            },
        }
    }
}

/// What was relocated before a fault stays: a run that is stopped leaves the image as
/// the relocations before the one that cannot be applied leave it, all of which can be.
pub proof fn law_stopped_at_fault(mem: Seq<u8>, b: Seq<u8>)
    requires
        relocated(mem, b).1 is Some,
    ensures
        relocated(mem, b).1 == Some(Fault::TableOverrun) ==> relocated(mem, b).0 == mem,
        relocated(mem, b).1 != Some(Fault::TableOverrun) ==> exists|k: int|
            0 <= k < entries(b) && #[trigger] fault_at(
                b,
                mem.len(),
                k,
                relocated(mem, b).1->Some_0,
            ) && relocate_from(mem, symbols(b), relocations(b).take(k), 0) == (
                relocated(mem, b).0,
                None::<Fault>,
            ),
{
    if tables_fit(b) {
        lemma_fault_from(mem, b, 0);
        lemma_stopped(mem, b, 0);
    }
}

proof fn lemma_stopped(mem: Seq<u8>, b: Seq<u8>, i: nat)
    requires
        tables_fit(b),
        relocate_from(mem, symbols(b), relocations(b), i).1 is Some,
    ensures
        exists|k: int|
            i <= k < entries(b) && #[trigger] fault_at(
                b,
                mem.len(),
                k,
                relocate_from(mem, symbols(b), relocations(b), i).1->Some_0,
            ) && relocate_from(mem, symbols(b), relocations(b).take(k), i) == (
                relocate_from(mem, symbols(b), relocations(b), i).0,
                None::<Fault>,
            ),
    decreases relocations(b).len() - i,
{
    let syms = symbols(b);
    let relocs = relocations(b);
    let fault = relocate_from(mem, syms, relocs, i).1->Some_0;
    if i < relocs.len() {
        lemma_entry(b, i as int);
        match relocate(mem, syms, relocs[i as int]) {
            Ok(m) => {
                lemma_one_changes(mem, syms, relocs[i as int]);
                lemma_stopped(m, b, i + 1);
                let k = choose|k: int|
                    i + 1 <= k < entries(b) && #[trigger] fault_at(b, m.len(), k, fault)
                        && relocate_from(m, syms, relocs.take(k), i + 1) == (
                        relocate_from(m, syms, relocs, i + 1).0,
                        None::<Fault>,
                    );
                assert(relocs.take(k)[i as int] == relocs[i as int]);
                assert(fault_at(b, mem.len(), k, fault));
                assert(relocate_from(mem, syms, relocs.take(k), i) == relocate_from(
                    m,
                    syms,
                    relocs.take(k),
                    i + 1,
                ));
                assert(exists|k: int|
                    i <= k < entries(b) && #[trigger] fault_at(b, mem.len(), k, fault)
                        && relocate_from(mem, syms, relocs.take(k), i) == (
                        relocate_from(mem, syms, relocs, i).0,
                        None::<Fault>,
                    ));
            },
            Err(f) => {
                assert(fault == f);
                assert(fault_at(b, mem.len(), i as int, fault));
                assert(0 <= i < entries(b));
                assert(relocate_from(mem, syms, relocs.take(i as int), i) == (mem, None::<Fault>));
                assert(exists|k: int|
                    i <= k < entries(b) && #[trigger] fault_at(b, mem.len(), k, fault)
                        && relocate_from(mem, syms, relocs.take(k), i) == (
                        relocate_from(mem, syms, relocs, i).0,
                        None::<Fault>,
                    ));
            },
        }
    }
}

} // verus!
