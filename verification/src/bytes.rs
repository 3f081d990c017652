//! Little-endian integers in byte sequences, and copies between slices.

use vstd::prelude::*;

verus! {

/// The bytes of `s` with `b` written over them from position `at` on.
pub open spec fn splice(s: Seq<u8>, at: int, b: Seq<u8>) -> Seq<u8> {
    Seq::new(
        s.len(),
        |i: int|
            if at <= i < at + b.len() {
                b[i - at]
            } else {
                s[i]
            },
    )
}

/// The number whose little-endian digits are `s`.
pub open spec fn le_value(s: Seq<u8>) -> nat
    decreases s.len(),
{
    if s.len() == 0 {
        0
    } else {
        s[0] as nat + 256 * le_value(s.subrange(1, s.len() as int))
    }
}

/// The `n` low little-endian digits of `v`.
pub open spec fn le_bytes(v: nat, n: nat) -> Seq<u8>
    decreases n,
{
    if n == 0 {
        Seq::empty()
    } else {
        seq![(v % 256) as u8] + le_bytes(v / 256, (n - 1) as nat)
    }
}

/// The number stored in the two bytes at position `at`.
pub open spec fn u16_at(s: Seq<u8>, at: int) -> u16 {
    le_value(s.subrange(at, at + 2)) as u16
}

/// The number stored in the four bytes at position `at`.
pub open spec fn u32_at(s: Seq<u8>, at: int) -> u32 {
    le_value(s.subrange(at, at + 4)) as u32
}

/// The number stored in the eight bytes at position `at`.
pub open spec fn u64_at(s: Seq<u8>, at: int) -> u64 {
    le_value(s.subrange(at, at + 8)) as u64
}

/// The integer between -2^63 and 2^63 - 1 that a 64-bit word stands for.
pub open spec fn signed(v: u64) -> int {
    if v < 0x8000_0000_0000_0000 {
        v as int
    } else {
        v - 0x1_0000_0000_0000_0000
    }
}

/// Two's complement: the 64-bit word that stands for the integer `v`.
pub open spec fn word_of(v: int) -> u64 {
    if v >= 0 {
        v as u64
    } else {
        (v + 0x1_0000_0000_0000_0000) as u64
    }
}

/// Digits written out and read back give the number again, cut to what the
/// digits can hold.
pub proof fn law_le_round_trip(v: nat, n: nat)
    ensures
        le_bytes(v, n).len() == n,
        le_value(le_bytes(v, n)) == v % vstd::arithmetic::power::pow(256, n) as nat,
    decreases n,
{
    reveal_with_fuel(vstd::arithmetic::power::pow, 2);
    if n > 0 {
        let m = (n - 1) as nat;
        law_le_round_trip(v / 256, m);
        let b = le_bytes(v, n);
        assert(b.subrange(1, n as int) =~= le_bytes(v / 256, m));
        let p = vstd::arithmetic::power::pow(256, m);
        vstd::arithmetic::power::lemma_pow_positive(256, m);
        assert(vstd::arithmetic::power::pow(256, n) == 256 * p);
        vstd::arithmetic::div_mod::lemma_mod_breakdown(v as int, 256, p);
    } else {
        assert(v % 1 == 0);
    }
}

/// A sequence of digits is the digits of the number that it stands for.
pub proof fn law_le_digits(s: Seq<u8>)
    ensures
        le_bytes(le_value(s), s.len()) == s,
    decreases s.len(),
{
    if s.len() > 0 {
        let t = s.subrange(1, s.len() as int);
        law_le_digits(t);
        let v = le_value(s);
        assert(v == s[0] as nat + 256 * le_value(t));
        assert(v % 256 == s[0] as nat);
        assert(v / 256 == le_value(t));
        assert(s =~= seq![s[0]] + t);
    }
}

/// What two, four or eight digits can hold.
proof fn lemma_powers()
    ensures
        vstd::arithmetic::power::pow(256, 2) == 0x1_0000,
        vstd::arithmetic::power::pow(256, 4) == 0x1_0000_0000,
        vstd::arithmetic::power::pow(256, 8) == 0x1_0000_0000_0000_0000,
{
    reveal_with_fuel(vstd::arithmetic::power::pow, 9);
}

/// A 16-bit number that is written at a place is read there again.
pub proof fn law_read_back_u16(s: Seq<u8>, at: int, v: u16)
    requires
        0 <= at,
        at + 2 <= s.len(),
    ensures
        u16_at(splice(s, at, le_bytes(v as nat, 2)), at) == v,
{
    lemma_powers();
    law_le_round_trip(v as nat, 2);
    vstd::arithmetic::div_mod::lemma_small_mod(v as nat, 0x1_0000);
    assert(splice(s, at, le_bytes(v as nat, 2)).subrange(at, at + 2) =~= le_bytes(v as nat, 2));
}

/// A 32-bit number that is written at a place is read there again.
pub proof fn law_read_back_u32(s: Seq<u8>, at: int, v: u32)
    requires
        0 <= at,
        at + 4 <= s.len(),
    ensures
        u32_at(splice(s, at, le_bytes(v as nat, 4)), at) == v,
{
    lemma_powers();
    law_le_round_trip(v as nat, 4);
    vstd::arithmetic::div_mod::lemma_small_mod(v as nat, 0x1_0000_0000);
    assert(splice(s, at, le_bytes(v as nat, 4)).subrange(at, at + 4) =~= le_bytes(v as nat, 4));
}

/// A 64-bit number that is written at a place is read there again.
pub proof fn law_read_back_u64(s: Seq<u8>, at: int, v: u64)
    requires
        0 <= at,
        at + 8 <= s.len(),
    ensures
        u64_at(splice(s, at, le_bytes(v as nat, 8)), at) == v,
{
    lemma_powers();
    law_le_round_trip(v as nat, 8);
    vstd::arithmetic::div_mod::lemma_small_mod(v as nat, 0x1_0000_0000_0000_0000);
    assert(splice(s, at, le_bytes(v as nat, 8)).subrange(at, at + 8) =~= le_bytes(v as nat, 8));
}

/// Writing at a place the 64-bit number that is read there changes nothing.
pub proof fn law_rewrite_u64(s: Seq<u8>, at: int)
    requires
        0 <= at,
        at + 8 <= s.len(),
    ensures
        splice(s, at, le_bytes(u64_at(s, at) as nat, 8)) == s,
{
    let w = s.subrange(at, at + 8);
    lemma_le_value_unfold(w);
    law_le_digits(w);
    assert(splice(s, at, w) =~= s);
}

/// Numbers of 64 bits with the same digits are the same.
pub proof fn law_digits_determine(a: u64, b: u64, n: nat)
    requires
        n == 2 && a < 0x1_0000 && b < 0x1_0000 || n == 4 && a < 0x1_0000_0000 && b < 0x1_0000_0000
            || n == 8,
        le_bytes(a as nat, n) == le_bytes(b as nat, n),
    ensures
        a == b,
{
    lemma_powers();
    law_le_round_trip(a as nat, n);
    law_le_round_trip(b as nat, n);
    let p = vstd::arithmetic::power::pow(256, n) as nat;
    vstd::arithmetic::div_mod::lemma_small_mod(a as nat, p);
    vstd::arithmetic::div_mod::lemma_small_mod(b as nat, p);
}

/// The eight bytes at a place are zero if and only if the number that they
/// stand for is.
pub proof fn law_zero_word(s: Seq<u8>, at: int)
    requires
        0 <= at,
        at + 8 <= s.len(),
    ensures
        u64_at(s, at) == 0 <==> (forall|i: int| at <= i < at + 8 ==> s[i] == 0),
{
    let w = s.subrange(at, at + 8);
    lemma_le_value_unfold(w);
    if forall|i: int| at <= i < at + 8 ==> s[i] == 0 {
        assert(forall|i: int| 0 <= i < 8 ==> w[i] == 0);
    } else {
        let i = choose|i: int| at <= i < at + 8 && s[i] != 0;
        assert(w[i - at] != 0);
    }
}

proof fn lemma_le_value_unfold(s: Seq<u8>)
    ensures
        s.len() == 2 ==> le_value(s) == s[0] + 0x100 * s[1],
        s.len() == 4 ==> le_value(s) == s[0] + 0x100 * s[1] + 0x1_0000 * s[2] + 0x100_0000 * s[3],
        s.len() == 8 ==> le_value(s) == s[0] + 0x100 * s[1] + 0x1_0000 * s[2] + 0x100_0000 * s[3]
            + 0x1_0000_0000 * s[4] + 0x100_0000_0000 * s[5] + 0x1_0000_0000_0000 * s[6]
            + 0x100_0000_0000_0000 * s[7],
{
    reveal_with_fuel(le_value, 9);
    if s.len() == 2 || s.len() == 4 || s.len() == 8 {
        let n = s.len() as int;
        assert(forall|i: int, j: int|
            0 <= i <= j <= n - 1 ==> #[trigger] s.subrange(1, n).subrange(i, j) =~= s.subrange(
                i + 1,
                j + 1,
            ));
    }
}

proof fn lemma_le_bytes_2(v: nat)
    ensures
        le_bytes(v, 2) =~= seq![(v % 256) as u8, (v / 0x100 % 256) as u8],
{
    reveal_with_fuel(le_bytes, 3);
}

proof fn lemma_le_bytes_4(v: nat)
    ensures
        le_bytes(v, 4) =~= seq![
            (v % 256) as u8,
            (v / 0x100 % 256) as u8,
            (v / 0x1_0000 % 256) as u8,
            (v / 0x100_0000 % 256) as u8,
        ],
{
    let w = v / 256 / 256;
    lemma_le_bytes_2(w);
    reveal_with_fuel(le_bytes, 3);
    assert(le_bytes(v, 4) =~= seq![(v % 256) as u8, (v / 256 % 256) as u8] + le_bytes(w, 2));
    assert(w == v / 0x1_0000);
    assert(w / 0x100 == v / 0x100_0000);
}

proof fn lemma_le_bytes_8(v: nat)
    ensures
        le_bytes(v, 8) =~= seq![
            (v % 256) as u8,
            (v / 0x100 % 256) as u8,
            (v / 0x1_0000 % 256) as u8,
            (v / 0x100_0000 % 256) as u8,
            (v / 0x1_0000_0000 % 256) as u8,
            (v / 0x100_0000_0000 % 256) as u8,
            (v / 0x1_0000_0000_0000 % 256) as u8,
            (v / 0x100_0000_0000_0000 % 256) as u8,
        ],
{
    let w1 = v / 256;
    let w2 = w1 / 256;
    let w3 = w2 / 256;
    let w4 = w3 / 256;
    lemma_le_bytes_4(v);
    lemma_le_bytes_4(w4);
    assert(le_bytes(v, 8) =~= le_bytes(v, 4) + le_bytes(w4, 4)) by {
        reveal_with_fuel(le_bytes, 2);
        assert(le_bytes(v, 8) =~= seq![(v % 256) as u8] + le_bytes(w1, 7));
        assert(le_bytes(w1, 7) =~= seq![(w1 % 256) as u8] + le_bytes(w2, 6));
        assert(le_bytes(w2, 6) =~= seq![(w2 % 256) as u8] + le_bytes(w3, 5));
        assert(le_bytes(w3, 5) =~= seq![(w3 % 256) as u8] + le_bytes(w4, 4));
        assert(w2 == v / 0x1_0000);
        assert(w3 == v / 0x100_0000);
    }
    assert(w4 == v / 0x1_0000_0000);
    assert(w4 / 0x100 == v / 0x100_0000_0000);
    assert(w4 / 0x1_0000 == v / 0x1_0000_0000_0000);
    assert(w4 / 0x100_0000 == v / 0x100_0000_0000_0000);
}

/// Reads the two bytes at `at` as a little-endian number.
pub fn read_u16(s: &[u8], at: usize) -> (v: u16)
    requires
        at + 2 <= s@.len(),
    ensures
        v == u16_at(s@, at as int),
        v == le_value(s@.subrange(at as int, at + 2)),
{
    proof {
        lemma_le_value_unfold(s@.subrange(at as int, at + 2));
    }
    s[at] as u16 + (s[at + 1] as u16) * 0x100
}

/// Reads the four bytes at `at` as a little-endian number.
pub fn read_u32(s: &[u8], at: usize) -> (v: u32)
    requires
        at + 4 <= s@.len(),
    ensures
        v == u32_at(s@, at as int),
        v == le_value(s@.subrange(at as int, at + 4)),
{
    proof {
        lemma_le_value_unfold(s@.subrange(at as int, at + 4));
    }
    s[at] as u32 + (s[at + 1] as u32) * 0x100 + (s[at + 2] as u32) * 0x1_0000 + (s[at + 3] as u32)
        * 0x100_0000
}

/// Reads the eight bytes at `at` as a little-endian number.
pub fn read_u64(s: &[u8], at: usize) -> (v: u64)
    requires
        at + 8 <= s@.len(),
    ensures
        v == u64_at(s@, at as int),
        v == le_value(s@.subrange(at as int, at + 8)),
{
    proof {
        lemma_le_value_unfold(s@.subrange(at as int, at + 8));
    }
    s[at] as u64 + (s[at + 1] as u64) * 0x100 + (s[at + 2] as u64) * 0x1_0000 + (s[at + 3] as u64)
        * 0x100_0000 + (s[at + 4] as u64) * 0x1_0000_0000 + (s[at + 5] as u64) * 0x100_0000_0000 + (
    s[at + 6] as u64) * 0x1_0000_0000_0000 + (s[at + 7] as u64) * 0x100_0000_0000_0000
}

/// The little-endian digits of a 16-bit number.
pub fn u16_digits(v: u16) -> (d: [u8; 2])
    ensures
        d@ == le_bytes(v as nat, 2),
{
    proof {
        lemma_le_bytes_2(v as nat);
    }
    [(v % 256) as u8, (v / 0x100 % 256) as u8]
}

/// The little-endian digits of a 32-bit number.
pub fn u32_digits(v: u32) -> (d: [u8; 4])
    ensures
        d@ == le_bytes(v as nat, 4),
{
    proof {
        lemma_le_bytes_4(v as nat);
    }
    [
        (v % 256) as u8,
        (v / 0x100 % 256) as u8,
        (v / 0x1_0000 % 256) as u8,
        (v / 0x100_0000 % 256) as u8,
    ]
}

/// The little-endian digits of a 64-bit number.
pub fn u64_digits(v: u64) -> (d: [u8; 8])
    ensures
        d@ == le_bytes(v as nat, 8),
{
    proof {
        lemma_le_bytes_8(v as nat);
    }
    [
        (v % 256) as u8,
        (v / 0x100 % 256) as u8,
        (v / 0x1_0000 % 256) as u8,
        (v / 0x100_0000 % 256) as u8,
        (v / 0x1_0000_0000 % 256) as u8,
        (v / 0x100_0000_0000 % 256) as u8,
        (v / 0x1_0000_0000_0000 % 256) as u8,
        (v / 0x100_0000_0000_0000 % 256) as u8,
    ]
}

/// Copies `src` over the bytes of `dst` from position `at` on.
pub fn copy_into(dst: &mut [u8], at: usize, src: &[u8])
    requires
        at + src@.len() <= old(dst)@.len(),
    ensures
        final(dst)@ == splice(old(dst)@, at as int, src@),
{
    let ghost before = dst@;
    let n: usize = src.len();
    let m: usize = dst.len();
    let mut i: usize = 0;
    while i < n
        invariant
            i <= n,
            n == src@.len(),
            m == before.len(),
            at + n <= m,
            dst@ =~= splice(before, at as int, src@.subrange(0, i as int)),
        decreases n - i,
    {
        dst[at + i] = src[i];
        i = i + 1;
    }
    assert(src@.subrange(0, n as int) =~= src@);
}

/// Writes zeros over the bytes of `dst` from position `at` to the end.
pub fn zero_from(dst: &mut [u8], at: usize)
    requires
        at <= old(dst)@.len(),
    ensures
        final(dst)@ == old(dst)@.subrange(0, at as int) + Seq::new(
            (old(dst)@.len() - at) as nat,
            |i: int| 0u8,
        ),
{
    let ghost before = dst@;
    let n: usize = dst.len();
    let mut i: usize = at;
    while i < n
        invariant
            at <= i <= n,
            n == before.len(),
            dst@.len() == n,
            forall|j: int| 0 <= j < at ==> dst@[j] == before[j],
            forall|j: int| at <= j < i ==> dst@[j] == 0,
        decreases n - i,
    {
        dst[i] = 0;
        i = i + 1;
    }
}

/// The bytes of `s` as a vector of their own.
pub fn to_vec(s: &[u8]) -> (v: Vec<u8>)
    ensures
        v@ == s@,
{
    let mut v: Vec<u8> = Vec::new();
    append(&mut v, s);
    assert(v@ =~= s@);
    v
}

/// Appends the bytes of `s` to `v`.
pub fn append(v: &mut Vec<u8>, s: &[u8])
    ensures
        final(v)@ == old(v)@ + s@,
{
    let ghost before = v@;
    let n: usize = s.len();
    let mut i: usize = 0;
    while i < n
        invariant
            i <= n,
            n == s@.len(),
            v@ =~= before + s@.subrange(0, i as int),
        decreases n - i,
    {
        v.push(s[i]);
        i = i + 1;
    }
    assert(s@.subrange(0, n as int) =~= s@);
}

/// The bytes of a 16-bit number are its digits to the base 256, the low one first.
pub proof fn law_u16_value(s: Seq<u8>, at: int)
    requires
        0 <= at,
        at + 2 <= s.len(),
    ensures
        u16_at(s, at) == s[at] + 256 * s[at + 1],
{
    lemma_le_value_unfold(s.subrange(at, at + 2));
}

/// The bytes of a 32-bit number are its digits to the base 256, the low one first.
pub proof fn law_u32_value(s: Seq<u8>, at: int)
    requires
        0 <= at,
        at + 4 <= s.len(),
    ensures
        u32_at(s, at) == s[at] + 0x100 * s[at + 1] + 0x1_0000 * s[at + 2] + 0x100_0000 * s[at + 3],
{
    lemma_le_value_unfold(s.subrange(at, at + 4));
}

/// The bytes of a 64-bit number are its digits to the base 256, the low one first.
pub proof fn law_u64_value(s: Seq<u8>, at: int)
    requires
        0 <= at,
        at + 8 <= s.len(),
    ensures
        u64_at(s, at) == s[at] + 0x100 * s[at + 1] + 0x1_0000 * s[at + 2] + 0x100_0000 * s[at + 3]
            + 0x1_0000_0000 * s[at + 4] + 0x100_0000_0000 * s[at + 5] + 0x1_0000_0000_0000 * s[at
            + 6] + 0x100_0000_0000_0000 * s[at + 7],
{
    lemma_le_value_unfold(s.subrange(at, at + 8));
}

/// Writing over bytes changes those that are written over, and no others.
pub proof fn law_splice(s: Seq<u8>, at: int, b: Seq<u8>)
    requires
        0 <= at,
        at + b.len() <= s.len(),
    ensures
        splice(s, at, b).len() == s.len(),
        splice(s, at, b).subrange(at, at + b.len()) == b,
        splice(s, at, b).subrange(0, at) == s.subrange(0, at),
        splice(s, at, b).subrange(at + b.len(), s.len() as int) == s.subrange(
            at + b.len(),
            s.len() as int,
        ),
{
    assert(splice(s, at, b).subrange(at, at + b.len()) =~= b);
    assert(splice(s, at, b).subrange(0, at) =~= s.subrange(0, at));
}

/// Two's complement: a word and the integer that it stands for differ by a multiple
/// of 2^64, the integer has 64 bits with sign, and each gives the other.
pub proof fn law_twos_complement(w: u64)
    ensures
        i64::MIN <= signed(w) <= i64::MAX,
        w - signed(w) == 0 || w - signed(w) == 0x1_0000_0000_0000_0000,
        word_of(signed(w)) == w,
{
}

/// What is read where the digits of a number stand.
pub(crate) proof fn lemma_digits_read(s: Seq<u8>, at: int, v: u64)
    requires
        0 <= at,
    ensures
        at + 2 <= s.len() && v < 0x1_0000 && s.subrange(at, at + 2) == le_bytes(v as nat, 2)
            ==> u16_at(s, at) == v,
        at + 4 <= s.len() && v < 0x1_0000_0000 && s.subrange(at, at + 4) == le_bytes(v as nat, 4)
            ==> u32_at(s, at) == v,
        at + 8 <= s.len() && s.subrange(at, at + 8) == le_bytes(v as nat, 8) ==> u64_at(s, at)
            == v,
{
    lemma_powers();
    law_le_round_trip(v as nat, 2);
    law_le_round_trip(v as nat, 4);
    law_le_round_trip(v as nat, 8);
    if v < 0x1_0000 {
        vstd::arithmetic::div_mod::lemma_small_mod(v as nat, 0x1_0000);
    }
    if v < 0x1_0000_0000 {
        vstd::arithmetic::div_mod::lemma_small_mod(v as nat, 0x1_0000_0000);
    }
    vstd::arithmetic::div_mod::lemma_small_mod(v as nat, 0x1_0000_0000_0000_0000);
}

/// What is read in part of a sequence is read in the whole.
pub(crate) proof fn lemma_read_in_part(s: Seq<u8>, from: int, to: int, at: int)
    requires
        0 <= from <= to <= s.len(),
        0 <= at,
    ensures
        from + at + 2 <= to ==> u16_at(s, from + at) == u16_at(s.subrange(from, to), at),
        from + at + 4 <= to ==> u32_at(s, from + at) == u32_at(s.subrange(from, to), at),
        from + at + 8 <= to ==> u64_at(s, from + at) == u64_at(s.subrange(from, to), at),
{
    let p = s.subrange(from, to);
    if from + at + 2 <= to {
        assert(s.subrange(from + at, from + at + 2) =~= p.subrange(at, at + 2));
    }
    if from + at + 4 <= to {
        assert(s.subrange(from + at, from + at + 4) =~= p.subrange(at, at + 4));
    }
    if from + at + 8 <= to {
        assert(s.subrange(from + at, from + at + 8) =~= p.subrange(at, at + 8));
    }
}

} // verus!
