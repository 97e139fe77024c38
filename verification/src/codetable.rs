//! Decoder tables for canonical Huffman codes, read least-significant bit
//! first.
//!
//! A table has two levels. The primary table is indexed by the next nine bits
//! of the stream; an entry gives the symbol whose word those bits start with,
//! or leads to a secondary table for words longer than nine bits, indexed by
//! the bits that follow.

use crate::bitmath::{
    lemma_mod_pow2_div, lemma_mod_pow2_split, lemma_pow2_join, lemma_pow2_join_bound, lemma_pow2_le,
    lemma_pow2_sum, lemma_pow2_values, lemma_small_div_pow2, shr32,
};
use crate::error::ImageError;
use crate::huffman::{
    canonical_decode, code_space, count_len, first_code, fits, lemma_canonical_decode,
    lemma_code_bound, lemma_fits_each_length, lemma_prefix_free, lemma_rev_bits_bound,
    lemma_rev_bits_widen, length_histogram, rev_bits, valid_lengths, word_matches,
};
use vstd::arithmetic::div_mod::*;
use vstd::arithmetic::power2::*;
use vstd::prelude::*;

verus! {

/// The number of stream bits that index the primary table.
pub const TABLESIZE: u8 = 9;

/// One entry of a decoder table.
#[derive(Debug)]
pub enum TableElement {
    /// A symbol and the number of bits of its word that this level of the
    /// table accounts for.
    Symbol(u16, u8),
    /// A secondary table and the mask that cuts its index out of the bits
    /// after the first nine.
    Table(u16, Vec<TableElement>),
    /// No word leads here.
    Nothing,
}

impl TableElement {
    /// Stores `elem` at `index` of a secondary table.
    pub fn put(&mut self, index: u16, elem: TableElement)
        requires
            *old(self) is Table,
            (index as int) < (*old(self))->Table_1.len(),
        ensures
            *final(self) is Table,
            (*final(self))->Table_0 == (*old(self))->Table_0,
            (*final(self))->Table_1@ == (*old(self))->Table_1@.update(index as int, elem),
    {
        match self {
            TableElement::Table(_, a) => {
                a[index as usize] = elem;
            },
            _ => {},
        }
    }
}

/// The masks a secondary table can have: `2^k - 1` for `k` up to 6.
pub open spec fn is_mask(mask: u16) -> bool {
    mask == 0 || mask == 1 || mask == 3 || mask == 7 || mask == 15 || mask == 31 || mask == 63
}

/// An entry of a secondary table: a symbol with up to six more bits, or
/// nothing.
pub open spec fn leaf_wf(e: TableElement) -> bool {
    match e {
        TableElement::Symbol(_, l) => 1 <= l <= 6,
        TableElement::Table(_, _) => false,
        TableElement::Nothing => true,
    }
}

/// An entry of a primary table.
pub open spec fn entry_wf(e: TableElement) -> bool {
    match e {
        TableElement::Symbol(_, l) => 1 <= l <= 9,
        TableElement::Table(mask, sub) => {
            &&& is_mask(mask)
            &&& sub.len() == mask + 1
            &&& forall|j: int| 0 <= j < sub.len() ==> leaf_wf(#[trigger] sub[j])
        },
        TableElement::Nothing => true,
    }
}

/// The shape of a decoder table: 512 primary entries, each of them sound.
pub open spec fn table_wf(t: Seq<TableElement>) -> bool {
    &&& t.len() == 512
    &&& forall|i: int| 0 <= i < 512 ==> entry_wf(#[trigger] t[i])
}

/// What the table says of a bit window `w` (first bit least significant):
/// the symbol whose word the window starts with and the length of that word,
/// or `None` where no word leads.
pub open spec fn lookup(t: Seq<TableElement>, w: nat) -> Option<(int, nat)> {
    match t[(w % 512) as int] {
        TableElement::Symbol(v, l) => Some((v as int, l as nat)),
        TableElement::Table(mask, sub) => match sub[((w / 512) % (mask + 1) as nat) as int] {
            TableElement::Symbol(v, l) => Some((v as int, (l + 9) as nat)),
            _ => None,
        },
        TableElement::Nothing => None,
    }
}

/// The table decodes the canonical code of `lengths`: on every window of 15
/// bits it finds the symbol that the code gives, and finds none where the
/// code has none.
pub open spec fn decodes(t: Seq<TableElement>, lengths: Seq<u8>) -> bool {
    forall|w: nat| w < 0x8000 ==> #[trigger] lookup(t, w) == canonical_decode(lengths, w)
}

/// The table agrees with the code of `lengths` as far as the symbols below
/// `n` go.
spec fn partial(t: Seq<TableElement>, lengths: Seq<u8>, n: int) -> bool {
    forall|w: nat|
        w < 0x8000 ==> match #[trigger] lookup(t, w) {
            Some((v, l)) => v < n && word_matches(lengths, v, w) && l == lengths[v],
            None => forall|s: int| 0 <= s < n ==> !word_matches(lengths, s, w),
        }
}

/// The longest of the first `n` lengths.
pub open spec fn max_length(lengths: Seq<u8>, n: nat) -> nat
    decreases n,
{
    if n == 0 {
        0
    } else {
        let before = max_length(lengths, (n - 1) as nat);
        if n <= lengths.len() && lengths[n - 1] > before {
            lengths[n - 1] as nat
        } else {
            before
        }
    }
}

/// The number of bits that index a secondary table of a code whose longest
/// word has `max_len` bits: those past the first nine.
pub open spec fn overflow_bits(max_len: nat) -> nat {
    if max_len > 9 {
        (max_len - 9) as nat
    } else {
        0
    }
}

/// Every secondary table of `t` has the mask `2^k - 1`, and so, in a
/// well-formed table, `2^k` entries.
pub open spec fn sized(t: Seq<TableElement>, k: nat) -> bool {
    forall|i: int|
        0 <= i < t.len() ==> match #[trigger] t[i] {
            TableElement::Table(mask, _) => mask + 1 == pow2(k),
            _ => true,
        }
}

/// `a` with its 16 bits in the opposite order, written out.
spec fn rev16(a: u16) -> int {
    (a % 2) * 32768 + (a / 2 % 2) * 16384 + (a / 4 % 2) * 8192 + (a / 8 % 2) * 4096 + (a / 16 % 2)
        * 2048 + (a / 32 % 2) * 1024 + (a / 64 % 2) * 512 + (a / 128 % 2) * 256 + (a / 256 % 2)
        * 128 + (a / 512 % 2) * 64 + (a / 1024 % 2) * 32 + (a / 2048 % 2) * 16 + (a / 4096 % 2) * 8
        + (a / 8192 % 2) * 4 + (a / 16384 % 2) * 2 + (a / 32768 % 2)
}

/// One step of `rev_bits`, with the power of two as a literal.
proof fn lemma_rev_bits_step(c: nat, n: nat, p: nat)
    requires
        n > 0,
        p == pow2((n - 1) as nat),
    ensures
        rev_bits(c, n) == (c % 2) * p + rev_bits(c / 2, (n - 1) as nat),
{
}

proof fn lemma_rev16(a: u16)
    ensures
        rev16(a) == rev_bits(a as nat, 16),
{
    lemma_pow2_values();
    let c = a as nat;
    lemma_rev_bits_step(c, 16, 32768);
    lemma_rev_bits_step(c / 2, 15, 16384);
    lemma_rev_bits_step(c / 4, 14, 8192);
    lemma_rev_bits_step(c / 8, 13, 4096);
    lemma_rev_bits_step(c / 16, 12, 2048);
    lemma_rev_bits_step(c / 32, 11, 1024);
    lemma_rev_bits_step(c / 64, 10, 512);
    lemma_rev_bits_step(c / 128, 9, 256);
    lemma_rev_bits_step(c / 256, 8, 128);
    lemma_rev_bits_step(c / 512, 7, 64);
    lemma_rev_bits_step(c / 1024, 6, 32);
    lemma_rev_bits_step(c / 2048, 5, 16);
    lemma_rev_bits_step(c / 4096, 4, 8);
    lemma_rev_bits_step(c / 8192, 3, 4);
    lemma_rev_bits_step(c / 16384, 2, 2);
    lemma_rev_bits_step(c / 32768, 1, 1);
    assert(c / 2 / 2 == c / 4);
    assert(c / 4 / 2 == c / 8);
    assert(c / 8 / 2 == c / 16);
    assert(c / 16 / 2 == c / 32);
    assert(c / 32 / 2 == c / 64);
    assert(c / 64 / 2 == c / 128);
    assert(c / 128 / 2 == c / 256);
    assert(c / 256 / 2 == c / 512);
    assert(c / 512 / 2 == c / 1024);
    assert(c / 1024 / 2 == c / 2048);
    assert(c / 2048 / 2 == c / 4096);
    assert(c / 4096 / 2 == c / 8192);
    assert(c / 8192 / 2 == c / 16384);
    assert(c / 16384 / 2 == c / 32768);
    assert(rev_bits(c / 32768 / 2, 0) == 0);
}

/// Reverses the order of the 16 bits of `a`.
pub fn reverse(a: u16) -> (r: u16)
    ensures
        r == rev_bits(a as nat, 16),
{
    let b: u16 = (((!0x5555u16) & a) >> 1) | ((0x5555u16 & a) << 1);
    let c: u16 = (((!0x3333u16) & b) >> 2) | ((0x3333u16 & b) << 2);
    let d: u16 = (((!0x0F0Fu16) & c) >> 4) | ((0x0F0Fu16 & c) << 4);
    let r: u16 = (((!0x00FFu16) & d) >> 8) | ((0x00FFu16 & d) << 8);
    proof {
        assert(r as int == rev16(a)) by (bit_vector)
            requires
                b == (((!0x5555u16) & a) >> 1) | ((0x5555u16 & a) << 1),
                c == (((!0x3333u16) & b) >> 2) | ((0x3333u16 & b) << 2),
                d == (((!0x0F0Fu16) & c) >> 4) | ((0x0F0Fu16 & c) << 4),
                r == (((!0x00FFu16) & d) >> 8) | ((0x00FFu16 & d) << 8),
        ;
        lemma_rev16(a);
    }
    r
}

/// The word `code` of `len` bits, reversed within its length.
fn reverse_code(code: u32, len: u8) -> (r: u32)
    requires
        1 <= len <= 15,
        code < pow2(len as nat),
    ensures
        r == rev_bits(code as nat, len as nat),
        r < pow2(len as nat),
{
    proof {
        lemma_pow2_values();
        lemma_pow2_le(len as nat, 15);
        lemma_pow2_le(len as nat, 16);
        lemma_rev_bits_widen(code as nat, len as nat, 16);
        lemma_rev_bits_bound(code as nat, len as nat);
        lemma_pow2_join(0, rev_bits(code as nat, len as nat) as int, (16 - len) as nat);
    }
    let full: u16 = reverse(code as u16);
    shr32(full as u32, (16 - len) as u32)
}

/// A vector of `n` empty entries.
fn empty_entries(n: usize) -> (v: Vec<TableElement>)
    ensures
        v.len() == n,
        forall|i: int| 0 <= i < n ==> v[i] == TableElement::Nothing,
{
    let mut v: Vec<TableElement> = Vec::new();
    let mut i: usize = 0;
    while i < n
        invariant
            i <= n,
            v.len() == i,
            forall|j: int| 0 <= j < i ==> v[j] == TableElement::Nothing,
        decreases n - i,
    {
        v.push(TableElement::Nothing);
        i += 1;
    }
    v
}

/// Counts the symbols of each length and finds the longest length.
/// `None` if a length is above 15.
fn count_lengths(lengths: &[u8]) -> (res: Option<(Vec<u32>, u8)>)
    requires
        lengths.len() <= 0x10000,
    ensures
        res is None <==> exists|i: int| 0 <= i < lengths.len() && lengths[i] > 15,
        res matches Some((bl_count, max_len)) ==> {
            &&& bl_count.len() == 16
            &&& forall|l: int|
                0 <= l < 16 ==> bl_count[l] == count_len(
                    lengths@,
                    l as nat,
                    lengths.len() as nat,
                )
            &&& max_len <= 15
            &&& max_len == max_length(lengths@, lengths.len() as nat)
            &&& forall|i: int| 0 <= i < lengths.len() ==> lengths[i] <= max_len
        },
{
    let mut bl_count: Vec<u32> = Vec::new();
    let mut l: usize = 0;
    while l < 16
        invariant
            l <= 16,
            bl_count.len() == l,
            forall|j: int| 0 <= j < l ==> bl_count[j] == 0,
        decreases 16 - l,
    {
        bl_count.push(0);
        l += 1;
    }
    let mut max_len: u8 = 0;
    let mut i: usize = 0;
    while i < lengths.len()
        invariant
            i <= lengths.len(),
            lengths.len() <= 0x10000,
            bl_count.len() == 16,
            forall|l: int| 0 <= l < 16 ==> bl_count[l] == count_len(lengths@, l as nat, i as nat),
            forall|l: int| 0 <= l < 16 ==> bl_count[l] <= i,
            max_len <= 15,
            max_len == max_length(lengths@, i as nat),
            forall|j: int| 0 <= j < i ==> lengths[j] <= max_len,
        decreases lengths.len() - i,
    {
        let len: u8 = lengths[i];
        if len > 15 {
            return None;
        }
        let old_count: u32 = bl_count[len as usize];
        bl_count[len as usize] = old_count + 1;
        if len > max_len {
            max_len = len;
        }
        i += 1;
    }
    Some((bl_count, max_len))
}

/// The histogram that a vector of 16 counts stands for.
spec fn counts_hist(bl_count: Seq<u32>) -> Seq<nat> {
    Seq::new(16, |l: int| bl_count[l] as nat)
}

/// The first code word of each length, by the canonical recurrence. `None`
/// if the code is over-subscribed.
fn first_codes(bl_count: &Vec<u32>) -> (res: Option<Vec<u32>>)
    requires
        bl_count.len() == 16,
    ensures
        res is Some <==> fits(counts_hist(bl_count@), 15),
        res matches Some(next_code) ==> {
            &&& next_code.len() == 16
            &&& forall|l: int|
                0 <= l < 16 ==> next_code[l] == first_code(counts_hist(bl_count@), l as nat)
        },
{
    let ghost hist = counts_hist(bl_count@);
    let mut next_code: Vec<u32> = Vec::new();
    next_code.push(0);
    let mut code: u32 = 0;
    let mut limit: u32 = 1;
    let mut bits: usize = 1;
    proof {
        lemma_pow2_values();
    }
    while bits < 16
        invariant
            1 <= bits <= 16,
            bl_count.len() == 16,
            hist == counts_hist(bl_count@),
            next_code.len() == bits,
            forall|l: int| 0 <= l < bits ==> next_code[l] == first_code(hist, l as nat),
            code == code_space(hist, (bits - 1) as nat),
            limit == pow2((bits - 1) as nat),
            code <= limit,
            limit <= 0x8000,
        decreases 16 - bits,
    {
        proof {
            lemma_pow2_sum((bits - 1) as nat, 1);
            lemma_pow2_values();
            lemma_pow2_le(bits as nat, 15);
        }
        code = code * 2;
        limit = limit * 2;
        next_code.push(code);
        let count: u32 = bl_count[bits];
        if count > limit - code {
            proof {
                assert(code_space(hist, bits as nat) > pow2(bits as nat));
                if fits(hist, 15) {
                    lemma_fits_each_length(hist, 15, bits as nat);
                }
            }
            return None;
        }
        code = code + count;
        bits += 1;
    }
    Some(next_code)
}

/// Enters a word of up to nine bits: every primary entry whose index starts
/// with the (reversed) word gets the symbol.
fn put_short(lut: &mut Vec<TableElement>, code: u32, len: u8, sym: u16)
    requires
        table_wf(old(lut)@),
        1 <= len <= 9,
        code < pow2(len as nat),
    ensures
        table_wf(final(lut)@),
        forall|k: nat| sized(old(lut)@, k) ==> sized(final(lut)@, k),
        forall|w: nat| #[trigger]
            lookup(final(lut)@, w) == if w % pow2(len as nat) == code {
                Some((sym as int, len as nat))
            } else {
                lookup(old(lut)@, w)
            },
{
    let ghost pl = pow2(len as nat);
    proof {
        lemma_pow2_values();
        lemma_pow2_sum(len as nat, (9 - len) as nat);
        lemma_pow2_le(len as nat, 9);
        lemma_pow2_le((9 - len) as nat, 9);
    }
    let step: u32 = crate::bitmath::shl32(1, len as u32);
    let count: u32 = crate::bitmath::shl32(1, (9 - len) as u32);
    let mut j: u32 = 0;
    while j < count
        invariant
            j <= count,
            count == pow2((9 - len) as nat),
            step == pl,
            pl == pow2(len as nat),
            pl * count == 512,
            1 <= len <= 9,
            code < pl,
            lut.len() == 512,
            old(lut).len() == 512,
            forall|idx: int|
                0 <= idx < 512 ==> #[trigger] lut[idx] == if idx % (pl as int) == code && idx / (
                pl as int) < j {
                    TableElement::Symbol(sym, len)
                } else {
                    old(lut)[idx]
                },
        decreases count - j,
    {
        proof {
            lemma_pow2_values();
            lemma_pow2_join(code as int, j as int, len as nat);
            lemma_pow2_join_bound(j as int, code as int, (9 - len) as nat, len as nat);
            assert((9 - len) as nat + len as nat == 9);
            assert(j * step == j * pl && j * step == pl * j && j * step >= 0) by (nonlinear_arith)
                requires
                    step == pl,
                    j >= 0,
                    pl >= 0,
            ;
            assert(j * step + code < 512);
        }
        let index: u32 = j * step + code;
        let ghost prev = lut@;
        lut[index as usize] = TableElement::Symbol(sym, len);
        proof {
            assert forall|idx: int| 0 <= idx < 512 implies #[trigger] lut[idx] == if idx % (
            pl as int) == code && idx / (pl as int) < j + 1 {
                TableElement::Symbol(sym, len)
            } else {
                old(lut)[idx]
            } by {
                lemma_fundamental_div_mod(idx, pl as int);
                if idx != index {
                    assert(lut[idx] == prev[idx]);
                    if idx % (pl as int) == code && idx / (pl as int) == j {
                        assert(false);
                    }
                }
            }
        }
        j += 1;
    }
    proof {
        assert forall|i: int| 0 <= i < 512 implies entry_wf(#[trigger] lut@[i]) by {
            assert(entry_wf(old(lut)@[i]));
        }
        assert forall|w: nat| #[trigger]
            lookup(lut@, w) == if w % pow2(len as nat) == code {
                Some((sym as int, len as nat))
            } else {
                lookup(old(lut)@, w)
            } by {
            lemma_mod_pow2_div(w as int, len as nat, 9);
            let idx = (w % 512) as int;
            assert(idx % (pl as int) == w % pl);
            lemma_fundamental_div_mod(idx, pl as int);
            lemma_mod_bound(idx, pl as int);
            let q = idx / (pl as int);
            assert(q < count) by (nonlinear_arith)
                requires
                    idx == pl * q + idx % (pl as int),
                    0 <= idx % (pl as int),
                    idx < 512,
                    pl * count == 512,
                    pl > 0,
            ;
        }
        assert forall|k: nat| sized(old(lut)@, k) implies sized(lut@, k) by {
            assert forall|i: int| 0 <= i < lut@.len() implies match #[trigger] lut@[i] {
                TableElement::Table(mask, _) => mask + 1 == pow2(k),
                _ => true,
            } by {
                assert(old(lut)@[i] == old(lut)@[i]);
            }
        }
    }
}


/// Enters a word of more than nine bits: the primary entry for its first
/// nine bits leads to a secondary table, made here if need be, and every
/// entry of that table whose index starts with the rest of the (reversed)
/// word gets the symbol.
fn put_long(lut: &mut Vec<TableElement>, code: u32, len: u8, k: u8, sym: u16)
    requires
        table_wf(old(lut)@),
        sized(old(lut)@, k as nat),
        10 <= len <= 15,
        len - 9 <= k <= 6,
        code < pow2(len as nat),
        !(old(lut)@[code as int % 512] is Symbol),
    ensures
        table_wf(final(lut)@),
        sized(final(lut)@, k as nat),
        forall|w: nat| #[trigger]
            lookup(final(lut)@, w) == if w % pow2(len as nat) == code {
                Some((sym as int, len as nat))
            } else {
                lookup(old(lut)@, w)
            },
{
    let ghost m = (len - 9) as nat;
    let ghost pm = pow2(m);
    let ghost pk = pow2(k as nat);
    proof {
        lemma_pow2_values();
        lemma_pow2_sum(9, m);
        assert(9 + m == len as nat);
        lemma_pow2_sum(m, (k - m) as nat);
        assert(m + (k - m) as nat == k as nat);
        lemma_pow2_le(k as nat, 6);
        lemma_pow2_le(m, 6);
        lemma_pow2_le((k - m) as nat, 6);
        lemma_pow2_le(len as nat, 15);
        lemma_mod_pow2_div(code as int, 9, len as nat);
        lemma_small_div_pow2(code as int, len as nat);
        lemma_fundamental_div_mod(code as int, 512);
    }
    let index: usize = crate::bitmath::low_bits32(code, 9) as usize;
    let hi: u32 = shr32(code, 9);
    let size: u32 = crate::bitmath::shl32(1, k as u32);
    let is_empty: bool = match &lut[index] {
        TableElement::Nothing => true,
        _ => false,
    };
    if is_empty {
        let sub: Vec<TableElement> = empty_entries(size as usize);
        proof {
            assert(k == 0 || k == 1 || k == 2 || k == 3 || k == 4 || k == 5 || k == 6);
        }
        lut[index] = TableElement::Table((size - 1) as u16, sub);
        proof {
            assert forall|i: int| 0 <= i < 512 implies entry_wf(#[trigger] lut@[i]) by {
                if i != index {
                    assert(entry_wf(old(lut)@[i]));
                }
            }
        }
    }
    let ghost mid = lut@;
    proof {
        assert(sized(mid, k as nat)) by {
            assert forall|i: int| 0 <= i < mid.len() implies match #[trigger] mid[i] {
                TableElement::Table(mask, _) => mask + 1 == pow2(k as nat),
                _ => true,
            } by {
                if i != index {
                    assert(mid[i] == old(lut)@[i]);
                }
            }
        }
        assert forall|w: nat| #[trigger] lookup(mid, w) == lookup(old(lut)@, w) by {
            if w % 512 != index {
                assert(mid[(w % 512) as int] == old(lut)@[(w % 512) as int]);
            } else if is_empty {
                lemma_mod_bound((w / 512) as int, pk as int);
            }
        }
        assert(entry_wf(mid[index as int]));
    }
    let step: u32 = crate::bitmath::shl32(1, (len - 9) as u32);
    let count: u32 = crate::bitmath::shl32(1, (k - (len - 9)) as u32);
    let mut j: u32 = 0;
    while j < count
        invariant
            j <= count,
            count == pow2((k - m) as nat),
            step == pm,
            pm == pow2(m),
            pk == pow2(k as nat),
            pm * count == pk,
            pk <= 64,
            10 <= len <= 15,
            m == (len - 9) as nat,
            1 <= m <= k <= 6,
            hi < pm,
            index < 512,
            lut.len() == 512,
            mid.len() == 512,
            mid[index as int] is Table,
            mid[index as int]->Table_1.len() == pk,
            lut[index as int] is Table,
            lut[index as int]->Table_0 == mid[index as int]->Table_0,
            lut[index as int]->Table_1.len() == pk,
            forall|i: int| 0 <= i < 512 && i != index ==> #[trigger] lut[i] == mid[i],
            forall|q: int|
                0 <= q < pk ==> #[trigger] lut[index as int]->Table_1[q] == if q % (pm as int) == hi
                    && q / (pm as int) < j {
                    TableElement::Symbol(sym, (len - 9) as u8)
                } else {
                    mid[index as int]->Table_1[q]
                },
        decreases count - j,
    {
        proof {
            lemma_pow2_values();
            lemma_pow2_join(hi as int, j as int, m);
            lemma_pow2_join_bound(j as int, hi as int, (k - m) as nat, m);
            assert((k - m) as nat + m == k as nat);
            assert(j * step == j * pm && j * step == pm * j && j * step >= 0) by (nonlinear_arith)
                requires
                    step == pm,
                    j >= 0,
                    pm >= 0,
            ;
            assert(j * step + hi < pk);
        }
        let kidx: u32 = j * step + hi;
        let ghost prev = lut[index as int]->Table_1@;
        lut[index].put(kidx as u16, TableElement::Symbol(sym, len - 9));
        proof {
            assert forall|q: int| 0 <= q < pk implies #[trigger] lut[index as int]->Table_1[q]
                == if q % (pm as int) == hi && q / (pm as int) < j + 1 {
                TableElement::Symbol(sym, (len - 9) as u8)
            } else {
                mid[index as int]->Table_1[q]
            } by {
                lemma_fundamental_div_mod(q, pm as int);
                if q != kidx {
                    assert(lut[index as int]->Table_1[q] == prev[q]);
                    if q % (pm as int) == hi && q / (pm as int) == j {
                        assert(false);
                    }
                }
            }
        }
        j += 1;
    }
    proof {
        let sub = lut[index as int]->Table_1@;
        let sub0 = mid[index as int]->Table_1@;
        assert forall|i: int| 0 <= i < 512 implies entry_wf(#[trigger] lut@[i]) by {
            if i != index {
                assert(entry_wf(mid[i]));
            } else {
                assert forall|q: int| 0 <= q < sub.len() implies leaf_wf(#[trigger] sub[q]) by {
                    assert(leaf_wf(sub0[q]));
                }
            }
        }
        assert(sized(lut@, k as nat)) by {
            assert forall|i: int| 0 <= i < lut@.len() implies match #[trigger] lut@[i] {
                TableElement::Table(mask, _) => mask + 1 == pow2(k as nat),
                _ => true,
            } by {
                if i != index {
                    assert(lut@[i] == mid[i]);
                }
            }
        }
        assert forall|w: nat| #[trigger]
            lookup(lut@, w) == if w % pow2(len as nat) == code {
                Some((sym as int, len as nat))
            } else {
                lookup(old(lut)@, w)
            } by {
            assert(lookup(mid, w) == lookup(old(lut)@, w));
            lemma_mod_pow2_split(w as int, 9, m);
            lemma_mod_pow2_div(w as int, 9, len as nat);
            let x = (w / 512) as int;
            if w % 512 != index {
                assert(lut@[(w % 512) as int] == mid[(w % 512) as int]);
            } else {
                let q = x % (pk as int);
                lemma_mod_bound(x, pk as int);
                lemma_mod_pow2_div(x, m, k as nat);
                assert(q % (pm as int) == x % (pm as int));
                lemma_fundamental_div_mod(q, pm as int);
                lemma_mod_bound(q, pm as int);
                let d = q / (pm as int);
                assert(d < count) by (nonlinear_arith)
                    requires
                        q == pm * d + q % (pm as int),
                        0 <= q % (pm as int),
                        q < pk,
                        pm * count == pk,
                        pm > 0,
                ;
                assert(w % pow2(len as nat) == 512 * (x % (pm as int)) + index);
            }
        }
    }
}

/// Builds the decoder table of the canonical code in which symbol `i` has a
/// word of `lengths[i]` bits, or none where that is zero.
///
/// Fails with `FormatError` if, and only if, a length is above 15 or the
/// code is over-subscribed.
///
/// Every secondary table of the result has the mask `2^k - 1` and `2^k`
/// entries, where `k` is the number of bits by which the longest word is
/// longer than nine; an entry of it holds the length of its word less nine.
pub fn table_from_lengths(lengths: &[u8]) -> (res: Result<Vec<TableElement>, ImageError>)
    requires
        lengths.len() <= 0x10000,
    ensures
        res is Ok <==> valid_lengths(lengths@),
        res matches Ok(t) ==> table_wf(t@) && decodes(t@, lengths@) && sized(
            t@,
            overflow_bits(max_length(lengths@, lengths.len() as nat)),
        ),
        res matches Err(e) ==> e == ImageError::FormatError,
{
    let ghost hist = length_histogram(lengths@);
    let (bl_count, max_len) = match count_lengths(lengths) {
        None => {
            return Err(ImageError::FormatError);
        },
        Some(x) => x,
    };
    assert(counts_hist(bl_count@) =~= hist);
    let mut next_code: Vec<u32> = match first_codes(&bl_count) {
        None => {
            return Err(ImageError::FormatError);
        },
        Some(nc) => nc,
    };
    let k: u8 = if max_len > 9 {
        max_len - 9
    } else {
        0
    };
    let mut lut: Vec<TableElement> = empty_entries(512);
    proof {
        assert(table_wf(lut@));
        assert(sized(lut@, k as nat));
        assert(partial(lut@, lengths@, 0));
    }
    let mut i: usize = 0;
    while i < lengths.len()
        invariant
            i <= lengths.len(),
            lengths.len() <= 0x10000,
            valid_lengths(lengths@),
            hist == length_histogram(lengths@),
            k <= 6,
            forall|j: int| 0 <= j < lengths.len() ==> lengths[j] <= k + 9,
            table_wf(lut@),
            sized(lut@, k as nat),
            partial(lut@, lengths@, i as int),
            next_code.len() == 16,
            forall|l: int|
                1 <= l < 16 ==> #[trigger] next_code[l] == first_code(hist, l as nat) + count_len(
                    lengths@,
                    l as nat,
                    i as nat,
                ),
        decreases lengths.len() - i,
    {
        let len: u8 = lengths[i];
        let ghost before = lut@;
        if len != 0 {
            let code: u32 = next_code[len as usize];
            proof {
                lemma_code_bound(lengths@, i as int);
                crate::huffman::lemma_count_len_step(
                    lengths@,
                    len as nat,
                    i as nat,
                    lengths.len() as nat,
                );
                lemma_pow2_values();
                lemma_pow2_le(len as nat, 15);
            }
            let rcode: u32 = reverse_code(code, len);
            if len <= 9 {
                put_short(&mut lut, rcode, len, i as u16);
            } else {
                proof {
                    let slot = before[rcode as int % 512];
                    if slot is Symbol {
                        let w = rcode as nat;
                        lemma_small_div_pow2(w as int, len as nat);
                        assert(lookup(before, w) is Some);
                        let v = lookup(before, w)->Some_0.0;
                        assert(word_matches(lengths@, v, w));
                        assert(word_matches(lengths@, i as int, w));
                        lemma_prefix_free(lengths@, v, i as int, w);
                    }
                }
                put_long(&mut lut, rcode, len, k, i as u16);
            }
            next_code[len as usize] = code + 1;
            proof {
                assert forall|w: nat| w < 0x8000 implies match #[trigger] lookup(lut@, w) {
                    Some((v, l)) => v < i + 1 && word_matches(lengths@, v, w) && l == lengths[v],
                    None => forall|s: int| 0 <= s < i + 1 ==> !word_matches(lengths@, s, w),
                } by {
                    if w % pow2(len as nat) == rcode {
                    } else {
                        assert(lookup(lut@, w) == lookup(before, w));
                    }
                }
            }
        } else {
            proof {
                assert forall|w: nat| w < 0x8000 implies match #[trigger] lookup(lut@, w) {
                    Some((v, l)) => v < i + 1 && word_matches(lengths@, v, w) && l == lengths[v],
                    None => forall|s: int| 0 <= s < i + 1 ==> !word_matches(lengths@, s, w),
                } by {}
            }
        }
        i += 1;
    }
    proof {
        assert forall|w: nat| w < 0x8000 implies #[trigger] lookup(lut@, w) == canonical_decode(
            lengths@,
            w,
        ) by {
            match lookup(lut@, w) {
                Some((v, l)) => {
                    lemma_canonical_decode(lengths@, v, w);
                },
                None => {},
            }
        }
    }
    Ok(lut)
}

} // verus!
