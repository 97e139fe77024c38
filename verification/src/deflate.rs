//! An inflater for DEFLATE streams (RFC 1951).
//!
//! The stream is read least-significant bit first. Everything here is
//! specified over the whole input taken as one little-endian number: the
//! `n`-bit field at bit offset `p` is `(value / 2^p) % 2^n`, and bits past the
//! end of the input read as zero.

use crate::bitmath::{
    lemma_div_pow2_twice, lemma_mod_pow2_div, lemma_mod_pow2_split, lemma_pow2_join,
    lemma_pow2_join_bound, lemma_pow2_le, lemma_pow2_sum, lemma_pow2_values, lemma_small_div_pow2,
    low_bits32, shl32, shr32,
};
use crate::codetable::{decodes, lookup, table_from_lengths, table_wf, TableElement};
use crate::error::ImageError;
use crate::huffman::valid_lengths;
use crate::inflate_spec::{
    align_up, block_header, code_length_lengths, code_lengths, compressed_data, copy_match,
    dynamic_header, fixed_d_lengths, fixed_ll_lengths, inflate_block, match_at, stored_data,
    stored_header, symbol_at, with_run, BlockKind, Decoded, CODEORDER, DISTANCES, EXTRA_DISTANCES,
    EXTRA_LENGTHS, LENGTHS,
};
use vstd::arithmetic::div_mod::*;
use vstd::arithmetic::power2::*;
use vstd::prelude::*;

verus! {

/// The bytes of `s` as one number, the first byte least significant.
pub open spec fn le_value(s: Seq<u8>) -> nat
    decreases s.len(),
{
    if s.len() == 0 {
        0
    } else {
        s[0] as nat + 256 * le_value(s.drop_first())
    }
}

/// The `n`-bit field that starts at bit `p` of the stream, its first bit
/// least significant. Bits past the end of `input` are zero.
#[verifier::opaque]
pub open spec fn bits_at(input: Seq<u8>, p: nat, n: nat) -> nat {
    ((le_value(input) / pow2(p)) % pow2(n)) as nat
}

/// How many bits `input` holds.
pub open spec fn bit_len(input: Seq<u8>) -> nat {
    8 * input.len()
}

pub proof fn lemma_le_value_bound(s: Seq<u8>)
    ensures
        le_value(s) < pow2(8 * s.len()),
    decreases s.len(),
{
    lemma_pow2_values();
    if s.len() > 0 {
        lemma_le_value_bound(s.drop_first());
        lemma_pow2_sum(8, 8 * s.drop_first().len());
        lemma_pow2_join_bound(
            le_value(s.drop_first()) as int,
            s[0] as int,
            8 * s.drop_first().len(),
            8,
        );
        assert(8 * s.len() == 8 * s.drop_first().len() + 8);
    }
}

/// Byte `k` of the input is the 8-bit field at bit `8k`.
pub proof fn lemma_bits_at_byte(s: Seq<u8>, k: nat)
    requires
        k < s.len(),
    ensures
        bits_at(s, 8 * k, 8) == s[k as int],
    decreases k,
{
    reveal(bits_at);
    lemma_pow2_values();
    let rest = s.drop_first();
    lemma_pow2_join(s[0] as int, le_value(rest) as int, 8);
    if k == 0 {
    } else {
        lemma_bits_at_byte(rest, (k - 1) as nat);
        lemma_div_pow2_twice(le_value(s) as int, 8, (8 * (k - 1)) as nat);
        assert(8 + 8 * (k - 1) == 8 * k);
        assert(le_value(s) / pow2(8) == le_value(rest));
        assert(rest[k - 1] == s[k as int]);
    }
}

/// Past the end of the input every field is zero, and a field that reaches
/// past the end equals the shorter field that stops there.
pub proof fn lemma_bits_at_end(s: Seq<u8>, p: nat, n: nat, m: nat)
    requires
        p + n >= bit_len(s),
        m >= n,
    ensures
        bits_at(s, p, m) == bits_at(s, p, n),
        bits_at(s, p, n) < pow2(n),
{
    reveal(bits_at);
    lemma_le_value_bound(s);
    lemma_pow2_pos(p);
    lemma_pow2_pos(n);
    lemma_pow2_pos(m);
    let x = le_value(s) as int / pow2(p) as int;
    lemma_mod_bound(x, pow2(n) as int);
    if p >= bit_len(s) {
        lemma_pow2_le(bit_len(s), p);
        lemma_small_div_pow2(le_value(s) as int, p);
        assert(x == 0);
        lemma_small_div_pow2(0, n);
        lemma_small_div_pow2(0, m);
    } else {
        let r = (bit_len(s) - p) as nat;
        // x < 2^r <= 2^n <= 2^m
        lemma_pow2_sum(p, r);
        assert(x < pow2(r)) by {
            let v = le_value(s) as int;
            let pp = pow2(p) as int;
            let pr = pow2(r) as int;
            assert(p + r == bit_len(s));
            lemma_fundamental_div_mod(v, pp);
            lemma_mod_bound(v, pp);
            assert(x < pr) by (nonlinear_arith)
                requires
                    v == pp * x + v % pp,
                    0 <= v % pp,
                    v < pp * pr,
                    pp > 0,
                    pr > 0,
            ;
        }
        lemma_pow2_le(r, n);
        lemma_pow2_le(n, m);
        lemma_small_div_pow2(x, n);
        lemma_small_div_pow2(x, m);
    }
}

/// A field of `a + b` bits is its first `a` bits below the `b` bits that
/// follow.
pub proof fn lemma_bits_at_split(s: Seq<u8>, p: nat, a: nat, b: nat)
    ensures
        bits_at(s, p, a + b) == bits_at(s, p, a) + pow2(a) * bits_at(s, p + a, b),
        bits_at(s, p, a) < pow2(a),
        bits_at(s, p, a + b) / pow2(a) == bits_at(s, p + a, b),
        bits_at(s, p, a + b) % pow2(a) == bits_at(s, p, a),
{
    reveal(bits_at);
    lemma_pow2_pos(p);
    lemma_pow2_pos(a);
    lemma_pow2_pos(b);
    let x = le_value(s) as int / pow2(p) as int;
    assert(x >= 0) by {
        lemma_div_pos_is_pos(le_value(s) as int, pow2(p) as int);
    }
    lemma_mod_pow2_split(x, a, b);
    lemma_div_pow2_twice(le_value(s) as int, p, a);
    lemma_mod_bound(x, pow2(a) as int);
    lemma_mod_pow2_div(x, a, a + b);
    assert((a + b - a) as nat == b);
}



/// A bit reader over a byte buffer, least-significant bit first.
///
/// It keeps up to 31 bits of the input in an accumulator. Its state, as far
/// as contracts are concerned, is the input and a position in it, counted in
/// bits; how many of the coming bits already sit in the accumulator is
/// `buffered()`.
pub struct HuffReader {
    r: Vec<u8>,
    pos: usize,
    bits: u32,
    num_bits: u8,
}

impl HuffReader {
    /// The bytes this reader was made with.
    pub closed spec fn input(&self) -> Seq<u8> {
        self.r@
    }

    /// The number of bits consumed so far.
    pub closed spec fn bit_pos(&self) -> nat {
        (8 * self.pos - self.num_bits) as nat
    }

    /// The number of coming bits that are in the accumulator.
    pub closed spec fn buffered(&self) -> nat {
        self.num_bits as nat
    }

    /// The number of bits not consumed yet.
    pub open spec fn remaining(&self) -> int {
        bit_len(self.input()) - self.bit_pos()
    }

    /// The accumulator holds exactly the next `buffered()` bits of the input.
    pub closed spec fn wf(&self) -> bool {
        &&& self.pos <= self.r.len()
        &&& self.num_bits <= 31
        &&& self.num_bits <= 8 * self.pos
        &&& self.bits == bits_at(self.r@, self.bit_pos(), self.num_bits as nat)
    }

    /// In a well-formed reader the position is inside the input and the
    /// accumulator holds no more than what is left.
    pub proof fn lemma_wf_bounds(&self)
        requires
            self.wf(),
        ensures
            self.bit_pos() <= bit_len(self.input()),
            self.buffered() <= self.remaining(),
            self.buffered() <= 31,
    {
    }

    /// A reader at the start of `r`.
    pub fn new(r: Vec<u8>) -> (h: HuffReader)
        ensures
            h.wf(),
            h.input() == r@,
            h.bit_pos() == 0,
            h.buffered() == 0,
    {
        proof {
            lemma_pow2_values();
            lemma_bits_at_split(r@, 0, 0, 0);
        }
        HuffReader { r, pos: 0, bits: 0, num_bits: 0 }
    }

    /// The bytes this reader was made with.
    pub fn source(&self) -> (r: &Vec<u8>)
        ensures
            r@ == self.input(),
    {
        &self.r
    }

    /// Loads bytes until the accumulator holds `n` bits or the input is
    /// used up.
    fn refill(&mut self, n: u8)
        requires
            old(self).wf(),
            n <= 24,
        ensures
            final(self).wf(),
            final(self).input() == old(self).input(),
            final(self).bit_pos() == old(self).bit_pos(),
            final(self).buffered() >= old(self).buffered(),
            final(self).buffered() >= n || final(self).buffered() == final(self).remaining(),
    {
        while self.num_bits < n && self.pos < self.r.len()
            invariant
                self.wf(),
                n <= 24,
                self.r@ == old(self).r@,
                self.bit_pos() == old(self).bit_pos(),
                self.num_bits >= old(self).num_bits,
            decreases self.r.len() - self.pos,
        {
            let byte: u8 = self.r[self.pos];
            proof {
                let p = self.bit_pos();
                let k = self.num_bits as nat;
                lemma_bits_at_byte(self.r@, self.pos as nat);
                lemma_bits_at_split(self.r@, p, k, 8);
                lemma_pow2_values();
                lemma_pow2_le(k, 24);
                assert(byte * pow2(k) < 0x1_0000_0000) by (nonlinear_arith)
                    requires
                        byte < 256,
                        pow2(k) <= 0x1000000,
                ;
                assert(p + k == 8 * self.pos);
                lemma_pow2_join_bound(byte as int, self.bits as int, 8, k);
                lemma_pow2_le(8 + k, 32);
                vstd::arithmetic::mul::lemma_mul_is_commutative(pow2(k) as int, byte as int);
            }
            let shifted: u32 = shl32(byte as u32, self.num_bits as u32);
            self.bits = self.bits + shifted;
            self.num_bits = self.num_bits + 8;
            self.pos = self.pos + 1;
        }
    }

    /// Makes sure that the accumulator holds at least `n` bits.
    ///
    /// Fails with `NotEnoughData` if, and only if, fewer than `n` bits of the
    /// input are left. The position does not change either way.
    pub fn guarantee(&mut self, n: u8) -> (res: Result<(), ImageError>)
        requires
            old(self).wf(),
            n <= 24,
        ensures
            final(self).wf(),
            final(self).input() == old(self).input(),
            final(self).bit_pos() == old(self).bit_pos(),
            final(self).buffered() >= old(self).buffered(),
            res is Ok <==> n <= old(self).remaining(),
            res is Ok ==> final(self).buffered() >= n,
            res is Err ==> res == Err::<(), ImageError>(ImageError::NotEnoughData),
    {
        self.refill(n);
        if self.num_bits < n {
            Err(ImageError::NotEnoughData)
        } else {
            Ok(())
        }
    }

    /// Drops the bits that remain of the byte the position is in, if it is
    /// not at a byte boundary already.
    pub fn byte_align(&mut self)
        requires
            old(self).wf(),
        ensures
            final(self).wf(),
            final(self).input() == old(self).input(),
            final(self).bit_pos() % 8 == 0,
            old(self).bit_pos() <= final(self).bit_pos() < old(self).bit_pos() + 8,
            final(self).buffered() == old(self).buffered() - (final(self).bit_pos() - old(
                self,
            ).bit_pos()),
    {
        let n: u8 = self.num_bits % 8;
        self.consume(n);
    }

    /// Drops `n` bits that are in the accumulator.
    pub fn consume(&mut self, n: u8)
        requires
            old(self).wf(),
            n <= old(self).buffered(),
        ensures
            final(self).wf(),
            final(self).input() == old(self).input(),
            final(self).bit_pos() == old(self).bit_pos() + n,
            final(self).buffered() == old(self).buffered() - n,
    {
        proof {
            let p = self.bit_pos();
            lemma_bits_at_split(self.r@, p, n as nat, (self.num_bits - n) as nat);
            assert(n as nat + (self.num_bits - n) as nat == self.num_bits as nat);
        }
        self.bits = shr32(self.bits, n as u32);
        self.num_bits = self.num_bits - n;
    }

    /// Reads an `n`-bit field and moves past it.
    ///
    /// Fails with `NotEnoughData` if, and only if, fewer than `n` bits are
    /// left; the position then stays where it was.
    pub fn receive(&mut self, n: u8) -> (res: Result<u16, ImageError>)
        requires
            old(self).wf(),
            n <= 16,
        ensures
            final(self).wf(),
            final(self).input() == old(self).input(),
            res == read_field(old(self).input(), old(self).bit_pos(), n as nat),
            final(self).bit_pos() == old(self).bit_pos() + (if res is Ok {
                n as nat
            } else {
                0
            }),
    {
        match self.guarantee(n) {
            Err(e) => {
                return Err(e);
            },
            Ok(_) => {},
        }
        proof {
            let p = self.bit_pos();
            lemma_bits_at_split(self.r@, p, n as nat, (self.num_bits - n) as nat);
            assert(n as nat + (self.num_bits - n) as nat == self.num_bits as nat);
            lemma_pow2_values();
            lemma_pow2_le(n as nat, 16);
        }
        let val: u32 = low_bits32(self.bits, n as u32);
        self.consume(n);
        Ok(val as u16)
    }

    /// Reads the symbol whose code word the coming bits start with, and moves
    /// past the word.
    ///
    /// The outcome is `decode_at` of the table, the input and the position:
    /// `NotEnoughData` if no bit is left or the word reaches past the end of
    /// the input, `FormatError` if the table has no word for the coming bits;
    /// the position then stays where it was.
    pub fn decode_symbol(&mut self, table: &[TableElement]) -> (res: Result<u16, ImageError>)
        requires
            old(self).wf(),
            table_wf(table@),
        ensures
            final(self).wf(),
            final(self).input() == old(self).input(),
            match decode_at(table@, old(self).input(), old(self).bit_pos()) {
                Ok((v, p)) => res == Ok::<u16, ImageError>(v as u16) && final(self).bit_pos() == p,
                Err(e) => res == Err::<u16, ImageError>(e) && final(self).bit_pos() == old(
                    self,
                ).bit_pos(),
            },
    {
        self.refill(15);
        if self.num_bits == 0 {
            return Err(ImageError::NotEnoughData);
        }
        let ghost p = self.bit_pos();
        let ghost w = bits_at(self.r@, p, 15);
        let ghost x = self.bits as int;
        proof {
            lemma_pow2_values();
            if self.num_bits >= 15 {
                lemma_bits_at_split(self.r@, p, 15, (self.num_bits - 15) as nat);
                assert(15 + (self.num_bits - 15) as nat == self.num_bits as nat);
            } else {
                lemma_bits_at_end(self.r@, p, self.num_bits as nat, 15);
                lemma_pow2_le(self.num_bits as nat, 15);
                lemma_small_div_pow2(x, 15);
            }
            assert(w == x % 0x8000);
            lemma_mod_pow2_div(x, 9, 15);
            assert(w % 512 == x % 512);
            assert(w / 512 == (x / 512) % 64);
        }
        let index: usize = low_bits32(self.bits, 9) as usize;
        let (val, size): (u16, u8) = match &table[index] {
            TableElement::Symbol(val, size) => (*val, *size),
            TableElement::Table(mask, a) => {
                let rest: u32 = shr32(self.bits, 9);
                let m: u32 = *mask as u32;
                proof {
                    assert(entry_wf_at(table@, index as int));
                    assert(rest & m == rest % ((m + 1) as u32) && (rest % 64) % ((m + 1) as u32)
                        == rest % ((m + 1) as u32)) by (bit_vector)
                        requires
                            m == 0 || m == 1 || m == 3 || m == 7 || m == 15 || m == 31 || m == 63,
                    ;
                }
                let index2: usize = (rest & m) as usize;
                match &a[index2] {
                    TableElement::Symbol(val, size) => (*val, *size + 9),
                    _ => {
                        return Err(ImageError::FormatError);
                    },
                }
            },
            TableElement::Nothing => {
                return Err(ImageError::FormatError);
            },
        };
        proof {
            assert(entry_wf_at(table@, index as int));
            assert(lookup(table@, w) == Some((val as int, size as nat)));
        }
        if size <= self.num_bits {
            self.consume(size);
            Ok(val)
        } else {
            Err(ImageError::NotEnoughData)
        }
    }
}

/// What the table `t` makes of the bits at position `p`: the symbol and the
/// position after its word.
///
/// `NotEnoughData` if no bit is left or the word that the coming bits start
/// (zeros standing in past the end) reaches past the end; `FormatError` if
/// the table has no word for them.
pub open spec fn decode_at(t: Seq<TableElement>, input: Seq<u8>, p: nat) -> Result<
    (int, nat),
    ImageError,
> {
    if p >= bit_len(input) {
        Err(ImageError::NotEnoughData)
    } else {
        match lookup(t, bits_at(input, p, 15)) {
            None => Err(ImageError::FormatError),
            Some((s, l)) => if p + l > bit_len(input) {
                Err(ImageError::NotEnoughData)
            } else {
                Ok((s, p + l))
            },
        }
    }
}

/// Entry `i` of a well-formed table is sound.
spec fn entry_wf_at(t: Seq<TableElement>, i: int) -> bool {
    crate::codetable::entry_wf(t[i])
}

/// With a table that decodes the code `lengths`, reading a symbol by the
/// table is reading it by the code.
pub proof fn lemma_decode_at(t: Seq<TableElement>, lengths: Seq<u8>, input: Seq<u8>, p: nat)
    requires
        decodes(t, lengths),
    ensures
        decode_at(t, input, p) == symbol_at(lengths, input, p),
{
    reveal(symbol_at);
    lemma_pow2_values();
    lemma_bits_at_split(input, p, 15, 0);
    assert(lookup(t, bits_at(input, p, 15)) == crate::huffman::canonical_decode(
        lengths,
        bits_at(input, p, 15),
    ));
}

/// What reading an `n`-bit field at bit `p` gives: the field, or
/// `NotEnoughData` where the input ends before bit `p + n`.
pub open spec fn read_field(input: Seq<u8>, p: nat, n: nat) -> Result<u16, ImageError> {
    if p + n <= bit_len(input) {
        Ok(bits_at(input, p, n) as u16)
    } else {
        Err(ImageError::NotEnoughData)
    }
}


/// Among the first `b` lengths, those from `a` on are all `c`: the count of
/// `len` grows by `b - a` if `c` is `len`, and not at all otherwise.
proof fn lemma_count_len_run(lengths: Seq<u8>, len: nat, a: nat, b: nat, c: u8)
    requires
        a <= b <= lengths.len(),
        forall|i: int| a <= i < b ==> lengths[i] == c,
    ensures
        crate::huffman::count_len(lengths, len, b) == crate::huffman::count_len(lengths, len, a)
            + if c == len {
            (b - a) as nat
        } else {
            0nat
        },
    decreases b - a,
{
    if a < b {
        lemma_count_len_run(lengths, len, a, (b - 1) as nat, c);
    }
}

/// The two fixed codes are valid codes.
pub proof fn lemma_fixed_lengths_valid()
    ensures
        valid_lengths(fixed_ll_lengths()),
        valid_lengths(fixed_d_lengths()),
{
    lemma_pow2_values();
    let ll = fixed_ll_lengths();
    let h = crate::huffman::length_histogram(ll);
    assert forall|l: int| 0 <= l < 16 implies #[trigger] h[l] == if l == 7 {
        24nat
    } else if l == 8 {
        152nat
    } else if l == 9 {
        112nat
    } else {
        0nat
    } by {
        lemma_count_len_run(ll, l as nat, 0, 144, 8);
        lemma_count_len_run(ll, l as nat, 144, 256, 9);
        lemma_count_len_run(ll, l as nat, 256, 280, 7);
        lemma_count_len_run(ll, l as nat, 280, 288, 8);
    }
    lemma_three_lengths_fit(h, 7, 24, 152, 112);
    let d = fixed_d_lengths();
    let g = crate::huffman::length_histogram(d);
    assert forall|l: int| 0 <= l < 16 implies #[trigger] g[l] == if l == 5 {
        30nat
    } else {
        0nat
    } by {
        lemma_count_len_run(d, l as nat, 0, 30, 5);
    }
    lemma_three_lengths_fit(g, 5, 30, 0, 0);
}

/// A histogram that is empty but for three lengths in a row, `a`, `a + 1`
/// and `a + 2`, fits if those three fit at length `a + 2`.
proof fn lemma_three_lengths_fit(h: Seq<nat>, a: nat, n0: nat, n1: nat, n2: nat)
    requires
        h.len() == 16,
        1 <= a <= 9,
        forall|l: int|
            0 <= l < 16 ==> #[trigger] h[l] == if l == a {
                n0
            } else if l == a + 1 {
                n1
            } else if l == a + 2 {
                n2
            } else {
                0nat
            },
        4 * n0 + 2 * n1 + n2 <= pow2(a + 2),
    ensures
        crate::huffman::fits(h, 15),
{
    lemma_first_code_zero(h, a);
    let s2 = crate::huffman::code_space(h, a + 2);
    let e = (15 - (a + 2)) as nat;
    assert(crate::huffman::hist_at(h, a) == n0);
    assert(crate::huffman::hist_at(h, a + 1) == n1);
    assert(crate::huffman::hist_at(h, a + 2) == n2);
    assert(crate::huffman::first_code(h, a + 1) == 2 * n0);
    assert(crate::huffman::first_code(h, a + 2) == 2 * (2 * n0 + n1));
    assert(s2 == 4 * n0 + 2 * n1 + n2);
    lemma_code_space_tail(h, a + 2, 15);
    lemma_pow2_sum(e, a + 2);
    assert(e + (a + 2) == 15);
    assert(pow2(e) * s2 <= pow2(e) * pow2(a + 2)) by (nonlinear_arith)
        requires
            s2 <= pow2(a + 2),
    ;
}

/// Before the first length that occurs, the first code word is zero.
proof fn lemma_first_code_zero(h: Seq<nat>, a: nat)
    requires
        forall|l: int| 0 <= l < a && l < h.len() ==> #[trigger] h[l] == 0,
    ensures
        crate::huffman::first_code(h, a) == 0,
    decreases a,
{
    if a > 0 {
        lemma_first_code_zero(h, (a - 1) as nat);
    }
}

/// After the last length that occurs, the space used only scales.
proof fn lemma_code_space_tail(h: Seq<nat>, a: nat, b: nat)
    requires
        a <= b,
        forall|l: int| a < l <= b && l < h.len() ==> #[trigger] h[l] == 0,
    ensures
        crate::huffman::code_space(h, b) == pow2((b - a) as nat) * crate::huffman::code_space(h, a),
    decreases b - a,
{
    lemma_pow2_values();
    let sa = crate::huffman::code_space(h, a) as int;
    if a == b {
        assert(pow2(0) * sa == sa) by (nonlinear_arith)
            requires
                pow2(0) == 1,
        ;
    } else {
        let b1 = (b - 1) as nat;
        lemma_code_space_tail(h, a, b1);
        let e = (b1 - a) as nat;
        lemma_pow2_sum(e, 1);
        assert((b - a) as nat == e + 1);
        assert(2 * (pow2(e) * sa) == pow2(e + 1) * sa) by (nonlinear_arith)
            requires
                pow2(e + 1) == pow2(e) * 2,
        ;
    }
}

/// Appends to `buf` a match of `length` bytes that starts `distance` bytes
/// before its end, byte by byte.
pub fn copy_back(buf: &mut Vec<u8>, length: usize, distance: usize)
    requires
        1 <= distance <= old(buf).len(),
    ensures
        final(buf)@ == copy_match(old(buf)@, length as nat, distance as nat),
        final(buf).len() == old(buf).len() + length,
{
    let mut i: usize = 0;
    while i < length
        invariant
            i <= length,
            1 <= distance <= buf.len(),
            buf.len() == old(buf).len() + i,
            copy_match(old(buf)@, length as nat, distance as nat) == copy_match(
                buf@,
                (length - i) as nat,
                distance as nat,
            ),
        decreases length - i,
    {
        let b: u8 = buf[buf.len() - distance];
        buf.push(b);
        i += 1;
    }
}


/// The table is well formed and decodes the code `lengths`.
#[verifier::opaque]
spec fn ready(t: Seq<TableElement>, lengths: Seq<u8>) -> bool {
    table_wf(t) && decodes(t, lengths)
}

/// A symbol read by a sound table is a 16-bit number, and its word has at
/// least one bit and ends inside the input.
proof fn lemma_symbol_at_bounds(t: Seq<TableElement>, lengths: Seq<u8>, input: Seq<u8>, p: nat)
    requires
        table_wf(t),
        decodes(t, lengths),
    ensures
        match symbol_at(lengths, input, p) {
            Ok((s, pos1)) => 0 <= s <= 0xffff && p < pos1 <= bit_len(input),
            Err(_) => true,
        },
{
    lemma_decode_at(t, lengths, input, p);
    let w = bits_at(input, p, 15);
    let e = t[(w % 512) as int];
    assert(crate::codetable::entry_wf(e));
    match e {
        TableElement::Table(mask, sub) => {
            let j = ((w / 512) % (mask + 1) as nat) as int;
            assert(crate::codetable::leaf_wf(sub[j]));
        },
        _ => {},
    }
}

/// Reads one symbol of the code `lengths` through its table.
fn read_symbol(h: &mut HuffReader, table: &[TableElement], lengths: Ghost<Seq<u8>>) -> (res:
    Result<u16, ImageError>)
    requires
        old(h).wf(),
        ready(table@, lengths@),
    ensures
        final(h).wf(),
        final(h).input() == old(h).input(),
        match symbol_at(lengths@, old(h).input(), old(h).bit_pos()) {
            Ok((s, p)) => {
                &&& res == Ok::<u16, ImageError>(s as u16)
                &&& 0 <= s <= 0xffff
                &&& final(h).bit_pos() == p
                &&& old(h).bit_pos() < p <= bit_len(old(h).input())
            },
            Err(e) => res == Err::<u16, ImageError>(e) && final(h).bit_pos() == old(h).bit_pos(),
        },
{
    proof {
        reveal(ready);
        lemma_decode_at(table@, lengths@, h.input(), h.bit_pos());
        lemma_symbol_at_bounds(table@, lengths@, h.input(), h.bit_pos());
    }
    h.decode_symbol(table)
}

/// The number of extra bits and the base length of length symbol `257 + k`.
fn length_entry(k: usize) -> (r: (u8, u16))
    requires
        k < 29,
    ensures
        r.0 == EXTRA_LENGTHS[k as int],
        r.1 == LENGTHS[k as int],
        r.0 <= 5,
        3 <= r.1 <= 258,
{
    (EXTRA_LENGTHS[k], LENGTHS[k])
}

/// The number of extra bits and the base distance of distance symbol `k`.
fn distance_entry(k: usize) -> (r: (u8, u16))
    requires
        k < 30,
    ensures
        r.0 == EXTRA_DISTANCES[k as int],
        r.1 == DISTANCES[k as int],
        r.0 <= 13,
        1 <= r.1 <= 24577,
{
    (EXTRA_DISTANCES[k], DISTANCES[k])
}

/// Reads what follows length symbol `257 + k`: the length and the distance
/// of the match.
fn read_match(h: &mut HuffReader, dtable: &[TableElement], d: Ghost<Seq<u8>>, k: usize) -> (res:
    Result<(usize, usize), ImageError>)
    requires
        old(h).wf(),
        ready(dtable@, d@),
        k < 29,
    ensures
        final(h).wf(),
        final(h).input() == old(h).input(),
        match match_at(d@, old(h).input(), old(h).bit_pos(), k as int) {
            Ok((length, distance, p)) => {
                &&& res == Ok::<(usize, usize), ImageError>((length as usize, distance as usize))
                &&& length <= 300
                &&& 1 <= distance <= 40000
                &&& final(h).bit_pos() == p
                &&& old(h).bit_pos() <= p <= bit_len(old(h).input())
            },
            Err(e) => res == Err::<(usize, usize), ImageError>(e),
        },
{
    let ghost input = h.input();
    let ghost pos0 = h.bit_pos();
    let (nl, base): (u8, u16) = length_entry(k);
    let extra: u16 = match h.receive(nl) {
        Ok(v) => v,
        Err(e) => {
            return Err(e);
        },
    };
    proof {
        lemma_pow2_values();
        lemma_bits_at_split(input, pos0, nl as nat, 0);
        lemma_pow2_le(nl as nat, 5);
    }
    let length: usize = base as usize + extra as usize;
    let ds: u16 = match read_symbol(h, dtable, d) {
        Ok(v) => v,
        Err(e) => {
            return Err(e);
        },
    };
    if ds > 29 {
        return Err(ImageError::FormatError);
    }
    let ghost pos1 = h.bit_pos();
    let (nd, dbase): (u8, u16) = distance_entry(ds as usize);
    let dextra: u16 = match h.receive(nd) {
        Ok(v) => v,
        Err(e) => {
            return Err(e);
        },
    };
    proof {
        lemma_bits_at_split(input, pos1, nd as nat, 0);
        lemma_pow2_le(nd as nat, 13);
        h.lemma_wf_bounds();
    }
    let distance: usize = dbase as usize + dextra as usize;
    Ok((length, distance))
}

/// Reads the `hclen` lengths of the code-length code.
fn read_code_length_lengths(h: &mut HuffReader, hclen: usize) -> (res: Result<Vec<u8>, ImageError>)
    requires
        old(h).wf(),
        hclen <= 19,
    ensures
        final(h).wf(),
        final(h).input() == old(h).input(),
        res is Ok <==> old(h).bit_pos() + 3 * hclen <= bit_len(old(h).input()),
        res matches Ok(cl) ==> {
            &&& cl@ == code_length_lengths(old(h).input(), old(h).bit_pos(), hclen as nat)
            &&& cl.len() == 19
            &&& final(h).bit_pos() == old(h).bit_pos() + 3 * hclen
        },
        res matches Err(e) ==> e == ImageError::NotEnoughData,
{
    let ghost input = h.input();
    let ghost pos0 = h.bit_pos();
    let mut cl: Vec<u8> = Vec::new();
    let mut i: usize = 0;
    while i < 19
        invariant
            i <= 19,
            cl.len() == i,
            forall|j: int| 0 <= j < i ==> cl[j] == 0,
        decreases 19 - i,
    {
        cl.push(0);
        i += 1;
    }
    assert(cl@ =~= code_length_lengths(input, pos0, 0));
    i = 0;
    while i < hclen
        invariant
            i <= hclen <= 19,
            h.wf(),
            h.input() == input,
            input == old(h).input(),
            pos0 == old(h).bit_pos(),
            h.bit_pos() == pos0 + 3 * i,
            cl.len() == 19,
            cl@ == code_length_lengths(input, pos0, i as nat),
        decreases hclen - i,
    {
        let v: u16 = match h.receive(3) {
            Ok(v) => v,
            Err(e) => {
                return Err(e);
            },
        };
        proof {
            lemma_pow2_values();
            lemma_bits_at_split(input, (pos0 + 3 * i) as nat, 3, 0);
        }
        let slot: usize = CODEORDER[i] as usize;
        cl[slot] = v as u8;
        i += 1;
    }
    proof {
        h.lemma_wf_bounds();
    }
    Ok(cl)
}

/// Reads `total` code lengths with the code-length code.
fn read_code_lengths(
    h: &mut HuffReader,
    ctable: &[TableElement],
    cl: Ghost<Seq<u8>>,
    total: usize,
) -> (res: Result<Vec<u8>, ImageError>)
    requires
        old(h).wf(),
        ready(ctable@, cl@),
        total <= 320,
    ensures
        final(h).wf(),
        final(h).input() == old(h).input(),
        match code_lengths(cl@, old(h).input(), old(h).bit_pos(), Seq::empty(), total as nat) {
            Ok((lens, p)) => {
                &&& res is Ok
                &&& res->Ok_0@ == lens
                &&& lens.len() == total
                &&& final(h).bit_pos() == p
            },
            Err(e) => res == Err::<Vec<u8>, ImageError>(e),
        },
{
    let ghost input = h.input();
    let ghost goal = code_lengths(cl@, input, h.bit_pos(), Seq::empty(), total as nat);
    let mut lens: Vec<u8> = Vec::new();
    while lens.len() < total
        invariant
            total <= 320,
            lens.len() <= total,
            h.wf(),
            h.input() == input,
            ready(ctable@, cl@),
            input == old(h).input(),
            goal == code_lengths(cl@, input, old(h).bit_pos(), Seq::empty(), total as nat),
            goal == code_lengths(cl@, input, h.bit_pos(), lens@, total as nat),
        decreases h.remaining(),
    {
        proof {
            h.lemma_wf_bounds();
        }
        let ghost p = h.bit_pos();
        let ghost before = lens@;
        let s: u16 = match read_symbol(h, ctable, cl) {
            Ok(v) => v,
            Err(e) => {
                return Err(e);
            },
        };
        if s > 18 {
            return Err(ImageError::FormatError);
        } else if s <= 15 {
            lens.push(s as u8);
        } else if s == 16 && lens.len() == 0 {
            return Err(ImageError::FormatError);
        } else {
            let n: u8 = if s == 16 {
                2
            } else if s == 17 {
                3
            } else {
                7
            };
            let ghost pos1 = h.bit_pos();
            let x: u16 = match h.receive(n) {
                Ok(v) => v,
                Err(e) => {
                    return Err(e);
                },
            };
            proof {
                lemma_pow2_values();
                lemma_bits_at_split(input, pos1, n as nat, 0);
            }
            let count: usize = if s == 18 {
                11 + x as usize
            } else {
                3 + x as usize
            };
            let v: u8 = if s == 16 {
                lens[lens.len() - 1]
            } else {
                0
            };
            if lens.len() + count > total {
                return Err(ImageError::FormatError);
            }
            let mut j: usize = 0;
            while j < count
                invariant
                    j <= count,
                    lens@ == before + Seq::new(j as nat, |i: int| v),
                decreases count - j,
            {
                lens.push(v);
                j += 1;
                assert(lens@ =~= before + Seq::new(j as nat, |i: int| v));
            }
            assert(with_run(before, v, count as nat, total as nat) == Ok::<Seq<u8>, ImageError>(
                lens@,
            ));
        }
    }
    Ok(lens)
}

/// The two ways a block can hold its data.
#[derive(Debug, Clone, Copy)]
enum BlockType {
    Stored,
    Compressed,
}

/// What an `Inflater` is, for its contracts.
pub ghost struct InflaterView {
    /// The compressed input.
    pub input: Seq<u8>,
    /// The position in the input, in bits, of the next block; zero once the
    /// stream has failed.
    pub bit_pos: nat,
    /// Every byte inflated so far.
    pub output: Seq<u8>,
    /// How many of them the caller has read.
    pub cursor: nat,
    /// The last block has been inflated.
    pub last: bool,
    /// Why the stream cannot go on, if it cannot.
    pub failure: Option<ImageError>,
}

/// What the inflater does before it hands out bytes: where none are left
/// unread and the stream neither ended nor failed, it inflates the next
/// block.
#[verifier::opaque]
pub open spec fn fill(v: InflaterView) -> InflaterView {
    if v.cursor < v.output.len() || v.failure is Some || v.last {
        v
    } else {
        match inflate_block(v.input, v.bit_pos, v.output) {
            (last, Decoded::Complete { out, pos }) => InflaterView {
                output: out,
                bit_pos: pos,
                last,
                ..v
            },
            (_, Decoded::Failed { out, err }) => InflaterView {
                output: out,
                bit_pos: 0,
                failure: Some(err),
                ..v
            },
        }
    }
}

/// An inflater over a buffer of compressed bytes.
///
/// It inflates a block at a time into a buffer of its own, which holds the
/// whole output, and hands the bytes out through `read`.
pub struct Inflater {
    h: HuffReader,
    buf: Vec<u8>,
    pos: usize,
    last: bool,
    failed: Option<ImageError>,
    btype: BlockType,
    block_length: u32,
    lltable: Vec<TableElement>,
    dtable: Vec<TableElement>,
    ll_lengths: Ghost<Seq<u8>>,
    d_lengths: Ghost<Seq<u8>>,
}

impl View for Inflater {
    type V = InflaterView;

    closed spec fn view(&self) -> InflaterView {
        InflaterView {
            input: self.h.input(),
            bit_pos: if self.failed is Some {
                0
            } else {
                self.h.bit_pos()
            },
            output: self.buf@,
            cursor: self.pos as nat,
            last: self.last,
            failure: self.failed,
        }
    }
}

impl Inflater {
    /// The reader is sound and the cursor is inside the output.
    pub closed spec fn wf(&self) -> bool {
        &&& self.h.wf()
        &&& self.pos <= self.buf.len()
    }

    /// What the current block holds.
    spec fn kind(&self) -> BlockKind {
        match self.btype {
            BlockType::Stored => BlockKind::Stored { len: self.block_length as nat },
            BlockType::Compressed => BlockKind::Compressed {
                ll: self.ll_lengths@,
                d: self.d_lengths@,
            },
        }
    }

    /// The tables of a compressed block decode its two codes.
    spec fn tables_ok(&self) -> bool {
        self.btype is Compressed ==> {
            &&& ready(self.lltable@, self.ll_lengths@)
            &&& ready(self.dtable@, self.d_lengths@)
        }
    }

    /// Everything but the reader and the block state is as in `o`.
    spec fn same_outside(&self, o: &Inflater) -> bool {
        &&& self.h.input() == o.h.input()
        &&& self.pos == o.pos
        &&& self.last == o.last
        &&& self.failed == o.failed
        &&& self.pos <= self.buf.len()
    }

    /// An inflater at the start of `r`, with no output yet.
    pub fn new(r: Vec<u8>) -> (z: Inflater)
        ensures
            z.wf(),
            z@ == (InflaterView {
                input: r@,
                bit_pos: 0,
                output: Seq::empty(),
                cursor: 0,
                last: false,
                failure: None,
            }),
    {
        Inflater {
            h: HuffReader::new(r),
            buf: Vec::new(),
            pos: 0,
            last: false,
            failed: None,
            btype: BlockType::Stored,
            block_length: 0,
            lltable: Vec::new(),
            dtable: Vec::new(),
            ll_lengths: Ghost(Seq::empty()),
            d_lengths: Ghost(Seq::empty()),
        }
    }

    /// The last block has been inflated and all of the output was read.
    pub fn eof(&self) -> (b: bool)
        requires
            self.wf(),
        ensures
            b == (self@.last && self@.cursor == self@.output.len()),
    {
        self.last && self.pos == self.buf.len()
    }

    /// The compressed input.
    pub fn inner(&self) -> (r: &Vec<u8>)
        ensures
            r@ == self@.input,
    {
        self.h.source()
    }

    /// Reads the header of a block.
    fn read_block_type(&mut self) -> (res: Result<(), ImageError>)
        requires
            old(self).wf(),
        ensures
            final(self).wf(),
            final(self).same_outside(old(self)) || res is Ok,
            final(self).h.input() == old(self).h.input(),
            final(self).pos == old(self).pos,
            final(self).failed == old(self).failed,
            final(self).buf == old(self).buf,
            match block_header(old(self).h.input(), old(self).h.bit_pos()) {
                Ok((last, kind, pos1)) => {
                    &&& res is Ok
                    &&& final(self).last == last
                    &&& final(self).kind() == kind
                    &&& final(self).h.bit_pos() == pos1
                    &&& final(self).tables_ok()
                },
                Err(e) => res == Err::<(), ImageError>(e),
            },
    {
        let last: u16 = match self.h.receive(1) {
            Ok(v) => v,
            Err(e) => {
                return Err(e);
            },
        };
        let bits: u16 = match self.h.receive(2) {
            Ok(v) => v,
            Err(e) => {
                return Err(e);
            },
        };
        if bits == 0 {
            match self.read_stored_block_length() {
                Ok(_) => {},
                Err(e) => {
                    return Err(e);
                },
            }
            self.btype = BlockType::Stored;
        } else if bits == 1 {
            self.create_fixed_tables();
            self.btype = BlockType::Compressed;
        } else if bits == 2 {
            match self.read_dynamic_tables() {
                Ok(_) => {},
                Err(e) => {
                    return Err(e);
                },
            }
            self.btype = BlockType::Compressed;
        } else {
            return Err(ImageError::FormatError);
        }
        self.last = last == 1;
        Ok(())
    }

    /// Reads the header of a dynamic block and builds its two tables.
    fn read_dynamic_tables(&mut self) -> (res: Result<(), ImageError>)
        requires
            old(self).wf(),
        ensures
            final(self).wf(),
            final(self).same_outside(old(self)),
            final(self).buf == old(self).buf,
            final(self).btype == old(self).btype,
            final(self).block_length == old(self).block_length,
            match dynamic_header(old(self).h.input(), old(self).h.bit_pos()) {
                Ok((ll, d, pos1)) => {
                    &&& res is Ok
                    &&& final(self).ll_lengths@ == ll
                    &&& final(self).d_lengths@ == d
                    &&& final(self).h.bit_pos() == pos1
                    &&& ready(final(self).lltable@, ll)
                    &&& ready(final(self).dtable@, d)
                },
                Err(e) => res == Err::<(), ImageError>(e),
            },
    {
        let ghost input = self.h.input();
        let ghost pos0 = self.h.bit_pos();
        let a: u16 = match self.h.receive(5) {
            Ok(v) => v,
            Err(e) => {
                return Err(e);
            },
        };
        let b: u16 = match self.h.receive(5) {
            Ok(v) => v,
            Err(e) => {
                return Err(e);
            },
        };
        let c: u16 = match self.h.receive(4) {
            Ok(v) => v,
            Err(e) => {
                return Err(e);
            },
        };
        proof {
            lemma_pow2_values();
            lemma_bits_at_split(input, pos0, 5, 0);
            lemma_bits_at_split(input, pos0 + 5, 5, 0);
            lemma_bits_at_split(input, pos0 + 10, 4, 0);
        }
        let hlit: usize = a as usize + 257;
        let hdist: usize = b as usize + 1;
        let hclen: usize = c as usize + 4;
        let cl: Vec<u8> = match read_code_length_lengths(&mut self.h, hclen) {
            Ok(v) => v,
            Err(e) => {
                return Err(e);
            },
        };
        let ctable: Vec<TableElement> = match table_from_lengths(cl.as_slice()) {
            Ok(t) => t,
            Err(e) => {
                return Err(e);
            },
        };
        proof {
            reveal(ready);
        }
        let total: usize = hlit + hdist;
        let lens: Vec<u8> = match read_code_lengths(
            &mut self.h,
            ctable.as_slice(),
            Ghost(cl@),
            total,
        ) {
            Ok(v) => v,
            Err(e) => {
                return Err(e);
            },
        };
        let ll: &[u8] = vstd::slice::slice_subrange(lens.as_slice(), 0, hlit);
        let d: &[u8] = vstd::slice::slice_subrange(lens.as_slice(), hlit, total);
        assert(ll@ =~= lens@.take(hlit as int));
        assert(d@ =~= lens@.skip(hlit as int));
        let lltable: Vec<TableElement> = match table_from_lengths(ll) {
            Ok(t) => t,
            Err(e) => {
                return Err(e);
            },
        };
        let dtable: Vec<TableElement> = match table_from_lengths(d) {
            Ok(t) => t,
            Err(e) => {
                return Err(e);
            },
        };
        self.lltable = lltable;
        self.dtable = dtable;
        self.ll_lengths = Ghost(ll@);
        self.d_lengths = Ghost(d@);
        Ok(())
    }

    /// Builds the tables of the two fixed codes.
    fn create_fixed_tables(&mut self)
        requires
            old(self).wf(),
        ensures
            final(self).wf(),
            final(self).same_outside(old(self)),
            final(self).h == old(self).h,
            final(self).buf == old(self).buf,
            final(self).btype == old(self).btype,
            final(self).block_length == old(self).block_length,
            final(self).ll_lengths@ == fixed_ll_lengths(),
            final(self).d_lengths@ == fixed_d_lengths(),
            ready(final(self).lltable@, fixed_ll_lengths()),
            ready(final(self).dtable@, fixed_d_lengths()),
    {
        let mut lengths: Vec<u8> = Vec::new();
        let mut i: usize = 0;
        while i < 288
            invariant
                i <= 288,
                lengths.len() == i,
                forall|j: int| 0 <= j < i ==> lengths[j] == fixed_ll_lengths()[j],
            decreases 288 - i,
        {
            let len: u8 = if i < 144 {
                8
            } else if i < 256 {
                9
            } else if i < 280 {
                7
            } else {
                8
            };
            lengths.push(len);
            i += 1;
        }
        let mut dlengths: Vec<u8> = Vec::new();
        i = 0;
        while i < 30
            invariant
                i <= 30,
                dlengths.len() == i,
                forall|j: int| 0 <= j < i ==> dlengths[j] == 5,
            decreases 30 - i,
        {
            dlengths.push(5);
            i += 1;
        }
        proof {
            assert(lengths@ =~= fixed_ll_lengths());
            assert(dlengths@ =~= fixed_d_lengths());
            lemma_fixed_lengths_valid();
            reveal(ready);
        }
        match table_from_lengths(lengths.as_slice()) {
            Ok(t) => {
                self.lltable = t;
            },
            Err(_) => {},
        }
        match table_from_lengths(dlengths.as_slice()) {
            Ok(t) => {
                self.dtable = t;
            },
            Err(_) => {},
        }
        self.ll_lengths = Ghost(lengths@);
        self.d_lengths = Ghost(dlengths@);
    }

    /// Reads the length fields of a stored block.
    fn read_stored_block_length(&mut self) -> (res: Result<(), ImageError>)
        requires
            old(self).wf(),
        ensures
            final(self).wf(),
            final(self).same_outside(old(self)),
            final(self).buf == old(self).buf,
            final(self).btype == old(self).btype,
            match stored_header(old(self).h.input(), align_up(old(self).h.bit_pos())) {
                Ok((len, pos1)) => {
                    &&& res is Ok
                    &&& final(self).block_length == len
                    &&& final(self).h.bit_pos() == pos1
                },
                Err(e) => res == Err::<(), ImageError>(e),
            },
    {
        self.h.byte_align();
        let len: u16 = match self.h.receive(16) {
            Ok(v) => v,
            Err(e) => {
                return Err(e);
            },
        };
        let _nlen: u16 = match self.h.receive(16) {
            Ok(v) => v,
            Err(e) => {
                return Err(e);
            },
        };
        self.block_length = len as u32;
        Ok(())
    }

    /// Copies the bytes of a stored block to the output.
    fn read_stored_block(&mut self) -> (res: Result<(), ImageError>)
        requires
            old(self).wf(),
            old(self).h.bit_pos() % 8 == 0,
        ensures
            final(self).wf(),
            final(self).same_outside(old(self)),
            match stored_data(
                old(self).h.input(),
                old(self).h.bit_pos(),
                old(self).buf@,
                old(self).block_length as nat,
            ) {
                Decoded::Complete { out, pos } => {
                    &&& res is Ok
                    &&& final(self).buf@ == out
                    &&& final(self).h.bit_pos() == pos
                    &&& final(self).block_length == 0
                },
                Decoded::Failed { out, err } => {
                    &&& res == Err::<(), ImageError>(err)
                    &&& final(self).buf@ == out
                },
            },
    {
        let ghost input = self.h.input();
        let ghost pos0 = self.h.bit_pos();
        let ghost start = (pos0 / 8) as int;
        let ghost out0 = self.buf@;
        let n: u32 = self.block_length;
        let mut i: u32 = 0;
        while i < n
            invariant
                i <= n,
                self.h.wf(),
                self.h.input() == input,
                self.same_outside(old(self)),
                n == old(self).block_length,
                out0 == old(self).buf@,
                pos0 == old(self).h.bit_pos(),
                pos0 == 8 * start,
                self.h.bit_pos() == pos0 + 8 * i,
                start + i <= input.len(),
                self.buf@ == out0 + input.subrange(start, start + i),
            decreases n - i,
        {
            proof {
                self.h.lemma_wf_bounds();
            }
            let a: u16 = match self.h.receive(8) {
                Ok(v) => v,
                Err(e) => {
                    proof {
                        assert(start + i == input.len());
                    }
                    return Err(e);
                },
            };
            proof {
                lemma_bits_at_byte(input, (start + i) as nat);
                assert(input.subrange(start, start + i).push(input[start + i]) =~= input.subrange(
                    start,
                    start + i + 1,
                ));
            }
            self.buf.push(a as u8);
            i += 1;
        }
        self.block_length = 0;
        Ok(())
    }

    /// Inflates the data of a compressed block.
    fn read_compressed_block(&mut self) -> (res: Result<(), ImageError>)
        requires
            old(self).wf(),
            old(self).btype is Compressed,
            old(self).tables_ok(),
        ensures
            final(self).wf(),
            final(self).same_outside(old(self)),
            match compressed_data(
                old(self).ll_lengths@,
                old(self).d_lengths@,
                old(self).h.input(),
                old(self).h.bit_pos(),
                old(self).buf@,
            ) {
                Decoded::Complete { out, pos } => {
                    &&& res is Ok
                    &&& final(self).buf@ == out
                    &&& final(self).h.bit_pos() == pos
                },
                Decoded::Failed { out, err } => {
                    &&& res == Err::<(), ImageError>(err)
                    &&& final(self).buf@ == out
                },
            },
    {
        let ghost input = self.h.input();
        let ghost ll = self.ll_lengths@;
        let ghost d = self.d_lengths@;
        let ghost goal = compressed_data(ll, d, input, self.h.bit_pos(), self.buf@);
        loop
            invariant
                self.h.wf(),
                self.h.input() == input,
                self.same_outside(old(self)),
                self.ll_lengths@ == ll,
                self.d_lengths@ == d,
                ready(self.lltable@, ll),
                ready(self.dtable@, d),
                input == old(self).h.input(),
                ll == old(self).ll_lengths@,
                d == old(self).d_lengths@,
                goal == compressed_data(ll, d, input, old(self).h.bit_pos(), old(self).buf@),
                goal == compressed_data(ll, d, input, self.h.bit_pos(), self.buf@),
            decreases self.h.remaining(),
        {
            proof {
                self.h.lemma_wf_bounds();
            }
            let s: u16 = match read_symbol(&mut self.h, self.lltable.as_slice(), Ghost(ll)) {
                Ok(v) => v,
                Err(e) => {
                    return Err(e);
                },
            };
            if s < 256 {
                self.buf.push(s as u8);
            } else if s == 256 {
                return Ok(());
            } else if s > 285 {
                return Err(ImageError::FormatError);
            } else {
                let k: usize = (s - 257) as usize;
                let (length, distance): (usize, usize) = match read_match(
                    &mut self.h,
                    self.dtable.as_slice(),
                    Ghost(d),
                    k,
                ) {
                    Ok(v) => v,
                    Err(e) => {
                        return Err(e);
                    },
                };
                if distance > self.buf.len() {
                    return Err(ImageError::FormatError);
                }
                copy_back(&mut self.buf, length, distance);
            }
        }
    }

    /// Hands out inflated bytes.
    ///
    /// If the last block is done and all of its bytes were read, the call
    /// gives `ImageEnd` and changes nothing. Else, where no inflated byte is
    /// left unread, the next block is inflated first, unless the stream has
    /// failed (`fill`). Then up to `out.len()` unread bytes are copied to the
    /// front of `out`, and their number is returned; that is zero where the
    /// block had no bytes, also where it was the last block. If there is no
    /// byte to hand out and the stream has failed, its error is returned, now
    /// and on every later call. Bytes inflated before a failure are handed
    /// out before the error is.
    pub fn read(&mut self, out: &mut [u8]) -> (res: Result<usize, ImageError>)
        requires
            old(self).wf(),
        ensures
            final(self).wf(),
            final(out).len() == old(out).len(),
            ({
                let before = old(self)@;
                let mid = fill(before);
                let avail = mid.output.len() - mid.cursor;
                let n = if old(out).len() <= avail {
                    old(out).len() as int
                } else {
                    avail
                };
                if before.cursor == before.output.len() && before.failure is None && before.last {
                    &&& res == Err::<usize, ImageError>(ImageError::ImageEnd)
                    &&& final(self)@ == before
                    &&& final(out)@ == old(out)@
                } else if avail == 0 && mid.failure is Some {
                    &&& res == Err::<usize, ImageError>(mid.failure->Some_0)
                    &&& final(self)@ == mid
                    &&& final(out)@ == old(out)@
                } else {
                    &&& res == Ok::<usize, ImageError>(n as usize)
                    &&& final(self)@ == (InflaterView { cursor: (mid.cursor + n) as nat, ..mid })
                    &&& final(out)@ == mid.output.subrange(mid.cursor as int, mid.cursor + n)
                        + old(out)@.skip(n)
                }
            }),
    {
        if self.pos == self.buf.len() && self.failed.is_none() && self.last {
            return Err(ImageError::ImageEnd);
        }
        self.fill_block();
        if self.pos == self.buf.len() {
            match self.failed {
                Some(e) => {
                    return Err(e);
                },
                None => {},
            }
        }
        let n: usize = self.hand_out(out);
        Ok(n)
    }

    /// Inflates the next block where no inflated byte is left unread and
    /// the stream neither ended nor failed.
    fn fill_block(&mut self)
        requires
            old(self).wf(),
        ensures
            final(self).wf(),
            final(self)@ == fill(old(self)@),
    {
        proof {
            reveal(fill);
        }
        if self.pos == self.buf.len() && self.failed.is_none() && !self.last {
            let header: Result<(), ImageError> = self.read_block_type();
            let body: Result<(), ImageError> = match header {
                Err(e) => Err(e),
                Ok(_) => match self.btype {
                    BlockType::Stored => {
                        proof {
                            lemma_stored_aligned(self.h.input(), old(self).h.bit_pos());
                        }
                        self.read_stored_block()
                    },
                    BlockType::Compressed => self.read_compressed_block(),
                },
            };
            match body {
                Ok(_) => {},
                Err(e) => {
                    self.failed = Some(e);
                    self.last = false;
                },
            }
        }
    }

    /// Copies unread bytes to the front of `out`, as many as there are and
    /// as `out` has room for, and counts them as read.
    fn hand_out(&mut self, out: &mut [u8]) -> (n: usize)
        requires
            old(self).wf(),
        ensures
            final(self).wf(),
            final(out).len() == old(out).len(),
            n == if old(out).len() <= old(self)@.output.len() - old(self)@.cursor {
                old(out).len() as int
            } else {
                old(self)@.output.len() - old(self)@.cursor
            },
            final(self)@ == (InflaterView { cursor: (old(self)@.cursor + n) as nat, ..old(self)@ }),
            final(out)@ == old(self)@.output.subrange(
                old(self)@.cursor as int,
                old(self)@.cursor + n,
            ) + old(out)@.skip(n as int),
    {
        let avail: usize = self.buf.len() - self.pos;
        let n: usize = if out.len() <= avail {
            out.len()
        } else {
            avail
        };
        let ghost start = self.pos as int;
        let mut i: usize = 0;
        while i < n
            invariant
                i <= n,
                n <= out.len(),
                start + n <= self.buf.len(),
                start == self.pos,
                out.len() == old(out).len(),
                *self == *old(self),
                forall|j: int| 0 <= j < i ==> out[j] == self.buf[start + j],
                forall|j: int| i <= j < out.len() ==> out[j] == old(out)[j],
            decreases n - i,
        {
            out[i] = self.buf[self.pos + i];
            i += 1;
        }
        self.pos = self.pos + n;
        proof {
            assert(out@ =~= old(self)@.output.subrange(
                old(self)@.cursor as int,
                old(self)@.cursor + n,
            ) + old(out)@.skip(n as int));
        }
        n
    }
}

/// The data of a stored block starts at a byte boundary.
proof fn lemma_stored_aligned(input: Seq<u8>, p: nat)
    ensures
        match block_header(input, p) {
            Ok((_, BlockKind::Stored { len }, pos1)) => pos1 % 8 == 0,
            _ => true,
        },
{
}

} // verus!
