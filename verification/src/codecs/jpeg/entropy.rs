//! The entropy-coded segment of a baseline JPEG scan: the bit writer with
//! its byte stuffing, and the coding of coefficient blocks.

use crate::bitmath::{lemma_pow2_le, lemma_pow2_sum, lemma_pow2_values, low_bits32, shl32};
use crate::bitstring::{
    byte_at, bytes_of, lemma_stuff_is_stuffed, lemma_value_of_bound, lemma_value_of_concat,
    lemma_value_of_first_byte, lemma_value_of_msb_bits, msb_bits, pack, put, stuff, stuffed,
    value_of,
};
use crate::codecs::jpeg::UNZIGZAG;
use vstd::arithmetic::div_mod::*;
use vstd::arithmetic::power2::*;
use vstd::prelude::*;

verus! {

/// A marker segment: `0xFF`, the marker, and, where the segment has data,
/// its length in two bytes, most significant first, counting those two, and
/// the data.
pub open spec fn segment(marker: u8, data: Option<Seq<u8>>) -> Seq<u8> {
    match data {
        None => seq![0xFFu8, marker],
        Some(d) => seq![0xFFu8, marker, ((d.len() + 2) / 256) as u8, ((d.len() + 2) % 256) as u8]
            + d,
    }
}

/// The number of bits of `m`: the least `n` with `m < 2^n`.
pub open spec fn bit_size(m: nat) -> nat
    decreases m,
{
    if m == 0 {
        0
    } else {
        1 + bit_size(m / 2)
    }
}

/// The absolute value of `c`.
pub open spec fn magnitude(c: int) -> nat {
    if c < 0 {
        (-c) as nat
    } else {
        c as nat
    }
}

/// The size category of a coefficient: the number of bits of its magnitude.
pub open spec fn coeff_size(c: int) -> nat {
    bit_size(magnitude(c))
}

/// The bits that follow the size of a coefficient: the coefficient itself
/// if it is not negative, else `c - 1` in `coeff_size(c)` bits, which is the
/// one's complement of the magnitude.
pub open spec fn coeff_value(c: int) -> nat {
    if c >= 0 {
        c as nat
    } else {
        (c - 1 + pow2(coeff_size(c))) as nat
    }
}

/// An encoder table: for each of the 256 values the length of its code word
/// and the word. A length above 16 says that the value has no word.
pub type CodeLut = Seq<(u8, u16)>;

/// The table has a code word for `sym`.
pub open spec fn has_code(table: CodeLut, sym: int) -> bool {
    0 <= sym < table.len() && table[sym].0 <= 16
}

/// The table has a word for every size of a DC difference up to 11.
pub open spec fn codes_dc(table: CodeLut) -> bool {
    table.len() == 256 && forall|s: int| 0 <= s <= 11 ==> #[trigger] has_code(table, s)
}

/// A run/size symbol that the coding of AC coefficients uses: a run of up to
/// 15 zeros with a size from 1 to 10, the end of block (`0x00`), or a run of
/// sixteen zeros (`0xF0`).
pub open spec fn is_ac_symbol(s: int) -> bool {
    s == 0x00 || s == 0xF0 || (0 <= s / 16 <= 15 && 1 <= s % 16 <= 10)
}

/// The table has a word for every symbol of the AC coding.
pub open spec fn codes_ac(table: CodeLut) -> bool {
    table.len() == 256 && forall|s: int| is_ac_symbol(s) ==> #[trigger] has_code(table, s)
}

/// `bits` with the code word of `sym` after them.
pub open spec fn put_code(bits: Seq<bool>, table: CodeLut, sym: int) -> Seq<bool> {
    put(bits, table[sym].1 as nat, table[sym].0 as nat)
}

/// `bits` with a coefficient after them: the code word for the run of zeros
/// before it and its size, then its value bits.
pub open spec fn put_coeff(bits: Seq<bool>, table: CodeLut, run: nat, c: int) -> Seq<bool> {
    put(put_code(bits, table, (run * 16 + coeff_size(c)) as int), coeff_value(c), coeff_size(c))
}

/// `bits` with `n` times the code word for sixteen zeros after them.
pub open spec fn put_zrl(bits: Seq<bool>, table: CodeLut, n: nat) -> Seq<bool>
    decreases n,
{
    if n == 0 {
        bits
    } else {
        put_zrl(put_code(bits, table, 0xF0), table, (n - 1) as nat)
    }
}

/// `bits` with the AC coefficients of `block` after them, from place `k` of
/// the zig-zag scan on, when `run` zeros came just before.
///
/// A coefficient that is not zero is written after the sixteens of its run;
/// zeros up to the end of the block are written as one end-of-block word.
pub open spec fn ac_bits(bits: Seq<bool>, block: Seq<i32>, table: CodeLut, k: nat, run: nat) -> Seq<
    bool,
>
    decreases 64 - k,
{
    if k >= 64 {
        bits
    } else {
        let c = block[UNZIGZAG[k as int] as int];
        if c == 0 {
            if k == 63 {
                put_code(bits, table, 0x00)
            } else {
                ac_bits(bits, block, table, k + 1, run + 1)
            }
        } else {
            let coded = put_coeff(put_zrl(bits, table, run / 16), table, run % 16, c as int);
            if k == 63 {
                coded
            } else {
                ac_bits(coded, block, table, k + 1, 0)
            }
        }
    }
}

/// The DC difference that is coded for a block: its DC coefficient less
/// `prevdc`, the DC coefficient of the block before it in its component.
pub open spec fn dc_difference(block: Seq<i32>, prevdc: int) -> int {
    block[0] - prevdc
}

/// `bits` with a block after them: the difference of its DC coefficient to
/// `prevdc`, then its AC coefficients.
#[verifier::opaque]
pub open spec fn block_bits(
    bits: Seq<bool>,
    block: Seq<i32>,
    prevdc: int,
    dctable: CodeLut,
    actable: CodeLut,
) -> Seq<bool> {
    ac_bits(put_coeff(bits, dctable, 0, dc_difference(block, prevdc)), block, actable, 1, 0)
}

/// A coefficient block that the tables can code after the DC value
/// `prevdc`: 64 coefficients, the DC difference within 11 bits and the AC
/// coefficients within 10.
pub open spec fn codable(block: Seq<i32>, prevdc: int) -> bool {
    &&& block.len() == 64
    &&& -2047 <= block[0] - prevdc <= 2047
    &&& forall|i: int| 1 <= i < 64 ==> -1023 <= #[trigger] block[i] <= 1023
}

/// A number is below two to the number of its bits, and, unless it is zero,
/// not below half of that.
pub proof fn lemma_bit_size(m: nat)
    ensures
        m < pow2(bit_size(m)),
        m > 0 ==> pow2((bit_size(m) - 1) as nat) <= m,
    decreases m,
{
    lemma_pow2_values();
    if m > 0 {
        lemma_bit_size(m / 2);
        let n = bit_size(m / 2);
        lemma_pow2_sum(n, 1);
        if m / 2 > 0 {
            lemma_pow2_sum((n - 1) as nat, 1);
            assert((n - 1) as nat + 1 == n);
        }
    }
}

/// A number below `2^n` has at most `n` bits.
pub proof fn lemma_bit_size_le(m: nat, n: nat)
    requires
        m < pow2(n),
    ensures
        bit_size(m) <= n,
    decreases m,
{
    lemma_pow2_values();
    if m > 0 {
        if n == 0 {
        } else {
            lemma_pow2_sum((n - 1) as nat, 1);
            assert((n - 1) as nat + 1 == n);
            lemma_bit_size_le(m / 2, (n - 1) as nat);
        }
    }
}

/// The value bits of a coefficient fit in its size.
pub proof fn lemma_coeff_value_bound(c: int)
    ensures
        coeff_value(c) < pow2(coeff_size(c)),
        c < 0 ==> c - 1 + pow2(coeff_size(c)) >= 0,
{
    lemma_bit_size(magnitude(c));
}

/// A block of zeros after a DC value of zero is coded as the word for a DC
/// difference of size zero, with no value bits, and the end-of-block word.
pub proof fn lemma_zero_block(bits: Seq<bool>, block: Seq<i32>, dctable: CodeLut, actable: CodeLut)
    requires
        block.len() == 64,
        forall|i: int| 0 <= i < 64 ==> block[i] == 0,
    ensures
        block_bits(bits, block, 0, dctable, actable) == put_code(
            put_code(bits, dctable, 0),
            actable,
            0x00,
        ),
{
    reveal(block_bits);
    let dc = put_code(bits, dctable, 0);
    assert(coeff_size(0) == 0);
    assert(put(dc, coeff_value(0), 0) =~= dc);
    assert(put_coeff(bits, dctable, 0, 0) == dc);
    lemma_zero_tail(dc, block, actable, 1, 0);
}

/// From any place on, a tail of zeros is coded as the end-of-block word.
proof fn lemma_zero_tail(bits: Seq<bool>, block: Seq<i32>, actable: CodeLut, k: nat, run: nat)
    requires
        block.len() == 64,
        forall|i: int| 0 <= i < 64 ==> block[i] == 0,
        1 <= k <= 63,
    ensures
        ac_bits(bits, block, actable, k, run) == put_code(bits, actable, 0x00),
    decreases 64 - k,
{
    assert(UNZIGZAG[k as int] < 64);
    if k < 63 {
        lemma_zero_tail(bits, block, actable, k + 1, run + 1);
    }
}

/// The DC difference that is coded for block `i` of a component: its DC
/// coefficient less that of the block before, or less zero for the first.
pub open spec fn dc_diff(dcs: Seq<int>, i: int) -> int {
    dcs[i] - if i == 0 {
        0
    } else {
        dcs[i - 1]
    }
}

/// The sum of the DC differences of the first `n` blocks.
pub open spec fn dc_diff_sum(dcs: Seq<int>, n: nat) -> int
    decreases n,
{
    if n == 0 {
        0
    } else {
        dc_diff_sum(dcs, (n - 1) as nat) + dc_diff(dcs, n - 1)
    }
}

/// The DC differences of a run of blocks add up to the DC coefficient of the
/// last of them.
pub proof fn lemma_dc_continuity(dcs: Seq<int>, n: nat)
    requires
        1 <= n <= dcs.len(),
    ensures
        dc_diff_sum(dcs, n) == dcs[n - 1],
    decreases n,
{
    if n > 1 {
        lemma_dc_continuity(dcs, (n - 1) as nat);
    } else {
        assert(dc_diff_sum(dcs, 0) == 0);
    }
}

/// Size category and value bits of a coefficient.
pub fn encode_coefficient(coefficient: i32) -> (r: (u8, u16))
    requires
        -0xFFFF <= coefficient <= 0xFFFF,
    ensures
        r.0 == coeff_size(coefficient as int),
        r.1 == coeff_value(coefficient as int),
        r.0 <= 16,
        r.1 < pow2(r.0 as nat),
{
    let mag: u32 = if coefficient < 0 {
        (-coefficient) as u32
    } else {
        coefficient as u32
    };
    let mut magnitude: u32 = mag;
    let mut num_bits: u8 = 0;
    proof {
        lemma_pow2_values();
    }
    while magnitude > 0
        invariant
            num_bits <= 16,
            magnitude < pow2((16 - num_bits) as nat),
            bit_size(mag as nat) == num_bits + bit_size(magnitude as nat),
        decreases magnitude,
    {
        proof {
            lemma_pow2_values();
            if num_bits < 16 {
                lemma_pow2_sum((15 - num_bits) as nat, 1);
                assert((15 - num_bits) as nat + 1 == (16 - num_bits) as nat);
            }
        }
        magnitude = magnitude / 2;
        num_bits = num_bits + 1;
    }
    proof {
        lemma_coeff_value_bound(coefficient as int);
        lemma_pow2_le(num_bits as nat, 16);
        lemma_pow2_values();
    }
    let top: u32 = shl32(1, num_bits as u32);
    let val: u32 = if coefficient < 0 {
        (top as i32 + (coefficient - 1)) as u32
    } else {
        coefficient as u32
    };
    (num_bits, val as u16)
}

/// A writer of JPEG data into a byte buffer.
///
/// Bits of entropy-coded data are gathered, most significant first, in an
/// accumulator; each byte that fills up goes to the buffer, followed by a
/// zero byte if it is `0xFF`. For its contracts the writer is the bytes of
/// the buffer, and the bits written since the last segment: `scan()`.
pub struct BitWriter {
    w: Vec<u8>,
    accumulator: u32,
    nbits: u8,
    base: Ghost<Seq<u8>>,
    scan: Ghost<Seq<bool>>,
}

impl BitWriter {
    /// The bytes written so far.
    pub closed spec fn bytes(&self) -> Seq<u8> {
        self.w@
    }

    /// The bits of entropy-coded data written since the last segment.
    pub closed spec fn scan(&self) -> Seq<bool> {
        self.scan@
    }

    /// The bytes that were there before the entropy-coded data.
    pub closed spec fn base(&self) -> Seq<u8> {
        self.base@
    }

    /// The bits that are not yet part of a whole byte.
    pub open spec fn pending(&self) -> Seq<bool> {
        self.scan().skip(self.scan().len() - self.scan().len() % 8)
    }

    /// The whole bytes of the scan are in the buffer, stuffed; the rest of
    /// its bits, fewer than eight, are at the top of the accumulator.
    pub closed spec fn wf(&self) -> bool {
        &&& self.nbits < 8
        &&& self.nbits == self.scan@.len() % 8
        &&& self.accumulator == value_of(self.pending()) * pow2((32 - self.nbits) as nat)
        &&& self.w@ == self.base@ + stuff(pack(self.scan@))
    }

    /// In a sound writer the buffer holds what was there before the scan, and
    /// then the whole bytes of the scan, stuffed.
    pub proof fn lemma_wf_bytes(&self)
        requires
            self.wf(),
        ensures
            self.bytes() == self.base() + stuff(pack(self.scan())),
    {
    }

    /// Whatever was written, the entropy-coded data in the buffer is
    /// stuffed: each of its `0xFF` bytes is followed by a zero byte.
    pub proof fn lemma_data_is_stuffed(&self)
        requires
            self.wf(),
        ensures
            self.base().len() <= self.bytes().len(),
            self.bytes().take(self.base().len() as int) == self.base(),
            stuffed(self.bytes().skip(self.base().len() as int)),
    {
        let data = stuff(pack(self.scan()));
        lemma_stuff_is_stuffed(pack(self.scan()));
        assert(self.bytes().skip(self.base().len() as int) =~= data);
        assert(self.bytes().take(self.base().len() as int) =~= self.base());
    }

    /// A writer that appends to `w`.
    pub fn new(w: Vec<u8>) -> (r: BitWriter)
        ensures
            r.wf(),
            r.bytes() == w@,
            r.base() == w@,
            r.scan() == Seq::<bool>::empty(),
    {
        let r = BitWriter {
            w,
            accumulator: 0,
            nbits: 0,
            base: Ghost(w@),
            scan: Ghost(Seq::empty()),
        };
        proof {
            r.lemma_restart();
        }
        r
    }

    /// With no bit pending and no scan, the writer is sound.
    proof fn lemma_restart(&self)
        requires
            self.nbits == 0,
            self.accumulator == 0,
            self.scan@ == Seq::<bool>::empty(),
            self.base@ == self.w@,
        ensures
            self.wf(),
    {
        assert(self.pending() =~= Seq::<bool>::empty());
        assert(value_of(self.pending()) * pow2(32) == 0) by (nonlinear_arith)
            requires
                value_of(self.pending()) == 0,
        ;
        assert(pack(self.scan@) =~= Seq::<u8>::empty());
        assert(self.w@ =~= self.base@ + stuff(pack(self.scan@)));
    }

    /// The buffer with all that was written.
    pub fn into_inner(self) -> (w: Vec<u8>)
        ensures
            w@ == self.bytes(),
    {
        self.w
    }

    /// Writes a marker segment. Bits that are pending are dropped, and the
    /// next bits written start a new scan.
    pub fn write_segment(&mut self, marker: u8, data: Option<Vec<u8>>)
        requires
            data matches Some(d) ==> d.len() <= 65533,
        ensures
            final(self).wf(),
            final(self).bytes() == old(self).bytes() + segment(
                marker,
                match data {
                    Some(d) => Some(d@),
                    None => None,
                },
            ),
            final(self).base() == final(self).bytes(),
            final(self).scan() == Seq::<bool>::empty(),
    {
        self.w.push(0xFF);
        self.w.push(marker);
        match data {
            Some(b) => {
                let len: usize = b.len() + 2;
                self.w.push((len / 256) as u8);
                self.w.push((len % 256) as u8);
                let mut i: usize = 0;
                while i < b.len()
                    invariant
                        i <= b.len(),
                        self.w@ == old(self).w@ + seq![
                            0xFFu8,
                            marker,
                            ((b.len() + 2) / 256) as u8,
                            ((b.len() + 2) % 256) as u8,
                        ] + b@.take(i as int),
                    decreases b.len() - i,
                {
                    self.w.push(b[i]);
                    i += 1;
                    assert(b@.take(i as int) =~= b@.take(i - 1).push(b[i - 1]));
                    assert(self.w@ =~= old(self).w@ + seq![
                        0xFFu8,
                        marker,
                        ((b.len() + 2) / 256) as u8,
                        ((b.len() + 2) % 256) as u8,
                    ] + b@.take(i as int));
                }
                assert(b@.take(b.len() as int) =~= b@);
                assert(self.w@ =~= old(self).w@ + segment(marker, Some(b@)));
            },
            None => {
                assert(self.w@ =~= old(self).w@ + segment(marker, None));
            },
        }
        self.accumulator = 0;
        self.nbits = 0;
        self.base = Ghost(self.w@);
        self.scan = Ghost(Seq::empty());
        proof {
            self.lemma_restart();
        }
    }

    /// Writes the low `size` bits of `bits`, the most significant first.
    pub fn write_bits(&mut self, bits: u16, size: u8)
        requires
            old(self).wf(),
            size <= 16,
        ensures
            final(self).wf(),
            final(self).base() == old(self).base(),
            final(self).scan() == put(old(self).scan(), bits as nat, size as nat),
    {
        if size == 0 {
            proof {
                assert(put(self.scan@, bits as nat, 0) =~= self.scan@);
            }
            return ;
        }
        let ghost scan0 = self.scan@;
        let ghost pend0 = self.pending();
        let ghost m = msb_bits(bits as nat, size as nat);
        let ghost s = scan0 + m;
        let ghost k0 = (scan0.len() / 8) as nat;
        proof {
            lemma_pow2_values();
            lemma_pow2_le(size as nat, 16);
            lemma_value_of_msb_bits(bits as nat, size as nat);
            lemma_value_of_concat(pend0, m);
            lemma_value_of_bound(pend0);
            lemma_pow2_sum(size as nat, (32 - self.nbits - size) as nat);
            assert(size as nat + (32 - self.nbits - size) as nat == (32 - self.nbits) as nat);
            lemma_pow2_sum(self.nbits as nat, (32 - self.nbits) as nat);
            lemma_pow2_le((32 - self.nbits - size) as nat, 32);
            lemma_mod_bound(bits as int, pow2(size as nat) as int);
        }
        let value: u32 = low_bits32(bits as u32, size as u32);
        let ghost sh = pow2((32 - self.nbits - size) as nat) as int;
        proof {
            let vp = value_of(pend0) as int;
            let ps = pow2(size as nat) as int;
            let pn = pow2(self.nbits as nat) as int;
            assert(value * sh < ps * sh) by (nonlinear_arith)
                requires
                    0 <= value < ps,
                    sh > 0,
            ;
            assert(vp * (ps * sh) + value * sh == (vp * ps + value) * sh) by (nonlinear_arith);
            assert(vp * (ps * sh) + ps * sh <= pn * (ps * sh)) by (nonlinear_arith)
                requires
                    0 <= vp < pn,
                    ps * sh > 0,
            ;
        }
        let shifted: u32 = shl32(value, (32 - (self.nbits + size)) as u32);
        self.accumulator = self.accumulator + shifted;
        self.nbits = self.nbits + size;
        proof {
            assert(s.skip(s.len() - self.nbits) =~= pend0 + m);
            assert(bytes_of(s, k0) =~= pack(scan0)) by {
                assert forall|i: int| 0 <= i < k0 implies byte_at(s, i) == byte_at(scan0, i) by {
                    assert(s.subrange(8 * i, 8 * i + 8) =~= scan0.subrange(8 * i, 8 * i + 8));
                }
            }
        }
        let ghost mut k = k0;
        while self.nbits >= 8
            invariant
                self.nbits <= 23,
                s.len() == 8 * k + self.nbits,
                self.accumulator == value_of(s.skip(8 * k as int)) * pow2(
                    (32 - self.nbits) as nat,
                ),
                self.w@ == self.base@ + stuff(bytes_of(s, k)),
                self.base@ == old(self).base@,
            decreases self.nbits,
        {
            let ghost pend = s.skip(8 * k as int);
            proof {
                lemma_pow2_values();
                lemma_value_of_first_byte(pend);
                let e = (self.nbits - 8) as nat;
                let t = (32 - self.nbits) as nat;
                lemma_pow2_sum(e, t);
                assert(e + t == 24);
                lemma_pow2_sum(8, e);
                let b = value_of(pend.take(8)) as int;
                let r = value_of(pend.skip(8)) as int;
                let pe = pow2(e) as int;
                let pt = pow2(t) as int;
                assert((b * pe + r) * pt == b * (pe * pt) + r * pt) by (nonlinear_arith);
                assert(0 <= r * pt < pe * pt) by (nonlinear_arith)
                    requires
                        0 <= r < pe,
                        pt > 0,
                ;
                lemma_fundamental_div_mod_converse(self.accumulator as int, 0x1000000, b, r * pt);
                assert(pend.take(8) =~= s.subrange(8 * k as int, 8 * k as int + 8));
                assert(pend.skip(8) =~= s.skip(8 * (k + 1) as int));
                assert(bytes_of(s, k + 1) =~= bytes_of(s, k).push(byte_at(s, k as int)));
                assert(bytes_of(s, k + 1).drop_last() =~= bytes_of(s, k));
                lemma_pow2_sum(t, 8);
                assert(t + 8 == (32 - (self.nbits - 8)) as nat);
                assert((r * pt) * 256 == r * (pt * 256)) by (nonlinear_arith);
            }
            let acc: u32 = self.accumulator;
            let byte: u32 = acc >> 24;
            let rest: u32 = acc << 8;
            proof {
                assert(byte == acc / 0x1000000 && rest == (acc % 0x1000000) * 256) by (bit_vector)
                    requires
                        byte == acc >> 24,
                        rest == acc << 8,
                ;
            }
            self.w.push(byte as u8);
            if byte == 0xFF {
                self.w.push(0x00);
            }
            self.nbits = self.nbits - 8;
            self.accumulator = rest;
            proof {
                k = k + 1;
                assert(self.w@ =~= self.base@ + stuff(bytes_of(s, k)));
            }
        }
        self.scan = Ghost(s);
        proof {
            assert(k == s.len() / 8);
            assert(self.pending() =~= s.skip(8 * k as int));
        }
    }

    /// Writes seven one-bits, which fills the last byte of the scan: every
    /// bit written before is then in the buffer.
    pub fn pad_byte(&mut self)
        requires
            old(self).wf(),
        ensures
            final(self).wf(),
            final(self).base() == old(self).base(),
            final(self).scan() == put(old(self).scan(), 0x7F, 7),
    {
        self.write_bits(0x7F, 7)
    }

    /// Writes the code word of `val`.
    pub fn huffman_encode(&mut self, val: u8, table: &[(u8, u16)])
        requires
            old(self).wf(),
            has_code(table@, val as int),
        ensures
            final(self).wf(),
            final(self).base() == old(self).base(),
            final(self).scan() == put_code(old(self).scan(), table@, val as int),
    {
        let (size, code): (u8, u16) = table[val as usize];
        self.write_bits(code, size)
    }

    /// Writes a block of quantized coefficients: the difference of its DC
    /// coefficient to `prevdc`, then its AC coefficients in zig-zag order,
    /// runs of zeros counted. Returns the DC coefficient, which is `prevdc`
    /// for the next block of the component.
    pub fn write_block(
        &mut self,
        block: &[i32],
        prevdc: i32,
        dctable: &[(u8, u16)],
        actable: &[(u8, u16)],
    ) -> (dcval: i32)
        requires
            old(self).wf(),
            codable(block@, prevdc as int),
            codes_dc(dctable@),
            codes_ac(actable@),
        ensures
            final(self).wf(),
            final(self).base() == old(self).base(),
            final(self).scan() == block_bits(
                old(self).scan(),
                block@,
                prevdc as int,
                dctable@,
                actable@,
            ),
            dcval == block[0],
    {
        proof {
            reveal(block_bits);
        }
        let dcval: i32 = block[0];
        let diff: i32 = dcval - prevdc;
        let (size, value): (u8, u16) = encode_coefficient(diff);
        proof {
            lemma_pow2_values();
            lemma_bit_size_le(magnitude(diff as int), 11);
            assert(has_code(dctable@, size as int));
        }
        self.huffman_encode(size, dctable);
        self.write_bits(value, size);
        let ghost goal = block_bits(old(self).scan(), block@, prevdc as int, dctable@, actable@);
        let mut zero_run: u8 = 0;
        let mut k: usize = 0;
        loop
            invariant_except_break
                k <= 62,
                zero_run <= k,
                goal == ac_bits(self.scan(), block@, actable@, (k + 1) as nat, zero_run as nat),
            invariant
                self.wf(),
                self.base() == old(self).base(),
                codable(block@, prevdc as int),
                codes_ac(actable@),
            ensures
                self.scan() == goal,
            decreases 63 - k,
        {
            k += 1;
            assert(UNZIGZAG[k as int] < 64);
            let c: i32 = block[UNZIGZAG[k] as usize];
            if c == 0 {
                if k == 63 {
                    assert(is_ac_symbol(0x00));
                    self.huffman_encode(0x00, actable);
                    break ;
                }
                zero_run += 1;
            } else {
                let ghost start = self.scan();
                let ghost run = zero_run as nat;
                while zero_run > 15
                    invariant
                        self.wf(),
                        self.base() == old(self).base(),
                        codes_ac(actable@),
                        zero_run as nat % 16 == run % 16,
                        zero_run <= run,
                        put_zrl(start, actable@, run / 16) == put_zrl(
                            self.scan(),
                            actable@,
                            zero_run as nat / 16,
                        ),
                    decreases zero_run,
                {
                    assert(is_ac_symbol(0xF0));
                    self.huffman_encode(0xF0, actable);
                    zero_run -= 16;
                }
                let (size, value): (u8, u16) = encode_coefficient(c);
                proof {
                    lemma_pow2_values();
                    lemma_bit_size_le(magnitude(c as int), 10);
                    assert(size >= 1);
                    assert(is_ac_symbol(zero_run as int * 16 + size as int));
                    assert(has_code(actable@, zero_run as int * 16 + size as int));
                    assert(put_zrl(self.scan(), actable@, 0) == self.scan());
                }
                let symbol: u8 = zero_run * 16 + size;
                self.huffman_encode(symbol, actable);
                self.write_bits(value, size);
                zero_run = 0;
                if k == 63 {
                    break ;
                }
            }
        }
        dcval
    }
}

} // verus!
