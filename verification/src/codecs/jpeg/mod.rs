//! Encoding of baseline JPEG images.
//!
//! This module holds what encoder and entropy coder share: the zig-zag
//! order, the component descriptor, and the Huffman code that a JPEG table
//! specification (`BITS` and `HUFFVAL` of the standard) stands for.

use crate::bitmath::{lemma_pow2_le, lemma_pow2_values};
use crate::huffman::{code_space, first_code, fits, hist_at, lemma_fits_each_length};
use vstd::arithmetic::power2::*;
use vstd::prelude::*;

pub mod encoder;
pub mod entropy;
pub mod tables;

verus! {

/// The zig-zag scan: `UNZIGZAG[k]` is the place, in row-major order, of the
/// coefficient that comes `k`-th in the scan.
pub const UNZIGZAG: [u8; 64] = [
    0, 1, 8, 16, 9, 2, 3, 10, 17, 24, 32, 25, 18, 11, 4, 5, 12, 19, 26, 33, 40, 48, 41, 34, 27, 20,
    13, 6, 7, 14, 21, 28, 35, 42, 49, 56, 57, 50, 43, 36, 29, 22, 15, 23, 30, 37, 44, 51, 58, 59,
    52, 45, 38, 31, 39, 46, 53, 60, 61, 54, 47, 55, 62, 63,
];

/// The inverse of the zig-zag scan: `ZIGZAG[i]` is the turn, in the scan, of
/// the coefficient at place `i`.
pub const ZIGZAG: [u8; 64] = [
    0, 1, 5, 6, 14, 15, 27, 28, 2, 4, 7, 13, 16, 26, 29, 42, 3, 8, 12, 17, 25, 30, 41, 43, 9, 11,
    18, 24, 31, 40, 44, 53, 10, 19, 23, 32, 39, 45, 52, 54, 20, 22, 33, 38, 46, 51, 55, 60, 21, 34,
    37, 47, 50, 56, 59, 61, 35, 36, 48, 49, 57, 58, 62, 63,
];

/// The zig-zag scan is a permutation of the 64 places of a block, and
/// `ZIGZAG` is its inverse: going to the scan and back, or back and forth,
/// ends where it began.
pub proof fn lemma_zigzag_permutation()
    ensures
        forall|k: int| 0 <= k < 64 ==> 0 <= #[trigger] UNZIGZAG[k] < 64,
        forall|i: int| 0 <= i < 64 ==> 0 <= #[trigger] ZIGZAG[i] < 64,
        forall|k: int| 0 <= k < 64 ==> ZIGZAG[#[trigger] UNZIGZAG[k] as int] == k,
        forall|i: int| 0 <= i < 64 ==> UNZIGZAG[#[trigger] ZIGZAG[i] as int] == i,
        forall|j: int, k: int|
            0 <= j < 64 && 0 <= k < 64 && #[trigger] UNZIGZAG[j] == #[trigger] UNZIGZAG[k] ==> j
                == k,
{
    assert forall|j: int, k: int|
        0 <= j < 64 && 0 <= k < 64 && #[trigger] UNZIGZAG[j] == #[trigger] UNZIGZAG[k] implies j
        == k by {
        assert(ZIGZAG[UNZIGZAG[j] as int] == j);
        assert(ZIGZAG[UNZIGZAG[k] as int] == k);
    }
}

/// One component of a frame.
#[derive(Debug, Clone, Copy, PartialEq, Eq, Structural)]
pub struct Component {
    /// The component's identifier.
    pub id: u8,
    /// Its horizontal sampling factor.
    pub h: u8,
    /// Its vertical sampling factor.
    pub v: u8,
    /// The quantization table it uses.
    pub tq: u8,
    /// The table its DC coefficients are coded with.
    pub dc_table: u8,
    /// The table its AC coefficients are coded with.
    pub ac_table: u8,
    /// The DC coefficient of its previous block.
    pub dc_pred: i32,
}

/// The histogram of a table specification: `bits[l - 1]` code words have
/// `l` bits, for `l` from 1 to 16.
pub open spec fn bits_hist(bits: Seq<u8>) -> Seq<nat> {
    Seq::new(
        17,
        |l: int|
            if 1 <= l <= bits.len() {
                bits[l - 1] as nat
            } else {
                0nat
            },
    )
}

/// How many code words have at most `len` bits.
pub open spec fn codes_upto(bits: Seq<u8>, len: nat) -> nat
    decreases len,
{
    if len == 0 {
        0
    } else {
        codes_upto(bits, (len - 1) as nat) + hist_at(bits_hist(bits), len)
    }
}

/// The length of code word number `k`, counted from zero in the order of the
/// words: the least length, from `len` on, up to which there are more than
/// `k` words. Zero if there are not that many words.
pub open spec fn size_from(bits: Seq<u8>, k: nat, len: nat) -> nat
    decreases 17 - len,
{
    if len > 16 {
        0
    } else if k < codes_upto(bits, len) {
        len
    } else {
        size_from(bits, k, len + 1)
    }
}

/// The length of code word number `k`.
pub open spec fn nth_size(bits: Seq<u8>, k: nat) -> nat {
    size_from(bits, k, 1)
}

/// Code word number `k`: the first word of its length plus its place among
/// the words of that length.
pub open spec fn nth_code(bits: Seq<u8>, k: nat) -> nat {
    let len = nth_size(bits, k);
    (first_code(bits_hist(bits), len) + k - codes_upto(bits, (len - 1) as nat)) as nat
}

/// What the encoder's table holds for the value `v` when the first `n`
/// values of `huffval` have been entered: length and code word of the last
/// of them that is `v`, or the length 17, which no word has, if none is.
pub open spec fn lut_entry(bits: Seq<u8>, huffval: Seq<u8>, v: int, n: nat) -> (u8, u16)
    decreases n,
{
    if n == 0 {
        (17u8, 0u16)
    } else if huffval[n - 1] == v {
        (nth_size(bits, (n - 1) as nat) as u8, nth_code(bits, (n - 1) as nat) as u16)
    } else {
        lut_entry(bits, huffval, v, (n - 1) as nat)
    }
}

proof fn lemma_codes_upto_mono(bits: Seq<u8>, a: nat, b: nat)
    requires
        a <= b,
    ensures
        codes_upto(bits, a) <= codes_upto(bits, b),
    decreases b - a,
{
    if a < b {
        lemma_codes_upto_mono(bits, a, (b - 1) as nat);
    }
}

/// Word number `k` has `len` bits if there are at most `k` shorter words and
/// more than `k` words of up to `len` bits.
proof fn lemma_size_from(bits: Seq<u8>, k: nat, len: nat, start: nat)
    requires
        1 <= start <= len <= 16,
        codes_upto(bits, (len - 1) as nat) <= k < codes_upto(bits, len),
    ensures
        size_from(bits, k, start) == len,
    decreases len - start,
{
    if start < len {
        lemma_codes_upto_mono(bits, start, (len - 1) as nat);
        lemma_size_from(bits, k, len, start + 1);
    }
}

/// The lengths and code words of a table specification, in the order of the
/// words, by the procedure of the standard. Both vectors have 256 entries;
/// those past the last word are zero.
pub fn derive_codes_and_sizes(bits: &[u8]) -> (r: (Vec<u8>, Vec<u16>))
    requires
        bits.len() == 16,
        codes_upto(bits@, 16) <= 256,
        fits(bits_hist(bits@), 16),
    ensures
        r.0.len() == 256,
        r.1.len() == 256,
        forall|k: int|
            0 <= k < codes_upto(bits@, 16) ==> r.0[k] == nth_size(bits@, k as nat) && r.1[k]
                == nth_code(bits@, k as nat) && 1 <= #[trigger] r.0[k] <= 16,
        forall|k: int| codes_upto(bits@, 16) <= k < 256 ==> r.0[k] == 0 && r.1[k] == 0,
{
    let ghost hist = bits_hist(bits@);
    let ghost total = codes_upto(bits@, 16);
    let mut huffsize: Vec<u8> = Vec::new();
    let mut huffcode: Vec<u16> = Vec::new();
    let mut i: usize = 0;
    while i < 256
        invariant
            i <= 256,
            huffsize.len() == i,
            huffcode.len() == i,
            forall|j: int| 0 <= j < i ==> huffsize[j] == 0 && huffcode[j] == 0,
        decreases 256 - i,
    {
        huffsize.push(0);
        huffcode.push(0);
        i += 1;
    }
    let mut k: usize = 0;
    let mut code: u32 = 0;
    let mut len: usize = 1;
    proof {
        assert(first_code(hist, 0) == 0);
        assert(first_code(hist, 1) == 0);
    }
    while len <= 16
        invariant
            1 <= len <= 17,
            bits.len() == 16,
            hist == bits_hist(bits@),
            total == codes_upto(bits@, 16),
            total <= 256,
            fits(hist, 16),
            huffsize.len() == 256,
            huffcode.len() == 256,
            k == codes_upto(bits@, (len - 1) as nat),
            code == first_code(hist, len as nat),
            code <= 0x20000,
            forall|j: int|
                0 <= j < k ==> huffsize[j] == nth_size(bits@, j as nat) && huffcode[j] == nth_code(
                    bits@,
                    j as nat,
                ) && 1 <= #[trigger] huffsize[j] <= 16,
            forall|j: int| k <= j < 256 ==> huffsize[j] == 0 && huffcode[j] == 0,
        decreases 17 - len,
    {
        let count: u8 = bits[len - 1];
        proof {
            lemma_codes_upto_mono(bits@, len as nat, 16);
            lemma_fits_each_length(hist, 16, len as nat);
            lemma_pow2_values();
            lemma_pow2_le(len as nat, 16);
            assert(hist_at(hist, len as nat) == count);
        }
        let ghost k0 = k;
        let ghost code0 = code;
        let mut j: u8 = 0;
        while j < count
            invariant
                1 <= len <= 16,
                j <= count,
                k == k0 + j,
                code == code0 + j,
                k0 + count <= 256,
                code0 + count <= 0x10000,
                k0 == codes_upto(bits@, (len - 1) as nat),
                k0 + count == codes_upto(bits@, len as nat),
                code0 == first_code(hist, len as nat),
                hist == bits_hist(bits@),
                huffsize.len() == 256,
                huffcode.len() == 256,
                forall|j: int|
                    0 <= j < k ==> huffsize[j] == nth_size(bits@, j as nat) && huffcode[j]
                        == nth_code(bits@, j as nat) && 1 <= #[trigger] huffsize[j] <= 16,
                forall|j: int| k <= j < 256 ==> huffsize[j] == 0 && huffcode[j] == 0,
            decreases count - j,
        {
            proof {
                lemma_size_from(bits@, k as nat, len as nat, 1);
                assert(nth_size(bits@, k as nat) == len);
                assert(nth_code(bits@, k as nat) == code);
            }
            let ghost sizes = huffsize@;
            let ghost codes = huffcode@;
            huffsize[k] = len as u8;
            huffcode[k] = code as u16;
            proof {
                assert forall|i: int| 0 <= i < k + 1 implies huffsize[i] == nth_size(
                    bits@,
                    i as nat,
                ) && huffcode[i] == nth_code(bits@, i as nat) && 1 <= #[trigger] huffsize[i]
                    <= 16 by {
                    if i < k {
                        assert(huffsize[i] == sizes[i]);
                        assert(huffcode[i] == codes[i]);
                    }
                }
            }
            code += 1;
            k += 1;
            j += 1;
        }
        code = code * 2;
        len += 1;
    }
    (huffsize, huffcode)
}


/// The space that a table specification uses at length 16, written out:
/// a word of length `l` takes `2^(16 - l)`.
pub proof fn lemma_code_space_16(bits: Seq<u8>)
    requires
        bits.len() == 16,
    ensures
        code_space(bits_hist(bits), 16) == 32768 * bits[0] + 16384 * bits[1] + 8192 * bits[2] + 4096
            * bits[3] + 2048 * bits[4] + 1024 * bits[5] + 512 * bits[6] + 256 * bits[7] + 128
            * bits[8] + 64 * bits[9] + 32 * bits[10] + 16 * bits[11] + 8 * bits[12] + 4 * bits[13]
            + 2 * bits[14] + bits[15],
{
    let h = bits_hist(bits);
    assert(code_space(h, 0) == 0);
    assert(code_space(h, 1) == 2 * code_space(h, 0) + bits[0]);
    assert(code_space(h, 2) == 2 * code_space(h, 1) + bits[1]);
    assert(code_space(h, 3) == 2 * code_space(h, 2) + bits[2]);
    assert(code_space(h, 4) == 2 * code_space(h, 3) + bits[3]);
    assert(code_space(h, 5) == 2 * code_space(h, 4) + bits[4]);
    assert(code_space(h, 6) == 2 * code_space(h, 5) + bits[5]);
    assert(code_space(h, 7) == 2 * code_space(h, 6) + bits[6]);
    assert(code_space(h, 8) == 2 * code_space(h, 7) + bits[7]);
    assert(code_space(h, 9) == 2 * code_space(h, 8) + bits[8]);
    assert(code_space(h, 10) == 2 * code_space(h, 9) + bits[9]);
    assert(code_space(h, 11) == 2 * code_space(h, 10) + bits[10]);
    assert(code_space(h, 12) == 2 * code_space(h, 11) + bits[11]);
    assert(code_space(h, 13) == 2 * code_space(h, 12) + bits[12]);
    assert(code_space(h, 14) == 2 * code_space(h, 13) + bits[13]);
    assert(code_space(h, 15) == 2 * code_space(h, 14) + bits[14]);
    assert(code_space(h, 16) == 2 * code_space(h, 15) + bits[15]);
}

/// The number of code words of a table specification, written out.
pub proof fn lemma_codes_upto_16(bits: Seq<u8>)
    requires
        bits.len() == 16,
    ensures
        codes_upto(bits, 16) == bits[0] + bits[1] + bits[2] + bits[3] + bits[4] + bits[5] + bits[6]
            + bits[7] + bits[8] + bits[9] + bits[10] + bits[11] + bits[12] + bits[13] + bits[14]
            + bits[15],
{
    let h = bits_hist(bits);
    assert(codes_upto(bits, 0) == 0);
    assert(codes_upto(bits, 1) == codes_upto(bits, 0) + bits[0]);
    assert(codes_upto(bits, 2) == codes_upto(bits, 1) + bits[1]);
    assert(codes_upto(bits, 3) == codes_upto(bits, 2) + bits[2]);
    assert(codes_upto(bits, 4) == codes_upto(bits, 3) + bits[3]);
    assert(codes_upto(bits, 5) == codes_upto(bits, 4) + bits[4]);
    assert(codes_upto(bits, 6) == codes_upto(bits, 5) + bits[5]);
    assert(codes_upto(bits, 7) == codes_upto(bits, 6) + bits[6]);
    assert(codes_upto(bits, 8) == codes_upto(bits, 7) + bits[7]);
    assert(codes_upto(bits, 9) == codes_upto(bits, 8) + bits[8]);
    assert(codes_upto(bits, 10) == codes_upto(bits, 9) + bits[9]);
    assert(codes_upto(bits, 11) == codes_upto(bits, 10) + bits[10]);
    assert(codes_upto(bits, 12) == codes_upto(bits, 11) + bits[11]);
    assert(codes_upto(bits, 13) == codes_upto(bits, 12) + bits[12]);
    assert(codes_upto(bits, 14) == codes_upto(bits, 13) + bits[13]);
    assert(codes_upto(bits, 15) == codes_upto(bits, 14) + bits[14]);
    assert(codes_upto(bits, 16) == codes_upto(bits, 15) + bits[15]);
}

/// Builds the encoder's table from a table specification: for each value
/// the length of its code word and the word; the length 17 for a value that
/// has none.
pub fn build_huff_lut(bits: &[u8], huffval: &[u8]) -> (lut: Vec<(u8, u16)>)
    requires
        bits.len() == 16,
        huffval.len() == codes_upto(bits@, 16),
        huffval.len() <= 256,
        fits(bits_hist(bits@), 16),
    ensures
        lut.len() == 256,
        forall|v: int|
            0 <= v < 256 ==> #[trigger] lut[v] == lut_entry(
                bits@,
                huffval@,
                v,
                huffval.len() as nat,
            ),
        forall|k: int| 0 <= k < huffval.len() ==> 1 <= lut[#[trigger] huffval[k] as int].0 <= 16,
{
    let mut lut: Vec<(u8, u16)> = Vec::new();
    let mut i: usize = 0;
    while i < 256
        invariant
            i <= 256,
            lut.len() == i,
            forall|v: int| 0 <= v < i ==> lut[v] == (17u8, 0u16),
        decreases 256 - i,
    {
        lut.push((17u8, 0u16));
        i += 1;
    }
    let (huffsize, huffcode): (Vec<u8>, Vec<u16>) = derive_codes_and_sizes(bits);
    i = 0;
    while i < huffval.len()
        invariant
            i <= huffval.len(),
            huffval.len() == codes_upto(bits@, 16),
            huffval.len() <= 256,
            lut.len() == 256,
            huffsize.len() == 256,
            huffcode.len() == 256,
            forall|k: int|
                0 <= k < codes_upto(bits@, 16) ==> huffsize[k] == nth_size(bits@, k as nat)
                    && huffcode[k] == nth_code(bits@, k as nat) && 1 <= #[trigger] huffsize[k]
                    <= 16,
            forall|v: int|
                0 <= v < 256 ==> #[trigger] lut[v] == lut_entry(bits@, huffval@, v, i as nat),
            forall|k: int| 0 <= k < i ==> 1 <= lut[#[trigger] huffval[k] as int].0 <= 16,
        decreases huffval.len() - i,
    {
        let v: u8 = huffval[i];
        let ghost before = lut@;
        assert(1 <= huffsize[i as int] <= 16);
        lut[v as usize] = (huffsize[i], huffcode[i]);
        proof {
            assert forall|k: int| 0 <= k < i + 1 implies 1 <= lut[#[trigger] huffval[k] as int].0
                <= 16 by {
                if huffval[k] != v {
                    assert(lut[huffval[k] as int] == before[huffval[k] as int]);
                }
            }
        }
        i += 1;
    }
    lut
}

} // verus!
