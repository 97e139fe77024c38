//! What a DEFLATE stream means.
//!
//! The functions here read a stream as the format defines it, with no lookup
//! table and no accumulator: a position in the input, counted in bits, and
//! the output so far go in, the output and the position after a block come
//! out. The inflater is verified against them.

use crate::bitmath::{lemma_div_pow2_twice, lemma_pow2_values};
use crate::deflate::{bit_len, bits_at, lemma_bits_at_split, read_field};
use crate::error::ImageError;
use crate::huffman::{
    canonical_decode, code_of, lemma_canonical_decode, rev_bits, valid_lengths, word_matches,
};
use vstd::arithmetic::power2::pow2;
use vstd::prelude::*;

verus! {

/// The order in which a dynamic block lists the lengths of the code-length
/// code.
pub const CODEORDER: [u8; 19] = [16, 17, 18, 0, 8, 7, 9, 6, 10, 5, 11, 4, 12, 3, 13, 2, 14, 1, 15];

/// The base match length of each length symbol, from 257 on.
pub const LENGTHS: [u16; 29] = [
    3, 4, 5, 6, 7, 8, 9, 10, 11, 13, 15, 17, 19, 23, 27, 31, 35, 43, 51, 59, 67, 83, 99, 115, 131,
    163, 195, 227, 258,
];

/// The number of extra bits after each length symbol.
pub const EXTRA_LENGTHS: [u8; 29] = [
    0, 0, 0, 0, 0, 0, 0, 0, 1, 1, 1, 1, 2, 2, 2, 2, 3, 3, 3, 3, 4, 4, 4, 4, 5, 5, 5, 5, 0,
];

/// The base distance of each distance symbol.
pub const DISTANCES: [u16; 30] = [
    1, 2, 3, 4, 5, 7, 9, 13, 17, 25, 33, 49, 65, 97, 129, 193, 257, 385, 513, 769, 1025, 1537,
    2049, 3073, 4097, 6145, 8193, 12289, 16385, 24577,
];

/// The number of extra bits after each distance symbol.
pub const EXTRA_DISTANCES: [u8; 30] = [
    0, 0, 0, 0, 1, 1, 2, 2, 3, 3, 4, 4, 5, 5, 6, 6, 7, 7, 8, 8, 9, 9, 10, 10, 11, 11, 12, 12, 13,
    13,
];

/// How decoding a block, or the data of one, ends.
pub ghost enum Decoded {
    /// The block was complete: the output after it and the position of the
    /// bit that follows it.
    Complete { out: Seq<u8>, pos: nat },
    /// The stream is broken: the output up to there and what is wrong.
    Failed { out: Seq<u8>, err: ImageError },
}

/// What a block holds, as its header says.
pub ghost enum BlockKind {
    /// `len` bytes, stored as they are.
    Stored { len: nat },
    /// Symbols of two canonical codes, given by the lengths of their words:
    /// `ll` for literals and lengths, `d` for distances.
    Compressed { ll: Seq<u8>, d: Seq<u8> },
}

/// Reads one symbol of the code `lengths` at bit `p`: the symbol and the
/// position after its word.
///
/// `NotEnoughData` if no bit is left or the word that the coming bits start
/// (zeros standing in past the end) reaches past the end; `FormatError` if
/// they start no word.
#[verifier::opaque]
pub open spec fn symbol_at(lengths: Seq<u8>, input: Seq<u8>, p: nat) -> Result<
    (int, nat),
    ImageError,
> {
    if p >= bit_len(input) {
        Err(ImageError::NotEnoughData)
    } else {
        match canonical_decode(lengths, bits_at(input, p, 15)) {
            None => Err(ImageError::FormatError),
            Some((s, l)) => if p + l > bit_len(input) {
                Err(ImageError::NotEnoughData)
            } else {
                Ok((s, p + l))
            },
        }
    }
}

/// `out` after a match of `length` bytes at `distance` back, copied byte by
/// byte, so that a match may run into its own copy.
pub open spec fn copy_match(out: Seq<u8>, length: nat, distance: nat) -> Seq<u8>
    decreases length,
{
    if length == 0 || distance == 0 || distance > out.len() {
        out
    } else {
        copy_match(out.push(out[out.len() - distance]), (length - 1) as nat, distance)
    }
}

/// The data of a compressed block from bit `p` on: literals, matches, and
/// the end-of-block symbol.
pub open spec fn compressed_data(
    ll: Seq<u8>,
    d: Seq<u8>,
    input: Seq<u8>,
    p: nat,
    out: Seq<u8>,
) -> Decoded
    decreases bit_len(input) - p,
{
    match symbol_at(ll, input, p) {
        Err(e) => Decoded::Failed { out, err: e },
        Ok((s, pos1)) => if pos1 <= p || pos1 > bit_len(input) {
            Decoded::Failed { out, err: ImageError::FormatError }
        } else if s < 256 {
            compressed_data(ll, d, input, pos1, out.push(s as u8))
        } else if s == 256 {
            Decoded::Complete { out, pos: pos1 }
        } else if s > 285 {
            Decoded::Failed { out, err: ImageError::FormatError }
        } else {
            match match_at(d, input, pos1, s - 257) {
                Err(e) => Decoded::Failed { out, err: e },
                Ok((length, distance, pos2)) => if distance > out.len() || pos2 < pos1 || pos2 > bit_len(
                    input,
                ) {
                    Decoded::Failed { out, err: ImageError::FormatError }
                } else {
                    compressed_data(ll, d, input, pos2, copy_match(out, length, distance))
                },
            }
        },
    }
}

/// What follows a length symbol: the extra bits of the length, the distance
/// symbol, the extra bits of the distance. Gives length, distance and the
/// position after them. `k` is the length symbol less 257.
pub open spec fn match_at(d: Seq<u8>, input: Seq<u8>, p: nat, k: int) -> Result<
    (nat, nat, nat),
    ImageError,
> {
    let nl = EXTRA_LENGTHS[k] as nat;
    match read_field(input, p, nl) {
        Err(e) => Err(e),
        Ok(extra) => match symbol_at(d, input, p + nl) {
            Err(e) => Err(e),
            Ok((ds, pos1)) => if ds > 29 {
                Err(ImageError::FormatError)
            } else {
                let nd = EXTRA_DISTANCES[ds] as nat;
                match read_field(input, pos1, nd) {
                    Err(e) => Err(e),
                    Ok(dextra) => Ok(
                        ((LENGTHS[k] + extra) as nat, (DISTANCES[ds] + dextra) as nat, pos1 + nd),
                    ),
                }
            },
        },
    }
}

/// The data of a stored block whose length field starts at bit `p`, a byte
/// boundary: the length, its complement (which is not checked), and the
/// bytes themselves.
pub open spec fn stored_header(input: Seq<u8>, p: nat) -> Result<(nat, nat), ImageError> {
    match read_field(input, p, 16) {
        Err(e) => Err(e),
        Ok(len) => match read_field(input, p + 16, 16) {
            Err(e) => Err(e),
            Ok(_nlen) => Ok((len as nat, p + 32)),
        },
    }
}

/// `len` stored bytes from bit `p` on, a byte boundary. Where the input ends
/// first, what there is of them is still put out.
pub open spec fn stored_data(input: Seq<u8>, p: nat, out: Seq<u8>, len: nat) -> Decoded {
    let start = (p / 8) as int;
    if start + len <= input.len() {
        Decoded::Complete { out: out + input.subrange(start, start + len), pos: p + 8 * len }
    } else {
        Decoded::Failed {
            out: out + input.subrange(start, input.len() as int),
            err: ImageError::NotEnoughData,
        }
    }
}

/// The lengths of the fixed literal/length code.
pub open spec fn fixed_ll_lengths() -> Seq<u8> {
    Seq::new(
        288,
        |i: int|
            if i < 144 {
                8u8
            } else if i < 256 {
                9u8
            } else if i < 280 {
                7u8
            } else {
                8u8
            },
    )
}

/// The lengths of the fixed distance code.
pub open spec fn fixed_d_lengths() -> Seq<u8> {
    Seq::new(30, |i: int| 5u8)
}

/// The lengths of the code-length code, as the first `hclen` 3-bit fields
/// from bit `p` on give them, each for the symbol that `CODEORDER` names.
pub open spec fn code_length_lengths(input: Seq<u8>, p: nat, hclen: nat) -> Seq<u8>
    decreases hclen,
{
    if hclen == 0 || hclen > 19 {
        Seq::new(19, |i: int| 0u8)
    } else {
        code_length_lengths(input, p, (hclen - 1) as nat).update(
            CODEORDER[hclen - 1] as int,
            bits_at(input, (p + 3 * (hclen - 1)) as nat, 3) as u8,
        )
    }
}

/// `lens` with `count` more lengths `v`, as long as that stays within
/// `total`.
pub open spec fn with_run(lens: Seq<u8>, v: u8, count: nat, total: nat) -> Result<
    Seq<u8>,
    ImageError,
> {
    if lens.len() + count > total {
        Err(ImageError::FormatError)
    } else {
        Ok(lens + Seq::new(count, |i: int| v))
    }
}

/// The code lengths of a dynamic block, read with the code-length code `cl`
/// from bit `p` on until there are `total` of them; `lens` holds those read
/// so far.
///
/// Symbols up to 15 are lengths; 16 repeats the last length 3 to 6 times, 17
/// and 18 give 3 to 10 and 11 to 138 zeros. A repeat with nothing before it,
/// or a run past `total`, is a `FormatError`.
pub open spec fn code_lengths(
    cl: Seq<u8>,
    input: Seq<u8>,
    p: nat,
    lens: Seq<u8>,
    total: nat,
) -> Result<(Seq<u8>, nat), ImageError>
    decreases bit_len(input) - p,
{
    if lens.len() >= total {
        Ok((lens, p))
    } else {
        match symbol_at(cl, input, p) {
            Err(e) => Err(e),
            Ok((s, pos1)) => if pos1 <= p || pos1 > bit_len(input) || s > 18 {
                Err(ImageError::FormatError)
            } else if s <= 15 {
                code_lengths(cl, input, pos1, lens.push(s as u8), total)
            } else if s == 16 && lens.len() == 0 {
                Err(ImageError::FormatError)
            } else {
                let n: nat = if s == 16 {
                    2
                } else if s == 17 {
                    3
                } else {
                    7
                };
                match read_field(input, pos1, n) {
                    Err(e) => Err(e),
                    Ok(x) => {
                        let count = if s == 18 {
                            (11 + x) as nat
                        } else {
                            (3 + x) as nat
                        };
                        let v = if s == 16 {
                            lens.last()
                        } else {
                            0u8
                        };
                        match with_run(lens, v, count, total) {
                            Err(e) => Err(e),
                            Ok(more) => code_lengths(cl, input, pos1 + n, more, total),
                        }
                    },
                }
            },
        }
    }
}

/// The header of a dynamic block at bit `p`: the lengths of its two codes
/// and the position of its data.
pub open spec fn dynamic_header(input: Seq<u8>, p: nat) -> Result<
    (Seq<u8>, Seq<u8>, nat),
    ImageError,
> {
    match read_field(input, p, 5) {
        Err(e) => Err(e),
        Ok(a) => match read_field(input, p + 5, 5) {
            Err(e) => Err(e),
            Ok(b) => match read_field(input, p + 10, 4) {
                Err(e) => Err(e),
                Ok(c) => {
                    let hlit = (a + 257) as nat;
                    let hdist = (b + 1) as nat;
                    let hclen = (c + 4) as nat;
                    let cl = code_length_lengths(input, p + 14, hclen);
                    if p + 14 + 3 * hclen > bit_len(input) {
                        Err(ImageError::NotEnoughData)
                    } else if !valid_lengths(cl) {
                        Err(ImageError::FormatError)
                    } else {
                        match code_lengths(
                            cl,
                            input,
                            p + 14 + 3 * hclen,
                            Seq::empty(),
                            hlit + hdist,
                        ) {
                            Err(e) => Err(e),
                            Ok((lens, pos2)) => {
                                let ll = lens.take(hlit as int);
                                let d = lens.skip(hlit as int);
                                if valid_lengths(ll) && valid_lengths(d) {
                                    Ok((ll, d, pos2))
                                } else {
                                    Err(ImageError::FormatError)
                                }
                            },
                        }
                    }
                },
            },
        },
    }
}

/// The first bit after `p` that starts a byte, `p` itself if it does.
pub open spec fn align_up(p: nat) -> nat {
    ((p + 7) / 8 * 8) as nat
}

/// The header of the block at bit `p`: whether it is the last block, what
/// it holds, and where its data starts. Block type 3 is a `FormatError`.
pub open spec fn block_header(input: Seq<u8>, p: nat) -> Result<(bool, BlockKind, nat), ImageError> {
    match read_field(input, p, 1) {
        Err(e) => Err(e),
        Ok(last) => match read_field(input, p + 1, 2) {
            Err(e) => Err(e),
            Ok(btype) => if btype == 0 {
                match stored_header(input, align_up(p + 3)) {
                    Err(e) => Err(e),
                    Ok((len, pos1)) => Ok((last == 1, BlockKind::Stored { len }, pos1)),
                }
            } else if btype == 1 {
                Ok(
                    (
                        last == 1,
                        BlockKind::Compressed { ll: fixed_ll_lengths(), d: fixed_d_lengths() },
                        p + 3,
                    ),
                )
            } else if btype == 2 {
                match dynamic_header(input, p + 3) {
                    Err(e) => Err(e),
                    Ok((ll, d, pos1)) => Ok((last == 1, BlockKind::Compressed { ll, d }, pos1)),
                }
            } else {
                Err(ImageError::FormatError)
            },
        },
    }
}

/// The data of a block of kind `kind` from bit `p` on.
pub open spec fn block_data(kind: BlockKind, input: Seq<u8>, p: nat, out: Seq<u8>) -> Decoded {
    match kind {
        BlockKind::Stored { len } => stored_data(input, p, out, len),
        BlockKind::Compressed { ll, d } => compressed_data(ll, d, input, p, out),
    }
}

/// The block at bit `p`, header and data: whether it is the last block, and
/// how decoding it ends when `out` is the output before it.
pub open spec fn inflate_block(input: Seq<u8>, p: nat, out: Seq<u8>) -> (bool, Decoded) {
    match block_header(input, p) {
        Err(e) => (false, Decoded::Failed { out, err: e }),
        Ok((last, kind, pos1)) => (last, block_data(kind, input, pos1, out)),
    }
}


/// The stream holds the code word `code` of `len` bits at bit `p`, written
/// as an encoder writes it: the most significant bit of the word first.
pub open spec fn word_written(input: Seq<u8>, p: nat, code: nat, len: nat) -> bool {
    &&& p + len <= bit_len(input)
    &&& forall|i: nat|
        i < len ==> #[trigger] bits_at(input, p + i, 1) == (code / pow2((len - 1 - i) as nat)) % 2
}

/// The stream holds at bit `p` the code words of the symbols `syms`, one
/// after the other, in the code `lengths`.
pub open spec fn words_written(lengths: Seq<u8>, input: Seq<u8>, p: nat, syms: Seq<int>) -> bool
    decreases syms.len(),
{
    if syms.len() == 0 {
        true
    } else {
        let s = syms[0];
        &&& 0 <= s < lengths.len()
        &&& lengths[s] > 0
        &&& word_written(input, p, code_of(lengths, s), lengths[s] as nat)
        &&& words_written(lengths, input, p + lengths[s] as nat, syms.drop_first())
    }
}

/// The next `n` symbols of the code `lengths` from bit `p` on, and the
/// position after them; `None` if one of them cannot be read.
pub open spec fn symbols_at(lengths: Seq<u8>, input: Seq<u8>, p: nat, n: nat) -> Option<
    (Seq<int>, nat),
>
    decreases n,
{
    if n == 0 {
        Some((Seq::empty(), p))
    } else {
        match symbol_at(lengths, input, p) {
            Err(_) => None,
            Ok((s, pos1)) => match symbols_at(lengths, input, pos1, (n - 1) as nat) {
                None => None,
                Some((rest, pos2)) => Some((seq![s] + rest, pos2)),
            },
        }
    }
}

/// A word written most significant bit first reads, as a field of the
/// stream, as the word with its bits reversed.
pub proof fn lemma_word_written(input: Seq<u8>, p: nat, code: nat, len: nat)
    requires
        word_written(input, p, code, len),
    ensures
        bits_at(input, p, len) == rev_bits(code, len),
    decreases len,
{
    lemma_pow2_values();
    if len == 0 {
        lemma_bits_at_split(input, p, 0, 0);
    } else {
        let n1 = (len - 1) as nat;
        // the first len - 1 bits spell code / 2
        assert(word_written(input, p, code / 2, n1)) by {
            assert forall|i: nat| i < n1 implies #[trigger] bits_at(input, p + i, 1) == (code / 2
                / pow2((n1 - 1 - i) as nat)) % 2 by {
                let e = (n1 - 1 - i) as nat;
                lemma_div_pow2_twice(code as int, 1, e);
                assert(1 + e == (len - 1 - i) as nat);
                assert(bits_at(input, p + i, 1) == (code / pow2((len - 1 - i) as nat)) % 2);
            }
        }
        lemma_word_written(input, p, code / 2, n1);
        // the last bit is the least significant bit of the word
        assert(bits_at(input, p + n1, 1) == (code / pow2((len - 1 - n1) as nat)) % 2);
        assert((len - 1 - n1) as nat == 0);
        assert(code / pow2(0) == code);
        lemma_bits_at_split(input, p, n1, 1);
        assert(n1 + 1 == len);
        vstd::arithmetic::mul::lemma_mul_is_commutative(
            pow2(n1) as int,
            bits_at(input, p + n1, 1) as int,
        );
    }
}

/// A decoder reads back what an encoder wrote: where the stream holds the
/// code words of the symbols `syms` of a valid code, reading that many
/// symbols gives `syms`, whatever follows them in the stream.
pub proof fn lemma_code_round_trip(lengths: Seq<u8>, input: Seq<u8>, p: nat, syms: Seq<int>)
    requires
        valid_lengths(lengths),
        words_written(lengths, input, p, syms),
    ensures
        symbols_at(lengths, input, p, syms.len()) is Some,
        symbols_at(lengths, input, p, syms.len())->Some_0.0 == syms,
    decreases syms.len(),
{
    if syms.len() > 0 {
        let s = syms[0];
        let len = lengths[s] as nat;
        lemma_symbol_written(lengths, input, p, s);
        lemma_code_round_trip(lengths, input, p + len, syms.drop_first());
        let rest = symbols_at(lengths, input, p + len, (syms.len() - 1) as nat)->Some_0.0;
        assert(seq![s] + rest =~= syms);
    } else {
        assert(syms =~= Seq::<int>::empty());
    }
}

/// Where the stream holds the code word of `s`, the symbol read there is
/// `s`.
pub proof fn lemma_symbol_written(lengths: Seq<u8>, input: Seq<u8>, p: nat, s: int)
    requires
        valid_lengths(lengths),
        0 <= s < lengths.len(),
        lengths[s] > 0,
        word_written(input, p, code_of(lengths, s), lengths[s] as nat),
    ensures
        symbol_at(lengths, input, p) == Ok::<(int, nat), ImageError>((s, p + lengths[s] as nat)),
{
    reveal(symbol_at);
    let len = lengths[s] as nat;
    let w = bits_at(input, p, 15);
    lemma_word_written(input, p, code_of(lengths, s), len);
    lemma_bits_at_split(input, p, len, (15 - len) as nat);
    assert(len + (15 - len) as nat == 15);
    assert(word_matches(lengths, s, w));
    lemma_canonical_decode(lengths, s, w);
}

/// A match copies what is `distance` bytes back, byte by byte: the output
/// grows by `length` bytes, what was there stays, and each new byte is the
/// byte `distance` places before it, which may be one of the new bytes.
pub proof fn lemma_copy_match(out: Seq<u8>, length: nat, distance: nat)
    requires
        1 <= distance <= out.len(),
    ensures
        copy_match(out, length, distance).len() == out.len() + length,
        forall|j: int| 0 <= j < out.len() ==> #[trigger] copy_match(out, length, distance)[j] == out[j],
        forall|i: int|
            0 <= i < length ==> #[trigger] copy_match(out, length, distance)[out.len() + i]
                == copy_match(out, length, distance)[out.len() + i - distance],
    decreases length,
{
    if length > 0 {
        let next = out.push(out[out.len() - distance]);
        lemma_copy_match(next, (length - 1) as nat, distance);
        let r = copy_match(out, length, distance);
        assert(r == copy_match(next, (length - 1) as nat, distance));
        assert forall|j: int| 0 <= j < out.len() implies #[trigger] r[j] == out[j] by {
            assert(r[j] == next[j]);
        }
        assert forall|i: int| 0 <= i < length implies #[trigger] r[out.len() + i] == r[out.len()
            + i - distance] by {
            if i == 0 {
                assert(r[out.len() as int] == next[out.len() as int]);
                assert(r[out.len() - distance] == next[out.len() - distance]);
            } else {
                assert(r[next.len() + (i - 1)] == r[next.len() + (i - 1) - distance]);
            }
        }
    }
}

} // verus!
