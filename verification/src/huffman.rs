//! Canonical Huffman codes, as mathematics.
//!
//! A canonical code is fixed by how many code words there are of each length.
//! Words of one length are consecutive numbers; the first word of a length
//! follows from the shorter lengths by `first = (first' + count') * 2`. Both
//! codecs of this crate use such codes: DEFLATE gives the length of each
//! symbol's word, JPEG gives the count for each length and the symbols in the
//! order of their words.

use crate::bitmath::{
    lemma_div_pow2_twice, lemma_mod_pow2_div, lemma_pow2_sum, lemma_pow2_values,
    lemma_small_div_pow2,
};
use vstd::arithmetic::div_mod::*;
use vstd::arithmetic::mul::*;
use vstd::arithmetic::power2::*;
use vstd::prelude::*;

verus! {

/// The number of code words of length `len` in the histogram `hist`, which
/// is indexed by length. There is no word of length zero.
pub open spec fn hist_at(hist: Seq<nat>, len: nat) -> nat {
    if 0 < len < hist.len() {
        hist[len as int]
    } else {
        0
    }
}

/// The first (smallest) code word of length `len`.
pub open spec fn first_code(hist: Seq<nat>, len: nat) -> nat
    decreases len,
{
    if len == 0 {
        0
    } else {
        2 * (first_code(hist, (len - 1) as nat) + hist_at(hist, (len - 1) as nat))
    }
}

/// One more than the last code word of length `len`: how much of the
/// `2^len` words of that length the code has used up, the shorter words
/// counted with all their extensions.
pub open spec fn code_space(hist: Seq<nat>, len: nat) -> nat {
    first_code(hist, len) + hist_at(hist, len)
}

/// The code is not over-subscribed: its words of up to `max_len` bits fit
/// into the `2^max_len` words there are (Kraft's inequality).
pub open spec fn fits(hist: Seq<nat>, max_len: nat) -> bool {
    code_space(hist, max_len) <= pow2(max_len)
}

/// The space used at a longer length is at least the space used at a
/// shorter one, scaled.
pub proof fn lemma_code_space_grows(hist: Seq<nat>, a: nat, b: nat)
    requires
        a <= b,
    ensures
        code_space(hist, b) >= pow2((b - a) as nat) * code_space(hist, a),
        a < b ==> first_code(hist, b) >= pow2((b - a) as nat) * code_space(hist, a),
    decreases b - a,
{
    lemma_pow2_values();
    let sa = code_space(hist, a) as int;
    if a == b {
        assert(pow2(0) * sa == sa) by (nonlinear_arith)
            requires
                pow2(0) == 1,
        ;
    } else {
        let b1 = (b - 1) as nat;
        lemma_code_space_grows(hist, a, b1);
        let e = (b1 - a) as nat;
        lemma_pow2_sum(e, 1);
        assert((b - a) as nat == e + 1);
        let sb1 = code_space(hist, b1) as int;
        assert(sb1 >= pow2(e) * sa);
        assert(first_code(hist, b) == 2 * sb1);
        assert(2 * sb1 >= pow2(e + 1) * sa) by (nonlinear_arith)
            requires
                sb1 >= pow2(e) * sa,
                pow2(e + 1) == pow2(e) * 2,
        ;
    }
}

/// In a code that fits, the words of every length are below `2^len`.
pub proof fn lemma_fits_each_length(hist: Seq<nat>, max_len: nat, len: nat)
    requires
        fits(hist, max_len),
        len <= max_len,
    ensures
        code_space(hist, len) <= pow2(len),
{
    lemma_code_space_grows(hist, len, max_len);
    let e = (max_len - len) as nat;
    lemma_pow2_sum(e, len);
    assert(e + len == max_len);
    let s = code_space(hist, len) as int;
    assert(s <= pow2(len)) by (nonlinear_arith)
        requires
            pow2(e) * s <= pow2(e) * pow2(len),
            pow2(e) > 0,
    ;
}

/// `c`, read as a word of `n` bits, with its bits in the opposite order.
pub open spec fn rev_bits(c: nat, n: nat) -> nat
    decreases n,
{
    if n == 0 {
        0
    } else {
        (c % 2) * pow2((n - 1) as nat) + rev_bits(c / 2, (n - 1) as nat)
    }
}

pub proof fn lemma_rev_bits_bound(c: nat, n: nat)
    ensures
        rev_bits(c, n) < pow2(n),
    decreases n,
{
    lemma_pow2_values();
    if n > 0 {
        lemma_rev_bits_bound(c / 2, (n - 1) as nat);
        lemma_pow2_sum((n - 1) as nat, 1);
        assert((n - 1) as nat + 1 == n);
        let p = pow2((n - 1) as nat) as int;
        assert((c % 2) * p <= p) by (nonlinear_arith)
            requires
                0 <= c % 2 <= 1,
                p > 0,
        ;
    }
}

/// The low `m` bits of a reversed `n`-bit word are the reversed top `m`
/// bits of the word.
pub proof fn lemma_rev_bits_low(c: nat, n: nat, m: nat)
    requires
        m <= n,
    ensures
        rev_bits(c, n) % pow2(m) == rev_bits(c / pow2((n - m) as nat), m),
    decreases n,
{
    lemma_pow2_values();
    if m == n {
        lemma_rev_bits_bound(c, n);
        lemma_small_div_pow2(rev_bits(c, n) as int, n);
        assert(c / pow2(0) == c);
    } else {
        let k = (n - 1) as nat;
        let e = (k - m) as nat;
        lemma_rev_bits_low(c / 2, k, m);
        lemma_rev_bits_bound(c / 2, k);
        // 2^k is a multiple of 2^m
        lemma_pow2_sum(m, e);
        assert(m + e == k);
        let hi = ((c % 2) * pow2(k)) as int;
        let lo = rev_bits(c / 2, k) as int;
        let q = ((c % 2) * pow2(e)) as int;
        assert(rev_bits(c, n) == hi + lo);
        assert(hi == pow2(m) * q) by (nonlinear_arith)
            requires
                hi == (c % 2) * pow2(k),
                q == (c % 2) * pow2(e),
                pow2(k) == pow2(m) * pow2(e),
        ;
        lemma_pow2_pos(m);
        lemma_mod_multiples_vanish(q, lo, pow2(m) as int);
        assert((hi + lo) % pow2(m) as int == lo % pow2(m) as int);
        // (c / 2) / 2^(k - m) == c / 2^(n - m)
        lemma_div_pow2_twice(c as int, 1, e);
        assert(1 + e == (n - m) as nat);
        assert((c / 2) / pow2(e) == c / pow2((n - m) as nat));
    }
}

/// Reversal loses nothing: two `n`-bit words with the same reversal are the
/// same word.
pub proof fn lemma_rev_bits_injective(c: nat, d: nat, n: nat)
    requires
        c < pow2(n),
        d < pow2(n),
        rev_bits(c, n) == rev_bits(d, n),
    ensures
        c == d,
    decreases n,
{
    lemma_pow2_values();
    if n > 0 {
        let k = (n - 1) as nat;
        lemma_pow2_sum(k, 1);
        assert(k + 1 == n);
        lemma_rev_bits_bound(c / 2, k);
        lemma_rev_bits_bound(d / 2, k);
        let p = pow2(k) as int;
        let rc = rev_bits(c / 2, k) as int;
        let rd = rev_bits(d / 2, k) as int;
        assert(c % 2 == d % 2 && rc == rd) by (nonlinear_arith)
            requires
                (c % 2) * p + rc == (d % 2) * p + rd,
                0 <= rc < p,
                0 <= rd < p,
                0 <= c % 2 <= 1,
                0 <= d % 2 <= 1,
        ;
        lemma_rev_bits_injective(c / 2, d / 2, k);
    }
}

/// A word that was below `2^m` keeps its reversal, shifted, when it is read
/// as a longer word.
pub proof fn lemma_rev_bits_widen(c: nat, m: nat, n: nat)
    requires
        c < pow2(m),
        m <= n,
    ensures
        rev_bits(c, n) == rev_bits(c, m) * pow2((n - m) as nat),
    decreases m,
{
    lemma_pow2_values();
    if m == 0 {
        lemma_rev_bits_zero(n);
        assert(rev_bits(c, 0) * pow2(n) == 0) by (nonlinear_arith)
            requires
                rev_bits(c, 0) == 0,
        ;
    } else {
        let e = (n - m) as nat;
        let m1 = (m - 1) as nat;
        let n1 = (n - 1) as nat;
        lemma_pow2_sum(m1, 1);
        assert(m1 + 1 == m);
        lemma_rev_bits_widen(c / 2, m1, n1);
        lemma_pow2_sum(m1, e);
        assert(m1 + e == n1);
        assert((n1 - m1) as nat == e);
        let a = (c % 2) as int;
        let r = rev_bits(c / 2, m1) as int;
        let pm = pow2(m1) as int;
        let pe = pow2(e) as int;
        assert(rev_bits(c, n) == a * pow2(n1) + rev_bits(c / 2, n1));
        assert(rev_bits(c, m) == a * pm + r);
        assert(rev_bits(c / 2, n1) == r * pe);
        assert(a * (pm * pe) + r * pe == (a * pm + r) * pe) by (nonlinear_arith);
    }
}

pub proof fn lemma_rev_bits_zero(n: nat)
    ensures
        rev_bits(0, n) == 0,
    decreases n,
{
    if n > 0 {
        lemma_rev_bits_zero((n - 1) as nat);
        assert(0nat % 2 == 0);
        assert(0nat / 2 == 0);
        assert((0nat % 2) * pow2((n - 1) as nat) == 0) by (nonlinear_arith);
    }
}


/// How many of the first `n` symbols have a code word of length `len`.
pub open spec fn count_len(lengths: Seq<u8>, len: nat, n: nat) -> nat
    decreases n,
{
    if n == 0 {
        0
    } else {
        count_len(lengths, len, (n - 1) as nat) + if n <= lengths.len() && lengths[n - 1] == len {
            1nat
        } else {
            0nat
        }
    }
}

/// The histogram of a vector of code lengths, for the lengths 0 to 15.
pub open spec fn length_histogram(lengths: Seq<u8>) -> Seq<nat> {
    Seq::new(16, |l: int| count_len(lengths, l as nat, lengths.len()))
}

/// The canonical code word of symbol `s`: the first word of its length, plus
/// the number of smaller symbols with a word of the same length.
pub open spec fn code_of(lengths: Seq<u8>, s: int) -> nat {
    first_code(length_histogram(lengths), lengths[s] as nat) + count_len(
        lengths,
        lengths[s] as nat,
        s as nat,
    )
}

/// The lengths describe a code: none is above 15 and the code is not
/// over-subscribed (Kraft's inequality). An incomplete code is fine.
pub open spec fn valid_lengths(lengths: Seq<u8>) -> bool {
    &&& forall|i: int| 0 <= i < lengths.len() ==> lengths[i] <= 15
    &&& fits(length_histogram(lengths), 15)
}

/// The bit window `w`, whose least significant bit came first, starts with
/// the code word of symbol `s`, most significant bit of the word first.
pub open spec fn word_matches(lengths: Seq<u8>, s: int, w: nat) -> bool {
    &&& 0 <= s < lengths.len()
    &&& lengths[s] > 0
    &&& w % pow2(lengths[s] as nat) == rev_bits(code_of(lengths, s), lengths[s] as nat)
}

/// The symbol that the window `w` starts with and the length of its word, if
/// there is one.
pub open spec fn canonical_decode(lengths: Seq<u8>, w: nat) -> Option<(int, nat)> {
    if exists|s: int| word_matches(lengths, s, w) {
        let s = choose|s: int| word_matches(lengths, s, w);
        Some((s, lengths[s] as nat))
    } else {
        None
    }
}

pub proof fn lemma_count_len_step(lengths: Seq<u8>, len: nat, s: nat, t: nat)
    requires
        s <= t,
    ensures
        count_len(lengths, len, s) <= count_len(lengths, len, t),
        s < t && s < lengths.len() && lengths[s as int] == len ==> count_len(lengths, len, s)
            < count_len(lengths, len, t),
    decreases t - s,
{
    if s < t {
        lemma_count_len_step(lengths, len, s, (t - 1) as nat);
        if s == t - 1 {
        }
    }
}

/// In a valid code the word of a symbol is below the space used at its
/// length, which is at most `2^len`.
pub proof fn lemma_code_bound(lengths: Seq<u8>, s: int)
    requires
        valid_lengths(lengths),
        0 <= s < lengths.len(),
        lengths[s] > 0,
    ensures
        code_of(lengths, s) < code_space(length_histogram(lengths), lengths[s] as nat),
        code_of(lengths, s) < pow2(lengths[s] as nat),
{
    let len = lengths[s] as nat;
    lemma_count_len_step(lengths, len, s as nat, lengths.len());
    lemma_fits_each_length(length_histogram(lengths), 15, len);
}

/// A valid code is prefix-free: no window starts with the words of two
/// symbols.
pub proof fn lemma_prefix_free(lengths: Seq<u8>, s: int, t: int, w: nat)
    requires
        valid_lengths(lengths),
        word_matches(lengths, s, w),
        word_matches(lengths, t, w),
    ensures
        s == t,
{
    if lengths[s] <= lengths[t] {
        lemma_prefix_free_ordered(lengths, s, t, w);
    } else {
        lemma_prefix_free_ordered(lengths, t, s, w);
    }
}

proof fn lemma_prefix_free_ordered(lengths: Seq<u8>, s: int, t: int, w: nat)
    requires
        valid_lengths(lengths),
        word_matches(lengths, s, w),
        word_matches(lengths, t, w),
        lengths[s] <= lengths[t],
    ensures
        s == t,
{
    let hist = length_histogram(lengths);
    let a = lengths[s] as nat;
    let b = lengths[t] as nat;
    let e = (b - a) as nat;
    let cs = code_of(lengths, s);
    let ct = code_of(lengths, t);
    lemma_code_bound(lengths, s);
    lemma_code_bound(lengths, t);
    lemma_pow2_sum(a, e);
    assert(a + e == b);
    // the low a bits of both reversed words are the low a bits of w
    lemma_mod_pow2_div(w as int, a, b);
    lemma_rev_bits_low(ct, b, a);
    let top = ct / pow2(e);
    assert(rev_bits(top, a) == rev_bits(cs, a));
    assert(top < pow2(a)) by {
        lemma_pow2_pos(e);
        lemma_div_pow2_twice(ct as int, e, a);
        assert(e + a == b);
        lemma_small_div_pow2(ct as int, b);
        lemma_fundamental_div_mod(top as int, pow2(a) as int);
        lemma_mod_bound(top as int, pow2(a) as int);
    }
    lemma_rev_bits_injective(top, cs, a);
    assert(top == cs);
    if a == b {
        lemma_pow2_values();
        assert(e == 0);
        assert(pow2(e) == 1);
        assert(top == ct / 1);
        assert(ct == cs);
        if s < t {
            lemma_count_len_step(lengths, a, s as nat, t as nat);
        } else if t < s {
            lemma_count_len_step(lengths, a, t as nat, s as nat);
        }
    } else {
        lemma_code_space_grows(hist, a, b);
        lemma_count_len_step(lengths, a, s as nat, lengths.len());
        let sp = code_space(hist, a) as int;
        let pe = pow2(e) as int;
        assert(ct >= pe * (cs + 1)) by (nonlinear_arith)
            requires
                ct >= pe * sp,
                sp >= cs + 1,
                pe > 0,
        ;
        lemma_pow2_pos(e);
        lemma_fundamental_div_mod(ct as int, pe);
        lemma_mod_bound(ct as int, pe);
        assert(false) by (nonlinear_arith)
            requires
                ct >= pe * (cs + 1),
                ct == pe * (ct as int / pe) + ct as int % pe,
                0 <= ct as int % pe < pe,
                ct as int / pe == cs,
        ;
    }
}

/// In a valid code a window that starts with the word of `s` decodes to
/// `s`, whatever follows the word.
pub proof fn lemma_canonical_decode(lengths: Seq<u8>, s: int, w: nat)
    requires
        valid_lengths(lengths),
        word_matches(lengths, s, w),
    ensures
        canonical_decode(lengths, w) == Some((s, lengths[s] as nat)),
{
    let t = choose|t: int| word_matches(lengths, t, w);
    lemma_prefix_free(lengths, s, t, w);
}


/// How much of the `2^l` words of length `l` a word of length `len` takes
/// up: `2^(l - len)`, and nothing if there is no such word or it is longer.
pub open spec fn weight(len: nat, l: nat) -> nat {
    if 0 < len <= l {
        pow2((l - len) as nat)
    } else {
        0
    }
}

/// The sum of Kraft's inequality, scaled by `2^l`, over the first `n`
/// symbols: each word of length `len <= l` counts `2^(l - len)`.
pub open spec fn kraft_sum(lengths: Seq<u8>, l: nat, n: nat) -> nat
    decreases n,
{
    if n == 0 {
        0
    } else {
        kraft_sum(lengths, l, (n - 1) as nat) + if n <= lengths.len() {
            weight(lengths[n - 1] as nat, l)
        } else {
            0
        }
    }
}

proof fn lemma_kraft_step(lengths: Seq<u8>, l: nat, n: nat)
    requires
        l >= 1,
    ensures
        kraft_sum(lengths, l, n) == 2 * kraft_sum(lengths, (l - 1) as nat, n) + count_len(
            lengths,
            l,
            n,
        ),
    decreases n,
{
    lemma_pow2_values();
    if n > 0 {
        lemma_kraft_step(lengths, l, (n - 1) as nat);
        if n <= lengths.len() {
            let len = lengths[n - 1] as nat;
            if 0 < len < l {
                lemma_pow2_sum((l - 1 - len) as nat, 1);
                assert((l - 1 - len) as nat + 1 == (l - len) as nat);
            } else if len == l {
                assert((l - len) as nat == 0);
            }
        }
    }
}

/// The space that a code uses at length `l` is the sum of Kraft's
/// inequality, scaled by `2^l`, over its words of up to `l` bits.
pub proof fn lemma_code_space_is_kraft_sum(lengths: Seq<u8>, l: nat)
    requires
        l <= 15,
    ensures
        code_space(length_histogram(lengths), l) == kraft_sum(lengths, l, lengths.len()),
    decreases l,
{
    let h = length_histogram(lengths);
    if l == 0 {
        lemma_kraft_zero(lengths, lengths.len());
    } else {
        lemma_code_space_is_kraft_sum(lengths, (l - 1) as nat);
        lemma_kraft_step(lengths, l, lengths.len());
        assert(hist_at(h, l) == count_len(lengths, l, lengths.len()));
    }
}

proof fn lemma_kraft_zero(lengths: Seq<u8>, n: nat)
    ensures
        kraft_sum(lengths, 0, n) == 0,
    decreases n,
{
    if n > 0 {
        lemma_kraft_zero(lengths, (n - 1) as nat);
    }
}

/// The lengths are valid exactly if none is above 15 and they satisfy
/// Kraft's inequality: the sum of `2^(-len)` over all words is at most 1,
/// here scaled by `2^15`.
pub proof fn lemma_valid_is_kraft(lengths: Seq<u8>)
    ensures
        valid_lengths(lengths) <==> (forall|i: int| 0 <= i < lengths.len() ==> lengths[i] <= 15)
            && kraft_sum(lengths, 15, lengths.len()) <= pow2(15),
{
    lemma_code_space_is_kraft_sum(lengths, 15);
}

} // verus!
