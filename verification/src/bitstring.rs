//! Bit strings written most-significant bit first, and the byte stuffing of
//! JPEG entropy-coded data.

use crate::bitmath::{lemma_div_pow2_twice, lemma_mod_pow2_split, lemma_pow2_sum, lemma_pow2_values};
use vstd::arithmetic::div_mod::*;
use vstd::arithmetic::power2::*;
use vstd::prelude::*;

verus! {

/// The number that the bits spell, the first bit most significant.
pub open spec fn value_of(s: Seq<bool>) -> nat
    decreases s.len(),
{
    if s.len() == 0 {
        0
    } else {
        2 * value_of(s.drop_last()) + if s.last() {
            1nat
        } else {
            0nat
        }
    }
}

/// The low `n` bits of `v`, the most significant of them first.
pub open spec fn msb_bits(v: nat, n: nat) -> Seq<bool> {
    Seq::new(n, |i: int| (v / pow2((n - 1 - i) as nat)) % 2 == 1)
}

/// `bits` with the low `size` bits of `value` after them.
pub open spec fn put(bits: Seq<bool>, value: nat, size: nat) -> Seq<bool> {
    bits + msb_bits(value, size)
}

/// Byte `k` of a bit string: its bits `8k` to `8k + 7`.
pub open spec fn byte_at(bits: Seq<bool>, k: int) -> u8 {
    value_of(bits.subrange(8 * k, 8 * k + 8)) as u8
}

/// The first `k` bytes of a bit string.
pub open spec fn bytes_of(bits: Seq<bool>, k: nat) -> Seq<u8> {
    Seq::new(k, |i: int| byte_at(bits, i))
}

/// The whole bytes of a bit string; up to seven bits at its end are left
/// out.
pub open spec fn pack(bits: Seq<bool>) -> Seq<u8> {
    bytes_of(bits, bits.len() / 8)
}

/// The bytes with a zero byte after each `0xFF`.
pub open spec fn stuff(bytes: Seq<u8>) -> Seq<u8>
    decreases bytes.len(),
{
    if bytes.len() == 0 {
        Seq::empty()
    } else if bytes.last() == 0xFF {
        stuff(bytes.drop_last()).push(0xFF).push(0x00)
    } else {
        stuff(bytes.drop_last()).push(bytes.last())
    }
}

/// Every `0xFF` in `s` is followed by a zero byte.
pub open spec fn stuffed(s: Seq<u8>) -> bool {
    forall|i: int|
        0 <= i < s.len() && #[trigger] s[i] == 0xFF ==> i + 1 < s.len() && s[i + 1] == 0x00
}

/// In stuffed data every `0xFF` is followed by a zero byte, so no marker can
/// be read out of it.
pub proof fn lemma_stuff_is_stuffed(bytes: Seq<u8>)
    ensures
        stuffed(stuff(bytes)),
    decreases bytes.len(),
{
    if bytes.len() > 0 {
        lemma_stuff_is_stuffed(bytes.drop_last());
        let prev = stuff(bytes.drop_last());
        let s = stuff(bytes);
        assert forall|i: int| 0 <= i < s.len() && #[trigger] s[i] == 0xFF implies i + 1 < s.len()
            && s[i + 1] == 0x00 by {
            if i < prev.len() {
                assert(prev[i] == 0xFF);
                assert(s[i + 1] == prev[i + 1]);
            }
        }
    }
}

pub proof fn lemma_value_of_bound(s: Seq<bool>)
    ensures
        value_of(s) < pow2(s.len()),
    decreases s.len(),
{
    lemma_pow2_values();
    if s.len() > 0 {
        lemma_value_of_bound(s.drop_last());
        lemma_pow2_sum((s.len() - 1) as nat, 1);
        assert((s.len() - 1) as nat + 1 == s.len());
    }
}

/// The value of two bit strings in a row.
pub proof fn lemma_value_of_concat(a: Seq<bool>, b: Seq<bool>)
    ensures
        value_of(a + b) == value_of(a) * pow2(b.len()) + value_of(b),
    decreases b.len(),
{
    lemma_pow2_values();
    if b.len() == 0 {
        assert(a + b =~= a);
        assert(value_of(a) * pow2(0) == value_of(a)) by (nonlinear_arith)
            requires
                pow2(0) == 1,
        ;
    } else {
        let b1 = b.drop_last();
        assert((a + b).drop_last() =~= a + b1);
        lemma_value_of_concat(a, b1);
        lemma_pow2_sum(b1.len(), 1);
        assert(b1.len() + 1 == b.len());
        let va = value_of(a) as int;
        let p = pow2(b1.len()) as int;
        assert(2 * (va * p) == va * (p * 2)) by (nonlinear_arith);
    }
}

/// The bits of a number spell its low bits.
pub proof fn lemma_value_of_msb_bits(v: nat, n: nat)
    ensures
        value_of(msb_bits(v, n)) == v % pow2(n),
    decreases n,
{
    lemma_pow2_values();
    if n == 0 {
    } else {
        let n1 = (n - 1) as nat;
        let m = msb_bits(v, n);
        assert(m.drop_last() =~= msb_bits(v / 2, n1)) by {
            assert forall|i: int| 0 <= i < n1 implies m[i] == msb_bits(v / 2, n1)[i] by {
                let e = (n1 - 1 - i) as nat;
                lemma_div_pow2_twice(v as int, 1, e);
                assert(1 + e == (n - 1 - i) as nat);
            }
        }
        lemma_value_of_msb_bits(v / 2, n1);
        assert(m.last() == (v % 2 == 1)) by {
            assert(m.last() == m[n - 1]);
            assert((n - 1 - (n - 1)) as nat == 0);
            assert(v / pow2(0) == v);
        }
        lemma_mod_pow2_split(v as int, 1, n1);
        assert(1 + n1 == n);
    }
}

/// A bit string of at least eight bits starts with its first byte: the value
/// splits into that byte and the value of the rest.
pub proof fn lemma_value_of_first_byte(s: Seq<bool>)
    requires
        s.len() >= 8,
    ensures
        value_of(s) == value_of(s.take(8)) * pow2((s.len() - 8) as nat) + value_of(s.skip(8)),
        value_of(s.skip(8)) < pow2((s.len() - 8) as nat),
        value_of(s.take(8)) < 256,
{
    lemma_pow2_values();
    assert(s =~= s.take(8) + s.skip(8));
    lemma_value_of_concat(s.take(8), s.skip(8));
    lemma_value_of_bound(s.skip(8));
    lemma_value_of_bound(s.take(8));
}

} // verus!
