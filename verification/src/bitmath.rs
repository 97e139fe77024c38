//! Powers of two: the arithmetic behind every shift and mask in the codecs.
//!
//! The bit-level code of this crate is specified over `int` with `/`, `%` and
//! `pow2`. This module holds the lemmas that connect the two views, and a few
//! small executable helpers whose contracts are already arithmetic.

use vstd::arithmetic::div_mod::*;
use vstd::arithmetic::mul::*;
use vstd::arithmetic::power2::*;
use vstd::bits::*;
use vstd::prelude::*;

verus! {

/// `2^(a+b) == 2^a * 2^b`, and both factors are positive.
pub proof fn lemma_pow2_sum(a: nat, b: nat)
    ensures
        pow2(a + b) == pow2(a) * pow2(b),
        pow2(a) > 0,
        pow2(b) > 0,
        pow2(a + b) > 0,
{
    lemma_pow2_adds(a, b);
    lemma_pow2_pos(a);
    lemma_pow2_pos(b);
    lemma_pow2_pos(a + b);
}

/// `pow2` is monotone.
pub proof fn lemma_pow2_le(a: nat, b: nat)
    requires
        a <= b,
    ensures
        pow2(a) <= pow2(b),
        pow2(a) > 0,
{
    lemma_pow2_pos(a);
    if a < b {
        lemma_pow2_strictly_increases(a, b);
    }
}

/// The small powers of two, as literals.
pub proof fn lemma_pow2_values()
    ensures
        pow2(0) == 1,
        pow2(1) == 2,
        pow2(2) == 4,
        pow2(3) == 8,
        pow2(4) == 16,
        pow2(5) == 32,
        pow2(6) == 64,
        pow2(7) == 128,
        pow2(8) == 256,
        pow2(9) == 512,
        pow2(10) == 1024,
        pow2(11) == 2048,
        pow2(12) == 4096,
        pow2(13) == 8192,
        pow2(14) == 16384,
        pow2(15) == 32768,
        pow2(16) == 65536,
        pow2(24) == 0x1000000,
        pow2(31) == 0x80000000,
        pow2(32) == 0x100000000,
{
    lemma2_to64();
}

/// Dividing twice by powers of two divides by their product.
pub proof fn lemma_div_pow2_twice(x: int, a: nat, b: nat)
    requires
        0 <= x,
    ensures
        (x / pow2(a) as int) / pow2(b) as int == x / pow2(a + b) as int,
{
    lemma_pow2_sum(a, b);
    lemma_div_denominator(x, pow2(a) as int, pow2(b) as int);
}

/// The low `a + b` bits of `x` are its low `a` bits below the next `b` bits.
pub proof fn lemma_mod_pow2_split(x: int, a: nat, b: nat)
    requires
        0 <= x,
    ensures
        x % pow2(a + b) as int == x % pow2(a) as int + pow2(a) * ((x / pow2(a) as int) % pow2(
            b,
        ) as int),
{
    lemma_pow2_sum(a, b);
    lemma_mod_breakdown(x, pow2(a) as int, pow2(b) as int);
}

/// Dropping `a` bits from the low `n` bits of `x` leaves the low `n - a` bits
/// of `x / 2^a`.
pub proof fn lemma_mod_pow2_div(x: int, a: nat, n: nat)
    requires
        0 <= x,
        a <= n,
    ensures
        (x % pow2(n) as int) / pow2(a) as int == (x / pow2(a) as int) % pow2((n - a) as nat) as int,
        (x % pow2(n) as int) % pow2(a) as int == x % pow2(a) as int,
{
    let pa = pow2(a) as int;
    let pb = pow2((n - a) as nat) as int;
    lemma_pow2_sum(a, (n - a) as nat);
    lemma_mod_pow2_split(x, a, (n - a) as nat);
    let lo = x % pa;
    let hi = (x / pa) % pb;
    lemma_mod_bound(x, pa);
    lemma_mod_bound(x / pa, pb);
    assert(x % pow2(n) as int == hi * pa + lo) by {
        lemma_mul_is_commutative(pa, hi);
    }
    lemma_fundamental_div_mod_converse(x % pow2(n) as int, pa, hi, lo);
}

/// A value below `2^a` placed under a multiple of `2^a`: both parts can be
/// read back.
pub proof fn lemma_pow2_join(lo: int, hi: int, a: nat)
    requires
        0 <= lo < pow2(a),
    ensures
        (lo + hi * pow2(a)) % pow2(a) as int == lo,
        (lo + hi * pow2(a)) / pow2(a) as int == hi,
{
    lemma_pow2_pos(a);
    lemma_fundamental_div_mod_converse(lo + hi * pow2(a), pow2(a) as int, hi, lo);
}

/// A number below `2^a` times `2^b`, plus a number below `2^b`, is below
/// `2^(a+b)`.
pub proof fn lemma_pow2_join_bound(hi: int, lo: int, a: nat, b: nat)
    requires
        0 <= hi < pow2(a),
        0 <= lo < pow2(b),
    ensures
        0 <= hi * pow2(b) + lo < pow2(a + b),
{
    lemma_pow2_sum(a, b);
    assert(hi * pow2(b) + lo < pow2(a) * pow2(b)) by (nonlinear_arith)
        requires
            0 <= hi < pow2(a),
            0 <= lo < pow2(b),
    ;
    assert(0 <= hi * pow2(b)) by (nonlinear_arith)
        requires
            0 <= hi,
            0 < pow2(b),
    ;
}

/// A value is below `2^n` exactly if dividing by `2^n` gives zero.
pub proof fn lemma_small_div_pow2(x: int, n: nat)
    requires
        0 <= x < pow2(n),
    ensures
        x / pow2(n) as int == 0,
        x % pow2(n) as int == x,
{
    lemma_pow2_pos(n);
    lemma_fundamental_div_mod_converse(x, pow2(n) as int, 0, x);
}

/// `x << n` on 32 bits, where nothing is shifted out.
pub fn shl32(x: u32, n: u32) -> (r: u32)
    requires
        n < 32,
        x * pow2(n as nat) < 0x1_0000_0000,
    ensures
        r == x * pow2(n as nat),
{
    proof {
        lemma_u32_shl_is_mul(x, n);
    }
    x << n
}

/// `x >> n` on 32 bits.
pub fn shr32(x: u32, n: u32) -> (r: u32)
    requires
        n < 32,
    ensures
        r == x as int / pow2(n as nat) as int,
{
    proof {
        lemma_u32_shr_is_div(x, n);
    }
    x >> n
}

/// The low `n` bits of `x`.
pub fn low_bits32(x: u32, n: u32) -> (r: u32)
    requires
        n < 32,
    ensures
        r == x as int % pow2(n as nat) as int,
        r < pow2(n as nat),
{
    proof {
        lemma_u32_pow2_no_overflow(n as nat);
        lemma_u32_shl_is_mul(1, n);
        lemma_u32_low_bits_mask_is_mod(x, n as nat);
        lemma_mod_bound(x as int, pow2(n as nat) as int);
    }
    let mask: u32 = (1u32 << n) - 1;
    x & mask
}

} // verus!
