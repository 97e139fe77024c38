//! The forward discrete cosine transform of JPEG, in integers, and the
//! quantization of its coefficients.
//!
//! The transform is the two-pass integer method of Loeffler, Ligtenberg and
//! Moschytz with 13-bit constants: a pass over the rows, then a pass over the
//! columns. Its results are the coefficients of the 8 by 8 cosine transform
//! of the level-shifted samples, scaled by 8, to within the rounding of the
//! integer arithmetic.

use vstd::prelude::*;

verus! {

/// Result `j` of the one-dimensional transform of eight numbers, scaled by
/// `2^13` except for the two sums at places 0 and 4, and before any
/// rounding.
#[verifier::opaque]
pub open spec fn dct_core(
    j: int,
    d0: int,
    d1: int,
    d2: int,
    d3: int,
    d4: int,
    d5: int,
    d6: int,
    d7: int,
) -> int {
    let t0 = d0 + d7;
    let t1 = d1 + d6;
    let t2 = d2 + d5;
    let t3 = d3 + d4;
    let t10 = t0 + t3;
    let t12 = t0 - t3;
    let t11 = t1 + t2;
    let t13 = t1 - t2;
    let u0 = d0 - d7;
    let u1 = d1 - d6;
    let u2 = d2 - d5;
    let u3 = d3 - d4;
    let ze = (t12 + t13) * 4433;
    let u12 = u0 + u2;
    let u13 = u1 + u3;
    let zo = (u12 + u13) * 9633;
    let v12 = zo - u12 * 3196;
    let v13 = zo - u13 * 16069;
    let z03 = (u0 + u3) * 7373;
    let z12 = (u1 + u2) * 20995;
    if j == 0 {
        t10 + t11
    } else if j == 1 {
        u0 * 12299 - z03 + v12
    } else if j == 2 {
        ze + t12 * 6270
    } else if j == 3 {
        u1 * 25172 - z12 + v13
    } else if j == 4 {
        t10 - t11
    } else if j == 5 {
        u2 * 16819 - z12 + v12
    } else if j == 6 {
        ze - t13 * 15137
    } else {
        u3 * 2446 - z03 + v13
    }
}

/// Result `j` of the pass over a row of samples: the level shift by 128 is
/// taken out of the sum, the two sums are scaled up by 4, the other results
/// are rounded down to that scale.
pub open spec fn row_out(
    j: int,
    d0: int,
    d1: int,
    d2: int,
    d3: int,
    d4: int,
    d5: int,
    d6: int,
    d7: int,
) -> int {
    let c = dct_core(j, d0, d1, d2, d3, d4, d5, d6, d7);
    if j == 0 {
        (c - 1024) * 4
    } else if j == 4 {
        c * 4
    } else {
        (c + 1024) / 2048
    }
}

/// Result `j` of the pass over a column of row results: everything is
/// rounded to the final scale of 8.
pub open spec fn column_out(
    j: int,
    d0: int,
    d1: int,
    d2: int,
    d3: int,
    d4: int,
    d5: int,
    d6: int,
    d7: int,
) -> int {
    let c = dct_core(j, d0, d1, d2, d3, d4, d5, d6, d7);
    if j == 0 || j == 4 {
        (c + 2) / 4
    } else {
        (c + 16384) / 32768
    }
}

/// Entry `i` of a block of 64 samples after the pass over its rows.
pub open spec fn row_coeff(samples: Seq<u8>, i: int) -> int {
    let y = 8 * (i / 8);
    row_out(
        i % 8,
        samples[y] as int,
        samples[y + 1] as int,
        samples[y + 2] as int,
        samples[y + 3] as int,
        samples[y + 4] as int,
        samples[y + 5] as int,
        samples[y + 6] as int,
        samples[y + 7] as int,
    )
}

/// Coefficient `i` of the transform of a block of 64 samples. The block is
/// in row-major order: coefficient `8v + u` belongs to the horizontal
/// frequency `u` and the vertical `v`.
pub open spec fn fdct_coeff(samples: Seq<u8>, i: int) -> int {
    let x = i % 8;
    column_out(
        i / 8,
        row_coeff(samples, x),
        row_coeff(samples, x + 8),
        row_coeff(samples, x + 16),
        row_coeff(samples, x + 24),
        row_coeff(samples, x + 32),
        row_coeff(samples, x + 40),
        row_coeff(samples, x + 48),
        row_coeff(samples, x + 56),
    )
}


/// `a / d` rounded toward zero.
pub open spec fn trunc_div(a: int, d: int) -> int {
    if a >= 0 {
        a / d
    } else {
        -((-a) / d)
    }
}

/// `a / q` rounded to the nearest integer, halves away from zero.
pub open spec fn round_div(a: int, q: int) -> int {
    if a >= 0 {
        (2 * a + q) / (2 * q)
    } else {
        -((2 * (-a) + q) / (2 * q))
    }
}

/// The quantized value of the coefficient `c`, which is scaled by 8, for
/// the table entry `q`.
pub open spec fn quantize_spec(c: int, q: int) -> int {
    round_div(trunc_div(c, 8), q)
}

/// `x >> n`, which rounds down, for the three shifts of the transform.
fn descale(x: i32, n: u32) -> (r: i32)
    requires
        n == 2 || n == 11 || n == 15,
    ensures
        n == 2 ==> r == x as int / 4,
        n == 11 ==> r == x as int / 2048,
        n == 15 ==> r == x as int / 32768,
{
    proof {
        assert(x >> 2 == x / 4) by (bit_vector);
        assert(x >> 11 == x / 2048) by (bit_vector);
        assert(x >> 15 == x / 32768) by (bit_vector);
    }
    x >> n
}


/// The one-dimensional transform of eight numbers, before any rounding.
fn dct_1d(d0: i32, d1: i32, d2: i32, d3: i32, d4: i32, d5: i32, d6: i32, d7: i32) -> (c: (
    i32,
    i32,
    i32,
    i32,
    i32,
    i32,
    i32,
    i32,
))
    requires
        -10000 <= d0 <= 10000,
        -10000 <= d1 <= 10000,
        -10000 <= d2 <= 10000,
        -10000 <= d3 <= 10000,
        -10000 <= d4 <= 10000,
        -10000 <= d5 <= 10000,
        -10000 <= d6 <= 10000,
        -10000 <= d7 <= 10000,
    ensures
        c.0 == dct_core(0, d0 as int, d1 as int, d2 as int, d3 as int, d4 as int, d5 as int,
            d6 as int, d7 as int),
        c.1 == dct_core(1, d0 as int, d1 as int, d2 as int, d3 as int, d4 as int, d5 as int,
            d6 as int, d7 as int),
        c.2 == dct_core(2, d0 as int, d1 as int, d2 as int, d3 as int, d4 as int, d5 as int,
            d6 as int, d7 as int),
        c.3 == dct_core(3, d0 as int, d1 as int, d2 as int, d3 as int, d4 as int, d5 as int,
            d6 as int, d7 as int),
        c.4 == dct_core(4, d0 as int, d1 as int, d2 as int, d3 as int, d4 as int, d5 as int,
            d6 as int, d7 as int),
        c.5 == dct_core(5, d0 as int, d1 as int, d2 as int, d3 as int, d4 as int, d5 as int,
            d6 as int, d7 as int),
        c.6 == dct_core(6, d0 as int, d1 as int, d2 as int, d3 as int, d4 as int, d5 as int,
            d6 as int, d7 as int),
        c.7 == dct_core(7, d0 as int, d1 as int, d2 as int, d3 as int, d4 as int, d5 as int,
            d6 as int, d7 as int),
{
    proof {
        reveal(dct_core);
    }
    // Even part
    let t0: i32 = d0 + d7;
    let t1: i32 = d1 + d6;
    let t2: i32 = d2 + d5;
    let t3: i32 = d3 + d4;
    let t10: i32 = t0 + t3;
    let t12: i32 = t0 - t3;
    let t11: i32 = t1 + t2;
    let t13: i32 = t1 - t2;
    let ze: i32 = (t12 + t13) * 4433;
    // Odd part
    let u0: i32 = d0 - d7;
    let u1: i32 = d1 - d6;
    let u2: i32 = d2 - d5;
    let u3: i32 = d3 - d4;
    let u12: i32 = u0 + u2;
    let u13: i32 = u1 + u3;
    let zo: i32 = (u12 + u13) * 9633;
    let v12: i32 = zo - u12 * 3196;
    let v13: i32 = zo - u13 * 16069;
    let z03: i32 = (u0 + u3) * 7373;
    let z12: i32 = (u1 + u2) * 20995;
    (
        t10 + t11,
        u0 * 12299 - z03 + v12,
        ze + t12 * 6270,
        u1 * 25172 - z12 + v13,
        t10 - t11,
        u2 * 16819 - z12 + v12,
        ze - t13 * 15137,
        u3 * 2446 - z03 + v13,
    )
}

/// The results of the pass over a row of samples are within 9000.
pub proof fn lemma_row_out_bound(
    j: int,
    d0: int,
    d1: int,
    d2: int,
    d3: int,
    d4: int,
    d5: int,
    d6: int,
    d7: int,
)
    requires
        0 <= j < 8,
        0 <= d0 <= 255,
        0 <= d1 <= 255,
        0 <= d2 <= 255,
        0 <= d3 <= 255,
        0 <= d4 <= 255,
        0 <= d5 <= 255,
        0 <= d6 <= 255,
        0 <= d7 <= 255,
    ensures
        -9000 <= row_out(j, d0, d1, d2, d3, d4, d5, d6, d7) <= 9000,
{
    reveal(dct_core);
    let c = dct_core(j, d0, d1, d2, d3, d4, d5, d6, d7);
    assert(-18432000 <= c + 1024 <= 18432000);
}

/// The results of the pass over a column are within 40000.
pub proof fn lemma_column_out_bound(
    j: int,
    d0: int,
    d1: int,
    d2: int,
    d3: int,
    d4: int,
    d5: int,
    d6: int,
    d7: int,
)
    requires
        0 <= j < 8,
        -9000 <= d0 <= 9000,
        -9000 <= d1 <= 9000,
        -9000 <= d2 <= 9000,
        -9000 <= d3 <= 9000,
        -9000 <= d4 <= 9000,
        -9000 <= d5 <= 9000,
        -9000 <= d6 <= 9000,
        -9000 <= d7 <= 9000,
    ensures
        -40000 <= column_out(j, d0, d1, d2, d3, d4, d5, d6, d7) <= 40000,
{
    reveal(dct_core);
    let c = dct_core(j, d0, d1, d2, d3, d4, d5, d6, d7);
    assert(-1310720000 <= c + 16384 <= 1310720000);
}

/// Every entry of a block is within 9000 after the pass over its rows.
pub proof fn lemma_row_coeff_bound(samples: Seq<u8>, i: int)
    requires
        samples.len() == 64,
        0 <= i < 64,
    ensures
        -9000 <= row_coeff(samples, i) <= 9000,
{
    let y = 8 * (i / 8);
    lemma_row_out_bound(
        i % 8,
        samples[y] as int,
        samples[y + 1] as int,
        samples[y + 2] as int,
        samples[y + 3] as int,
        samples[y + 4] as int,
        samples[y + 5] as int,
        samples[y + 6] as int,
        samples[y + 7] as int,
    );
}

/// Every coefficient of the transform is within 40000.
pub proof fn lemma_fdct_bound(samples: Seq<u8>, i: int)
    requires
        samples.len() == 64,
        0 <= i < 64,
    ensures
        -40000 <= fdct_coeff(samples, i) <= 40000,
{
    let x = i % 8;
    lemma_row_coeff_bound(samples, x);
    lemma_row_coeff_bound(samples, x + 8);
    lemma_row_coeff_bound(samples, x + 16);
    lemma_row_coeff_bound(samples, x + 24);
    lemma_row_coeff_bound(samples, x + 32);
    lemma_row_coeff_bound(samples, x + 40);
    lemma_row_coeff_bound(samples, x + 48);
    lemma_row_coeff_bound(samples, x + 56);
    lemma_column_out_bound(
        i / 8,
        row_coeff(samples, x),
        row_coeff(samples, x + 8),
        row_coeff(samples, x + 16),
        row_coeff(samples, x + 24),
        row_coeff(samples, x + 32),
        row_coeff(samples, x + 40),
        row_coeff(samples, x + 48),
        row_coeff(samples, x + 56),
    );
}

/// The sum of the samples of row `y` of a block.
pub open spec fn row_sum(samples: Seq<u8>, y: int) -> int {
    samples[8 * y] + samples[8 * y + 1] + samples[8 * y + 2] + samples[8 * y + 3] + samples[8 * y
        + 4] + samples[8 * y + 5] + samples[8 * y + 6] + samples[8 * y + 7]
}

/// The sum of the samples of a block.
pub open spec fn block_sum(samples: Seq<u8>) -> int {
    row_sum(samples, 0) + row_sum(samples, 1) + row_sum(samples, 2) + row_sum(samples, 3)
        + row_sum(samples, 4) + row_sum(samples, 5) + row_sum(samples, 6) + row_sum(samples, 7)
}

/// The first entry of a row after the pass over the rows is four times the
/// sum of the level-shifted samples of the row.
proof fn lemma_row_coeff_first(samples: Seq<u8>, y: int)
    requires
        samples.len() == 64,
        0 <= y < 8,
    ensures
        row_coeff(samples, 8 * y) == (row_sum(samples, y) - 1024) * 4,
{
    reveal(dct_core);
    assert((8 * y) / 8 == y && (8 * y) % 8 == 0);
}

/// The DC coefficient is exact: it is the sum of the level-shifted samples,
/// that is 64 times their mean, or 8 times the DC coefficient of the cosine
/// transform.
pub proof fn lemma_fdct_dc(samples: Seq<u8>)
    requires
        samples.len() == 64,
    ensures
        fdct_coeff(samples, 0) == block_sum(samples) - 64 * 128,
{
    lemma_row_coeff_first(samples, 0);
    lemma_row_coeff_first(samples, 1);
    lemma_row_coeff_first(samples, 2);
    lemma_row_coeff_first(samples, 3);
    lemma_row_coeff_first(samples, 4);
    lemma_row_coeff_first(samples, 5);
    lemma_row_coeff_first(samples, 6);
    lemma_row_coeff_first(samples, 7);
    let r0 = row_coeff(samples, 0);
    let r1 = row_coeff(samples, 8);
    let r2 = row_coeff(samples, 16);
    let r3 = row_coeff(samples, 24);
    let r4 = row_coeff(samples, 32);
    let r5 = row_coeff(samples, 40);
    let r6 = row_coeff(samples, 48);
    let r7 = row_coeff(samples, 56);
    assert(dct_core(0, r0, r1, r2, r3, r4, r5, r6, r7) == r0 + r1 + r2 + r3 + r4 + r5 + r6 + r7)
        by {
        reveal(dct_core);
    }
}

/// The forward transform of a block of 64 samples into 64 coefficients,
/// scaled by 8.
pub fn fdct(samples: &[u8], coeffs: &mut [i32])
    requires
        samples.len() == 64,
        old(coeffs).len() == 64,
    ensures
        final(coeffs).len() == 64,
        forall|i: int| 0 <= i < 64 ==> #[trigger] final(coeffs)[i] == fdct_coeff(samples@, i),
        forall|i: int| 0 <= i < 64 ==> -40000 <= #[trigger] final(coeffs)[i] <= 40000,
{
    // Pass 1: process rows. The results are scaled up by 4.
    let mut y: usize = 0;
    while y < 8
        invariant
            y <= 8,
            samples.len() == 64,
            coeffs.len() == 64,
            forall|i: int| 0 <= i < 8 * y ==> #[trigger] coeffs[i] == row_coeff(samples@, i),
        decreases 8 - y,
    {
        let y0: usize = y * 8;
        proof {
            lemma_row_coeff_bound(samples@, y0 as int);
            lemma_row_coeff_bound(samples@, y0 + 1);
            lemma_row_coeff_bound(samples@, y0 + 2);
            lemma_row_coeff_bound(samples@, y0 + 3);
            lemma_row_coeff_bound(samples@, y0 + 4);
            lemma_row_coeff_bound(samples@, y0 + 5);
            lemma_row_coeff_bound(samples@, y0 + 6);
            lemma_row_coeff_bound(samples@, y0 + 7);
        }
        let c = dct_1d(
            samples[y0] as i32,
            samples[y0 + 1] as i32,
            samples[y0 + 2] as i32,
            samples[y0 + 3] as i32,
            samples[y0 + 4] as i32,
            samples[y0 + 5] as i32,
            samples[y0 + 6] as i32,
            samples[y0 + 7] as i32,
        );
        let ghost before = coeffs@;
        coeffs[y0] = (c.0 - 8 * 128) * 4;
        coeffs[y0 + 1] = descale(c.1 + 1024, 11);
        coeffs[y0 + 2] = descale(c.2 + 1024, 11);
        coeffs[y0 + 3] = descale(c.3 + 1024, 11);
        coeffs[y0 + 4] = c.4 * 4;
        coeffs[y0 + 5] = descale(c.5 + 1024, 11);
        coeffs[y0 + 6] = descale(c.6 + 1024, 11);
        coeffs[y0 + 7] = descale(c.7 + 1024, 11);
        proof {
            assert forall|i: int| 0 <= i < 8 * (y + 1) implies #[trigger] coeffs[i] == row_coeff(
                samples@,
                i,
            ) by {
                if i < 8 * y {
                    assert(coeffs[i] == before[i]);
                } else {
                    assert(i / 8 == y && i % 8 == i - y0);
                }
            }
        }
        y += 1;
    }
    // Pass 2: process columns. The scaling by 4 is taken back; the results
    // stay scaled by 8.
    let mut x: usize = 0;
    while x < 8
        invariant
            x <= 8,
            samples.len() == 64,
            coeffs.len() == 64,
            forall|i: int|
                0 <= i < 64 && i % 8 >= x ==> #[trigger] coeffs[i] == row_coeff(samples@, i),
            forall|i: int|
                0 <= i < 64 && i % 8 < x ==> #[trigger] coeffs[i] == fdct_coeff(samples@, i),
        decreases 8 - x,
    {
        let ghost before = coeffs@;
        proof {
            assert forall|k: int| 0 <= k < 8 implies #[trigger] coeffs[8 * k + x] == row_coeff(
                samples@,
                8 * k + x,
            ) by {
                assert((8 * k + x) % 8 == x);
            }
        }
        column_step(coeffs, x, Ghost(samples@));
        proof {
            assert forall|i: int| 0 <= i < 64 implies (i % 8 >= x + 1 ==> #[trigger] coeffs[i]
                == row_coeff(samples@, i)) && (i % 8 < x + 1 ==> coeffs[i] == fdct_coeff(
                samples@,
                i,
            )) by {
                if i % 8 == x {
                    assert(i == 8 * (i / 8) + x);
                    assert(coeffs[8 * (i / 8) + x] == fdct_coeff(samples@, 8 * (i / 8) + x));
                } else {
                    assert(coeffs[i] == before[i]);
                }
            }
        }
        x += 1;
    }
    proof {
        assert forall|i: int| 0 <= i < 64 implies -40000 <= #[trigger] coeffs[i] <= 40000 by {
            lemma_fdct_bound(samples@, i);
        }
    }
}

/// The pass over column `x` of a block whose rows are done.
fn column_step(coeffs: &mut [i32], x: usize, samples: Ghost<Seq<u8>>)
    requires
        old(coeffs).len() == 64,
        samples@.len() == 64,
        x < 8,
        forall|k: int| 0 <= k < 8 ==> #[trigger] old(coeffs)[8 * k + x] == row_coeff(
            samples@,
            8 * k + x,
        ),
    ensures
        final(coeffs).len() == 64,
        forall|k: int| 0 <= k < 8 ==> #[trigger] final(coeffs)[8 * k + x] == fdct_coeff(
            samples@,
            8 * k + x,
        ),
        forall|i: int| 0 <= i < 64 && i % 8 != x ==> #[trigger] final(coeffs)[i] == old(coeffs)[i],
{
    proof {
        lemma_row_coeff_bound(samples@, x as int);
        lemma_row_coeff_bound(samples@, x + 8);
        lemma_row_coeff_bound(samples@, x + 16);
        lemma_row_coeff_bound(samples@, x + 24);
        lemma_row_coeff_bound(samples@, x + 32);
        lemma_row_coeff_bound(samples@, x + 40);
        lemma_row_coeff_bound(samples@, x + 48);
        lemma_row_coeff_bound(samples@, x + 56);
        lemma_fdct_bound(samples@, x as int);
        lemma_fdct_bound(samples@, x + 8);
        lemma_fdct_bound(samples@, x + 16);
        lemma_fdct_bound(samples@, x + 24);
        lemma_fdct_bound(samples@, x + 32);
        lemma_fdct_bound(samples@, x + 40);
        lemma_fdct_bound(samples@, x + 48);
        lemma_fdct_bound(samples@, x + 56);
        assert(old(coeffs)[8 * 0 + x] == row_coeff(samples@, 8 * 0 + x));
        assert(old(coeffs)[8 * 1 + x] == row_coeff(samples@, 8 * 1 + x));
        assert(old(coeffs)[8 * 2 + x] == row_coeff(samples@, 8 * 2 + x));
        assert(old(coeffs)[8 * 3 + x] == row_coeff(samples@, 8 * 3 + x));
        assert(old(coeffs)[8 * 4 + x] == row_coeff(samples@, 8 * 4 + x));
        assert(old(coeffs)[8 * 5 + x] == row_coeff(samples@, 8 * 5 + x));
        assert(old(coeffs)[8 * 6 + x] == row_coeff(samples@, 8 * 6 + x));
        assert(old(coeffs)[8 * 7 + x] == row_coeff(samples@, 8 * 7 + x));
    }
    let c = dct_1d(
        coeffs[x],
        coeffs[x + 8],
        coeffs[x + 16],
        coeffs[x + 24],
        coeffs[x + 32],
        coeffs[x + 40],
        coeffs[x + 48],
        coeffs[x + 56],
    );
    let r0: i32 = descale(c.0 + 2, 2);
    let r1: i32 = descale(c.1 + 16384, 15);
    let r2: i32 = descale(c.2 + 16384, 15);
    let r3: i32 = descale(c.3 + 16384, 15);
    let r4: i32 = descale(c.4 + 2, 2);
    let r5: i32 = descale(c.5 + 16384, 15);
    let r6: i32 = descale(c.6 + 16384, 15);
    let r7: i32 = descale(c.7 + 16384, 15);
    proof {
        assert(r0 == fdct_coeff(samples@, x as int)) by {
            assert((x as int) / 8 == 0 && (x as int) % 8 == x);
        }
        assert(r1 == fdct_coeff(samples@, x + 8)) by {
            assert((x + 8) / 8 == 1 && (x + 8) % 8 == x);
        }
        assert(r2 == fdct_coeff(samples@, x + 16)) by {
            assert((x + 16) / 8 == 2 && (x + 16) % 8 == x);
        }
        assert(r3 == fdct_coeff(samples@, x + 24)) by {
            assert((x + 24) / 8 == 3 && (x + 24) % 8 == x);
        }
        assert(r4 == fdct_coeff(samples@, x + 32)) by {
            assert((x + 32) / 8 == 4 && (x + 32) % 8 == x);
        }
        assert(r5 == fdct_coeff(samples@, x + 40)) by {
            assert((x + 40) / 8 == 5 && (x + 40) % 8 == x);
        }
        assert(r6 == fdct_coeff(samples@, x + 48)) by {
            assert((x + 48) / 8 == 6 && (x + 48) % 8 == x);
        }
        assert(r7 == fdct_coeff(samples@, x + 56)) by {
            assert((x + 56) / 8 == 7 && (x + 56) % 8 == x);
        }
    }
    coeffs[x] = r0;
    coeffs[x + 8] = r1;
    coeffs[x + 16] = r2;
    coeffs[x + 24] = r3;
    coeffs[x + 32] = r4;
    coeffs[x + 40] = r5;
    coeffs[x + 48] = r6;
    coeffs[x + 56] = r7;
    proof {
        assert forall|k: int| 0 <= k < 8 implies #[trigger] coeffs[8 * k + x] == fdct_coeff(
            samples@,
            8 * k + x,
        ) by {
            assert(k == 0 || k == 1 || k == 2 || k == 3 || k == 4 || k == 5 || k == 6 || k == 7);
        }
    }
}

/// The quantized value of the coefficient `c`, which is scaled by 8, for
/// the table entry `q`: `c / 8`, rounded toward zero, divided by `q` and
/// rounded to the nearest integer, halves away from zero.
pub fn quantize(c: i32, q: u8) -> (r: i32)
    requires
        q >= 1,
        -1000000 <= c <= 1000000,
    ensures
        r == quantize_spec(c as int, q as int),
{
    let negative: bool = c < 0;
    let m: i32 = if negative {
        -c
    } else {
        c
    };
    let a: i32 = m / 8;
    let r: i32 = (2 * a + q as i32) / (2 * (q as i32));
    proof {
        if negative && a == 0 {
            assert((2 * 0 + q as int) / (2 * (q as int)) == 0) by (nonlinear_arith)
                requires
                    q >= 1,
            ;
        }
    }
    if negative {
        -r
    } else {
        r
    }
}

/// A quantized coefficient is no larger than the coefficient over eight
/// times the table entry, and one more for the rounding.
pub proof fn lemma_quantize_bound(c: int, q: int, b: int)
    requires
        q >= 1,
        b >= 0,
        -8 * q * b <= c <= 8 * q * b,
    ensures
        -b - 1 <= quantize_spec(c, q) <= b + 1,
{
    let a = trunc_div(c, 8);
    let m = if a >= 0 {
        a
    } else {
        -a
    };
    assert(m <= q * b) by (nonlinear_arith)
        requires
            -8 * q * b <= c <= 8 * q * b,
            a == trunc_div(c, 8),
            m == if a >= 0 {
                a
            } else {
                -a
            },
            q >= 1,
            b >= 0,
    ;
    let r = (2 * m + q) / (2 * q);
    assert(0 <= r <= b + 1) by (nonlinear_arith)
        requires
            r == (2 * m + q) / (2 * q),
            0 <= m <= q * b,
            q >= 1,
            b >= 0,
    ;
}

} // verus!
