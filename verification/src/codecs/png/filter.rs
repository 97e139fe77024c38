//! The scanline filters of PNG.
//!
//! A filter replaces each byte of a scanline by its difference, modulo 256,
//! to a prediction made from the bytes before it: the byte one pixel to the
//! left (`a`), the byte above (`b`) and the byte above that one (`c`).

use vstd::prelude::*;

verus! {

/// The five filters; a scanline names its filter by the number of the
/// variant, from 0 for `NoFilter` to 4 for `Paeth`.
#[derive(Debug, Clone, Copy, PartialEq, Eq, Structural)]
pub enum FilterType {
    /// The bytes are not changed.
    NoFilter,
    /// The prediction is the byte to the left.
    Sub,
    /// The prediction is the byte above.
    Up,
    /// The prediction is the mean of the two, rounded down.
    Avg,
    /// The prediction is that of the three neighbors that is nearest to
    /// `a + b - c`.
    Paeth,
}

/// The distance of `x` and `y`.
pub open spec fn dist(x: int, y: int) -> int {
    if x >= y {
        x - y
    } else {
        y - x
    }
}

/// The Paeth predictor: that of `a`, `b`, `c` which is nearest to
/// `a + b - c`; `a` before `b` before `c` where two are as near.
pub open spec fn paeth(a: u8, b: u8, c: u8) -> u8 {
    let p = a + b - c;
    let pa = dist(p, a as int);
    let pb = dist(p, b as int);
    let pc = dist(p, c as int);
    if pa <= pb && pa <= pc {
        a
    } else if pb <= pc {
        b
    } else {
        c
    }
}

/// The prediction for byte `i` of the scanline `raw` (not filtered), whose
/// pixels have `bpp` bytes, under the scanline `previous`. Where there is no
/// pixel to the left, `a` and `c` are zero.
pub open spec fn predict(
    filter: FilterType,
    bpp: int,
    previous: Seq<u8>,
    raw: Seq<u8>,
    i: int,
) -> int {
    let a: u8 = if i >= bpp {
        raw[i - bpp]
    } else {
        0
    };
    let c: u8 = if i >= bpp {
        previous[i - bpp]
    } else {
        0
    };
    match filter {
        FilterType::NoFilter => 0,
        FilterType::Sub => a as int,
        FilterType::Up => previous[i] as int,
        FilterType::Avg => (a + previous[i]) / 2,
        FilterType::Paeth => paeth(a, previous[i], c) as int,
    }
}

/// `filtered` is the scanline `raw` after the filter: each byte is the byte
/// of `raw` less its prediction, modulo 256.
pub open spec fn is_filtered(
    filter: FilterType,
    bpp: int,
    previous: Seq<u8>,
    raw: Seq<u8>,
    filtered: Seq<u8>,
) -> bool {
    &&& filtered.len() == raw.len()
    &&& forall|i: int|
        0 <= i < raw.len() ==> #[trigger] filtered[i] as int == (raw[i] - predict(
            filter,
            bpp,
            previous,
            raw,
            i,
        )) % 256
}

/// A filtered scanline comes from one scanline only: the filter can be undone.
pub proof fn lemma_filter_is_injective(
    filter: FilterType,
    bpp: int,
    previous: Seq<u8>,
    raw1: Seq<u8>,
    raw2: Seq<u8>,
    filtered: Seq<u8>,
)
    requires
        bpp >= 1,
        is_filtered(filter, bpp, previous, raw1, filtered),
        is_filtered(filter, bpp, previous, raw2, filtered),
    ensures
        raw1 == raw2,
{
    assert forall|i: int| 0 <= i < raw1.len() implies raw1[i] == raw2[i] by {
        lemma_same_prefix(filter, bpp, previous, raw1, raw2, filtered, i + 1);
    }
    assert(raw1 =~= raw2);
}

proof fn lemma_same_prefix(
    filter: FilterType,
    bpp: int,
    previous: Seq<u8>,
    raw1: Seq<u8>,
    raw2: Seq<u8>,
    filtered: Seq<u8>,
    n: int,
)
    requires
        bpp >= 1,
        is_filtered(filter, bpp, previous, raw1, filtered),
        is_filtered(filter, bpp, previous, raw2, filtered),
        0 <= n <= raw1.len(),
    ensures
        forall|i: int| 0 <= i < n ==> raw1[i] == raw2[i],
    decreases n,
{
    if n > 0 {
        lemma_same_prefix(filter, bpp, previous, raw1, raw2, filtered, n - 1);
        let i = n - 1;
        assert(filtered[i] as int == (raw1[i] - predict(filter, bpp, previous, raw1, i)) % 256);
        assert(filtered[i] as int == (raw2[i] - predict(filter, bpp, previous, raw2, i)) % 256);
        if i >= bpp {
            assert(raw1[i - bpp] == raw2[i - bpp]);
        }
        assert(predict(filter, bpp, previous, raw1, i) == predict(filter, bpp, previous, raw2, i));
    }
}

/// The Paeth predictor.
pub fn filter_paeth(a: u8, b: u8, c: u8) -> (r: u8)
    ensures
        r == paeth(a, b, c),
{
    let ia: i16 = a as i16;
    let ib: i16 = b as i16;
    let ic: i16 = c as i16;
    let p: i16 = ia + ib - ic;
    let pa: i16 = if p >= ia {
        p - ia
    } else {
        ia - p
    };
    let pb: i16 = if p >= ib {
        p - ib
    } else {
        ib - p
    };
    let pc: i16 = if p >= ic {
        p - ic
    } else {
        ic - p
    };
    if pa <= pb && pa <= pc {
        a
    } else if pb <= pc {
        b
    } else {
        c
    }
}

/// The prediction for byte `i`, from a scanline of which the bytes before
/// `i` are not, or no longer, filtered.
fn prediction(filter: FilterType, bpp: usize, previous: &[u8], row: &[u8], i: usize) -> (r: u8)
    requires
        bpp >= 1,
        i < row.len(),
        row.len() <= previous.len(),
    ensures
        r == predict(filter, bpp as int, previous@, row@, i as int),
{
    match filter {
        FilterType::NoFilter => 0,
        FilterType::Sub => if i >= bpp {
            row[i - bpp]
        } else {
            0
        },
        FilterType::Up => previous[i],
        FilterType::Avg => {
            let a: u16 = if i >= bpp {
                row[i - bpp] as u16
            } else {
                0
            };
            ((a + previous[i] as u16) / 2) as u8
        },
        FilterType::Paeth => if i >= bpp {
            filter_paeth(row[i - bpp], previous[i], previous[i - bpp])
        } else {
            filter_paeth(0, previous[i], 0)
        },
    }
}

/// Undoes the filter `filter` on the scanline `current`, whose pixels have
/// `bpp` bytes; `previous` is the scanline above, not filtered.
///
/// Afterwards `current` is the scanline that the filter turns into what
/// `current` was.
pub fn unfilter(filter: FilterType, bpp: usize, previous: &[u8], current: &mut [u8])
    requires
        bpp >= 1,
        old(current).len() <= previous.len(),
    ensures
        is_filtered(filter, bpp as int, previous@, final(current)@, old(current)@),
{
    let len: usize = current.len();
    let mut i: usize = 0;
    while i < len
        invariant
            i <= len,
            bpp >= 1,
            len == current.len(),
            len == old(current).len(),
            len <= previous.len(),
            forall|j: int| i <= j < len ==> current[j] == old(current)[j],
            forall|j: int|
                0 <= j < i ==> #[trigger] old(current)[j] as int == (current[j] - predict(
                    filter,
                    bpp as int,
                    previous@,
                    current@,
                    j,
                )) % 256,
        decreases len - i,
    {
        let p: u8 = prediction(filter, bpp, previous, current, i);
        let ghost before = current@;
        current[i] = current[i].wrapping_add(p);
        proof {
            assert forall|j: int| 0 <= j < i + 1 implies #[trigger] old(current)[j] as int == (
            current[j] - predict(filter, bpp as int, previous@, current@, j)) % 256 by {
                if j >= bpp {
                    assert(current[j - bpp] == before[j - bpp]);
                }
                assert(predict(filter, bpp as int, previous@, current@, j) == predict(
                    filter,
                    bpp as int,
                    previous@,
                    before,
                    j,
                ));
                if j < i {
                    assert(current[j] == before[j]);
                }
            }
        }
        i += 1;
    }
}

/// Applies the filter `method` to the scanline `current`, whose pixels have
/// `bpp` bytes; `previous` is the scanline above, not filtered.
pub fn filter(method: FilterType, bpp: usize, previous: &[u8], current: &mut [u8])
    requires
        bpp >= 1,
        old(current).len() <= previous.len(),
    ensures
        is_filtered(method, bpp as int, previous@, old(current)@, final(current)@),
{
    let len: usize = current.len();
    // the predictions are made from the bytes as they were, so the scanline
    // is filtered from its end
    let mut i: usize = len;
    while i > 0
        invariant
            i <= len,
            bpp >= 1,
            len == current.len(),
            len == old(current).len(),
            len <= previous.len(),
            forall|j: int| 0 <= j < i ==> current[j] == old(current)[j],
            forall|j: int|
                i <= j < len ==> #[trigger] current[j] as int == (old(current)[j] - predict(
                    method,
                    bpp as int,
                    previous@,
                    old(current)@,
                    j,
                )) % 256,
        decreases i,
    {
        i -= 1;
        let p: u8 = prediction(method, bpp, previous, current, i);
        proof {
            if i >= bpp {
                assert(current[i - bpp] == old(current)[i - bpp]);
            }
            assert(predict(method, bpp as int, previous@, current@, i as int) == predict(
                method,
                bpp as int,
                previous@,
                old(current)@,
                i as int,
            ));
        }
        current[i] = current[i].wrapping_sub(p);
    }
}

} // verus!
