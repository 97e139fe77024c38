//! The interface of image decoders.

use crate::colortype::{bits_per_pixel, ColorType};
use crate::error::{ImageError, ImageResult};
use vstd::arithmetic::div_mod::lemma_fundamental_div_mod;
use vstd::prelude::*;

verus! {

/// Whether the rectangle that starts at `(x, y)` and has `length` rows of
/// `width` pixels can be asked of an image of `w` by `h` pixels: it cannot
/// if it is wider or higher than the image, or starts past it.
pub open spec fn rect_refused(w: u32, h: u32, x: u32, y: u32, length: u32, width: u32) -> bool {
    length > h || width > w || x > w || y > h
}

/// Checks a rectangle against the dimensions of an image.
pub fn check_rect(w: u32, h: u32, x: u32, y: u32, length: u32, width: u32) -> (r: ImageResult<()>)
    ensures
        rect_refused(w, h, x, y, length, width) ==> r == Err::<(), ImageError>(
            ImageError::DimensionError,
        ),
        !rect_refused(w, h, x, y, length, width) ==> r is Ok,
{
    if length > h || width > w || x > w || y > h {
        Err(ImageError::DimensionError)
    } else {
        Ok(())
    }
}

/// The number of bytes of a rectangle of `length` rows of `width` pixels of
/// `bpp` bytes, if a vector can hold as many.
pub fn rect_size(length: u32, width: u32, bpp: usize) -> (r: Option<usize>)
    ensures
        r is Some <==> length * width * bpp <= usize::MAX,
        r matches Some(n) ==> n == length * width * bpp,
{
    proof {
        assert(0 <= length * width <= 0xFFFF_FFFF * 0xFFFF_FFFF) by (nonlinear_arith)
            requires
                0 <= length <= 0xFFFF_FFFF,
                0 <= width <= 0xFFFF_FFFF,
        ;
    }
    let pixels: u64 = length as u64 * width as u64;
    if bpp == 0 || pixels == 0 {
        proof {
            assert(length * width * bpp == 0) by (nonlinear_arith)
                requires
                    bpp == 0 || length * width == 0,
            ;
        }
        return Some(0);
    }
    let limit: u64 = (usize::MAX / bpp) as u64;
    proof {
        lemma_fundamental_div_mod(usize::MAX as int, bpp as int);
    }
    if pixels > limit {
        proof {
            assert(pixels * bpp > usize::MAX) by (nonlinear_arith)
                requires
                    pixels >= usize::MAX / bpp + 1,
                    bpp > 0,
                    usize::MAX == bpp * (usize::MAX / bpp) + usize::MAX % bpp,
                    usize::MAX % bpp < bpp,
            ;
        }
        None
    } else {
        proof {
            assert(pixels * bpp <= usize::MAX) by (nonlinear_arith)
                requires
                    0 <= pixels <= usize::MAX / bpp,
                    bpp > 0,
                    usize::MAX == bpp * (usize::MAX / bpp) + usize::MAX % bpp,
                    usize::MAX % bpp >= 0,
            ;
        }
        Some(pixels as usize * bpp)
    }
}

/// Copies `n` bytes of the row `from`, from byte `start` on, to row `i` of
/// the rectangle `to`, whose rows have `n` bytes.
///
/// Fails with `FormatError`, and copies nothing, if the row is too short
/// or the rectangle has no such row.
pub fn copy_row(from: &[u8], start: usize, n: usize, to: &mut [u8], i: usize) -> (r: ImageResult<
    (),
>)
    ensures
        final(to).len() == old(to).len(),
        r is Ok <==> start + n <= from.len() && (i + 1) * n <= old(to).len(),
        r matches Err(e) ==> e == ImageError::FormatError && final(to)@ == old(to)@,
        r is Ok ==> final(to)@ == old(to)@.subrange(0, i * n) + from@.subrange(
            start as int,
            start + n,
        ) + old(to)@.subrange((i + 1) * n, old(to).len() as int),
{
    if start > from.len() || n > from.len() - start {
        return Err(ImageError::FormatError);
    }
    if n == 0 {
        proof {
            assert((i + 1) * n == 0 && i * n == 0) by (nonlinear_arith)
                requires
                    n == 0,
            ;
            assert(to@ =~= to@.subrange(0, 0) + from@.subrange(start as int, start as int)
                + to@.subrange(0, to.len() as int));
        }
        return Ok(());
    }
    let ghost len = to.len() as int;
    proof {
        lemma_fundamental_div_mod(len, n as int);
    }
    if i >= to.len() / n {
        proof {
            assert((i + 1) * n > len) by (nonlinear_arith)
                requires
                    i >= len / (n as int),
                    n > 0,
                    len == n * (len / (n as int)) + len % (n as int),
                    len % (n as int) < n,
            ;
        }
        return Err(ImageError::FormatError);
    }
    proof {
        assert((i + 1) * n <= len && 0 <= i * n && (i + 1) * n == i * n + n) by (nonlinear_arith)
            requires
                0 <= i < len / (n as int),
                n > 0,
                len == n * (len / (n as int)) + len % (n as int),
                len % (n as int) >= 0,
        ;
    }
    let base: usize = i * n;
    let mut k: usize = 0;
    while k < n
        invariant
            k <= n,
            start + n <= from.len(),
            base == i * n,
            base + n <= to.len(),
            to.len() == old(to).len(),
            forall|j: int| 0 <= j < base ==> to[j] == old(to)[j],
            forall|j: int| base <= j < base + k ==> #[trigger] to[j] == from[start + j - base],
            forall|j: int| base + k <= j < to.len() ==> to[j] == old(to)[j],
        decreases n - k,
    {
        to[base + k] = from[start + k];
        k += 1;
    }
    proof {
        assert(to@ =~= old(to)@.subrange(0, i * n) + from@.subrange(start as int, start + n)
            + old(to)@.subrange((i + 1) * n, old(to).len() as int));
    }
    Ok(())
}

/// A buffer of `n` zero bytes.
pub fn zeros(n: usize) -> (v: Vec<u8>)
    ensures
        v.len() == n,
        forall|i: int| 0 <= i < n ==> v[i] == 0,
{
    let mut v: Vec<u8> = Vec::new();
    let mut i: usize = 0;
    while i < n
        invariant
            i <= n,
            v.len() == i,
            forall|j: int| 0 <= j < i ==> v[j] == 0,
        decreases n - i,
    {
        v.push(0);
        i += 1;
    }
    v
}

/// The first `k` calls of `read_scanline` answered with rows other than row
/// `y + 1`.
pub open spec fn others(answers: Seq<ImageResult<u32>>, y: u32, k: int) -> bool {
    forall|j: int| 0 <= j < k ==> (#[trigger] answers[j]) is Ok && answers[j]->Ok_0 != y + 1
}

/// The rows of the rectangle were taken, after call `f` of `read_scanline`
/// named the first of them: row `i` of the rectangle is `n` bytes, from
/// byte `start` on, of the row that call `f + i` read, and after each row
/// one more row was read. `answers` and `rows` hold what the calls answered
/// and read. The result is the rectangle, or the error of the first call
/// that failed, or `FormatError`, before any other call, if the rows are too
/// short for the rectangle.
pub open spec fn rows_taken(
    answers: Seq<ImageResult<u32>>,
    rows: Seq<Seq<u8>>,
    f: int,
    rowlen: usize,
    length: u32,
    start: int,
    n: int,
    r: ImageResult<Seq<u8>>,
) -> bool {
    if length > 0 && start + n > rowlen {
        r == Err::<Seq<u8>, ImageError>(ImageError::FormatError) && answers.len() == f + 1
    } else {
        ||| exists|i: int|
            {
                &&& 0 <= i < length
                &&& answers.len() == f + 2 + i
                &&& forall|j: int| f + 1 <= j < f + 1 + i ==> (#[trigger] answers[j]) is Ok
                &&& #[trigger] answers[f + 1 + i] is Err
                &&& r == Err::<Seq<u8>, ImageError>(answers[f + 1 + i]->Err_0)
            }
        ||| {
            &&& answers.len() == f + 1 + length
            &&& forall|j: int| f + 1 <= j < f + 1 + length ==> (#[trigger] answers[j]) is Ok
            &&& r is Ok
            &&& r->Ok_0.len() == length * n
            &&& forall|i: int|
                0 <= i < length ==> r->Ok_0.subrange(i * n, (i + 1) * n) == (#[trigger] rows[f
                    + i]).subrange(start, start + n)
        }
    }
}

/// What the calls of `read_scanline` in `load_rect` come to, given what they
/// answered and read: rows are read until a call `f` names row `y + 1`; an
/// error of a call is the result; after `h` rows that were others, one more
/// such row ends the search with `ImageEnd`. Where the row is found, the
/// rows of the rectangle are taken (`rows_taken`), unless `n` or `start` is
/// more than a vector can hold, which is a `DimensionError`.
pub open spec fn rows_read(
    answers: Seq<ImageResult<u32>>,
    rows: Seq<Seq<u8>>,
    rowlen: usize,
    y: u32,
    h: u32,
    length: u32,
    start: int,
    n: int,
    r: ImageResult<Seq<u8>>,
) -> bool {
    exists|f: int|
        {
            &&& 0 <= f <= h
            &&& f + 1 <= answers.len()
            &&& others(answers, y, f)
            &&& match #[trigger] answers[f] {
                Err(e) => r == Err::<Seq<u8>, ImageError>(e) && answers.len() == f + 1,
                Ok(row) => if row != y + 1 {
                    f == h && r == Err::<Seq<u8>, ImageError>(ImageError::ImageEnd)
                        && answers.len() == f + 1
                } else if n > usize::MAX || start > usize::MAX {
                    r == Err::<Seq<u8>, ImageError>(ImageError::DimensionError) && answers.len()
                        == f + 1
                } else {
                    rows_taken(answers, rows, f, rowlen, length, start, n, r)
                },
            }
        }
}

/// What `load_rect` makes of the first three answers of a decoder: its
/// dimensions, its color type and the length of its rows. An error of the
/// decoder is passed on; a rectangle that does not fit the dimensions
/// (`rect_refused`), or whose bytes no vector can hold, is a
/// `DimensionError`. With the error stands the number of answers that were
/// asked for. Else rows are read, of `rowlen` bytes, for an image of `h`
/// rows whose pixels have `bpp` bytes.
pub open spec fn rect_header(
    dims: ImageResult<(u32, u32)>,
    color: ImageResult<ColorType>,
    len: ImageResult<usize>,
    x: u32,
    y: u32,
    length: u32,
    width: u32,
) -> Result<(u32, int, usize), (ImageError, int)> {
    match dims {
        Err(e) => Err((e, 1)),
        Ok((w, h)) => if rect_refused(w, h, x, y, length, width) {
            Err((ImageError::DimensionError, 1))
        } else {
            match color {
                Err(e) => Err((e, 2)),
                Ok(c) => match len {
                    Err(e) => Err((e, 3)),
                    Ok(rowlen) => if length * width * bytes_of_pixel(c) > usize::MAX {
                        Err((ImageError::DimensionError, 3))
                    } else {
                        Ok((h, bytes_of_pixel(c), rowlen))
                    },
                },
            }
        },
    }
}

/// The trait that all decoders implement
///
/// Beside each method stands what it answers: a function of the decoder's
/// state that gives the answer and the state after the call. A decoder says
/// with these functions what it does; `load_rect` and whatever else works on
/// decoders is stated over them.
pub trait ImageDecoder: Sized {
    /// What `dimensions` answers in this state, and the state after it.
    spec fn dimensions_in(&self) -> (ImageResult<(u32, u32)>, Self);

    /// What `colortype` answers in this state, and the state after it.
    spec fn colortype_in(&self) -> (ImageResult<ColorType>, Self);

    /// What `row_len` answers in this state, and the state after it.
    spec fn row_len_in(&self) -> (ImageResult<usize>, Self);

    /// What `read_scanline` answers in this state for a buffer of `len`
    /// bytes, and the state after it.
    spec fn scanline_in(&self, len: usize) -> (ImageResult<u32>, Self);

    /// Byte `i` of the row that `read_scanline` puts into a buffer of `len`
    /// bytes in this state, where it answers with a row index.
    spec fn scanline_byte(&self, len: usize, i: usize) -> u8;

    /// What `read_image` answers in this state, and the state after it.
    spec fn image_in(&self) -> (ImageResult<Vec<u8>>, Self);

    /// Return a tuple containing the width and height of the image
    fn dimensions(&mut self) -> (r: ImageResult<(u32, u32)>)
        ensures
            (r, *final(self)) == old(self).dimensions_in(),
    ;

    /// Return the color type of the image e.g RGB(8) (8bit RGB)
    fn colortype(&mut self) -> (r: ImageResult<ColorType>)
        ensures
            (r, *final(self)) == old(self).colortype_in(),
    ;

    /// Returns the length in bytes of one decoded row of the image
    fn row_len(&mut self) -> (r: ImageResult<usize>)
        ensures
            (r, *final(self)) == old(self).row_len_in(),
    ;

    /// Read one row from the image into buf
    /// Returns the row index
    fn read_scanline(&mut self, buf: &mut [u8]) -> (r: ImageResult<u32>)
        ensures
            (r, *final(self)) == old(self).scanline_in(old(buf).len()),
            final(buf).len() == old(buf).len(),
            r is Ok ==> forall|i: int|
                0 <= i < old(buf).len() ==> #[trigger] final(buf)[i] == old(self).scanline_byte(
                    old(buf).len(),
                    i as usize,
                ),
    ;

    /// Decode the entire image and return it as a Vector
    fn read_image(&mut self) -> (r: ImageResult<Vec<u8>>)
        ensures
            *final(self) == old(self).image_in().1,
            match (r, old(self).image_in().0) {
                (Ok(v), Ok(m)) => v@ == m@,
                (Err(e), Err(f)) => e == f,
                _ => false,
            },
    ;

    /// Decode a specific region of the image, represented by the rectangle
    /// starting from `x` and `y` and having `length` and `width`
    ///
    /// The decoder is asked for its dimensions, its color type and the
    /// length of its rows (`rect_header`). Then rows are read until the
    /// decoder names row `y + 1`, but no more of them than the image has;
    /// then a row of the rectangle is taken from each row read, and the next
    /// row is read (`rows_read`). An error of the decoder ends the call with
    /// that error. The decoder is left in the state after the last call.
    fn load_rect(&mut self, x: u32, y: u32, length: u32, width: u32) -> (r: ImageResult<Vec<u8>>)
        ensures
            ({
                let (dims, d1) = old(self).dimensions_in();
                let (color, d2) = d1.colortype_in();
                let (len, d3) = d2.row_len_in();
                let result: ImageResult<Seq<u8>> = match r {
                    Ok(v) => Ok(v@),
                    Err(e) => Err(e),
                };
                match rect_header(dims, color, len, x, y, length, width) {
                    Err((e, asked)) => result == Err::<Seq<u8>, ImageError>(e) && *final(self)
                        == if asked == 1 {
                        d1
                    } else if asked == 2 {
                        d2
                    } else {
                        d3
                    },
                    Ok((h, bpp, rowlen)) => exists|st: Seq<Self>|
                        {
                            &&& st.len() >= 1
                            &&& #[trigger] st[0] == d3
                            &&& forall|j: int|
                                0 <= j < st.len() - 1 ==> st[j + 1] == (#[trigger] st[j]).scanline_in(
                                    rowlen,
                                ).1
                            &&& *final(self) == st.last()
                            &&& rows_read(
                                Seq::new((st.len() - 1) as nat, |j: int| st[j].scanline_in(rowlen).0),
                                Seq::new(
                                    (st.len() - 1) as nat,
                                    |j: int|
                                        Seq::new(
                                            rowlen as nat,
                                            |i: int| st[j].scanline_byte(rowlen, i as usize),
                                        ),
                                ),
                                rowlen,
                                y,
                                h,
                                length,
                                x * bpp,
                                width * bpp,
                                result,
                            )
                        },
                }
            }),
    {
        let ghost d0 = *self;
        let (w, h): (u32, u32) = match self.dimensions() {
            Ok(d) => d,
            Err(e) => {
                return Err(e);
            },
        };
        match check_rect(w, h, x, y, length, width) {
            Ok(_) => {},
            Err(e) => {
                return Err(e);
            },
        }
        let c: ColorType = match self.colortype() {
            Ok(c) => c,
            Err(e) => {
                return Err(e);
            },
        };
        let bpp: usize = bits_per_pixel(c) / 8;
        let rowlen: usize = match self.row_len() {
            Ok(n) => n,
            Err(e) => {
                return Err(e);
            },
        };
        let size: usize = match rect_size(length, width, bpp) {
            Some(n) => n,
            None => {
                return Err(ImageError::DimensionError);
            },
        };
        let mut buf: Vec<u8> = zeros(size);
        let mut tmp: Vec<u8> = zeros(rowlen);
        let ghost d3 = *self;
        let ghost sn = width * bpp;
        let ghost sstart = x * bpp;
        let ghost mut st: Seq<Self> = seq![*self];
        let ghost mut answers: Seq<ImageResult<u32>> = Seq::empty();
        let ghost mut rows: Seq<Seq<u8>> = Seq::empty();
        proof {
            assert(rect_header(
                d0.dimensions_in().0,
                d0.dimensions_in().1.colortype_in().0,
                d0.dimensions_in().1.colortype_in().1.row_len_in().0,
                x,
                y,
                length,
                width,
            ) == Ok::<(u32, int, usize), (ImageError, int)>((h, bpp as int, rowlen)));
        }
        let mut found: bool = false;
        let mut tries: u32 = 0;
        while !found
            invariant
                tries <= h,
                tmp.len() == rowlen,
                st.len() == answers.len() + 1,
                rows.len() == answers.len(),
                st[0] == d3,
                forall|j: int|
                    0 <= j < answers.len() ==> st[j + 1] == (#[trigger] st[j]).scanline_in(rowlen).1
                        && answers[j] == st[j].scanline_in(rowlen).0 && rows[j] == Seq::new(
                        rowlen as nat,
                        |i: int| st[j].scanline_byte(rowlen, i as usize),
                    ),
                st.last() == *self,
                others(answers, y, tries as int),
                !found ==> answers.len() == tries,
                found ==> answers.len() == tries + 1 && answers[tries as int] is Ok
                    && answers[tries as int]->Ok_0 == y + 1 && tmp@ == rows[tries as int],
                d3 == d0.dimensions_in().1.colortype_in().1.row_len_in().1,
                d0 == *old(self),
                rect_header(
                    d0.dimensions_in().0,
                    d0.dimensions_in().1.colortype_in().0,
                    d0.dimensions_in().1.colortype_in().1.row_len_in().0,
                    x,
                    y,
                    length,
                    width,
                ) == Ok::<(u32, int, usize), (ImageError, int)>((h, bpp as int, rowlen)),
                size == length * width * bpp,
                sn == width * bpp,
                sstart == x * bpp,
                0 <= bpp <= 128,
            decreases h - tries + (if found { 0int } else { 1int }),
        {
            let ghost before = *self;
            let row: Result<u32, ImageError> = self.read_scanline(tmp.as_mut_slice());
            proof {
                let st0 = st;
                let answers0 = answers;
                let rows0s = rows;
                st = st.push(*self);
                answers = answers.push(row);
                rows = rows.push(Seq::new(rowlen as nat, |i: int| before.scanline_byte(rowlen, i as usize)));
                assert forall|j: int| 0 <= j < answers.len() implies st[j + 1] == (
                #[trigger] st[j]).scanline_in(rowlen).1 && answers[j] == st[j].scanline_in(
                    rowlen,
                ).0 && rows[j] == Seq::new(
                    rowlen as nat,
                    |i: int| st[j].scanline_byte(rowlen, i as usize),
                ) by {
                    if j < answers.len() - 1 {
                        assert(st[j] == st0[j]);
                        assert(st[j + 1] == st0[j + 1]);
                        assert(answers[j] == answers0[j]);
                        assert(rows[j] == rows0s[j]);
                    } else {
                        assert(st[j] == before);
                    }
                }
                if row is Ok {
                    assert(tmp@ =~= rows[tries as int]);
                }
            }
            let row: u32 = match row {
                Ok(row) => row,
                Err(e) => {
                    proof {
                        assert(rows_read(
                            answers,
                            rows,
                            rowlen,
                            y,
                            h,
                            length,
                            sstart,
                            sn,
                            Err::<Seq<u8>, ImageError>(e),
                        )) by {
                            assert(answers[tries as int] is Err);
                        }
                        assert(answers =~= Seq::new(
                            (st.len() - 1) as nat,
                            |j: int| st[j].scanline_in(rowlen).0,
                        ));
                        assert(rows =~= Seq::new(
                            (st.len() - 1) as nat,
                            |j: int|
                                Seq::new(
                                    rowlen as nat,
                                    |i: int| st[j].scanline_byte(rowlen, i as usize),
                                ),
                        ));
                        assert(st[0] == d3);
                    }
                    return Err(e);
                },
            };
            if row as u64 == y as u64 + 1 {
                found = true;
            } else if tries == h {
                proof {
                    assert(rows_read(
                        answers,
                        rows,
                        rowlen,
                        y,
                        h,
                        length,
                        sstart,
                        sn,
                        Err::<Seq<u8>, ImageError>(ImageError::ImageEnd),
                    )) by {
                        assert(answers[tries as int] is Ok);
                    }
                    assert(answers =~= Seq::new(
                            (st.len() - 1) as nat,
                            |j: int| st[j].scanline_in(rowlen).0,
                        ));
                        assert(rows =~= Seq::new(
                            (st.len() - 1) as nat,
                            |j: int|
                                Seq::new(
                                    rowlen as nat,
                                    |i: int| st[j].scanline_byte(rowlen, i as usize),
                                ),
                        ));
                        assert(st[0] == d3);
                }
                return Err(ImageError::ImageEnd);
            } else {
                tries += 1;
            }
        }
        let ghost f = tries as int;
        proof {
            assert(0 <= width * bpp <= 0xFFFF_FFFF * 128 && 0 <= x * bpp <= 0xFFFF_FFFF * 128)
                by (nonlinear_arith)
                requires
                    0 <= width <= 0xFFFF_FFFF,
                    0 <= x <= 0xFFFF_FFFF,
                    0 <= bpp <= 128,
            ;
        }
        let n: u64 = width as u64 * bpp as u64;
        let start: u64 = x as u64 * bpp as u64;
        if n > usize::MAX as u64 || start > usize::MAX as u64 {
            proof {
                assert(rows_read(
                    answers,
                    rows,
                    rowlen,
                    y,
                    h,
                    length,
                    sstart,
                    sn,
                    Err::<Seq<u8>, ImageError>(ImageError::DimensionError),
                )) by {
                    assert(answers[f] is Ok);
                }
                assert(answers =~= Seq::new(
                            (st.len() - 1) as nat,
                            |j: int| st[j].scanline_in(rowlen).0,
                        ));
                        assert(rows =~= Seq::new(
                            (st.len() - 1) as nat,
                            |j: int|
                                Seq::new(
                                    rowlen as nat,
                                    |i: int| st[j].scanline_byte(rowlen, i as usize),
                                ),
                        ));
                        assert(st[0] == d3);
            }
            return Err(ImageError::DimensionError);
        }
        proof {
            assert(size == length * n) by (nonlinear_arith)
                requires
                    size == length * width * bpp,
                    n == width * bpp,
            ;
        }
        let mut i: usize = 0;
        while i < length as usize
            invariant
                i <= length,
                n <= usize::MAX,
                start <= usize::MAX,
                n == sn,
                start == sstart,
                0 <= f <= h,
                tmp.len() == rowlen,
                buf.len() == length * n,
                i > 0 ==> start + n <= rowlen,
                st.len() == answers.len() + 1,
                rows.len() == answers.len(),
                st[0] == d3,
                forall|j: int|
                    0 <= j < answers.len() ==> st[j + 1] == (#[trigger] st[j]).scanline_in(rowlen).1
                        && answers[j] == st[j].scanline_in(rowlen).0 && rows[j] == Seq::new(
                        rowlen as nat,
                        |i: int| st[j].scanline_byte(rowlen, i as usize),
                    ),
                st.last() == *self,
                answers.len() == f + 1 + i,
                others(answers, y, f),
                answers[f] is Ok,
                answers[f]->Ok_0 == y + 1,
                forall|j: int| f + 1 <= j < f + 1 + i ==> (#[trigger] answers[j]) is Ok,
                forall|k: int|
                    0 <= k < i ==> buf@.subrange(k * n, (k + 1) * n) == (#[trigger] rows[f
                        + k]).subrange(start as int, start + n),
                tmp@ == rows[f + i],
                d3 == d0.dimensions_in().1.colortype_in().1.row_len_in().1,
                d0 == *old(self),
                rect_header(
                    d0.dimensions_in().0,
                    d0.dimensions_in().1.colortype_in().0,
                    d0.dimensions_in().1.colortype_in().1.row_len_in().0,
                    x,
                    y,
                    length,
                    width,
                ) == Ok::<(u32, int, usize), (ImageError, int)>((h, bpp as int, rowlen)),
                sn == width * bpp,
                sstart == x * bpp,
            decreases length - i,
        {
            let ghost rows0 = buf@;
            proof {
                assert((i + 1) * n <= length * n && 0 <= i * n && (i + 1) * n == i * n + n)
                    by (nonlinear_arith)
                    requires
                        0 <= i < length,
                        0 <= n,
                ;
            }
            match copy_row(tmp.as_slice(), start as usize, n as usize, buf.as_mut_slice(), i) {
                Ok(_) => {},
                Err(e) => {
                    proof {
                        assert(i == 0);
                        assert(rows_taken(
                            answers,
                            rows,
                            f,
                            rowlen,
                            length,
                            sstart,
                            sn,
                            Err::<Seq<u8>, ImageError>(ImageError::FormatError),
                        ));
                        assert(rows_read(
                            answers,
                            rows,
                            rowlen,
                            y,
                            h,
                            length,
                            sstart,
                            sn,
                            Err::<Seq<u8>, ImageError>(e),
                        )) by {
                            assert(answers[f] is Ok);
                        }
                        assert(answers =~= Seq::new(
                            (st.len() - 1) as nat,
                            |j: int| st[j].scanline_in(rowlen).0,
                        ));
                        assert(rows =~= Seq::new(
                            (st.len() - 1) as nat,
                            |j: int|
                                Seq::new(
                                    rowlen as nat,
                                    |i: int| st[j].scanline_byte(rowlen, i as usize),
                                ),
                        ));
                        assert(st[0] == d3);
                    }
                    return Err(e);
                },
            }
            proof {
                let row = tmp@.subrange(start as int, start + n);
                assert forall|k: int| 0 <= k < i + 1 implies buf@.subrange(k * n, (k + 1) * n) == (
                #[trigger] rows[f + k]).subrange(start as int, start + n) by {
                    lemma_row_written(rows0, buf@, row, i as int, n as int, k);
                }
            }
            let ghost before = *self;
            let next: Result<u32, ImageError> = self.read_scanline(tmp.as_mut_slice());
            proof {
                let st0 = st;
                let answers0 = answers;
                let rows0s = rows;
                st = st.push(*self);
                answers = answers.push(next);
                rows = rows.push(Seq::new(rowlen as nat, |i: int| before.scanline_byte(rowlen, i as usize)));
                assert forall|j: int| 0 <= j < answers.len() implies st[j + 1] == (
                #[trigger] st[j]).scanline_in(rowlen).1 && answers[j] == st[j].scanline_in(
                    rowlen,
                ).0 && rows[j] == Seq::new(
                    rowlen as nat,
                    |i: int| st[j].scanline_byte(rowlen, i as usize),
                ) by {
                    if j < answers.len() - 1 {
                        assert(st[j] == st0[j]);
                        assert(st[j + 1] == st0[j + 1]);
                        assert(answers[j] == answers0[j]);
                        assert(rows[j] == rows0s[j]);
                    } else {
                        assert(st[j] == before);
                    }
                }
                if next is Ok {
                    assert(tmp@ =~= rows[f + 1 + i]);
                }
            }
            match next {
                Ok(_) => {},
                Err(e) => {
                    proof {
                        assert(rows_taken(
                            answers,
                            rows,
                            f,
                            rowlen,
                            length,
                            sstart,
                            sn,
                            Err::<Seq<u8>, ImageError>(e),
                        )) by {
                            assert(answers[f + 1 + i] is Err);
                        }
                        assert(rows_read(
                            answers,
                            rows,
                            rowlen,
                            y,
                            h,
                            length,
                            sstart,
                            sn,
                            Err::<Seq<u8>, ImageError>(e),
                        )) by {
                            assert(answers[f] is Ok);
                        }
                        assert(answers =~= Seq::new(
                            (st.len() - 1) as nat,
                            |j: int| st[j].scanline_in(rowlen).0,
                        ));
                        assert(rows =~= Seq::new(
                            (st.len() - 1) as nat,
                            |j: int|
                                Seq::new(
                                    rowlen as nat,
                                    |i: int| st[j].scanline_byte(rowlen, i as usize),
                                ),
                        ));
                        assert(st[0] == d3);
                    }
                    return Err(e);
                },
            }
            i += 1;
        }
        proof {
            assert(rows_taken(
                answers,
                rows,
                f,
                rowlen,
                length,
                sstart,
                sn,
                Ok::<Seq<u8>, ImageError>(buf@),
            ));
            assert(rows_read(
                answers,
                rows,
                rowlen,
                y,
                h,
                length,
                sstart,
                sn,
                Ok::<Seq<u8>, ImageError>(buf@),
            )) by {
                assert(answers[f] is Ok);
            }
            assert(answers =~= Seq::new(
                            (st.len() - 1) as nat,
                            |j: int| st[j].scanline_in(rowlen).0,
                        ));
                        assert(rows =~= Seq::new(
                            (st.len() - 1) as nat,
                            |j: int|
                                Seq::new(
                                    rowlen as nat,
                                    |i: int| st[j].scanline_byte(rowlen, i as usize),
                                ),
                        ));
                        assert(st[0] == d3);
        }
        Ok(buf)
    }
}

/// Where row `i` of a rectangle is written, of rows of `n` bytes, the rows
/// before it stay and row `i` is what was written.
proof fn lemma_row_written(old: Seq<u8>, new: Seq<u8>, row: Seq<u8>, i: int, n: int, k: int)
    requires
        0 <= n,
        0 <= k <= i,
        (i + 1) * n <= old.len(),
        row.len() == n,
        new == old.subrange(0, i * n) + row + old.subrange((i + 1) * n, old.len() as int),
    ensures
        new.len() == old.len(),
        k < i ==> new.subrange(k * n, (k + 1) * n) == old.subrange(k * n, (k + 1) * n),
        k == i ==> new.subrange(k * n, (k + 1) * n) == row,
{
    assert(0 <= k * n && (k + 1) * n == k * n + n && (i + 1) * n == i * n + n && (k < i ==> (k
        + 1) * n <= i * n)) by (nonlinear_arith)
        requires
            0 <= n,
            0 <= k <= i,
    ;
    if k < i {
        assert(new.subrange(k * n, (k + 1) * n) =~= old.subrange(k * n, (k + 1) * n));
    } else {
        assert(new.subrange(k * n, (k + 1) * n) =~= row);
    }
}

/// The number of whole bytes of a pixel of the color type `c`.
pub open spec fn bytes_of_pixel(c: ColorType) -> int {
    (match c {
        ColorType::Grey(n) => n as int,
        ColorType::RGB(n) => 3 * n,
        ColorType::Palette(n) => 3 * n,
        ColorType::GreyA(n) => 2 * n,
        ColorType::RGBA(n) => 4 * n,
    }) / 8
}

} // verus!
