//! The encoder for baseline JPEG images.
//!
//! An image is coded in blocks of 8 by 8 samples, left to right and top to
//! bottom, with one component for gray images and three (luminance and two
//! of chrominance, none of them subsampled) for color images. Each block is
//! transformed, quantized and entropy-coded with the tables of Annex K.

use crate::bitstring::{lemma_stuff_is_stuffed, pack, put, stuff, stuffed};
use crate::codecs::jpeg::entropy::{
    block_bits, codable, codes_ac, codes_dc, dc_difference, has_code, is_ac_symbol, segment,
    BitWriter, CodeLut,
};
use crate::codecs::jpeg::tables::{
    ac_place, lemma_chroma_ac_values_cover, lemma_luma_ac_values_cover, lemma_std_tables_fit,
    STD_CHROMA_AC_CODE_LENGTHS, STD_CHROMA_AC_VALUES, STD_CHROMA_DC_CODE_LENGTHS,
    STD_CHROMA_DC_VALUES, STD_CHROMA_QTABLE, STD_LUMA_AC_CODE_LENGTHS, STD_LUMA_AC_VALUES,
    STD_LUMA_DC_CODE_LENGTHS, STD_LUMA_DC_VALUES, STD_LUMA_QTABLE,
};
use crate::codecs::jpeg::{build_huff_lut, codes_upto, lut_entry, Component, UNZIGZAG};
use crate::colortype::ColorType;
use crate::error::ImageError;
use crate::transform::{fdct, fdct_coeff, lemma_quantize_bound, quantize, quantize_spec};
use vstd::prelude::*;

verus! {

/// The marker of a baseline frame.
pub const SOF0: u8 = 0xC0;

/// The marker of Huffman tables.
pub const DHT: u8 = 0xC4;

/// The marker at the start of an image.
pub const SOI: u8 = 0xD8;

/// The marker at the end of an image.
pub const EOI: u8 = 0xD9;

/// The marker at the start of a scan.
pub const SOS: u8 = 0xDA;

/// The marker of quantization tables.
pub const DQT: u8 = 0xDB;

/// The marker of the application segment that holds the JFIF header.
pub const APP0: u8 = 0xE0;

const DCCLASS: u8 = 0;

const ACCLASS: u8 = 1;

const LUMADESTINATION: u8 = 0;

const CHROMADESTINATION: u8 = 1;

const LUMAID: u8 = 1;

const CHROMABLUEID: u8 = 2;

const CHROMAREDID: u8 = 3;

/// The three components of a color image: luminance, blue and red
/// chrominance. None is subsampled. A gray image has the first only.
pub open spec fn std_components() -> Seq<Component> {
    seq![
        Component { id: 1, h: 1, v: 1, tq: 0, dc_table: 0, ac_table: 0, dc_pred: 0 },
        Component { id: 2, h: 1, v: 1, tq: 1, dc_table: 1, ac_table: 1, dc_pred: 0 },
        Component { id: 3, h: 1, v: 1, tq: 1, dc_table: 1, ac_table: 1, dc_pred: 0 },
    ]
}

/// The encoder's table for a table specification.
pub open spec fn lut_of(bits: Seq<u8>, values: Seq<u8>) -> CodeLut {
    Seq::new(256, |v: int| lut_entry(bits, values, v, values.len()))
}

/// The table for the DC differences of luminance.
pub open spec fn luma_dc_lut() -> CodeLut {
    lut_of(STD_LUMA_DC_CODE_LENGTHS@, STD_LUMA_DC_VALUES@)
}

/// The table for the AC coefficients of luminance.
pub open spec fn luma_ac_lut() -> CodeLut {
    lut_of(STD_LUMA_AC_CODE_LENGTHS@, STD_LUMA_AC_VALUES@)
}

/// The table for the DC differences of chrominance.
pub open spec fn chroma_dc_lut() -> CodeLut {
    lut_of(STD_CHROMA_DC_CODE_LENGTHS@, STD_CHROMA_DC_VALUES@)
}

/// The table for the AC coefficients of chrominance.
pub open spec fn chroma_ac_lut() -> CodeLut {
    lut_of(STD_CHROMA_AC_CODE_LENGTHS@, STD_CHROMA_AC_VALUES@)
}

/// The data of the JFIF segment: the identifier `JFIF` and a zero byte,
/// version 1.02, no density unit, a density of 1 by 1, no thumbnail.
pub open spec fn jfif_header() -> Seq<u8> {
    seq![0x4Au8, 0x46, 0x49, 0x46, 0x00, 0x01, 0x02, 0x00, 0x00, 0x01, 0x00, 0x01, 0x00, 0x00]
}

/// Three bytes for each component of a frame: its identifier, its sampling
/// factors, its quantization table.
pub open spec fn frame_components(components: Seq<Component>) -> Seq<u8>
    decreases components.len(),
{
    if components.len() == 0 {
        Seq::empty()
    } else {
        let c = components.last();
        frame_components(components.drop_last()) + seq![c.id, (c.h * 16 + c.v) as u8, c.tq]
    }
}

/// The data of a frame segment: the precision, height and width in two
/// bytes each, the number of components, and the components.
pub open spec fn frame_header(
    precision: u8,
    width: u16,
    height: u16,
    components: Seq<Component>,
) -> Seq<u8> {
    seq![
        precision,
        (height / 256) as u8,
        (height % 256) as u8,
        (width / 256) as u8,
        (width % 256) as u8,
        components.len() as u8,
    ] + frame_components(components)
}

/// Two bytes for each component of a scan: its identifier and its two
/// Huffman tables.
pub open spec fn scan_components(components: Seq<Component>) -> Seq<u8>
    decreases components.len(),
{
    if components.len() == 0 {
        Seq::empty()
    } else {
        let c = components.last();
        scan_components(components.drop_last()) + seq![
            c.id,
            (c.dc_table * 16 + c.ac_table) as u8,
        ]
    }
}

/// The data of a scan segment: the number of components, the components,
/// and the whole spectrum, 0 to 63, with no approximation.
pub open spec fn scan_header(components: Seq<Component>) -> Seq<u8> {
    seq![components.len() as u8] + scan_components(components) + seq![0u8, 63, 0]
}

/// The data of a Huffman table segment: class and destination, the number of
/// code words of each length, the values.
pub open spec fn huffman_segment(class: u8, destination: u8, numcodes: Seq<u8>, values: Seq<u8>) -> Seq<
    u8,
> {
    seq![(class * 16 + destination) as u8] + numcodes + values
}

/// The data of a quantization table segment: precision and identifier, and
/// the table in zig-zag order.
pub open spec fn quantization_segment(precision: u8, identifier: u8, qtable: Seq<u8>) -> Seq<u8> {
    let p: int = if precision == 8 {
        0
    } else {
        1
    };
    seq![(p * 16 + identifier) as u8] + Seq::new(64, |i: int| qtable[UNZIGZAG[i] as int])
}

/// The sample at `index` of `s`, or the last sample of `s` where `index` is
/// past its end.
pub open spec fn sample_at(s: Seq<u8>, index: int) -> u8 {
    if index < s.len() {
        s[index]
    } else {
        s[s.len() - 1]
    }
}

/// The place in the image of channel 0 of the pixel at `(x, y)`.
pub open spec fn pixel_index(x: int, y: int, width: int, bpp: int) -> int {
    y * bpp * width + x * bpp
}

/// The luminance of a color, `0.299 r + 0.587 g + 0.114 b`, rounded down.
pub open spec fn luma_of(r: u8, g: u8, b: u8) -> u8 {
    ((2990 * r + 5870 * g + 1140 * b) / 10000) as u8
}

/// The blue chrominance of a color, `128 - 0.1687 r - 0.3313 g + 0.5 b`,
/// rounded down.
pub open spec fn cb_of(r: u8, g: u8, b: u8) -> u8 {
    ((1280000 - 1687 * r - 3313 * g + 5000 * b) / 10000) as u8
}

/// The red chrominance of a color, `128 + 0.5 r - 0.4187 g - 0.0813 b`,
/// rounded down.
pub open spec fn cr_of(r: u8, g: u8, b: u8) -> u8 {
    ((1280000 + 5000 * r - 4187 * g - 813 * b) / 10000) as u8
}

/// Converts a color from red, green, blue to luminance and chrominance.
pub fn rgb_to_ycbcr(r: u8, g: u8, b: u8) -> (c: (u8, u8, u8))
    ensures
        c.0 == luma_of(r, g, b),
        c.1 == cb_of(r, g, b),
        c.2 == cr_of(r, g, b),
        c.0 == (2990 * r + 5870 * g + 1140 * b) / 10000,
        c.1 == (1280000 - 1687 * r - 3313 * g + 5000 * b) / 10000,
        c.2 == (1280000 + 5000 * r - 4187 * g - 813 * b) / 10000,
{
    let r: i32 = r as i32;
    let g: i32 = g as i32;
    let b: i32 = b as i32;
    let y: i32 = (2990 * r + 5870 * g + 1140 * b) / 10000;
    let cb: i32 = (1280000 - 1687 * r - 3313 * g + 5000 * b) / 10000;
    let cr: i32 = (1280000 + 5000 * r - 4187 * g - 813 * b) / 10000;
    (y as u8, cb as u8, cr as u8)
}

/// The sample at `index`, or the last sample where `index` is past the end.
pub fn value_at(s: &[u8], index: usize) -> (v: u8)
    requires
        s.len() > 0,
    ensures
        v == sample_at(s@, index as int),
{
    if index < s.len() {
        s[index]
    } else {
        s[s.len() - 1]
    }
}

/// The sample at the place `index`, which may be past what a `usize` holds.
fn value_at_wide(s: &[u8], index: u64) -> (v: u8)
    requires
        s.len() > 0,
    ensures
        v == sample_at(s@, index as int),
{
    if index < s.len() as u64 {
        value_at(s, index as usize)
    } else {
        value_at(s, s.len())
    }
}

/// The 64 samples of the block of a gray image whose top left pixel is at
/// `(x0, y0)`: channel 1 of each pixel.
pub open spec fn grey_samples(image: Seq<u8>, x0: int, y0: int, width: int, bpp: int) -> Seq<u8> {
    Seq::new(
        64,
        |i: int| sample_at(image, pixel_index(x0 + i % 8, y0 + i / 8, width, bpp) + 1),
    )
}

/// The 64 luminance samples of the block of a color image whose top left
/// pixel is at `(x0, y0)`.
pub open spec fn luma_samples(image: Seq<u8>, x0: int, y0: int, width: int, bpp: int) -> Seq<u8> {
    Seq::new(
        64,
        |i: int|
            {
                let at = pixel_index(x0 + i % 8, y0 + i / 8, width, bpp);
                luma_of(sample_at(image, at), sample_at(image, at + 1), sample_at(image, at + 2))
            },
    )
}

/// The 64 blue chrominance samples of a block of a color image.
pub open spec fn cb_samples(image: Seq<u8>, x0: int, y0: int, width: int, bpp: int) -> Seq<u8> {
    Seq::new(
        64,
        |i: int|
            {
                let at = pixel_index(x0 + i % 8, y0 + i / 8, width, bpp);
                cb_of(sample_at(image, at), sample_at(image, at + 1), sample_at(image, at + 2))
            },
    )
}

/// The 64 red chrominance samples of a block of a color image.
pub open spec fn cr_samples(image: Seq<u8>, x0: int, y0: int, width: int, bpp: int) -> Seq<u8> {
    Seq::new(
        64,
        |i: int|
            {
                let at = pixel_index(x0 + i % 8, y0 + i / 8, width, bpp);
                cr_of(sample_at(image, at), sample_at(image, at + 1), sample_at(image, at + 2))
            },
    )
}

/// The place of channel 0 of a pixel, computed without overflow.
fn pixel_place(x: usize, y: usize, width: usize, bpp: usize) -> (at: u64)
    requires
        x <= 0x20000,
        y <= 0x20000,
        width <= 0x10000,
        bpp <= 4,
    ensures
        at == pixel_index(x as int, y as int, width as int, bpp as int),
        at <= 0x1_0000_0000_0000,
{
    proof {
        assert(y * bpp <= 0x80000 && (y * bpp) * width <= 0x8_0000_0000 && x * bpp <= 0x80000)
            by (nonlinear_arith)
            requires
                0 <= x <= 0x20000,
                0 <= y <= 0x20000,
                0 <= width <= 0x10000,
                0 <= bpp <= 4,
        ;
    }
    (y as u64) * (bpp as u64) * (width as u64) + (x as u64) * (bpp as u64)
}

/// Fills the three blocks of a color image whose top left pixel is at
/// `(x0, y0)`.
pub fn copy_blocks_ycbcr(
    source: &[u8],
    x0: usize,
    y0: usize,
    width: usize,
    bpp: usize,
    yb: &mut [u8],
    cbb: &mut [u8],
    crb: &mut [u8],
)
    requires
        source.len() > 0,
        x0 <= 0x10000,
        y0 <= 0x10000,
        width <= 0x10000,
        bpp <= 4,
        old(yb).len() == 64,
        old(cbb).len() == 64,
        old(crb).len() == 64,
    ensures
        final(yb)@ == luma_samples(source@, x0 as int, y0 as int, width as int, bpp as int),
        final(cbb)@ == cb_samples(source@, x0 as int, y0 as int, width as int, bpp as int),
        final(crb)@ == cr_samples(source@, x0 as int, y0 as int, width as int, bpp as int),
{
    let ghost ys = luma_samples(source@, x0 as int, y0 as int, width as int, bpp as int);
    let ghost cbs = cb_samples(source@, x0 as int, y0 as int, width as int, bpp as int);
    let ghost crs = cr_samples(source@, x0 as int, y0 as int, width as int, bpp as int);
    let mut i: usize = 0;
    while i < 64
        invariant
            i <= 64,
            source.len() > 0,
            x0 <= 0x10000,
            y0 <= 0x10000,
            width <= 0x10000,
            bpp <= 4,
            yb.len() == 64,
            cbb.len() == 64,
            crb.len() == 64,
            ys == luma_samples(source@, x0 as int, y0 as int, width as int, bpp as int),
            cbs == cb_samples(source@, x0 as int, y0 as int, width as int, bpp as int),
            crs == cr_samples(source@, x0 as int, y0 as int, width as int, bpp as int),
            forall|j: int| 0 <= j < i ==> yb[j] == ys[j] && cbb[j] == cbs[j] && crb[j] == crs[j],
        decreases 64 - i,
    {
        let at: u64 = pixel_place(x0 + i % 8, y0 + i / 8, width, bpp);
        let r: u8 = value_at_wide(source, at);
        let g: u8 = value_at_wide(source, at + 1);
        let b: u8 = value_at_wide(source, at + 2);
        let (yc, cb, cr): (u8, u8, u8) = rgb_to_ycbcr(r, g, b);
        yb[i] = yc;
        cbb[i] = cb;
        crb[i] = cr;
        i += 1;
    }
    assert(yb@ =~= ys);
    assert(cbb@ =~= cbs);
    assert(crb@ =~= crs);
}

/// Fills the block of a gray image whose top left pixel is at `(x0, y0)`.
pub fn copy_blocks_grey(
    source: &[u8],
    x0: usize,
    y0: usize,
    width: usize,
    bpp: usize,
    gb: &mut [u8],
)
    requires
        source.len() > 0,
        x0 <= 0x10000,
        y0 <= 0x10000,
        width <= 0x10000,
        bpp <= 4,
        old(gb).len() == 64,
    ensures
        final(gb)@ == grey_samples(source@, x0 as int, y0 as int, width as int, bpp as int),
{
    let ghost gs = grey_samples(source@, x0 as int, y0 as int, width as int, bpp as int);
    let mut i: usize = 0;
    while i < 64
        invariant
            i <= 64,
            source.len() > 0,
            x0 <= 0x10000,
            y0 <= 0x10000,
            width <= 0x10000,
            bpp <= 4,
            gb.len() == 64,
            gs == grey_samples(source@, x0 as int, y0 as int, width as int, bpp as int),
            forall|j: int| 0 <= j < i ==> gb[j] == gs[j],
        decreases 64 - i,
    {
        let at: u64 = pixel_place(x0 + i % 8, y0 + i / 8, width, bpp);
        gb[i] = value_at_wide(source, at + 1);
        i += 1;
    }
    assert(gb@ =~= gs);
}

/// The quantized coefficients of a block of samples for the quantization
/// table `qtable`, in row-major order.
#[verifier::opaque]
pub open spec fn quantized(samples: Seq<u8>, qtable: Seq<u8>) -> Seq<i32> {
    Seq::new(64, |i: int| quantize_spec(fdct_coeff(samples, i), qtable[i] as int) as i32)
}

/// A buffer of 64 zeros.
fn zero_block() -> (v: Vec<u8>)
    ensures
        v.len() == 64,
{
    let mut v: Vec<u8> = Vec::new();
    let mut i: usize = 0;
    while i < 64
        invariant
            i <= 64,
            v.len() == i,
        decreases 64 - i,
    {
        v.push(0);
        i += 1;
    }
    v
}

/// A buffer of 64 zero coefficients.
fn zero_coefficients() -> (v: Vec<i32>)
    ensures
        v.len() == 64,
{
    let mut v: Vec<i32> = Vec::new();
    let mut i: usize = 0;
    while i < 64
        invariant
            i <= 64,
            v.len() == i,
        decreases 64 - i,
    {
        v.push(0);
        i += 1;
    }
    v
}

/// Transforms a block of samples and quantizes the result with the 64
/// entries of `tables` from `offset` on, none of which is below 10.
fn transform_block(samples: &[u8], coeffs: &mut [i32], tables: &[u8], offset: usize)
    requires
        samples.len() == 64,
        old(coeffs).len() == 64,
        offset + 64 <= tables.len(),
        forall|i: int| 0 <= i < 64 ==> #[trigger] tables[offset + i] >= 10,
    ensures
        final(coeffs).len() == 64,
        final(coeffs)@ == quantized(samples@, tables@.subrange(offset as int, offset + 64)),
        forall|i: int| 0 <= i < 64 ==> -501 <= #[trigger] final(coeffs)@[i] <= 501,
{
    proof {
        reveal(quantized);
    }
    fdct(samples, coeffs);
    let ghost q = tables@.subrange(offset as int, offset + 64);
    let ghost goal = quantized(samples@, q);
    assert(goal.len() == 64) by {
        reveal(quantized);
    }
    let mut i: usize = 0;
    while i < 64
        invariant
            i <= 64,
            coeffs.len() == 64,
            offset + 64 <= tables.len(),
            q == tables@.subrange(offset as int, offset + 64),
            goal == quantized(samples@, q),
            goal.len() == 64,
            forall|j: int| 0 <= j < 64 ==> #[trigger] tables[offset + j] >= 10,
            forall|j: int| 0 <= j < i ==> #[trigger] coeffs[j] == goal[j],
            forall|j: int| 0 <= j < i ==> -501 <= #[trigger] coeffs[j] <= 501,
            forall|j: int| i <= j < 64 ==> #[trigger] coeffs[j] == fdct_coeff(samples@, j),
            forall|j: int| i <= j < 64 ==> -40000 <= #[trigger] coeffs[j] <= 40000,
        decreases 64 - i,
    {
        let c: i32 = coeffs[i];
        let t: u8 = tables[offset + i];
        proof {
            reveal(quantized);
            assert(tables[offset + i] >= 10);
            assert(q[i as int] == t);
            assert(-8 * (t as int) * 500 <= c <= 8 * (t as int) * 500) by (nonlinear_arith)
                requires
                    t >= 10,
                    -40000 <= c <= 40000,
            ;
            lemma_quantize_bound(c as int, t as int, 500);
        }
        coeffs[i] = quantize(c, t);
        i += 1;
    }
    proof {
        reveal(quantized);
        assert(coeffs@ =~= goal);
        assert forall|i: int| 0 <= i < 64 implies -501 <= #[trigger] coeffs@[i] <= 501 by {
            assert(-501 <= coeffs[i] <= 501);
        }
    }
}


/// The number of blocks that cover `n` samples.
pub open spec fn blocks_for(n: int) -> int {
    (n + 7) / 8
}

/// The entropy-coded bits of a gray image from the block at
/// `(8 * bx, 8 * by)` on, after `bits`; `prev` is the DC coefficient of the
/// block before. The blocks go left to right, then top to bottom.
#[verifier::opaque]
pub open spec fn grey_scan(
    bits: Seq<bool>,
    prev: int,
    image: Seq<u8>,
    width: int,
    height: int,
    bpp: int,
    bx: int,
    by: int,
) -> Seq<bool>
    decreases blocks_for(height) - by, blocks_for(width) - bx,
{
    if by >= blocks_for(height) || bx < 0 {
        bits
    } else if bx >= blocks_for(width) {
        grey_scan(bits, prev, image, width, height, bpp, 0, by + 1)
    } else {
        let block = quantized(grey_samples(image, 8 * bx, 8 * by, width, bpp), STD_LUMA_QTABLE@);
        grey_scan(
            block_bits(bits, block, prev, luma_dc_lut(), luma_ac_lut()),
            block[0] as int,
            image,
            width,
            height,
            bpp,
            bx + 1,
            by,
        )
    }
}

/// The bits of the three blocks at `(x0, y0)` of a color image, after
/// `bits`: luminance, blue chrominance, red chrominance. `prev` holds the DC
/// coefficients of the three blocks before.
pub open spec fn color_block_bits(
    bits: Seq<bool>,
    prev: (int, int, int),
    image: Seq<u8>,
    x0: int,
    y0: int,
    width: int,
    bpp: int,
) -> Seq<bool> {
    let y = quantized(luma_samples(image, x0, y0, width, bpp), STD_LUMA_QTABLE@);
    let cb = quantized(cb_samples(image, x0, y0, width, bpp), STD_CHROMA_QTABLE@);
    let cr = quantized(cr_samples(image, x0, y0, width, bpp), STD_CHROMA_QTABLE@);
    block_bits(
        block_bits(
            block_bits(bits, y, prev.0, luma_dc_lut(), luma_ac_lut()),
            cb,
            prev.1,
            chroma_dc_lut(),
            chroma_ac_lut(),
        ),
        cr,
        prev.2,
        chroma_dc_lut(),
        chroma_ac_lut(),
    )
}

/// The DC coefficients of the three blocks at `(x0, y0)` of a color image.
pub open spec fn color_block_dc(image: Seq<u8>, x0: int, y0: int, width: int, bpp: int) -> (
    int,
    int,
    int,
) {
    (
        quantized(luma_samples(image, x0, y0, width, bpp), STD_LUMA_QTABLE@)[0] as int,
        quantized(cb_samples(image, x0, y0, width, bpp), STD_CHROMA_QTABLE@)[0] as int,
        quantized(cr_samples(image, x0, y0, width, bpp), STD_CHROMA_QTABLE@)[0] as int,
    )
}

/// The entropy-coded bits of a color image from the blocks at
/// `(8 * bx, 8 * by)` on, after `bits`.
#[verifier::opaque]
pub open spec fn color_scan(
    bits: Seq<bool>,
    prev: (int, int, int),
    image: Seq<u8>,
    width: int,
    height: int,
    bpp: int,
    bx: int,
    by: int,
) -> Seq<bool>
    decreases blocks_for(height) - by, blocks_for(width) - bx,
{
    if by >= blocks_for(height) || bx < 0 {
        bits
    } else if bx >= blocks_for(width) {
        color_scan(bits, prev, image, width, height, bpp, 0, by + 1)
    } else {
        color_scan(
            color_block_bits(bits, prev, image, 8 * bx, 8 * by, width, bpp),
            color_block_dc(image, 8 * bx, 8 * by, width, bpp),
            image,
            width,
            height,
            bpp,
            bx + 1,
            by,
        )
    }
}

/// The scan of a gray image from the block at `(8 * bx, 8 * by)` on, as
/// `grey_scan` walks it, with an account of the DC differences: the bits
/// after `bits`, the sum of the DC differences that are coded, added to
/// `sum`, and the DC coefficient of the last block. `prev` is the DC
/// coefficient of the block before.
pub open spec fn grey_walk(
    bits: Seq<bool>,
    sum: int,
    prev: int,
    image: Seq<u8>,
    width: int,
    height: int,
    bpp: int,
    bx: int,
    by: int,
) -> (Seq<bool>, int, int)
    decreases blocks_for(height) - by, blocks_for(width) - bx,
{
    if by >= blocks_for(height) || bx < 0 {
        (bits, sum, prev)
    } else if bx >= blocks_for(width) {
        grey_walk(bits, sum, prev, image, width, height, bpp, 0, by + 1)
    } else {
        let block = quantized(grey_samples(image, 8 * bx, 8 * by, width, bpp), STD_LUMA_QTABLE@);
        grey_walk(
            block_bits(bits, block, prev, luma_dc_lut(), luma_ac_lut()),
            sum + dc_difference(block, prev),
            block[0] as int,
            image,
            width,
            height,
            bpp,
            bx + 1,
            by,
        )
    }
}

/// The walk with its account codes what `grey_scan` codes, and the sum of
/// the DC differences stays as far from the last DC coefficient as it was
/// at the start.
pub proof fn lemma_grey_walk(
    bits: Seq<bool>,
    sum: int,
    prev: int,
    image: Seq<u8>,
    width: int,
    height: int,
    bpp: int,
    bx: int,
    by: int,
)
    ensures
        grey_walk(bits, sum, prev, image, width, height, bpp, bx, by).0 == grey_scan(
            bits,
            prev,
            image,
            width,
            height,
            bpp,
            bx,
            by,
        ),
        grey_walk(bits, sum, prev, image, width, height, bpp, bx, by).1 - grey_walk(
            bits,
            sum,
            prev,
            image,
            width,
            height,
            bpp,
            bx,
            by,
        ).2 == sum - prev,
    decreases blocks_for(height) - by, blocks_for(width) - bx,
{
    reveal(grey_scan);
    if by >= blocks_for(height) || bx < 0 {
    } else if bx >= blocks_for(width) {
        lemma_grey_walk(bits, sum, prev, image, width, height, bpp, 0, by + 1);
    } else {
        let block = quantized(grey_samples(image, 8 * bx, 8 * by, width, bpp), STD_LUMA_QTABLE@);
        lemma_grey_walk(
            block_bits(bits, block, prev, luma_dc_lut(), luma_ac_lut()),
            sum + dc_difference(block, prev),
            block[0] as int,
            image,
            width,
            height,
            bpp,
            bx + 1,
            by,
        );
    }
}

/// In the scan of a gray image the DC differences that are coded add up to
/// the DC coefficient of the last block: the first block is coded against a
/// DC coefficient of zero, each other block against the block before it.
pub proof fn lemma_grey_dc_continuity(
    bits: Seq<bool>,
    image: Seq<u8>,
    width: int,
    height: int,
    bpp: int,
)
    ensures
        ({
            let (coded, sum, last) = grey_walk(bits, 0, 0, image, width, height, bpp, 0, 0);
            coded == grey_scan(bits, 0, image, width, height, bpp, 0, 0) && sum == last
        }),
{
    lemma_grey_walk(bits, 0, 0, image, width, height, bpp, 0, 0);
}

/// The scan of a color image from the blocks at `(8 * bx, 8 * by)` on, as
/// `color_scan` walks it, with an account of the DC differences: the bits
/// after `bits`, for each of the three components the sum of the DC
/// differences that are coded, added to `sums`, and the DC coefficients of
/// the last three blocks. `prev` holds the DC coefficients of the three
/// blocks before.
pub open spec fn color_walk(
    bits: Seq<bool>,
    sums: (int, int, int),
    prev: (int, int, int),
    image: Seq<u8>,
    width: int,
    height: int,
    bpp: int,
    bx: int,
    by: int,
) -> (Seq<bool>, (int, int, int), (int, int, int))
    decreases blocks_for(height) - by, blocks_for(width) - bx,
{
    if by >= blocks_for(height) || bx < 0 {
        (bits, sums, prev)
    } else if bx >= blocks_for(width) {
        color_walk(bits, sums, prev, image, width, height, bpp, 0, by + 1)
    } else {
        let y = quantized(luma_samples(image, 8 * bx, 8 * by, width, bpp), STD_LUMA_QTABLE@);
        let cb = quantized(cb_samples(image, 8 * bx, 8 * by, width, bpp), STD_CHROMA_QTABLE@);
        let cr = quantized(cr_samples(image, 8 * bx, 8 * by, width, bpp), STD_CHROMA_QTABLE@);
        color_walk(
            color_block_bits(bits, prev, image, 8 * bx, 8 * by, width, bpp),
            (
                sums.0 + dc_difference(y, prev.0),
                sums.1 + dc_difference(cb, prev.1),
                sums.2 + dc_difference(cr, prev.2),
            ),
            color_block_dc(image, 8 * bx, 8 * by, width, bpp),
            image,
            width,
            height,
            bpp,
            bx + 1,
            by,
        )
    }
}

/// The walk with its account codes what `color_scan` codes, and for each
/// component the sum of the DC differences stays as far from the last DC
/// coefficient as it was at the start.
pub proof fn lemma_color_walk(
    bits: Seq<bool>,
    sums: (int, int, int),
    prev: (int, int, int),
    image: Seq<u8>,
    width: int,
    height: int,
    bpp: int,
    bx: int,
    by: int,
)
    ensures
        ({
            let (coded, total, last) = color_walk(
                bits,
                sums,
                prev,
                image,
                width,
                height,
                bpp,
                bx,
                by,
            );
            &&& coded == color_scan(bits, prev, image, width, height, bpp, bx, by)
            &&& total.0 - last.0 == sums.0 - prev.0
            &&& total.1 - last.1 == sums.1 - prev.1
            &&& total.2 - last.2 == sums.2 - prev.2
        }),
    decreases blocks_for(height) - by, blocks_for(width) - bx,
{
    reveal(color_scan);
    if by >= blocks_for(height) || bx < 0 {
    } else if bx >= blocks_for(width) {
        lemma_color_walk(bits, sums, prev, image, width, height, bpp, 0, by + 1);
    } else {
        let y = quantized(luma_samples(image, 8 * bx, 8 * by, width, bpp), STD_LUMA_QTABLE@);
        let cb = quantized(cb_samples(image, 8 * bx, 8 * by, width, bpp), STD_CHROMA_QTABLE@);
        let cr = quantized(cr_samples(image, 8 * bx, 8 * by, width, bpp), STD_CHROMA_QTABLE@);
        lemma_color_walk(
            color_block_bits(bits, prev, image, 8 * bx, 8 * by, width, bpp),
            (
                sums.0 + dc_difference(y, prev.0),
                sums.1 + dc_difference(cb, prev.1),
                sums.2 + dc_difference(cr, prev.2),
            ),
            color_block_dc(image, 8 * bx, 8 * by, width, bpp),
            image,
            width,
            height,
            bpp,
            bx + 1,
            by,
        );
    }
}

/// In the scan of a color image the DC differences that are coded for a
/// component add up to the DC coefficient of the component's last block:
/// each component has a predictor of its own, which starts at zero.
pub proof fn lemma_color_dc_continuity(
    bits: Seq<bool>,
    image: Seq<u8>,
    width: int,
    height: int,
    bpp: int,
)
    ensures
        ({
            let (coded, sums, last) = color_walk(
                bits,
                (0, 0, 0),
                (0, 0, 0),
                image,
                width,
                height,
                bpp,
                0,
                0,
            );
            coded == color_scan(bits, (0, 0, 0), image, width, height, bpp, 0, 0) && sums == last
        }),
{
    lemma_color_walk(bits, (0, 0, 0), (0, 0, 0), image, width, height, bpp, 0, 0);
}

/// The color types that can be encoded: 8-bit gray and color, with or
/// without alpha, which is ignored.
pub open spec fn supported(c: ColorType) -> bool {
    c == ColorType::RGB(8) || c == ColorType::RGBA(8) || c == ColorType::Grey(8) || c
        == ColorType::GreyA(8)
}

/// The number of components an image of a supported color type is encoded
/// with.
pub open spec fn coded_components(c: ColorType) -> int {
    match c {
        ColorType::Grey(_) => 1,
        ColorType::GreyA(_) => 1,
        _ => 3,
    }
}

/// The number of bytes of a pixel of a supported color type.
pub open spec fn bytes_per_pixel(c: ColorType) -> int {
    match c {
        ColorType::Grey(_) => 1,
        ColorType::GreyA(_) => 2,
        ColorType::RGB(_) => 3,
        _ => 4,
    }
}

/// Why an image cannot be encoded, if it cannot: its color type is not
/// supported, a dimension is above 65535, or it has pixels but no data.
pub open spec fn encode_error(image: Seq<u8>, width: u32, height: u32, c: ColorType) -> Option<
    ImageError,
> {
    if !supported(c) {
        Some(ImageError::UnsupportedColor)
    } else if width > 65535 || height > 65535 {
        Some(ImageError::DimensionError)
    } else if width > 0 && height > 0 && image.len() == 0 {
        Some(ImageError::NotEnoughData)
    } else {
        None
    }
}

/// The segments before the entropy-coded data of an image with `n`
/// components: start of image, JFIF header, quantization tables, Huffman
/// tables, frame, start of scan.
#[verifier::opaque]
pub open spec fn file_headers(width: u16, height: u16, n: int) -> Seq<u8> {
    let tables = segment(SOI, None) + segment(APP0, Some(jfif_header())) + segment(
        DQT,
        Some(quantization_segment(8, 0, STD_LUMA_QTABLE@)),
    ) + (if n == 3 {
        segment(DQT, Some(quantization_segment(8, 1, STD_CHROMA_QTABLE@)))
    } else {
        Seq::empty()
    }) + segment(
        DHT,
        Some(huffman_segment(0, 0, STD_LUMA_DC_CODE_LENGTHS@, STD_LUMA_DC_VALUES@)),
    ) + segment(
        DHT,
        Some(huffman_segment(1, 0, STD_LUMA_AC_CODE_LENGTHS@, STD_LUMA_AC_VALUES@)),
    ) + (if n == 3 {
        segment(
            DHT,
            Some(huffman_segment(0, 1, STD_CHROMA_DC_CODE_LENGTHS@, STD_CHROMA_DC_VALUES@)),
        ) + segment(
            DHT,
            Some(huffman_segment(1, 1, STD_CHROMA_AC_CODE_LENGTHS@, STD_CHROMA_AC_VALUES@)),
        )
    } else {
        Seq::empty()
    });
    tables + segment(SOF0, Some(frame_header(8, width, height, std_components().take(n))))
        + segment(SOS, Some(scan_header(std_components().take(n))))
}

/// The entropy-coded bits of an image of a supported color type, before the
/// padding.
pub open spec fn scan_bits(image: Seq<u8>, width: u32, height: u32, c: ColorType) -> Seq<bool> {
    if coded_components(c) == 1 {
        grey_scan(
            Seq::empty(),
            0,
            image,
            width as int,
            height as int,
            bytes_per_pixel(c),
            0,
            0,
        )
    } else {
        color_scan(
            Seq::empty(),
            (0, 0, 0),
            image,
            width as int,
            height as int,
            bytes_per_pixel(c),
            0,
            0,
        )
    }
}

/// The JPEG file of an image: the header segments, the entropy-coded data
/// with seven one-bits of padding, packed into bytes and stuffed, and the
/// end of image.
pub open spec fn jpeg_file(image: Seq<u8>, width: u32, height: u32, c: ColorType) -> Seq<u8> {
    file_headers(width as u16, height as u16, coded_components(c)) + stuff(
        pack(put(scan_bits(image, width, height, c), 0x7F, 7)),
    ) + segment(EOI, None)
}

/// The entropy-coded data of a file.
pub open spec fn scan_data(image: Seq<u8>, width: u32, height: u32, c: ColorType) -> Seq<u8> {
    stuff(pack(put(scan_bits(image, width, height, c), 0x7F, 7)))
}

/// A file is its headers, its entropy-coded data and the end-of-image
/// marker, and in the entropy-coded data every `0xFF` is followed by a zero
/// byte.
pub proof fn lemma_scan_data_is_stuffed(image: Seq<u8>, width: u32, height: u32, c: ColorType)
    ensures
        jpeg_file(image, width, height, c) == file_headers(
            width as u16,
            height as u16,
            coded_components(c),
        ) + scan_data(image, width, height, c) + seq![0xFFu8, EOI],
        stuffed(scan_data(image, width, height, c)),
{
    lemma_stuff_is_stuffed(pack(put(scan_bits(image, width, height, c), 0x7F, 7)));
}

/// The data of the JFIF segment.
pub fn build_jfif_header() -> (m: Vec<u8>)
    ensures
        m@ == jfif_header(),
{
    let mut m: Vec<u8> = Vec::new();
    m.push(0x4A);
    m.push(0x46);
    m.push(0x49);
    m.push(0x46);
    m.push(0);
    m.push(0x01);
    m.push(0x02);
    m.push(0);
    m.push(0);
    m.push(1);
    m.push(0);
    m.push(1);
    m.push(0);
    m.push(0);
    assert(m@ =~= jfif_header());
    m
}

/// The data of a frame segment.
pub fn build_frame_header(precision: u8, width: u16, height: u16, components: &[Component]) -> (m:
    Vec<u8>)
    requires
        components.len() <= 255,
        forall|i: int| 0 <= i < components.len() ==> components[i].h <= 15 && components[i].v <= 15,
    ensures
        m@ == frame_header(precision, width, height, components@),
        m.len() == 6 + 3 * components.len(),
{
    let mut m: Vec<u8> = Vec::new();
    m.push(precision);
    m.push((height / 256) as u8);
    m.push((height % 256) as u8);
    m.push((width / 256) as u8);
    m.push((width % 256) as u8);
    m.push(components.len() as u8);
    let ghost head = m@;
    assert(components@.take(0) =~= Seq::<Component>::empty());
    let mut i: usize = 0;
    while i < components.len()
        invariant
            i <= components.len(),
            forall|i: int|
                0 <= i < components.len() ==> components[i].h <= 15 && components[i].v <= 15,
            m@ == head + frame_components(components@.take(i as int)),
            head.len() == 6,
            m.len() == 6 + 3 * i,
        decreases components.len() - i,
    {
        let comp: Component = components[i];
        m.push(comp.id);
        m.push(comp.h * 16 + comp.v);
        m.push(comp.tq);
        i += 1;
        proof {
            let t = components@.take(i as int);
            assert(t.drop_last() =~= components@.take(i - 1));
            assert(t.last() == comp);
            assert(m@ =~= head + frame_components(t));
        }
    }
    assert(components@.take(components.len() as int) =~= components@);
    m
}

/// The data of a scan segment.
pub fn build_scan_header(components: &[Component]) -> (m: Vec<u8>)
    requires
        components.len() <= 255,
        forall|i: int|
            0 <= i < components.len() ==> components[i].dc_table <= 15 && components[i].ac_table
                <= 15,
    ensures
        m@ == scan_header(components@),
        m.len() == 4 + 2 * components.len(),
{
    let mut m: Vec<u8> = Vec::new();
    m.push(components.len() as u8);
    let ghost head = m@;
    assert(components@.take(0) =~= Seq::<Component>::empty());
    let mut i: usize = 0;
    while i < components.len()
        invariant
            i <= components.len(),
            forall|i: int|
                0 <= i < components.len() ==> components[i].dc_table <= 15
                    && components[i].ac_table <= 15,
            m@ == head + scan_components(components@.take(i as int)),
            head.len() == 1,
            m.len() == 1 + 2 * i,
        decreases components.len() - i,
    {
        let comp: Component = components[i];
        m.push(comp.id);
        m.push(comp.dc_table * 16 + comp.ac_table);
        i += 1;
        proof {
            let t = components@.take(i as int);
            assert(t.drop_last() =~= components@.take(i - 1));
            assert(t.last() == comp);
            assert(m@ =~= head + scan_components(t));
        }
    }
    assert(components@.take(components.len() as int) =~= components@);
    // spectral start and end, approximation
    m.push(0);
    m.push(63);
    m.push(0);
    assert(m@ =~= scan_header(components@));
    m
}

/// Appends the bytes of `data` to `m`.
fn append(m: &mut Vec<u8>, data: &[u8])
    ensures
        final(m)@ == old(m)@ + data@,
{
    let mut i: usize = 0;
    while i < data.len()
        invariant
            i <= data.len(),
            m@ == old(m)@ + data@.take(i as int),
        decreases data.len() - i,
    {
        m.push(data[i]);
        i += 1;
        assert(m@ =~= old(m)@ + data@.take(i as int));
    }
    assert(data@.take(data.len() as int) =~= data@);
}

/// The data of a Huffman table segment.
pub fn build_huffman_segment(class: u8, destination: u8, numcodes: &[u8], values: &[u8]) -> (m:
    Vec<u8>)
    requires
        class <= 15,
        destination <= 15,
        numcodes.len() == 16,
        values.len() == codes_upto(numcodes@, 16),
    ensures
        m@ == huffman_segment(class, destination, numcodes@, values@),
{
    let mut m: Vec<u8> = Vec::new();
    let tcth: u8 = class * 16 + destination;
    m.push(tcth);
    append(&mut m, numcodes);
    append(&mut m, values);
    m
}

/// The data of a quantization table segment.
pub fn build_quantization_segment(precision: u8, identifier: u8, qtable: &[u8]) -> (m: Vec<u8>)
    requires
        identifier <= 15,
        qtable.len() == 64,
    ensures
        m@ == quantization_segment(precision, identifier, qtable@),
{
    let mut m: Vec<u8> = Vec::new();
    let p: u8 = if precision == 8 {
        0
    } else {
        1
    };
    let pqtq: u8 = p * 16 + identifier;
    m.push(pqtq);
    let ghost head = m@;
    let mut i: usize = 0;
    while i < 64
        invariant
            i <= 64,
            qtable.len() == 64,
            m@ == head + Seq::new(i as nat, |k: int| qtable[UNZIGZAG[k] as int]),
        decreases 64 - i,
    {
        assert(UNZIGZAG[i as int] < 64);
        m.push(qtable[UNZIGZAG[i] as usize]);
        i += 1;
        assert(m@ =~= head + Seq::new(i as nat, |k: int| qtable[UNZIGZAG[k] as int]));
    }
    m
}

/// The components and tables are those of Annex K, and each table has a
/// code word for everything a block can hold.
#[verifier::opaque]
spec fn tables_ok(
    components: Seq<Component>,
    tables: Seq<u8>,
    luma_dc: CodeLut,
    luma_ac: CodeLut,
    chroma_dc: CodeLut,
    chroma_ac: CodeLut,
) -> bool {
    &&& components == std_components()
    &&& tables == STD_LUMA_QTABLE@ + STD_CHROMA_QTABLE@
    &&& luma_dc == luma_dc_lut()
    &&& luma_ac == luma_ac_lut()
    &&& chroma_dc == chroma_dc_lut()
    &&& chroma_ac == chroma_ac_lut()
    &&& codes_dc(luma_dc)
    &&& codes_ac(luma_ac)
    &&& codes_dc(chroma_dc)
    &&& codes_ac(chroma_ac)
}

/// An encoder of baseline JPEG images into a byte buffer.
pub struct JPEGEncoder {
    w: BitWriter,
    components: Vec<Component>,
    tables: Vec<u8>,
    luma_dctable: Vec<(u8, u16)>,
    luma_actable: Vec<(u8, u16)>,
    chroma_dctable: Vec<(u8, u16)>,
    chroma_actable: Vec<(u8, u16)>,
}

impl JPEGEncoder {
    /// The bytes written so far.
    pub closed spec fn bytes(&self) -> Seq<u8> {
        self.w.bytes()
    }

    /// The bits of entropy-coded data that were written since the last
    /// segment. A new encoder has none, and none is left when an image has
    /// been encoded.
    pub closed spec fn pending(&self) -> Seq<bool> {
        self.w.scan()
    }

    /// The encoder holds the tables of Annex K, and its writer is sound.
    pub closed spec fn wf(&self) -> bool {
        &&& self.w.wf()
        &&& tables_ok(
            self.components@,
            self.tables@,
            self.luma_dctable@,
            self.luma_actable@,
            self.chroma_dctable@,
            self.chroma_actable@,
        )
    }

    /// Create a new encoder that appends its output to `w`.
    pub fn new(w: Vec<u8>) -> (e: JPEGEncoder)
        ensures
            e.wf(),
            e.bytes() == w@,
            e.pending() == Seq::<bool>::empty(),
    {
        proof {
            lemma_std_tables_fit();
        }
        let ld = build_huff_lut(
            STD_LUMA_DC_CODE_LENGTHS.as_slice(),
            STD_LUMA_DC_VALUES.as_slice(),
        );
        let la = build_huff_lut(
            STD_LUMA_AC_CODE_LENGTHS.as_slice(),
            STD_LUMA_AC_VALUES.as_slice(),
        );
        let cd = build_huff_lut(
            STD_CHROMA_DC_CODE_LENGTHS.as_slice(),
            STD_CHROMA_DC_VALUES.as_slice(),
        );
        let ca = build_huff_lut(
            STD_CHROMA_AC_CODE_LENGTHS.as_slice(),
            STD_CHROMA_AC_VALUES.as_slice(),
        );
        proof {
            assert(ld@ =~= luma_dc_lut());
            assert(la@ =~= luma_ac_lut());
            assert(cd@ =~= chroma_dc_lut());
            assert(ca@ =~= chroma_ac_lut());
            lemma_dc_complete(ld@, STD_LUMA_DC_VALUES@);
            lemma_dc_complete(cd@, STD_CHROMA_DC_VALUES@);
            lemma_luma_ac_complete(la@);
            lemma_chroma_ac_complete(ca@);
        }
        let mut components: Vec<Component> = Vec::new();
        components.push(
            Component {
                id: LUMAID,
                h: 1,
                v: 1,
                tq: LUMADESTINATION,
                dc_table: LUMADESTINATION,
                ac_table: LUMADESTINATION,
                dc_pred: 0,
            },
        );
        components.push(
            Component {
                id: CHROMABLUEID,
                h: 1,
                v: 1,
                tq: CHROMADESTINATION,
                dc_table: CHROMADESTINATION,
                ac_table: CHROMADESTINATION,
                dc_pred: 0,
            },
        );
        components.push(
            Component {
                id: CHROMAREDID,
                h: 1,
                v: 1,
                tq: CHROMADESTINATION,
                dc_table: CHROMADESTINATION,
                ac_table: CHROMADESTINATION,
                dc_pred: 0,
            },
        );
        assert(components@ =~= std_components());
        let mut tables: Vec<u8> = Vec::new();
        append(&mut tables, STD_LUMA_QTABLE.as_slice());
        append(&mut tables, STD_CHROMA_QTABLE.as_slice());
        let e = JPEGEncoder {
            w: BitWriter::new(w),
            components,
            tables,
            luma_dctable: ld,
            luma_actable: la,
            chroma_dctable: cd,
            chroma_actable: ca,
        };
        proof {
            reveal(tables_ok);
        }
        e
    }

    /// The buffer with all that was written.
    pub fn into_inner(self) -> (w: Vec<u8>)
        ensures
            w@ == self.bytes(),
    {
        self.w.into_inner()
    }

    /// What the encoder's quantization tables hold.
    proof fn lemma_tables(&self)
        requires
            self.wf(),
        ensures
            self.tables.len() == 128,
            self.tables@.subrange(0, 64) == STD_LUMA_QTABLE@,
            self.tables@.subrange(64, 128) == STD_CHROMA_QTABLE@,
            forall|i: int| 0 <= i < 128 ==> #[trigger] self.tables[i] >= 10,
            self.components@ == std_components(),
            self.luma_dctable@ == luma_dc_lut(),
            self.luma_actable@ == luma_ac_lut(),
            self.chroma_dctable@ == chroma_dc_lut(),
            self.chroma_actable@ == chroma_ac_lut(),
            codes_dc(self.luma_dctable@),
            codes_ac(self.luma_actable@),
            codes_dc(self.chroma_dctable@),
            codes_ac(self.chroma_actable@),
    {
        reveal(tables_ok);
        assert(self.tables@.subrange(0, 64) =~= STD_LUMA_QTABLE@);
        assert(self.tables@.subrange(64, 128) =~= STD_CHROMA_QTABLE@);
        assert forall|i: int| 0 <= i < 128 implies #[trigger] self.tables[i] >= 10 by {
            if i < 64 {
                assert(self.tables[i] == STD_LUMA_QTABLE[i]);
                assert(STD_LUMA_QTABLE[i] >= 10);
            } else {
                assert(self.tables[i] == STD_CHROMA_QTABLE[i - 64]);
                assert(STD_CHROMA_QTABLE[i - 64] >= 10);
            }
        }
    }

    /// Encodes the image `image`, which has the dimensions `width` and
    /// `height` and the color type `c`, as a complete JPEG file and appends
    /// it to the output.
    ///
    /// Fails, and writes nothing, if `encode_error` names an error.
    pub fn encode(&mut self, image: &[u8], width: u32, height: u32, c: ColorType) -> (res: Result<
        (),
        ImageError,
    >)
        requires
            old(self).wf(),
        ensures
            final(self).wf(),
            match encode_error(image@, width, height, c) {
                Some(e) => res == Err::<(), ImageError>(e) && final(self).bytes() == old(
                    self,
                ).bytes() && final(self).pending() == old(self).pending(),
                None => res is Ok && final(self).bytes() == old(self).bytes() + jpeg_file(
                    image@,
                    width,
                    height,
                    c,
                ) && final(self).pending() == Seq::<bool>::empty(),
            },
    {
        let bpp: usize = match c {
            ColorType::RGB(8) => 3,
            ColorType::RGBA(8) => 4,
            ColorType::Grey(8) => 1,
            ColorType::GreyA(8) => 2,
            _ => {
                return Err(ImageError::UnsupportedColor);
            },
        };
        if width > 65535 || height > 65535 {
            return Err(ImageError::DimensionError);
        }
        if width > 0 && height > 0 && image.len() == 0 {
            return Err(ImageError::NotEnoughData);
        }
        let num_components: usize = if bpp <= 2 {
            1
        } else {
            3
        };
        let ghost start = self.w.bytes();
        self.write_headers(width as u16, height as u16, num_components);
        if num_components == 1 {
            self.encode_grey(image, width as usize, height as usize, bpp);
        } else {
            self.encode_rgb(image, width as usize, height as usize, bpp);
        }
        self.w.pad_byte();
        proof {
            self.w.lemma_wf_bytes();
        }
        let ghost body = self.w.bytes();
        self.w.write_segment(EOI, None);
        proof {
            let headers = file_headers(width as u16, height as u16, num_components as int);
            let data = stuff(pack(put(scan_bits(image@, width, height, c), 0x7F, 7)));
            assert(body == (start + headers) + data);
            assert(self.w.bytes() =~= start + ((headers + data) + segment(EOI, None)));
        }
        Ok(())
    }

    /// Writes the segments that come before the entropy-coded data.
    fn write_headers(&mut self, width: u16, height: u16, num_components: usize)
        requires
            old(self).wf(),
            num_components == 1 || num_components == 3,
        ensures
            final(self).wf(),
            final(self).w.bytes() == old(self).w.bytes() + file_headers(
                width,
                height,
                num_components as int,
            ),
            final(self).w.base() == final(self).w.bytes(),
            final(self).w.scan() == Seq::<bool>::empty(),
    {
        let ghost start = self.w.bytes();
        let ghost mut acc: Seq<u8> = Seq::empty();
        proof {
            self.lemma_tables();
            lemma_std_tables_fit();
            assert(start =~= start + acc);
        }
        self.w.write_segment(SOI, None);
        proof {
            lemma_append(start, acc, segment(SOI, None));
            acc = acc + segment(SOI, None);
            assert(acc =~= segment(SOI, None));
        }
        self.w.write_segment(APP0, Some(build_jfif_header()));
        proof {
            lemma_append(start, acc, segment(APP0, Some(jfif_header())));
            acc = acc + segment(APP0, Some(jfif_header()));
        }
        let luma_q: &[u8] = vstd::slice::slice_subrange(self.tables.as_slice(), 0, 64);
        let buf: Vec<u8> = build_quantization_segment(8, 0, luma_q);
        self.w.write_segment(DQT, Some(buf));
        proof {
            let seg = segment(DQT, Some(quantization_segment(8, 0, STD_LUMA_QTABLE@)));
            lemma_append(start, acc, seg);
            acc = acc + seg;
        }
        if num_components == 3 {
            let chroma_q: &[u8] = vstd::slice::slice_subrange(self.tables.as_slice(), 64, 128);
            let buf: Vec<u8> = build_quantization_segment(8, 1, chroma_q);
            self.w.write_segment(DQT, Some(buf));
            proof {
                let seg = segment(DQT, Some(quantization_segment(8, 1, STD_CHROMA_QTABLE@)));
                lemma_append(start, acc, seg);
                acc = acc + seg;
            }
        } else {
            proof {
                assert(acc =~= acc + Seq::<u8>::empty());
                acc = acc + Seq::<u8>::empty();
            }
        }
        let buf: Vec<u8> = build_huffman_segment(
            DCCLASS,
            LUMADESTINATION,
            STD_LUMA_DC_CODE_LENGTHS.as_slice(),
            STD_LUMA_DC_VALUES.as_slice(),
        );
        self.w.write_segment(DHT, Some(buf));
        proof {
            let seg = segment(
                DHT,
                Some(huffman_segment(0, 0, STD_LUMA_DC_CODE_LENGTHS@, STD_LUMA_DC_VALUES@)),
            );
            lemma_append(start, acc, seg);
            acc = acc + seg;
        }
        let buf: Vec<u8> = build_huffman_segment(
            ACCLASS,
            LUMADESTINATION,
            STD_LUMA_AC_CODE_LENGTHS.as_slice(),
            STD_LUMA_AC_VALUES.as_slice(),
        );
        self.w.write_segment(DHT, Some(buf));
        proof {
            let seg = segment(
                DHT,
                Some(huffman_segment(1, 0, STD_LUMA_AC_CODE_LENGTHS@, STD_LUMA_AC_VALUES@)),
            );
            lemma_append(start, acc, seg);
            acc = acc + seg;
        }
        if num_components == 3 {
            let ghost before = acc;
            let buf: Vec<u8> = build_huffman_segment(
                DCCLASS,
                CHROMADESTINATION,
                STD_CHROMA_DC_CODE_LENGTHS.as_slice(),
                STD_CHROMA_DC_VALUES.as_slice(),
            );
            self.w.write_segment(DHT, Some(buf));
            let ghost seg1 = segment(
                DHT,
                Some(huffman_segment(0, 1, STD_CHROMA_DC_CODE_LENGTHS@, STD_CHROMA_DC_VALUES@)),
            );
            proof {
                lemma_append(start, acc, seg1);
                acc = acc + seg1;
            }
            let buf: Vec<u8> = build_huffman_segment(
                ACCLASS,
                CHROMADESTINATION,
                STD_CHROMA_AC_CODE_LENGTHS.as_slice(),
                STD_CHROMA_AC_VALUES.as_slice(),
            );
            self.w.write_segment(DHT, Some(buf));
            proof {
                let seg2 = segment(
                    DHT,
                    Some(huffman_segment(1, 1, STD_CHROMA_AC_CODE_LENGTHS@, STD_CHROMA_AC_VALUES@)),
                );
                lemma_append(start, acc, seg2);
                lemma_append(before, seg1, seg2);
                acc = before + (seg1 + seg2);
            }
        } else {
            proof {
                assert(acc =~= acc + Seq::<u8>::empty());
                acc = acc + Seq::<u8>::empty();
            }
        }
        let comps: &[Component] = vstd::slice::slice_subrange(
            self.components.as_slice(),
            0,
            num_components,
        );
        assert(comps@ =~= std_components().take(num_components as int));
        let buf: Vec<u8> = build_frame_header(8, width, height, comps);
        self.w.write_segment(SOF0, Some(buf));
        proof {
            let seg = segment(SOF0, Some(frame_header(8, width, height, comps@)));
            lemma_append(start, acc, seg);
            acc = acc + seg;
        }
        let buf: Vec<u8> = build_scan_header(comps);
        self.w.write_segment(SOS, Some(buf));
        proof {
            let seg = segment(SOS, Some(scan_header(comps@)));
            lemma_append(start, acc, seg);
            acc = acc + seg;
            reveal(file_headers);
            assert(acc == file_headers(width, height, num_components as int));
        }
    }

    /// Transforms, quantizes and writes one block of samples of luminance
    /// or of chrominance. Returns its DC coefficient.
    fn code_block(&mut self, samples: &[u8], coeffs: &mut [i32], prev: i32, chroma: bool) -> (dc:
        i32)
        requires
            old(self).wf(),
            samples.len() == 64,
            old(coeffs).len() == 64,
            -501 <= prev <= 501,
        ensures
            final(self).wf(),
            final(coeffs).len() == 64,
            final(self).w.base() == old(self).w.base(),
            -501 <= dc <= 501,
            !chroma ==> dc == quantized(samples@, STD_LUMA_QTABLE@)[0] && final(self).w.scan()
                == block_bits(
                old(self).w.scan(),
                quantized(samples@, STD_LUMA_QTABLE@),
                prev as int,
                luma_dc_lut(),
                luma_ac_lut(),
            ),
            chroma ==> dc == quantized(samples@, STD_CHROMA_QTABLE@)[0] && final(self).w.scan()
                == block_bits(
                old(self).w.scan(),
                quantized(samples@, STD_CHROMA_QTABLE@),
                prev as int,
                chroma_dc_lut(),
                chroma_ac_lut(),
            ),
    {
        proof {
            self.lemma_tables();
        }
        if chroma {
            proof {
                assert forall|i: int| 0 <= i < 64 implies #[trigger] self.tables[64 + i] >= 10 by {
                    assert(self.tables[64 + i] >= 10);
                }
            }
            transform_block(samples, coeffs, self.tables.as_slice(), 64);
            proof {
                assert(-501 <= coeffs@[0] <= 501);
                assert(codable(coeffs@, prev as int));
            }
            self.w.write_block(
                coeffs,
                prev,
                self.chroma_dctable.as_slice(),
                self.chroma_actable.as_slice(),
            )
        } else {
            proof {
                assert forall|i: int| 0 <= i < 64 implies #[trigger] self.tables[0 + i] >= 10 by {
                    assert(self.tables[0 + i] >= 10);
                }
            }
            transform_block(samples, coeffs, self.tables.as_slice(), 0);
            proof {
                assert(-501 <= coeffs@[0] <= 501);
                assert(codable(coeffs@, prev as int));
            }
            self.w.write_block(
                coeffs,
                prev,
                self.luma_dctable.as_slice(),
                self.luma_actable.as_slice(),
            )
        }
    }

    /// Writes the entropy-coded data of a gray image.
    fn encode_grey(&mut self, image: &[u8], width: usize, height: usize, bpp: usize)
        requires
            old(self).wf(),
            width <= 65535,
            height <= 65535,
            bpp <= 4,
            width > 0 && height > 0 ==> image.len() > 0,
        ensures
            final(self).wf(),
            final(self).w.base() == old(self).w.base(),
            final(self).w.scan() == grey_scan(
                old(self).w.scan(),
                0,
                image@,
                width as int,
                height as int,
                bpp as int,
                0,
                0,
            ),
    {
        proof {
            reveal(grey_scan);
        }
        let mut yblock: Vec<u8> = zero_block();
        let mut dct_yblock: Vec<i32> = zero_coefficients();
        let mut y_dcprev: i32 = 0;
        let bw: usize = (width + 7) / 8;
        let bh: usize = (height + 7) / 8;
        let ghost goal = grey_scan(
            self.w.scan(),
            0,
            image@,
            width as int,
            height as int,
            bpp as int,
            0,
            0,
        );
        let mut by: usize = 0;
        while by < bh
            invariant
                by <= bh,
                bw == blocks_for(width as int),
                bh == blocks_for(height as int),
                width <= 65535,
                height <= 65535,
                bpp <= 4,
                width > 0 && height > 0 ==> image.len() > 0,
                yblock.len() == 64,
                dct_yblock.len() == 64,
                -501 <= y_dcprev <= 501,
                self.wf(),
                self.w.base() == old(self).w.base(),
                goal == grey_scan(
                    self.w.scan(),
                    y_dcprev as int,
                    image@,
                    width as int,
                    height as int,
                    bpp as int,
                    0,
                    by as int,
                ),
            decreases bh - by,
        {
            let mut bx: usize = 0;
            while bx < bw
                invariant
                    by < bh,
                    bx <= bw,
                    bw == blocks_for(width as int),
                    bh == blocks_for(height as int),
                    width <= 65535,
                    height <= 65535,
                    bpp <= 4,
                    width > 0 && height > 0 ==> image.len() > 0,
                    yblock.len() == 64,
                    dct_yblock.len() == 64,
                    -501 <= y_dcprev <= 501,
                    self.wf(),
                    self.w.base() == old(self).w.base(),
                    goal == grey_scan(
                        self.w.scan(),
                        y_dcprev as int,
                        image@,
                        width as int,
                        height as int,
                        bpp as int,
                        bx as int,
                        by as int,
                    ),
                decreases bw - bx,
            {
                proof {
                    reveal(grey_scan);
                }
                copy_blocks_grey(image, bx * 8, by * 8, width, bpp, yblock.as_mut_slice());
                y_dcprev =
                self.code_block(yblock.as_slice(), dct_yblock.as_mut_slice(), y_dcprev, false);
                bx += 1;
            }
            proof {
                reveal(grey_scan);
            }
            by += 1;
        }
    }

    /// Writes the entropy-coded data of a color image.
    fn encode_rgb(&mut self, image: &[u8], width: usize, height: usize, bpp: usize)
        requires
            old(self).wf(),
            width <= 65535,
            height <= 65535,
            bpp <= 4,
            width > 0 && height > 0 ==> image.len() > 0,
        ensures
            final(self).wf(),
            final(self).w.base() == old(self).w.base(),
            final(self).w.scan() == color_scan(
                old(self).w.scan(),
                (0, 0, 0),
                image@,
                width as int,
                height as int,
                bpp as int,
                0,
                0,
            ),
    {
        proof {
            reveal(color_scan);
        }
        let mut y_dcprev: i32 = 0;
        let mut cb_dcprev: i32 = 0;
        let mut cr_dcprev: i32 = 0;
        let mut dct_yblock: Vec<i32> = zero_coefficients();
        let mut dct_cb_block: Vec<i32> = zero_coefficients();
        let mut dct_cr_block: Vec<i32> = zero_coefficients();
        let mut yblock: Vec<u8> = zero_block();
        let mut cb_block: Vec<u8> = zero_block();
        let mut cr_block: Vec<u8> = zero_block();
        let bw: usize = (width + 7) / 8;
        let bh: usize = (height + 7) / 8;
        let ghost goal = color_scan(
            self.w.scan(),
            (0, 0, 0),
            image@,
            width as int,
            height as int,
            bpp as int,
            0,
            0,
        );
        let mut by: usize = 0;
        while by < bh
            invariant
                by <= bh,
                bw == blocks_for(width as int),
                bh == blocks_for(height as int),
                width <= 65535,
                height <= 65535,
                bpp <= 4,
                width > 0 && height > 0 ==> image.len() > 0,
                yblock.len() == 64,
                cb_block.len() == 64,
                cr_block.len() == 64,
                dct_yblock.len() == 64,
                dct_cb_block.len() == 64,
                dct_cr_block.len() == 64,
                -501 <= y_dcprev <= 501,
                -501 <= cb_dcprev <= 501,
                -501 <= cr_dcprev <= 501,
                self.wf(),
                self.w.base() == old(self).w.base(),
                goal == color_scan(
                    self.w.scan(),
                    (y_dcprev as int, cb_dcprev as int, cr_dcprev as int),
                    image@,
                    width as int,
                    height as int,
                    bpp as int,
                    0,
                    by as int,
                ),
            decreases bh - by,
        {
            let mut bx: usize = 0;
            while bx < bw
                invariant
                    by < bh,
                    bx <= bw,
                    bw == blocks_for(width as int),
                    bh == blocks_for(height as int),
                    width <= 65535,
                    height <= 65535,
                    bpp <= 4,
                    width > 0 && height > 0 ==> image.len() > 0,
                    yblock.len() == 64,
                    cb_block.len() == 64,
                    cr_block.len() == 64,
                    dct_yblock.len() == 64,
                    dct_cb_block.len() == 64,
                    dct_cr_block.len() == 64,
                    -501 <= y_dcprev <= 501,
                    -501 <= cb_dcprev <= 501,
                    -501 <= cr_dcprev <= 501,
                    self.wf(),
                    self.w.base() == old(self).w.base(),
                    goal == color_scan(
                        self.w.scan(),
                        (y_dcprev as int, cb_dcprev as int, cr_dcprev as int),
                        image@,
                        width as int,
                        height as int,
                        bpp as int,
                        bx as int,
                        by as int,
                    ),
                decreases bw - bx,
            {
                proof {
                    reveal(color_scan);
                }
                copy_blocks_ycbcr(
                    image,
                    bx * 8,
                    by * 8,
                    width,
                    bpp,
                    yblock.as_mut_slice(),
                    cb_block.as_mut_slice(),
                    cr_block.as_mut_slice(),
                );
                y_dcprev =
                self.code_block(yblock.as_slice(), dct_yblock.as_mut_slice(), y_dcprev, false);
                cb_dcprev =
                self.code_block(cb_block.as_slice(), dct_cb_block.as_mut_slice(), cb_dcprev, true);
                cr_dcprev =
                self.code_block(cr_block.as_slice(), dct_cr_block.as_mut_slice(), cr_dcprev, true);
                bx += 1;
            }
            proof {
                reveal(color_scan);
            }
            by += 1;
        }
    }
}

/// Appending to what follows a start is appending to the whole.
proof fn lemma_append(start: Seq<u8>, acc: Seq<u8>, seg: Seq<u8>)
    ensures
        (start + acc) + seg == start + (acc + seg),
{
    assert((start + acc) + seg =~= start + (acc + seg));
}

/// A table with a code word for each value of the luminance table codes
/// every AC coefficient.
proof fn lemma_luma_ac_complete(lut: CodeLut)
    requires
        lut.len() == 256,
        forall|k: int| 0 <= k < 162 ==> 1 <= lut[#[trigger] STD_LUMA_AC_VALUES@[k] as int].0 <= 16,
    ensures
        codes_ac(lut),
{
    assert forall|s: int| is_ac_symbol(s) implies #[trigger] has_code(lut, s) by {
        lemma_luma_ac_values_cover(s);
        let k = ac_place(STD_LUMA_AC_VALUES@, s);
        assert(STD_LUMA_AC_VALUES@[k] == s);
    }
}

/// A table with a code word for each value of the chrominance table codes
/// every AC coefficient.
proof fn lemma_chroma_ac_complete(lut: CodeLut)
    requires
        lut.len() == 256,
        forall|k: int|
            0 <= k < 162 ==> 1 <= lut[#[trigger] STD_CHROMA_AC_VALUES@[k] as int].0 <= 16,
    ensures
        codes_ac(lut),
{
    assert forall|s: int| is_ac_symbol(s) implies #[trigger] has_code(lut, s) by {
        lemma_chroma_ac_values_cover(s);
        let k = ac_place(STD_CHROMA_AC_VALUES@, s);
        assert(STD_CHROMA_AC_VALUES@[k] == s);
    }
}

/// A table with a code word for each of the values 0 to 11 codes every DC
/// difference.
proof fn lemma_dc_complete(lut: CodeLut, values: Seq<u8>)
    requires
        lut.len() == 256,
        values.len() == 12,
        forall|k: int| 0 <= k < 12 ==> values[k] == k,
        forall|k: int| 0 <= k < 12 ==> 1 <= lut[#[trigger] values[k] as int].0 <= 16,
    ensures
        codes_dc(lut),
{
    assert forall|s: int| 0 <= s <= 11 implies #[trigger] has_code(lut, s) by {
        assert(values[s] == s);
    }
}

} // verus!
