use image::codecs::jpeg::encoder::{
    build_frame_header, build_huffman_segment, build_jfif_header, build_quantization_segment,
    build_scan_header, copy_blocks_grey, copy_blocks_ycbcr, rgb_to_ycbcr, value_at, JPEGEncoder,
};
use image::codecs::jpeg::entropy::{encode_coefficient, BitWriter};
use image::codecs::jpeg::tables::{
    STD_LUMA_AC_CODE_LENGTHS, STD_LUMA_AC_VALUES, STD_LUMA_DC_CODE_LENGTHS, STD_LUMA_DC_VALUES,
    STD_LUMA_QTABLE,
};
use image::codecs::jpeg::{build_huff_lut, derive_codes_and_sizes, Component, UNZIGZAG, ZIGZAG};
use image::colortype::{bits_per_pixel, num_components, ColorType};
use image::error::ImageError;
use image::transform::{fdct, quantize};

fn unhex(s: &str) -> Vec<u8> {
    let d: Vec<u8> = s.bytes().map(|c| (c as char).to_digit(16).unwrap() as u8).collect();
    d.chunks(2).map(|p| p[0] * 16 + p[1]).collect()
}

fn encode(image: &[u8], width: u32, height: u32, c: ColorType) -> Vec<u8> {
    let mut e = JPEGEncoder::new(Vec::new());
    assert_eq!(e.encode(image, width, height, c), Ok(()));
    e.into_inner()
}

/// The markers of the segments of a file, in order, up to the start of scan,
/// and the place where the entropy-coded data starts.
fn segments(file: &[u8]) -> (Vec<u8>, usize) {
    let mut at = 0;
    let mut markers = Vec::new();
    loop {
        assert_eq!(file[at], 0xFF);
        let m = file[at + 1];
        markers.push(m);
        at += 2;
        if m == 0xD8 {
            continue;
        }
        let len = file[at] as usize * 256 + file[at + 1] as usize;
        at += len;
        if m == 0xDA {
            return (markers, at);
        }
    }
}

fn assert_stuffed(data: &[u8]) {
    for i in 0..data.len() {
        if data[i] == 0xFF {
            assert!(i + 1 < data.len() && data[i + 1] == 0, "0xFF without a zero after it");
        }
    }
}

#[test]
fn mid_gray_rgb_image() {
    let file = encode(&[128u8; 192], 8, 8, ColorType::RGB(8));
    assert_eq!(&file[..2], &[0xFF, 0xD8]);
    assert_eq!(&file[file.len() - 2..], &[0xFF, 0xD9]);
    let (markers, data) = segments(&file);
    assert_eq!(
        markers,
        vec![0xD8, 0xE0, 0xDB, 0xDB, 0xC4, 0xC4, 0xC4, 0xC4, 0xC0, 0xDA]
    );
    assert_eq!(file.len(), 627);
    // three all-zero blocks: 00 1010, 00 00, 00 00, then the padding
    assert_eq!(&file[data..], &[0x28, 0x03, 0xFF, 0xD9]);
    assert_eq!(
        &file[..20],
        &[
            0xFF, 0xD8, 0xFF, 0xE0, 0x00, 0x10, 0x4A, 0x46, 0x49, 0x46, 0x00, 0x01, 0x02, 0x00,
            0x00, 0x01, 0x00, 0x01, 0x00, 0x00
        ]
    );
}

#[test]
fn black_gray_image() {
    let file = encode(&[0u8; 64], 8, 8, ColorType::Grey(8));
    let (markers, data) = segments(&file);
    assert_eq!(markers, vec![0xD8, 0xE0, 0xDB, 0xC4, 0xC4, 0xC0, 0xDA]);
    assert_eq!(file.len(), 332);
    // DC difference -64: size 7 (11110), value 0111111; then end of block 1010
    assert_eq!(&file[data..], &[0xF3, 0xFA, 0xFF, 0xD9]);
}

#[test]
fn frame_header_of_an_encoded_image() {
    let file = encode(&[7u8; 3 * 300 * 2], 300, 2, ColorType::RGB(8));
    let at = file.windows(2).position(|w| w == [0xFF, 0xC0]).unwrap();
    assert_eq!(
        &file[at..at + 19],
        &[
            0xFF, 0xC0, 0x00, 0x11, 8, 0x00, 0x02, 0x01, 0x2C, 3, 1, 0x11, 0, 2, 0x11, 1, 3, 0x11,
            1
        ]
    );
    assert_eq!(
        &file[at + 19..at + 33],
        &[0xFF, 0xDA, 0x00, 0x0C, 3, 1, 0x00, 2, 0x11, 3, 0x11, 0, 63, 0]
    );
}

#[test]
fn five_by_five_rgb_image() {
    let img: Vec<u8> = (0..5)
        .flat_map(|y| (0..5).flat_map(move |x| (0..3).map(move |c| ((x * 37 + y * 11 + c * 91) % 256) as u8)))
        .collect();
    let file = encode(&img, 5, 5, ColorType::RGB(8));
    assert_eq!(file.len(), 657);
    assert_eq!(
        &file[623..],
        &unhex("40eab1431a8f957ef023ad4caf2a9527fccacbd0e68e1d7259ef7ff3ff00807fffd9")[..]
    );
    let (_, data) = segments(&file);
    assert_eq!(data, 623);
    assert_stuffed(&file[data..file.len() - 2]);
}

#[test]
fn block_of_a_five_by_five_image_follows_the_flat_index() {
    let img: Vec<u8> = (0..75).map(|i| (i * 3 + 1) as u8).collect();
    let mut yb = [0u8; 64];
    let mut cbb = [0u8; 64];
    let mut crb = [0u8; 64];
    copy_blocks_ycbcr(&img, 0, 0, 5, 3, &mut yb, &mut cbb, &mut crb);
    for y in 0..8 {
        for x in 0..8 {
            let at = y * 15 + x * 3;
            let px = |k: usize| if at + k < 75 { img[at + k] } else { img[74] };
            let want = rgb_to_ycbcr(px(0), px(1), px(2));
            assert_eq!((yb[y * 8 + x], cbb[y * 8 + x], crb[y * 8 + x]), want);
        }
    }
    // past the end of the buffer every channel is its last byte
    assert_eq!(yb[63], rgb_to_ycbcr(img[74], img[74], img[74]).0);
    // inside the buffer a place right of the image holds what is next in it
    assert_eq!(yb[5], rgb_to_ycbcr(img[15], img[16], img[17]).0);
}

#[test]
fn gray_block_reads_channel_one() {
    let img: Vec<u8> = (0..128).map(|i| i as u8).collect();
    let mut gb = [0u8; 64];
    copy_blocks_grey(&img, 0, 0, 8, 2, &mut gb);
    for i in 0..64 {
        assert_eq!(gb[i], (2 * i + 1) as u8);
    }
    copy_blocks_grey(&img, 8, 8, 16, 1, &mut gb);
    assert_eq!(gb[0], 127);
    assert_eq!(gb[1], 127);
    copy_blocks_grey(&img, 0, 0, 16, 1, &mut gb);
    assert_eq!(gb[0], 1);
    assert_eq!(gb[8], 17);
    assert_eq!(gb[63], 120);
}

#[test]
fn gray_image_of_two_by_two_blocks() {
    let img: Vec<u8> = (0..9).flat_map(|y| (0..16).map(move |x| ((x * 16 + y * 3) % 256) as u8)).collect();
    let file = encode(&img, 16, 9, ColorType::Grey(8));
    assert_eq!(file.len(), 384);
    assert_eq!(
        &file[328..],
        &unhex("c8d162fbb5d65e3476fe1ad41e56daa5480719ebc0af334bab88ff00d5cf2aff00bae454926a37d342d0cb7b70f137546958a9fc335fffd9")[..]
    );
    assert_stuffed(&file[328..file.len() - 2]);
}

#[test]
fn rgba_image() {
    let img: [u8; 108] = [
        165, 77, 202, 24, 37, 48, 187, 29, 109, 19, 44, 222, 214, 35, 123, 46, 217, 30, 63, 114,
        31, 203, 25, 113, 23, 68, 148, 214, 73, 60, 157, 92, 52, 96, 190, 49, 32, 30, 105, 254,
        218, 160, 238, 232, 185, 153, 127, 92, 124, 41, 153, 253, 175, 229, 147, 37, 60, 214, 84,
        175, 77, 250, 215, 20, 39, 160, 174, 179, 254, 233, 35, 47, 138, 242, 33, 31, 158, 228,
        145, 197, 177, 11, 236, 181, 86, 59, 252, 30, 111, 147, 66, 126, 203, 200, 254, 41, 85,
        229, 205, 142, 70, 220, 142, 212, 183, 194, 118, 77,
    ];
    let file = encode(&img, 9, 3, ColorType::RGBA(8));
    assert_eq!(file.len(), 687);
    assert_eq!(
        &file[623..],
        &unhex("cf4bcd85f16f6e55bf84a67fae7f3aa726ecdeebaff5a0aa27520a0dbd3f3ee1fda170b2f991b2c78e8a88028fc2a55d4795ebebabfbdea128a94795ec7fffd9")[..]
    );
}

#[test]
fn gray_alpha_image() {
    let img: Vec<u8> = (0..8)
        .flat_map(|y| (0..8).flat_map(move |x| (0..2).map(move |_| if (x + y) % 2 == 0 { 255u8 } else { 0 })))
        .collect();
    let file = encode(&img, 8, 8, ColorType::GreyA(8));
    assert_eq!(file.len(), 350);
    assert_eq!(&file[328..], &unhex("3eff00fb5bbfe05bbff42cf5ff006b39fe3ddfbcffd9")[..]);
    assert_stuffed(&file[328..file.len() - 2]);
}

#[test]
fn encoding_is_the_same_every_time() {
    let img: Vec<u8> = (0..3 * 20 * 11).map(|i| (i * 7 % 251) as u8).collect();
    let a = encode(&img, 20, 11, ColorType::RGB(8));
    let b = encode(&img, 20, 11, ColorType::RGB(8));
    assert_eq!(a, b);
    let (_, data) = segments(&a);
    assert_stuffed(&a[data..a.len() - 2]);
}

#[test]
fn encoder_appends_to_what_is_there() {
    let mut e = JPEGEncoder::new(vec![1, 2, 3]);
    assert_eq!(e.encode(&[0u8; 64], 8, 8, ColorType::Grey(8)), Ok(()));
    assert_eq!(e.encode(&[0u8; 64], 8, 8, ColorType::Grey(8)), Ok(()));
    let out = e.into_inner();
    let one = encode(&[0u8; 64], 8, 8, ColorType::Grey(8));
    assert_eq!(out.len(), 3 + 2 * one.len());
    assert_eq!(&out[..3], &[1, 2, 3]);
    assert_eq!(&out[3..3 + one.len()], &one[..]);
    assert_eq!(&out[3 + one.len()..], &one[..]);
}

#[test]
fn unsupported_color_types_are_refused() {
    for c in [
        ColorType::RGB(16),
        ColorType::Grey(1),
        ColorType::Palette(8),
        ColorType::GreyA(16),
        ColorType::RGBA(4),
    ] {
        let mut e = JPEGEncoder::new(vec![9]);
        assert_eq!(e.encode(&[0u8; 64], 8, 8, c), Err(ImageError::UnsupportedColor));
        assert_eq!(e.into_inner(), vec![9]);
    }
}

#[test]
fn dimensions_that_do_not_fit_are_refused() {
    let mut e = JPEGEncoder::new(Vec::new());
    assert_eq!(e.encode(&[0u8; 64], 65536, 1, ColorType::Grey(8)), Err(ImageError::DimensionError));
    assert_eq!(e.encode(&[0u8; 64], 1, 70000, ColorType::RGB(8)), Err(ImageError::DimensionError));
    assert_eq!(e.encode(&[], 1, 1, ColorType::RGB(8)), Err(ImageError::NotEnoughData));
    assert_eq!(e.encode(&[], 0, 5, ColorType::RGB(8)), Ok(()));
    assert!(e.into_inner().ends_with(&[0xFF, 0xD9]));
}

#[test]
fn short_image_data_is_padded_with_its_last_byte() {
    let a = encode(&[200u8; 5], 8, 8, ColorType::Grey(8));
    let b = encode(&[200u8; 64], 8, 8, ColorType::Grey(8));
    assert_eq!(a, b);
}

#[test]
fn bit_writer_stuffs_a_zero_after_ff() {
    let mut w = BitWriter::new(Vec::new());
    w.write_bits(0xFF, 8);
    w.write_bits(0x1FE, 9);
    w.write_bits(0x7, 3);
    w.write_bits(0xF, 4);
    // bits: 11111111 11111111 0111 1111
    assert_eq!(w.into_inner(), vec![0xFF, 0x00, 0xFF, 0x00, 0x7F]);
}

#[test]
fn bit_writer_writes_most_significant_bit_first() {
    let mut w = BitWriter::new(vec![0xAB]);
    w.write_bits(0b101, 3);
    w.write_bits(0, 0);
    w.write_bits(0b0_0110, 5);
    w.write_bits(0xFFFF, 16);
    w.write_bits(0b1, 1);
    // 10100110 11111111 11111111 1
    assert_eq!(w.into_inner(), vec![0xAB, 0xA6, 0xFF, 0x00, 0xFF, 0x00]);
}

#[test]
fn bit_writer_uses_only_the_low_bits_of_a_value() {
    let mut w = BitWriter::new(Vec::new());
    w.write_bits(0xFFF5, 4);
    w.write_bits(0xFF0A, 4);
    assert_eq!(w.into_inner(), vec![0x5A]);
}

#[test]
fn padding_fills_the_last_byte_with_ones() {
    let mut w = BitWriter::new(Vec::new());
    w.write_bits(0b010, 3);
    w.pad_byte();
    assert_eq!(w.into_inner(), vec![0b0101_1111]);
    let mut w = BitWriter::new(Vec::new());
    w.pad_byte();
    assert_eq!(w.into_inner(), Vec::<u8>::new());
    let mut w = BitWriter::new(Vec::new());
    w.write_bits(0b1, 1);
    w.pad_byte();
    assert_eq!(w.into_inner(), vec![0xFF, 0x00]);
}

#[test]
fn segments_are_framed() {
    let mut w = BitWriter::new(Vec::new());
    w.write_segment(0xD8, None);
    w.write_segment(0xE0, Some(vec![1, 2, 3]));
    w.write_bits(0b1111, 4);
    w.write_segment(0xD9, None);
    assert_eq!(w.into_inner(), vec![0xFF, 0xD8, 0xFF, 0xE0, 0x00, 0x05, 1, 2, 3, 0xFF, 0xD9]);
    let mut w = BitWriter::new(Vec::new());
    w.write_segment(0xFE, Some(vec![0x55; 300]));
    let out = w.into_inner();
    assert_eq!(&out[..4], &[0xFF, 0xFE, 0x01, 0x2E]);
    assert_eq!(out.len(), 304);
}

#[test]
fn all_zero_block_is_two_code_words() {
    let dc = build_huff_lut(&STD_LUMA_DC_CODE_LENGTHS, &STD_LUMA_DC_VALUES);
    let ac = build_huff_lut(&STD_LUMA_AC_CODE_LENGTHS, &STD_LUMA_AC_VALUES);
    let mut w = BitWriter::new(Vec::new());
    let dcval = w.write_block(&[0i32; 64], 0, &dc, &ac);
    assert_eq!(dcval, 0);
    // 00 for a DC difference of size 0, 1010 for the end of block
    w.write_bits(0b11, 2);
    assert_eq!(w.into_inner(), vec![0b0010_1011]);
}

#[test]
fn block_with_runs_of_zeros() {
    let dc = build_huff_lut(&STD_LUMA_DC_CODE_LENGTHS, &STD_LUMA_DC_VALUES);
    let ac = build_huff_lut(&STD_LUMA_AC_CODE_LENGTHS, &STD_LUMA_AC_VALUES);
    let mut block = [0i32; 64];
    block[0] = 5;
    block[UNZIGZAG[1] as usize] = -1;
    block[UNZIGZAG[20] as usize] = 2;
    block[UNZIGZAG[63] as usize] = 1;
    let mut w = BitWriter::new(Vec::new());
    assert_eq!(w.write_block(&block, 2, &dc, &ac), 5);
    w.pad_byte();
    // DC diff 3: size 2 (011), bits 11
    // AC -1 after 0 zeros: 0x01 (00), bits 0
    // AC 2 after 18 zeros: ZRL (11111111001), then 0x22 (11111001), bits 10
    // AC 1 after 42 zeros: ZRL, ZRL, then 0xA1 (111111010), bit 1
    let bits = "011 11 00 0 11111111001 11111001 10 11111111001 11111111001 111111010 1 1111111";
    let bits: Vec<u8> = bits.bytes().filter(|c| *c != b' ').map(|c| c - b'0').collect();
    let mut want = Vec::new();
    for chunk in bits.chunks(8) {
        if chunk.len() == 8 {
            let b = chunk.iter().fold(0u8, |a, b| a * 2 + b);
            want.push(b);
            if b == 0xFF {
                want.push(0);
            }
        }
    }
    assert_eq!(w.into_inner(), want);
}

#[test]
fn dc_differences_add_up_to_the_last_dc() {
    let dc = build_huff_lut(&STD_LUMA_DC_CODE_LENGTHS, &STD_LUMA_DC_VALUES);
    let ac = build_huff_lut(&STD_LUMA_AC_CODE_LENGTHS, &STD_LUMA_AC_VALUES);
    let dcs = [12, -7, -7, 100, 3];
    let mut w = BitWriter::new(Vec::new());
    let mut prev = 0;
    let mut sum = 0;
    for d in dcs {
        let mut block = [0i32; 64];
        block[0] = d;
        sum += d - prev;
        prev = w.write_block(&block, prev, &dc, &ac);
        assert_eq!(prev, d);
    }
    assert_eq!(sum, 3);
}

#[test]
fn coefficient_sizes_and_bits() {
    assert_eq!(encode_coefficient(0), (0, 0));
    assert_eq!(encode_coefficient(1), (1, 1));
    assert_eq!(encode_coefficient(-1), (1, 0));
    assert_eq!(encode_coefficient(2), (2, 2));
    assert_eq!(encode_coefficient(-2), (2, 1));
    assert_eq!(encode_coefficient(-3), (2, 0));
    assert_eq!(encode_coefficient(5), (3, 5));
    assert_eq!(encode_coefficient(-64), (7, 63));
    assert_eq!(encode_coefficient(1023), (10, 1023));
    assert_eq!(encode_coefficient(-1024), (11, 1023));
    assert_eq!(encode_coefficient(-2047), (11, 0));
    assert_eq!(encode_coefficient(65535), (16, 65535));
    assert_eq!(encode_coefficient(-65535), (16, 0));
}

#[test]
fn code_words_of_the_luminance_dc_table() {
    let (sizes, codes) = derive_codes_and_sizes(&STD_LUMA_DC_CODE_LENGTHS);
    assert_eq!(sizes.len(), 256);
    assert_eq!(&sizes[..13], &[2, 3, 3, 3, 3, 3, 4, 5, 6, 7, 8, 9, 0]);
    assert_eq!(
        &codes[..13],
        &[0b00, 0b010, 0b011, 0b100, 0b101, 0b110, 0b1110, 0b11110, 0b111110, 0b1111110, 0b11111110, 0b111111110, 0]
    );
    let lut = build_huff_lut(&STD_LUMA_DC_CODE_LENGTHS, &STD_LUMA_DC_VALUES);
    assert_eq!(lut.len(), 256);
    assert_eq!(lut[0], (2, 0));
    assert_eq!(lut[7], (5, 0b11110));
    assert_eq!(lut[11], (9, 0b111111110));
    assert_eq!(lut[12], (17, 0));
    assert_eq!(lut[255], (17, 0));
}

#[test]
fn code_words_of_the_luminance_ac_table() {
    let lut = build_huff_lut(&STD_LUMA_AC_CODE_LENGTHS, &STD_LUMA_AC_VALUES);
    assert_eq!(lut[0x00], (4, 0b1010));
    assert_eq!(lut[0x01], (2, 0b00));
    assert_eq!(lut[0x02], (2, 0b01));
    assert_eq!(lut[0x03], (3, 0b100));
    assert_eq!(lut[0x11], (4, 0b1100));
    assert_eq!(lut[0xF0], (11, 0b11111111001));
    assert_eq!(lut[0xFA], (16, 0xFFFE));
    assert_eq!(lut[0x0B], (17, 0));
    for run in 0..16u8 {
        for size in 1..11u8 {
            assert!(lut[(run * 16 + size) as usize].0 <= 16);
        }
    }
}

#[test]
fn zigzag_is_a_permutation_with_its_inverse() {
    let mut seen = [false; 64];
    for k in 0..64 {
        let i = UNZIGZAG[k] as usize;
        assert!(i < 64);
        assert!(!seen[i]);
        seen[i] = true;
        assert_eq!(ZIGZAG[i] as usize, k);
        assert_eq!(UNZIGZAG[ZIGZAG[k] as usize] as usize, k);
    }
    assert_eq!(&UNZIGZAG[..6], &[0, 1, 8, 16, 9, 2]);
}

#[test]
fn transform_of_flat_blocks() {
    let mut c = [1i32; 64];
    fdct(&[0u8; 64], &mut c);
    assert_eq!(c[0], -8192);
    assert!(c[1..].iter().all(|v| *v == 0));
    fdct(&[128u8; 64], &mut c);
    assert!(c.iter().all(|v| *v == 0));
    fdct(&[255u8; 64], &mut c);
    assert_eq!(c[0], 127 * 64);
    assert!(c[1..].iter().all(|v| *v == 0));
}

#[test]
fn transform_is_close_to_the_cosine_transform() {
    let samples: Vec<u8> = (0..64).map(|i| ((i * 29 + (i / 8) * 13) % 256) as u8).collect();
    let mut c = [0i32; 64];
    fdct(&samples, &mut c);
    let sum: i32 = samples.iter().map(|s| *s as i32 - 128).sum();
    assert_eq!(c[0], sum);
    for v in 0..8 {
        for u in 0..8 {
            let cu = if u == 0 { 0.5f64.sqrt() } else { 1.0 };
            let cv = if v == 0 { 0.5f64.sqrt() } else { 1.0 };
            let mut acc = 0.0f64;
            for y in 0..8 {
                for x in 0..8 {
                    let s = samples[8 * y + x] as f64 - 128.0;
                    acc += s
                        * ((2 * x + 1) as f64 * u as f64 * std::f64::consts::PI / 16.0).cos()
                        * ((2 * y + 1) as f64 * v as f64 * std::f64::consts::PI / 16.0).cos();
                }
            }
            let exact = 8.0 * 0.25 * cu * cv * acc;
            assert!((c[8 * v + u] as f64 - exact).abs() < 2.0, "coefficient {} {}", u, v);
        }
    }
}

#[test]
fn quantization_rounds_halves_away_from_zero() {
    assert_eq!(quantize(-8192, 16), -64);
    assert_eq!(quantize(0, 16), 0);
    assert_eq!(quantize(7, 1), 0);
    assert_eq!(quantize(-7, 1), 0);
    assert_eq!(quantize(8, 1), 1);
    assert_eq!(quantize(8 * 8, 16), 1);
    assert_eq!(quantize(8 * 7, 16), 0);
    assert_eq!(quantize(-8 * 8, 16), -1);
    assert_eq!(quantize(-8 * 7, 16), 0);
    assert_eq!(quantize(8 * 24, 16), 2);
    assert_eq!(quantize(8 * 23 + 7, 16), 1);
    assert_eq!(quantize(8 * 5, 10), 1);
    assert_eq!(quantize(-8 * 5, 10), -1);
    assert_eq!(quantize(8 * 15, 10), 2);
    assert_eq!(quantize(8 * 14, 10), 1);
    assert_eq!(quantize(-33, 4), -1);
}

#[test]
fn color_conversion() {
    assert_eq!(rgb_to_ycbcr(0, 0, 0), (0, 128, 128));
    assert_eq!(rgb_to_ycbcr(255, 255, 255), (255, 128, 128));
    assert_eq!(rgb_to_ycbcr(128, 128, 128), (128, 128, 128));
    assert_eq!(rgb_to_ycbcr(255, 0, 0), (76, 84, 255));
    assert_eq!(rgb_to_ycbcr(0, 255, 0), (149, 43, 21));
    assert_eq!(rgb_to_ycbcr(0, 0, 255), (29, 255, 107));
    assert_eq!(rgb_to_ycbcr(10, 200, 30), (123, 75, 46));
}

#[test]
fn value_at_clamps_to_the_last_byte() {
    assert_eq!(value_at(&[5, 6, 7], 0), 5);
    assert_eq!(value_at(&[5, 6, 7], 2), 7);
    assert_eq!(value_at(&[5, 6, 7], 3), 7);
    assert_eq!(value_at(&[5, 6, 7], usize::MAX), 7);
}

#[test]
fn header_builders() {
    assert_eq!(
        build_jfif_header(),
        vec![b'J', b'F', b'I', b'F', 0, 1, 2, 0, 0, 1, 0, 1, 0, 0]
    );
    let comps = [
        Component { id: 1, h: 2, v: 1, tq: 0, dc_table: 0, ac_table: 1, dc_pred: 0 },
        Component { id: 9, h: 1, v: 1, tq: 3, dc_table: 1, ac_table: 0, dc_pred: 0 },
    ];
    assert_eq!(
        build_frame_header(8, 0x1234, 0x0102, &comps),
        vec![8, 0x01, 0x02, 0x12, 0x34, 2, 1, 0x21, 0, 9, 0x11, 3]
    );
    assert_eq!(build_scan_header(&comps), vec![2, 1, 0x01, 9, 0x10, 0, 63, 0]);
    assert_eq!(build_scan_header(&[]), vec![0, 0, 63, 0]);
    let h = build_huffman_segment(1, 0, &STD_LUMA_AC_CODE_LENGTHS, &STD_LUMA_AC_VALUES);
    assert_eq!(h.len(), 1 + 16 + 162);
    assert_eq!(h[0], 0x10);
    assert_eq!(&h[1..17], &STD_LUMA_AC_CODE_LENGTHS);
    assert_eq!(&h[17..], &STD_LUMA_AC_VALUES);
    let q = build_quantization_segment(8, 1, &STD_LUMA_QTABLE);
    assert_eq!(q.len(), 65);
    assert_eq!(q[0], 0x01);
    assert_eq!(&q[1..7], &[16, 11, 12, 14, 12, 10]);
    assert_eq!(build_quantization_segment(16, 2, &STD_LUMA_QTABLE)[0], 0x12);
}

#[test]
fn color_type_sizes() {
    assert_eq!(bits_per_pixel(ColorType::RGB(8)), 24);
    assert_eq!(bits_per_pixel(ColorType::GreyA(16)), 32);
    assert_eq!(bits_per_pixel(ColorType::Grey(1)), 1);
    assert_eq!(bits_per_pixel(ColorType::RGBA(8)), 32);
    assert_eq!(bits_per_pixel(ColorType::Palette(8)), 24);
    assert_eq!(num_components(ColorType::Grey(8)), 1);
    assert_eq!(num_components(ColorType::GreyA(8)), 2);
    assert_eq!(num_components(ColorType::RGB(8)), 3);
    assert_eq!(num_components(ColorType::Palette(8)), 3);
    assert_eq!(num_components(ColorType::RGBA(8)), 4);
}
