//! The tables of the encoder: the quantization tables and the Huffman table
//! specifications of Annex K of the standard, and what the encoder needs to
//! know of them.

use crate::codecs::jpeg::entropy::is_ac_symbol;
use crate::codecs::jpeg::{bits_hist, codes_upto, lemma_code_space_16, lemma_codes_upto_16};
use crate::huffman::fits;
use vstd::prelude::*;

verus! {

/// The quantization table for luminance, in row-major order.
pub const STD_LUMA_QTABLE: [u8; 64] = [
    16, 11, 10, 16, 124, 140, 151, 161,
    12, 12, 14, 19, 126, 158, 160, 155,
    14, 13, 16, 24, 140, 157, 169, 156,
    14, 17, 22, 29, 151, 187, 180, 162,
    18, 22, 37, 56, 168, 109, 103, 177,
    24, 35, 55, 64, 181, 104, 113, 192,
    49, 64, 78, 87, 103, 121, 120, 101,
    72, 92, 95, 98, 112, 100, 103, 199,
];

/// The quantization table for chrominance, in row-major order.
pub const STD_CHROMA_QTABLE: [u8; 64] = [
    17, 18, 24, 47, 99, 99, 99, 99,
    18, 21, 26, 66, 99, 99, 99, 99,
    24, 26, 56, 99, 99, 99, 99, 99,
    47, 66, 99, 99, 99, 99, 99, 99,
    99, 99, 99, 99, 99, 99, 99, 99,
    99, 99, 99, 99, 99, 99, 99, 99,
    99, 99, 99, 99, 99, 99, 99, 99,
    99, 99, 99, 99, 99, 99, 99, 99,
];

/// The number of code words of each length, from 1 to 16, for the DC
/// differences of luminance.
pub const STD_LUMA_DC_CODE_LENGTHS: [u8; 16] = [
    0, 1, 5, 1, 1, 1, 1, 1, 1, 0, 0, 0, 0, 0, 0, 0,
];

/// The sizes of DC differences of luminance, in the order of their code
/// words.
pub const STD_LUMA_DC_VALUES: [u8; 12] = [
    0, 1, 2, 3, 4, 5, 6, 7, 8, 9, 10, 11,
];

/// The number of code words of each length for the DC differences of
/// chrominance.
pub const STD_CHROMA_DC_CODE_LENGTHS: [u8; 16] = [
    0, 3, 1, 1, 1, 1, 1, 1, 1, 1, 1, 0, 0, 0, 0, 0,
];

/// The sizes of DC differences of chrominance, in the order of their code
/// words.
pub const STD_CHROMA_DC_VALUES: [u8; 12] = [
    0, 1, 2, 3, 4, 5, 6, 7, 8, 9, 10, 11,
];

/// The number of code words of each length for the AC coefficients of
/// luminance.
pub const STD_LUMA_AC_CODE_LENGTHS: [u8; 16] = [
    0, 2, 1, 3, 3, 2, 4, 3, 5, 5, 4, 4, 0, 0, 1, 125,
];

/// The run/size symbols of AC coefficients of luminance, in the order of
/// their code words.
pub const STD_LUMA_AC_VALUES: [u8; 162] = [
    0x01, 0x02, 0x03, 0x00, 0x04, 0x11, 0x05, 0x12, 0x21, 0x31, 0x41, 0x06, 0x13, 0x51, 0x61, 0x07,
    0x22, 0x71, 0x14, 0x32, 0x81, 0x91, 0xA1, 0x08, 0x23, 0x42, 0xB1, 0xC1, 0x15, 0x52, 0xD1, 0xF0,
    0x24, 0x33, 0x62, 0x72, 0x82, 0x09, 0x0A, 0x16, 0x17, 0x18, 0x19, 0x1A, 0x25, 0x26, 0x27, 0x28,
    0x29, 0x2A, 0x34, 0x35, 0x36, 0x37, 0x38, 0x39, 0x3A, 0x43, 0x44, 0x45, 0x46, 0x47, 0x48, 0x49,
    0x4A, 0x53, 0x54, 0x55, 0x56, 0x57, 0x58, 0x59, 0x5A, 0x63, 0x64, 0x65, 0x66, 0x67, 0x68, 0x69,
    0x6A, 0x73, 0x74, 0x75, 0x76, 0x77, 0x78, 0x79, 0x7A, 0x83, 0x84, 0x85, 0x86, 0x87, 0x88, 0x89,
    0x8A, 0x92, 0x93, 0x94, 0x95, 0x96, 0x97, 0x98, 0x99, 0x9A, 0xA2, 0xA3, 0xA4, 0xA5, 0xA6, 0xA7,
    0xA8, 0xA9, 0xAA, 0xB2, 0xB3, 0xB4, 0xB5, 0xB6, 0xB7, 0xB8, 0xB9, 0xBA, 0xC2, 0xC3, 0xC4, 0xC5,
    0xC6, 0xC7, 0xC8, 0xC9, 0xCA, 0xD2, 0xD3, 0xD4, 0xD5, 0xD6, 0xD7, 0xD8, 0xD9, 0xDA, 0xE1, 0xE2,
    0xE3, 0xE4, 0xE5, 0xE6, 0xE7, 0xE8, 0xE9, 0xEA, 0xF1, 0xF2, 0xF3, 0xF4, 0xF5, 0xF6, 0xF7, 0xF8,
    0xF9, 0xFA,
];

/// The number of code words of each length for the AC coefficients of
/// chrominance.
pub const STD_CHROMA_AC_CODE_LENGTHS: [u8; 16] = [
    0, 2, 1, 2, 4, 4, 3, 4, 7, 5, 4, 4, 0, 1, 2, 119,
];

/// The run/size symbols of AC coefficients of chrominance, in the order
/// of their code words.
pub const STD_CHROMA_AC_VALUES: [u8; 162] = [
    0x00, 0x01, 0x02, 0x03, 0x11, 0x04, 0x05, 0x21, 0x31, 0x06, 0x12, 0x41, 0x51, 0x07, 0x61, 0x71,
    0x13, 0x22, 0x32, 0x81, 0x08, 0x14, 0x42, 0x91, 0xA1, 0xB1, 0xC1, 0x09, 0x23, 0x33, 0x52, 0xF0,
    0x15, 0x62, 0x72, 0xD1, 0x0A, 0x16, 0x24, 0x34, 0xE1, 0x25, 0xF1, 0x17, 0x18, 0x19, 0x1A, 0x26,
    0x27, 0x28, 0x29, 0x2A, 0x35, 0x36, 0x37, 0x38, 0x39, 0x3A, 0x43, 0x44, 0x45, 0x46, 0x47, 0x48,
    0x49, 0x4A, 0x53, 0x54, 0x55, 0x56, 0x57, 0x58, 0x59, 0x5A, 0x63, 0x64, 0x65, 0x66, 0x67, 0x68,
    0x69, 0x6A, 0x73, 0x74, 0x75, 0x76, 0x77, 0x78, 0x79, 0x7A, 0x82, 0x83, 0x84, 0x85, 0x86, 0x87,
    0x88, 0x89, 0x8A, 0x92, 0x93, 0x94, 0x95, 0x96, 0x97, 0x98, 0x99, 0x9A, 0xA2, 0xA3, 0xA4, 0xA5,
    0xA6, 0xA7, 0xA8, 0xA9, 0xAA, 0xB2, 0xB3, 0xB4, 0xB5, 0xB6, 0xB7, 0xB8, 0xB9, 0xBA, 0xC2, 0xC3,
    0xC4, 0xC5, 0xC6, 0xC7, 0xC8, 0xC9, 0xCA, 0xD2, 0xD3, 0xD4, 0xD5, 0xD6, 0xD7, 0xD8, 0xD9, 0xDA,
    0xE2, 0xE3, 0xE4, 0xE5, 0xE6, 0xE7, 0xE8, 0xE9, 0xEA, 0xF2, 0xF3, 0xF4, 0xF5, 0xF6, 0xF7, 0xF8,
    0xF9, 0xFA,
];

/// The first place of `s` in `values`, or their number if it is not among
/// them.
pub open spec fn place_from(values: Seq<u8>, s: int, k: int) -> int
    decreases values.len() - k,
{
    if k < 0 || k >= values.len() {
        values.len() as int
    } else if values[k] == s {
        k
    } else {
        place_from(values, s, k + 1)
    }
}

/// The first place of `s` in `values`.
pub open spec fn ac_place(values: Seq<u8>, s: int) -> int {
    place_from(values, s, 0)
}

/// A value that is at place `k` of `values` has a first place, which holds
/// it.
pub proof fn lemma_place(values: Seq<u8>, s: int, k: int)
    requires
        0 <= k < values.len(),
        values[k] == s,
    ensures
        0 <= ac_place(values, s) <= k,
        values[ac_place(values, s)] == s,
{
    lemma_place_from(values, s, k, 0);
}

proof fn lemma_place_from(values: Seq<u8>, s: int, k: int, from: int)
    requires
        0 <= from <= k < values.len(),
        values[k] == s,
    ensures
        from <= place_from(values, s, from) <= k,
        values[place_from(values, s, from)] == s,
    decreases k - from,
{
    if values[from] != s {
        lemma_place_from(values, s, k, from + 1);
    }
}

/// Each of the four table specifications describes a code that is not
/// over-subscribed, with as many code words as the table has values.
pub proof fn lemma_std_tables_fit()
    ensures
        fits(bits_hist(STD_LUMA_DC_CODE_LENGTHS@), 16),
        codes_upto(STD_LUMA_DC_CODE_LENGTHS@, 16) == 12,
        fits(bits_hist(STD_CHROMA_DC_CODE_LENGTHS@), 16),
        codes_upto(STD_CHROMA_DC_CODE_LENGTHS@, 16) == 12,
        fits(bits_hist(STD_LUMA_AC_CODE_LENGTHS@), 16),
        codes_upto(STD_LUMA_AC_CODE_LENGTHS@, 16) == 162,
        fits(bits_hist(STD_CHROMA_AC_CODE_LENGTHS@), 16),
        codes_upto(STD_CHROMA_AC_CODE_LENGTHS@, 16) == 162,
{
    vstd::arithmetic::power2::lemma2_to64();
    lemma_code_space_16(STD_LUMA_DC_CODE_LENGTHS@);
    lemma_codes_upto_16(STD_LUMA_DC_CODE_LENGTHS@);
    lemma_code_space_16(STD_CHROMA_DC_CODE_LENGTHS@);
    lemma_codes_upto_16(STD_CHROMA_DC_CODE_LENGTHS@);
    lemma_code_space_16(STD_LUMA_AC_CODE_LENGTHS@);
    lemma_codes_upto_16(STD_LUMA_AC_CODE_LENGTHS@);
    lemma_code_space_16(STD_CHROMA_AC_CODE_LENGTHS@);
    lemma_codes_upto_16(STD_CHROMA_AC_CODE_LENGTHS@);
}

/// Every symbol of the AC coding is among the values of the luminance
/// table.
pub proof fn lemma_luma_ac_values_cover(s: int)
    requires
        is_ac_symbol(s),
    ensures
        0 <= ac_place(STD_LUMA_AC_VALUES@, s) < 162,
        STD_LUMA_AC_VALUES[ac_place(STD_LUMA_AC_VALUES@, s)] == s,
{
    let run = s / 16;
    let size = s % 16;
    if run == 0 {
        if size == 0 {
            assert(STD_LUMA_AC_VALUES[3] == 0);
            lemma_place(STD_LUMA_AC_VALUES@, s, 3);
        } else if size == 1 {
            assert(STD_LUMA_AC_VALUES[0] == 1);
            lemma_place(STD_LUMA_AC_VALUES@, s, 0);
        } else if size == 2 {
            assert(STD_LUMA_AC_VALUES[1] == 2);
            lemma_place(STD_LUMA_AC_VALUES@, s, 1);
        } else if size == 3 {
            assert(STD_LUMA_AC_VALUES[2] == 3);
            lemma_place(STD_LUMA_AC_VALUES@, s, 2);
        } else if size == 4 {
            assert(STD_LUMA_AC_VALUES[4] == 4);
            lemma_place(STD_LUMA_AC_VALUES@, s, 4);
        } else if size == 5 {
            assert(STD_LUMA_AC_VALUES[6] == 5);
            lemma_place(STD_LUMA_AC_VALUES@, s, 6);
        } else if size == 6 {
            assert(STD_LUMA_AC_VALUES[11] == 6);
            lemma_place(STD_LUMA_AC_VALUES@, s, 11);
        } else if size == 7 {
            assert(STD_LUMA_AC_VALUES[15] == 7);
            lemma_place(STD_LUMA_AC_VALUES@, s, 15);
        } else if size == 8 {
            assert(STD_LUMA_AC_VALUES[23] == 8);
            lemma_place(STD_LUMA_AC_VALUES@, s, 23);
        } else if size == 9 {
            assert(STD_LUMA_AC_VALUES[37] == 9);
            lemma_place(STD_LUMA_AC_VALUES@, s, 37);
        } else if size == 10 {
            assert(STD_LUMA_AC_VALUES[38] == 10);
            lemma_place(STD_LUMA_AC_VALUES@, s, 38);
        }
    } else if run == 1 {
        if size == 1 {
            assert(STD_LUMA_AC_VALUES[5] == 17);
            lemma_place(STD_LUMA_AC_VALUES@, s, 5);
        } else if size == 2 {
            assert(STD_LUMA_AC_VALUES[7] == 18);
            lemma_place(STD_LUMA_AC_VALUES@, s, 7);
        } else if size == 3 {
            assert(STD_LUMA_AC_VALUES[12] == 19);
            lemma_place(STD_LUMA_AC_VALUES@, s, 12);
        } else if size == 4 {
            assert(STD_LUMA_AC_VALUES[18] == 20);
            lemma_place(STD_LUMA_AC_VALUES@, s, 18);
        } else if size == 5 {
            assert(STD_LUMA_AC_VALUES[28] == 21);
            lemma_place(STD_LUMA_AC_VALUES@, s, 28);
        } else if size == 6 {
            assert(STD_LUMA_AC_VALUES[39] == 22);
            lemma_place(STD_LUMA_AC_VALUES@, s, 39);
        } else if size == 7 {
            assert(STD_LUMA_AC_VALUES[40] == 23);
            lemma_place(STD_LUMA_AC_VALUES@, s, 40);
        } else if size == 8 {
            assert(STD_LUMA_AC_VALUES[41] == 24);
            lemma_place(STD_LUMA_AC_VALUES@, s, 41);
        } else if size == 9 {
            assert(STD_LUMA_AC_VALUES[42] == 25);
            lemma_place(STD_LUMA_AC_VALUES@, s, 42);
        } else if size == 10 {
            assert(STD_LUMA_AC_VALUES[43] == 26);
            lemma_place(STD_LUMA_AC_VALUES@, s, 43);
        }
    } else if run == 2 {
        if size == 1 {
            assert(STD_LUMA_AC_VALUES[8] == 33);
            lemma_place(STD_LUMA_AC_VALUES@, s, 8);
        } else if size == 2 {
            assert(STD_LUMA_AC_VALUES[16] == 34);
            lemma_place(STD_LUMA_AC_VALUES@, s, 16);
        } else if size == 3 {
            assert(STD_LUMA_AC_VALUES[24] == 35);
            lemma_place(STD_LUMA_AC_VALUES@, s, 24);
        } else if size == 4 {
            assert(STD_LUMA_AC_VALUES[32] == 36);
            lemma_place(STD_LUMA_AC_VALUES@, s, 32);
        } else if size == 5 {
            assert(STD_LUMA_AC_VALUES[44] == 37);
            lemma_place(STD_LUMA_AC_VALUES@, s, 44);
        } else if size == 6 {
            assert(STD_LUMA_AC_VALUES[45] == 38);
            lemma_place(STD_LUMA_AC_VALUES@, s, 45);
        } else if size == 7 {
            assert(STD_LUMA_AC_VALUES[46] == 39);
            lemma_place(STD_LUMA_AC_VALUES@, s, 46);
        } else if size == 8 {
            assert(STD_LUMA_AC_VALUES[47] == 40);
            lemma_place(STD_LUMA_AC_VALUES@, s, 47);
        } else if size == 9 {
            assert(STD_LUMA_AC_VALUES[48] == 41);
            lemma_place(STD_LUMA_AC_VALUES@, s, 48);
        } else if size == 10 {
            assert(STD_LUMA_AC_VALUES[49] == 42);
            lemma_place(STD_LUMA_AC_VALUES@, s, 49);
        }
    } else if run == 3 {
        if size == 1 {
            assert(STD_LUMA_AC_VALUES[9] == 49);
            lemma_place(STD_LUMA_AC_VALUES@, s, 9);
        } else if size == 2 {
            assert(STD_LUMA_AC_VALUES[19] == 50);
            lemma_place(STD_LUMA_AC_VALUES@, s, 19);
        } else if size == 3 {
            assert(STD_LUMA_AC_VALUES[33] == 51);
            lemma_place(STD_LUMA_AC_VALUES@, s, 33);
        } else if size == 4 {
            assert(STD_LUMA_AC_VALUES[50] == 52);
            lemma_place(STD_LUMA_AC_VALUES@, s, 50);
        } else if size == 5 {
            assert(STD_LUMA_AC_VALUES[51] == 53);
            lemma_place(STD_LUMA_AC_VALUES@, s, 51);
        } else if size == 6 {
            assert(STD_LUMA_AC_VALUES[52] == 54);
            lemma_place(STD_LUMA_AC_VALUES@, s, 52);
        } else if size == 7 {
            assert(STD_LUMA_AC_VALUES[53] == 55);
            lemma_place(STD_LUMA_AC_VALUES@, s, 53);
        } else if size == 8 {
            assert(STD_LUMA_AC_VALUES[54] == 56);
            lemma_place(STD_LUMA_AC_VALUES@, s, 54);
        } else if size == 9 {
            assert(STD_LUMA_AC_VALUES[55] == 57);
            lemma_place(STD_LUMA_AC_VALUES@, s, 55);
        } else if size == 10 {
            assert(STD_LUMA_AC_VALUES[56] == 58);
            lemma_place(STD_LUMA_AC_VALUES@, s, 56);
        }
    } else if run == 4 {
        if size == 1 {
            assert(STD_LUMA_AC_VALUES[10] == 65);
            lemma_place(STD_LUMA_AC_VALUES@, s, 10);
        } else if size == 2 {
            assert(STD_LUMA_AC_VALUES[25] == 66);
            lemma_place(STD_LUMA_AC_VALUES@, s, 25);
        } else if size == 3 {
            assert(STD_LUMA_AC_VALUES[57] == 67);
            lemma_place(STD_LUMA_AC_VALUES@, s, 57);
        } else if size == 4 {
            assert(STD_LUMA_AC_VALUES[58] == 68);
            lemma_place(STD_LUMA_AC_VALUES@, s, 58);
        } else if size == 5 {
            assert(STD_LUMA_AC_VALUES[59] == 69);
            lemma_place(STD_LUMA_AC_VALUES@, s, 59);
        } else if size == 6 {
            assert(STD_LUMA_AC_VALUES[60] == 70);
            lemma_place(STD_LUMA_AC_VALUES@, s, 60);
        } else if size == 7 {
            assert(STD_LUMA_AC_VALUES[61] == 71);
            lemma_place(STD_LUMA_AC_VALUES@, s, 61);
        } else if size == 8 {
            assert(STD_LUMA_AC_VALUES[62] == 72);
            lemma_place(STD_LUMA_AC_VALUES@, s, 62);
        } else if size == 9 {
            assert(STD_LUMA_AC_VALUES[63] == 73);
            lemma_place(STD_LUMA_AC_VALUES@, s, 63);
        } else if size == 10 {
            assert(STD_LUMA_AC_VALUES[64] == 74);
            lemma_place(STD_LUMA_AC_VALUES@, s, 64);
        }
    } else if run == 5 {
        if size == 1 {
            assert(STD_LUMA_AC_VALUES[13] == 81);
            lemma_place(STD_LUMA_AC_VALUES@, s, 13);
        } else if size == 2 {
            assert(STD_LUMA_AC_VALUES[29] == 82);
            lemma_place(STD_LUMA_AC_VALUES@, s, 29);
        } else if size == 3 {
            assert(STD_LUMA_AC_VALUES[65] == 83);
            lemma_place(STD_LUMA_AC_VALUES@, s, 65);
        } else if size == 4 {
            assert(STD_LUMA_AC_VALUES[66] == 84);
            lemma_place(STD_LUMA_AC_VALUES@, s, 66);
        } else if size == 5 {
            assert(STD_LUMA_AC_VALUES[67] == 85);
            lemma_place(STD_LUMA_AC_VALUES@, s, 67);
        } else if size == 6 {
            assert(STD_LUMA_AC_VALUES[68] == 86);
            lemma_place(STD_LUMA_AC_VALUES@, s, 68);
        } else if size == 7 {
            assert(STD_LUMA_AC_VALUES[69] == 87);
            lemma_place(STD_LUMA_AC_VALUES@, s, 69);
        } else if size == 8 {
            assert(STD_LUMA_AC_VALUES[70] == 88);
            lemma_place(STD_LUMA_AC_VALUES@, s, 70);
        } else if size == 9 {
            assert(STD_LUMA_AC_VALUES[71] == 89);
            lemma_place(STD_LUMA_AC_VALUES@, s, 71);
        } else if size == 10 {
            assert(STD_LUMA_AC_VALUES[72] == 90);
            lemma_place(STD_LUMA_AC_VALUES@, s, 72);
        }
    } else if run == 6 {
        if size == 1 {
            assert(STD_LUMA_AC_VALUES[14] == 97);
            lemma_place(STD_LUMA_AC_VALUES@, s, 14);
        } else if size == 2 {
            assert(STD_LUMA_AC_VALUES[34] == 98);
            lemma_place(STD_LUMA_AC_VALUES@, s, 34);
        } else if size == 3 {
            assert(STD_LUMA_AC_VALUES[73] == 99);
            lemma_place(STD_LUMA_AC_VALUES@, s, 73);
        } else if size == 4 {
            assert(STD_LUMA_AC_VALUES[74] == 100);
            lemma_place(STD_LUMA_AC_VALUES@, s, 74);
        } else if size == 5 {
            assert(STD_LUMA_AC_VALUES[75] == 101);
            lemma_place(STD_LUMA_AC_VALUES@, s, 75);
        } else if size == 6 {
            assert(STD_LUMA_AC_VALUES[76] == 102);
            lemma_place(STD_LUMA_AC_VALUES@, s, 76);
        } else if size == 7 {
            assert(STD_LUMA_AC_VALUES[77] == 103);
            lemma_place(STD_LUMA_AC_VALUES@, s, 77);
        } else if size == 8 {
            assert(STD_LUMA_AC_VALUES[78] == 104);
            lemma_place(STD_LUMA_AC_VALUES@, s, 78);
        } else if size == 9 {
            assert(STD_LUMA_AC_VALUES[79] == 105);
            lemma_place(STD_LUMA_AC_VALUES@, s, 79);
        } else if size == 10 {
            assert(STD_LUMA_AC_VALUES[80] == 106);
            lemma_place(STD_LUMA_AC_VALUES@, s, 80);
        }
    } else if run == 7 {
        if size == 1 {
            assert(STD_LUMA_AC_VALUES[17] == 113);
            lemma_place(STD_LUMA_AC_VALUES@, s, 17);
        } else if size == 2 {
            assert(STD_LUMA_AC_VALUES[35] == 114);
            lemma_place(STD_LUMA_AC_VALUES@, s, 35);
        } else if size == 3 {
            assert(STD_LUMA_AC_VALUES[81] == 115);
            lemma_place(STD_LUMA_AC_VALUES@, s, 81);
        } else if size == 4 {
            assert(STD_LUMA_AC_VALUES[82] == 116);
            lemma_place(STD_LUMA_AC_VALUES@, s, 82);
        } else if size == 5 {
            assert(STD_LUMA_AC_VALUES[83] == 117);
            lemma_place(STD_LUMA_AC_VALUES@, s, 83);
        } else if size == 6 {
            assert(STD_LUMA_AC_VALUES[84] == 118);
            lemma_place(STD_LUMA_AC_VALUES@, s, 84);
        } else if size == 7 {
            assert(STD_LUMA_AC_VALUES[85] == 119);
            lemma_place(STD_LUMA_AC_VALUES@, s, 85);
        } else if size == 8 {
            assert(STD_LUMA_AC_VALUES[86] == 120);
            lemma_place(STD_LUMA_AC_VALUES@, s, 86);
        } else if size == 9 {
            assert(STD_LUMA_AC_VALUES[87] == 121);
            lemma_place(STD_LUMA_AC_VALUES@, s, 87);
        } else if size == 10 {
            assert(STD_LUMA_AC_VALUES[88] == 122);
            lemma_place(STD_LUMA_AC_VALUES@, s, 88);
        }
    } else if run == 8 {
        if size == 1 {
            assert(STD_LUMA_AC_VALUES[20] == 129);
            lemma_place(STD_LUMA_AC_VALUES@, s, 20);
        } else if size == 2 {
            assert(STD_LUMA_AC_VALUES[36] == 130);
            lemma_place(STD_LUMA_AC_VALUES@, s, 36);
        } else if size == 3 {
            assert(STD_LUMA_AC_VALUES[89] == 131);
            lemma_place(STD_LUMA_AC_VALUES@, s, 89);
        } else if size == 4 {
            assert(STD_LUMA_AC_VALUES[90] == 132);
            lemma_place(STD_LUMA_AC_VALUES@, s, 90);
        } else if size == 5 {
            assert(STD_LUMA_AC_VALUES[91] == 133);
            lemma_place(STD_LUMA_AC_VALUES@, s, 91);
        } else if size == 6 {
            assert(STD_LUMA_AC_VALUES[92] == 134);
            lemma_place(STD_LUMA_AC_VALUES@, s, 92);
        } else if size == 7 {
            assert(STD_LUMA_AC_VALUES[93] == 135);
            lemma_place(STD_LUMA_AC_VALUES@, s, 93);
        } else if size == 8 {
            assert(STD_LUMA_AC_VALUES[94] == 136);
            lemma_place(STD_LUMA_AC_VALUES@, s, 94);
        } else if size == 9 {
            assert(STD_LUMA_AC_VALUES[95] == 137);
            lemma_place(STD_LUMA_AC_VALUES@, s, 95);
        } else if size == 10 {
            assert(STD_LUMA_AC_VALUES[96] == 138);
            lemma_place(STD_LUMA_AC_VALUES@, s, 96);
        }
    } else if run == 9 {
        if size == 1 {
            assert(STD_LUMA_AC_VALUES[21] == 145);
            lemma_place(STD_LUMA_AC_VALUES@, s, 21);
        } else if size == 2 {
            assert(STD_LUMA_AC_VALUES[97] == 146);
            lemma_place(STD_LUMA_AC_VALUES@, s, 97);
        } else if size == 3 {
            assert(STD_LUMA_AC_VALUES[98] == 147);
            lemma_place(STD_LUMA_AC_VALUES@, s, 98);
        } else if size == 4 {
            assert(STD_LUMA_AC_VALUES[99] == 148);
            lemma_place(STD_LUMA_AC_VALUES@, s, 99);
        } else if size == 5 {
            assert(STD_LUMA_AC_VALUES[100] == 149);
            lemma_place(STD_LUMA_AC_VALUES@, s, 100);
        } else if size == 6 {
            assert(STD_LUMA_AC_VALUES[101] == 150);
            lemma_place(STD_LUMA_AC_VALUES@, s, 101);
        } else if size == 7 {
            assert(STD_LUMA_AC_VALUES[102] == 151);
            lemma_place(STD_LUMA_AC_VALUES@, s, 102);
        } else if size == 8 {
            assert(STD_LUMA_AC_VALUES[103] == 152);
            lemma_place(STD_LUMA_AC_VALUES@, s, 103);
        } else if size == 9 {
            assert(STD_LUMA_AC_VALUES[104] == 153);
            lemma_place(STD_LUMA_AC_VALUES@, s, 104);
        } else if size == 10 {
            assert(STD_LUMA_AC_VALUES[105] == 154);
            lemma_place(STD_LUMA_AC_VALUES@, s, 105);
        }
    } else if run == 10 {
        if size == 1 {
            assert(STD_LUMA_AC_VALUES[22] == 161);
            lemma_place(STD_LUMA_AC_VALUES@, s, 22);
        } else if size == 2 {
            assert(STD_LUMA_AC_VALUES[106] == 162);
            lemma_place(STD_LUMA_AC_VALUES@, s, 106);
        } else if size == 3 {
            assert(STD_LUMA_AC_VALUES[107] == 163);
            lemma_place(STD_LUMA_AC_VALUES@, s, 107);
        } else if size == 4 {
            assert(STD_LUMA_AC_VALUES[108] == 164);
            lemma_place(STD_LUMA_AC_VALUES@, s, 108);
        } else if size == 5 {
            assert(STD_LUMA_AC_VALUES[109] == 165);
            lemma_place(STD_LUMA_AC_VALUES@, s, 109);
        } else if size == 6 {
            assert(STD_LUMA_AC_VALUES[110] == 166);
            lemma_place(STD_LUMA_AC_VALUES@, s, 110);
        } else if size == 7 {
            assert(STD_LUMA_AC_VALUES[111] == 167);
            lemma_place(STD_LUMA_AC_VALUES@, s, 111);
        } else if size == 8 {
            assert(STD_LUMA_AC_VALUES[112] == 168);
            lemma_place(STD_LUMA_AC_VALUES@, s, 112);
        } else if size == 9 {
            assert(STD_LUMA_AC_VALUES[113] == 169);
            lemma_place(STD_LUMA_AC_VALUES@, s, 113);
        } else if size == 10 {
            assert(STD_LUMA_AC_VALUES[114] == 170);
            lemma_place(STD_LUMA_AC_VALUES@, s, 114);
        }
    } else if run == 11 {
        if size == 1 {
            assert(STD_LUMA_AC_VALUES[26] == 177);
            lemma_place(STD_LUMA_AC_VALUES@, s, 26);
        } else if size == 2 {
            assert(STD_LUMA_AC_VALUES[115] == 178);
            lemma_place(STD_LUMA_AC_VALUES@, s, 115);
        } else if size == 3 {
            assert(STD_LUMA_AC_VALUES[116] == 179);
            lemma_place(STD_LUMA_AC_VALUES@, s, 116);
        } else if size == 4 {
            assert(STD_LUMA_AC_VALUES[117] == 180);
            lemma_place(STD_LUMA_AC_VALUES@, s, 117);
        } else if size == 5 {
            assert(STD_LUMA_AC_VALUES[118] == 181);
            lemma_place(STD_LUMA_AC_VALUES@, s, 118);
        } else if size == 6 {
            assert(STD_LUMA_AC_VALUES[119] == 182);
            lemma_place(STD_LUMA_AC_VALUES@, s, 119);
        } else if size == 7 {
            assert(STD_LUMA_AC_VALUES[120] == 183);
            lemma_place(STD_LUMA_AC_VALUES@, s, 120);
        } else if size == 8 {
            assert(STD_LUMA_AC_VALUES[121] == 184);
            lemma_place(STD_LUMA_AC_VALUES@, s, 121);
        } else if size == 9 {
            assert(STD_LUMA_AC_VALUES[122] == 185);
            lemma_place(STD_LUMA_AC_VALUES@, s, 122);
        } else if size == 10 {
            assert(STD_LUMA_AC_VALUES[123] == 186);
            lemma_place(STD_LUMA_AC_VALUES@, s, 123);
        }
    } else if run == 12 {
        if size == 1 {
            assert(STD_LUMA_AC_VALUES[27] == 193);
            lemma_place(STD_LUMA_AC_VALUES@, s, 27);
        } else if size == 2 {
            assert(STD_LUMA_AC_VALUES[124] == 194);
            lemma_place(STD_LUMA_AC_VALUES@, s, 124);
        } else if size == 3 {
            assert(STD_LUMA_AC_VALUES[125] == 195);
            lemma_place(STD_LUMA_AC_VALUES@, s, 125);
        } else if size == 4 {
            assert(STD_LUMA_AC_VALUES[126] == 196);
            lemma_place(STD_LUMA_AC_VALUES@, s, 126);
        } else if size == 5 {
            assert(STD_LUMA_AC_VALUES[127] == 197);
            lemma_place(STD_LUMA_AC_VALUES@, s, 127);
        } else if size == 6 {
            assert(STD_LUMA_AC_VALUES[128] == 198);
            lemma_place(STD_LUMA_AC_VALUES@, s, 128);
        } else if size == 7 {
            assert(STD_LUMA_AC_VALUES[129] == 199);
            lemma_place(STD_LUMA_AC_VALUES@, s, 129);
        } else if size == 8 {
            assert(STD_LUMA_AC_VALUES[130] == 200);
            lemma_place(STD_LUMA_AC_VALUES@, s, 130);
        } else if size == 9 {
            assert(STD_LUMA_AC_VALUES[131] == 201);
            lemma_place(STD_LUMA_AC_VALUES@, s, 131);
        } else if size == 10 {
            assert(STD_LUMA_AC_VALUES[132] == 202);
            lemma_place(STD_LUMA_AC_VALUES@, s, 132);
        }
    } else if run == 13 {
        if size == 1 {
            assert(STD_LUMA_AC_VALUES[30] == 209);
            lemma_place(STD_LUMA_AC_VALUES@, s, 30);
        } else if size == 2 {
            assert(STD_LUMA_AC_VALUES[133] == 210);
            lemma_place(STD_LUMA_AC_VALUES@, s, 133);
        } else if size == 3 {
            assert(STD_LUMA_AC_VALUES[134] == 211);
            lemma_place(STD_LUMA_AC_VALUES@, s, 134);
        } else if size == 4 {
            assert(STD_LUMA_AC_VALUES[135] == 212);
            lemma_place(STD_LUMA_AC_VALUES@, s, 135);
        } else if size == 5 {
            assert(STD_LUMA_AC_VALUES[136] == 213);
            lemma_place(STD_LUMA_AC_VALUES@, s, 136);
        } else if size == 6 {
            assert(STD_LUMA_AC_VALUES[137] == 214);
            lemma_place(STD_LUMA_AC_VALUES@, s, 137);
        } else if size == 7 {
            assert(STD_LUMA_AC_VALUES[138] == 215);
            lemma_place(STD_LUMA_AC_VALUES@, s, 138);
        } else if size == 8 {
            assert(STD_LUMA_AC_VALUES[139] == 216);
            lemma_place(STD_LUMA_AC_VALUES@, s, 139);
        } else if size == 9 {
            assert(STD_LUMA_AC_VALUES[140] == 217);
            lemma_place(STD_LUMA_AC_VALUES@, s, 140);
        } else if size == 10 {
            assert(STD_LUMA_AC_VALUES[141] == 218);
            lemma_place(STD_LUMA_AC_VALUES@, s, 141);
        }
    } else if run == 14 {
        if size == 1 {
            assert(STD_LUMA_AC_VALUES[142] == 225);
            lemma_place(STD_LUMA_AC_VALUES@, s, 142);
        } else if size == 2 {
            assert(STD_LUMA_AC_VALUES[143] == 226);
            lemma_place(STD_LUMA_AC_VALUES@, s, 143);
        } else if size == 3 {
            assert(STD_LUMA_AC_VALUES[144] == 227);
            lemma_place(STD_LUMA_AC_VALUES@, s, 144);
        } else if size == 4 {
            assert(STD_LUMA_AC_VALUES[145] == 228);
            lemma_place(STD_LUMA_AC_VALUES@, s, 145);
        } else if size == 5 {
            assert(STD_LUMA_AC_VALUES[146] == 229);
            lemma_place(STD_LUMA_AC_VALUES@, s, 146);
        } else if size == 6 {
            assert(STD_LUMA_AC_VALUES[147] == 230);
            lemma_place(STD_LUMA_AC_VALUES@, s, 147);
        } else if size == 7 {
            assert(STD_LUMA_AC_VALUES[148] == 231);
            lemma_place(STD_LUMA_AC_VALUES@, s, 148);
        } else if size == 8 {
            assert(STD_LUMA_AC_VALUES[149] == 232);
            lemma_place(STD_LUMA_AC_VALUES@, s, 149);
        } else if size == 9 {
            assert(STD_LUMA_AC_VALUES[150] == 233);
            lemma_place(STD_LUMA_AC_VALUES@, s, 150);
        } else if size == 10 {
            assert(STD_LUMA_AC_VALUES[151] == 234);
            lemma_place(STD_LUMA_AC_VALUES@, s, 151);
        }
    } else if run == 15 {
        if size == 0 {
            assert(STD_LUMA_AC_VALUES[31] == 240);
            lemma_place(STD_LUMA_AC_VALUES@, s, 31);
        } else if size == 1 {
            assert(STD_LUMA_AC_VALUES[152] == 241);
            lemma_place(STD_LUMA_AC_VALUES@, s, 152);
        } else if size == 2 {
            assert(STD_LUMA_AC_VALUES[153] == 242);
            lemma_place(STD_LUMA_AC_VALUES@, s, 153);
        } else if size == 3 {
            assert(STD_LUMA_AC_VALUES[154] == 243);
            lemma_place(STD_LUMA_AC_VALUES@, s, 154);
        } else if size == 4 {
            assert(STD_LUMA_AC_VALUES[155] == 244);
            lemma_place(STD_LUMA_AC_VALUES@, s, 155);
        } else if size == 5 {
            assert(STD_LUMA_AC_VALUES[156] == 245);
            lemma_place(STD_LUMA_AC_VALUES@, s, 156);
        } else if size == 6 {
            assert(STD_LUMA_AC_VALUES[157] == 246);
            lemma_place(STD_LUMA_AC_VALUES@, s, 157);
        } else if size == 7 {
            assert(STD_LUMA_AC_VALUES[158] == 247);
            lemma_place(STD_LUMA_AC_VALUES@, s, 158);
        } else if size == 8 {
            assert(STD_LUMA_AC_VALUES[159] == 248);
            lemma_place(STD_LUMA_AC_VALUES@, s, 159);
        } else if size == 9 {
            assert(STD_LUMA_AC_VALUES[160] == 249);
            lemma_place(STD_LUMA_AC_VALUES@, s, 160);
        } else if size == 10 {
            assert(STD_LUMA_AC_VALUES[161] == 250);
            lemma_place(STD_LUMA_AC_VALUES@, s, 161);
        }
    }
}

/// Every symbol of the AC coding is among the values of the chrominance
/// table.
pub proof fn lemma_chroma_ac_values_cover(s: int)
    requires
        is_ac_symbol(s),
    ensures
        0 <= ac_place(STD_CHROMA_AC_VALUES@, s) < 162,
        STD_CHROMA_AC_VALUES[ac_place(STD_CHROMA_AC_VALUES@, s)] == s,
{
    let run = s / 16;
    let size = s % 16;
    if run == 0 {
        if size == 0 {
            assert(STD_CHROMA_AC_VALUES[0] == 0);
            lemma_place(STD_CHROMA_AC_VALUES@, s, 0);
        } else if size == 1 {
            assert(STD_CHROMA_AC_VALUES[1] == 1);
            lemma_place(STD_CHROMA_AC_VALUES@, s, 1);
        } else if size == 2 {
            assert(STD_CHROMA_AC_VALUES[2] == 2);
            lemma_place(STD_CHROMA_AC_VALUES@, s, 2);
        } else if size == 3 {
            assert(STD_CHROMA_AC_VALUES[3] == 3);
            lemma_place(STD_CHROMA_AC_VALUES@, s, 3);
        } else if size == 4 {
            assert(STD_CHROMA_AC_VALUES[5] == 4);
            lemma_place(STD_CHROMA_AC_VALUES@, s, 5);
        } else if size == 5 {
            assert(STD_CHROMA_AC_VALUES[6] == 5);
            lemma_place(STD_CHROMA_AC_VALUES@, s, 6);
        } else if size == 6 {
            assert(STD_CHROMA_AC_VALUES[9] == 6);
            lemma_place(STD_CHROMA_AC_VALUES@, s, 9);
        } else if size == 7 {
            assert(STD_CHROMA_AC_VALUES[13] == 7);
            lemma_place(STD_CHROMA_AC_VALUES@, s, 13);
        } else if size == 8 {
            assert(STD_CHROMA_AC_VALUES[20] == 8);
            lemma_place(STD_CHROMA_AC_VALUES@, s, 20);
        } else if size == 9 {
            assert(STD_CHROMA_AC_VALUES[27] == 9);
            lemma_place(STD_CHROMA_AC_VALUES@, s, 27);
        } else if size == 10 {
            assert(STD_CHROMA_AC_VALUES[36] == 10);
            lemma_place(STD_CHROMA_AC_VALUES@, s, 36);
        }
    } else if run == 1 {
        if size == 1 {
            assert(STD_CHROMA_AC_VALUES[4] == 17);
            lemma_place(STD_CHROMA_AC_VALUES@, s, 4);
        } else if size == 2 {
            assert(STD_CHROMA_AC_VALUES[10] == 18);
            lemma_place(STD_CHROMA_AC_VALUES@, s, 10);
        } else if size == 3 {
            assert(STD_CHROMA_AC_VALUES[16] == 19);
            lemma_place(STD_CHROMA_AC_VALUES@, s, 16);
        } else if size == 4 {
            assert(STD_CHROMA_AC_VALUES[21] == 20);
            lemma_place(STD_CHROMA_AC_VALUES@, s, 21);
        } else if size == 5 {
            assert(STD_CHROMA_AC_VALUES[32] == 21);
            lemma_place(STD_CHROMA_AC_VALUES@, s, 32);
        } else if size == 6 {
            assert(STD_CHROMA_AC_VALUES[37] == 22);
            lemma_place(STD_CHROMA_AC_VALUES@, s, 37);
        } else if size == 7 {
            assert(STD_CHROMA_AC_VALUES[43] == 23);
            lemma_place(STD_CHROMA_AC_VALUES@, s, 43);
        } else if size == 8 {
            assert(STD_CHROMA_AC_VALUES[44] == 24);
            lemma_place(STD_CHROMA_AC_VALUES@, s, 44);
        } else if size == 9 {
            assert(STD_CHROMA_AC_VALUES[45] == 25);
            lemma_place(STD_CHROMA_AC_VALUES@, s, 45);
        } else if size == 10 {
            assert(STD_CHROMA_AC_VALUES[46] == 26);
            lemma_place(STD_CHROMA_AC_VALUES@, s, 46);
        }
    } else if run == 2 {
        if size == 1 {
            assert(STD_CHROMA_AC_VALUES[7] == 33);
            lemma_place(STD_CHROMA_AC_VALUES@, s, 7);
        } else if size == 2 {
            assert(STD_CHROMA_AC_VALUES[17] == 34);
            lemma_place(STD_CHROMA_AC_VALUES@, s, 17);
        } else if size == 3 {
            assert(STD_CHROMA_AC_VALUES[28] == 35);
            lemma_place(STD_CHROMA_AC_VALUES@, s, 28);
        } else if size == 4 {
            assert(STD_CHROMA_AC_VALUES[38] == 36);
            lemma_place(STD_CHROMA_AC_VALUES@, s, 38);
        } else if size == 5 {
            assert(STD_CHROMA_AC_VALUES[41] == 37);
            lemma_place(STD_CHROMA_AC_VALUES@, s, 41);
        } else if size == 6 {
            assert(STD_CHROMA_AC_VALUES[47] == 38);
            lemma_place(STD_CHROMA_AC_VALUES@, s, 47);
        } else if size == 7 {
            assert(STD_CHROMA_AC_VALUES[48] == 39);
            lemma_place(STD_CHROMA_AC_VALUES@, s, 48);
        } else if size == 8 {
            assert(STD_CHROMA_AC_VALUES[49] == 40);
            lemma_place(STD_CHROMA_AC_VALUES@, s, 49);
        } else if size == 9 {
            assert(STD_CHROMA_AC_VALUES[50] == 41);
            lemma_place(STD_CHROMA_AC_VALUES@, s, 50);
        } else if size == 10 {
            assert(STD_CHROMA_AC_VALUES[51] == 42);
            lemma_place(STD_CHROMA_AC_VALUES@, s, 51);
        }
    } else if run == 3 {
        if size == 1 {
            assert(STD_CHROMA_AC_VALUES[8] == 49);
            lemma_place(STD_CHROMA_AC_VALUES@, s, 8);
        } else if size == 2 {
            assert(STD_CHROMA_AC_VALUES[18] == 50);
            lemma_place(STD_CHROMA_AC_VALUES@, s, 18);
        } else if size == 3 {
            assert(STD_CHROMA_AC_VALUES[29] == 51);
            lemma_place(STD_CHROMA_AC_VALUES@, s, 29);
        } else if size == 4 {
            assert(STD_CHROMA_AC_VALUES[39] == 52);
            lemma_place(STD_CHROMA_AC_VALUES@, s, 39);
        } else if size == 5 {
            assert(STD_CHROMA_AC_VALUES[52] == 53);
            lemma_place(STD_CHROMA_AC_VALUES@, s, 52);
        } else if size == 6 {
            assert(STD_CHROMA_AC_VALUES[53] == 54);
            lemma_place(STD_CHROMA_AC_VALUES@, s, 53);
        } else if size == 7 {
            assert(STD_CHROMA_AC_VALUES[54] == 55);
            lemma_place(STD_CHROMA_AC_VALUES@, s, 54);
        } else if size == 8 {
            assert(STD_CHROMA_AC_VALUES[55] == 56);
            lemma_place(STD_CHROMA_AC_VALUES@, s, 55);
        } else if size == 9 {
            assert(STD_CHROMA_AC_VALUES[56] == 57);
            lemma_place(STD_CHROMA_AC_VALUES@, s, 56);
        } else if size == 10 {
            assert(STD_CHROMA_AC_VALUES[57] == 58);
            lemma_place(STD_CHROMA_AC_VALUES@, s, 57);
        }
    } else if run == 4 {
        if size == 1 {
            assert(STD_CHROMA_AC_VALUES[11] == 65);
            lemma_place(STD_CHROMA_AC_VALUES@, s, 11);
        } else if size == 2 {
            assert(STD_CHROMA_AC_VALUES[22] == 66);
            lemma_place(STD_CHROMA_AC_VALUES@, s, 22);
        } else if size == 3 {
            assert(STD_CHROMA_AC_VALUES[58] == 67);
            lemma_place(STD_CHROMA_AC_VALUES@, s, 58);
        } else if size == 4 {
            assert(STD_CHROMA_AC_VALUES[59] == 68);
            lemma_place(STD_CHROMA_AC_VALUES@, s, 59);
        } else if size == 5 {
            assert(STD_CHROMA_AC_VALUES[60] == 69);
            lemma_place(STD_CHROMA_AC_VALUES@, s, 60);
        } else if size == 6 {
            assert(STD_CHROMA_AC_VALUES[61] == 70);
            lemma_place(STD_CHROMA_AC_VALUES@, s, 61);
        } else if size == 7 {
            assert(STD_CHROMA_AC_VALUES[62] == 71);
            lemma_place(STD_CHROMA_AC_VALUES@, s, 62);
        } else if size == 8 {
            assert(STD_CHROMA_AC_VALUES[63] == 72);
            lemma_place(STD_CHROMA_AC_VALUES@, s, 63);
        } else if size == 9 {
            assert(STD_CHROMA_AC_VALUES[64] == 73);
            lemma_place(STD_CHROMA_AC_VALUES@, s, 64);
        } else if size == 10 {
            assert(STD_CHROMA_AC_VALUES[65] == 74);
            lemma_place(STD_CHROMA_AC_VALUES@, s, 65);
        }
    } else if run == 5 {
        if size == 1 {
            assert(STD_CHROMA_AC_VALUES[12] == 81);
            lemma_place(STD_CHROMA_AC_VALUES@, s, 12);
        } else if size == 2 {
            assert(STD_CHROMA_AC_VALUES[30] == 82);
            lemma_place(STD_CHROMA_AC_VALUES@, s, 30);
        } else if size == 3 {
            assert(STD_CHROMA_AC_VALUES[66] == 83);
            lemma_place(STD_CHROMA_AC_VALUES@, s, 66);
        } else if size == 4 {
            assert(STD_CHROMA_AC_VALUES[67] == 84);
            lemma_place(STD_CHROMA_AC_VALUES@, s, 67);
        } else if size == 5 {
            assert(STD_CHROMA_AC_VALUES[68] == 85);
            lemma_place(STD_CHROMA_AC_VALUES@, s, 68);
        } else if size == 6 {
            assert(STD_CHROMA_AC_VALUES[69] == 86);
            lemma_place(STD_CHROMA_AC_VALUES@, s, 69);
        } else if size == 7 {
            assert(STD_CHROMA_AC_VALUES[70] == 87);
            lemma_place(STD_CHROMA_AC_VALUES@, s, 70);
        } else if size == 8 {
            assert(STD_CHROMA_AC_VALUES[71] == 88);
            lemma_place(STD_CHROMA_AC_VALUES@, s, 71);
        } else if size == 9 {
            assert(STD_CHROMA_AC_VALUES[72] == 89);
            lemma_place(STD_CHROMA_AC_VALUES@, s, 72);
        } else if size == 10 {
            assert(STD_CHROMA_AC_VALUES[73] == 90);
            lemma_place(STD_CHROMA_AC_VALUES@, s, 73);
        }
    } else if run == 6 {
        if size == 1 {
            assert(STD_CHROMA_AC_VALUES[14] == 97);
            lemma_place(STD_CHROMA_AC_VALUES@, s, 14);
        } else if size == 2 {
            assert(STD_CHROMA_AC_VALUES[33] == 98);
            lemma_place(STD_CHROMA_AC_VALUES@, s, 33);
        } else if size == 3 {
            assert(STD_CHROMA_AC_VALUES[74] == 99);
            lemma_place(STD_CHROMA_AC_VALUES@, s, 74);
        } else if size == 4 {
            assert(STD_CHROMA_AC_VALUES[75] == 100);
            lemma_place(STD_CHROMA_AC_VALUES@, s, 75);
        } else if size == 5 {
            assert(STD_CHROMA_AC_VALUES[76] == 101);
            lemma_place(STD_CHROMA_AC_VALUES@, s, 76);
        } else if size == 6 {
            assert(STD_CHROMA_AC_VALUES[77] == 102);
            lemma_place(STD_CHROMA_AC_VALUES@, s, 77);
        } else if size == 7 {
            assert(STD_CHROMA_AC_VALUES[78] == 103);
            lemma_place(STD_CHROMA_AC_VALUES@, s, 78);
        } else if size == 8 {
            assert(STD_CHROMA_AC_VALUES[79] == 104);
            lemma_place(STD_CHROMA_AC_VALUES@, s, 79);
        } else if size == 9 {
            assert(STD_CHROMA_AC_VALUES[80] == 105);
            lemma_place(STD_CHROMA_AC_VALUES@, s, 80);
        } else if size == 10 {
            assert(STD_CHROMA_AC_VALUES[81] == 106);
            lemma_place(STD_CHROMA_AC_VALUES@, s, 81);
        }
    } else if run == 7 {
        if size == 1 {
            assert(STD_CHROMA_AC_VALUES[15] == 113);
            lemma_place(STD_CHROMA_AC_VALUES@, s, 15);
        } else if size == 2 {
            assert(STD_CHROMA_AC_VALUES[34] == 114);
            lemma_place(STD_CHROMA_AC_VALUES@, s, 34);
        } else if size == 3 {
            assert(STD_CHROMA_AC_VALUES[82] == 115);
            lemma_place(STD_CHROMA_AC_VALUES@, s, 82);
        } else if size == 4 {
            assert(STD_CHROMA_AC_VALUES[83] == 116);
            lemma_place(STD_CHROMA_AC_VALUES@, s, 83);
        } else if size == 5 {
            assert(STD_CHROMA_AC_VALUES[84] == 117);
            lemma_place(STD_CHROMA_AC_VALUES@, s, 84);
        } else if size == 6 {
            assert(STD_CHROMA_AC_VALUES[85] == 118);
            lemma_place(STD_CHROMA_AC_VALUES@, s, 85);
        } else if size == 7 {
            assert(STD_CHROMA_AC_VALUES[86] == 119);
            lemma_place(STD_CHROMA_AC_VALUES@, s, 86);
        } else if size == 8 {
            assert(STD_CHROMA_AC_VALUES[87] == 120);
            lemma_place(STD_CHROMA_AC_VALUES@, s, 87);
        } else if size == 9 {
            assert(STD_CHROMA_AC_VALUES[88] == 121);
            lemma_place(STD_CHROMA_AC_VALUES@, s, 88);
        } else if size == 10 {
            assert(STD_CHROMA_AC_VALUES[89] == 122);
            lemma_place(STD_CHROMA_AC_VALUES@, s, 89);
        }
    } else if run == 8 {
        if size == 1 {
            assert(STD_CHROMA_AC_VALUES[19] == 129);
            lemma_place(STD_CHROMA_AC_VALUES@, s, 19);
        } else if size == 2 {
            assert(STD_CHROMA_AC_VALUES[90] == 130);
            lemma_place(STD_CHROMA_AC_VALUES@, s, 90);
        } else if size == 3 {
            assert(STD_CHROMA_AC_VALUES[91] == 131);
            lemma_place(STD_CHROMA_AC_VALUES@, s, 91);
        } else if size == 4 {
            assert(STD_CHROMA_AC_VALUES[92] == 132);
            lemma_place(STD_CHROMA_AC_VALUES@, s, 92);
        } else if size == 5 {
            assert(STD_CHROMA_AC_VALUES[93] == 133);
            lemma_place(STD_CHROMA_AC_VALUES@, s, 93);
        } else if size == 6 {
            assert(STD_CHROMA_AC_VALUES[94] == 134);
            lemma_place(STD_CHROMA_AC_VALUES@, s, 94);
        } else if size == 7 {
            assert(STD_CHROMA_AC_VALUES[95] == 135);
            lemma_place(STD_CHROMA_AC_VALUES@, s, 95);
        } else if size == 8 {
            assert(STD_CHROMA_AC_VALUES[96] == 136);
            lemma_place(STD_CHROMA_AC_VALUES@, s, 96);
        } else if size == 9 {
            assert(STD_CHROMA_AC_VALUES[97] == 137);
            lemma_place(STD_CHROMA_AC_VALUES@, s, 97);
        } else if size == 10 {
            assert(STD_CHROMA_AC_VALUES[98] == 138);
            lemma_place(STD_CHROMA_AC_VALUES@, s, 98);
        }
    } else if run == 9 {
        if size == 1 {
            assert(STD_CHROMA_AC_VALUES[23] == 145);
            lemma_place(STD_CHROMA_AC_VALUES@, s, 23);
        } else if size == 2 {
            assert(STD_CHROMA_AC_VALUES[99] == 146);
            lemma_place(STD_CHROMA_AC_VALUES@, s, 99);
        } else if size == 3 {
            assert(STD_CHROMA_AC_VALUES[100] == 147);
            lemma_place(STD_CHROMA_AC_VALUES@, s, 100);
        } else if size == 4 {
            assert(STD_CHROMA_AC_VALUES[101] == 148);
            lemma_place(STD_CHROMA_AC_VALUES@, s, 101);
        } else if size == 5 {
            assert(STD_CHROMA_AC_VALUES[102] == 149);
            lemma_place(STD_CHROMA_AC_VALUES@, s, 102);
        } else if size == 6 {
            assert(STD_CHROMA_AC_VALUES[103] == 150);
            lemma_place(STD_CHROMA_AC_VALUES@, s, 103);
        } else if size == 7 {
            assert(STD_CHROMA_AC_VALUES[104] == 151);
            lemma_place(STD_CHROMA_AC_VALUES@, s, 104);
        } else if size == 8 {
            assert(STD_CHROMA_AC_VALUES[105] == 152);
            lemma_place(STD_CHROMA_AC_VALUES@, s, 105);
        } else if size == 9 {
            assert(STD_CHROMA_AC_VALUES[106] == 153);
            lemma_place(STD_CHROMA_AC_VALUES@, s, 106);
        } else if size == 10 {
            assert(STD_CHROMA_AC_VALUES[107] == 154);
            lemma_place(STD_CHROMA_AC_VALUES@, s, 107);
        }
    } else if run == 10 {
        if size == 1 {
            assert(STD_CHROMA_AC_VALUES[24] == 161);
            lemma_place(STD_CHROMA_AC_VALUES@, s, 24);
        } else if size == 2 {
            assert(STD_CHROMA_AC_VALUES[108] == 162);
            lemma_place(STD_CHROMA_AC_VALUES@, s, 108);
        } else if size == 3 {
            assert(STD_CHROMA_AC_VALUES[109] == 163);
            lemma_place(STD_CHROMA_AC_VALUES@, s, 109);
        } else if size == 4 {
            assert(STD_CHROMA_AC_VALUES[110] == 164);
            lemma_place(STD_CHROMA_AC_VALUES@, s, 110);
        } else if size == 5 {
            assert(STD_CHROMA_AC_VALUES[111] == 165);
            lemma_place(STD_CHROMA_AC_VALUES@, s, 111);
        } else if size == 6 {
            assert(STD_CHROMA_AC_VALUES[112] == 166);
            lemma_place(STD_CHROMA_AC_VALUES@, s, 112);
        } else if size == 7 {
            assert(STD_CHROMA_AC_VALUES[113] == 167);
            lemma_place(STD_CHROMA_AC_VALUES@, s, 113);
        } else if size == 8 {
            assert(STD_CHROMA_AC_VALUES[114] == 168);
            lemma_place(STD_CHROMA_AC_VALUES@, s, 114);
        } else if size == 9 {
            assert(STD_CHROMA_AC_VALUES[115] == 169);
            lemma_place(STD_CHROMA_AC_VALUES@, s, 115);
        } else if size == 10 {
            assert(STD_CHROMA_AC_VALUES[116] == 170);
            lemma_place(STD_CHROMA_AC_VALUES@, s, 116);
        }
    } else if run == 11 {
        if size == 1 {
            assert(STD_CHROMA_AC_VALUES[25] == 177);
            lemma_place(STD_CHROMA_AC_VALUES@, s, 25);
        } else if size == 2 {
            assert(STD_CHROMA_AC_VALUES[117] == 178);
            lemma_place(STD_CHROMA_AC_VALUES@, s, 117);
        } else if size == 3 {
            assert(STD_CHROMA_AC_VALUES[118] == 179);
            lemma_place(STD_CHROMA_AC_VALUES@, s, 118);
        } else if size == 4 {
            assert(STD_CHROMA_AC_VALUES[119] == 180);
            lemma_place(STD_CHROMA_AC_VALUES@, s, 119);
        } else if size == 5 {
            assert(STD_CHROMA_AC_VALUES[120] == 181);
            lemma_place(STD_CHROMA_AC_VALUES@, s, 120);
        } else if size == 6 {
            assert(STD_CHROMA_AC_VALUES[121] == 182);
            lemma_place(STD_CHROMA_AC_VALUES@, s, 121);
        } else if size == 7 {
            assert(STD_CHROMA_AC_VALUES[122] == 183);
            lemma_place(STD_CHROMA_AC_VALUES@, s, 122);
        } else if size == 8 {
            assert(STD_CHROMA_AC_VALUES[123] == 184);
            lemma_place(STD_CHROMA_AC_VALUES@, s, 123);
        } else if size == 9 {
            assert(STD_CHROMA_AC_VALUES[124] == 185);
            lemma_place(STD_CHROMA_AC_VALUES@, s, 124);
        } else if size == 10 {
            assert(STD_CHROMA_AC_VALUES[125] == 186);
            lemma_place(STD_CHROMA_AC_VALUES@, s, 125);
        }
    } else if run == 12 {
        if size == 1 {
            assert(STD_CHROMA_AC_VALUES[26] == 193);
            lemma_place(STD_CHROMA_AC_VALUES@, s, 26);
        } else if size == 2 {
            assert(STD_CHROMA_AC_VALUES[126] == 194);
            lemma_place(STD_CHROMA_AC_VALUES@, s, 126);
        } else if size == 3 {
            assert(STD_CHROMA_AC_VALUES[127] == 195);
            lemma_place(STD_CHROMA_AC_VALUES@, s, 127);
        } else if size == 4 {
            assert(STD_CHROMA_AC_VALUES[128] == 196);
            lemma_place(STD_CHROMA_AC_VALUES@, s, 128);
        } else if size == 5 {
            assert(STD_CHROMA_AC_VALUES[129] == 197);
            lemma_place(STD_CHROMA_AC_VALUES@, s, 129);
        } else if size == 6 {
            assert(STD_CHROMA_AC_VALUES[130] == 198);
            lemma_place(STD_CHROMA_AC_VALUES@, s, 130);
        } else if size == 7 {
            assert(STD_CHROMA_AC_VALUES[131] == 199);
            lemma_place(STD_CHROMA_AC_VALUES@, s, 131);
        } else if size == 8 {
            assert(STD_CHROMA_AC_VALUES[132] == 200);
            lemma_place(STD_CHROMA_AC_VALUES@, s, 132);
        } else if size == 9 {
            assert(STD_CHROMA_AC_VALUES[133] == 201);
            lemma_place(STD_CHROMA_AC_VALUES@, s, 133);
        } else if size == 10 {
            assert(STD_CHROMA_AC_VALUES[134] == 202);
            lemma_place(STD_CHROMA_AC_VALUES@, s, 134);
        }
    } else if run == 13 {
        if size == 1 {
            assert(STD_CHROMA_AC_VALUES[35] == 209);
            lemma_place(STD_CHROMA_AC_VALUES@, s, 35);
        } else if size == 2 {
            assert(STD_CHROMA_AC_VALUES[135] == 210);
            lemma_place(STD_CHROMA_AC_VALUES@, s, 135);
        } else if size == 3 {
            assert(STD_CHROMA_AC_VALUES[136] == 211);
            lemma_place(STD_CHROMA_AC_VALUES@, s, 136);
        } else if size == 4 {
            assert(STD_CHROMA_AC_VALUES[137] == 212);
            lemma_place(STD_CHROMA_AC_VALUES@, s, 137);
        } else if size == 5 {
            assert(STD_CHROMA_AC_VALUES[138] == 213);
            lemma_place(STD_CHROMA_AC_VALUES@, s, 138);
        } else if size == 6 {
            assert(STD_CHROMA_AC_VALUES[139] == 214);
            lemma_place(STD_CHROMA_AC_VALUES@, s, 139);
        } else if size == 7 {
            assert(STD_CHROMA_AC_VALUES[140] == 215);
            lemma_place(STD_CHROMA_AC_VALUES@, s, 140);
        } else if size == 8 {
            assert(STD_CHROMA_AC_VALUES[141] == 216);
            lemma_place(STD_CHROMA_AC_VALUES@, s, 141);
        } else if size == 9 {
            assert(STD_CHROMA_AC_VALUES[142] == 217);
            lemma_place(STD_CHROMA_AC_VALUES@, s, 142);
        } else if size == 10 {
            assert(STD_CHROMA_AC_VALUES[143] == 218);
            lemma_place(STD_CHROMA_AC_VALUES@, s, 143);
        }
    } else if run == 14 {
        if size == 1 {
            assert(STD_CHROMA_AC_VALUES[40] == 225);
            lemma_place(STD_CHROMA_AC_VALUES@, s, 40);
        } else if size == 2 {
            assert(STD_CHROMA_AC_VALUES[144] == 226);
            lemma_place(STD_CHROMA_AC_VALUES@, s, 144);
        } else if size == 3 {
            assert(STD_CHROMA_AC_VALUES[145] == 227);
            lemma_place(STD_CHROMA_AC_VALUES@, s, 145);
        } else if size == 4 {
            assert(STD_CHROMA_AC_VALUES[146] == 228);
            lemma_place(STD_CHROMA_AC_VALUES@, s, 146);
        } else if size == 5 {
            assert(STD_CHROMA_AC_VALUES[147] == 229);
            lemma_place(STD_CHROMA_AC_VALUES@, s, 147);
        } else if size == 6 {
            assert(STD_CHROMA_AC_VALUES[148] == 230);
            lemma_place(STD_CHROMA_AC_VALUES@, s, 148);
        } else if size == 7 {
            assert(STD_CHROMA_AC_VALUES[149] == 231);
            lemma_place(STD_CHROMA_AC_VALUES@, s, 149);
        } else if size == 8 {
            assert(STD_CHROMA_AC_VALUES[150] == 232);
            lemma_place(STD_CHROMA_AC_VALUES@, s, 150);
        } else if size == 9 {
            assert(STD_CHROMA_AC_VALUES[151] == 233);
            lemma_place(STD_CHROMA_AC_VALUES@, s, 151);
        } else if size == 10 {
            assert(STD_CHROMA_AC_VALUES[152] == 234);
            lemma_place(STD_CHROMA_AC_VALUES@, s, 152);
        }
    } else if run == 15 {
        if size == 0 {
            assert(STD_CHROMA_AC_VALUES[31] == 240);
            lemma_place(STD_CHROMA_AC_VALUES@, s, 31);
        } else if size == 1 {
            assert(STD_CHROMA_AC_VALUES[42] == 241);
            lemma_place(STD_CHROMA_AC_VALUES@, s, 42);
        } else if size == 2 {
            assert(STD_CHROMA_AC_VALUES[153] == 242);
            lemma_place(STD_CHROMA_AC_VALUES@, s, 153);
        } else if size == 3 {
            assert(STD_CHROMA_AC_VALUES[154] == 243);
            lemma_place(STD_CHROMA_AC_VALUES@, s, 154);
        } else if size == 4 {
            assert(STD_CHROMA_AC_VALUES[155] == 244);
            lemma_place(STD_CHROMA_AC_VALUES@, s, 155);
        } else if size == 5 {
            assert(STD_CHROMA_AC_VALUES[156] == 245);
            lemma_place(STD_CHROMA_AC_VALUES@, s, 156);
        } else if size == 6 {
            assert(STD_CHROMA_AC_VALUES[157] == 246);
            lemma_place(STD_CHROMA_AC_VALUES@, s, 157);
        } else if size == 7 {
            assert(STD_CHROMA_AC_VALUES[158] == 247);
            lemma_place(STD_CHROMA_AC_VALUES@, s, 158);
        } else if size == 8 {
            assert(STD_CHROMA_AC_VALUES[159] == 248);
            lemma_place(STD_CHROMA_AC_VALUES@, s, 159);
        } else if size == 9 {
            assert(STD_CHROMA_AC_VALUES[160] == 249);
            lemma_place(STD_CHROMA_AC_VALUES@, s, 160);
        } else if size == 10 {
            assert(STD_CHROMA_AC_VALUES[161] == 250);
            lemma_place(STD_CHROMA_AC_VALUES@, s, 161);
        }
    }
}

} // verus!
