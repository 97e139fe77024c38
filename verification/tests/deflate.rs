use image::codetable::{reverse, table_from_lengths, TableElement};
use image::deflate::{copy_back, HuffReader, Inflater};
use image::error::ImageError;

fn hex(s: &str) -> Vec<u8> {
    let digits: Vec<u8> = s
        .bytes()
        .filter(|c| !c.is_ascii_whitespace())
        .map(|c| match c {
            b'0'..=b'9' => c - b'0',
            b'a'..=b'f' => c - b'a' + 10,
            b'A'..=b'F' => c - b'A' + 10,
            _ => panic!("not a hex digit"),
        })
        .collect();
    assert!(digits.len() % 2 == 0);
    digits.chunks(2).map(|p| p[0] * 16 + p[1]).collect()
}

/// Reads the stream to its end through a buffer of `step` bytes.
fn inflate_all(input: Vec<u8>, step: usize) -> Result<Vec<u8>, (Vec<u8>, ImageError)> {
    let mut z = Inflater::new(input);
    let mut out = Vec::new();
    let mut buf = vec![0u8; step];
    let mut idle = 0;
    loop {
        match z.read(&mut buf) {
            Ok(n) => {
                assert!(n <= step);
                out.extend_from_slice(&buf[..n]);
                idle = if n == 0 { idle + 1 } else { 0 };
                assert!(idle < 1000, "the inflater makes no progress");
            }
            Err(ImageError::ImageEnd) => {
                assert!(z.eof());
                return Ok(out);
            }
            Err(e) => return Err((out, e)),
        }
    }
}

#[test]
fn fixed_huffman_hello() {
    let mut z = Inflater::new(hex("F3 48 CD C9 C9 07 00"));
    let mut buf = [0u8; 5];
    assert!(!z.eof());
    assert_eq!(z.read(&mut buf), Ok(5));
    assert_eq!(&buf, b"Hello");
    assert_eq!(buf, [0x48, 0x65, 0x6C, 0x6C, 0x6F]);
    assert!(z.eof());
    assert_eq!(z.read(&mut buf), Err(ImageError::ImageEnd));
    assert_eq!(z.read(&mut buf), Err(ImageError::ImageEnd));
}

#[test]
fn fixed_huffman_hello_in_a_block_that_is_not_the_last() {
    // the first bit of the stream is zero: another block has to follow
    let mut z = Inflater::new(hex("F2 48 CD C9 C9 07 00"));
    let mut buf = [0u8; 5];
    assert_eq!(z.read(&mut buf), Ok(5));
    assert_eq!(buf, [0x48, 0x65, 0x6C, 0x6C, 0x6F]);
    assert!(!z.eof());
    // six zero bits are left: the header of a stored block without its length
    assert_eq!(z.read(&mut buf), Err(ImageError::NotEnoughData));
    assert!(!z.eof());
}

#[test]
fn fixed_huffman_hello_in_small_reads() {
    let mut z = Inflater::new(hex("F3 48 CD C9 C9 07 00"));
    let mut buf = [0u8; 2];
    assert_eq!(z.read(&mut buf), Ok(2));
    assert_eq!(&buf, b"He");
    assert!(!z.eof());
    assert_eq!(z.read(&mut buf), Ok(2));
    assert_eq!(&buf, b"ll");
    assert_eq!(z.read(&mut buf), Ok(1));
    assert_eq!(buf[0], b'o');
    assert_eq!(buf[1], b'l');
    assert!(z.eof());
    assert_eq!(z.read(&mut buf), Err(ImageError::ImageEnd));
}

#[test]
fn read_into_an_empty_buffer() {
    let mut z = Inflater::new(hex("F3 48 CD C9 C9 07 00"));
    let mut none: [u8; 0] = [];
    assert_eq!(z.read(&mut none), Ok(0));
    assert!(!z.eof());
    assert_eq!(inflate_rest(&mut z), b"Hello");
}

fn inflate_rest(z: &mut Inflater) -> Vec<u8> {
    let mut out = Vec::new();
    let mut buf = [0u8; 7];
    loop {
        match z.read(&mut buf) {
            Ok(n) => out.extend_from_slice(&buf[..n]),
            Err(ImageError::ImageEnd) => return out,
            Err(e) => panic!("{:?}", e),
        }
    }
}

#[test]
fn stored_block() {
    assert_eq!(inflate_all(hex("01 03 00 FC FF AA BB CC"), 16), Ok(vec![0xAA, 0xBB, 0xCC]));
    assert_eq!(inflate_all(hex("01 03 00 FC FF AA BB CC"), 1), Ok(vec![0xAA, 0xBB, 0xCC]));
}

#[test]
fn stored_block_complement_is_not_checked() {
    assert_eq!(inflate_all(hex("01 03 00 00 00 AA BB CC"), 16), Ok(vec![0xAA, 0xBB, 0xCC]));
}

#[test]
fn empty_stored_block() {
    // the last block has no bytes: the call that inflates it reads nothing,
    // and the end shows on the next call
    let mut z = Inflater::new(hex("01 00 00 FF FF"));
    let mut buf = [0u8; 4];
    assert!(!z.eof());
    assert_eq!(z.read(&mut buf), Ok(0));
    assert!(z.eof());
    assert_eq!(z.read(&mut buf), Err(ImageError::ImageEnd));
    assert_eq!(z.read(&mut buf), Err(ImageError::ImageEnd));
    assert!(z.eof());
    assert_eq!(buf, [0u8; 4]);
}

#[test]
fn end_of_stream_shows_on_the_call_after_the_last_byte() {
    let mut z = Inflater::new(hex("01 03 00 FC FF AA BB CC"));
    let mut buf = [0u8; 8];
    assert_eq!(z.read(&mut buf), Ok(3));
    assert!(z.eof());
    assert_eq!(z.read(&mut buf), Err(ImageError::ImageEnd));
    // a stream that ends with an empty last block after its data
    let mut z = Inflater::new(hex("000300fcff616263000000ffff010400fbff64656667"));
    assert_eq!(z.read(&mut buf), Ok(3));
    assert_eq!(z.read(&mut buf), Ok(0));
    assert_eq!(z.read(&mut buf), Ok(4));
    assert!(z.eof());
    assert_eq!(z.read(&mut buf), Err(ImageError::ImageEnd));
}

#[test]
fn empty_block_that_is_not_the_last_reads_as_nothing() {
    // an empty stored block, then a stored block with one byte
    let mut z = Inflater::new(hex("00 00 00 FF FF 01 01 00 FE FF 5A"));
    let mut buf = [0u8; 4];
    assert_eq!(z.read(&mut buf), Ok(0));
    assert!(!z.eof());
    assert_eq!(z.read(&mut buf), Ok(1));
    assert_eq!(buf[0], 0x5A);
    assert!(z.eof());
}

#[test]
fn dynamic_block_with_overlapping_copy() {
    // literal 'a', then a match of length 7 at distance 1
    assert_eq!(inflate_all(hex("2dc0310d00000080a0acf42fe12316"), 3), Ok(b"aaaaaaaa".to_vec()));
}

#[test]
fn two_stored_blocks_and_an_empty_last_block() {
    assert_eq!(
        inflate_all(hex("000300fcff616263000000ffff010400fbff64656667"), 2),
        Ok(b"abcdefg".to_vec())
    );
}

#[test]
fn fixed_block_with_matches() {
    assert_eq!(inflate_all(hex("cb48cdc9c957c8402701"), 64), Ok(b"hello hello hello hello".to_vec()));
}

#[test]
fn text_compressed_by_another_deflater() {
    let text: Vec<u8> = b"The quick brown fox jumps over the lazy dog. ".repeat(20);
    let a = hex(
        "0bc94855282ccd4cce56482aca2fcf5348cbaf50c82acd2d2856c82f4b2d5228014ae72456552aa4e4a7eb29848c2a1e0d8dd1b441ed9c0200",
    );
    let b = hex(
        "0bc94855282ccd4cce56482aca2fcf5348cbaf50c82acd2d2856c82f4b2d5228014ae72456552aa4e4a7eb29848c2a1e553caa98da8a01",
    );
    assert_eq!(inflate_all(a, 100), Ok(text.clone()));
    assert_eq!(inflate_all(b, 7), Ok(text));
}

#[test]
fn dynamic_block_compressed_by_another_deflater() {
    let plain = hex(
        "010002000303030301000300030300030201000200000000030103000103030102010103020003000102000203010202030300030103030102020003000103020300030002030101010001010302020302000301010300030201030302030200020300010101000200000000030002010200010202000101020102020302030300000203020301020002010300010003010001030301030100030203000201010002000002020103020100000103010003010200010301030003020300020302000101020102030102000302030100000001010101020202020202000201030100020003000301010200030001000202020003020000020000000300000101030100030101010003030202030200010200000002020303020300000203000201030202010102010102000200",
    );
    let packed = hex(
        "2d90490280300c0259feff6799d45eb4840ca81575c7ea9e6a3c61a7ae3c3976e790a3ec163ca79fd8eccac016c6e0dd0b9c96db0c0c1f531986558f8b7934f1804ee0962f953ac17e9bd96cbd7432845e02c13f0a15cc429636340724fb34f6d5156a215e1b2a435c4a5f7733e02373c5202c9c9f309a3e",
    );
    assert_eq!(packed[0] & 0b110, 0b100, "the block is a dynamic one");
    assert_eq!(inflate_all(packed, 33), Ok(plain));
}

#[test]
fn reserved_block_type_is_a_format_error() {
    assert_eq!(inflate_all(vec![0b0000_0111, 0, 0], 8), Err((vec![], ImageError::FormatError)));
}

#[test]
fn empty_input_is_truncated() {
    assert_eq!(inflate_all(vec![], 8), Err((vec![], ImageError::NotEnoughData)));
}

#[test]
fn truncated_stored_block_hands_out_what_it_has_then_fails() {
    let mut z = Inflater::new(hex("01 03 00 FC FF AA BB"));
    let mut buf = [0u8; 8];
    assert_eq!(z.read(&mut buf), Ok(2));
    assert_eq!(&buf[..2], &[0xAA, 0xBB]);
    assert!(!z.eof());
    assert_eq!(z.read(&mut buf), Err(ImageError::NotEnoughData));
    assert_eq!(z.read(&mut buf), Err(ImageError::NotEnoughData));
    assert!(!z.eof());
}

#[test]
fn truncated_fixed_block() {
    // "Hello" without its last byte: the end-of-block symbol is cut off
    assert_eq!(
        inflate_all(hex("F3 48 CD C9 C9 07"), 8),
        Err((b"Hello".to_vec(), ImageError::NotEnoughData))
    );
    assert_eq!(inflate_all(hex("F3 48"), 8), Err((b"H".to_vec(), ImageError::NotEnoughData)));
}

#[test]
fn distance_before_the_start_of_the_output_is_a_format_error() {
    // fixed block: a match of length 3 at distance 1 with no output yet
    // header 1,01; length symbol 257 = 0000001; distance symbol 0 = 00000
    let mut bits: Vec<u8> = vec![1, 1, 0];
    bits.extend_from_slice(&[0, 0, 0, 0, 0, 0, 1]);
    bits.extend_from_slice(&[0, 0, 0, 0, 0]);
    bits.extend_from_slice(&[0, 0, 0, 0, 0, 0, 0]);
    let mut bytes = vec![0u8; (bits.len() + 7) / 8];
    for (i, b) in bits.iter().enumerate() {
        bytes[i / 8] |= b << (i % 8);
    }
    assert_eq!(inflate_all(bytes, 8), Err((vec![], ImageError::FormatError)));
}

#[test]
fn distance_equal_to_the_output_size_is_fine() {
    // fixed block: literal 'x' (0x78 -> code 0x30 + 0x78 = 10101000), then a
    // match of length 3 at distance 1, then end of block
    let mut bits: Vec<u8> = vec![1, 1, 0];
    bits.extend_from_slice(&[1, 0, 1, 0, 1, 0, 0, 0]);
    bits.extend_from_slice(&[0, 0, 0, 0, 0, 0, 1]);
    bits.extend_from_slice(&[0, 0, 0, 0, 0]);
    bits.extend_from_slice(&[0, 0, 0, 0, 0, 0, 0]);
    let mut bytes = vec![0u8; (bits.len() + 7) / 8];
    for (i, b) in bits.iter().enumerate() {
        bytes[i / 8] |= b << (i % 8);
    }
    assert_eq!(inflate_all(bytes, 8), Ok(b"xxxx".to_vec()));
}

#[test]
fn invalid_length_symbol_is_a_format_error() {
    // fixed block: symbol 286 has the 8-bit code 11000110
    let mut bits: Vec<u8> = vec![1, 1, 0];
    bits.extend_from_slice(&[1, 1, 0, 0, 0, 1, 1, 0]);
    bits.extend_from_slice(&[0; 16]);
    let mut bytes = vec![0u8; (bits.len() + 7) / 8];
    for (i, b) in bits.iter().enumerate() {
        bytes[i / 8] |= b << (i % 8);
    }
    assert_eq!(inflate_all(bytes, 8), Err((vec![], ImageError::FormatError)));
}

#[test]
fn inner_is_the_input() {
    let input = hex("F3 48 CD C9 C9 07 00");
    let z = Inflater::new(input.clone());
    assert_eq!(z.inner(), &input);
}

#[test]
fn copy_back_replicates_when_the_match_overlaps_itself() {
    let mut buf = b"abc".to_vec();
    copy_back(&mut buf, 7, 2);
    assert_eq!(buf, b"abcbcbcbcb".to_vec());
    let mut buf = b"abc".to_vec();
    copy_back(&mut buf, 2, 3);
    assert_eq!(buf, b"abcab".to_vec());
    let mut buf = b"q".to_vec();
    copy_back(&mut buf, 0, 1);
    assert_eq!(buf, b"q".to_vec());
}

#[test]
fn bit_reader_reads_least_significant_bit_first() {
    let mut h = HuffReader::new(vec![0b1011_0100, 0xFF, 0x01]);
    assert_eq!(h.receive(0), Ok(0));
    assert_eq!(h.receive(3), Ok(0b100));
    assert_eq!(h.receive(2), Ok(0b10));
    h.byte_align();
    assert_eq!(h.receive(8), Ok(0xFF));
    h.byte_align();
    assert_eq!(h.receive(4), Ok(1));
    assert_eq!(h.receive(5), Err(ImageError::NotEnoughData));
    assert_eq!(h.receive(4), Ok(0));
    assert_eq!(h.receive(1), Err(ImageError::NotEnoughData));
}

#[test]
fn bit_reader_fields_cross_bytes() {
    let mut h = HuffReader::new(vec![0x34, 0x12, 0xCD, 0xAB]);
    assert_eq!(h.receive(4), Ok(0x4));
    assert_eq!(h.receive(16), Ok(0xD123));
    assert_eq!(h.guarantee(12), Ok(()));
    assert_eq!(h.guarantee(13), Err(ImageError::NotEnoughData));
    h.consume(4);
    assert_eq!(h.receive(8), Ok(0xAB));
}

#[test]
fn reverse_reverses_sixteen_bits() {
    assert_eq!(reverse(0x0001), 0x8000);
    assert_eq!(reverse(0x8000), 0x0001);
    assert_eq!(reverse(0x1234), 0x2C48);
    assert_eq!(reverse(0xFFFF), 0xFFFF);
    assert_eq!(reverse(0), 0);
}

#[test]
fn table_of_a_small_code() {
    // lengths 2, 1, 3, 3: the words are 10, 0, 110, 111
    let t = table_from_lengths(&[2, 1, 3, 3]).unwrap();
    assert_eq!(t.len(), 512);
    let mut h = HuffReader::new(vec![0b1110_1101, 0b0000_0011]);
    // bits in stream order: 1 0 | 1 1 0 | 1 1 1 | 1 1 0 ...
    assert_eq!(h.decode_symbol(&t), Ok(0));
    assert_eq!(h.decode_symbol(&t), Ok(2));
    assert_eq!(h.decode_symbol(&t), Ok(3));
    assert_eq!(h.decode_symbol(&t), Ok(2));
    assert_eq!(h.decode_symbol(&t), Ok(1));
    assert_eq!(h.decode_symbol(&t), Ok(1));
}

#[test]
fn over_subscribed_code_is_refused() {
    assert!(matches!(table_from_lengths(&[1, 1, 1]), Err(ImageError::FormatError)));
    assert!(matches!(table_from_lengths(&[1, 2, 2, 15]), Err(ImageError::FormatError)));
    assert!(matches!(table_from_lengths(&[16]), Err(ImageError::FormatError)));
    assert!(table_from_lengths(&[1, 2, 2]).is_ok());
    assert!(table_from_lengths(&[]).is_ok());
    assert!(table_from_lengths(&[0, 0, 15]).is_ok());
}

#[test]
fn incomplete_code_has_empty_entries() {
    let t = table_from_lengths(&[0, 0, 2]).unwrap();
    // the only word is 00
    let mut h = HuffReader::new(vec![0b0000_0100]);
    assert_eq!(h.decode_symbol(&t), Ok(2));
    assert_eq!(h.decode_symbol(&t), Err(ImageError::FormatError));
    assert_eq!(h.decode_symbol(&t), Err(ImageError::FormatError));
}

#[test]
fn long_words_use_a_secondary_table() {
    // one word of each length from 1 to 12: 0, 10, 110, ...; two of length 13
    let lengths = [1u8, 2, 3, 4, 5, 6, 7, 8, 9, 10, 11, 12, 13, 13];
    let t = table_from_lengths(&lengths).unwrap();
    assert!(t.iter().any(|e| matches!(e, TableElement::Table(_, _))));
    // the longest word has 13 bits: four of them index a secondary table
    for e in t.iter() {
        if let TableElement::Table(mask, sub) = e {
            assert_eq!(*mask, 15);
            assert_eq!(sub.len(), 16);
        }
    }
    // the word of symbol 11 is eleven ones and a zero: all that differ from
    // it in the last bit of the index only lead to symbol 11, with 3 bits
    match &t[0x1FF] {
        TableElement::Table(_, sub) => {
            assert!(matches!(sub[0b0011], TableElement::Symbol(11, 3)));
            assert!(matches!(sub[0b1011], TableElement::Symbol(11, 3)));
            assert!(matches!(sub[0b1111], TableElement::Symbol(13, 4)));
            assert!(matches!(sub[0b0111], TableElement::Symbol(12, 4)));
        }
        _ => panic!("no secondary table"),
    }
    // symbol 11: eleven ones and a zero; symbol 13: thirteen ones
    let mut bits: Vec<u8> = Vec::new();
    bits.extend_from_slice(&[1; 11]);
    bits.push(0);
    bits.extend_from_slice(&[1; 13]);
    bits.extend_from_slice(&[1, 1, 1, 0]);
    bits.push(0);
    let mut bytes = vec![0u8; (bits.len() + 7) / 8];
    for (i, b) in bits.iter().enumerate() {
        bytes[i / 8] |= b << (i % 8);
    }
    let mut h = HuffReader::new(bytes);
    assert_eq!(h.decode_symbol(&t), Ok(11));
    assert_eq!(h.decode_symbol(&t), Ok(13));
    assert_eq!(h.decode_symbol(&t), Ok(3));
    assert_eq!(h.decode_symbol(&t), Ok(0));
}

#[test]
fn put_stores_into_a_secondary_table() {
    let mut e = TableElement::Table(1, vec![TableElement::Nothing, TableElement::Nothing]);
    e.put(1, TableElement::Symbol(7, 3));
    match e {
        TableElement::Table(mask, sub) => {
            assert_eq!(mask, 1);
            assert!(matches!(sub[0], TableElement::Nothing));
            assert!(matches!(sub[1], TableElement::Symbol(7, 3)));
        }
        _ => panic!("not a table"),
    }
}
