use image::colortype::ColorType;
use image::decoder::{check_rect, copy_row, rect_size, zeros, ImageDecoder};
use image::dynimage::{decoder_to_image, image_from_bytes, DynamicImage};
use image::error::{ImageError, ImageResult};

/// A decoder of an image that is in memory already: rows of gray pixels.
struct Rows {
    width: u32,
    height: u32,
    data: Vec<u8>,
    next: u32,
}

impl Rows {
    fn new(width: u32, height: u32) -> Rows {
        let data = (0..width * height).map(|i| i as u8).collect();
        Rows { width, height, data, next: 0 }
    }
}

// The functions that say what a decoder answers are for proofs only; they
// are never called.
impl ImageDecoder for Rows {
    fn dimensions_in(&self) -> (ImageResult<(u32, u32)>, Rows) {
        unreachable!()
    }

    fn colortype_in(&self) -> (ImageResult<ColorType>, Rows) {
        unreachable!()
    }

    fn row_len_in(&self) -> (ImageResult<usize>, Rows) {
        unreachable!()
    }

    fn scanline_in(&self, _len: usize) -> (ImageResult<u32>, Rows) {
        unreachable!()
    }

    fn scanline_byte(&self, _len: usize, _i: usize) -> u8 {
        unreachable!()
    }

    fn image_in(&self) -> (ImageResult<Vec<u8>>, Rows) {
        unreachable!()
    }

    fn dimensions(&mut self) -> ImageResult<(u32, u32)> {
        Ok((self.width, self.height))
    }

    fn colortype(&mut self) -> ImageResult<ColorType> {
        Ok(ColorType::Grey(8))
    }

    fn row_len(&mut self) -> ImageResult<usize> {
        Ok(self.width as usize)
    }

    fn read_scanline(&mut self, buf: &mut [u8]) -> ImageResult<u32> {
        if self.next >= self.height {
            return Err(ImageError::ImageEnd);
        }
        let at = (self.next * self.width) as usize;
        buf.copy_from_slice(&self.data[at..at + self.width as usize]);
        self.next += 1;
        Ok(self.next)
    }

    fn read_image(&mut self) -> ImageResult<Vec<u8>> {
        Ok(self.data.clone())
    }
}

#[test]
fn rectangle_of_a_decoded_image() {
    // rows 1 and 2, columns 1 to 3, of an image of 5 by 4
    let mut d = Rows::new(5, 4);
    assert_eq!(d.load_rect(1, 1, 2, 3), Ok(vec![6, 7, 8, 11, 12, 13]));
    let mut d = Rows::new(5, 4);
    assert_eq!(d.load_rect(0, 0, 1, 5), Ok(vec![0, 1, 2, 3, 4]));
    let mut d = Rows::new(5, 4);
    assert_eq!(d.load_rect(0, 0, 0, 0), Ok(vec![]));
}

#[test]
fn rectangle_whose_first_row_is_never_named() {
    // a decoder that counts its rows from zero never names row 1 for y = 0
    struct FromZero(Rows);
    impl ImageDecoder for FromZero {
        fn dimensions_in(&self) -> (ImageResult<(u32, u32)>, FromZero) {
            unreachable!()
        }

        fn colortype_in(&self) -> (ImageResult<ColorType>, FromZero) {
            unreachable!()
        }

        fn row_len_in(&self) -> (ImageResult<usize>, FromZero) {
            unreachable!()
        }

        fn scanline_in(&self, _len: usize) -> (ImageResult<u32>, FromZero) {
            unreachable!()
        }

        fn scanline_byte(&self, _len: usize, _i: usize) -> u8 {
            unreachable!()
        }

        fn image_in(&self) -> (ImageResult<Vec<u8>>, FromZero) {
            unreachable!()
        }

        fn dimensions(&mut self) -> ImageResult<(u32, u32)> {
            self.0.dimensions()
        }

        fn colortype(&mut self) -> ImageResult<ColorType> {
            self.0.colortype()
        }

        fn row_len(&mut self) -> ImageResult<usize> {
            self.0.row_len()
        }

        fn read_scanline(&mut self, buf: &mut [u8]) -> ImageResult<u32> {
            // always the same row, and never the one that is sought
            self.0.next = 0;
            self.0.read_scanline(buf).map(|_| 7)
        }

        fn read_image(&mut self) -> ImageResult<Vec<u8>> {
            self.0.read_image()
        }
    }
    let mut d = FromZero(Rows::new(5, 4));
    // after as many other rows as the image has, and one more, the search ends
    assert_eq!(d.load_rect(0, 0, 1, 1), Err(ImageError::ImageEnd));
}

#[test]
fn rectangle_that_does_not_fit() {
    let mut d = Rows::new(5, 4);
    assert_eq!(d.load_rect(0, 0, 5, 1), Err(ImageError::DimensionError));
    assert_eq!(d.load_rect(0, 0, 1, 6), Err(ImageError::DimensionError));
    assert_eq!(d.load_rect(6, 0, 1, 1), Err(ImageError::DimensionError));
    assert_eq!(d.load_rect(0, 5, 1, 1), Err(ImageError::DimensionError));
    // wide enough, but it starts too far to the right for the rows
    assert_eq!(d.load_rect(3, 0, 1, 3), Err(ImageError::FormatError));
}

#[test]
fn rectangle_up_to_the_last_row_ends_with_the_image() {
    // after each row of the rectangle the next row is read
    let mut d = Rows::new(5, 4);
    assert_eq!(d.load_rect(0, 3, 1, 1), Err(ImageError::ImageEnd));
    let mut d = Rows::new(5, 4);
    assert_eq!(d.load_rect(0, 4, 0, 1), Err(ImageError::ImageEnd));
}

#[test]
fn checking_rectangles() {
    assert_eq!(check_rect(10, 20, 0, 0, 20, 10), Ok(()));
    assert_eq!(check_rect(10, 20, 10, 20, 0, 0), Ok(()));
    assert_eq!(check_rect(10, 20, 0, 0, 21, 10), Err(ImageError::DimensionError));
    assert_eq!(check_rect(10, 20, 0, 0, 20, 11), Err(ImageError::DimensionError));
    assert_eq!(check_rect(10, 20, 11, 0, 1, 1), Err(ImageError::DimensionError));
    assert_eq!(check_rect(10, 20, 0, 21, 1, 1), Err(ImageError::DimensionError));
}

#[test]
fn sizes_of_rectangles() {
    assert_eq!(rect_size(3, 4, 2), Some(24));
    assert_eq!(rect_size(0, 4, 2), Some(0));
    assert_eq!(rect_size(3, 4, 0), Some(0));
    assert_eq!(rect_size(1, 1, usize::MAX), Some(usize::MAX));
    assert_eq!(rect_size(2, 1, usize::MAX), None);
    assert_eq!(rect_size(u32::MAX, u32::MAX, 127).is_some(), usize::BITS > 71);
}

#[test]
fn copying_rows() {
    let from = [1u8, 2, 3, 4, 5];
    let mut to = [0u8; 6];
    assert_eq!(copy_row(&from, 1, 3, &mut to, 1), Ok(()));
    assert_eq!(to, [0, 0, 0, 2, 3, 4]);
    assert_eq!(copy_row(&from, 2, 3, &mut to, 0), Ok(()));
    assert_eq!(to, [3, 4, 5, 2, 3, 4]);
    assert_eq!(copy_row(&from, 3, 3, &mut to, 0), Err(ImageError::FormatError));
    assert_eq!(copy_row(&from, 0, 3, &mut to, 2), Err(ImageError::FormatError));
    assert_eq!(copy_row(&from, 6, 0, &mut to, 0), Err(ImageError::FormatError));
    assert_eq!(copy_row(&from, 5, 0, &mut to, 9), Ok(()));
    assert_eq!(to, [3, 4, 5, 2, 3, 4]);
    assert_eq!(zeros(3), vec![0, 0, 0]);
}

#[test]
fn image_of_a_decoder() {
    let im = decoder_to_image(Rows::new(3, 2)).unwrap();
    assert_eq!(im.dimensions(), (3, 2));
    assert_eq!(im.color(), ColorType::Grey(8));
    assert_eq!(im.raw_pixels(), vec![0, 1, 2, 3, 4, 5]);
}

#[test]
fn images_from_bytes() {
    let im = image_from_bytes(vec![1, 2, 3, 4, 5, 6], ColorType::RGB(8), 2, 1).unwrap();
    assert!(matches!(im, DynamicImage::ImageRgb8(_)));
    assert_eq!(im.raw_pixels(), vec![1, 2, 3, 4, 5, 6]);
    assert_eq!(im.dimensions(), (2, 1));
    let im = image_from_bytes(vec![1, 2, 3, 4], ColorType::RGBA(8), 1, 1).unwrap();
    assert!(matches!(im, DynamicImage::ImageRgba8(_)));
    let im = image_from_bytes(vec![1, 2, 3, 4], ColorType::GreyA(8), 2, 1).unwrap();
    assert!(matches!(im, DynamicImage::ImageLumaA8(_)));
    assert_eq!(
        image_from_bytes(vec![1, 2, 3, 4], ColorType::RGB(8), 1, 1),
        Err(ImageError::UnsupportedColor)
    );
    assert_eq!(
        image_from_bytes(vec![1, 2, 3], ColorType::RGB(16), 1, 1),
        Err(ImageError::UnsupportedColor)
    );
}
