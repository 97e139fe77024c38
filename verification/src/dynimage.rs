//! Images whose pixel type is known only when the program runs.

use crate::codecs::jpeg::encoder::{encode_error, jpeg_file, JPEGEncoder};
use crate::colortype::ColorType;
use crate::decoder::ImageDecoder;
use crate::error::{ImageError, ImageFormat, ImageResult};
use crate::image::{GenericImage, ImageBuf};
use crate::imaging::affine;
use crate::pixels::{
    bright, brightened, invert_pixels, luma_alpha_to_bytes, luma_to_bytes, lumas, rgb_to_bytes,
    pixel_bytes, rgba_to_bytes, Luma, LumaA, Pixel, PixelBuf, Rgb, Rgba,
};
use vstd::prelude::*;

verus! {

/// A Dynamic Image
#[derive(Debug, Clone, PartialEq, Eq)]
pub enum DynamicImage {
    /// Each pixel in this image is 8-bit Luma
    ImageLuma8(ImageBuf<Luma<u8>>),
    /// Each pixel in this image is 8-bit Luma with alpha
    ImageLumaA8(ImageBuf<LumaA<u8>>),
    /// Each pixel in this image is 8-bit Rgb
    ImageRgb8(ImageBuf<Rgb<u8>>),
    /// Each pixel in this image is 8-bit Rgb with alpha
    ImageRgba8(ImageBuf<Rgba<u8>>),
}

/// The luminance of each pixel of an image.
pub fn grayscale_image<P: Pixel<u8> + Copy>(image: &ImageBuf<P>) -> (r: ImageBuf<Luma<u8>>)
    ensures
        r.dims() == image.dims(),
        r@.len() == image@.len(),
        forall|i: int| 0 <= i < image@.len() ==> (#[trigger] r@[i]).0 == image@[i].luma_of(),
{
    let (width, height): (u32, u32) = image.dimensions();
    ImageBuf::from_pixels(lumas(image.pixelbuf()), width, height)
}

/// An image with `value` added to every color channel of every pixel.
pub fn brighten_image<P: Pixel<u8> + Copy>(image: &ImageBuf<P>, value: i32) -> (r: ImageBuf<P>)
    ensures
        r.dims() == image.dims(),
        r@.len() == image@.len(),
        forall|i: int|
            0 <= i < image@.len() ==> (#[trigger] r@[i]).alpha_of() == image@[i].alpha_of()
                && r@[i].colors().len() == image@[i].colors().len(),
        forall|i: int, k: int|
            0 <= i < image@.len() && 0 <= k < image@[i].colors().len()
                ==> #[trigger] r@[i].colors()[k] == brightened(image@[i].colors()[k], value),
{
    let (width, height): (u32, u32) = image.dimensions();
    ImageBuf::from_pixels(bright(image.pixelbuf(), value), width, height)
}

impl DynamicImage {
    /// The width and height of the image.
    pub open spec fn dims(&self) -> (u32, u32) {
        match self {
            DynamicImage::ImageLuma8(p) => p.dims(),
            DynamicImage::ImageLumaA8(p) => p.dims(),
            DynamicImage::ImageRgb8(p) => p.dims(),
            DynamicImage::ImageRgba8(p) => p.dims(),
        }
    }

    /// The image has as many pixels as its dimensions ask for.
    pub open spec fn wf(&self) -> bool {
        match self {
            DynamicImage::ImageLuma8(p) => p.wf(),
            DynamicImage::ImageLumaA8(p) => p.wf(),
            DynamicImage::ImageRgb8(p) => p.wf(),
            DynamicImage::ImageRgba8(p) => p.wf(),
        }
    }

    /// The number of pixels in the buffer of the image.
    pub open spec fn len(&self) -> nat {
        match self {
            DynamicImage::ImageLuma8(p) => p@.len(),
            DynamicImage::ImageLumaA8(p) => p@.len(),
            DynamicImage::ImageRgb8(p) => p@.len(),
            DynamicImage::ImageRgba8(p) => p@.len(),
        }
    }

    /// The color type of the image.
    pub open spec fn color_type(&self) -> ColorType {
        match self {
            DynamicImage::ImageLuma8(_) => ColorType::Grey(8),
            DynamicImage::ImageLumaA8(_) => ColorType::GreyA(8),
            DynamicImage::ImageRgb8(_) => ColorType::RGB(8),
            DynamicImage::ImageRgba8(_) => ColorType::RGBA(8),
        }
    }

    /// The number of channels of a pixel.
    pub open spec fn channel_count(&self) -> nat {
        match self {
            DynamicImage::ImageLuma8(_) => 1,
            DynamicImage::ImageLumaA8(_) => 2,
            DynamicImage::ImageRgb8(_) => 3,
            DynamicImage::ImageRgba8(_) => 4,
        }
    }

    /// Channel `k` of pixel `i` of the buffer, the alpha channel last.
    pub open spec fn channel_at(&self, i: int, k: int) -> u8 {
        match self {
            DynamicImage::ImageLuma8(p) => p@[i].0,
            DynamicImage::ImageLumaA8(p) => if k == 0 {
                p@[i].0
            } else {
                p@[i].1
            },
            DynamicImage::ImageRgb8(p) => if k == 0 {
                p@[i].0
            } else if k == 1 {
                p@[i].1
            } else {
                p@[i].2
            },
            DynamicImage::ImageRgba8(p) => if k == 0 {
                p@[i].0
            } else if k == 1 {
                p@[i].1
            } else if k == 2 {
                p@[i].2
            } else {
                p@[i].3
            },
        }
    }

    /// Whether channel `k` of a pixel is a color channel, not alpha.
    pub open spec fn is_color(&self, k: int) -> bool {
        match self {
            DynamicImage::ImageLuma8(_) => true,
            DynamicImage::ImageLumaA8(_) => k == 0,
            DynamicImage::ImageRgb8(_) => true,
            DynamicImage::ImageRgba8(_) => k < 3,
        }
    }

    /// The luminance of pixel `i` of the buffer.
    pub open spec fn luma_at(&self, i: int) -> u8 {
        match self {
            DynamicImage::ImageLuma8(p) => p@[i].luma_of(),
            DynamicImage::ImageLumaA8(p) => p@[i].luma_of(),
            DynamicImage::ImageRgb8(p) => p@[i].luma_of(),
            DynamicImage::ImageRgba8(p) => p@[i].luma_of(),
        }
    }

    /// The pixels as bytes: row after row, pixel after pixel, channel after
    /// channel.
    pub open spec fn bytes(&self) -> Seq<u8> {
        Seq::new(
            self.len() * self.channel_count(),
            |j: int|
                self.channel_at(j / self.channel_count() as int, j % self.channel_count() as int),
        )
    }

    /// Return a reference to an 8bit RGB image
    pub fn as_rgb8<'a>(&'a self) -> (r: Option<&'a ImageBuf<Rgb<u8>>>)
        ensures
            match self {
                DynamicImage::ImageRgb8(p) => r == Some(p),
                _ => r is None,
            },
    {
        match self {
            DynamicImage::ImageRgb8(p) => Some(p),
            _ => None,
        }
    }

    /// Return a mutable reference to an 8bit RGB image
    pub fn as_mut_rgb8<'a>(&'a mut self) -> (r: Option<&'a mut ImageBuf<Rgb<u8>>>)
        ensures
            match r {
                Some(m) => *old(self) == DynamicImage::ImageRgb8(*m) && *final(self)
                    == DynamicImage::ImageRgb8(*final(m)),
                None => !(*old(self) is ImageRgb8) && *final(self) == *old(self),
            },
    {
        match self {
            DynamicImage::ImageRgb8(p) => Some(p),
            _ => None,
        }
    }

    /// Return a reference to an 8bit RGBA image
    pub fn as_rgba8<'a>(&'a self) -> (r: Option<&'a ImageBuf<Rgba<u8>>>)
        ensures
            match self {
                DynamicImage::ImageRgba8(p) => r == Some(p),
                _ => r is None,
            },
    {
        match self {
            DynamicImage::ImageRgba8(p) => Some(p),
            _ => None,
        }
    }

    /// Return a mutable reference to an 8bit RGBA image
    pub fn as_mut_rgba8<'a>(&'a mut self) -> (r: Option<&'a mut ImageBuf<Rgba<u8>>>)
        ensures
            match r {
                Some(m) => *old(self) == DynamicImage::ImageRgba8(*m) && *final(self)
                    == DynamicImage::ImageRgba8(*final(m)),
                None => !(*old(self) is ImageRgba8) && *final(self) == *old(self),
            },
    {
        match self {
            DynamicImage::ImageRgba8(p) => Some(p),
            _ => None,
        }
    }

    /// Return a reference to an 8bit Grayscale image
    pub fn as_luma8<'a>(&'a self) -> (r: Option<&'a ImageBuf<Luma<u8>>>)
        ensures
            match self {
                DynamicImage::ImageLuma8(p) => r == Some(p),
                _ => r is None,
            },
    {
        match self {
            DynamicImage::ImageLuma8(p) => Some(p),
            _ => None,
        }
    }

    /// Return a mutable reference to an 8bit Grayscale image
    pub fn as_mut_luma8<'a>(&'a mut self) -> (r: Option<&'a mut ImageBuf<Luma<u8>>>)
        ensures
            match r {
                Some(m) => *old(self) == DynamicImage::ImageLuma8(*m) && *final(self)
                    == DynamicImage::ImageLuma8(*final(m)),
                None => !(*old(self) is ImageLuma8) && *final(self) == *old(self),
            },
    {
        match self {
            DynamicImage::ImageLuma8(p) => Some(p),
            _ => None,
        }
    }

    /// Return a reference to an 8bit Grayscale image with an alpha channel
    pub fn as_luma_alpha8<'a>(&'a self) -> (r: Option<&'a ImageBuf<LumaA<u8>>>)
        ensures
            match self {
                DynamicImage::ImageLumaA8(p) => r == Some(p),
                _ => r is None,
            },
    {
        match self {
            DynamicImage::ImageLumaA8(p) => Some(p),
            _ => None,
        }
    }

    /// Return a mutable reference to an 8bit Grayscale image with an alpha
    /// channel
    pub fn as_mut_luma_alpha8<'a>(&'a mut self) -> (r: Option<&'a mut ImageBuf<LumaA<u8>>>)
        ensures
            match r {
                Some(m) => *old(self) == DynamicImage::ImageLumaA8(*m) && *final(self)
                    == DynamicImage::ImageLumaA8(*final(m)),
                None => !(*old(self) is ImageLumaA8) && *final(self) == *old(self),
            },
    {
        match self {
            DynamicImage::ImageLumaA8(p) => Some(p),
            _ => None,
        }
    }

    /// Return the width and height of this image.
    pub fn dimensions(&self) -> (d: (u32, u32))
        ensures
            d == self.dims(),
    {
        match self {
            DynamicImage::ImageLuma8(p) => p.dimensions(),
            DynamicImage::ImageLumaA8(p) => p.dimensions(),
            DynamicImage::ImageRgb8(p) => p.dimensions(),
            DynamicImage::ImageRgba8(p) => p.dimensions(),
        }
    }

    /// Return this image's pixels as a byte vector.
    pub fn raw_pixels(&self) -> (r: Vec<u8>)
        ensures
            r@ == self.bytes(),
    {
        image_to_bytes(self)
    }

    /// Return this image's color type.
    pub fn color(&self) -> (c: ColorType)
        ensures
            c == self.color_type(),
    {
        match self {
            DynamicImage::ImageLuma8(_) => ColorType::Grey(8),
            DynamicImage::ImageLumaA8(_) => ColorType::GreyA(8),
            DynamicImage::ImageRgb8(_) => ColorType::RGB(8),
            DynamicImage::ImageRgba8(_) => ColorType::RGBA(8),
        }
    }

    /// Return a grayscale version of this image: each pixel is the
    /// luminance of the pixel it stands for.
    pub fn grayscale(&self) -> (r: DynamicImage)
        ensures
            r is ImageLuma8,
            r.dims() == self.dims(),
            r.len() == self.len(),
            forall|i: int| 0 <= i < self.len() ==> #[trigger] r.channel_at(i, 0) == self.luma_at(i),
    {
        match self {
            DynamicImage::ImageLuma8(p) => DynamicImage::ImageLuma8(grayscale_image(p)),
            DynamicImage::ImageLumaA8(p) => DynamicImage::ImageLuma8(grayscale_image(p)),
            DynamicImage::ImageRgb8(p) => DynamicImage::ImageLuma8(grayscale_image(p)),
            DynamicImage::ImageRgba8(p) => DynamicImage::ImageLuma8(grayscale_image(p)),
        }
    }

    /// Invert the colors of this image: every color channel `v` becomes
    /// `255 - v`; alpha stays. This method operates inplace.
    pub fn invert(&mut self)
        ensures
            final(self).color_type() == old(self).color_type(),
            final(self).dims() == old(self).dims(),
            final(self).len() == old(self).len(),
            forall|i: int, k: int|
                0 <= i < old(self).len() && 0 <= k < old(self).channel_count()
                    ==> #[trigger] final(self).channel_at(i, k) == if old(self).is_color(k) {
                    (255 - old(self).channel_at(i, k)) as u8
                } else {
                    old(self).channel_at(i, k)
                },
    {
        match self {
            DynamicImage::ImageLuma8(p) => invert_pixels(p.mut_pixelbuf()),
            DynamicImage::ImageLumaA8(p) => invert_pixels(p.mut_pixelbuf()),
            DynamicImage::ImageRgb8(p) => invert_pixels(p.mut_pixelbuf()),
            DynamicImage::ImageRgba8(p) => invert_pixels(p.mut_pixelbuf()),
        }
    }

    /// Brighten the pixels of this image: `value` is added to every color
    /// channel, and the result is kept between 0 and 255; alpha stays.
    /// Negative values decrease the brightness and positive values increase
    /// it.
    pub fn brighten(&self, value: i32) -> (r: DynamicImage)
        ensures
            r.color_type() == self.color_type(),
            r.dims() == self.dims(),
            r.len() == self.len(),
            forall|i: int, k: int|
                0 <= i < self.len() && 0 <= k < self.channel_count() ==> #[trigger] r.channel_at(
                    i,
                    k,
                ) == if self.is_color(k) {
                    brightened(self.channel_at(i, k), value)
                } else {
                    self.channel_at(i, k)
                },
    {
        match self {
            DynamicImage::ImageLuma8(p) => {
                let q = brighten_image(p, value);
                proof {
                    assert forall|i: int| 0 <= i < p@.len() implies (#[trigger] q@[i]).0
                        == brightened(p@[i].0, value) by {
                        assert(q@[i].colors()[0] == brightened(p@[i].colors()[0], value));
                    }
                }
                DynamicImage::ImageLuma8(q)
            },
            DynamicImage::ImageLumaA8(p) => {
                let q = brighten_image(p, value);
                proof {
                    assert forall|i: int| 0 <= i < p@.len() implies (#[trigger] q@[i]).0
                        == brightened(p@[i].0, value) && q@[i].1 == p@[i].1 by {
                        assert(q@[i].colors()[0] == brightened(p@[i].colors()[0], value));
                        assert(q@[i].alpha_of() == p@[i].alpha_of());
                    }
                }
                DynamicImage::ImageLumaA8(q)
            },
            DynamicImage::ImageRgb8(p) => {
                let q = brighten_image(p, value);
                proof {
                    assert forall|i: int| 0 <= i < p@.len() implies (#[trigger] q@[i]).0
                        == brightened(p@[i].0, value) && q@[i].1 == brightened(p@[i].1, value)
                        && q@[i].2 == brightened(p@[i].2, value) by {
                        assert(q@[i].colors()[0] == brightened(p@[i].colors()[0], value));
                        assert(q@[i].colors()[1] == brightened(p@[i].colors()[1], value));
                        assert(q@[i].colors()[2] == brightened(p@[i].colors()[2], value));
                    }
                }
                DynamicImage::ImageRgb8(q)
            },
            DynamicImage::ImageRgba8(p) => {
                let q = brighten_image(p, value);
                proof {
                    assert forall|i: int| 0 <= i < p@.len() implies (#[trigger] q@[i]).0
                        == brightened(p@[i].0, value) && q@[i].1 == brightened(p@[i].1, value)
                        && q@[i].2 == brightened(p@[i].2, value) && q@[i].3 == p@[i].3 by {
                        assert(q@[i].colors()[0] == brightened(p@[i].colors()[0], value));
                        assert(q@[i].colors()[1] == brightened(p@[i].colors()[1], value));
                        assert(q@[i].colors()[2] == brightened(p@[i].colors()[2], value));
                        assert(q@[i].alpha_of() == p@[i].alpha_of());
                    }
                }
                DynamicImage::ImageRgba8(q)
            },
        }
    }

    /// Flip this image vertically
    pub fn flipv(&self) -> (r: DynamicImage)
        requires
            self.wf(),
        ensures
            r.wf(),
            r.dims() == self.dims(),
            match (self, r) {
                (DynamicImage::ImageLuma8(p), DynamicImage::ImageLuma8(q)) => flipped_v(*p, q),
                (DynamicImage::ImageLumaA8(p), DynamicImage::ImageLumaA8(q)) => flipped_v(*p, q),
                (DynamicImage::ImageRgb8(p), DynamicImage::ImageRgb8(q)) => flipped_v(*p, q),
                (DynamicImage::ImageRgba8(p), DynamicImage::ImageRgba8(q)) => flipped_v(*p, q),
                _ => false,
            },
    {
        match self {
            DynamicImage::ImageLuma8(p) => DynamicImage::ImageLuma8(
                affine::flip_vertical(p, 0, 0),
            ),
            DynamicImage::ImageLumaA8(p) => DynamicImage::ImageLumaA8(
                affine::flip_vertical(p, 0, 0),
            ),
            DynamicImage::ImageRgb8(p) => DynamicImage::ImageRgb8(affine::flip_vertical(p, 0, 0)),
            DynamicImage::ImageRgba8(p) => DynamicImage::ImageRgba8(
                affine::flip_vertical(p, 0, 0),
            ),
        }
    }

    /// Flip this image horizontally
    pub fn fliph(&self) -> (r: DynamicImage)
        requires
            self.wf(),
        ensures
            r.wf(),
            r.dims() == self.dims(),
            match (self, r) {
                (DynamicImage::ImageLuma8(p), DynamicImage::ImageLuma8(q)) => flipped_h(*p, q),
                (DynamicImage::ImageLumaA8(p), DynamicImage::ImageLumaA8(q)) => flipped_h(*p, q),
                (DynamicImage::ImageRgb8(p), DynamicImage::ImageRgb8(q)) => flipped_h(*p, q),
                (DynamicImage::ImageRgba8(p), DynamicImage::ImageRgba8(q)) => flipped_h(*p, q),
                _ => false,
            },
    {
        match self {
            DynamicImage::ImageLuma8(p) => DynamicImage::ImageLuma8(
                affine::flip_horizontal(p, 0, 0),
            ),
            DynamicImage::ImageLumaA8(p) => DynamicImage::ImageLumaA8(
                affine::flip_horizontal(p, 0, 0),
            ),
            DynamicImage::ImageRgb8(p) => DynamicImage::ImageRgb8(
                affine::flip_horizontal(p, 0, 0),
            ),
            DynamicImage::ImageRgba8(p) => DynamicImage::ImageRgba8(
                affine::flip_horizontal(p, 0, 0),
            ),
        }
    }

    /// Rotate this image 90 degrees clockwise.
    pub fn rotate90(&self) -> (r: DynamicImage)
        requires
            self.wf(),
        ensures
            r.wf(),
            r.dims() == (self.dims().1, self.dims().0),
            match (self, r) {
                (DynamicImage::ImageLuma8(p), DynamicImage::ImageLuma8(q)) => turned_90(*p, q),
                (DynamicImage::ImageLumaA8(p), DynamicImage::ImageLumaA8(q)) => turned_90(*p, q),
                (DynamicImage::ImageRgb8(p), DynamicImage::ImageRgb8(q)) => turned_90(*p, q),
                (DynamicImage::ImageRgba8(p), DynamicImage::ImageRgba8(q)) => turned_90(*p, q),
                _ => false,
            },
    {
        match self {
            DynamicImage::ImageLuma8(p) => DynamicImage::ImageLuma8(affine::rotate90(p, 0, 0)),
            DynamicImage::ImageLumaA8(p) => DynamicImage::ImageLumaA8(affine::rotate90(p, 0, 0)),
            DynamicImage::ImageRgb8(p) => DynamicImage::ImageRgb8(affine::rotate90(p, 0, 0)),
            DynamicImage::ImageRgba8(p) => DynamicImage::ImageRgba8(affine::rotate90(p, 0, 0)),
        }
    }

    /// Rotate this image 180 degrees clockwise.
    pub fn rotate180(&self) -> (r: DynamicImage)
        requires
            self.wf(),
        ensures
            r.wf(),
            r.dims() == self.dims(),
            match (self, r) {
                (DynamicImage::ImageLuma8(p), DynamicImage::ImageLuma8(q)) => turned_180(*p, q),
                (DynamicImage::ImageLumaA8(p), DynamicImage::ImageLumaA8(q)) => turned_180(*p, q),
                (DynamicImage::ImageRgb8(p), DynamicImage::ImageRgb8(q)) => turned_180(*p, q),
                (DynamicImage::ImageRgba8(p), DynamicImage::ImageRgba8(q)) => turned_180(*p, q),
                _ => false,
            },
    {
        match self {
            DynamicImage::ImageLuma8(p) => DynamicImage::ImageLuma8(affine::rotate180(p, 0, 0)),
            DynamicImage::ImageLumaA8(p) => DynamicImage::ImageLumaA8(affine::rotate180(p, 0, 0)),
            DynamicImage::ImageRgb8(p) => DynamicImage::ImageRgb8(affine::rotate180(p, 0, 0)),
            DynamicImage::ImageRgba8(p) => DynamicImage::ImageRgba8(affine::rotate180(p, 0, 0)),
        }
    }

    /// Rotate this image 270 degrees clockwise.
    pub fn rotate270(&self) -> (r: DynamicImage)
        requires
            self.wf(),
        ensures
            r.wf(),
            r.dims() == (self.dims().1, self.dims().0),
            match (self, r) {
                (DynamicImage::ImageLuma8(p), DynamicImage::ImageLuma8(q)) => turned_270(*p, q),
                (DynamicImage::ImageLumaA8(p), DynamicImage::ImageLumaA8(q)) => turned_270(*p, q),
                (DynamicImage::ImageRgb8(p), DynamicImage::ImageRgb8(q)) => turned_270(*p, q),
                (DynamicImage::ImageRgba8(p), DynamicImage::ImageRgba8(q)) => turned_270(*p, q),
                _ => false,
            },
    {
        match self {
            DynamicImage::ImageLuma8(p) => DynamicImage::ImageLuma8(affine::rotate270(p, 0, 0)),
            DynamicImage::ImageLumaA8(p) => DynamicImage::ImageLumaA8(affine::rotate270(p, 0, 0)),
            DynamicImage::ImageRgb8(p) => DynamicImage::ImageRgb8(affine::rotate270(p, 0, 0)),
            DynamicImage::ImageRgba8(p) => DynamicImage::ImageRgba8(affine::rotate270(p, 0, 0)),
        }
    }

    /// Encode this image in the format `format` and append it to `w`.
    ///
    /// Of the formats only JPEG can be written; the others give
    /// `UnsupportedError`. Nothing is appended when the result is an error.
    pub fn save(&self, w: &mut Vec<u8>, format: ImageFormat) -> (r: Result<(), ImageError>)
        ensures
            save_outcome(self.bytes(), self.dims(), self.color_type(), format, old(w)@, final(w)@, r),
    {
        let bytes: Vec<u8> = self.raw_pixels();
        let (width, height): (u32, u32) = self.dimensions();
        let color: ColorType = self.color();
        save_bytes(bytes.as_slice(), width, height, color, w, format)
    }
}

/// What saving an image does: for JPEG, the file is appended, unless the
/// encoder refuses the image; for any other format, nothing is.
pub open spec fn save_outcome(
    bytes: Seq<u8>,
    dims: (u32, u32),
    color: ColorType,
    format: ImageFormat,
    before: Seq<u8>,
    after: Seq<u8>,
    r: Result<(), ImageError>,
) -> bool {
    if format == ImageFormat::JPEG {
        match encode_error(bytes, dims.0, dims.1, color) {
            Some(e) => r == Err::<(), ImageError>(e) && after == before,
            None => r is Ok && after == before + jpeg_file(bytes, dims.0, dims.1, color),
        }
    } else {
        r == Err::<(), ImageError>(ImageError::UnsupportedError) && after == before
    }
}

/// Encodes pixels given as bytes in the format `format` and appends the
/// file to `w`.
pub fn save_bytes(
    bytes: &[u8],
    width: u32,
    height: u32,
    color: ColorType,
    w: &mut Vec<u8>,
    format: ImageFormat,
) -> (r: Result<(), ImageError>)
    ensures
        save_outcome(bytes@, (width, height), color, format, old(w)@, final(w)@, r),
{
    match format {
        ImageFormat::JPEG => {
            let mut j: JPEGEncoder = JPEGEncoder::new(Vec::new());
            match j.encode(bytes, width, height, color) {
                Err(e) => Err(e),
                Ok(_) => {
                    let file: Vec<u8> = j.into_inner();
                    assert(file@ =~= jpeg_file(bytes@, width, height, color));
                    let mut i: usize = 0;
                    while i < file.len()
                        invariant
                            i <= file.len(),
                            w@ == old(w)@ + file@.take(i as int),
                        decreases file.len() - i,
                    {
                        w.push(file[i]);
                        i += 1;
                        assert(w@ =~= old(w)@ + file@.take(i as int));
                    }
                    assert(file@.take(file.len() as int) =~= file@);
                    Ok(())
                },
            }
        },
        _ => Err(ImageError::UnsupportedError),
    }
}

/// The image of `w` by `h` pixels whose pixels, of the color type `color`,
/// are the bytes `buf`.
///
/// Fails with `UnsupportedColor` if, and only if, the color type is none of
/// the four 8-bit types, or the bytes are not a whole number of pixels.
pub fn image_from_bytes(buf: Vec<u8>, color: ColorType, w: u32, h: u32) -> (r: ImageResult<
    DynamicImage,
>)
    ensures
        r is Ok <==> pixel_bytes(color) is Some && (buf.len() as int) % (pixel_bytes(
            color,
        )->Some_0 as int) == 0,
        r matches Ok(im) ==> im.color_type() == color && im.dims() == (w, h) && im.bytes()
            == buf@,
        r matches Err(e) ==> e == ImageError::UnsupportedColor,
{
    let pixels: PixelBuf = match PixelBuf::from_bytes(buf, color) {
        Some(p) => p,
        None => {
            return Err(ImageError::UnsupportedColor);
        },
    };
    let im: DynamicImage = match pixels {
        PixelBuf::Luma8(p) => DynamicImage::ImageLuma8(ImageBuf::from_pixels(p, w, h)),
        PixelBuf::LumaA8(p) => DynamicImage::ImageLumaA8(ImageBuf::from_pixels(p, w, h)),
        PixelBuf::Rgb8(p) => DynamicImage::ImageRgb8(ImageBuf::from_pixels(p, w, h)),
        PixelBuf::Rgba8(p) => DynamicImage::ImageRgba8(ImageBuf::from_pixels(p, w, h)),
    };
    proof {
        assert(im.bytes() =~= pixels.bytes());
    }
    Ok(im)
}

/// `r` is what `image_from_bytes` makes of the bytes `buf` of pixels of
/// the color type `color` for an image of `w` by `h` pixels: the image with
/// these bytes, or `UnsupportedColor` if the color type is none of the four
/// 8-bit types or the bytes are not a whole number of pixels.
pub open spec fn image_made(
    buf: Seq<u8>,
    color: ColorType,
    w: u32,
    h: u32,
    r: ImageResult<DynamicImage>,
) -> bool {
    &&& r is Ok <==> pixel_bytes(color) is Some && (buf.len() as int) % (pixel_bytes(
        color,
    )->Some_0 as int) == 0
    &&& r matches Ok(im) ==> im.color_type() == color && im.dims() == (w, h) && im.bytes() == buf
    &&& r matches Err(e) ==> e == ImageError::UnsupportedColor
}

/// Decodes the whole image that `codec` holds: its color type, its bytes
/// and its dimensions are asked of the decoder, in this order, and
/// `image_from_bytes` makes the image of them. An error of the decoder ends
/// the call with that error, before anything more is asked.
pub fn decoder_to_image<I: ImageDecoder>(codec: I) -> (r: ImageResult<DynamicImage>)
    ensures
        ({
            let (color, c1) = codec.colortype_in();
            let (image, c2) = c1.image_in();
            let (dims, _c3) = c2.dimensions_in();
            match color {
                Err(e) => r is Err && r->Err_0 == e,
                Ok(c) => match image {
                    Err(e) => r is Err && r->Err_0 == e,
                    Ok(buf) => match dims {
                        Err(e) => r is Err && r->Err_0 == e,
                        Ok((w, h)) => image_made(buf@, c, w, h, r),
                    },
                },
            }
        }),
{
    let mut codec = codec;
    let color: ColorType = match codec.colortype() {
        Ok(c) => c,
        Err(e) => {
            return Err(e);
        },
    };
    let buf: Vec<u8> = match codec.read_image() {
        Ok(b) => b,
        Err(e) => {
            return Err(e);
        },
    };
    let (w, h): (u32, u32) = match codec.dimensions() {
        Ok(d) => d,
        Err(e) => {
            return Err(e);
        },
    };
    image_from_bytes(buf, color, w, h)
}

/// `q` is `p` flipped vertically.
pub open spec fn flipped_v<P: Copy>(p: ImageBuf<P>, q: ImageBuf<P>) -> bool {
    forall|x: int, y: int|
        0 <= x < p.dims().0 && 0 <= y < p.dims().1 ==> q.pixel(x, p.dims().1 - 1 - y)
            == #[trigger] p.pixel(x, y)
}

/// `q` is `p` flipped horizontally.
pub open spec fn flipped_h<P: Copy>(p: ImageBuf<P>, q: ImageBuf<P>) -> bool {
    forall|x: int, y: int|
        0 <= x < p.dims().0 && 0 <= y < p.dims().1 ==> q.pixel(p.dims().0 - 1 - x, y)
            == #[trigger] p.pixel(x, y)
}

/// `q` is `p` rotated by 90 degrees clockwise.
pub open spec fn turned_90<P: Copy>(p: ImageBuf<P>, q: ImageBuf<P>) -> bool {
    forall|x: int, y: int|
        0 <= x < p.dims().0 && 0 <= y < p.dims().1 ==> q.pixel(p.dims().1 - 1 - y, x)
            == #[trigger] p.pixel(x, y)
}

/// `q` is `p` rotated by 180 degrees.
pub open spec fn turned_180<P: Copy>(p: ImageBuf<P>, q: ImageBuf<P>) -> bool {
    forall|x: int, y: int|
        0 <= x < p.dims().0 && 0 <= y < p.dims().1 ==> q.pixel(
            p.dims().0 - 1 - x,
            p.dims().1 - 1 - y,
        ) == #[trigger] p.pixel(x, y)
}

/// `q` is `p` rotated by 270 degrees clockwise.
pub open spec fn turned_270<P: Copy>(p: ImageBuf<P>, q: ImageBuf<P>) -> bool {
    forall|x: int, y: int|
        0 <= x < p.dims().0 && 0 <= y < p.dims().1 ==> q.pixel(y, p.dims().0 - 1 - x)
            == #[trigger] p.pixel(x, y)
}

/// The pixels of an image as bytes.
pub fn image_to_bytes(image: &DynamicImage) -> (r: Vec<u8>)
    ensures
        r@ == image.bytes(),
{
    let r: Vec<u8> = match image {
        DynamicImage::ImageLuma8(a) => luma_to_bytes(a.pixelbuf()),
        DynamicImage::ImageLumaA8(a) => luma_alpha_to_bytes(a.pixelbuf()),
        DynamicImage::ImageRgb8(a) => rgb_to_bytes(a.pixelbuf()),
        DynamicImage::ImageRgba8(a) => rgba_to_bytes(a.pixelbuf()),
    };
    proof {
        let n = image.channel_count() as int;
        assert(r.len() == image.len() * image.channel_count());
        assert forall|j: int| 0 <= j < r.len() implies r[j] == image.bytes()[j] by {
            let i = j / n;
            assert(j == n * i + j % n);
            match image {
                DynamicImage::ImageLuma8(a) => {
                    assert(r[i] == a@[i].0);
                },
                DynamicImage::ImageLumaA8(a) => {
                    assert(r[2 * i] == a@[i].0);
                },
                DynamicImage::ImageRgb8(a) => {
                    assert(r[3 * i] == a@[i].0);
                },
                DynamicImage::ImageRgba8(a) => {
                    assert(r[4 * i] == a@[i].0);
                },
            }
        }
        assert(r@ =~= image.bytes());
    }
    r
}


/// A generic representation of an image: pixels of one of four types with
/// the dimensions of the image.
#[derive(Debug, Clone, PartialEq)]
pub struct Image {
    pixels: PixelBuf,
    width: u32,
    height: u32,
    color: ColorType,
}

impl Image {
    /// The pixels of the image.
    pub closed spec fn pixels(&self) -> PixelBuf {
        self.pixels
    }

    /// Width and height of the image.
    pub closed spec fn dims(&self) -> (u32, u32) {
        (self.width, self.height)
    }

    /// The color type of the image.
    pub closed spec fn color(&self) -> ColorType {
        self.color
    }

    /// An image of `pixels` with the given dimensions; its color type is
    /// that of the pixels.
    pub fn new(pixels: PixelBuf, width: u32, height: u32) -> (im: Image)
        ensures
            im.pixels() == pixels,
            im.dims() == (width, height),
            im.color() == pixels.color(),
    {
        let color: ColorType = match &pixels {
            PixelBuf::Luma8(_) => ColorType::Grey(8),
            PixelBuf::LumaA8(_) => ColorType::GreyA(8),
            PixelBuf::Rgb8(_) => ColorType::RGB(8),
            PixelBuf::Rgba8(_) => ColorType::RGBA(8),
        };
        Image { pixels, width, height, color }
    }

    /// Encode this image and append it to `w`.
    ///
    /// Of the formats only JPEG can be written; the others give
    /// `UnsupportedError`. Nothing is appended when the result is an error.
    pub fn save(&self, w: &mut Vec<u8>, format: ImageFormat) -> (r: Result<(), ImageError>)
        ensures
            save_outcome(
                self.pixels().bytes(),
                self.dims(),
                self.color(),
                format,
                old(w)@,
                final(w)@,
                r,
            ),
    {
        let bytes: Vec<u8> = self.raw_pixels();
        save_bytes(bytes.as_slice(), self.width, self.height, self.color, w, format)
    }

    /// Return the pixels of this image as bytes. Their interpretation is
    /// dependent on the image's `ColorType`.
    pub fn raw_pixels(&self) -> (r: Vec<u8>)
        ensures
            r@ == self.pixels().bytes(),
    {
        self.pixels.to_bytes()
    }

    /// Returns a tuple of the image's width and height.
    pub fn dimensions(&self) -> (d: (u32, u32))
        ensures
            d == self.dims(),
    {
        (self.width, self.height)
    }

    /// The colortype of this image.
    pub fn colortype(&self) -> (c: ColorType)
        ensures
            c == self.color(),
    {
        self.color
    }

    /// A grayscale version of this image, with the same dimensions: each
    /// pixel is the luminance of the pixel it stands for.
    pub fn grayscale(&self) -> (im: Image)
        ensures
            im.dims() == self.dims(),
            im.color() == ColorType::Grey(8),
            im.pixels() is Luma8,
            im.pixels().len() == self.pixels().len(),
            forall|i: int|
                0 <= i < self.pixels().len() ==> #[trigger] im.pixels().channel_at(i, 0)
                    == self.pixels().luma_at(i),
    {
        let pixels: PixelBuf = crate::pixels::grayscale(&self.pixels);
        Image { pixels, width: self.width, height: self.height, color: ColorType::Grey(8) }
    }
}

} // verus!
