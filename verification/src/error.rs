//! The error and format enumerations shared by every codec.

use vstd::prelude::*;

verus! {

/// What can go wrong while an image, or one of its compressed streams, is
/// decoded or encoded.
#[derive(Debug, Clone, Copy, PartialEq, Eq, Structural)]
pub enum ImageError {
    /// The data is not formatted properly: a reserved value, a bit pattern
    /// that is no code word, a back-reference before the start of the output.
    FormatError,
    /// The image's dimensions are either too small or too large.
    DimensionError,
    /// The codec does not support this image format.
    UnsupportedError,
    /// The codec does not support this color type.
    UnsupportedColor,
    /// The input ended before the data was complete.
    NotEnoughData,
    /// The byte source or sink failed.
    IoError,
    /// The end of the data has been reached; nothing more will come.
    ImageEnd,
}

/// The result of a fallible operation of this crate.
pub type ImageResult<T> = Result<T, ImageError>;

/// The image formats this crate knows by name. Not every format can be both
/// encoded and decoded.
#[derive(Debug, Clone, Copy, PartialEq, Eq, Structural)]
pub enum ImageFormat {
    /// An image in PNG format.
    PNG,
    /// An image in JPEG format.
    JPEG,
    /// An image in GIF format.
    GIF,
    /// An image in WEBP format.
    WEBP,
    /// An image in PPM format.
    PPM,
}

} // verus!
