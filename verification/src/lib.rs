//! An image library with verified codecs.
//!
//! The two codecs at its heart are an inflater for DEFLATE streams
//! ([`deflate`]) and an encoder for baseline JPEG ([`codecs::jpeg`]). Each is
//! specified by functions that say what the format means
//! ([`inflate_spec`], [`codecs::jpeg::entropy`],
//! [`codecs::jpeg::encoder`]) and proved to do what they say, for every
//! input, without overflow and without panic.
//!
//! Around them are the scanline filters of PNG ([`codecs::png::filter`]),
//! pixel types and buffers ([`pixels`]), images ([`image`], [`dynimage`]) and
//! rotations and flips ([`imaging::affine`]).
//!
//! Everything works on bytes in memory. The codecs neither read nor write
//! files.

pub mod bitmath;
pub mod bitstring;
pub mod codecs;
pub mod codetable;
pub mod colortype;
pub mod decoder;
pub mod deflate;
pub mod dynimage;
pub mod error;
pub mod huffman;
pub mod image;
pub mod imaging;
pub mod inflate_spec;
pub mod pixels;
pub mod transform;
