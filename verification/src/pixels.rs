//! Types and functions for dealing with pixels.

use crate::colortype::ColorType;
use vstd::prelude::*;

verus! {

/// A type to hold a grayscale pixel.
#[derive(Debug, Clone, Copy, PartialEq, Eq)]
pub struct Luma<T>(pub T);

impl<T: Copy> Luma<T> {
    /// Returns the channel of this pixel.
    pub fn channel(&self) -> (l: T)
        ensures
            l == self.0,
    {
        self.0
    }
}

/// A type to hold a grayscale pixel with an alpha channel.
#[derive(Debug, Clone, Copy, PartialEq, Eq)]
pub struct LumaA<T>(pub T, pub T);

impl<T: Copy> LumaA<T> {
    /// Returns the channels of this pixel as a tuple.
    pub fn channels(&self) -> (c: (T, T))
        ensures
            c == (self.0, self.1),
    {
        (self.0, self.1)
    }

    /// Returns the alpha channel of this pixel.
    pub fn alpha(&self) -> (a: T)
        ensures
            a == self.1,
    {
        self.1
    }
}

/// A type to hold an RGB pixel.
#[derive(Debug, Clone, Copy, PartialEq, Eq)]
pub struct Rgb<T>(pub T, pub T, pub T);

impl<T: Copy> Rgb<T> {
    /// Returns the channels of this pixel as a tuple.
    pub fn channels(&self) -> (c: (T, T, T))
        ensures
            c == (self.0, self.1, self.2),
    {
        (self.0, self.1, self.2)
    }
}

/// A type to hold an RGB pixel with an alpha channel.
#[derive(Debug, Clone, Copy, PartialEq, Eq)]
pub struct Rgba<T>(pub T, pub T, pub T, pub T);

impl<T: Copy> Rgba<T> {
    /// Returns the channels of this pixel as a tuple.
    pub fn channels(&self) -> (c: (T, T, T, T))
        ensures
            c == (self.0, self.1, self.2, self.3),
    {
        (self.0, self.1, self.2, self.3)
    }

    /// Returns the alpha channel of this pixel.
    pub fn alpha(&self) -> (a: T)
        ensures
            a == self.3,
    {
        self.3
    }
}

impl<T: Default> Default for Luma<T> {
    fn default() -> (p: Luma<T>) {
        Luma(T::default())
    }
}

impl<T: Default> Default for LumaA<T> {
    fn default() -> (p: LumaA<T>) {
        LumaA(T::default(), T::default())
    }
}

impl<T: Default> Default for Rgb<T> {
    fn default() -> (p: Rgb<T>) {
        Rgb(T::default(), T::default(), T::default())
    }
}

impl<T: Default> Default for Rgba<T> {
    fn default() -> (p: Rgba<T>) {
        Rgba(T::default(), T::default(), T::default(), T::default())
    }
}

/// The luminance of a color: `0.2125 r + 0.7154 g + 0.0721 b`, rounded
/// down.
pub open spec fn luminance(r: u8, g: u8, b: u8) -> u8 {
    ((2125 * r + 7154 * g + 721 * b) / 10000) as u8
}

/// The luminance of a color.
pub fn luminance_of(r: u8, g: u8, b: u8) -> (l: u8)
    ensures
        l == luminance(r, g, b),
{
    ((2125 * (r as u32) + 7154 * (g as u32) + 721 * (b as u32)) / 10000) as u8
}

/// A trait that all pixels implement.
pub trait Pixel<T>: Sized {
    /// The color channels of the pixel, in order; an alpha channel is not
    /// among them.
    spec fn colors(&self) -> Seq<T>;

    /// The alpha channel of the pixel, if it has one.
    spec fn alpha_of(&self) -> Option<T>;

    /// The pixel with its colors inverted.
    spec fn inverted(&self) -> Self;

    /// The luminance of the pixel.
    spec fn luma_of(&self) -> T;

    /// A pixel of this type from channels; those that the type has no use
    /// for are dropped.
    fn from_channels(&self, a: T, b: T, c: T, d: T) -> Self;

    /// Convert this pixel to RGB.
    fn to_rgb(&self) -> Rgb<T>;

    /// Convert this pixel to RGB with an alpha channel.
    fn to_rgba(&self) -> Rgba<T>;

    /// Convert this pixel to luma.
    fn to_luma(&self) -> (l: Luma<T>)
        ensures
            l.0 == self.luma_of(),
    ;

    /// Convert this pixel to luma with an alpha channel.
    fn to_luma_alpha(&self) -> LumaA<T>;

    /// Invert the color of this pixel.
    fn invert(&mut self)
        ensures
            *final(self) == old(self).inverted(),
    ;

    /// Apply the function `f` to each channel of this pixel. If there is an
    /// alpha channel it is not changed.
    fn map<F: Fn(T) -> T>(&self, f: F) -> (r: Self)
        requires
            forall|x: T| call_requires(f, (x,)),
        ensures
            r.alpha_of() == self.alpha_of(),
            r.colors().len() == self.colors().len(),
            forall|i: int|
                0 <= i < self.colors().len() ==> call_ensures(
                    f,
                    (#[trigger] self.colors()[i],),
                    r.colors()[i],
                ),
    ;

    /// Apply the function `f` to each channel of this pixel and `other`
    /// pairwise. The alpha channel is that of this pixel.
    fn map2<F: Fn(T, T) -> T>(&self, other: Self, f: F) -> (r: Self)
        requires
            forall|x: T, y: T| call_requires(f, (x, y)),
        ensures
            r.alpha_of() == self.alpha_of(),
            r.colors().len() == self.colors().len(),
            forall|i: int|
                0 <= i < self.colors().len() ==> call_ensures(
                    f,
                    (#[trigger] self.colors()[i], other.colors()[i]),
                    r.colors()[i],
                ),
    ;

    /// Returns the channels of this pixel as a 4 tuple. If the pixel has
    /// less than 4 channels the remainder is filled with the maximum value.
    fn channels4(&self) -> (T, T, T, T);
}

impl Pixel<u8> for Rgb<u8> {
    open spec fn colors(&self) -> Seq<u8> {
        seq![self.0, self.1, self.2]
    }

    open spec fn alpha_of(&self) -> Option<u8> {
        None
    }

    open spec fn inverted(&self) -> Rgb<u8> {
        Rgb((255 - self.0) as u8, (255 - self.1) as u8, (255 - self.2) as u8)
    }

    open spec fn luma_of(&self) -> u8 {
        luminance(self.0, self.1, self.2)
    }

    fn from_channels(&self, a: u8, b: u8, c: u8, _d: u8) -> (r: Rgb<u8>)
        ensures
            r == Rgb(a, b, c),
    {
        Rgb(a, b, c)
    }

    fn to_luma(&self) -> (l: Luma<u8>) {
        Luma(luminance_of(self.0, self.1, self.2))
    }

    fn to_luma_alpha(&self) -> (r: LumaA<u8>)
        ensures
            r == LumaA(self.luma_of(), 255u8),
    {
        LumaA(luminance_of(self.0, self.1, self.2), 255)
    }

    fn to_rgb(&self) -> (r: Rgb<u8>)
        ensures
            r == *self,
    {
        *self
    }

    fn to_rgba(&self) -> (r: Rgba<u8>)
        ensures
            r == Rgba(self.0, self.1, self.2, 255u8),
    {
        Rgba(self.0, self.1, self.2, 255)
    }

    fn invert(&mut self) {
        *self = Rgb(255 - self.0, 255 - self.1, 255 - self.2);
    }

    fn map<F: Fn(u8) -> u8>(&self, f: F) -> (r: Rgb<u8>) {
        let r1: u8 = f(self.0);
        let g1: u8 = f(self.1);
        let b1: u8 = f(self.2);
        Rgb(r1, g1, b1)
    }

    fn map2<F: Fn(u8, u8) -> u8>(&self, other: Rgb<u8>, f: F) -> (r: Rgb<u8>) {
        let r3: u8 = f(self.0, other.0);
        let g3: u8 = f(self.1, other.1);
        let b3: u8 = f(self.2, other.2);
        Rgb(r3, g3, b3)
    }

    fn channels4(&self) -> (c: (u8, u8, u8, u8))
        ensures
            c == (self.0, self.1, self.2, 255u8),
    {
        (self.0, self.1, self.2, 255)
    }
}

impl Pixel<u8> for Rgba<u8> {
    open spec fn colors(&self) -> Seq<u8> {
        seq![self.0, self.1, self.2]
    }

    open spec fn alpha_of(&self) -> Option<u8> {
        Some(self.3)
    }

    open spec fn inverted(&self) -> Rgba<u8> {
        Rgba((255 - self.0) as u8, (255 - self.1) as u8, (255 - self.2) as u8, self.3)
    }

    open spec fn luma_of(&self) -> u8 {
        luminance(self.0, self.1, self.2)
    }

    fn from_channels(&self, a: u8, b: u8, c: u8, d: u8) -> (r: Rgba<u8>)
        ensures
            r == Rgba(a, b, c, d),
    {
        Rgba(a, b, c, d)
    }

    fn to_luma(&self) -> (l: Luma<u8>) {
        Luma(luminance_of(self.0, self.1, self.2))
    }

    fn to_luma_alpha(&self) -> (r: LumaA<u8>)
        ensures
            r == LumaA(self.luma_of(), self.3),
    {
        LumaA(luminance_of(self.0, self.1, self.2), self.3)
    }

    fn to_rgb(&self) -> (r: Rgb<u8>)
        ensures
            r == Rgb(self.0, self.1, self.2),
    {
        Rgb(self.0, self.1, self.2)
    }

    fn to_rgba(&self) -> (r: Rgba<u8>)
        ensures
            r == *self,
    {
        *self
    }

    fn invert(&mut self) {
        *self = Rgba(255 - self.0, 255 - self.1, 255 - self.2, self.3);
    }

    fn map<F: Fn(u8) -> u8>(&self, f: F) -> (r: Rgba<u8>) {
        let r1: u8 = f(self.0);
        let g1: u8 = f(self.1);
        let b1: u8 = f(self.2);
        Rgba(r1, g1, b1, self.3)
    }

    fn map2<F: Fn(u8, u8) -> u8>(&self, other: Rgba<u8>, f: F) -> (r: Rgba<u8>) {
        let r3: u8 = f(self.0, other.0);
        let g3: u8 = f(self.1, other.1);
        let b3: u8 = f(self.2, other.2);
        Rgba(r3, g3, b3, self.3)
    }

    fn channels4(&self) -> (c: (u8, u8, u8, u8))
        ensures
            c == (self.0, self.1, self.2, self.3),
    {
        (self.0, self.1, self.2, self.3)
    }
}

impl Pixel<u8> for Luma<u8> {
    open spec fn colors(&self) -> Seq<u8> {
        seq![self.0]
    }

    open spec fn alpha_of(&self) -> Option<u8> {
        None
    }

    open spec fn inverted(&self) -> Luma<u8> {
        Luma((255 - self.0) as u8)
    }

    open spec fn luma_of(&self) -> u8 {
        self.0
    }

    fn from_channels(&self, a: u8, _b: u8, _c: u8, _d: u8) -> (r: Luma<u8>)
        ensures
            r == Luma(a),
    {
        Luma(a)
    }

    fn to_luma(&self) -> (l: Luma<u8>) {
        *self
    }

    fn to_luma_alpha(&self) -> (r: LumaA<u8>)
        ensures
            r == LumaA(self.0, 255u8),
    {
        LumaA(self.0, 255)
    }

    fn to_rgb(&self) -> (r: Rgb<u8>)
        ensures
            r == Rgb(self.0, self.0, self.0),
    {
        Rgb(self.0, self.0, self.0)
    }

    fn to_rgba(&self) -> (r: Rgba<u8>)
        ensures
            r == Rgba(self.0, self.0, self.0, 255u8),
    {
        Rgba(self.0, self.0, self.0, 255)
    }

    fn invert(&mut self) {
        *self = Luma(255 - self.0);
    }

    fn map<F: Fn(u8) -> u8>(&self, f: F) -> (r: Luma<u8>) {
        let l1: u8 = f(self.0);
        Luma(l1)
    }

    fn map2<F: Fn(u8, u8) -> u8>(&self, other: Luma<u8>, f: F) -> (r: Luma<u8>) {
        let l3: u8 = f(self.0, other.0);
        Luma(l3)
    }

    fn channels4(&self) -> (c: (u8, u8, u8, u8))
        ensures
            c == (self.0, 255u8, 255u8, 255u8),
    {
        (self.0, 255, 255, 255)
    }
}

impl Pixel<u8> for LumaA<u8> {
    open spec fn colors(&self) -> Seq<u8> {
        seq![self.0]
    }

    open spec fn alpha_of(&self) -> Option<u8> {
        Some(self.1)
    }

    open spec fn inverted(&self) -> LumaA<u8> {
        LumaA((255 - self.0) as u8, self.1)
    }

    open spec fn luma_of(&self) -> u8 {
        self.0
    }

    fn from_channels(&self, a: u8, b: u8, _c: u8, _d: u8) -> (r: LumaA<u8>)
        ensures
            r == LumaA(a, b),
    {
        LumaA(a, b)
    }

    fn to_luma(&self) -> (l: Luma<u8>) {
        Luma(self.0)
    }

    fn to_luma_alpha(&self) -> (r: LumaA<u8>)
        ensures
            r == *self,
    {
        *self
    }

    fn to_rgb(&self) -> (r: Rgb<u8>)
        ensures
            r == Rgb(self.0, self.0, self.0),
    {
        Rgb(self.0, self.0, self.0)
    }

    fn to_rgba(&self) -> (r: Rgba<u8>)
        ensures
            r == Rgba(self.0, self.0, self.0, self.1),
    {
        Rgba(self.0, self.0, self.0, self.1)
    }

    fn invert(&mut self) {
        *self = LumaA(255 - self.0, self.1);
    }

    fn map<F: Fn(u8) -> u8>(&self, f: F) -> (r: LumaA<u8>) {
        let l1: u8 = f(self.0);
        LumaA(l1, self.1)
    }

    fn map2<F: Fn(u8, u8) -> u8>(&self, other: LumaA<u8>, f: F) -> (r: LumaA<u8>) {
        let l3: u8 = f(self.0, other.0);
        LumaA(l3, self.1)
    }

    fn channels4(&self) -> (c: (u8, u8, u8, u8))
        ensures
            c == (self.0, self.1, 255u8, 255u8),
    {
        (self.0, self.1, 255, 255)
    }
}


/// A borrowed view of the pixels of a `PixelBuf`.
pub enum PixelBufSlice<'a> {
    /// Grayscale pixels.
    Luma8Slice(&'a [Luma<u8>]),
    /// Grayscale pixels with alpha.
    LumaA8Slice(&'a [LumaA<u8>]),
    /// RGB pixels.
    Rgb8Slice(&'a [Rgb<u8>]),
    /// RGB pixels with alpha.
    Rgba8Slice(&'a [Rgba<u8>]),
}

/// A mutably borrowed view of the pixels of a `PixelBuf`.
pub enum PixelBufMutSlice<'a> {
    /// Grayscale pixels.
    Luma8MutSlice(&'a mut [Luma<u8>]),
    /// Grayscale pixels with alpha.
    LumaA8MutSlice(&'a mut [LumaA<u8>]),
    /// RGB pixels.
    Rgb8MutSlice(&'a mut [Rgb<u8>]),
    /// RGB pixels with alpha.
    Rgba8MutSlice(&'a mut [Rgba<u8>]),
}

/// An abstraction over a vector of pixel types.
#[derive(Debug, Clone, PartialEq)]
pub enum PixelBuf {
    /// Grayscale pixels.
    Luma8(Vec<Luma<u8>>),
    /// Grayscale pixels with alpha.
    LumaA8(Vec<LumaA<u8>>),
    /// RGB pixels.
    Rgb8(Vec<Rgb<u8>>),
    /// RGB pixels with alpha.
    Rgba8(Vec<Rgba<u8>>),
}

/// The number of bytes of a pixel of the color type `color`, if it is one
/// of the four 8-bit types that a `PixelBuf` can hold.
pub open spec fn pixel_bytes(color: ColorType) -> Option<nat> {
    if color == ColorType::Grey(8) {
        Some(1)
    } else if color == ColorType::GreyA(8) {
        Some(2)
    } else if color == ColorType::RGB(8) {
        Some(3)
    } else if color == ColorType::RGBA(8) {
        Some(4)
    } else {
        None
    }
}

impl PixelBuf {
    /// The number of pixels.
    pub open spec fn len(&self) -> nat {
        match self {
            PixelBuf::Luma8(p) => p.len() as nat,
            PixelBuf::LumaA8(p) => p.len() as nat,
            PixelBuf::Rgb8(p) => p.len() as nat,
            PixelBuf::Rgba8(p) => p.len() as nat,
        }
    }

    /// The color type of the pixels.
    pub open spec fn color(&self) -> ColorType {
        match self {
            PixelBuf::Luma8(_) => ColorType::Grey(8),
            PixelBuf::LumaA8(_) => ColorType::GreyA(8),
            PixelBuf::Rgb8(_) => ColorType::RGB(8),
            PixelBuf::Rgba8(_) => ColorType::RGBA(8),
        }
    }

    /// The number of channels of a pixel.
    pub open spec fn channel_count(&self) -> nat {
        match self {
            PixelBuf::Luma8(_) => 1,
            PixelBuf::LumaA8(_) => 2,
            PixelBuf::Rgb8(_) => 3,
            PixelBuf::Rgba8(_) => 4,
        }
    }

    /// Channel `k` of pixel `i`, the alpha channel last.
    pub open spec fn channel_at(&self, i: int, k: int) -> u8 {
        match self {
            PixelBuf::Luma8(p) => p[i].0,
            PixelBuf::LumaA8(p) => if k == 0 {
                p[i].0
            } else {
                p[i].1
            },
            PixelBuf::Rgb8(p) => if k == 0 {
                p[i].0
            } else if k == 1 {
                p[i].1
            } else {
                p[i].2
            },
            PixelBuf::Rgba8(p) => if k == 0 {
                p[i].0
            } else if k == 1 {
                p[i].1
            } else if k == 2 {
                p[i].2
            } else {
                p[i].3
            },
        }
    }

    /// The pixels as bytes: pixel after pixel, channel after channel.
    pub open spec fn bytes(&self) -> Seq<u8> {
        Seq::new(
            self.len() * self.channel_count(),
            |j: int|
                self.channel_at(j / self.channel_count() as int, j % self.channel_count() as int),
        )
    }

    /// The luminance of pixel `i`.
    pub open spec fn luma_at(&self, i: int) -> u8 {
        match self {
            PixelBuf::Luma8(p) => p[i].luma_of(),
            PixelBuf::LumaA8(p) => p[i].luma_of(),
            PixelBuf::Rgb8(p) => p[i].luma_of(),
            PixelBuf::Rgba8(p) => p[i].luma_of(),
        }
    }

    /// Whether channel `k` of a pixel is a color channel, not alpha.
    pub open spec fn is_color(&self, k: int) -> bool {
        match self {
            PixelBuf::Luma8(_) => true,
            PixelBuf::LumaA8(_) => k == 0,
            PixelBuf::Rgb8(_) => true,
            PixelBuf::Rgba8(_) => k < 3,
        }
    }

    /// The pixels, if they are grayscale.
    pub fn as_luma8<'a>(&'a self) -> (r: Option<&'a [Luma<u8>]>)
        ensures
            match self {
                PixelBuf::Luma8(p) => r is Some && r->Some_0@ == p@,
                _ => r is None,
            },
    {
        match self {
            PixelBuf::Luma8(p) => Some(p.as_slice()),
            _ => None,
        }
    }

    /// The pixels, if they are grayscale with alpha.
    pub fn as_luma_alpha8<'a>(&'a self) -> (r: Option<&'a [LumaA<u8>]>)
        ensures
            match self {
                PixelBuf::LumaA8(p) => r is Some && r->Some_0@ == p@,
                _ => r is None,
            },
    {
        match self {
            PixelBuf::LumaA8(p) => Some(p.as_slice()),
            _ => None,
        }
    }

    /// The pixels, if they are RGB.
    pub fn as_rgb8<'a>(&'a self) -> (r: Option<&'a [Rgb<u8>]>)
        ensures
            match self {
                PixelBuf::Rgb8(p) => r is Some && r->Some_0@ == p@,
                _ => r is None,
            },
    {
        match self {
            PixelBuf::Rgb8(p) => Some(p.as_slice()),
            _ => None,
        }
    }

    /// The pixels, if they are RGB with alpha.
    pub fn as_rgba8<'a>(&'a self) -> (r: Option<&'a [Rgba<u8>]>)
        ensures
            match self {
                PixelBuf::Rgba8(p) => r is Some && r->Some_0@ == p@,
                _ => r is None,
            },
    {
        match self {
            PixelBuf::Rgba8(p) => Some(p.as_slice()),
            _ => None,
        }
    }

    /// The pixels, whatever their type.
    pub fn as_slice<'a>(&'a self) -> (r: PixelBufSlice<'a>)
        ensures
            match (self, r) {
                (PixelBuf::Luma8(p), PixelBufSlice::Luma8Slice(s)) => s@ == p@,
                (PixelBuf::LumaA8(p), PixelBufSlice::LumaA8Slice(s)) => s@ == p@,
                (PixelBuf::Rgb8(p), PixelBufSlice::Rgb8Slice(s)) => s@ == p@,
                (PixelBuf::Rgba8(p), PixelBufSlice::Rgba8Slice(s)) => s@ == p@,
                _ => false,
            },
    {
        match self {
            PixelBuf::Luma8(p) => PixelBufSlice::Luma8Slice(p.as_slice()),
            PixelBuf::LumaA8(p) => PixelBufSlice::LumaA8Slice(p.as_slice()),
            PixelBuf::Rgb8(p) => PixelBufSlice::Rgb8Slice(p.as_slice()),
            PixelBuf::Rgba8(p) => PixelBufSlice::Rgba8Slice(p.as_slice()),
        }
    }

    /// The pixels, whatever their type, to be changed in place. The buffer
    /// keeps its type and its length.
    pub fn as_mut_slice<'a>(&'a mut self) -> (r: PixelBufMutSlice<'a>)
        ensures
            final(self).color() == old(self).color(),
            match r {
                PixelBufMutSlice::Luma8MutSlice(s) => *old(self) is Luma8 && s@ == (*old(
                    self,
                ))->Luma8_0@ && (*final(self))->Luma8_0@ == final(s)@,
                PixelBufMutSlice::LumaA8MutSlice(s) => *old(self) is LumaA8 && s@ == (*old(
                    self,
                ))->LumaA8_0@ && (*final(self))->LumaA8_0@ == final(s)@,
                PixelBufMutSlice::Rgb8MutSlice(s) => *old(self) is Rgb8 && s@ == (*old(
                    self,
                ))->Rgb8_0@ && (*final(self))->Rgb8_0@ == final(s)@,
                PixelBufMutSlice::Rgba8MutSlice(s) => *old(self) is Rgba8 && s@ == (*old(
                    self,
                ))->Rgba8_0@ && (*final(self))->Rgba8_0@ == final(s)@,
            },
    {
        match self {
            PixelBuf::Luma8(p) => PixelBufMutSlice::Luma8MutSlice(p.as_mut_slice()),
            PixelBuf::LumaA8(p) => PixelBufMutSlice::LumaA8MutSlice(p.as_mut_slice()),
            PixelBuf::Rgb8(p) => PixelBufMutSlice::Rgb8MutSlice(p.as_mut_slice()),
            PixelBuf::Rgba8(p) => PixelBufMutSlice::Rgba8MutSlice(p.as_mut_slice()),
        }
    }

    /// Convert from a vector of bytes to a `PixelBuf`.
    ///
    /// Returns `None` if the conversion cannot be done: the color type is
    /// none of the four that a `PixelBuf` can hold, or the bytes are not a
    /// whole number of pixels.
    pub fn from_bytes(buf: Vec<u8>, color: ColorType) -> (r: Option<PixelBuf>)
        ensures
            r is Some <==> pixel_bytes(color) is Some && (buf.len() as int) % (pixel_bytes(
                color,
            )->Some_0 as int) == 0,
            r matches Some(p) ==> p.color() == color && p.bytes() == buf@,
    {
        match color {
            ColorType::RGB(8) => {
                if buf.len() % 3 != 0 {
                    return None;
                }
                let n: usize = buf.len() / 3;
                let mut p: Vec<Rgb<u8>> = Vec::new();
                let mut i: usize = 0;
                while i < n
                    invariant
                        i <= n,
                        buf.len() == 3 * n,
                        p.len() == i,
                        forall|j: int|
                            0 <= j < i ==> #[trigger] p[j] == Rgb(
                                buf[3 * j],
                                buf[3 * j + 1],
                                buf[3 * j + 2],
                            ),
                    decreases n - i,
                {
                    p.push(Rgb(buf[3 * i], buf[3 * i + 1], buf[3 * i + 2]));
                    i += 1;
                }
                let r = PixelBuf::Rgb8(p);
                proof {
                    assert(r.len() * r.channel_count() == buf.len());
                    assert forall|j: int| 0 <= j < buf.len() implies r.bytes()[j] == buf[j] by {
                        let i = j / 3;
                        assert(j == 3 * i + j % 3);
                        assert(p[i] == p[i]);
                    }
                    assert(r.bytes() =~= buf@);
                }
                Some(r)
            },
            ColorType::RGBA(8) => {
                if buf.len() % 4 != 0 {
                    return None;
                }
                let n: usize = buf.len() / 4;
                let mut p: Vec<Rgba<u8>> = Vec::new();
                let mut i: usize = 0;
                while i < n
                    invariant
                        i <= n,
                        buf.len() == 4 * n,
                        p.len() == i,
                        forall|j: int|
                            0 <= j < i ==> #[trigger] p[j] == Rgba(
                                buf[4 * j],
                                buf[4 * j + 1],
                                buf[4 * j + 2],
                                buf[4 * j + 3],
                            ),
                    decreases n - i,
                {
                    p.push(Rgba(buf[4 * i], buf[4 * i + 1], buf[4 * i + 2], buf[4 * i + 3]));
                    i += 1;
                }
                let r = PixelBuf::Rgba8(p);
                proof {
                    assert(r.len() * r.channel_count() == buf.len());
                    assert forall|j: int| 0 <= j < buf.len() implies r.bytes()[j] == buf[j] by {
                        let i = j / 4;
                        assert(j == 4 * i + j % 4);
                        assert(p[i] == p[i]);
                    }
                    assert(r.bytes() =~= buf@);
                }
                Some(r)
            },
            ColorType::Grey(8) => {
                let n: usize = buf.len();
                let mut p: Vec<Luma<u8>> = Vec::new();
                let mut i: usize = 0;
                while i < n
                    invariant
                        i <= n,
                        buf.len() == n,
                        p.len() == i,
                        forall|j: int| 0 <= j < i ==> #[trigger] p[j] == Luma(buf[j]),
                    decreases n - i,
                {
                    p.push(Luma(buf[i]));
                    i += 1;
                }
                let r = PixelBuf::Luma8(p);
                proof {
                    assert(r.len() * r.channel_count() == buf.len());
                    assert forall|j: int| 0 <= j < buf.len() implies r.bytes()[j] == buf[j] by {
                        let i = j / 1;
                        assert(j == 1 * i + j % 1);
                        assert(p[i] == p[i]);
                    }
                    assert(r.bytes() =~= buf@);
                }
                Some(r)
            },
            ColorType::GreyA(8) => {
                if buf.len() % 2 != 0 {
                    return None;
                }
                let n: usize = buf.len() / 2;
                let mut p: Vec<LumaA<u8>> = Vec::new();
                let mut i: usize = 0;
                while i < n
                    invariant
                        i <= n,
                        buf.len() == 2 * n,
                        p.len() == i,
                        forall|j: int|
                            0 <= j < i ==> #[trigger] p[j] == LumaA(buf[2 * j], buf[2 * j + 1]),
                    decreases n - i,
                {
                    p.push(LumaA(buf[2 * i], buf[2 * i + 1]));
                    i += 1;
                }
                let r = PixelBuf::LumaA8(p);
                proof {
                    assert(r.len() * r.channel_count() == buf.len());
                    assert forall|j: int| 0 <= j < buf.len() implies r.bytes()[j] == buf[j] by {
                        let i = j / 2;
                        assert(j == 2 * i + j % 2);
                        assert(p[i] == p[i]);
                    }
                    assert(r.bytes() =~= buf@);
                }
                Some(r)
            },
            _ => None,
        }
    }

    /// Convert from a `PixelBuf` to a vector of bytes.
    pub fn to_bytes(&self) -> (r: Vec<u8>)
        ensures
            r@ == self.bytes(),
    {
        let r: Vec<u8> = match self {
            PixelBuf::Luma8(a) => luma_to_bytes(a.as_slice()),
            PixelBuf::LumaA8(a) => luma_alpha_to_bytes(a.as_slice()),
            PixelBuf::Rgb8(a) => rgb_to_bytes(a.as_slice()),
            PixelBuf::Rgba8(a) => rgba_to_bytes(a.as_slice()),
        };
        proof {
            let n = self.channel_count() as int;
            assert(r.len() == self.len() * self.channel_count());
            assert forall|j: int| 0 <= j < r.len() implies r[j] == self.bytes()[j] by {
                let i = j / n;
                assert(j == n * i + j % n);
                match self {
                    PixelBuf::Luma8(a) => {},
                    PixelBuf::LumaA8(a) => {
                        assert(r[2 * i] == a[i].0);
                    },
                    PixelBuf::Rgb8(a) => {
                        assert(r[3 * i] == a[i].0);
                    },
                    PixelBuf::Rgba8(a) => {
                        assert(r[4 * i] == a[i].0);
                    },
                }
            }
            assert(r@ =~= self.bytes());
        }
        r
    }
}

/// The bytes of grayscale pixels.
pub fn luma_to_bytes(a: &[Luma<u8>]) -> (r: Vec<u8>)
    ensures
        r.len() == a.len(),
        forall|j: int| 0 <= j < a.len() ==> r[j] == (#[trigger] a[j]).0,
{
    let mut r: Vec<u8> = Vec::new();
    let mut i: usize = 0;
    while i < a.len()
        invariant
            i <= a.len(),
            r.len() == i,
            forall|j: int| 0 <= j < i ==> r[j] == (#[trigger] a[j]).0,
        decreases a.len() - i,
    {
        r.push(a[i].channel());
        i += 1;
    }
    r
}

/// The bytes of grayscale pixels with alpha: two for each pixel.
pub fn luma_alpha_to_bytes(a: &[LumaA<u8>]) -> (r: Vec<u8>)
    ensures
        r.len() == 2 * a.len(),
        forall|j: int|
            0 <= j < a.len() ==> r[2 * j] == (#[trigger] a[j]).0 && r[2 * j + 1] == a[j].1,
{
    let mut r: Vec<u8> = Vec::new();
    let mut i: usize = 0;
    while i < a.len()
        invariant
            i <= a.len(),
            r.len() == 2 * i,
            forall|j: int| 0 <= j < i ==> r[2 * j] == (#[trigger] a[j]).0 && r[2 * j + 1] == a[j].1,
        decreases a.len() - i,
    {
        let (l, al): (u8, u8) = a[i].channels();
        r.push(l);
        r.push(al);
        i += 1;
    }
    r
}

/// The bytes of RGB pixels: three for each pixel.
pub fn rgb_to_bytes(a: &[Rgb<u8>]) -> (r: Vec<u8>)
    ensures
        r.len() == 3 * a.len(),
        forall|j: int|
            0 <= j < a.len() ==> r[3 * j] == (#[trigger] a[j]).0 && r[3 * j + 1] == a[j].1 && r[3
                * j + 2] == a[j].2,
{
    let mut r: Vec<u8> = Vec::new();
    let mut i: usize = 0;
    while i < a.len()
        invariant
            i <= a.len(),
            r.len() == 3 * i,
            forall|j: int|
                0 <= j < i ==> r[3 * j] == (#[trigger] a[j]).0 && r[3 * j + 1] == a[j].1 && r[3 * j
                    + 2] == a[j].2,
        decreases a.len() - i,
    {
        let (red, g, b): (u8, u8, u8) = a[i].channels();
        r.push(red);
        r.push(g);
        r.push(b);
        i += 1;
    }
    r
}

/// The bytes of RGB pixels with alpha: four for each pixel.
pub fn rgba_to_bytes(a: &[Rgba<u8>]) -> (r: Vec<u8>)
    ensures
        r.len() == 4 * a.len(),
        forall|j: int|
            0 <= j < a.len() ==> r[4 * j] == (#[trigger] a[j]).0 && r[4 * j + 1] == a[j].1 && r[4
                * j + 2] == a[j].2 && r[4 * j + 3] == a[j].3,
{
    let mut r: Vec<u8> = Vec::new();
    let mut i: usize = 0;
    while i < a.len()
        invariant
            i <= a.len(),
            r.len() == 4 * i,
            forall|j: int|
                0 <= j < i ==> r[4 * j] == (#[trigger] a[j]).0 && r[4 * j + 1] == a[j].1 && r[4 * j
                    + 2] == a[j].2 && r[4 * j + 3] == a[j].3,
        decreases a.len() - i,
    {
        let (red, g, b, alpha): (u8, u8, u8, u8) = a[i].channels();
        r.push(red);
        r.push(g);
        r.push(b);
        r.push(alpha);
        i += 1;
    }
    r
}

/// The luminances of the pixels.
pub fn lumas<T: Pixel<u8>>(p: &[T]) -> (n: Vec<Luma<u8>>)
    ensures
        n.len() == p.len(),
        forall|i: int| 0 <= i < p.len() ==> (#[trigger] n[i]).0 == p[i].luma_of(),
{
    let mut n: Vec<Luma<u8>> = Vec::new();
    let mut i: usize = 0;
    while i < p.len()
        invariant
            i <= p.len(),
            n.len() == i,
            forall|j: int| 0 <= j < i ==> (#[trigger] n[j]).0 == p[j].luma_of(),
        decreases p.len() - i,
    {
        n.push(p[i].to_luma());
        i += 1;
    }
    n
}

/// Convert the `PixelBuf` pixels to grayscale: each pixel becomes its
/// luminance.
pub fn grayscale(pixels: &PixelBuf) -> (r: PixelBuf)
    ensures
        r is Luma8,
        r.len() == pixels.len(),
        forall|i: int| 0 <= i < pixels.len() ==> #[trigger] r.channel_at(i, 0) == pixels.luma_at(i),
{
    match pixels {
        PixelBuf::Luma8(p) => PixelBuf::Luma8(lumas(p.as_slice())),
        PixelBuf::LumaA8(p) => PixelBuf::Luma8(lumas(p.as_slice())),
        PixelBuf::Rgb8(p) => PixelBuf::Luma8(lumas(p.as_slice())),
        PixelBuf::Rgba8(p) => PixelBuf::Luma8(lumas(p.as_slice())),
    }
}

/// Inverts every pixel.
pub fn invert_pixels<T: Pixel<u8>>(pixels: &mut [T])
    ensures
        final(pixels).len() == old(pixels).len(),
        forall|i: int| 0 <= i < old(pixels).len() ==> #[trigger] final(pixels)[i] == old(
            pixels,
        )[i].inverted(),
{
    let mut i: usize = 0;
    while i < pixels.len()
        invariant
            i <= pixels.len(),
            pixels.len() == old(pixels).len(),
            forall|j: int| 0 <= j < i ==> #[trigger] pixels[j] == old(pixels)[j].inverted(),
            forall|j: int| i <= j < pixels.len() ==> pixels[j] == old(pixels)[j],
        decreases pixels.len() - i,
    {
        pixels[i].invert();
        i += 1;
    }
}

/// Invert the pixels in `pixels`: every color channel `v` becomes
/// `255 - v`; alpha stays.
pub fn invert(pixels: &mut PixelBuf)
    ensures
        final(pixels).color() == old(pixels).color(),
        final(pixels).len() == old(pixels).len(),
        forall|i: int, k: int|
            0 <= i < old(pixels).len() && 0 <= k < old(pixels).channel_count()
                ==> #[trigger] final(pixels).channel_at(i, k) == if old(pixels).is_color(k) {
                (255 - old(pixels).channel_at(i, k)) as u8
            } else {
                old(pixels).channel_at(i, k)
            },
{
    match pixels {
        PixelBuf::Luma8(p) => invert_pixels(p.as_mut_slice()),
        PixelBuf::LumaA8(p) => invert_pixels(p.as_mut_slice()),
        PixelBuf::Rgb8(p) => invert_pixels(p.as_mut_slice()),
        PixelBuf::Rgba8(p) => invert_pixels(p.as_mut_slice()),
    }
}

/// `a`, or the nearer of `min` and `max` if it is not between them.
pub open spec fn clamped(a: int, min: int, max: int) -> int {
    if a > max {
        max
    } else if a < min {
        min
    } else {
        a
    }
}

/// `a`, or the nearer of `min` and `max` if it is not between them.
pub fn clamp(a: i64, min: i64, max: i64) -> (r: i64)
    ensures
        r == clamped(a as int, min as int, max as int),
{
    if a > max {
        max
    } else if a < min {
        min
    } else {
        a
    }
}

/// The channel value `b` made brighter by `v`.
pub open spec fn brightened(b: u8, v: i32) -> u8 {
    clamped(b + v, 0, 255) as u8
}

/// Every pixel with `v` added to its color channels.
pub fn bright<T: Pixel<u8>>(p: &[T], v: i32) -> (r: Vec<T>)
    ensures
        r.len() == p.len(),
        forall|i: int|
            0 <= i < p.len() ==> (#[trigger] r[i]).alpha_of() == p[i].alpha_of() && r[i].colors().len()
                == p[i].colors().len(),
        forall|i: int, k: int|
            0 <= i < p.len() && 0 <= k < p[i].colors().len() ==> #[trigger] r[i].colors()[k]
                == brightened(p[i].colors()[k], v),
{
    let mut r: Vec<T> = Vec::new();
    let mut i: usize = 0;
    while i < p.len()
        invariant
            i <= p.len(),
            r.len() == i,
            forall|j: int|
                0 <= j < i ==> (#[trigger] r[j]).alpha_of() == p[j].alpha_of()
                    && r[j].colors().len() == p[j].colors().len(),
            forall|j: int, k: int|
                0 <= j < i && 0 <= k < p[j].colors().len() ==> #[trigger] r[j].colors()[k]
                    == brightened(p[j].colors()[k], v),
        decreases p.len() - i,
    {
        let f = |b: u8| -> (d: u8)
            ensures
                d == brightened(b, v),
            { clamp(b as i64 + v as i64, 0, 255) as u8 };
        let q: T = p[i].map(f);
        r.push(q);
        i += 1;
    }
    r
}

/// Brighten the pixels: `c` is added to every color channel, and the result
/// is kept between 0 and 255; alpha stays.
pub fn brighten(pixels: &PixelBuf, c: i32) -> (r: PixelBuf)
    ensures
        r.color() == pixels.color(),
        r.len() == pixels.len(),
        forall|i: int, k: int|
            0 <= i < pixels.len() && 0 <= k < pixels.channel_count() ==> #[trigger] r.channel_at(
                i,
                k,
            ) == if pixels.is_color(k) {
                brightened(pixels.channel_at(i, k), c)
            } else {
                pixels.channel_at(i, k)
            },
{
    match pixels {
        PixelBuf::Luma8(p) => {
            let q = bright(p.as_slice(), c);
            proof {
                assert forall|i: int| 0 <= i < p.len() implies (#[trigger] q[i]).0 == brightened(
                    p[i].0,
                    c,
                ) by {
                    assert(q[i].colors()[0] == brightened(p[i].colors()[0], c));
                }
            }
            PixelBuf::Luma8(q)
        },
        PixelBuf::LumaA8(p) => {
            let q = bright(p.as_slice(), c);
            proof {
                assert forall|i: int| 0 <= i < p.len() implies (#[trigger] q[i]).0 == brightened(
                    p[i].0,
                    c,
                ) && q[i].1 == p[i].1 by {
                    assert(q[i].colors()[0] == brightened(p[i].colors()[0], c));
                    assert(q[i].alpha_of() == p[i].alpha_of());
                }
            }
            PixelBuf::LumaA8(q)
        },
        PixelBuf::Rgb8(p) => {
            let q = bright(p.as_slice(), c);
            proof {
                assert forall|i: int| 0 <= i < p.len() implies (#[trigger] q[i]).0 == brightened(
                    p[i].0,
                    c,
                ) && q[i].1 == brightened(p[i].1, c) && q[i].2 == brightened(p[i].2, c) by {
                    assert(q[i].colors()[0] == brightened(p[i].colors()[0], c));
                    assert(q[i].colors()[1] == brightened(p[i].colors()[1], c));
                    assert(q[i].colors()[2] == brightened(p[i].colors()[2], c));
                }
            }
            PixelBuf::Rgb8(q)
        },
        PixelBuf::Rgba8(p) => {
            let q = bright(p.as_slice(), c);
            proof {
                assert forall|i: int| 0 <= i < p.len() implies (#[trigger] q[i]).0 == brightened(
                    p[i].0,
                    c,
                ) && q[i].1 == brightened(p[i].1, c) && q[i].2 == brightened(p[i].2, c) && q[i].3
                    == p[i].3 by {
                    assert(q[i].colors()[0] == brightened(p[i].colors()[0], c));
                    assert(q[i].colors()[1] == brightened(p[i].colors()[1], c));
                    assert(q[i].colors()[2] == brightened(p[i].colors()[2], c));
                    assert(q[i].alpha_of() == p[i].alpha_of());
                }
            }
            PixelBuf::Rgba8(q)
        },
    }
}


/// The channel value `c` sharpened against its blurred value `d`: where the
/// two differ by more than `threshold`, their difference is added to `c`,
/// and the result is kept at most 255; else `c` stays.
pub open spec fn sharpened(c: u8, d: u8, threshold: i32) -> u8 {
    let diff = if c >= d {
        c - d
    } else {
        d - c
    };
    if diff > threshold {
        clamped(c + diff, 0, 255) as u8
    } else {
        c
    }
}

/// The last step of an unsharp mask: each pixel of `blurred` becomes the
/// pixel of `pixels` at its place, sharpened against it. Where one of the
/// two has more pixels than the other, the pixels past the shorter stay.
pub fn subtract_pixels<T: Pixel<u8> + Copy>(pixels: &[T], blurred: &mut [T], threshold: i32)
    ensures
        final(blurred).len() == old(blurred).len(),
        forall|i: int|
            0 <= i < pixels.len() && i < old(blurred).len() ==> (#[trigger] final(blurred)[i])
                .alpha_of() == pixels[i].alpha_of() && final(blurred)[i].colors().len()
                == pixels[i].colors().len(),
        forall|i: int, k: int|
            0 <= i < pixels.len() && i < old(blurred).len() && 0 <= k < pixels[i].colors().len()
                ==> #[trigger] final(blurred)[i].colors()[k] == sharpened(
                pixels[i].colors()[k],
                old(blurred)[i].colors()[k],
                threshold,
            ),
        forall|i: int|
            pixels.len() <= i < old(blurred).len() ==> #[trigger] final(blurred)[i]
                == old(blurred)[i],
{
    let n: usize = if pixels.len() < blurred.len() {
        pixels.len()
    } else {
        blurred.len()
    };
    let mut i: usize = 0;
    while i < n
        invariant
            i <= n,
            n <= pixels.len(),
            n <= blurred.len(),
            blurred.len() == old(blurred).len(),
            forall|j: int|
                0 <= j < i ==> (#[trigger] blurred[j]).alpha_of() == pixels[j].alpha_of()
                    && blurred[j].colors().len() == pixels[j].colors().len(),
            forall|j: int, k: int|
                0 <= j < i && 0 <= k < pixels[j].colors().len()
                    ==> #[trigger] blurred[j].colors()[k] == sharpened(
                    pixels[j].colors()[k],
                    old(blurred)[j].colors()[k],
                    threshold,
                ),
            forall|j: int| i <= j < blurred.len() ==> #[trigger] blurred[j] == old(blurred)[j],
        decreases n - i,
    {
        let f = |c: u8, d: u8| -> (e: u8)
            ensures
                e == sharpened(c, d, threshold),
            {
                let ic: i64 = c as i64;
                let id: i64 = d as i64;
                let diff: i64 = if ic >= id {
                    ic - id
                } else {
                    id - ic
                };
                if diff > threshold as i64 {
                    clamp(ic + diff, 0, 255) as u8
                } else {
                    c
                }
            };
        let b: T = blurred[i];
        let a: T = pixels[i].map2(b, f);
        blurred[i] = a;
        i += 1;
    }
}

} // verus!
