//! Functions for performing affine transformations.

use crate::image::{GenericImage, ImageBuf};
use vstd::prelude::*;

verus! {

/// Rotate an image 90 degrees clockwise: the pixel at `(x, y)` goes to
/// `(height - 1 - y, x)`. The dimensions are those of the image itself;
/// `_width` and `_height` are not used.
pub fn rotate90<T: Copy>(image: &ImageBuf<T>, _width: u32, _height: u32) -> (out: ImageBuf<T>)
    requires
        image.wf(),
    ensures
        out.wf(),
        out.dims() == (image.dims().1, image.dims().0),
        forall|x: int, y: int|
            0 <= x < image.dims().0 && 0 <= y < image.dims().1 ==> out.pixel(
                image.dims().1 - 1 - y,
                x,
            ) == #[trigger] image.pixel(x, y),
{
    let (width, height): (u32, u32) = image.dimensions();
    proof {
        image.lemma_wf_size();
    }
    let f = |x: u32, y: u32| -> (p: T)
        requires
            x < height && y < width,
        ensures
            p == image.pixel(y as int, height - 1 - x),
        { image.get_pixel(y, height - 1 - x) };
    let out: ImageBuf<T> = ImageBuf::from_fn(height, width, f);
    proof {
        assert forall|x: int, y: int|
            0 <= x < image.dims().0 && 0 <= y < image.dims().1 implies out.pixel(
            image.dims().1 - 1 - y,
            x,
        ) == #[trigger] image.pixel(x, y) by {
            let px: u32 = (height - 1 - y) as u32;
            let py: u32 = x as u32;
            assert(call_ensures(f, (px, py), out.pixel(px as int, py as int)));
        }
    }
    out
}

/// Rotate an image 180 degrees: the pixel at `(x, y)` goes to
/// `(width - 1 - x, height - 1 - y)`.
pub fn rotate180<T: Copy>(image: &ImageBuf<T>, _width: u32, _height: u32) -> (out: ImageBuf<T>)
    requires
        image.wf(),
    ensures
        out.wf(),
        out.dims() == image.dims(),
        forall|x: int, y: int|
            0 <= x < image.dims().0 && 0 <= y < image.dims().1 ==> out.pixel(
                image.dims().0 - 1 - x,
                image.dims().1 - 1 - y,
            ) == #[trigger] image.pixel(x, y),
{
    let (width, height): (u32, u32) = image.dimensions();
    proof {
        image.lemma_wf_size();
    }
    let f = |x: u32, y: u32| -> (p: T)
        requires
            x < width && y < height,
        ensures
            p == image.pixel(width - 1 - x, height - 1 - y),
        { image.get_pixel(width - 1 - x, height - 1 - y) };
    let out: ImageBuf<T> = ImageBuf::from_fn(width, height, f);
    proof {
        assert forall|x: int, y: int|
            0 <= x < image.dims().0 && 0 <= y < image.dims().1 implies out.pixel(
            image.dims().0 - 1 - x,
            image.dims().1 - 1 - y,
        ) == #[trigger] image.pixel(x, y) by {
            let px: u32 = (width - 1 - x) as u32;
            let py: u32 = (height - 1 - y) as u32;
            assert(call_ensures(f, (px, py), out.pixel(px as int, py as int)));
        }
    }
    out
}

/// Rotate an image 270 degrees clockwise: the pixel at `(x, y)` goes to
/// `(y, width - 1 - x)`.
pub fn rotate270<T: Copy>(image: &ImageBuf<T>, _width: u32, _height: u32) -> (out: ImageBuf<T>)
    requires
        image.wf(),
    ensures
        out.wf(),
        out.dims() == (image.dims().1, image.dims().0),
        forall|x: int, y: int|
            0 <= x < image.dims().0 && 0 <= y < image.dims().1 ==> out.pixel(
                y,
                image.dims().0 - 1 - x,
            ) == #[trigger] image.pixel(x, y),
{
    let (width, height): (u32, u32) = image.dimensions();
    proof {
        image.lemma_wf_size();
    }
    let f = |x: u32, y: u32| -> (p: T)
        requires
            x < height && y < width,
        ensures
            p == image.pixel(width - 1 - y, x as int),
        { image.get_pixel(width - 1 - y, x) };
    let out: ImageBuf<T> = ImageBuf::from_fn(height, width, f);
    proof {
        assert forall|x: int, y: int|
            0 <= x < image.dims().0 && 0 <= y < image.dims().1 implies out.pixel(
            y,
            image.dims().0 - 1 - x,
        ) == #[trigger] image.pixel(x, y) by {
            let px: u32 = y as u32;
            let py: u32 = (width - 1 - x) as u32;
            assert(call_ensures(f, (px, py), out.pixel(px as int, py as int)));
        }
    }
    out
}

/// Flip an image horizontally: the pixel at `(x, y)` goes to
/// `(width - 1 - x, y)`.
pub fn flip_horizontal<T: Copy>(image: &ImageBuf<T>, _width: u32, _height: u32) -> (out: ImageBuf<
    T,
>)
    requires
        image.wf(),
    ensures
        out.wf(),
        out.dims() == image.dims(),
        forall|x: int, y: int|
            0 <= x < image.dims().0 && 0 <= y < image.dims().1 ==> out.pixel(
                image.dims().0 - 1 - x,
                y,
            ) == #[trigger] image.pixel(x, y),
{
    let (width, height): (u32, u32) = image.dimensions();
    proof {
        image.lemma_wf_size();
    }
    let f = |x: u32, y: u32| -> (p: T)
        requires
            x < width && y < height,
        ensures
            p == image.pixel(width - 1 - x, y as int),
        { image.get_pixel(width - 1 - x, y) };
    let out: ImageBuf<T> = ImageBuf::from_fn(width, height, f);
    proof {
        assert forall|x: int, y: int|
            0 <= x < image.dims().0 && 0 <= y < image.dims().1 implies out.pixel(
            image.dims().0 - 1 - x,
            y,
        ) == #[trigger] image.pixel(x, y) by {
            let px: u32 = (width - 1 - x) as u32;
            let py: u32 = y as u32;
            assert(call_ensures(f, (px, py), out.pixel(px as int, py as int)));
        }
    }
    out
}

/// Flip an image vertically: the pixel at `(x, y)` goes to
/// `(x, height - 1 - y)`.
pub fn flip_vertical<T: Copy>(image: &ImageBuf<T>, _width: u32, _height: u32) -> (out: ImageBuf<T>)
    requires
        image.wf(),
    ensures
        out.wf(),
        out.dims() == image.dims(),
        forall|x: int, y: int|
            0 <= x < image.dims().0 && 0 <= y < image.dims().1 ==> out.pixel(
                x,
                image.dims().1 - 1 - y,
            ) == #[trigger] image.pixel(x, y),
{
    let (width, height): (u32, u32) = image.dimensions();
    proof {
        image.lemma_wf_size();
    }
    let f = |x: u32, y: u32| -> (p: T)
        requires
            x < width && y < height,
        ensures
            p == image.pixel(x as int, height - 1 - y),
        { image.get_pixel(x, height - 1 - y) };
    let out: ImageBuf<T> = ImageBuf::from_fn(width, height, f);
    proof {
        assert forall|x: int, y: int|
            0 <= x < image.dims().0 && 0 <= y < image.dims().1 implies out.pixel(
            x,
            image.dims().1 - 1 - y,
        ) == #[trigger] image.pixel(x, y) by {
            let px: u32 = x as u32;
            let py: u32 = (height - 1 - y) as u32;
            assert(call_ensures(f, (px, py), out.pixel(px as int, py as int)));
        }
    }
    out
}

} // verus!
