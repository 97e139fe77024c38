//! Images as rectangles of pixels.

use vstd::prelude::*;

verus! {

/// A trait for manipulating images.
pub trait GenericImage<P>: Sized {
    /// The width and height of this image.
    spec fn dims(&self) -> (u32, u32);

    /// Where this image starts in the image it is a part of; `(0, 0)` for an
    /// image of its own.
    spec fn origin(&self) -> (u32, u32);

    /// The image has a pixel at `(x, y)`.
    spec fn holds(&self, x: int, y: int) -> bool;

    /// The pixel at `(x, y)`.
    spec fn pixel(&self, x: int, y: int) -> P;

    /// The width and height of this image.
    fn dimensions(&self) -> (d: (u32, u32))
        ensures
            d == self.dims(),
    ;

    /// The bounding rectangle of this image: where it starts, its width and
    /// its height.
    fn bounds(&self) -> (b: (u32, u32, u32, u32))
        ensures
            b == (self.origin().0, self.origin().1, self.dims().0, self.dims().1),
    ;

    /// Return the pixel located at `(x, y)`.
    fn get_pixel(&self, x: u32, y: u32) -> (p: P)
        requires
            self.holds(x as int, y as int),
        ensures
            p == self.pixel(x as int, y as int),
    ;

    /// Put a pixel at location `(x, y)`.
    fn put_pixel(&mut self, x: u32, y: u32, pixel: P)
        requires
            old(self).holds(x as int, y as int),
        ensures
            final(self).dims() == old(self).dims(),
            final(self).origin() == old(self).origin(),
            forall|i: int, j: int| #[trigger] final(self).holds(i, j) == old(self).holds(i, j),
            forall|i: int, j: int|
                old(self).holds(i, j) ==> #[trigger] final(self).pixel(i, j) == if i == x && j
                    == y {
                    pixel
                } else {
                    old(self).pixel(i, j)
                },
    ;

    /// Return a walk over the pixels of this image, row by row.
    fn pixels<'a>(&'a self) -> (p: Pixels<'a, Self>)
        ensures
            p.image == self,
            p.x == 0,
            p.y == 0,
            (p.width, p.height) == self.dims(),
    {
        let (width, height): (u32, u32) = self.dimensions();
        Pixels { image: self, x: 0, y: 0, width, height }
    }
}

/// A walk over the pixels of an image, row by row.
pub struct Pixels<'a, I> {
    pub image: &'a I,
    pub x: u32,
    pub y: u32,
    pub width: u32,
    pub height: u32,
}

impl<'a, I> Pixels<'a, I> {
    /// The place of the next pixel: the place the walk is at, or the start
    /// of the next row if that is past the end of a row.
    pub open spec fn place(&self) -> (int, int) {
        if self.x >= self.width {
            (0, self.y + 1)
        } else {
            (self.x as int, self.y as int)
        }
    }

    /// The place and the value of the next pixel, or `None` after the last.
    /// An image without columns has no pixels.
    pub fn next<P>(&mut self) -> (r: Option<(u32, u32, P)>) where I: GenericImage<P>
        requires
            forall|x: int, y: int|
                0 <= x < old(self).width && 0 <= y < old(self).height ==> old(self).image.holds(
                    x,
                    y,
                ),
        ensures
            final(self).image == old(self).image,
            final(self).width == old(self).width,
            final(self).height == old(self).height,
            ({
                let (x, y) = old(self).place();
                if y >= old(self).height || old(self).width == 0 {
                    r is None
                } else {
                    &&& r == Some((x as u32, y as u32, old(self).image.pixel(x, y)))
                    &&& final(self).x == x + 1
                    &&& final(self).y == y
                }
            }),
    {
        if self.width == 0 {
            return None;
        }
        if self.x >= self.width {
            if self.y >= self.height {
                return None;
            }
            self.x = 0;
            self.y += 1;
        }
        if self.y >= self.height {
            None
        } else {
            let pixel: P = self.image.get_pixel(self.x, self.y);
            let p = (self.x, self.y, pixel);
            self.x += 1;
            Some(p)
        }
    }
}

/// An image whose pixels are contained within a vector, row after row.
#[derive(Debug, Clone, PartialEq, Eq)]
pub struct ImageBuf<P> {
    pixels: Vec<P>,
    width: u32,
    height: u32,
}

impl<P: Copy> ImageBuf<P> {
    /// The pixels, row after row.
    pub closed spec fn view(&self) -> Seq<P> {
        self.pixels@
    }

    /// The width of the image.
    pub closed spec fn spec_width(&self) -> u32 {
        self.width
    }

    /// The height of the image.
    pub closed spec fn spec_height(&self) -> u32 {
        self.height
    }

    /// There are as many pixels as width and height ask for.
    pub open spec fn wf(&self) -> bool {
        self.view().len() == self.spec_width() * self.spec_height()
    }

    /// A well-formed image has no more pixels than a vector can hold.
    pub proof fn lemma_wf_size(&self)
        requires
            self.wf(),
        ensures
            self.spec_width() * self.spec_height() <= usize::MAX,
            self.spec_height() * self.spec_width() <= usize::MAX,
    {
        assert(self.pixels.len() <= usize::MAX);
        assert(self.spec_height() * self.spec_width() == self.spec_width() * self.spec_height())
            by (nonlinear_arith);
    }

    /// Construct a new ImageBuf with the specified width and height, every
    /// pixel the default pixel: a value that `P::default()` gives, and the
    /// same one at every place.
    pub fn new(width: u32, height: u32) -> (r: ImageBuf<P>) where P: Default
        requires
            width * height <= usize::MAX,
        ensures
            r.wf(),
            r.spec_width() == width,
            r.spec_height() == height,
            forall|i: int| 0 <= i < r@.len() ==> call_ensures(P::default, (), #[trigger] r@[i]),
    {
        let pixel: P = Default::default();
        ImageBuf::from_pixel(width, height, pixel)
    }

    /// Construct a new ImageBuf by repeated application of the supplied
    /// function. The arguments to the function are the pixel's x and y
    /// coordinates.
    pub fn from_fn<F: Fn(u32, u32) -> P>(width: u32, height: u32, f: F) -> (r: ImageBuf<P>)
        requires
            width * height <= usize::MAX,
            forall|x: u32, y: u32| x < width && y < height ==> call_requires(f, (x, y)),
        ensures
            r.wf(),
            r.spec_width() == width,
            r.spec_height() == height,
            forall|x: u32, y: u32|
                x < width && y < height ==> call_ensures(
                    f,
                    (x, y),
                    #[trigger] r.pixel(x as int, y as int),
                ),
    {
        let mut pixels: Vec<P> = Vec::new();
        let mut y: u32 = 0;
        while y < height
            invariant
                y <= height,
                width * height <= usize::MAX,
                pixels.len() == y * width,
                forall|x: u32, y: u32| x < width && y < height ==> call_requires(f, (x, y)),
                forall|i: u32, j: u32|
                    i < width && j < y ==> call_ensures(f, (i, j), #[trigger] pixels[j * width + i]),
            decreases height - y,
        {
            let mut x: u32 = 0;
            while x < width
                invariant
                    x <= width,
                    y < height,
                    pixels.len() == y * width + x,
                    forall|x: u32, y: u32| x < width && y < height ==> call_requires(f, (x, y)),
                    forall|i: u32, j: u32|
                        i < width && j < y ==> call_ensures(
                            f,
                            (i, j),
                            #[trigger] pixels[j * width + i],
                        ),
                    forall|i: u32| i < x ==> call_ensures(f, (i, y), #[trigger] pixels[y * width + i]),
                decreases width - x,
            {
                let ghost before = pixels@;
                let p: P = f(x, y);
                pixels.push(p);
                proof {
                    assert forall|i: u32, j: u32| i < width && j < y implies call_ensures(
                        f,
                        (i, j),
                        #[trigger] pixels[j * width + i],
                    ) by {
                        lemma_index_below(i as int, j as int, width as int, y as int);
                        assert(pixels[j * width + i] == before[j * width + i]);
                    }
                    assert forall|i: u32| i < x + 1 implies call_ensures(
                        f,
                        (i, y),
                        #[trigger] pixels[y * width + i],
                    ) by {
                        if i < x {
                            assert(pixels[y * width + i] == before[y * width + i]);
                        }
                    }
                }
                x += 1;
            }
            proof {
                assert((y + 1) * width == y * width + width) by (nonlinear_arith);
            }
            y += 1;
        }
        proof {
            assert(height * width == width * height) by (nonlinear_arith);
        }
        let r = ImageBuf { pixels, width, height };
        proof {
            assert forall|x: u32, y: u32| x < width && y < height implies call_ensures(
                f,
                (x, y),
                #[trigger] r.pixel(x as int, y as int),
            ) by {
                lemma_index_below(x as int, y as int, width as int, height as int);
                assert(call_ensures(f, (x, y), pixels[y * width + x]));
            }
        }
        r
    }

    /// Construct a new ImageBuf from a vector of pixels. It is well formed
    /// if the vector has `width * height` pixels.
    pub fn from_pixels(pixels: Vec<P>, width: u32, height: u32) -> (r: ImageBuf<P>)
        ensures
            r@ == pixels@,
            r.spec_width() == width,
            r.spec_height() == height,
    {
        ImageBuf { pixels, width, height }
    }

    /// Construct a new ImageBuf from a pixel.
    pub fn from_pixel(width: u32, height: u32, pixel: P) -> (r: ImageBuf<P>)
        requires
            width * height <= usize::MAX,
        ensures
            r.wf(),
            r.spec_width() == width,
            r.spec_height() == height,
            forall|i: int| 0 <= i < r@.len() ==> r@[i] == pixel,
    {
        proof {
            assert(0 <= width * height) by (nonlinear_arith)
                requires
                    0 <= width,
                    0 <= height,
            ;
        }
        let n: usize = width as usize * height as usize;
        let mut buf: Vec<P> = Vec::new();
        let mut i: usize = 0;
        while i < n
            invariant
                i <= n,
                buf.len() == i,
                forall|j: int| 0 <= j < i ==> buf[j] == pixel,
            decreases n - i,
        {
            buf.push(pixel);
            i += 1;
        }
        ImageBuf::from_pixels(buf, width, height)
    }

    /// Return an immutable reference to this image's pixel buffer.
    pub fn pixelbuf<'a>(&'a self) -> (r: &'a [P])
        ensures
            r@ == self@,
    {
        self.pixels.as_slice()
    }

    /// Return a mutable reference to this image's pixel buffer. The
    /// dimensions of the image stay what they are.
    pub fn mut_pixelbuf<'a>(&'a mut self) -> (r: &'a mut [P])
        ensures
            r@ == old(self)@,
            final(self)@ == final(r)@,
            final(self).spec_width() == old(self).spec_width(),
            final(self).spec_height() == old(self).spec_height(),
    {
        self.pixels.as_mut_slice()
    }

    /// The pixel at `coords`.
    pub fn index<'a>(&'a self, coords: &(u32, u32)) -> (p: &'a P)
        requires
            self.holds(coords.0 as int, coords.1 as int),
        ensures
            *p == self.pixel(coords.0 as int, coords.1 as int),
    {
        let (x, y): (u32, u32) = *coords;
        proof {
            assert(self.wf());
            assert(self.pixels.len() == self.width * self.height);
            lemma_index_below(x as int, y as int, self.width as int, self.height as int);
        }
        let index: usize = y as usize * self.width as usize + x as usize;
        &self.pixels[index]
    }
}

/// In a grid of `width` columns and `height` rows every place has an index
/// below `width * height`.
pub proof fn lemma_index_below(x: int, y: int, width: int, height: int)
    requires
        0 <= x < width,
        0 <= y < height,
    ensures
        0 <= y * width + x < width * height,
        y * width + x < height * width,
        0 <= y * width,
{
    assert(y * width + x < width * height && 0 <= y * width && width * height == height * width)
        by (nonlinear_arith)
        requires
            0 <= x < width,
            0 <= y < height,
    ;
}

impl<P: Copy> GenericImage<P> for ImageBuf<P> {
    open spec fn dims(&self) -> (u32, u32) {
        (self.spec_width(), self.spec_height())
    }

    open spec fn origin(&self) -> (u32, u32) {
        (0, 0)
    }

    open spec fn holds(&self, x: int, y: int) -> bool {
        self.wf() && 0 <= x < self.spec_width() && 0 <= y < self.spec_height()
    }

    open spec fn pixel(&self, x: int, y: int) -> P {
        self@[y * self.spec_width() + x]
    }

    fn dimensions(&self) -> (d: (u32, u32)) {
        (self.width, self.height)
    }

    fn bounds(&self) -> (b: (u32, u32, u32, u32)) {
        (0, 0, self.width, self.height)
    }

    fn get_pixel(&self, x: u32, y: u32) -> (p: P) {
        proof {
            assert(self.wf());
            assert(self.pixels.len() == self.width * self.height);
            lemma_index_below(x as int, y as int, self.width as int, self.height as int);
        }
        let index: usize = y as usize * self.width as usize + x as usize;
        self.pixels[index]
    }

    fn put_pixel(&mut self, x: u32, y: u32, pixel: P) {
        proof {
            assert(self.wf());
            assert(self.pixels.len() == self.width * self.height);
            lemma_index_below(x as int, y as int, self.width as int, self.height as int);
        }
        let index: usize = y as usize * self.width as usize + x as usize;
        self.pixels[index] = pixel;
        proof {
            assert forall|i: int, j: int| old(self).holds(i, j) implies #[trigger] self.pixel(i, j)
                == if i == x && j == y {
                pixel
            } else {
                old(self).pixel(i, j)
            } by {
                lemma_index_below(i, j, self.width as int, self.height as int);
                if !(i == x && j == y) {
                    lemma_index_differs(i, j, x as int, y as int, self.width as int);
                }
            }
        }
    }
}

/// Two places of a grid have the same index only if they are the same.
pub proof fn lemma_index_differs(x1: int, y1: int, x2: int, y2: int, width: int)
    requires
        0 <= x1 < width,
        0 <= x2 < width,
        0 <= y1,
        0 <= y2,
        x1 != x2 || y1 != y2,
    ensures
        y1 * width + x1 != y2 * width + x2,
{
    if y1 < y2 {
        assert(y2 * width >= (y1 + 1) * width) by (nonlinear_arith)
            requires
                y2 >= y1 + 1,
                width > 0,
        ;
        assert((y1 + 1) * width == y1 * width + width) by (nonlinear_arith);
    } else if y2 < y1 {
        assert(y1 * width >= (y2 + 1) * width) by (nonlinear_arith)
            requires
                y1 >= y2 + 1,
                width > 0,
        ;
        assert((y2 + 1) * width == y2 * width + width) by (nonlinear_arith);
    }
}


/// A view into another image: a rectangle of it, which starts at an offset
/// and has dimensions of its own.
pub struct SubImage<'a, I> {
    image: &'a mut I,
    xoffset: u32,
    yoffset: u32,
    xstride: u32,
    ystride: u32,
}

impl<'a, I> SubImage<'a, I> {
    /// The image this is a view into.
    pub closed spec fn inner(&self) -> I {
        *self.image
    }

    /// The rectangle: where it starts, its width and its height.
    pub closed spec fn rect(&self) -> (u32, u32, u32, u32) {
        (self.xoffset, self.yoffset, self.xstride, self.ystride)
    }

    /// Construct a new subimage.
    pub fn new(image: &'a mut I, x: u32, y: u32, width: u32, height: u32) -> (s: SubImage<'a, I>)
        ensures
            s.inner() == *old(image),
            s.rect() == (x, y, width, height),
    {
        SubImage { image, xoffset: x, yoffset: y, xstride: width, ystride: height }
    }

    /// Change the coordinates of this subimage.
    pub fn change_bounds(&mut self, x: u32, y: u32, width: u32, height: u32)
        ensures
            final(self).inner() == old(self).inner(),
            final(self).rect() == (x, y, width, height),
    {
        self.xoffset = x;
        self.yoffset = y;
        self.xstride = width;
        self.ystride = height;
    }

    /// Return a mutable reference to the wrapped image.
    pub fn mut_inner<'b>(&'b mut self) -> (r: &'b mut I)
        ensures
            *r == old(self).inner(),
            final(self).inner() == *final(r),
            final(self).rect() == old(self).rect(),
    {
        &mut *self.image
    }

    /// Convert this subimage to an ImageBuf.
    pub fn to_image<P: Copy + Default>(&self) -> (out: ImageBuf<P>) where I: GenericImage<P>
        requires
            self.rect().2 * self.rect().3 <= usize::MAX,
            forall|x: int, y: int|
                0 <= x < self.rect().2 && 0 <= y < self.rect().3 ==> self.holds(x, y),
        ensures
            out.wf(),
            out.dims() == (self.rect().2, self.rect().3),
            forall|x: int, y: int|
                0 <= x < self.rect().2 && 0 <= y < self.rect().3 ==> #[trigger] out.pixel(x, y)
                    == self.pixel(x, y),
    {
        let p: P = Default::default();
        let mut out: ImageBuf<P> = ImageBuf::from_pixel(self.xstride, self.ystride, p);
        let mut y: u32 = 0;
        while y < self.ystride
            invariant
                y <= self.ystride,
                out.wf(),
                out.dims() == (self.xstride, self.ystride),
                forall|x: int, y: int|
                    0 <= x < self.rect().2 && 0 <= y < self.rect().3 ==> self.holds(x, y),
                forall|i: int, j: int|
                    0 <= i < self.xstride && 0 <= j < y ==> #[trigger] out.pixel(i, j)
                        == self.pixel(i, j),
            decreases self.ystride - y,
        {
            let mut x: u32 = 0;
            while x < self.xstride
                invariant
                    x <= self.xstride,
                    y < self.ystride,
                    out.wf(),
                    out.dims() == (self.xstride, self.ystride),
                    forall|x: int, y: int|
                        0 <= x < self.rect().2 && 0 <= y < self.rect().3 ==> self.holds(x, y),
                    forall|i: int, j: int|
                        0 <= i < self.xstride && 0 <= j < y ==> #[trigger] out.pixel(i, j)
                            == self.pixel(i, j),
                    forall|i: int| 0 <= i < x ==> #[trigger] out.pixel(i, y as int) == self.pixel(
                        i,
                        y as int,
                    ),
                decreases self.xstride - x,
            {
                assert(self.holds(x as int, y as int));
                let p: P = self.get_pixel(x, y);
                let ghost before = out;
                out.put_pixel(x, y, p);
                proof {
                    assert(out.holds(x as int, y as int) == before.holds(x as int, y as int));
                    assert forall|i: int, j: int| 0 <= i < self.xstride && 0 <= j < y implies #[trigger] out.pixel(
                        i,
                        j,
                    ) == self.pixel(i, j) by {
                        assert(before.holds(i, j));
                    }
                    assert forall|i: int| 0 <= i < x + 1 implies #[trigger] out.pixel(i, y as int)
                        == self.pixel(i, y as int) by {
                        assert(before.holds(i, y as int));
                    }
                }
                x += 1;
            }
            y += 1;
        }
        out
    }
}

impl<'a, P: Copy, I: GenericImage<P>> GenericImage<P> for SubImage<'a, I> {
    open spec fn dims(&self) -> (u32, u32) {
        (self.rect().2, self.rect().3)
    }

    open spec fn origin(&self) -> (u32, u32) {
        (self.rect().0, self.rect().1)
    }

    open spec fn holds(&self, x: int, y: int) -> bool {
        &&& 0 <= x
        &&& 0 <= y
        &&& x + self.rect().0 <= u32::MAX
        &&& y + self.rect().1 <= u32::MAX
        &&& self.inner().holds(x + self.rect().0, y + self.rect().1)
    }

    open spec fn pixel(&self, x: int, y: int) -> P {
        self.inner().pixel(x + self.rect().0, y + self.rect().1)
    }

    fn dimensions(&self) -> (d: (u32, u32)) {
        (self.xstride, self.ystride)
    }

    fn bounds(&self) -> (b: (u32, u32, u32, u32)) {
        (self.xoffset, self.yoffset, self.xstride, self.ystride)
    }

    fn get_pixel(&self, x: u32, y: u32) -> (p: P) {
        self.image.get_pixel(x + self.xoffset, y + self.yoffset)
    }

    fn put_pixel(&mut self, x: u32, y: u32, pixel: P) {
        self.image.put_pixel(x + self.xoffset, y + self.yoffset, pixel)
    }
}

} // verus!
