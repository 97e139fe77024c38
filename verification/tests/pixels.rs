use image::colortype::ColorType;
use image::dynimage::{image_to_bytes, DynamicImage, Image};
use image::error::{ImageError, ImageFormat};
use image::image::{GenericImage, ImageBuf, SubImage};
use image::imaging::affine::{flip_horizontal, flip_vertical, rotate180, rotate270, rotate90};
use image::pixels::{
    brighten, clamp, grayscale, invert, luminance_of, Luma, LumaA, Pixel, PixelBuf,
    subtract_pixels, PixelBufMutSlice, PixelBufSlice, Rgb, Rgba,
};

#[test]
fn channels_of_pixels() {
    assert_eq!(Luma(7u8).channel(), 7);
    assert_eq!(LumaA(7u8, 9).channels(), (7, 9));
    assert_eq!(LumaA(7u8, 9).alpha(), 9);
    assert_eq!(Rgb(1u8, 2, 3).channels(), (1, 2, 3));
    assert_eq!(Rgba(1u8, 2, 3, 4).channels(), (1, 2, 3, 4));
    assert_eq!(Rgba(1u8, 2, 3, 4).alpha(), 4);
    assert_eq!(Rgb(1u16, 2, 3).channels(), (1, 2, 3));
}

#[test]
fn conversions_between_pixels() {
    let p = Rgb(10u8, 200, 30);
    assert_eq!(p.to_rgb(), p);
    assert_eq!(p.to_rgba(), Rgba(10, 200, 30, 255));
    assert_eq!(p.to_luma(), Luma(147));
    assert_eq!(p.to_luma_alpha(), LumaA(147, 255));
    assert_eq!(p.channels4(), (10, 200, 30, 255));
    assert_eq!(p.from_channels(1, 2, 3, 4), Rgb(1, 2, 3));
    let q = Rgba(10u8, 200, 30, 77);
    assert_eq!(q.to_rgb(), p);
    assert_eq!(q.to_rgba(), q);
    assert_eq!(q.to_luma(), Luma(147));
    assert_eq!(q.to_luma_alpha(), LumaA(147, 77));
    assert_eq!(q.channels4(), (10, 200, 30, 77));
    assert_eq!(q.from_channels(1, 2, 3, 4), Rgba(1, 2, 3, 4));
    let l = Luma(5u8);
    assert_eq!(l.to_rgb(), Rgb(5, 5, 5));
    assert_eq!(l.to_rgba(), Rgba(5, 5, 5, 255));
    assert_eq!(l.to_luma(), l);
    assert_eq!(l.to_luma_alpha(), LumaA(5, 255));
    assert_eq!(l.channels4(), (5, 255, 255, 255));
    assert_eq!(l.from_channels(1, 2, 3, 4), Luma(1));
    let la = LumaA(5u8, 6);
    assert_eq!(la.to_rgb(), Rgb(5, 5, 5));
    assert_eq!(la.to_rgba(), Rgba(5, 5, 5, 6));
    assert_eq!(la.to_luma(), Luma(5));
    assert_eq!(la.to_luma_alpha(), la);
    assert_eq!(la.channels4(), (5, 6, 255, 255));
    assert_eq!(la.from_channels(1, 2, 3, 4), LumaA(1, 2));
}

#[test]
fn luminance_is_rounded_down() {
    assert_eq!(luminance_of(0, 0, 0), 0);
    assert_eq!(luminance_of(255, 255, 255), 255);
    assert_eq!(luminance_of(255, 0, 0), 54);
    assert_eq!(luminance_of(0, 255, 0), 182);
    assert_eq!(luminance_of(0, 0, 255), 18);
    assert_eq!(luminance_of(10, 200, 30), 147);
}

#[test]
fn invert_and_map_pixels() {
    let mut p = Rgba(0u8, 100, 255, 9);
    p.invert();
    assert_eq!(p, Rgba(255, 155, 0, 9));
    let mut l = LumaA(1u8, 2);
    l.invert();
    assert_eq!(l, LumaA(254, 2));
    let mut g = Luma(200u8);
    g.invert();
    assert_eq!(g, Luma(55));
    let mut c = Rgb(1u8, 2, 3);
    c.invert();
    assert_eq!(c, Rgb(254, 253, 252));
    assert_eq!(Rgba(1u8, 2, 3, 4).map(|v| v * 2), Rgba(2, 4, 6, 4));
    assert_eq!(Rgb(1u8, 2, 3).map(|v| v + 1), Rgb(2, 3, 4));
    assert_eq!(Luma(1u8).map(|v| v + 1), Luma(2));
    assert_eq!(LumaA(1u8, 2).map(|v| v + 1), LumaA(2, 2));
    assert_eq!(Rgba(1u8, 2, 3, 4).map2(Rgba(10, 20, 30, 40), |a, b| a + b), Rgba(11, 22, 33, 4));
    assert_eq!(Rgb(1u8, 2, 3).map2(Rgb(10, 20, 30), |a, b| b - a), Rgb(9, 18, 27));
    assert_eq!(Luma(1u8).map2(Luma(10), |a, b| a + b), Luma(11));
    assert_eq!(LumaA(1u8, 2).map2(LumaA(10, 20), |a, b| a + b), LumaA(11, 2));
}

#[test]
fn pixel_buffers_from_and_to_bytes() {
    let bytes: Vec<u8> = (1..=12).collect();
    let rgb = PixelBuf::from_bytes(bytes.clone(), ColorType::RGB(8)).unwrap();
    assert_eq!(
        rgb,
        PixelBuf::Rgb8(vec![Rgb(1, 2, 3), Rgb(4, 5, 6), Rgb(7, 8, 9), Rgb(10, 11, 12)])
    );
    assert_eq!(rgb.to_bytes(), bytes);
    let rgba = PixelBuf::from_bytes(bytes.clone(), ColorType::RGBA(8)).unwrap();
    assert_eq!(
        rgba,
        PixelBuf::Rgba8(vec![Rgba(1, 2, 3, 4), Rgba(5, 6, 7, 8), Rgba(9, 10, 11, 12)])
    );
    assert_eq!(rgba.to_bytes(), bytes);
    let la = PixelBuf::from_bytes(bytes.clone(), ColorType::GreyA(8)).unwrap();
    assert_eq!(la.as_luma_alpha8().unwrap()[5], LumaA(11, 12));
    assert_eq!(la.to_bytes(), bytes);
    let l = PixelBuf::from_bytes(bytes.clone(), ColorType::Grey(8)).unwrap();
    assert_eq!(l.as_luma8().unwrap().len(), 12);
    assert_eq!(l.to_bytes(), bytes);
    assert_eq!(PixelBuf::from_bytes(vec![], ColorType::RGB(8)), Some(PixelBuf::Rgb8(vec![])));
}

#[test]
fn pixel_buffers_that_cannot_be_made() {
    assert_eq!(PixelBuf::from_bytes(vec![1, 2, 3, 4], ColorType::RGB(8)), None);
    assert_eq!(PixelBuf::from_bytes(vec![1, 2, 3], ColorType::RGBA(8)), None);
    assert_eq!(PixelBuf::from_bytes(vec![1], ColorType::GreyA(8)), None);
    assert_eq!(PixelBuf::from_bytes(vec![1, 2, 3], ColorType::RGB(16)), None);
    assert_eq!(PixelBuf::from_bytes(vec![1, 2, 3], ColorType::Palette(8)), None);
    assert_eq!(PixelBuf::from_bytes(vec![1, 2, 3], ColorType::Grey(1)), None);
}

#[test]
fn views_of_a_pixel_buffer() {
    let p = PixelBuf::Rgb8(vec![Rgb(1, 2, 3)]);
    assert_eq!(p.as_rgb8(), Some(&[Rgb(1u8, 2, 3)][..]));
    assert!(p.as_rgba8().is_none());
    assert!(p.as_luma8().is_none());
    assert!(p.as_luma_alpha8().is_none());
    assert!(matches!(p.as_slice(), PixelBufSlice::Rgb8Slice(s) if s.len() == 1));
    let q = PixelBuf::Rgba8(vec![Rgba(1, 2, 3, 4)]);
    assert_eq!(q.as_rgba8(), Some(&[Rgba(1u8, 2, 3, 4)][..]));
    assert!(matches!(q.as_slice(), PixelBufSlice::Rgba8Slice(_)));
    assert!(matches!(PixelBuf::Luma8(vec![]).as_slice(), PixelBufSlice::Luma8Slice(_)));
    assert!(matches!(PixelBuf::LumaA8(vec![]).as_slice(), PixelBufSlice::LumaA8Slice(_)));
}

#[test]
fn changing_a_pixel_buffer_in_place() {
    let mut p = PixelBuf::Rgb8(vec![Rgb(1, 2, 3), Rgb(4, 5, 6)]);
    match p.as_mut_slice() {
        PixelBufMutSlice::Rgb8MutSlice(s) => s[1] = Rgb(7, 8, 9),
        _ => panic!("not RGB"),
    }
    assert_eq!(p, PixelBuf::Rgb8(vec![Rgb(1, 2, 3), Rgb(7, 8, 9)]));
    let mut q = PixelBuf::LumaA8(vec![LumaA(1, 2)]);
    assert!(matches!(q.as_mut_slice(), PixelBufMutSlice::LumaA8MutSlice(_)));
    let mut q = PixelBuf::Luma8(vec![Luma(1)]);
    assert!(matches!(q.as_mut_slice(), PixelBufMutSlice::Luma8MutSlice(_)));
    let mut q = PixelBuf::Rgba8(vec![]);
    assert!(matches!(q.as_mut_slice(), PixelBufMutSlice::Rgba8MutSlice(_)));
}

#[test]
fn grayscale_invert_brighten() {
    let p = PixelBuf::Rgba8(vec![Rgba(10, 200, 30, 7), Rgba(255, 255, 255, 0)]);
    assert_eq!(grayscale(&p), PixelBuf::Luma8(vec![Luma(147), Luma(255)]));
    assert_eq!(
        grayscale(&PixelBuf::LumaA8(vec![LumaA(3, 4)])),
        PixelBuf::Luma8(vec![Luma(3)])
    );
    assert_eq!(grayscale(&PixelBuf::Luma8(vec![Luma(3)])), PixelBuf::Luma8(vec![Luma(3)]));
    assert_eq!(
        grayscale(&PixelBuf::Rgb8(vec![Rgb(255, 0, 0)])),
        PixelBuf::Luma8(vec![Luma(54)])
    );
    let mut q = p.clone();
    invert(&mut q);
    assert_eq!(q, PixelBuf::Rgba8(vec![Rgba(245, 55, 225, 7), Rgba(0, 0, 0, 0)]));
    invert(&mut q);
    assert_eq!(q, p);
    assert_eq!(
        brighten(&p, 50),
        PixelBuf::Rgba8(vec![Rgba(60, 250, 80, 7), Rgba(255, 255, 255, 0)])
    );
    assert_eq!(
        brighten(&p, -20),
        PixelBuf::Rgba8(vec![Rgba(0, 180, 10, 7), Rgba(235, 235, 235, 0)])
    );
    assert_eq!(
        brighten(&PixelBuf::LumaA8(vec![LumaA(250, 250)]), 10),
        PixelBuf::LumaA8(vec![LumaA(255, 250)])
    );
    assert_eq!(
        brighten(&PixelBuf::Luma8(vec![Luma(5)]), i32::MIN),
        PixelBuf::Luma8(vec![Luma(0)])
    );
    assert_eq!(
        brighten(&PixelBuf::Rgb8(vec![Rgb(5, 6, 7)]), i32::MAX),
        PixelBuf::Rgb8(vec![Rgb(255, 255, 255)])
    );
}

#[test]
fn sharpening_against_blurred_pixels() {
    let pixels = [Rgba(100u8, 100, 250, 1), Rgba(10, 20, 30, 2), Rgba(0, 0, 0, 3)];
    let mut blurred = [Rgba(90u8, 104, 200, 9), Rgba(10, 50, 31, 9)];
    subtract_pixels(&pixels, &mut blurred, 5);
    // differences 10, 4, 50 and 0, 30, 1 against a threshold of 5
    assert_eq!(blurred, [Rgba(110, 100, 255, 1), Rgba(10, 50, 30, 2)]);
    let mut longer = [Luma(0u8), Luma(7), Luma(9)];
    subtract_pixels(&[Luma(10u8)], &mut longer, 0);
    assert_eq!(longer, [Luma(20), Luma(7), Luma(9)]);
    let mut same = [LumaA(3u8, 4)];
    subtract_pixels(&[LumaA(200u8, 5)], &mut same, -1);
    assert_eq!(same, [LumaA(255, 5)]);
    subtract_pixels(&[LumaA(200u8, 5)], &mut same, i32::MAX);
    assert_eq!(same, [LumaA(200, 5)]);
}

#[test]
fn clamp_keeps_a_value_in_its_range() {
    assert_eq!(clamp(5, 0, 10), 5);
    assert_eq!(clamp(-5, 0, 10), 0);
    assert_eq!(clamp(50, 0, 10), 10);
    assert_eq!(clamp(0, 0, 10), 0);
    assert_eq!(clamp(10, 0, 10), 10);
}

fn numbered(width: u32, height: u32) -> ImageBuf<Luma<u8>> {
    ImageBuf::from_fn(width, height, |x, y| Luma((10 * y + x) as u8))
}

#[test]
fn image_buffers() {
    let im = numbered(3, 2);
    assert_eq!(im.dimensions(), (3, 2));
    assert_eq!(im.bounds(), (0, 0, 3, 2));
    assert_eq!(
        im.pixelbuf(),
        &[Luma(0u8), Luma(1), Luma(2), Luma(10), Luma(11), Luma(12)][..]
    );
    assert_eq!(im.get_pixel(2, 1), Luma(12));
    assert_eq!(*im.index(&(1, 1)), Luma(11));
    let mut im = im;
    im.put_pixel(0, 1, Luma(99));
    assert_eq!(im.get_pixel(0, 1), Luma(99));
    assert_eq!(im.get_pixel(1, 1), Luma(11));
    im.mut_pixelbuf()[0] = Luma(50);
    assert_eq!(im.get_pixel(0, 0), Luma(50));
    let filled: ImageBuf<Rgb<u8>> = ImageBuf::from_pixel(2, 2, Rgb(1, 2, 3));
    assert_eq!(filled.pixelbuf(), &[Rgb(1u8, 2, 3); 4][..]);
    let made = ImageBuf::from_pixels(vec![Luma(1u8), Luma(2)], 2, 1);
    assert_eq!(made.get_pixel(1, 0), Luma(2));
    let empty: ImageBuf<Luma<u8>> = ImageBuf::from_pixel(0, 5, Luma(0));
    assert_eq!(empty.pixelbuf().len(), 0);
    let blank: ImageBuf<Rgba<u8>> = ImageBuf::new(2, 1);
    assert_eq!(blank.pixelbuf(), &[Rgba(0u8, 0, 0, 0); 2][..]);
    assert_eq!(blank.dimensions(), (2, 1));
}

#[test]
fn walk_over_the_pixels() {
    let im = numbered(2, 2);
    let mut walk = im.pixels();
    assert_eq!(walk.next(), Some((0, 0, Luma(0))));
    assert_eq!(walk.next(), Some((1, 0, Luma(1))));
    assert_eq!(walk.next(), Some((0, 1, Luma(10))));
    assert_eq!(walk.next(), Some((1, 1, Luma(11))));
    assert_eq!(walk.next(), None);
    assert_eq!(walk.next(), None);
    let empty: ImageBuf<Luma<u8>> = ImageBuf::from_pixel(0, 3, Luma(0));
    let mut walk = empty.pixels();
    assert_eq!(walk.next(), None);
}

#[test]
fn sub_images() {
    let mut im = numbered(4, 3);
    let mut sub = SubImage::new(&mut im, 1, 1, 2, 2);
    assert_eq!(sub.dimensions(), (2, 2));
    assert_eq!(sub.bounds(), (1, 1, 2, 2));
    assert_eq!(sub.get_pixel(0, 0), Luma(11));
    assert_eq!(sub.get_pixel(1, 1), Luma(22));
    sub.put_pixel(1, 0, Luma(77));
    let copy: ImageBuf<Luma<u8>> = sub.to_image();
    assert_eq!(copy.dimensions(), (2, 2));
    assert_eq!(copy.pixelbuf(), &[Luma(11u8), Luma(77), Luma(21), Luma(22)][..]);
    sub.change_bounds(0, 0, 1, 1);
    assert_eq!(sub.bounds(), (0, 0, 1, 1));
    assert_eq!(sub.get_pixel(0, 0), Luma(0));
    sub.mut_inner().put_pixel(0, 0, Luma(5));
    assert_eq!(sub.get_pixel(0, 0), Luma(5));
    assert_eq!(im.get_pixel(2, 1), Luma(77));
    assert_eq!(im.get_pixel(0, 0), Luma(5));
}

#[test]
fn rotations_and_flips() {
    // 0  1  2
    // 10 11 12
    let im = numbered(3, 2);
    let r = rotate90(&im, 0, 0);
    assert_eq!(r.dimensions(), (2, 3));
    assert_eq!(
        r.pixelbuf(),
        &[Luma(10u8), Luma(0), Luma(11), Luma(1), Luma(12), Luma(2)][..]
    );
    let r = rotate180(&im, 0, 0);
    assert_eq!(r.dimensions(), (3, 2));
    assert_eq!(
        r.pixelbuf(),
        &[Luma(12u8), Luma(11), Luma(10), Luma(2), Luma(1), Luma(0)][..]
    );
    let r = rotate270(&im, 0, 0);
    assert_eq!(r.dimensions(), (2, 3));
    assert_eq!(
        r.pixelbuf(),
        &[Luma(2u8), Luma(12), Luma(1), Luma(11), Luma(0), Luma(10)][..]
    );
    let r = flip_horizontal(&im, 0, 0);
    assert_eq!(r.dimensions(), (3, 2));
    assert_eq!(
        r.pixelbuf(),
        &[Luma(2u8), Luma(1), Luma(0), Luma(12), Luma(11), Luma(10)][..]
    );
    let r = flip_vertical(&im, 0, 0);
    assert_eq!(
        r.pixelbuf(),
        &[Luma(10u8), Luma(11), Luma(12), Luma(0), Luma(1), Luma(2)][..]
    );
    assert_eq!(rotate90(&rotate270(&im, 0, 0), 0, 0), im);
    assert_eq!(rotate180(&rotate180(&im, 0, 0), 0, 0), im);
    assert_eq!(flip_vertical(&flip_vertical(&im, 0, 0), 0, 0), im);
}

#[test]
fn dynamic_images() {
    let rgb = DynamicImage::ImageRgb8(ImageBuf::from_pixels(
        vec![Rgb(10u8, 200, 30), Rgb(0, 0, 0)],
        2,
        1,
    ));
    assert_eq!(rgb.dimensions(), (2, 1));
    assert_eq!(rgb.color(), ColorType::RGB(8));
    assert_eq!(rgb.raw_pixels(), vec![10, 200, 30, 0, 0, 0]);
    assert_eq!(image_to_bytes(&rgb), vec![10, 200, 30, 0, 0, 0]);
    assert!(rgb.as_rgb8().is_some());
    assert!(rgb.as_rgba8().is_none());
    assert!(rgb.as_luma8().is_none());
    assert!(rgb.as_luma_alpha8().is_none());
    let gray = rgb.grayscale();
    assert_eq!(gray.color(), ColorType::Grey(8));
    assert_eq!(gray.raw_pixels(), vec![147, 0]);
    assert_eq!(gray.dimensions(), (2, 1));
    let mut inv = rgb.clone();
    inv.invert();
    assert_eq!(inv.raw_pixels(), vec![245, 55, 225, 255, 255, 255]);
    assert_eq!(rgb.brighten(100).raw_pixels(), vec![110, 255, 130, 100, 100, 100]);
    assert_eq!(rgb.fliph().raw_pixels(), vec![0, 0, 0, 10, 200, 30]);
    assert_eq!(rgb.flipv().raw_pixels(), vec![10, 200, 30, 0, 0, 0]);
    assert_eq!(rgb.rotate90().dimensions(), (1, 2));
    assert_eq!(rgb.rotate90().raw_pixels(), vec![10, 200, 30, 0, 0, 0]);
    assert_eq!(rgb.rotate180().raw_pixels(), vec![0, 0, 0, 10, 200, 30]);
    assert_eq!(rgb.rotate270().raw_pixels(), vec![0, 0, 0, 10, 200, 30]);
    let mut m = rgb.clone();
    m.as_mut_rgb8().unwrap().put_pixel(1, 0, Rgb(1, 2, 3));
    assert_eq!(m.raw_pixels(), vec![10, 200, 30, 1, 2, 3]);
    assert!(m.as_mut_luma8().is_none());
    assert!(m.as_mut_rgba8().is_none());
    assert!(m.as_mut_luma_alpha8().is_none());
    let la = DynamicImage::ImageLumaA8(ImageBuf::from_pixels(vec![LumaA(9u8, 8)], 1, 1));
    assert_eq!(la.color(), ColorType::GreyA(8));
    assert_eq!(la.raw_pixels(), vec![9, 8]);
    let rgba = DynamicImage::ImageRgba8(ImageBuf::from_pixels(vec![Rgba(1u8, 2, 3, 4)], 1, 1));
    assert_eq!(rgba.color(), ColorType::RGBA(8));
    assert_eq!(rgba.raw_pixels(), vec![1, 2, 3, 4]);
}

#[test]
fn saving_a_dynamic_image() {
    let im = DynamicImage::ImageLuma8(ImageBuf::from_pixel(8, 8, Luma(0)));
    let mut out = vec![42u8];
    assert_eq!(im.save(&mut out, ImageFormat::JPEG), Ok(()));
    assert_eq!(out.len(), 1 + 332);
    assert_eq!(&out[..3], &[42, 0xFF, 0xD8]);
    assert_eq!(&out[out.len() - 4..], &[0xF3, 0xFA, 0xFF, 0xD9]);
    for format in [ImageFormat::PNG, ImageFormat::GIF, ImageFormat::WEBP, ImageFormat::PPM] {
        let mut out = vec![42u8];
        assert_eq!(im.save(&mut out, format), Err(ImageError::UnsupportedError));
        assert_eq!(out, vec![42]);
    }
}

#[test]
fn images_of_pixel_buffers() {
    let im = Image::new(PixelBuf::Rgb8(vec![Rgb(128, 128, 128); 64]), 8, 8);
    assert_eq!(im.dimensions(), (8, 8));
    assert_eq!(im.colortype(), ColorType::RGB(8));
    assert_eq!(im.raw_pixels(), vec![128; 192]);
    let g = im.grayscale();
    assert_eq!(g.colortype(), ColorType::Grey(8));
    assert_eq!(g.dimensions(), (8, 8));
    assert_eq!(g.raw_pixels(), vec![128; 64]);
    let mut out = Vec::new();
    assert_eq!(im.save(&mut out, ImageFormat::JPEG), Ok(()));
    assert_eq!(out.len(), 627);
    assert_eq!(im.save(&mut out, ImageFormat::PNG), Err(ImageError::UnsupportedError));
    assert_eq!(out.len(), 627);
    let big = Image::new(PixelBuf::Luma8(vec![]), 70000, 1);
    assert_eq!(big.save(&mut out, ImageFormat::JPEG), Err(ImageError::DimensionError));
}
