use ril::error::{Error, ExpectedMode, Mismatch, ValueError};
use ril::image::Image;
use ril::pixels::{Mode, Pixel};
use ril::types::{OverlayMode, ResizeAlgorithm};

fn gradient(w: u32, h: u32) -> Image {
    let mut px = Vec::new();
    for y in 0..h {
        for x in 0..w {
            px.push(Pixel::from_rgb((x * 10) as u8, (y * 10) as u8, (x + y) as u8));
        }
    }
    Image::from_pixels(w, px).unwrap()
}

#[test]
fn new_fills_every_pixel() {
    let img = Image::new(3, 2, Pixel::from_l(9)).unwrap();
    assert_eq!(img.dimensions(), (3, 2));
    assert_eq!(img.mode(), Mode::L);
    assert_eq!(img.len(), 6);
    for y in 0..2 {
        for x in 0..3 {
            assert_eq!(img.get_pixel(x, y), Ok(Pixel::from_l(9)));
        }
    }
}

#[test]
fn new_rejects_zero_dimensions() {
    assert_eq!(Image::new(0, 3, Pixel::from_l(0)).err(), Some(Error::Value(ValueError::ZeroDimensions)));
    assert_eq!(Image::new(3, 0, Pixel::from_l(0)).err(), Some(Error::Value(ValueError::ZeroDimensions)));
}

#[test]
fn from_pixels_derives_height() {
    let img = gradient(4, 3);
    assert_eq!(img.dimensions(), (4, 3));
    assert_eq!(img.get_pixel(2, 1), Ok(Pixel::from_rgb(20, 10, 3)));
}

#[test]
fn from_pixels_rejects_bad_lists() {
    let px = vec![Pixel::from_l(1); 5];
    assert_eq!(Image::from_pixels(2, px).err(), Some(Error::Value(ValueError::PixelCountNotMultiple)));
    assert_eq!(Image::from_pixels(0, vec![Pixel::from_l(1)]).err(), Some(Error::Value(ValueError::ZeroDimensions)));
    let mixed = vec![Pixel::from_l(1), Pixel::from_rgb(1, 1, 1)];
    assert_eq!(
        Image::from_pixels(2, mixed).err(),
        Some(Error::FormatMismatch(Mismatch::Mode { expected: ExpectedMode::Exactly(Mode::L), got: Mode::Rgb }))
    );
}

#[test]
fn pixel_access_out_of_bounds_is_an_error() {
    let mut img = Image::new(2, 2, Pixel::from_l(0)).unwrap();
    assert_eq!(img.get_pixel(2, 0), Err(Error::Value(ValueError::OutOfBounds)));
    assert_eq!(img.set_pixel(0, 2, Pixel::from_l(1)), Err(Error::Value(ValueError::OutOfBounds)));
    assert_eq!(img.set_pixel(1, 1, Pixel::from_rgb(255, 255, 255)), Ok(()));
    assert_eq!(img.get_pixel(1, 1), Ok(Pixel::from_l(255)));
}

#[test]
fn crop_keeps_the_box() {
    let mut img = gradient(5, 4);
    img.crop(1, 1, 3, 4);
    assert_eq!(img.dimensions(), (2, 3));
    assert_eq!(img.get_pixel(0, 0), Ok(Pixel::from_rgb(10, 10, 2)));
    assert_eq!(img.get_pixel(1, 2), Ok(Pixel::from_rgb(20, 30, 5)));
}

#[test]
fn crop_clamps_to_the_image() {
    let mut img = gradient(3, 3);
    img.crop(2, 1, 10, 10);
    assert_eq!(img.dimensions(), (1, 2));
    assert_eq!(img.get_pixel(0, 0), Ok(Pixel::from_rgb(20, 10, 3)));
}

#[test]
fn mirror_and_flip_reverse_axes() {
    let mut img = gradient(3, 2);
    img.mirror();
    assert_eq!(img.get_pixel(0, 0), Ok(Pixel::from_rgb(20, 0, 2)));
    assert_eq!(img.get_pixel(2, 1), Ok(Pixel::from_rgb(0, 10, 1)));
    let mut img = gradient(3, 2);
    img.flip();
    assert_eq!(img.get_pixel(0, 0), Ok(Pixel::from_rgb(0, 10, 1)));
    assert_eq!(img.get_pixel(2, 1), Ok(Pixel::from_rgb(20, 0, 2)));
}

#[test]
fn invert_flips_values() {
    let mut img = Image::new(2, 1, Pixel::from_rgba(0, 10, 255, 40)).unwrap();
    img.invert();
    assert_eq!(img.get_pixel(1, 0), Ok(Pixel::from_rgba(255, 245, 0, 40)));
}

#[test]
fn paste_places_and_drops_outside() {
    let mut img = Image::new(3, 3, Pixel::from_rgb(0, 0, 0)).unwrap();
    let top = Image::new(2, 2, Pixel::from_rgb(9, 9, 9)).unwrap();
    assert_eq!(img.paste(2, 2, &top, None), Ok(()));
    assert_eq!(img.get_pixel(2, 2), Ok(Pixel::from_rgb(9, 9, 9)));
    assert_eq!(img.get_pixel(1, 1), Ok(Pixel::from_rgb(0, 0, 0)));
    assert_eq!(img.dimensions(), (3, 3));
}

#[test]
fn paste_with_mask_pastes_only_on_pixels() {
    let mut img = Image::new(2, 1, Pixel::from_l(0)).unwrap();
    let top = Image::new(2, 1, Pixel::from_l(200)).unwrap();
    let mask = Image::from_pixels(2, vec![Pixel::from_bitpixel(true), Pixel::from_bitpixel(false)]).unwrap();
    assert_eq!(img.paste(0, 0, &top, Some(&mask)), Ok(()));
    assert_eq!(img.get_pixel(0, 0), Ok(Pixel::from_l(200)));
    assert_eq!(img.get_pixel(1, 0), Ok(Pixel::from_l(0)));
}

#[test]
fn paste_with_non_bit_mask_fails() {
    let mut img = Image::new(2, 2, Pixel::from_l(0)).unwrap();
    let top = Image::new(2, 2, Pixel::from_l(200)).unwrap();
    let mask = Image::new(2, 2, Pixel::from_l(255)).unwrap();
    assert_eq!(
        img.paste(0, 0, &top, Some(&mask)),
        Err(Error::FormatMismatch(Mismatch::Mode { expected: ExpectedMode::Exactly(Mode::BitPixel), got: Mode::L }))
    );
    assert_eq!(img.get_pixel(0, 0), Ok(Pixel::from_l(0)));
}

#[test]
fn paste_merges_under_merge_mode() {
    let mut img = Image::new(1, 1, Pixel::from_rgba(0, 0, 0, 255)).unwrap();
    assert_eq!(img.overlay_mode(), OverlayMode::Merge);
    let top = Image::new(1, 1, Pixel::from_rgba(200, 0, 0, 128)).unwrap();
    img.paste(0, 0, &top, None).unwrap();
    assert_eq!(img.get_pixel(0, 0), Ok(Pixel::from_rgba(100, 0, 0, 255)));
    img.set_overlay_mode(OverlayMode::Replace);
    img.paste(0, 0, &top, None).unwrap();
    assert_eq!(img.get_pixel(0, 0), Ok(Pixel::from_rgba(200, 0, 0, 128)));
}

#[test]
fn mask_alpha_sets_alpha() {
    let mut img = Image::new(2, 1, Pixel::from_rgba(1, 2, 3, 255)).unwrap();
    let mask = Image::from_pixels(2, vec![Pixel::from_l(7), Pixel::from_l(0)]).unwrap();
    assert_eq!(img.mask_alpha(&mask), Ok(()));
    assert_eq!(img.get_pixel(0, 0), Ok(Pixel::from_rgba(1, 2, 3, 7)));
    assert_eq!(img.get_pixel(1, 0), Ok(Pixel::from_rgba(1, 2, 3, 0)));
}

#[test]
fn mask_alpha_rejects_wrong_masks() {
    let mut img = Image::new(2, 2, Pixel::from_rgba(1, 2, 3, 255)).unwrap();
    let rgb_mask = Image::new(2, 2, Pixel::from_rgb(1, 1, 1)).unwrap();
    assert_eq!(
        img.mask_alpha(&rgb_mask),
        Err(Error::FormatMismatch(Mismatch::Mode { expected: ExpectedMode::Exactly(Mode::L), got: Mode::Rgb }))
    );
    let small = Image::new(1, 2, Pixel::from_l(1)).unwrap();
    assert_eq!(
        img.mask_alpha(&small),
        Err(Error::FormatMismatch(Mismatch::Dimensions { expected_width: 2, expected_height: 2, width: 1, height: 2 }))
    );
    let mut rgb = Image::new(2, 2, Pixel::from_rgb(1, 2, 3)).unwrap();
    let mask = Image::new(2, 2, Pixel::from_l(1)).unwrap();
    assert_eq!(
        rgb.mask_alpha(&mask),
        Err(Error::FormatMismatch(Mismatch::Mode { expected: ExpectedMode::Exactly(Mode::Rgba), got: Mode::Rgb }))
    );
}

#[test]
fn bands_of_rgb_round_trip() {
    let img = gradient(3, 2);
    let bands = img.bands().unwrap();
    assert_eq!(bands.len(), 3);
    assert_eq!(bands[1].get_pixel(2, 1), Ok(Pixel::from_l(10)));
    let back = Image::from_bands(&bands).unwrap();
    assert_eq!(back.mode(), Mode::Rgb);
    assert_eq!(back.dimensions(), img.dimensions());
    assert_eq!(back.pixels, img.pixels);
}

#[test]
fn bands_of_rgba_round_trip() {
    let px = vec![Pixel::from_rgba(1, 2, 3, 4), Pixel::from_rgba(5, 6, 7, 8)];
    let img = Image::from_pixels(1, px).unwrap();
    let bands = img.bands().unwrap();
    assert_eq!(bands.len(), 4);
    assert_eq!(bands[3].get_pixel(0, 1), Ok(Pixel::from_l(8)));
    let back = Image::from_bands(&bands).unwrap();
    assert_eq!(back.mode(), Mode::Rgba);
    assert_eq!(back.pixels, img.pixels);
}

#[test]
fn bands_and_from_bands_reject_bad_input() {
    let img = Image::new(1, 1, Pixel::from_l(3)).unwrap();
    assert_eq!(
        img.bands().err(),
        Some(Error::FormatMismatch(Mismatch::Mode { expected: ExpectedMode::Color, got: Mode::L }))
    );
    let two = vec![img.duplicate(), img.duplicate()];
    assert_eq!(Image::from_bands(&two).err(), Some(Error::Value(ValueError::BandCount)));
    let rgb = Image::new(1, 1, Pixel::from_rgb(1, 1, 1)).unwrap();
    let bad = vec![img.duplicate(), rgb, img.duplicate()];
    assert_eq!(
        Image::from_bands(&bad).err(),
        Some(Error::FormatMismatch(Mismatch::Mode { expected: ExpectedMode::Exactly(Mode::L), got: Mode::Rgb }))
    );
}

#[test]
fn resize_back_restores_dimensions() {
    let algs = [
        ResizeAlgorithm::Nearest,
        ResizeAlgorithm::Box,
        ResizeAlgorithm::Bilinear,
        ResizeAlgorithm::Hamming,
        ResizeAlgorithm::Bicubic,
        ResizeAlgorithm::Mitchell,
        ResizeAlgorithm::Lanczos3,
    ];
    for alg in algs {
        let mut img = gradient(5, 4);
        img.resize(9, 2, alg).unwrap();
        assert_eq!(img.dimensions(), (9, 2));
        assert_eq!(img.mode(), Mode::Rgb);
        img.resize(5, 4, alg).unwrap();
        assert_eq!(img.dimensions(), (5, 4));
        assert_eq!(img.len(), 20);
    }
}

#[test]
fn resize_nearest_doubles_pixels() {
    let mut img = Image::from_pixels(2, vec![Pixel::from_l(10), Pixel::from_l(20)]).unwrap();
    img.resize(4, 2, ResizeAlgorithm::Nearest).unwrap();
    assert_eq!(img.get_pixel(0, 0), Ok(Pixel::from_l(10)));
    assert_eq!(img.get_pixel(1, 1), Ok(Pixel::from_l(10)));
    assert_eq!(img.get_pixel(2, 0), Ok(Pixel::from_l(20)));
    assert_eq!(img.get_pixel(3, 1), Ok(Pixel::from_l(20)));
}

#[test]
fn resize_keeps_uniform_images_uniform() {
    let algs = [
        ResizeAlgorithm::Nearest,
        ResizeAlgorithm::Box,
        ResizeAlgorithm::Bilinear,
        ResizeAlgorithm::Hamming,
        ResizeAlgorithm::Bicubic,
        ResizeAlgorithm::Mitchell,
        ResizeAlgorithm::Lanczos3,
    ];
    let fills = [
        Pixel::from_rgb(100, 150, 200),
        Pixel::from_rgba(1, 2, 3, 4),
        Pixel::from_l(77),
        Pixel::from_bitpixel(true),
    ];
    for alg in algs {
        for fill in fills {
            let mut img = Image::new(4, 4, fill).unwrap();
            img.resize(3, 7, alg).unwrap();
            for y in 0..7 {
                for x in 0..3 {
                    assert_eq!(img.get_pixel(x, y), Ok(fill));
                }
            }
        }
    }
}

#[test]
fn resize_bilinear_blends_neighbours() {
    let mut img = Image::from_pixels(2, vec![Pixel::from_l(0), Pixel::from_l(200)]).unwrap();
    img.resize(4, 1, ResizeAlgorithm::Bilinear).unwrap();
    let row: Vec<Pixel> = (0..4).map(|x| img.get_pixel(x, 0).unwrap()).collect();
    // Output centers fall at 0.25, 0.75, 1.25 and 1.75 source pixels; the
    // middle two mix the neighbours 3:1 and 1:3.
    assert_eq!(row, vec![Pixel::from_l(0), Pixel::from_l(50), Pixel::from_l(150), Pixel::from_l(200)]);
}

#[test]
fn resize_rejects_zero_target() {
    let mut img = gradient(2, 2);
    assert_eq!(img.resize(0, 3, ResizeAlgorithm::Bilinear), Err(Error::Value(ValueError::ZeroDimensions)));
    assert_eq!(img.dimensions(), (2, 2));
}

#[test]
fn rows_list_pixels_by_row() {
    let img = gradient(3, 2);
    let rows = img.rows();
    assert_eq!(rows.len(), 2);
    assert_eq!(rows[0].len(), 3);
    assert_eq!(rows[1][2], Pixel::from_rgb(20, 10, 3));
}

#[test]
fn from_bands_reports_the_first_band_that_is_not_luminance() {
    let small = Image::new(1, 1, Pixel::from_l(3)).unwrap();
    let large = Image::new(2, 2, Pixel::from_l(3)).unwrap();
    let rgba = Image::new(1, 1, Pixel::from_rgba(1, 1, 1, 1)).unwrap();
    let bands = vec![small.duplicate(), large.duplicate(), rgba];
    assert_eq!(
        Image::from_bands(&bands).err(),
        Some(Error::FormatMismatch(Mismatch::Mode { expected: ExpectedMode::Exactly(Mode::L), got: Mode::Rgba }))
    );
    let sized = vec![small.duplicate(), large, small];
    assert_eq!(
        Image::from_bands(&sized).err(),
        Some(Error::FormatMismatch(Mismatch::Dimensions { expected_width: 1, expected_height: 1, width: 2, height: 2 }))
    );
}
