use ril::pixels::{blend, BitPixel, Mode, Pixel, Rgb, Rgba, L};
use ril::types::OverlayMode;

#[test]
fn rgb_to_rgba_and_back_keeps_channels() {
    let p = Pixel::from_rgb(10, 20, 30);
    let up = p.convert(Mode::Rgba);
    assert_eq!(up, Pixel::from_rgba(10, 20, 30, 255));
    assert_eq!(up.convert(Mode::Rgb), p);
}

#[test]
fn opaque_rgba_to_rgb_and_back_keeps_channels() {
    let p = Pixel::from_rgba(1, 2, 3, 255);
    assert_eq!(p.convert(Mode::Rgb).convert(Mode::Rgba), p);
}

#[test]
fn luminance_round_trips_through_color() {
    for v in [0u8, 1, 77, 128, 254, 255] {
        let p = Pixel::from_l(v);
        assert_eq!(p.convert(Mode::Rgb).convert(Mode::L), p);
        assert_eq!(p.convert(Mode::Rgba).convert(Mode::L), p);
    }
}

#[test]
fn bit_round_trips_through_every_format() {
    for b in [false, true] {
        let p = Pixel::from_bitpixel(b);
        for m in [Mode::L, Mode::Rgb, Mode::Rgba, Mode::BitPixel] {
            assert_eq!(p.convert(m).convert(Mode::BitPixel), p);
        }
    }
}

#[test]
fn bit_maps_to_channel_extremes() {
    assert_eq!(Pixel::from_bitpixel(true).convert(Mode::L), Pixel::from_l(255));
    assert_eq!(Pixel::from_bitpixel(false).convert(Mode::Rgb), Pixel::from_rgb(0, 0, 0));
    assert_eq!(Pixel::from_bitpixel(true).convert(Mode::Rgba), Pixel::from_rgba(255, 255, 255, 255));
}

#[test]
fn color_to_luminance_uses_weights() {
    // (299 * 255 + 587 * 0 + 114 * 0) / 1000 = 76
    assert_eq!(Pixel::from_rgb(255, 0, 0).convert(Mode::L), Pixel::from_l(76));
    // (299 * 10 + 587 * 20 + 114 * 30) / 1000 = 18
    assert_eq!(Pixel::from_rgba(10, 20, 30, 0).convert(Mode::L), Pixel::from_l(18));
}

#[test]
fn luminance_to_bit_uses_upper_half() {
    assert_eq!(Pixel::from_l(127).convert(Mode::BitPixel), Pixel::from_bitpixel(false));
    assert_eq!(Pixel::from_l(128).convert(Mode::BitPixel), Pixel::from_bitpixel(true));
}

#[test]
fn cross_format_pixels_are_unequal() {
    assert_ne!(Pixel::from_l(0), Pixel::from_bitpixel(false));
    assert_ne!(Pixel::from_rgb(1, 2, 3), Pixel::from_rgba(1, 2, 3, 255));
}

#[test]
fn invert_each_format() {
    assert_eq!(Pixel::from_bitpixel(true).invert(), Pixel::from_bitpixel(false));
    assert_eq!(Pixel::from_l(10).invert(), Pixel::from_l(245));
    assert_eq!(Pixel::from_rgb(0, 100, 255).invert(), Pixel::from_rgb(255, 155, 0));
    assert_eq!(Pixel::from_rgba(0, 100, 255, 7).invert(), Pixel::from_rgba(255, 155, 0, 7));
}

#[test]
fn blend_fast_paths_and_half_alpha() {
    let base = Rgba::new(0, 0, 0, 255);
    assert_eq!(blend(base, Rgba::new(9, 9, 9, 255)), Rgba::new(9, 9, 9, 255));
    assert_eq!(blend(base, Rgba::new(9, 9, 9, 0)), base);
    // w = 128 * 255 + 255 * 127 = 65025; r = 200 * 128 * 255 / 65025 = 100
    assert_eq!(blend(base, Rgba::new(200, 0, 0, 128)), Rgba::new(100, 0, 0, 255));
}

#[test]
fn overlay_without_alpha_replaces() {
    let base = Pixel::from_rgb(1, 1, 1);
    let top = Pixel::from_rgba(50, 60, 70, 10);
    assert_eq!(base.overlay(&top, OverlayMode::Merge), Pixel::from_rgb(50, 60, 70));
    assert_eq!(base.overlay(&top, OverlayMode::Replace), Pixel::from_rgb(50, 60, 70));
}

#[test]
fn overlay_replace_on_alpha_overwrites() {
    let base = Pixel::from_rgba(0, 0, 0, 255);
    let top = Pixel::from_rgba(200, 0, 0, 128);
    assert_eq!(base.overlay(&top, OverlayMode::Replace), top);
    assert_eq!(base.overlay(&top, OverlayMode::Merge), Pixel::from_rgba(100, 0, 0, 255));
}

#[test]
fn value_types_hold_their_fields() {
    assert!(BitPixel::new(true).value);
    assert_eq!(L::new(5).value, 5);
    assert_eq!(Rgb::new(1, 2, 3).g, 2);
    assert_eq!(Rgba::new(1, 2, 3, 4).a, 4);
    assert_eq!(Pixel::from_rgb(1, 2, 3).mode(), Mode::Rgb);
}

#[test]
fn mode_names() {
    assert_eq!(Mode::BitPixel.name(), "bitpixel");
    assert_eq!(Mode::L.name(), "L");
    assert_eq!(Mode::Rgb.name(), "RGB");
    assert_eq!(Pixel::from_rgba(0, 0, 0, 0).mode().name(), "RGBA");
}
