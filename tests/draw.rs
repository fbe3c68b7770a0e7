use ril::draw::{from_border_position, get_border_position, Border, BorderPosition, Ellipse, Rectangle};
use ril::error::{ConfigError, Error, ValueError};
use ril::image::Image;
use ril::pixels::Pixel;
use ril::types::OverlayMode;

fn black() -> Pixel {
    Pixel::from_rgba(0, 0, 0, 255)
}

#[test]
fn filled_rectangle_scenario() {
    let mut img = Image::new(4, 4, Pixel::from_rgba(0, 0, 0, 0)).unwrap();
    let rect = Rectangle::new((1, 1), (2, 2), None, Some(Pixel::from_rgba(255, 0, 0, 255)), None);
    assert_eq!(rect.draw(&mut img), Ok(()));
    assert_eq!(img.get_pixel(1, 1), Ok(Pixel::from_rgba(255, 0, 0, 255)));
    assert_eq!(img.get_pixel(2, 2), Ok(Pixel::from_rgba(255, 0, 0, 255)));
    assert_eq!(img.get_pixel(0, 0), Ok(Pixel::from_rgba(0, 0, 0, 0)));
    assert_eq!(img.get_pixel(3, 3), Ok(Pixel::from_rgba(0, 0, 0, 0)));
}

#[test]
fn outset_border_lies_outside_the_box() {
    // The box covers columns and rows 2 through 4.
    let mut img = Image::new(8, 8, Pixel::from_rgba(0, 0, 0, 0)).unwrap();
    let border = Border::new(black(), 1, BorderPosition::Outset);
    let rect = Rectangle::new((2, 2), (3, 3), Some(border), None, None);
    assert_eq!(rect.draw(&mut img), Ok(()));
    for k in 1..6 {
        assert_eq!(img.get_pixel(1, k), Ok(black()));
        assert_eq!(img.get_pixel(5, k), Ok(black()));
        assert_eq!(img.get_pixel(k, 1), Ok(black()));
        assert_eq!(img.get_pixel(k, 5), Ok(black()));
    }
    for y in 2..5 {
        for x in 2..5 {
            assert_eq!(img.get_pixel(x, y), Ok(Pixel::from_rgba(0, 0, 0, 0)));
        }
    }
    assert_eq!(img.get_pixel(0, 0), Ok(Pixel::from_rgba(0, 0, 0, 0)));
    assert_eq!(img.get_pixel(6, 6), Ok(Pixel::from_rgba(0, 0, 0, 0)));
}

#[test]
fn inset_border_wins_over_fill() {
    let mut img = Image::new(5, 5, Pixel::from_rgb(0, 0, 0)).unwrap();
    let border = Border::new(Pixel::from_rgb(9, 9, 9), 1, BorderPosition::Inset);
    let rect = Rectangle::new((1, 1), (3, 3), Some(border), Some(Pixel::from_rgb(5, 5, 5)), None);
    rect.draw(&mut img).unwrap();
    assert_eq!(img.get_pixel(1, 1), Ok(Pixel::from_rgb(9, 9, 9)));
    assert_eq!(img.get_pixel(3, 2), Ok(Pixel::from_rgb(9, 9, 9)));
    assert_eq!(img.get_pixel(2, 2), Ok(Pixel::from_rgb(5, 5, 5)));
    assert_eq!(img.get_pixel(4, 4), Ok(Pixel::from_rgb(0, 0, 0)));
}

#[test]
fn center_border_straddles_the_outline() {
    let mut img = Image::new(10, 10, Pixel::from_l(0)).unwrap();
    let border = Border::new(Pixel::from_l(255), 2, BorderPosition::Center);
    let rect = Rectangle::new((3, 3), (4, 4), Some(border), None, None);
    rect.draw(&mut img).unwrap();
    assert_eq!(img.get_pixel(2, 5), Ok(Pixel::from_l(255)));
    assert_eq!(img.get_pixel(3, 5), Ok(Pixel::from_l(255)));
    assert_eq!(img.get_pixel(4, 5), Ok(Pixel::from_l(0)));
    assert_eq!(img.get_pixel(1, 5), Ok(Pixel::from_l(0)));
}

#[test]
fn shapes_without_fill_or_border_fail() {
    let mut img = Image::new(4, 4, Pixel::from_l(0)).unwrap();
    let rect = Rectangle::new((0, 0), (2, 2), None, None, None);
    assert_eq!(rect.draw(&mut img), Err(Error::Configuration(ConfigError::NoFillOrBorder)));
    let ellipse = Ellipse::new((2, 2), (1, 1), None, None, None);
    assert_eq!(ellipse.draw(&mut img), Err(Error::Configuration(ConfigError::NoFillOrBorder)));
}

#[test]
fn shapes_with_zero_size_fail() {
    let mut img = Image::new(4, 4, Pixel::from_l(0)).unwrap();
    let rect = Rectangle::new((0, 0), (0, 2), None, Some(Pixel::from_l(1)), None);
    assert_eq!(rect.draw(&mut img), Err(Error::Configuration(ConfigError::ZeroSize)));
    let ellipse = Ellipse::new((2, 2), (3, 0), None, Some(Pixel::from_l(1)), None);
    assert_eq!(ellipse.draw(&mut img), Err(Error::Configuration(ConfigError::ZeroSize)));
    assert_eq!(img.get_pixel(0, 0), Ok(Pixel::from_l(0)));
}

#[test]
fn filled_ellipse_covers_its_interior() {
    let mut img = Image::new(9, 9, Pixel::from_l(0)).unwrap();
    let ellipse = Ellipse::new((4, 4), (3, 2), None, Some(Pixel::from_l(200)), None);
    ellipse.draw(&mut img).unwrap();
    assert_eq!(img.get_pixel(4, 4), Ok(Pixel::from_l(200)));
    assert_eq!(img.get_pixel(7, 4), Ok(Pixel::from_l(200)));
    assert_eq!(img.get_pixel(4, 6), Ok(Pixel::from_l(200)));
    assert_eq!(img.get_pixel(4, 7), Ok(Pixel::from_l(0)));
    assert_eq!(img.get_pixel(7, 6), Ok(Pixel::from_l(0)));
    assert_eq!(img.get_pixel(8, 4), Ok(Pixel::from_l(0)));
}

#[test]
fn ellipse_border_rings_the_outline() {
    let mut img = Image::new(11, 11, Pixel::from_l(0)).unwrap();
    let border = Border::new(Pixel::from_l(255), 1, BorderPosition::Inset);
    let circle = Ellipse::circle(5, 5, 4);
    let ring = Ellipse::new(circle.position, circle.radii, Some(border), None, None);
    ring.draw(&mut img).unwrap();
    assert_eq!(img.get_pixel(9, 5), Ok(Pixel::from_l(255)));
    assert_eq!(img.get_pixel(5, 1), Ok(Pixel::from_l(255)));
    assert_eq!(img.get_pixel(5, 5), Ok(Pixel::from_l(0)));
    assert_eq!(img.get_pixel(10, 5), Ok(Pixel::from_l(0)));
}

#[test]
fn shape_overlay_overrides_the_image_mode() {
    let mut img = Image::new(2, 2, Pixel::from_rgba(0, 0, 0, 255)).unwrap();
    let half = Pixel::from_rgba(200, 0, 0, 128);
    let merge = Rectangle::new((0, 0), (1, 1), None, Some(half), None);
    merge.draw(&mut img).unwrap();
    assert_eq!(img.get_pixel(0, 0), Ok(Pixel::from_rgba(100, 0, 0, 255)));
    let replace = Rectangle::new((1, 1), (1, 1), None, Some(half), Some(OverlayMode::Replace));
    replace.draw(&mut img).unwrap();
    assert_eq!(img.get_pixel(1, 1), Ok(half));
}

#[test]
fn bounding_box_constructors() {
    let rect = Rectangle::from_bounding_box(5, 1, 2, 4);
    assert_eq!(rect.position, (2, 1));
    assert_eq!(rect.size, (3, 3));
    let ellipse = Ellipse::from_bounding_box(0, 0, 10, 6);
    assert_eq!(ellipse.position, (5, 3));
    assert_eq!(ellipse.radii, (5, 3));
}

#[test]
fn border_positions_by_name() {
    assert_eq!(get_border_position("inset"), Ok(BorderPosition::Inset));
    assert_eq!(get_border_position("center"), Ok(BorderPosition::Center));
    assert_eq!(get_border_position("outset"), Ok(BorderPosition::Outset));
    assert_eq!(get_border_position("middle"), Err(Error::Value(ValueError::InvalidBorderPosition)));
    assert_eq!(from_border_position(BorderPosition::Center), "center");
}

#[test]
fn oversized_ellipse_is_a_configuration_error() {
    let mut img = Image::new(4, 4, Pixel::from_l(0)).unwrap();
    let huge = Ellipse::new((2, 2), (0x4000_0000, 3), None, Some(Pixel::from_l(1)), None);
    assert_eq!(huge.draw(&mut img), Ok(()));
    let border = Border::new(Pixel::from_l(1), 1, BorderPosition::Inset);
    let too_big = Ellipse::new((2, 2), (0x4000_0000, 3), Some(border), None, None);
    assert_eq!(too_big.draw(&mut img), Err(Error::Configuration(ConfigError::TooLarge)));
}
