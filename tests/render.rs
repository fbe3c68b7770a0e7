use ril::draw::Rectangle;
use ril::image::Image;
use ril::pixels::Pixel;
use ril::render::DrawEntity;
use ril::text::{Font, Glyph, TextLayout, TextSegment};
use ril::types::{OverlayMode, WrapStyle};

fn font(coverage: u8) -> Font {
    let a = Glyph { ch: 'a', advance: 4, width: 2, height: 2, coverage: vec![coverage; 4] };
    let space = Glyph { ch: ' ', advance: 2, width: 0, height: 0, coverage: vec![] };
    Font::new(10, 10, vec![a, space]).unwrap()
}

#[test]
fn layout_stamps_glyphs_where_it_places_them() {
    let mut img = Image::new(12, 4, Pixel::from_l(0)).unwrap();
    let mut layout = TextLayout::new(Some((1, 1)), None, None, None, None);
    layout.push_basic_text(font(255), "aa", Pixel::from_l(255));
    img.draw(DrawEntity::Layout(layout)).unwrap();
    for (x, y) in [(1, 1), (2, 1), (1, 2), (2, 2), (5, 1), (6, 2)] {
        assert_eq!(img.get_pixel(x, y), Ok(Pixel::from_l(255)));
    }
    for (x, y) in [(0, 0), (3, 1), (4, 1), (7, 1), (1, 3)] {
        assert_eq!(img.get_pixel(x, y), Ok(Pixel::from_l(0)));
    }
}

#[test]
fn glyphs_scale_with_segment_size() {
    let mut img = Image::new(8, 8, Pixel::from_l(0)).unwrap();
    let seg = TextSegment::new(font(255), "a", Pixel::from_l(200), Some((2, 2)), Some(20), None, None, None);
    img.draw(DrawEntity::Text(seg)).unwrap();
    assert_eq!(img.get_pixel(2, 2), Ok(Pixel::from_l(200)));
    assert_eq!(img.get_pixel(5, 5), Ok(Pixel::from_l(200)));
    assert_eq!(img.get_pixel(6, 6), Ok(Pixel::from_l(0)));
}

#[test]
fn coverage_weights_the_fill() {
    let mut img = Image::new(4, 4, Pixel::from_rgba(0, 0, 0, 255)).unwrap();
    let seg = TextSegment::new(font(128), "a", Pixel::from_rgba(255, 0, 0, 255), None, None, None, None, None);
    img.draw(DrawEntity::Text(seg)).unwrap();
    assert_eq!(img.get_pixel(0, 0), Ok(Pixel::from_rgba(128, 0, 0, 255)));
    assert_eq!(img.get_pixel(3, 3), Ok(Pixel::from_rgba(0, 0, 0, 255)));
}

#[test]
fn wrapped_text_draws_on_the_next_line() {
    let mut img = Image::new(10, 20, Pixel::from_l(0)).unwrap();
    let seg = TextSegment::new(font(255), "a a", Pixel::from_l(9), None, None, Some(OverlayMode::Replace), Some(7), Some(WrapStyle::Word));
    img.draw(DrawEntity::Text(seg)).unwrap();
    assert_eq!(img.get_pixel(0, 0), Ok(Pixel::from_l(9)));
    assert_eq!(img.get_pixel(0, 10), Ok(Pixel::from_l(9)));
    assert_eq!(img.get_pixel(6, 0), Ok(Pixel::from_l(0)));
}

#[test]
fn draw_dispatches_shapes() {
    let mut img = Image::new(3, 3, Pixel::from_l(0)).unwrap();
    let rect = Rectangle::new((0, 0), (1, 1), None, Some(Pixel::from_l(7)), None);
    assert_eq!(img.draw(DrawEntity::Rectangle(rect)), Ok(()));
    assert_eq!(img.get_pixel(0, 0), Ok(Pixel::from_l(7)));
    assert_eq!(img.get_pixel(1, 1), Ok(Pixel::from_l(0)));
}
