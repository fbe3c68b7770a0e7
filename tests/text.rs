use ril::pixels::Pixel;
use ril::text::{Font, Glyph, TextLayout, TextSegment};
use ril::types::{HorizontalAnchor, VerticalAnchor, WrapStyle};

fn glyph(ch: char, advance: u16) -> Glyph {
    Glyph { ch, advance, width: 2, height: 2, coverage: vec![255, 255, 255, 255] }
}

/// Every letter advances 4 pixels and a space 2; lines are 10 tall at size 10.
fn font() -> Font {
    let mut glyphs = vec![glyph(' ', 2)];
    for c in "abcdefghij".chars() {
        glyphs.push(glyph(c, 4));
    }
    Font::new(10, 10, glyphs).unwrap()
}

#[test]
fn font_rejects_bad_metrics() {
    assert!(Font::new(0, 10, vec![]).is_none());
    let bad = Glyph { ch: 'a', advance: 1, width: 2, height: 2, coverage: vec![1] };
    assert!(Font::new(10, 10, vec![bad]).is_none());
    assert_eq!(font().optimal_size(), 10);
}

#[test]
fn single_line_box() {
    let mut layout = TextLayout::new(Some((10, 20)), None, None, None, None);
    layout.push_basic_text(font(), "abc", Pixel::from_l(255));
    assert_eq!(layout.bounding_box(), (10, 20, 22, 30));
    assert_eq!(layout.dimensions(), (12, 10));
    assert_eq!(layout.width(), 12);
    assert_eq!(layout.height(), 10);
}

#[test]
fn bounding_box_is_stable() {
    let mut layout = TextLayout::new(Some((3, 4)), Some(9), None, None, None);
    layout.push_basic_text(font(), "ab cd ef", Pixel::from_l(255));
    let first = layout.bounding_box();
    let second = layout.bounding_box();
    assert_eq!(first, second);
}

#[test]
fn segments_continue_on_one_line() {
    let mut layout = TextLayout::new(None, None, None, None, None);
    layout.push_basic_text(font(), "ab", Pixel::from_l(255));
    let seg = TextSegment::new(font(), "cd", Pixel::from_l(1), None, Some(20), None, None, None);
    layout.push_segment(seg);
    // 8 at size 10, then 16 at size 20; the taller segment sets the height.
    assert_eq!(layout.dimensions(), (24, 20));
}

#[test]
fn word_wrap_breaks_between_words() {
    let mut layout = TextLayout::new(None, Some(10), None, None, Some(WrapStyle::Word));
    layout.push_basic_text(font(), "ab cd", Pixel::from_l(255));
    // "ab " reaches 10; "cd" would cross 10, so it starts a second line. The
    // space that ends the first line takes no room.
    assert_eq!(layout.dimensions(), (8, 20));
}

#[test]
fn character_wrap_breaks_inside_words() {
    let mut layout = TextLayout::new(None, Some(10), None, None, Some(WrapStyle::Character));
    layout.push_basic_text(font(), "abcde", Pixel::from_l(255));
    // Two letters fit in 10, so five letters take three lines.
    assert_eq!(layout.dimensions(), (8, 30));
}

#[test]
fn no_wrap_ignores_width() {
    let mut layout = TextLayout::new(None, Some(5), None, None, Some(WrapStyle::NoWrap));
    layout.push_basic_text(font(), "abcde", Pixel::from_l(255));
    assert_eq!(layout.dimensions(), (20, 10));
}

#[test]
fn newline_starts_a_line() {
    let mut layout = TextLayout::new(None, None, None, None, None);
    layout.push_basic_text(font(), "abc\na", Pixel::from_l(255));
    assert_eq!(layout.dimensions(), (12, 20));
}

#[test]
fn anchors_shift_the_box() {
    let mut layout = TextLayout::new(Some((50, 50)), None, None, None, None);
    layout.push_basic_text(font(), "abcd", Pixel::from_l(255));
    layout.centered();
    assert_eq!(layout.bounding_box(), (42, 45, 58, 55));
    layout.set_horizontal_anchor(HorizontalAnchor::Right);
    layout.set_vertical_anchor(VerticalAnchor::Bottom);
    assert_eq!(layout.bounding_box(), (34, 40, 50, 50));
}

#[test]
fn anchors_clamp_at_zero() {
    let mut layout = TextLayout::new(Some((2, 2)), None, Some(HorizontalAnchor::Right), None, None);
    layout.push_basic_text(font(), "abc", Pixel::from_l(255));
    assert_eq!(layout.bounding_box(), (0, 2, 12, 12));
}

#[test]
fn dimensions_ignore_anchors() {
    for anchor in [HorizontalAnchor::Left, HorizontalAnchor::Center, HorizontalAnchor::Right] {
        for vertical in [VerticalAnchor::Top, VerticalAnchor::Center, VerticalAnchor::Bottom] {
            let mut layout = TextLayout::new(Some((0, 0)), None, Some(anchor), Some(vertical), None);
            layout.push_basic_text(font(), "abc", Pixel::from_l(255));
            assert_eq!(layout.dimensions(), (12, 10));
            assert_eq!(layout.width(), 12);
            assert_eq!(layout.height(), 10);
            let (left, top, right, bottom) = layout.bounding_box();
            assert_eq!((right - left, bottom - top), (12, 10));
        }
    }
}

#[test]
fn word_wrap_stays_within_width() {
    let glyphs = vec![glyph('a', 4), glyph(' ', 1), glyph('b', 1)];
    let narrow = Font::new(10, 10, glyphs).unwrap();
    let mut layout = TextLayout::new(None, Some(4), None, None, Some(WrapStyle::Word));
    layout.push_basic_text(narrow, "a b", Pixel::from_l(255));
    assert_eq!(layout.dimensions(), (4, 20));
}

#[test]
fn trailing_spaces_take_no_room() {
    let mut layout = TextLayout::new(None, None, None, None, None);
    layout.push_basic_text(font(), "ab  ", Pixel::from_l(255));
    assert_eq!(layout.width(), 8);
}

#[test]
fn segment_defaults() {
    let seg = TextSegment::new(font(), "hi", Pixel::from_l(3), None, None, None, None, None);
    assert_eq!(seg.position, (0, 0));
    assert_eq!(seg.size, 10);
    assert_eq!(seg.wrap, WrapStyle::Word);
    assert_eq!(seg.text, "hi");
}
