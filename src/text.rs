use vstd::prelude::*;

use crate::pixels::Pixel;
use crate::types::{HorizontalAnchor, OverlayMode, VerticalAnchor, WrapStyle};

verus! {

/// The metrics and coverage of one character of a font, at the font's
/// optimal size.
#[derive(Clone, Debug)]
pub struct Glyph {
    pub ch: char,
    /// How far the pen moves after the glyph.
    pub advance: u16,
    /// The width of the coverage mask.
    pub width: u16,
    /// The height of the coverage mask.
    pub height: u16,
    /// Row-major coverage, 0 (empty) to 255 (fully covered).
    pub coverage: Vec<u8>,
}

/// A font as the layout engine sees it: metrics and coverage masks of its
/// glyphs at `optimal_size`, scaled linearly to other sizes.
#[derive(Clone, Debug)]
pub struct Font {
    pub optimal_size: u16,
    /// The distance between two baselines at the optimal size.
    pub line_height: u16,
    pub glyphs: Vec<Glyph>,
}

/// A metric given at size `from`, scaled to size `to`.
pub open spec fn scaled(v: int, to: int, from: int) -> int {
    v * to / from
}

/// The index of the first glyph for `c` at or after `i`, or -1.
pub open spec fn find_glyph(glyphs: Seq<Glyph>, c: char, i: int) -> int
    decreases glyphs.len() - i,
{
    if i < 0 || i >= glyphs.len() {
        -1
    } else if glyphs[i].ch == c {
        i
    } else {
        find_glyph(glyphs, c, i + 1)
    }
}

pub proof fn lemma_find_glyph_range(glyphs: Seq<Glyph>, c: char, i: int)
    requires
        0 <= i,
    ensures
        find_glyph(glyphs, c, i) == -1 || (i <= find_glyph(glyphs, c, i) < glyphs.len() && glyphs[find_glyph(
            glyphs,
            c,
            i,
        )].ch == c),
    decreases glyphs.len() - i,
{
    if i < glyphs.len() && glyphs[i].ch != c {
        lemma_find_glyph_range(glyphs, c, i + 1);
    }
}

/// Every coverage mask matches its glyph's dimensions.
pub open spec fn masks_fit(glyphs: Seq<Glyph>) -> bool {
    forall|k: int| 0 <= k < glyphs.len() ==> (#[trigger] glyphs[k]).coverage@.len() == glyphs[k].width * glyphs[k].height
}

impl Font {
    /// The optimal size is positive and every coverage mask matches its
    /// glyph's dimensions.
    pub open spec fn wf(&self) -> bool {
        self.optimal_size > 0 && masks_fit(self.glyphs@)
    }

    /// A font with the given metrics; fails unless the optimal size is
    /// positive and every coverage mask matches its glyph's dimensions.
    pub fn new(optimal_size: u16, line_height: u16, glyphs: Vec<Glyph>) -> (r: Option<Font>)
        ensures
            r is Some <==> optimal_size > 0 && masks_fit(glyphs@),
            r is Some ==> r->Some_0.optimal_size == optimal_size && r->Some_0.line_height == line_height
                && r->Some_0.glyphs@ == glyphs@,
    {
        let font = Font { optimal_size, line_height, glyphs };
        if font.is_valid() {
            Some(font)
        } else {
            None
        }
    }

    /// Whether the font is well formed.
    pub fn is_valid(&self) -> (r: bool)
        ensures
            r == self.wf(),
    {
        if self.optimal_size == 0 {
            return false;
        }
        let mut k: usize = 0;
        while k < self.glyphs.len()
            invariant
                k <= self.glyphs@.len(),
                forall|j: int|
                    0 <= j < k ==> (#[trigger] self.glyphs@[j]).coverage@.len() == self.glyphs@[j].width
                        * self.glyphs@[j].height,
            decreases self.glyphs@.len() - k,
        {
            let g = &self.glyphs[k];
            assert(g.width * g.height <= 0xffff * 0xffff) by (nonlinear_arith)
                requires
                    g.width <= 0xffff,
                    g.height <= 0xffff,
            ;
            if g.coverage.len() as u64 != g.width as u64 * g.height as u64 {
                assert(self.glyphs@[k as int].coverage@.len() != self.glyphs@[k as int].width * self.glyphs@[k as int].height);
                return false;
            }
            k = k + 1;
        }
        true
    }

    /// The size the font's metrics are given at.
    pub fn optimal_size(&self) -> (r: u16)
        ensures
            r == self.optimal_size,
    {
        self.optimal_size
    }

    /// The index of the glyph for `c`, if the font has one.
    fn glyph_index(&self, c: char) -> (r: Option<usize>)
        ensures
            r is None <==> find_glyph(self.glyphs@, c, 0) == -1,
            r matches Some(k) ==> k as int == find_glyph(self.glyphs@, c, 0) && k < self.glyphs@.len(),
    {
        proof {
            lemma_find_glyph_range(self.glyphs@, c, 0);
        }
        let mut k: usize = 0;
        while k < self.glyphs.len()
            invariant
                k <= self.glyphs@.len(),
                find_glyph(self.glyphs@, c, 0) == find_glyph(self.glyphs@, c, k as int),
            decreases self.glyphs@.len() - k,
        {
            if self.glyphs[k].ch == c {
                return Some(k);
            }
            k = k + 1;
        }
        None
    }
}

/// What a character does to the pen.
#[derive(Clone, Copy, Debug, PartialEq, Eq, Structural)]
pub enum CharKind {
    /// Part of a word.
    Letter,
    /// A space: a place where word wrapping may break.
    Space,
    /// A forced line break.
    Newline,
}

/// One laid-out character: how far it moves the pen and how tall its line
/// is, at the size of its segment.
#[derive(Clone, Copy, Debug, PartialEq, Eq, Structural)]
pub struct Item {
    pub advance: u32,
    pub line_height: u32,
    pub kind: CharKind,
    /// The index of the segment the character belongs to.
    pub segment: usize,
    /// Whether the segment's font has a glyph for the character.
    pub has_glyph: bool,
    /// The index of that glyph in the font, when there is one.
    pub glyph: usize,
}

pub open spec fn kind_of(c: char) -> CharKind {
    if c == '\n' {
        CharKind::Newline
    } else if c == ' ' {
        CharKind::Space
    } else {
        CharKind::Letter
    }
}

/// The item that character `c` of `font` at `size`, in segment `segment`,
/// makes.
pub open spec fn item_of(font: Font, size: u16, segment: usize, c: char) -> Item {
    let k = find_glyph(font.glyphs@, c, 0);
    let adv: int = if k == -1 {
        0
    } else {
        scaled(font.glyphs@[k].advance as int, size as int, font.optimal_size as int)
    };
    Item {
        advance: adv as u32,
        line_height: scaled(font.line_height as int, size as int, font.optimal_size as int) as u32,
        kind: kind_of(c),
        segment,
        has_glyph: k != -1,
        glyph: (if k == -1 { 0 } else { k }) as usize,
    }
}

proof fn lemma_scaled_bound(v: int, to: int, from: int)
    requires
        0 <= v <= 0xffff,
        0 <= to <= 0xffff,
        from > 0,
    ensures
        0 <= scaled(v, to, from) <= 0xffff * 0xffff,
{
    assert(0 <= v * to <= 0xffff * 0xffff) by (nonlinear_arith)
        requires
            0 <= v <= 0xffff,
            0 <= to <= 0xffff,
    ;
    assert(v * to / from <= v * to) by (nonlinear_arith)
        requires
            v * to >= 0,
            from > 0,
    ;
    vstd::arithmetic::div_mod::lemma_div_pos_is_pos(v * to, from);
}

pub(crate) fn scale_exec(v: u16, to: u16, from: u16) -> (r: u32)
    requires
        from > 0,
    ensures
        r == scaled(v as int, to as int, from as int),
{
    proof {
        lemma_scaled_bound(v as int, to as int, from as int);
    }
    assert(v * to <= 0xffff * 0xffff) by (nonlinear_arith)
        requires
            v <= 0xffff,
            to <= 0xffff,
    ;
    (v as u32 * to as u32) / from as u32
}

/// The items that text `text` of `font` at `size` makes.
pub fn segment_items(font: &Font, size: u16, segment: usize, text: &str, out: &mut Vec<Item>)
    requires
        font.wf(),
    ensures
        final(out)@ == old(out)@ + text@.map_values(|c: char| item_of(*font, size, segment, c)),
{
    let n = text.unicode_len();
    let lh = scale_exec(font.line_height, size, font.optimal_size);
    let ghost start = out@;
    let mut i: usize = 0;
    while i < n
        invariant
            font.wf(),
            n == text@.len(),
            i <= n,
            lh == scaled(font.line_height as int, size as int, font.optimal_size as int),
            out@ == start + text@.subrange(0, i as int).map_values(|c: char| item_of(*font, size, segment, c)),
        decreases n - i,
    {
        let c = text.get_char(i);
        let found = font.glyph_index(c);
        let adv = match found {
            Some(k) => scale_exec(font.glyphs[k].advance, size, font.optimal_size),
            None => 0,
        };
        let (has_glyph, glyph) = match found {
            Some(k) => (true, k),
            None => (false, 0),
        };
        let kind = if c == '\n' {
            CharKind::Newline
        } else if c == ' ' {
            CharKind::Space
        } else {
            CharKind::Letter
        };
        let item = Item { advance: adv, line_height: lh, kind, segment, has_glyph, glyph };
        assert(item == item_of(*font, size, segment, c));
        out.push(item);
        proof {
            assert(text@.subrange(0, i + 1) =~= text@.subrange(0, i as int).push(c));
            assert(text@.subrange(0, i + 1).map_values(|c: char| item_of(*font, size, segment, c)) =~= text@.subrange(
                0,
                i as int,
            ).map_values(|c: char| item_of(*font, size, segment, c)).push(item_of(*font, size, segment, c)));
        }
        i = i + 1;
    }
    assert(text@.subrange(0, n as int) =~= text@);
}

/// Whether item `i` begins a word: a letter with no letter right before it.
pub open spec fn starts_word(items: Seq<Item>, i: int) -> bool {
    items[i].kind == CharKind::Letter && (i == 0 || items[i - 1].kind != CharKind::Letter)
}

/// The width of the run of letters that begins at item `i`.
pub open spec fn word_width(items: Seq<Item>, i: int) -> int
    decreases items.len() - i,
{
    if i < 0 || i >= items.len() || items[i].kind != CharKind::Letter {
        0
    } else {
        items[i].advance + word_width(items, i + 1)
    }
}

/// The state of the pen after some items: how far the pen has moved along
/// the current line, the width of that line without the spaces that end it,
/// its height, the widest finished line, and the height of all finished
/// lines. Spaces that end a line take no room in the width.
pub struct Pen {
    pub line_width: int,
    pub ink_width: int,
    pub line_height: int,
    pub max_width: int,
    pub done_height: int,
}

pub open spec fn max(a: int, b: int) -> int {
    if a >= b {
        a
    } else {
        b
    }
}

/// Whether the greedy wrapper starts a new line before item `i`, given the
/// pen before it: only on a line that already holds something, and only
/// where the next character (character wrapping) or the next word (word
/// wrapping) would cross `limit`.
pub open spec fn breaks_before(items: Seq<Item>, i: int, pen: Pen, limit: int, style: WrapStyle) -> bool {
    pen.line_width > 0 && match style {
        WrapStyle::NoWrap => false,
        WrapStyle::Character => items[i].kind != CharKind::Newline && pen.line_width + items[i].advance > limit,
        WrapStyle::Word => starts_word(items, i) && pen.line_width + word_width(items, i) > limit,
    }
}

/// The pen after the first `n` items.
pub open spec fn flow(items: Seq<Item>, n: int, limit: int, style: WrapStyle) -> Pen
    decreases n,
{
    if n <= 0 {
        Pen { line_width: 0, ink_width: 0, line_height: 0, max_width: 0, done_height: 0 }
    } else {
        let pen = flow(items, n - 1, limit, style);
        let it = items[n - 1];
        let space = it.kind == CharKind::Space;
        if it.kind == CharKind::Newline {
            Pen {
                line_width: 0,
                ink_width: 0,
                line_height: 0,
                max_width: max(pen.max_width, pen.ink_width),
                done_height: pen.done_height + max(pen.line_height, it.line_height as int),
            }
        } else if breaks_before(items, n - 1, pen, limit, style) {
            Pen {
                line_width: it.advance as int,
                ink_width: if space { 0 } else { it.advance as int },
                line_height: it.line_height as int,
                max_width: max(pen.max_width, pen.ink_width),
                done_height: pen.done_height + pen.line_height,
            }
        } else {
            Pen {
                line_width: pen.line_width + it.advance,
                ink_width: if space { pen.ink_width } else { pen.line_width + it.advance },
                line_height: max(pen.line_height, it.line_height as int),
                max_width: pen.max_width,
                done_height: pen.done_height,
            }
        }
    }
}

/// The width and height of the laid-out items.
pub open spec fn measure(items: Seq<Item>, limit: int, style: WrapStyle) -> (int, int) {
    let pen = flow(items, items.len() as int, limit, style);
    (max(pen.max_width, pen.ink_width), pen.done_height + pen.line_height)
}

/// A bound on every advance and line height.
pub const ITEM_MAX: u128 = 0xffff_ffff;

fn word_width_exec(items: &Vec<Item>, i: usize) -> (r: u128)
    requires
        i < items@.len(),
    ensures
        r == word_width(items@, i as int),
        r <= (items@.len() - i) * ITEM_MAX,
{
    let n = items.len();
    let mut j: usize = i;
    let mut sum: u128 = 0;
    while j < n && items[j].kind == CharKind::Letter
        invariant
            n == items@.len(),
            i <= j <= n,
            sum + word_width(items@, j as int) == word_width(items@, i as int),
            sum <= (j - i) * ITEM_MAX,
        decreases n - j,
    {
        sum = sum + items[j].advance as u128;
        j = j + 1;
    }
    sum
}

/// The pen, as the executable code tracks it.
#[derive(Clone, Copy)]
pub(crate) struct PenState {
    pub(crate) line_width: u128,
    pub(crate) ink_width: u128,
    pub(crate) line_height: u128,
    pub(crate) max_width: u128,
    pub(crate) done_height: u128,
}

impl PenState {
    /// This is the pen after the first `i` items, and its values are in
    /// the range that `i` items can reach.
    pub(crate) open spec fn tracks(&self, items: Seq<Item>, i: int, limit: int, style: WrapStyle) -> bool {
        let pen = flow(items, i, limit, style);
        &&& self.line_width == pen.line_width
        &&& self.ink_width == pen.ink_width
        &&& self.line_height == pen.line_height
        &&& self.max_width == pen.max_width
        &&& self.done_height == pen.done_height
        &&& self.ink_width <= self.line_width <= i * ITEM_MAX
        &&& self.line_height <= ITEM_MAX
        &&& self.max_width <= i * ITEM_MAX
        &&& self.done_height <= i * ITEM_MAX
    }
}

/// The pen after item `i`, from the pen before it, and whether a new line
/// starts before the item.
pub(crate) fn pen_step(items: &Vec<Item>, i: usize, pen: PenState, limit: u32, style: WrapStyle) -> (r: (
    bool,
    PenState,
))
    requires
        i < items@.len(),
        pen.tracks(items@, i as int, limit as int, style),
    ensures
        r.0 == (items@[i as int].kind != CharKind::Newline && breaks_before(
            items@,
            i as int,
            flow(items@, i as int, limit as int, style),
            limit as int,
            style,
        )),
        r.1.tracks(items@, i + 1, limit as int, style),
{
    let lw = pen.line_width;
    let ink = pen.ink_width;
    let lh = pen.line_height;
    let mw = pen.max_width;
    let dh = pen.done_height;
    let n = items.len();
    assert(n * ITEM_MAX <= 0xffff_ffff_ffff_ffff * ITEM_MAX) by (nonlinear_arith)
        requires
            n <= 0xffff_ffff_ffff_ffff,
    ;
    let it = items[i];
    let ghost before = flow(items@, i as int, limit as int, style);
    let space = it.kind == CharKind::Space;
    if it.kind == CharKind::Newline {
        let mw2 = if mw >= ink { mw } else { ink };
        let dh2 = dh + if lh >= it.line_height as u128 { lh } else { it.line_height as u128 };
        (false, PenState { line_width: 0, ink_width: 0, line_height: 0, max_width: mw2, done_height: dh2 })
    } else {
        let brk = if lw == 0 {
            false
        } else {
            match style {
                WrapStyle::NoWrap => false,
                WrapStyle::Character => lw + it.advance as u128 > limit as u128,
                WrapStyle::Word => {
                    let starts = i == 0 || items[i - 1].kind != CharKind::Letter;
                    if it.kind == CharKind::Letter && starts {
                        lw + word_width_exec(items, i) > limit as u128
                    } else {
                        false
                    }
                },
            }
        };
        assert(brk == breaks_before(items@, i as int, before, limit as int, style));
        if brk {
            let mw2 = if mw >= ink { mw } else { ink };
            let adv = it.advance as u128;
            (
                true,
                PenState {
                    line_width: adv,
                    ink_width: if space { 0 } else { adv },
                    line_height: it.line_height as u128,
                    max_width: mw2,
                    done_height: dh + lh,
                },
            )
        } else {
            let lh2 = if lh >= it.line_height as u128 { lh } else { it.line_height as u128 };
            let lw2 = lw + it.advance as u128;
            (
                false,
                PenState {
                    line_width: lw2,
                    ink_width: if space { ink } else { lw2 },
                    line_height: lh2,
                    max_width: mw,
                    done_height: dh,
                },
            )
        }
    }
}

/// The width and height of `items` laid out with wrapping style `style`
/// at width `limit`.
pub fn measure_items(items: &Vec<Item>, limit: u32, style: WrapStyle) -> (r: (u128, u128))
    ensures
        r.0 == measure(items@, limit as int, style).0,
        r.1 == measure(items@, limit as int, style).1,
        r.0 < 0x1_0000_0000_0000_0000_0000_0000,
        r.1 < 0x1_0000_0000_0000_0000_0000_0000,
{
    let n = items.len();
    let mut pen = PenState { line_width: 0, ink_width: 0, line_height: 0, max_width: 0, done_height: 0 };
    let mut i: usize = 0;
    while i < n
        invariant
            n == items@.len(),
            i <= n,
            pen.tracks(items@, i as int, limit as int, style),
        decreases n - i,
    {
        let (_, next) = pen_step(items, i, pen, limit, style);
        pen = next;
        i = i + 1;
    }
    let (ink, lh, mw, dh) = (pen.ink_width, pen.line_height, pen.max_width, pen.done_height);
    assert(n * ITEM_MAX <= 0xffff_ffff_ffff_ffff * ITEM_MAX) by (nonlinear_arith)
        requires
            n <= 0xffff_ffff_ffff_ffff,
    ;
    let w = if mw >= ink { mw } else { ink };
    (w, dh + lh)
}

/// A run of text in one font, size and color.
#[derive(Debug)]
pub struct TextSegment {
    pub font: Font,
    pub text: String,
    pub fill: Pixel,
    /// Where the segment is drawn when it is drawn on its own.
    pub position: (u32, u32),
    /// The size of the text in pixels.
    pub size: u16,
    pub overlay: OverlayMode,
    /// The width to wrap at when the segment is drawn on its own.
    pub width: Option<u32>,
    pub wrap: WrapStyle,
}

impl TextSegment {
    /// A segment of `text` in `font`; by default it stands at the origin, at
    /// the font's optimal size, merges onto the image, and wraps by word when
    /// a width is set.
    pub fn new(
        font: Font,
        text: &str,
        fill: Pixel,
        position: Option<(u32, u32)>,
        size: Option<u16>,
        overlay: Option<OverlayMode>,
        width: Option<u32>,
        wrap: Option<WrapStyle>,
    ) -> (r: TextSegment)
        ensures
            r.font == font,
            r.text@ == text@,
            r.fill == fill,
            r.position == (match position {
                Some(p) => p,
                None => (0u32, 0u32),
            }),
            r.size == (match size {
                Some(s) => s,
                None => font.optimal_size,
            }),
            r.overlay == (match overlay {
                Some(o) => o,
                None => OverlayMode::Merge,
            }),
            r.width == width,
            r.wrap == (match wrap {
                Some(w) => w,
                None => WrapStyle::Word,
            }),
    {
        let size = match size {
            Some(s) => s,
            None => font.optimal_size,
        };
        TextSegment {
            font,
            text: text.to_owned(),
            fill,
            position: match position {
                Some(p) => p,
                None => (0, 0),
            },
            size,
            overlay: match overlay {
                Some(o) => o,
                None => OverlayMode::Merge,
            },
            width,
            wrap: match wrap {
                Some(w) => w,
                None => WrapStyle::Word,
            },
        }
    }

    /// The items of this segment's text, as segment `index` of a layout.
    pub open spec fn items(&self, index: int) -> Seq<Item> {
        self.text@.map_values(|c: char| item_of(self.font, self.size, index as usize, c))
    }
}

/// The items of a list of segments, one after another.
pub open spec fn items_of(segments: Seq<TextSegment>) -> Seq<Item>
    decreases segments.len(),
{
    if segments.len() == 0 {
        Seq::empty()
    } else {
        items_of(segments.drop_last()) + segments.last().items(segments.len() - 1)
    }
}

/// The wrapping style that applies: none unless a width is set.
pub open spec fn effective_wrap(width: Option<u32>, wrap: WrapStyle) -> WrapStyle {
    match width {
        Some(_) => wrap,
        None => WrapStyle::NoWrap,
    }
}

pub open spec fn limit_of(width: Option<u32>) -> int {
    match width {
        Some(w) => w as int,
        None => 0,
    }
}

/// How far the anchor lies right of the left edge of a box `extent` wide.
pub open spec fn x_shift(anchor: HorizontalAnchor, extent: int) -> int {
    match anchor {
        HorizontalAnchor::Left => 0,
        HorizontalAnchor::Center => extent / 2,
        HorizontalAnchor::Right => extent,
    }
}

/// How far the anchor lies below the top edge of a box `extent` tall.
pub open spec fn y_shift(anchor: VerticalAnchor, extent: int) -> int {
    match anchor {
        VerticalAnchor::Top => 0,
        VerticalAnchor::Center => extent / 2,
        VerticalAnchor::Bottom => extent,
    }
}

/// `v` brought into the range of `u32`.
pub open spec fn clamp_u32(v: int) -> u32 {
    if v < 0 {
        0
    } else if v > u32::MAX {
        u32::MAX
    } else {
        v as u32
    }
}

fn clamp_exec(v: i128) -> (r: u32)
    ensures
        r == clamp_u32(v as int),
{
    if v < 0 {
        0
    } else if v > u32::MAX as i128 {
        u32::MAX
    } else {
        v as u32
    }
}

/// Text segments laid out one after another from a common position, with
/// anchoring and wrapping.
#[derive(Debug)]
pub struct TextLayout {
    pub segments: Vec<TextSegment>,
    /// The point that the anchors designate.
    pub position: (u32, u32),
    /// The width to wrap at, if any.
    pub width: Option<u32>,
    pub wrap: WrapStyle,
    pub x_anchor: HorizontalAnchor,
    pub y_anchor: VerticalAnchor,
}

impl TextLayout {
    /// Every segment's font is well formed.
    pub open spec fn wf(&self) -> bool {
        forall|k: int| 0 <= k < self.segments@.len() ==> (#[trigger] self.segments@[k]).font.wf()
    }

    /// The unclamped extent of the laid-out text.
    pub open spec fn extent(&self) -> (int, int) {
        measure(items_of(self.segments@), limit_of(self.width), effective_wrap(self.width, self.wrap))
    }

    /// `(left, top, right, bottom)` of the laid-out text, left and top
    /// inclusive, right and bottom exclusive. The anchors shift the box; a
    /// box that would start above or left of the origin is moved to start
    /// there, keeping its size, and right and bottom stop at `u32::MAX`.
    pub open spec fn spec_bounding_box(&self) -> (u32, u32, u32, u32) {
        let (w, h) = self.extent();
        let left = clamp_u32(self.position.0 - x_shift(self.x_anchor, w));
        let top = clamp_u32(self.position.1 - y_shift(self.y_anchor, h));
        (left, top, clamp_u32(left + w), clamp_u32(top + h))
    }

    /// The width and height of the laid-out text, up to `u32::MAX`. They do
    /// not depend on the anchors.
    pub open spec fn spec_dimensions(&self) -> (u32, u32) {
        (clamp_u32(self.extent().0), clamp_u32(self.extent().1))
    }

    /// An empty layout; by default it stands at the origin, has no width,
    /// wraps by word once a width is set, and is anchored at its top-left
    /// corner.
    pub fn new(
        position: Option<(u32, u32)>,
        width: Option<u32>,
        horizontal_anchor: Option<HorizontalAnchor>,
        vertical_anchor: Option<VerticalAnchor>,
        wrap: Option<WrapStyle>,
    ) -> (r: TextLayout)
        ensures
            r.wf(),
            r.segments@.len() == 0,
            r.position == (match position {
                Some(p) => p,
                None => (0u32, 0u32),
            }),
            r.width == width,
            r.x_anchor == (match horizontal_anchor {
                Some(a) => a,
                None => HorizontalAnchor::Left,
            }),
            r.y_anchor == (match vertical_anchor {
                Some(a) => a,
                None => VerticalAnchor::Top,
            }),
            r.wrap == (match wrap {
                Some(w) => w,
                None => WrapStyle::Word,
            }),
    {
        TextLayout {
            segments: Vec::new(),
            position: match position {
                Some(p) => p,
                None => (0, 0),
            },
            width,
            wrap: match wrap {
                Some(w) => w,
                None => WrapStyle::Word,
            },
            x_anchor: match horizontal_anchor {
                Some(a) => a,
                None => HorizontalAnchor::Left,
            },
            y_anchor: match vertical_anchor {
                Some(a) => a,
                None => VerticalAnchor::Top,
            },
        }
    }

    /// Whether every segment's font is well formed.
    pub fn is_valid(&self) -> (r: bool)
        ensures
            r == self.wf(),
    {
        let mut k: usize = 0;
        while k < self.segments.len()
            invariant
                k <= self.segments@.len(),
                forall|j: int| 0 <= j < k ==> (#[trigger] self.segments@[j]).font.wf(),
            decreases self.segments@.len() - k,
        {
            if !self.segments[k].font.is_valid() {
                return false;
            }
            k = k + 1;
        }
        true
    }

    /// Anchors the text at its center both ways.
    pub fn centered(&mut self)
        ensures
            final(self).x_anchor == HorizontalAnchor::Center,
            final(self).y_anchor == VerticalAnchor::Center,
            final(self).segments@ == old(self).segments@,
            final(self).position == old(self).position,
            final(self).width == old(self).width,
            final(self).wrap == old(self).wrap,
    {
        self.x_anchor = HorizontalAnchor::Center;
        self.y_anchor = VerticalAnchor::Center;
    }

    pub fn set_position(&mut self, position: (u32, u32))
        ensures
            final(self).position == position,
            final(self).segments@ == old(self).segments@,
            final(self).width == old(self).width,
            final(self).wrap == old(self).wrap,
            final(self).x_anchor == old(self).x_anchor,
            final(self).y_anchor == old(self).y_anchor,
    {
        self.position = position;
    }

    pub fn set_horizontal_anchor(&mut self, anchor: HorizontalAnchor)
        ensures
            final(self).x_anchor == anchor,
            final(self).segments@ == old(self).segments@,
            final(self).position == old(self).position,
            final(self).width == old(self).width,
            final(self).wrap == old(self).wrap,
            final(self).y_anchor == old(self).y_anchor,
    {
        self.x_anchor = anchor;
    }

    pub fn set_vertical_anchor(&mut self, anchor: VerticalAnchor)
        ensures
            final(self).y_anchor == anchor,
            final(self).segments@ == old(self).segments@,
            final(self).position == old(self).position,
            final(self).width == old(self).width,
            final(self).wrap == old(self).wrap,
            final(self).x_anchor == old(self).x_anchor,
    {
        self.y_anchor = anchor;
    }

    pub fn set_width(&mut self, width: u32)
        ensures
            final(self).width == Some(width),
            final(self).segments@ == old(self).segments@,
            final(self).position == old(self).position,
            final(self).wrap == old(self).wrap,
            final(self).x_anchor == old(self).x_anchor,
            final(self).y_anchor == old(self).y_anchor,
    {
        self.width = Some(width);
    }

    pub fn set_wrap(&mut self, wrap: WrapStyle)
        ensures
            final(self).wrap == wrap,
            final(self).segments@ == old(self).segments@,
            final(self).position == old(self).position,
            final(self).width == old(self).width,
            final(self).x_anchor == old(self).x_anchor,
            final(self).y_anchor == old(self).y_anchor,
    {
        self.wrap = wrap;
    }

    /// Appends a segment; its own position, width and wrapping are not used
    /// by the layout.
    pub fn push_segment(&mut self, segment: TextSegment)
        requires
            old(self).wf(),
            segment.font.wf(),
        ensures
            final(self).wf(),
            final(self).segments@ == old(self).segments@.push(segment),
            final(self).position == old(self).position,
            final(self).width == old(self).width,
            final(self).wrap == old(self).wrap,
            final(self).x_anchor == old(self).x_anchor,
            final(self).y_anchor == old(self).y_anchor,
    {
        self.segments.push(segment);
    }

    /// Appends `text` in `font` at the font's optimal size, at the layout's
    /// position, merged onto the image.
    pub fn push_basic_text(&mut self, font: Font, text: &str, fill: Pixel)
        requires
            old(self).wf(),
            font.wf(),
        ensures
            final(self).wf(),
            final(self).segments@.len() == old(self).segments@.len() + 1,
            final(self).segments@.drop_last() == old(self).segments@,
            ({
                let seg = final(self).segments@.last();
                &&& seg.font == font
                &&& seg.text@ == text@
                &&& seg.fill == fill
                &&& seg.size == font.optimal_size
                &&& seg.position == old(self).position
                &&& seg.overlay == OverlayMode::Merge
            }),
            final(self).position == old(self).position,
            final(self).width == old(self).width,
            final(self).wrap == old(self).wrap,
            final(self).x_anchor == old(self).x_anchor,
            final(self).y_anchor == old(self).y_anchor,
    {
        let seg = TextSegment::new(font, text, fill, Some(self.position), None, Some(OverlayMode::Merge), None, None);
        self.segments.push(seg);
        assert(self.segments@.drop_last() =~= old(self).segments@);
    }

    /// The items of every segment, in order.
    pub(crate) fn items_exec(&self) -> (r: Vec<Item>)
        requires
            self.wf(),
        ensures
            r@ == items_of(self.segments@),
    {
        let mut out: Vec<Item> = Vec::new();
        let mut k: usize = 0;
        while k < self.segments.len()
            invariant
                self.wf(),
                k <= self.segments@.len(),
                out@ == items_of(self.segments@.subrange(0, k as int)),
            decreases self.segments@.len() - k,
        {
            let seg = &self.segments[k];
            segment_items(&seg.font, seg.size, k, seg.text.as_str(), &mut out);
            proof {
                let next = self.segments@.subrange(0, k + 1);
                assert(next.drop_last() =~= self.segments@.subrange(0, k as int));
                assert(next.last() == self.segments@[k as int]);
            }
            k = k + 1;
        }
        assert(self.segments@.subrange(0, self.segments@.len() as int) =~= self.segments@);
        out
    }

    /// The width and height of the laid-out text, before clamping.
    pub(crate) fn extent_exec(&self) -> (r: (u128, u128))
        requires
            self.wf(),
        ensures
            r.0 == self.extent().0,
            r.1 == self.extent().1,
            r.0 < 0x1_0000_0000_0000_0000_0000_0000,
            r.1 < 0x1_0000_0000_0000_0000_0000_0000,
    {
        let items = self.items_exec();
        let style = match self.width {
            Some(_) => self.wrap,
            None => WrapStyle::NoWrap,
        };
        let limit = match self.width {
            Some(w) => w,
            None => 0,
        };
        measure_items(&items, limit, style)
    }

    /// `(left, top, right, bottom)` of the laid-out text: left and top
    /// inclusive, right and bottom exclusive. Every call measures anew.
    pub fn bounding_box(&self) -> (r: (u32, u32, u32, u32))
        requires
            self.wf(),
        ensures
            r == self.spec_bounding_box(),
            r.0 <= r.2,
            r.1 <= r.3,
    {
        let (w, h) = self.extent_exec();
        let (x, y) = (self.position.0 as i128, self.position.1 as i128);
        let sx: i128 = match self.x_anchor {
            HorizontalAnchor::Left => 0,
            HorizontalAnchor::Center => (w / 2) as i128,
            HorizontalAnchor::Right => w as i128,
        };
        let sy: i128 = match self.y_anchor {
            VerticalAnchor::Top => 0,
            VerticalAnchor::Center => (h / 2) as i128,
            VerticalAnchor::Bottom => h as i128,
        };
        let left = clamp_exec(x - sx);
        let top = clamp_exec(y - sy);
        (left, top, clamp_exec(left as i128 + w as i128), clamp_exec(top as i128 + h as i128))
    }

    /// The width and height of the laid-out text, whatever the anchors; the
    /// bounding box has this size unless it reaches `u32::MAX`. Every call
    /// measures anew.
    pub fn dimensions(&self) -> (r: (u32, u32))
        requires
            self.wf(),
        ensures
            r == self.spec_dimensions(),
            self.spec_bounding_box().2 < u32::MAX ==> r.0 == self.spec_bounding_box().2 - self.spec_bounding_box().0,
            self.spec_bounding_box().3 < u32::MAX ==> r.1 == self.spec_bounding_box().3 - self.spec_bounding_box().1,
    {
        let (w, h) = self.extent_exec();
        (clamp_exec(w as i128), clamp_exec(h as i128))
    }

    /// The width of the laid-out text, whatever the anchors.
    pub fn width(&self) -> (r: u32)
        requires
            self.wf(),
        ensures
            r == self.spec_dimensions().0,
    {
        self.dimensions().0
    }

    /// The height of the laid-out text, whatever the anchors.
    pub fn height(&self) -> (r: u32)
        requires
            self.wf(),
        ensures
            r == self.spec_dimensions().1,
    {
        self.dimensions().1
    }
}

/// Measuring is a pure derivation: two layouts that agree on everything
/// the bounding box is derived from (in particular one layout read twice
/// with no change between) have the same bounding box.
pub proof fn lemma_bounding_box_stable(a: &TextLayout, b: &TextLayout)
    requires
        a.segments@ == b.segments@,
        a.position == b.position,
        a.width == b.width,
        a.wrap == b.wrap,
        a.x_anchor == b.x_anchor,
        a.y_anchor == b.y_anchor,
    ensures
        a.spec_bounding_box() == b.spec_bounding_box(),
        a.spec_dimensions() == b.spec_dimensions(),
{
}

/// The anchors only shift the text: two layouts that differ at most in
/// their anchors have the same dimensions.
pub proof fn lemma_dimensions_ignore_anchors(a: &TextLayout, b: &TextLayout)
    requires
        a.segments@ == b.segments@,
        a.width == b.width,
        a.wrap == b.wrap,
    ensures
        a.spec_dimensions() == b.spec_dimensions(),
{
}

/// Every word of `items` is at most `limit` wide.
pub open spec fn words_fit(items: Seq<Item>, limit: int) -> bool {
    forall|i: int| 0 <= i < items.len() && starts_word(items, i) ==> word_width(items, i) <= limit
}

proof fn lemma_word_width_unfold(items: Seq<Item>, i: int)
    ensures
        word_width(items, i) >= 0,
        0 <= i < items.len() && items[i].kind == CharKind::Letter ==> word_width(items, i) == items[i].advance
            + word_width(items, i + 1),
    decreases items.len() - i,
{
    if 0 <= i < items.len() && items[i].kind == CharKind::Letter {
        lemma_word_width_unfold(items, i + 1);
    }
}

proof fn lemma_word_wrap_pen(items: Seq<Item>, n: int, limit: int)
    requires
        words_fit(items, limit),
        0 <= n <= items.len(),
        limit >= 0,
    ensures
        flow(items, n, limit, WrapStyle::Word).ink_width <= limit,
        flow(items, n, limit, WrapStyle::Word).max_width <= limit,
        n < items.len() && items[n].kind == CharKind::Letter && !starts_word(items, n) ==> flow(
            items,
            n,
            limit,
            WrapStyle::Word,
        ).line_width + word_width(items, n) <= limit,
    decreases n,
{
    if n > 0 {
        lemma_word_wrap_pen(items, n - 1, limit);
        lemma_word_width_unfold(items, n - 1);
        lemma_word_width_unfold(items, n);
    }
}

/// Word wrapping keeps the text within its width: when every word fits in
/// the wrap width, every line does, since a space that ends a line takes no
/// room.
pub proof fn lemma_word_wrap_within_width(layout: &TextLayout, w: u32)
    requires
        layout.width == Some(w),
        layout.wrap == WrapStyle::Word,
        words_fit(items_of(layout.segments@), w as int),
    ensures
        layout.extent().0 <= w,
        layout.spec_dimensions().0 <= w,
{
    let items = items_of(layout.segments@);
    lemma_word_wrap_pen(items, items.len() as int, w as int);
}

} // verus!
