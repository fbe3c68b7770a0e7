use vstd::prelude::*;

use crate::draw::{same_frame, Ellipse, Rectangle};
use crate::error::Error;
use crate::image::{lemma_grid, lemma_grid_index, Image};
use crate::pixels::{overlaid, rgb_of, Pixel, Rgba};
use crate::text::{
    breaks_before, effective_wrap, flow, item_of, items_of, lemma_find_glyph_range, limit_of, pen_step, scale_exec,
    scaled, PenState, x_shift, y_shift, CharKind, Glyph, Item, TextLayout, TextSegment, ITEM_MAX,
};
use crate::types::{HorizontalAnchor, OverlayMode, VerticalAnchor, WrapStyle};

verus! {

/// `fill` with its opacity weighted by coverage `c` (0 to 255).
pub open spec fn tinted(fill: Pixel, c: u8) -> Pixel {
    let rgb = rgb_of(fill);
    let a: int = match fill {
        Pixel::Rgba(p) => p.a as int,
        _ => 255,
    };
    Pixel::Rgba(Rgba { r: rgb.r, g: rgb.g, b: rgb.b, a: (a * c / 255) as u8 })
}

/// The coverage of glyph `g`, scaled to `sw` by `sh`, at column `u` of row
/// `v` (nearest sample).
pub open spec fn coverage_at(g: Glyph, sw: int, sh: int, u: int, v: int) -> u8 {
    g.coverage@[(v * g.height / sh) * g.width + u * g.width / sw]
}

/// The pixel at `(px, py)`, whose old value is `old`, after glyph `g`
/// scaled to `sw` by `sh` is stamped with its top-left corner at `(gx, gy)`:
/// where the glyph covers the place, `fill` weighted by the coverage is laid
/// over the old pixel.
pub open spec fn stamped(
    old: Pixel,
    gx: int,
    gy: int,
    g: Glyph,
    sw: int,
    sh: int,
    fill: Pixel,
    mode: OverlayMode,
    px: int,
    py: int,
) -> Pixel {
    if g.width > 0 && g.height > 0 && gx <= px < gx + sw && gy <= py < gy + sh && coverage_at(g, sw, sh, px - gx, py - gy)
        > 0 {
        overlaid(old, tinted(fill, coverage_at(g, sw, sh, px - gx, py - gy)), mode)
    } else {
        old
    }
}

fn tint(fill: &Pixel, c: u8) -> (r: Pixel)
    ensures
        r == tinted(*fill, c),
{
    let rgb = fill.convert(crate::pixels::Mode::Rgb);
    let a: u32 = match fill {
        Pixel::Rgba(p) => p.a as u32,
        _ => 255,
    };
    assert(a * c / 255 <= 255) by (nonlinear_arith)
        requires
            a <= 255,
            c <= 255,
    ;
    match rgb {
        Pixel::Rgb(p) => Pixel::Rgba(Rgba { r: p.r, g: p.g, b: p.b, a: (a * c as u32 / 255) as u8 }),
        _ => Pixel::Rgba(Rgba { r: 0, g: 0, b: 0, a: 0 }),
    }
}

proof fn lemma_scaled_index(u: int, n: int, s: int)
    requires
        0 <= u < s <= 0xffff_ffff,
        0 <= n <= 0xffff,
    ensures
        0 <= u * n <= 0xffff_ffff * 0xffff,
        0 <= u * n / s,
        n > 0 ==> u * n / s < n,
{
    assert(u * n <= 0xffff_ffff * 0xffff) by (nonlinear_arith)
        requires
            0 <= u <= 0xffff_ffff,
            0 <= n <= 0xffff,
    ;
    assert(0 <= u * n) by (nonlinear_arith)
        requires
            0 <= u,
            0 <= n,
    ;
    vstd::arithmetic::div_mod::lemma_div_pos_is_pos(u * n, s);
    if n > 0 {
        assert(u * n < s * n) by (nonlinear_arith)
            requires
                0 <= u < s,
                n > 0,
        ;
        assert(u * n / s < n) by (nonlinear_arith)
            requires
                u * n < s * n,
                s > 0,
                u * n >= 0,
        ;
    }
}

/// Stamps glyph `g`, scaled to `sw` by `sh`, with its top-left corner at
/// `(gx, gy)`.
fn stamp(image: &mut Image, g: &Glyph, gx: i128, gy: i128, sw: u32, sh: u32, fill: &Pixel, mode: OverlayMode)
    requires
        old(image).wf(),
        g.coverage@.len() == g.width * g.height,
        -0x10_0000_0000_0000_0000_0000_0000 <= gx <= 0x10_0000_0000_0000_0000_0000_0000,
        -0x10_0000_0000_0000_0000_0000_0000 <= gy <= 0x10_0000_0000_0000_0000_0000_0000,
    ensures
        same_frame(final(image), old(image)),
        final(image).pixels@ == Seq::new(
            old(image).pixels@.len(),
            |j: int|
                stamped(
                    old(image).pixels@[j],
                    gx as int,
                    gy as int,
                    *g,
                    sw as int,
                    sh as int,
                    *fill,
                    mode,
                    j % (old(image).width as int),
                    j / (old(image).width as int),
                ),
        ),
{
    let ghost prev = *image;
    if g.width == 0 || g.height == 0 {
        assert(image.pixels@ =~= Seq::new(
            prev.pixels@.len(),
            |j: int|
                stamped(
                    prev.pixels@[j],
                    gx as int,
                    gy as int,
                    *g,
                    sw as int,
                    sh as int,
                    *fill,
                    mode,
                    j % (prev.width as int),
                    j / (prev.width as int),
                ),
        ));
        return;
    }
    let w = image.width as i128;
    let h = image.height as i128;
    let x0: i128 = if gx < 0 { 0 } else { gx };
    let y0: i128 = if gy < 0 { 0 } else { gy };
    let x1: i128 = if gx + sw as i128 > w { w } else { gx + sw as i128 };
    let y1: i128 = if gy + sh as i128 > h { h } else { gy + sh as i128 };
    let bw: i128 = if x1 > x0 { x1 - x0 } else { 0 };
    let bh: i128 = if y1 > y0 { y1 - y0 } else { 0 };
    assert(bw * bh <= w * h) by (nonlinear_arith)
        requires
            0 <= bw <= w,
            0 <= bh <= h,
    ;
    let n: i128 = bw * bh;
    let mut k: i128 = 0;
    while k < n
        invariant
            prev.wf(),
            same_frame(image, &prev),
            image.pixels@.len() == prev.pixels@.len(),
            w == prev.width,
            h == prev.height,
            g.coverage@.len() == g.width * g.height,
            g.width > 0,
            g.height > 0,
            x0 == (if gx < 0 { 0 } else { gx }),
            y0 == (if gy < 0 { 0 } else { gy }),
            x1 == (if gx + sw > w { w as int } else { gx + sw }),
            y1 == (if gy + sh > h { h as int } else { gy + sh }),
            bw == (if x1 > x0 { x1 - x0 } else { 0 }),
            bh == (if y1 > y0 { y1 - y0 } else { 0 }),
            n == bw * bh,
            0 <= k <= n,
            forall|px: int, py: int|
                prev.in_bounds(px, py) ==> #[trigger] image.at(px, py) == (if x0 <= px < x0 + bw && y0 <= py < y0 + bh
                    && (py - y0) * bw + (px - x0) < k {
                    stamped(prev.at(px, py), gx as int, gy as int, *g, sw as int, sh as int, *fill, mode, px, py)
                } else {
                    prev.at(px, py)
                }),
        decreases n - k,
    {
        assert(bw > 0 && bh > 0) by (nonlinear_arith)
            requires
                0 <= k < bw * bh,
                bw >= 0,
                bh >= 0,
        ;
        proof {
            lemma_grid_index(bw as int, bh as int, k as int);
        }
        let u = k % bw;
        let v = k / bw;
        let px = x0 + u;
        let py = y0 + v;
        proof {
            lemma_grid(w as int, h as int, px as int, py as int);
        }
        let idx = (py * w + px) as usize;
        let du = (px - gx) as u64;
        let dv = (py - gy) as u64;
        proof {
            lemma_scaled_index(du as int, g.width as int, sw as int);
            lemma_scaled_index(dv as int, g.height as int, sh as int);
        }
        let cu = (du * g.width as u64 / sw as u64) as usize;
        let cv = (dv * g.height as u64 / sh as u64) as usize;
        proof {
            lemma_grid(g.width as int, g.height as int, cu as int, cv as int);
        }
        assert(g.width * g.height <= 0xffff * 0xffff) by (nonlinear_arith)
            requires
                g.width <= 0xffff,
                g.height <= 0xffff,
        ;
        let c = g.coverage[(cv as u64 * g.width as u64 + cu as u64) as usize];
        let ghost before = *image;
        if c > 0 {
            let top = tint(fill, c);
            let p = image.pixels[idx].overlay(&top, mode);
            image.pixels.set(idx, p);
        }
        proof {
            assert forall|qx: int, qy: int| prev.in_bounds(qx, qy) implies #[trigger] image.at(qx, qy) == (if x0 <= qx
                < x0 + bw && y0 <= qy < y0 + bh && (qy - y0) * bw + (qx - x0) < k + 1 {
                stamped(prev.at(qx, qy), gx as int, gy as int, *g, sw as int, sh as int, *fill, mode, qx, qy)
            } else {
                prev.at(qx, qy)
            }) by {
                lemma_grid(w as int, h as int, qx, qy);
                if qx == px && qy == py {
                    assert((qy - y0) * bw + (qx - x0) == k);
                } else {
                    assert(qy * w + qx != py * w + px);
                    assert(before.at(qx, qy) == image.at(qx, qy));
                    if x0 <= qx < x0 + bw && y0 <= qy < y0 + bh {
                        lemma_grid(bw as int, bh as int, qx - x0, qy - y0);
                        assert((qy - y0) * bw + (qx - x0) != k);
                    }
                }
            }
        }
        k = k + 1;
    }
    proof {
        assert forall|px: int, py: int| prev.in_bounds(px, py) implies #[trigger] image.at(px, py) == stamped(
            prev.at(px, py),
            gx as int,
            gy as int,
            *g,
            sw as int,
            sh as int,
            *fill,
            mode,
            px,
            py,
        ) by {
            if x0 <= px < x0 + bw && y0 <= py < y0 + bh {
                lemma_grid(bw as int, bh as int, px - x0, py - y0);
            }
        }
        assert(image.pixels@ =~= Seq::new(
            prev.pixels@.len(),
            |j: int|
                stamped(prev.pixels@[j], gx as int, gy as int, *g, sw as int, sh as int, *fill, mode, j % w as int, j / w as int),
        )) by {
            assert forall|j: int| 0 <= j < prev.pixels@.len() implies image.pixels@[j] == stamped(
                prev.pixels@[j],
                gx as int,
                gy as int,
                *g,
                sw as int,
                sh as int,
                *fill,
                mode,
                j % w as int,
                j / w as int,
            ) by {
                lemma_grid_index(w as int, h as int, j);
                assert(image.at(j % w as int, j / w as int) == image.pixels@[j]);
            }
        }
    }
}

/// Every item of a list of segments refers to one of the segments and, when
/// it has a glyph, to a glyph of that segment's font.
pub open spec fn items_refer(segments: Seq<TextSegment>, items: Seq<Item>) -> bool {
    forall|i: int|
        0 <= i < items.len() ==> {
            &&& (#[trigger] items[i]).segment < segments.len()
            &&& items[i].has_glyph ==> items[i].glyph < segments[items[i].segment as int].font.glyphs@.len()
        }
}

pub proof fn lemma_items_refer(segments: Seq<TextSegment>)
    requires
        segments.len() <= usize::MAX,
    ensures
        items_refer(segments, items_of(segments)),
    decreases segments.len(),
{
    if segments.len() > 0 {
        let front = segments.drop_last();
        lemma_items_refer(front);
        let s = segments.len() - 1;
        let last = segments.last();
        let items = items_of(segments);
        assert forall|i: int| 0 <= i < items.len() implies {
            &&& (#[trigger] items[i]).segment < segments.len()
            &&& items[i].has_glyph ==> items[i].glyph < segments[items[i].segment as int].font.glyphs@.len()
        } by {
            let n = items_of(front).len();
            if i < n {
                assert(items[i] == items_of(front)[i]);
                assert(front[items[i].segment as int] == segments[items[i].segment as int]);
            } else {
                let c = last.text@[i - n];
                assert(items[i] == item_of(last.font, last.size, s as usize, c));
                lemma_find_glyph_range(last.font.glyphs@, c, 0);
            }
        }
    }
}

impl TextLayout {
    /// The top-left corner of the laid-out text, before clamping.
    pub open spec fn origin(&self) -> (int, int) {
        let (w, h) = self.extent();
        (self.position.0 - x_shift(self.x_anchor, w), self.position.1 - y_shift(self.y_anchor, h))
    }
}

/// Where item `i` is placed, relative to the top-left corner of the text.
pub open spec fn place(items: Seq<Item>, i: int, limit: int, style: WrapStyle) -> (int, int) {
    let pen = flow(items, i, limit, style);
    if breaks_before(items, i, pen, limit, style) {
        (0, pen.done_height + pen.line_height)
    } else {
        (pen.line_width, pen.done_height)
    }
}

/// The pixel at `(px, py)`, whose old value is `old`, after item `it` of
/// `layout` is stamped at `(gx, gy)`. Line breaks and characters without a
/// glyph leave it as it is.
pub open spec fn item_stamped(layout: &TextLayout, it: Item, gx: int, gy: int, old: Pixel, px: int, py: int) -> Pixel {
    if it.kind == CharKind::Newline || !it.has_glyph {
        old
    } else {
        let seg = layout.segments@[it.segment as int];
        let g = seg.font.glyphs@[it.glyph as int];
        stamped(
            old,
            gx,
            gy,
            g,
            scaled(g.width as int, seg.size as int, seg.font.optimal_size as int),
            scaled(g.height as int, seg.size as int, seg.font.optimal_size as int),
            seg.fill,
            seg.overlay,
            px,
            py,
        )
    }
}

/// The pixels of `img` after the first `n` items of `layout` are stamped, one
/// after another.
pub open spec fn text_pixels(img: &Image, layout: &TextLayout, n: int) -> Seq<Pixel>
    decreases n,
{
    if n <= 0 {
        img.pixels@
    } else {
        let prev = text_pixels(img, layout, n - 1);
        let items = items_of(layout.segments@);
        let (ox, oy) = layout.origin();
        let (dx, dy) = place(items, n - 1, limit_of(layout.width), effective_wrap(layout.width, layout.wrap));
        Seq::new(
            prev.len(),
            |j: int| item_stamped(layout, items[n - 1], ox + dx, oy + dy, prev[j], j % (img.width as int), j / (img.width as int)),
        )
    }
}

impl TextLayout {
    /// Draws the text: each glyph, in order, is stamped where the layout
    /// places it, its segment's fill weighted by the glyph's coverage and
    /// laid over the image under the segment's overlay mode.
    pub fn draw(&self, image: &mut Image)
        requires
            old(image).wf(),
            self.wf(),
        ensures
            same_frame(final(image), old(image)),
            final(image).pixels@ == text_pixels(old(image), self, items_of(self.segments@).len() as int),
    {
        let ghost prev = *image;
        let items = self.items_exec();
        let n = items.len();
        let segment_count = self.segments.len();
        proof {
            lemma_items_refer(self.segments@);
        }
        let (w, h) = self.extent_exec();
        let style = match self.width {
            Some(_) => self.wrap,
            None => WrapStyle::NoWrap,
        };
        let limit = match self.width {
            Some(v) => v,
            None => 0,
        };
        let sx: i128 = match self.x_anchor {
            HorizontalAnchor::Left => 0,
            HorizontalAnchor::Center => (w / 2) as i128,
            HorizontalAnchor::Right => w as i128,
        };
        let sy: i128 = match self.y_anchor {
            VerticalAnchor::Top => 0,
            VerticalAnchor::Center => (h / 2) as i128,
            VerticalAnchor::Bottom => h as i128,
        };
        let ox: i128 = self.position.0 as i128 - sx;
        let oy: i128 = self.position.1 as i128 - sy;
        assert(n * ITEM_MAX <= 0xffff_ffff_ffff_ffff * ITEM_MAX) by (nonlinear_arith)
            requires
                n <= 0xffff_ffff_ffff_ffff,
        ;
        let mut pen = PenState { line_width: 0, ink_width: 0, line_height: 0, max_width: 0, done_height: 0 };
        let mut i: usize = 0;
        while i < n
            invariant
                prev.wf(),
                self.wf(),
                same_frame(image, &prev),
                items@ == items_of(self.segments@),
                items_refer(self.segments@, items@),
                n == items@.len(),
                n * ITEM_MAX <= 0xffff_ffff_ffff_ffff * ITEM_MAX,
                i <= n,
                style == effective_wrap(self.width, self.wrap),
                limit == limit_of(self.width),
                ox == self.origin().0,
                oy == self.origin().1,
                -0x1_0000_0000_0000_0000_0000_0000 <= ox <= 0x1_0000_0000,
                -0x1_0000_0000_0000_0000_0000_0000 <= oy <= 0x1_0000_0000,
                pen.tracks(items@, i as int, limit as int, style),
                image.pixels@ == text_pixels(&prev, self, i as int),
            decreases n - i,
        {
            let it = items[i];
            let (brk, next) = pen_step(&items, i, pen, limit, style);
            let (dx, dy): (u128, u128) = if brk {
                (0, pen.done_height + pen.line_height)
            } else {
                (pen.line_width, pen.done_height)
            };
            proof {
                if it.kind != CharKind::Newline {
                    assert((dx as int, dy as int) == place(items@, i as int, limit as int, style));
                }
            }
            let ghost before = image.pixels@;
            if it.kind != CharKind::Newline && it.has_glyph {
                let seg = &self.segments[it.segment];
                let g = &seg.font.glyphs[it.glyph];
                let sw = scale_exec(g.width, seg.size, seg.font.optimal_size);
                let sh = scale_exec(g.height, seg.size, seg.font.optimal_size);
                stamp(image, g, ox + dx as i128, oy + dy as i128, sw, sh, &seg.fill, seg.overlay);
            }
            proof {
                assert(image.pixels@ =~= text_pixels(&prev, self, i + 1));
            }
            pen = next;
            i = i + 1;
        }
    }
}

impl TextSegment {
    /// A layout of this segment alone, at the segment's position, width and
    /// wrapping, anchored at its top-left corner.
    pub fn into_layout(self) -> (r: TextLayout)
        ensures
            r.segments@ == seq![self],
            r.position == self.position,
            r.width == self.width,
            r.wrap == self.wrap,
            r.x_anchor == HorizontalAnchor::Left,
            r.y_anchor == VerticalAnchor::Top,
    {
        let position = self.position;
        let width = self.width;
        let wrap = self.wrap;
        TextLayout {
            segments: vec![self],
            position,
            width,
            wrap,
            x_anchor: HorizontalAnchor::Left,
            y_anchor: VerticalAnchor::Top,
        }
    }
}

/// Something that can be drawn onto an image.
pub enum DrawEntity {
    Rectangle(Rectangle),
    Ellipse(Ellipse),
    /// A text segment, drawn at its own position.
    Text(TextSegment),
    Layout(TextLayout),
}

impl DrawEntity {
    /// The entity is one that can be drawn: text must have well-formed
    /// fonts.
    pub open spec fn wf(&self) -> bool {
        match self {
            DrawEntity::Rectangle(_) | DrawEntity::Ellipse(_) => true,
            DrawEntity::Text(t) => t.font.wf(),
            DrawEntity::Layout(l) => l.wf(),
        }
    }
}

impl Image {
    /// Draws `entity` onto this image with the routine of its kind.
    pub fn draw(&mut self, entity: DrawEntity) -> (r: Result<(), Error>)
        requires
            old(self).wf(),
            entity.wf(),
        ensures
            match entity {
                DrawEntity::Rectangle(rect) => rect.outcome(old(self), final(self), r),
                DrawEntity::Ellipse(e) => e.outcome(old(self), final(self), r),
                DrawEntity::Text(t) => {
                    &&& r is Ok
                    &&& same_frame(final(self), old(self))
                    &&& exists|l: TextLayout|
                        l.segments@ == seq![t] && l.position == t.position && l.width == t.width && l.wrap == t.wrap
                            && l.x_anchor == HorizontalAnchor::Left && l.y_anchor == VerticalAnchor::Top
                            && #[trigger] final(self).pixels@ == text_pixels(old(self), &l, items_of(l.segments@).len() as int)
                },
                DrawEntity::Layout(l) => {
                    &&& r is Ok
                    &&& same_frame(final(self), old(self))
                    &&& final(self).pixels@ == text_pixels(old(self), &l, items_of(l.segments@).len() as int)
                },
            },
    {
        match entity {
            DrawEntity::Rectangle(rect) => rect.draw(self),
            DrawEntity::Ellipse(e) => e.draw(self),
            DrawEntity::Text(t) => {
                let layout = t.into_layout();
                proof {
                    assert forall|k: int| 0 <= k < layout.segments@.len() implies (#[trigger] layout.segments@[k]).font.wf() by {
                        assert(layout.segments@[k] == t);
                    }
                }
                layout.draw(self);
                Ok(())
            },
            DrawEntity::Layout(l) => {
                l.draw(self);
                Ok(())
            },
        }
    }
}

} // verus!
