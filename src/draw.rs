use vstd::prelude::*;

use crate::error::{ConfigError, Error, ValueError};
use crate::image::{lemma_grid, lemma_grid_index, Image};
use crate::pixels::{mode_of, overlaid, Pixel};
use crate::types::OverlayMode;

verus! {

/// Where a border's stroke lies relative to the shape's outline.
#[derive(Clone, Copy, Debug, PartialEq, Eq, Structural)]
pub enum BorderPosition {
    /// Fully inside the outline.
    Inset,
    /// Straddling the outline.
    Center,
    /// Fully outside the outline.
    Outset,
}

/// The largest extent, radius plus border thickness, of a drawable shape.
pub const MAX_EXTENT: u32 = 0x4000_0000;

/// Reads a border position from its name: `inset`, `center` or `outset`.
pub fn get_border_position(name: &str) -> (r: Result<BorderPosition, Error>)
    ensures
        name@ == "inset"@ ==> r == Ok::<BorderPosition, Error>(BorderPosition::Inset),
        name@ == "center"@ ==> r == Ok::<BorderPosition, Error>(BorderPosition::Center),
        name@ == "outset"@ ==> r == Ok::<BorderPosition, Error>(BorderPosition::Outset),
        name@ != "inset"@ && name@ != "center"@ && name@ != "outset"@ ==> r == Err::<BorderPosition, Error>(
            Error::Value(ValueError::InvalidBorderPosition),
        ),
{
    proof {
        reveal_strlit("inset");
        reveal_strlit("center");
        reveal_strlit("outset");
        assert("inset"@[0] != "center"@[0] && "inset"@[0] != "outset"@[0] && "center"@[0] != "outset"@[0]);
    }
    if str_eq(name, "inset") {
        Ok(BorderPosition::Inset)
    } else if str_eq(name, "center") {
        Ok(BorderPosition::Center)
    } else if str_eq(name, "outset") {
        Ok(BorderPosition::Outset)
    } else {
        Err(Error::Value(ValueError::InvalidBorderPosition))
    }
}

/// The name of a border position.
pub fn from_border_position(position: BorderPosition) -> (r: &'static str)
    ensures
        position == BorderPosition::Inset ==> r@ == "inset"@,
        position == BorderPosition::Center ==> r@ == "center"@,
        position == BorderPosition::Outset ==> r@ == "outset"@,
{
    match position {
        BorderPosition::Inset => "inset",
        BorderPosition::Center => "center",
        BorderPosition::Outset => "outset",
    }
}

fn str_eq(a: &str, b: &str) -> (r: bool)
    ensures
        r == (a@ == b@),
{
    let n = a.unicode_len();
    if n != b.unicode_len() {
        return false;
    }
    let mut i: usize = 0;
    while i < n
        invariant
            n == a@.len(),
            n == b@.len(),
            i <= n,
            forall|j: int| 0 <= j < i ==> a@[j] == b@[j],
        decreases n - i,
    {
        if a.get_char(i) != b.get_char(i) {
            return false;
        }
        i = i + 1;
    }
    assert(a@ =~= b@);
    true
}

/// A stroke along the outline of a shape.
#[derive(Clone, Copy, Debug, PartialEq, Eq, Structural)]
pub struct Border {
    pub color: Pixel,
    pub thickness: u32,
    pub position: BorderPosition,
}

impl Border {
    pub fn new(color: Pixel, thickness: u32, position: BorderPosition) -> (r: Self)
        ensures
            r == (Border { color, thickness, position }),
    {
        Border { color, thickness, position }
    }

    /// How far the outer edge of the stroke lies outside the outline.
    pub open spec fn outward(&self) -> int {
        match self.position {
            BorderPosition::Inset => 0,
            BorderPosition::Center => (self.thickness / 2) as int,
            BorderPosition::Outset => self.thickness as int,
        }
    }

    fn outward_exec(&self) -> (r: u32)
        ensures
            r == self.outward(),
    {
        match self.position {
            BorderPosition::Inset => 0,
            BorderPosition::Center => self.thickness / 2,
            BorderPosition::Outset => self.thickness,
        }
    }
}

/// A rectangle whose top-left corner is at `position`, `size.0` pixels wide
/// and `size.1` pixels tall.
#[derive(Clone, Copy, Debug)]
pub struct Rectangle {
    pub position: (u32, u32),
    pub size: (u32, u32),
    pub border: Option<Border>,
    pub fill: Option<Pixel>,
    pub overlay: Option<OverlayMode>,
}

/// An ellipse centred at `position` with horizontal and vertical radii
/// `radii`.
#[derive(Clone, Copy, Debug)]
pub struct Ellipse {
    pub position: (u32, u32),
    pub radii: (u32, u32),
    pub border: Option<Border>,
    pub fill: Option<Pixel>,
    pub overlay: Option<OverlayMode>,
}

/// Whether `(px, py)` lies in the box from `(x1, y1)` inclusive to `(x2, y2)`
/// exclusive.
pub open spec fn in_box(px: int, py: int, x1: int, y1: int, x2: int, y2: int) -> bool {
    x1 <= px < x2 && y1 <= py < y2
}

/// Whether `(px, py)` lies in the closed ellipse centred at `(cx, cy)` with
/// radii `rx` and `ry`; an ellipse with a radius below one holds no point.
pub open spec fn in_ellipse(px: int, py: int, cx: int, cy: int, rx: int, ry: int) -> bool {
    rx > 0 && ry > 0 && (px - cx) * (px - cx) * (ry * ry) + (py - cy) * (py - cy) * (rx * rx) <= (rx * rx) * (ry * ry)
}

/// The pixel that a shape with this border and fill leaves at a place whose
/// old pixel is `old`: the border where the place is on the stroke, else the
/// fill where it is inside, else the old pixel.
pub open spec fn painted(
    old: Pixel,
    border: Option<Border>,
    fill: Option<Pixel>,
    on_stroke: bool,
    inside: bool,
    mode: OverlayMode,
) -> Pixel {
    if border is Some && on_stroke {
        overlaid(old, border->Some_0.color, mode)
    } else if fill is Some && inside {
        overlaid(old, fill->Some_0, mode)
    } else {
        old
    }
}

impl Rectangle {
    pub fn new(
        position: (u32, u32),
        size: (u32, u32),
        border: Option<Border>,
        fill: Option<Pixel>,
        overlay: Option<OverlayMode>,
    ) -> (r: Self)
        ensures
            r == (Rectangle { position, size, border, fill, overlay }),
    {
        Rectangle { position, size, border, fill, overlay }
    }

    /// The rectangle whose corners are `(x1, y1)` and `(x2, y2)`, the lesser
    /// corner inclusive and the greater exclusive.
    pub fn from_bounding_box(x1: u32, y1: u32, x2: u32, y2: u32) -> (r: Self)
        ensures
            r.position == ((if x1 <= x2 { x1 } else { x2 }), (if y1 <= y2 { y1 } else { y2 })),
            r.size == ((if x1 <= x2 { x2 - x1 } else { x1 - x2 }) as u32, (if y1 <= y2 { y2 - y1 } else { y1 - y2 }) as u32),
            r.border is None,
            r.fill is None,
            r.overlay is None,
    {
        let (lx, hx) = if x1 <= x2 { (x1, x2) } else { (x2, x1) };
        let (ly, hy) = if y1 <= y2 { (y1, y2) } else { (y2, y1) };
        Rectangle { position: (lx, ly), size: (hx - lx, hy - ly), border: None, fill: None, overlay: None }
    }

    pub open spec fn inside(&self, px: int, py: int) -> bool {
        in_box(px, py, self.position.0 as int, self.position.1 as int, self.position.0 + self.size.0, self.position.1 + self.size.1)
    }

    /// Whether `(px, py)` lies on the stroke of `b` around this rectangle:
    /// inside the outline grown by the stroke's outward reach, and not inside
    /// it grown by that reach less the thickness.
    pub open spec fn on_stroke(&self, b: Border, px: int, py: int) -> bool {
        let o = b.outward();
        let i = o - b.thickness;
        let (x, y, w, h) = (self.position.0 as int, self.position.1 as int, self.size.0 as int, self.size.1 as int);
        in_box(px, py, x - o, y - o, x + w + o, y + h + o) && !in_box(px, py, x - i, y - i, x + w + i, y + h + i)
    }
}

impl Ellipse {
    pub fn new(
        position: (u32, u32),
        radii: (u32, u32),
        border: Option<Border>,
        fill: Option<Pixel>,
        overlay: Option<OverlayMode>,
    ) -> (r: Self)
        ensures
            r == (Ellipse { position, radii, border, fill, overlay }),
    {
        Ellipse { position, radii, border, fill, overlay }
    }

    /// The ellipse inscribed in the box with corners `(x1, y1)` and
    /// `(x2, y2)`.
    pub fn from_bounding_box(x1: u32, y1: u32, x2: u32, y2: u32) -> (r: Self)
        ensures
            ({
                let (lx, hx) = if x1 <= x2 { (x1 as int, x2 as int) } else { (x2 as int, x1 as int) };
                let (ly, hy) = if y1 <= y2 { (y1 as int, y2 as int) } else { (y2 as int, y1 as int) };
                &&& r.position == ((lx + (hx - lx) / 2) as u32, (ly + (hy - ly) / 2) as u32)
                &&& r.radii == (((hx - lx) / 2) as u32, ((hy - ly) / 2) as u32)
            }),
            r.border is None,
            r.fill is None,
            r.overlay is None,
    {
        let (lx, hx) = if x1 <= x2 { (x1, x2) } else { (x2, x1) };
        let (ly, hy) = if y1 <= y2 { (y1, y2) } else { (y2, y1) };
        let rx = (hx - lx) / 2;
        let ry = (hy - ly) / 2;
        Ellipse { position: (lx + rx, ly + ry), radii: (rx, ry), border: None, fill: None, overlay: None }
    }

    /// A circle centred at `(x, y)`.
    pub fn circle(x: u32, y: u32, radius: u32) -> (r: Self)
        ensures
            r == (Ellipse { position: (x, y), radii: (radius, radius), border: None, fill: None, overlay: None }),
    {
        Ellipse { position: (x, y), radii: (radius, radius), border: None, fill: None, overlay: None }
    }

    pub open spec fn inside(&self, px: int, py: int) -> bool {
        in_ellipse(px, py, self.position.0 as int, self.position.1 as int, self.radii.0 as int, self.radii.1 as int)
    }

    /// Whether `(px, py)` lies on the stroke of `b` around this ellipse.
    pub open spec fn on_stroke(&self, b: Border, px: int, py: int) -> bool {
        let o = b.outward();
        let i = o - b.thickness;
        let (cx, cy, rx, ry) = (self.position.0 as int, self.position.1 as int, self.radii.0 as int, self.radii.1 as int);
        in_ellipse(px, py, cx, cy, rx + o, ry + o) && !in_ellipse(px, py, cx, cy, rx + i, ry + i)
    }

    /// The radii and the border are small enough to be measured exactly.
    pub open spec fn fits(&self) -> bool {
        let t: int = match self.border {
            Some(b) => b.thickness as int,
            None => 0,
        };
        self.radii.0 + t <= MAX_EXTENT && self.radii.1 + t <= MAX_EXTENT
    }
}

fn in_box_exec(px: i64, py: i64, x1: i64, y1: i64, x2: i64, y2: i64) -> (r: bool)
    ensures
        r == in_box(px as int, py as int, x1 as int, y1 as int, x2 as int, y2 as int),
{
    x1 <= px && px < x2 && y1 <= py && py < y2
}

fn in_ellipse_exec(px: u32, py: u32, cx: u32, cy: u32, rx: i64, ry: i64) -> (r: bool)
    requires
        rx <= MAX_EXTENT,
        ry <= MAX_EXTENT,
    ensures
        r == in_ellipse(px as int, py as int, cx as int, cy as int, rx as int, ry as int),
{
    if rx <= 0 || ry <= 0 {
        return false;
    }
    let dx: i128 = px as i128 - cx as i128;
    let dy: i128 = py as i128 - cy as i128;
    assert(rx * rx <= 0x1000_0000_0000_0000 && ry * ry <= 0x1000_0000_0000_0000) by (nonlinear_arith)
        requires
            0 < rx <= 0x4000_0000,
            0 < ry <= 0x4000_0000,
    ;
    let rx2: i128 = rx as i128 * rx as i128;
    let ry2: i128 = ry as i128 * ry as i128;
    let adx: i128 = if dx < 0 { -dx } else { dx };
    let ady: i128 = if dy < 0 { -dy } else { dy };
    if adx > rx as i128 {
        assert(dx * dx * ry2 > rx2 * ry2 && dy * dy * rx2 >= 0) by (nonlinear_arith)
            requires
                adx == (if dx < 0 { -dx } else { dx as int }),
                adx > rx > 0,
                ry > 0,
                rx2 == rx * rx,
                ry2 == ry * ry,
        ;
        return false;
    }
    if ady > ry as i128 {
        assert(dy * dy * rx2 > rx2 * ry2 && dx * dx * ry2 >= 0) by (nonlinear_arith)
            requires
                ady == (if dy < 0 { -dy } else { dy as int }),
                ady > ry > 0,
                rx > 0,
                rx2 == rx * rx,
                ry2 == ry * ry,
        ;
        return false;
    }
    assert(0 <= dx * dx <= rx2 && 0 <= dy * dy <= ry2 && rx2 <= 0x1000_0000_0000_0000 && ry2 <= 0x1000_0000_0000_0000)
        by (nonlinear_arith)
        requires
            adx == (if dx < 0 { -dx } else { dx as int }),
            ady == (if dy < 0 { -dy } else { dy as int }),
            adx <= rx <= 0x4000_0000,
            ady <= ry <= 0x4000_0000,
            rx > 0,
            ry > 0,
            rx2 == rx * rx,
            ry2 == ry * ry,
    ;
    let ddx: i128 = dx * dx;
    let ddy: i128 = dy * dy;
    assert(0 <= ddx * ry2 <= rx2 * ry2 && 0 <= ddy * rx2 <= rx2 * ry2 && rx2 * ry2 <= 0x100_0000_0000_0000_0000_0000_0000_0000)
        by (nonlinear_arith)
        requires
            0 <= ddx <= rx2 <= 0x1000_0000_0000_0000,
            0 <= ddy <= ry2 <= 0x1000_0000_0000_0000,
    ;
    ddx * ry2 + ddy * rx2 <= rx2 * ry2
}

/// A shape whose outline is a rectangle or an ellipse.
#[derive(Clone, Copy)]
enum Outline {
    Rect(Rectangle),
    Oval(Ellipse),
}

impl Outline {
    spec fn border(&self) -> Option<Border> {
        match self {
            Outline::Rect(r) => r.border,
            Outline::Oval(e) => e.border,
        }
    }

    spec fn fill(&self) -> Option<Pixel> {
        match self {
            Outline::Rect(r) => r.fill,
            Outline::Oval(e) => e.fill,
        }
    }

    spec fn stroke_hit(&self, px: int, py: int) -> bool {
        match self {
            Outline::Rect(r) => r.stroke_hit(px, py),
            Outline::Oval(e) => e.stroke_hit(px, py),
        }
    }

    spec fn fill_hit(&self, px: int, py: int) -> bool {
        match self {
            Outline::Rect(r) => r.inside(px, py),
            Outline::Oval(e) => e.inside(px, py),
        }
    }

    spec fn fits(&self) -> bool {
        match self {
            Outline::Rect(_) => true,
            Outline::Oval(e) => e.fits(),
        }
    }

    fn hits(&self, px: u32, py: u32) -> (r: (bool, bool))
        requires
            self.fits(),
        ensures
            r.0 == self.stroke_hit(px as int, py as int),
            r.1 == self.fill_hit(px as int, py as int),
    {
        match self {
            Outline::Rect(rect) => {
                let (x, y) = (rect.position.0 as i64, rect.position.1 as i64);
                let (w, h) = (rect.size.0 as i64, rect.size.1 as i64);
                let (qx, qy) = (px as i64, py as i64);
                let stroke = match rect.border {
                    Some(b) => {
                        let o = b.outward_exec() as i64;
                        let i = o - b.thickness as i64;
                        in_box_exec(qx, qy, x - o, y - o, x + w + o, y + h + o) && !in_box_exec(
                            qx,
                            qy,
                            x - i,
                            y - i,
                            x + w + i,
                            y + h + i,
                        )
                    },
                    None => false,
                };
                (stroke, in_box_exec(qx, qy, x, y, x + w, y + h))
            },
            Outline::Oval(e) => {
                let (cx, cy) = e.position;
                let (rx, ry) = (e.radii.0 as i64, e.radii.1 as i64);
                let stroke = match e.border {
                    Some(b) => {
                        let o = b.outward_exec() as i64;
                        let i = o - b.thickness as i64;
                        in_ellipse_exec(px, py, cx, cy, rx + o, ry + o) && !in_ellipse_exec(px, py, cx, cy, rx + i, ry + i)
                    },
                    None => false,
                };
                (stroke, in_ellipse_exec(px, py, cx, cy, rx, ry))
            },
        }
    }
}

impl Rectangle {
    /// Whether `(px, py)` lies on this rectangle's border, if it has one.
    pub open spec fn stroke_hit(&self, px: int, py: int) -> bool {
        match self.border {
            Some(b) => self.on_stroke(b, px, py),
            None => false,
        }
    }
}

impl Ellipse {
    /// Whether `(px, py)` lies on this ellipse's border, if it has one.
    pub open spec fn stroke_hit(&self, px: int, py: int) -> bool {
        match self.border {
            Some(b) => self.on_stroke(b, px, py),
            None => false,
        }
    }
}

/// The overlay mode a shape draws with: its own, or else the image's.
pub open spec fn mode_for(own: Option<OverlayMode>, image: &Image) -> OverlayMode {
    match own {
        Some(m) => m,
        None => image.overlay_mode,
    }
}

/// The same image with possibly other pixels of the same format.
pub open spec fn same_frame(a: &Image, b: &Image) -> bool {
    &&& a.wf()
    &&& a.width == b.width
    &&& a.height == b.height
    &&& a.mode == b.mode
    &&& a.overlay_mode == b.overlay_mode
}

fn paint(image: &mut Image, shape: &Outline, mode: OverlayMode)
    requires
        old(image).wf(),
        shape.fits(),
    ensures
        same_frame(final(image), old(image)),
        forall|px: int, py: int|
            old(image).in_bounds(px, py) ==> #[trigger] final(image).at(px, py) == painted(
                old(image).at(px, py),
                shape.border(),
                shape.fill(),
                shape.stroke_hit(px, py),
                shape.fill_hit(px, py),
                mode,
            ),
{
    let ghost prev = *image;
    let n = image.pixels.len();
    let w = image.width as usize;
    let mut i: usize = 0;
    while i < n
        invariant
            prev.wf(),
            shape.fits(),
            n == prev.pixels@.len(),
            w == prev.width,
            image.width == prev.width,
            image.height == prev.height,
            image.mode == prev.mode,
            image.overlay_mode == prev.overlay_mode,
            image.pixels@.len() == n,
            i <= n,
            forall|j: int|
                0 <= j < i ==> #[trigger] image.pixels@[j] == painted(
                    prev.pixels@[j],
                    shape.border(),
                    shape.fill(),
                    shape.stroke_hit(j % (w as int), j / (w as int)),
                    shape.fill_hit(j % (w as int), j / (w as int)),
                    mode,
                ),
            forall|j: int| i <= j < n ==> #[trigger] image.pixels@[j] == prev.pixels@[j],
            forall|j: int| 0 <= j < n ==> mode_of(#[trigger] image.pixels@[j]) == prev.mode,
        decreases n - i,
    {
        proof {
            lemma_grid_index(w as int, prev.height as int, i as int);
        }
        let px = (i % w) as u32;
        let py = (i / w) as u32;
        let (stroke, inside) = shape.hits(px, py);
        let old_p = image.pixels[i];
        let border = match shape {
            Outline::Rect(r) => r.border,
            Outline::Oval(e) => e.border,
        };
        let fill = match shape {
            Outline::Rect(r) => r.fill,
            Outline::Oval(e) => e.fill,
        };
        let new_p = match (border, fill) {
            (Some(b), _) if stroke => old_p.overlay(&b.color, mode),
            (_, Some(f)) if inside => old_p.overlay(&f, mode),
            _ => old_p,
        };
        image.pixels.set(i, new_p);
        i = i + 1;
    }
    assert forall|px: int, py: int| prev.in_bounds(px, py) implies #[trigger] image.at(px, py) == painted(
        prev.at(px, py),
        shape.border(),
        shape.fill(),
        shape.stroke_hit(px, py),
        shape.fill_hit(px, py),
        mode,
    ) by {
        lemma_grid(prev.width as int, prev.height as int, px, py);
    }
}

impl Rectangle {
    /// What drawing this shape on `before` does: the result `r` and the
    /// image `after`.
    pub open spec fn outcome(&self, before: &Image, after: &Image, r: Result<(), Error>) -> bool {
        &&& same_frame(after, before)
        &&& (self.size.0 == 0 || self.size.1 == 0) ==> r == Err::<(), Error>(Error::Configuration(ConfigError::ZeroSize))
        &&& (self.size.0 > 0 && self.size.1 > 0 && self.border is None && self.fill is None) ==> r == Err::<(), Error>(
            Error::Configuration(ConfigError::NoFillOrBorder),
        )
        &&& r is Err ==> after.pixels@ == before.pixels@
        &&& r is Ok <==> (self.size.0 > 0 && self.size.1 > 0 && (self.border is Some || self.fill is Some))
        &&& r is Ok ==> forall|px: int, py: int|
            before.in_bounds(px, py) ==> #[trigger] after.at(px, py) == painted(
                before.at(px, py),
                self.border,
                self.fill,
                self.stroke_hit(px, py),
                self.inside(px, py),
                mode_for(self.overlay, before),
            )
    }

    /// Draws this rectangle: the fill inside the outline, then the border
    /// along it, which wins where both apply. Fails when a side is zero or
    /// when neither a fill nor a border is set.
    pub fn draw(&self, image: &mut Image) -> (r: Result<(), Error>)
        requires
            old(image).wf(),
        ensures
            self.outcome(old(image), final(image), r),
    {
        if self.size.0 == 0 || self.size.1 == 0 {
            return Err(Error::Configuration(ConfigError::ZeroSize));
        }
        if self.border.is_none() && self.fill.is_none() {
            return Err(Error::Configuration(ConfigError::NoFillOrBorder));
        }
        let mode = match self.overlay {
            Some(m) => m,
            None => image.overlay_mode,
        };
        paint(image, &Outline::Rect(*self), mode);
        Ok(())
    }
}

impl Ellipse {
    /// What drawing this shape on `before` does: the result `r` and the
    /// image `after`.
    pub open spec fn outcome(&self, before: &Image, after: &Image, r: Result<(), Error>) -> bool {
        &&& same_frame(after, before)
        &&& (self.radii.0 == 0 || self.radii.1 == 0) ==> r == Err::<(), Error>(Error::Configuration(ConfigError::ZeroSize))
        &&& (self.radii.0 > 0 && self.radii.1 > 0 && self.border is None && self.fill is None) ==> r == Err::<(), Error>(
            Error::Configuration(ConfigError::NoFillOrBorder),
        )
        &&& r is Err ==> after.pixels@ == before.pixels@
        &&& (self.radii.0 > 0 && self.radii.1 > 0 && (self.border is Some || self.fill is Some) && !self.fits()) ==> r
            == Err::<(), Error>(Error::Configuration(ConfigError::TooLarge))
        &&& r is Ok <==> (self.radii.0 > 0 && self.radii.1 > 0 && (self.border is Some || self.fill is Some) && self.fits())
        &&& r is Ok ==> forall|px: int, py: int|
            before.in_bounds(px, py) ==> #[trigger] after.at(px, py) == painted(
                before.at(px, py),
                self.border,
                self.fill,
                self.stroke_hit(px, py),
                self.inside(px, py),
                mode_for(self.overlay, before),
            )
    }

    /// Draws this ellipse: the fill inside the outline, then the border
    /// along it, which wins where both apply. Fails when a radius is zero,
    /// when neither a fill nor a border is set, or when a radius plus the
    /// border's thickness exceeds `MAX_EXTENT`.
    pub fn draw(&self, image: &mut Image) -> (r: Result<(), Error>)
        requires
            old(image).wf(),
        ensures
            self.outcome(old(image), final(image), r),
    {
        if self.radii.0 == 0 || self.radii.1 == 0 {
            return Err(Error::Configuration(ConfigError::ZeroSize));
        }
        if self.border.is_none() && self.fill.is_none() {
            return Err(Error::Configuration(ConfigError::NoFillOrBorder));
        }
        let t: u64 = match self.border {
            Some(b) => b.thickness as u64,
            None => 0,
        };
        if self.radii.0 as u64 + t > MAX_EXTENT as u64 || self.radii.1 as u64 + t > MAX_EXTENT as u64 {
            return Err(Error::Configuration(ConfigError::TooLarge));
        }
        let mode = match self.overlay {
            Some(m) => m,
            None => image.overlay_mode,
        };
        paint(image, &Outline::Oval(*self), mode);
        Ok(())
    }
}

} // verus!
