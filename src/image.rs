use vstd::prelude::*;

use crate::error::{mode_mismatch, Error, ExpectedMode, Mismatch, ValueError};
use crate::pixels::{converted, inverted, mode_of, overlaid, BitPixel, Mode, Pixel, Rgba, L};
use crate::types::OverlayMode;

verus! {

/// A still image: a row-major grid of pixels that all share one format.
#[derive(Clone, Debug)]
pub struct Image {
    pub width: u32,
    pub height: u32,
    pub pixels: Vec<Pixel>,
    pub mode: Mode,
    pub overlay_mode: OverlayMode,
}

/// `y * w + x` stays in the grid, and division by `w` recovers `y` and `x`.
pub proof fn lemma_grid(w: int, h: int, x: int, y: int)
    requires
        0 <= x < w,
        0 <= y < h,
    ensures
        0 <= y * w + x < w * h,
        (y * w + x) / w == y,
        (y * w + x) % w == x,
{
    assert(0 <= y * w + x < w * h) by (nonlinear_arith)
        requires
            0 <= x < w,
            0 <= y < h,
    ;
    vstd::arithmetic::div_mod::lemma_fundamental_div_mod_converse(y * w + x, w, y, x);
}

/// Every index of a `w` by `h` grid is `(i / w) * w + i % w`, with both parts
/// in range.
pub proof fn lemma_grid_index(w: int, h: int, i: int)
    requires
        0 <= i < w * h,
        w > 0,
    ensures
        0 <= i % w < w,
        0 <= i / w < h,
        i == (i / w) * w + i % w,
{
    vstd::arithmetic::div_mod::lemma_fundamental_div_mod(i, w);
    vstd::arithmetic::div_mod::lemma_mod_pos_bound(i, w);
    vstd::arithmetic::div_mod::lemma_div_pos_is_pos(i, w);
    let q = i / w;
    let r = i % w;
    assert(q < h) by (nonlinear_arith)
        requires
            i == w * q + r,
            0 <= r,
            i < w * h,
            w > 0,
    ;
    assert(i == q * w + r) by (nonlinear_arith)
        requires
            i == w * q + r,
    ;
}

impl Image {
    /// The pixel count matches the dimensions and every pixel has the
    /// image's format.
    pub open spec fn wf(&self) -> bool {
        &&& self.pixels@.len() == self.width * self.height
        &&& self.width * self.height <= usize::MAX
        &&& forall|i: int| 0 <= i < self.pixels@.len() ==> mode_of(#[trigger] self.pixels@[i]) == self.mode
    }

    pub open spec fn in_bounds(&self, x: int, y: int) -> bool {
        0 <= x < self.width && 0 <= y < self.height
    }

    /// The pixel in column `x` of row `y`.
    pub open spec fn at(&self, x: int, y: int) -> Pixel {
        self.pixels@[y * self.width + x]
    }

    /// Two images hold the same pixels at the same coordinates.
    pub open spec fn same_grid(&self, other: &Image) -> bool {
        &&& self.width == other.width
        &&& self.height == other.height
        &&& self.mode == other.mode
        &&& self.pixels@ == other.pixels@
    }

    /// A `width` by `height` image with every pixel set to `fill`; fails when
    /// either dimension is zero.
    pub fn new(width: u32, height: u32, fill: Pixel) -> (r: Result<Image, Error>)
        ensures
            (width == 0 || height == 0) <==> r == Err::<Image, Error>(Error::Value(ValueError::ZeroDimensions)),
            (width > 0 && height > 0 && width * height > usize::MAX) ==> r == Err::<Image, Error>(
                Error::Value(ValueError::DimensionsTooLarge),
            ),
            (width > 0 && height > 0 && width * height <= usize::MAX) ==> r is Ok,
            r is Ok ==> {
                let img = r->Ok_0;
                &&& img.wf()
                &&& img.width == width
                &&& img.height == height
                &&& img.mode == mode_of(fill)
                &&& img.overlay_mode == OverlayMode::Merge
                &&& forall|x: int, y: int| img.in_bounds(x, y) ==> img.at(x, y) == fill
            },
    {
        if width == 0 || height == 0 {
            return Err(Error::Value(ValueError::ZeroDimensions));
        }
        assert(width * height <= u32::MAX * u32::MAX) by (nonlinear_arith)
            requires
                width <= u32::MAX,
                height <= u32::MAX,
        ;
        let total: u64 = width as u64 * height as u64;
        if total > usize::MAX as u64 {
            return Err(Error::Value(ValueError::DimensionsTooLarge));
        }
        let n: usize = total as usize;
        let mut pixels: Vec<Pixel> = Vec::with_capacity(n);
        let mut i: usize = 0;
        while i < n
            invariant
                i <= n,
                pixels@.len() == i,
                forall|j: int| 0 <= j < i ==> pixels@[j] == fill,
            decreases n - i,
        {
            pixels.push(fill);
            i = i + 1;
        }
        let img = Image { width, height, pixels, mode: fill.mode(), overlay_mode: OverlayMode::Merge };
        assert forall|x: int, y: int| img.in_bounds(x, y) implies img.at(x, y) == fill by {
            lemma_grid(width as int, height as int, x, y);
        }
        Ok(img)
    }

    /// An image `width` pixels wide from the row-major list `pixels`; its
    /// height is the number of pixels over `width`. The pixels must share one
    /// format.
    pub fn from_pixels(width: u32, pixels: Vec<Pixel>) -> (r: Result<Image, Error>)
        ensures
            (width == 0 || pixels@.len() == 0) ==> r == Err::<Image, Error>(Error::Value(ValueError::ZeroDimensions)),
            (width > 0 && pixels@.len() > 0 && pixels@.len() % (width as nat) != 0) ==> r == Err::<
                Image,
                Error,
            >(Error::Value(ValueError::PixelCountNotMultiple)),
            (width > 0 && pixels@.len() > 0 && pixels@.len() % (width as nat) == 0 && pixels@.len() / (
            width as nat) > u32::MAX) ==> r == Err::<Image, Error>(Error::Value(ValueError::DimensionsTooLarge)),
            (width > 0 && pixels@.len() > 0 && pixels@.len() % (width as nat) == 0 && pixels@.len() / (
            width as nat) <= u32::MAX) ==> {
                ||| (exists|i: int|
                    0 <= i < pixels@.len() && mode_of(#[trigger] pixels@[i]) != mode_of(pixels@[0]))
                    && r matches Err(Error::FormatMismatch(Mismatch::Mode { .. }))
                ||| (forall|i: int| 0 <= i < pixels@.len() ==> mode_of(#[trigger] pixels@[i]) == mode_of(pixels@[0]))
                    && r is Ok && r->Ok_0.pixels@ == pixels@ && r->Ok_0.wf() && r->Ok_0.width == width
                    && r->Ok_0.height * width == pixels@.len() && r->Ok_0.mode == mode_of(pixels@[0])
                    && r->Ok_0.overlay_mode == OverlayMode::Merge
            },
    {
        let n = pixels.len();
        if width == 0 || n == 0 {
            return Err(Error::Value(ValueError::ZeroDimensions));
        }
        if n % width as usize != 0 {
            return Err(Error::Value(ValueError::PixelCountNotMultiple));
        }
        let h = n / width as usize;
        if h > u32::MAX as usize {
            return Err(Error::Value(ValueError::DimensionsTooLarge));
        }
        let mode = pixels[0].mode();
        let mut i: usize = 0;
        while i < n
            invariant
                i <= n,
                n == pixels@.len(),
                width > 0,
                n > 0,
                pixels@.len() % (width as nat) == 0,
                pixels@.len() / (width as nat) <= u32::MAX,
                mode == mode_of(pixels@[0]),
                forall|j: int| 0 <= j < i ==> mode_of(#[trigger] pixels@[j]) == mode,
            decreases n - i,
        {
            let m = pixels[i].mode();
            if m != mode {
                return Err(Error::FormatMismatch(Mismatch::Mode { expected: ExpectedMode::Exactly(mode), got: m }));
            }
            i = i + 1;
        }
        let height = h as u32;
        assert(n == h * width) by {
            vstd::arithmetic::div_mod::lemma_fundamental_div_mod(n as int, width as int);
            assert(n == width * h);
            vstd::arithmetic::mul::lemma_mul_is_commutative(width as int, h as int);
        }
        Ok(Image { width, height, pixels, mode, overlay_mode: OverlayMode::Merge })
    }

    pub fn width(&self) -> (r: u32)
        ensures
            r == self.width,
    {
        self.width
    }

    pub fn height(&self) -> (r: u32)
        ensures
            r == self.height,
    {
        self.height
    }

    pub fn dimensions(&self) -> (r: (u32, u32))
        ensures
            r == (self.width, self.height),
    {
        (self.width, self.height)
    }

    /// The format shared by every pixel.
    pub fn mode(&self) -> (r: Mode)
        ensures
            r == self.mode,
    {
        self.mode
    }

    pub fn overlay_mode(&self) -> (r: OverlayMode)
        ensures
            r == self.overlay_mode,
    {
        self.overlay_mode
    }

    pub fn set_overlay_mode(&mut self, mode: OverlayMode)
        ensures
            final(self).overlay_mode == mode,
            final(self).same_grid(old(self)),
    {
        self.overlay_mode = mode;
    }

    /// The number of pixels.
    pub fn len(&self) -> (r: usize)
        requires
            self.wf(),
        ensures
            r == self.width * self.height,
    {
        self.pixels.len()
    }

    /// Whether the image holds no pixel at all.
    pub fn is_empty(&self) -> (r: bool)
        requires
            self.wf(),
        ensures
            r == (self.width * self.height == 0),
    {
        self.pixels.len() == 0
    }

    /// The pixel at column `x` of row `y`; fails outside the image.
    pub fn get_pixel(&self, x: u32, y: u32) -> (r: Result<Pixel, Error>)
        requires
            self.wf(),
        ensures
            self.in_bounds(x as int, y as int) ==> r == Ok::<Pixel, Error>(self.at(x as int, y as int)),
            !self.in_bounds(x as int, y as int) ==> r == Err::<Pixel, Error>(Error::Value(ValueError::OutOfBounds)),
    {
        if x >= self.width || y >= self.height {
            return Err(Error::Value(ValueError::OutOfBounds));
        }
        proof {
            lemma_grid(self.width as int, self.height as int, x as int, y as int);
        }
        Ok(self.pixels[y as usize * self.width as usize + x as usize])
    }

    /// Sets the pixel at column `x` of row `y` to `pixel`, converted to the
    /// image's format; fails outside the image.
    pub fn set_pixel(&mut self, x: u32, y: u32, pixel: Pixel) -> (r: Result<(), Error>)
        requires
            old(self).wf(),
        ensures
            final(self).wf(),
            final(self).width == old(self).width,
            final(self).height == old(self).height,
            final(self).mode == old(self).mode,
            final(self).overlay_mode == old(self).overlay_mode,
            old(self).in_bounds(x as int, y as int) ==> r is Ok && final(self).pixels@ == old(self).pixels@.update(
                y * old(self).width + x,
                converted(pixel, old(self).mode),
            ),
            !old(self).in_bounds(x as int, y as int) ==> r == Err::<(), Error>(Error::Value(ValueError::OutOfBounds))
                && final(self).pixels@ == old(self).pixels@,
    {
        if x >= self.width || y >= self.height {
            return Err(Error::Value(ValueError::OutOfBounds));
        }
        proof {
            lemma_grid(self.width as int, self.height as int, x as int, y as int);
        }
        let idx = y as usize * self.width as usize + x as usize;
        let p = pixel.convert(self.mode);
        self.pixels.set(idx, p);
        Ok(())
    }

    /// Every pixel inverted within its format's range.
    pub fn invert(&mut self)
        requires
            old(self).wf(),
        ensures
            final(self).wf(),
            final(self).width == old(self).width,
            final(self).height == old(self).height,
            final(self).mode == old(self).mode,
            final(self).overlay_mode == old(self).overlay_mode,
            final(self).pixels@ == old(self).pixels@.map_values(|p: Pixel| inverted(p)),
    {
        let n = self.pixels.len();
        let ghost orig = self.pixels@;
        let mut i: usize = 0;
        while i < n
            invariant
                i <= n,
                n == orig.len(),
                self.pixels@.len() == n,
                self.width == old(self).width,
                self.height == old(self).height,
                self.mode == old(self).mode,
                self.overlay_mode == old(self).overlay_mode,
                orig == old(self).pixels@,
                forall|j: int| 0 <= j < i ==> self.pixels@[j] == inverted(orig[j]),
                forall|j: int| i <= j < n ==> self.pixels@[j] == orig[j],
            decreases n - i,
        {
            let p = self.pixels[i].invert();
            self.pixels.set(i, p);
            i = i + 1;
        }
        assert(self.pixels@ =~= orig.map_values(|p: Pixel| inverted(p)));
    }

    /// The pixel that lands at column `x` of row `y` of a `w` by `h` grid
    /// taken out of this image by `t`.
    pub open spec fn source_of(&self, t: Remap, x: int, y: int) -> Pixel {
        match t {
            Remap::Offset(dx, dy) => self.at(x + dx, y + dy),
            Remap::Mirror => self.at(self.width - 1 - x, y),
            Remap::Flip => self.at(x, self.height - 1 - y),
        }
    }

    pub open spec fn remap_fits(&self, t: Remap, w: int, h: int) -> bool {
        match t {
            Remap::Offset(dx, dy) => dx + w <= self.width && dy + h <= self.height,
            Remap::Mirror | Remap::Flip => w == self.width && h == self.height,
        }
    }

    /// A `w` by `h` grid whose pixels are taken out of this image by `t`.
    fn remapped(&self, t: Remap, w: u32, h: u32) -> (r: Vec<Pixel>)
        requires
            self.wf(),
            self.remap_fits(t, w as int, h as int),
        ensures
            r@.len() == w * h,
            forall|x: int, y: int| 0 <= x < w && 0 <= y < h ==> #[trigger] r@[y * w + x] == self.source_of(t, x, y),
            forall|i: int| 0 <= i < r@.len() ==> mode_of(#[trigger] r@[i]) == self.mode,
    {
        let mut out: Vec<Pixel> = Vec::new();
        if w == 0 || h == 0 {
            assert(w * h == 0) by (nonlinear_arith)
                requires
                    w == 0 || h == 0,
            ;
            return out;
        }
        assert(w * h <= self.width * self.height) by (nonlinear_arith)
            requires
                w <= self.width,
                h <= self.height,
                w >= 0,
                h >= 0,
        ;
        let n: usize = w as usize * h as usize;
        let mut i: usize = 0;
        while i < n
            invariant
                self.wf(),
                self.remap_fits(t, w as int, h as int),
                n == w * h,
                w > 0,
                i <= n,
                out@.len() == i,
                forall|j: int| 0 <= j < i ==> #[trigger] out@[j] == self.source_of(t, j % (w as int), j / (w as int)),
                forall|j: int| 0 <= j < i ==> mode_of(#[trigger] out@[j]) == self.mode,
            decreases n - i,
        {
            proof {
                lemma_grid_index(w as int, h as int, i as int);
            }
            let x = i % w as usize;
            let y = i / w as usize;
            let (sx, sy): (usize, usize) = match t {
                Remap::Offset(dx, dy) => (x + dx as usize, y + dy as usize),
                Remap::Mirror => (self.width as usize - 1 - x, y),
                Remap::Flip => (x, self.height as usize - 1 - y),
            };
            proof {
                lemma_grid(self.width as int, self.height as int, sx as int, sy as int);
            }
            let p = self.pixels[sy * self.width as usize + sx];
            out.push(p);
            i = i + 1;
        }
        assert forall|x: int, y: int| 0 <= x < w && 0 <= y < h implies #[trigger] out@[y * w + x] == self.source_of(
            t,
            x,
            y,
        ) by {
            lemma_grid(w as int, h as int, x, y);
        }
        out
    }

    /// Keeps only the box from `(x1, y1)` (inclusive) to `(x2, y2)`
    /// (exclusive). The corners are first clamped to the image, and the
    /// first corner to the second.
    pub fn crop(&mut self, x1: u32, y1: u32, x2: u32, y2: u32)
        requires
            old(self).wf(),
        ensures
            final(self).wf(),
            final(self).mode == old(self).mode,
            final(self).overlay_mode == old(self).overlay_mode,
            ({
                let (cx1, cy1, cx2, cy2) = crop_box(old(self).width, old(self).height, x1, y1, x2, y2);
                &&& final(self).width == cx2 - cx1
                &&& final(self).height == cy2 - cy1
                &&& forall|x: int, y: int|
                    final(self).in_bounds(x, y) ==> #[trigger] final(self).at(x, y) == old(self).at(x + cx1, y + cy1)
            }),
    {
        let cx2 = if x2 > self.width { self.width } else { x2 };
        let cx1 = if x1 > cx2 { cx2 } else { x1 };
        let cy2 = if y2 > self.height { self.height } else { y2 };
        let cy1 = if y1 > cy2 { cy2 } else { y1 };
        let w = cx2 - cx1;
        let h = cy2 - cy1;
        let pixels = self.remapped(Remap::Offset(cx1, cy1), w, h);
        let ghost prev = *self;
        assert(w * h <= self.width * self.height) by (nonlinear_arith)
            requires
                w <= self.width,
                h <= self.height,
        ;
        self.pixels = pixels;
        self.width = w;
        self.height = h;
        assert forall|x: int, y: int| self.in_bounds(x, y) implies #[trigger] self.at(x, y) == prev.at(
            x + cx1,
            y + cy1,
        ) by {
            assert(self.at(x, y) == pixels@[y * w + x]);
        }
    }

    /// Reverses the order of the pixels of every row.
    pub fn mirror(&mut self)
        requires
            old(self).wf(),
        ensures
            final(self).wf(),
            final(self).width == old(self).width,
            final(self).height == old(self).height,
            final(self).mode == old(self).mode,
            final(self).overlay_mode == old(self).overlay_mode,
            forall|x: int, y: int|
                old(self).in_bounds(x, y) ==> #[trigger] final(self).at(x, y) == old(self).at(old(self).width - 1 - x, y),
    {
        let pixels = self.remapped(Remap::Mirror, self.width, self.height);
        self.pixels = pixels;
    }

    /// Reverses the order of the rows.
    pub fn flip(&mut self)
        requires
            old(self).wf(),
        ensures
            final(self).wf(),
            final(self).width == old(self).width,
            final(self).height == old(self).height,
            final(self).mode == old(self).mode,
            final(self).overlay_mode == old(self).overlay_mode,
            forall|x: int, y: int|
                old(self).in_bounds(x, y) ==> #[trigger] final(self).at(x, y) == old(self).at(x, old(self).height - 1 - y),
    {
        let pixels = self.remapped(Remap::Flip, self.width, self.height);
        self.pixels = pixels;
    }
}

/// Whether `mask` lets a pixel through at column `x` of row `y` of the
/// pasted image: no mask lets everything through; a mask lets through where
/// it holds an "on" pixel.
pub open spec fn mask_lets_through(mask: Option<&Image>, x: int, y: int) -> bool {
    match mask {
        None => true,
        Some(m) => m.in_bounds(x, y) && m.at(x, y) == Pixel::BitPixel(BitPixel { value: true }),
    }
}

impl Image {
    /// The pixel at column `px` of row `py` of this image after `image` is
    /// pasted with its top-left corner at `(x, y)`.
    pub open spec fn pasted_at(&self, x: int, y: int, image: &Image, mask: Option<&Image>, px: int, py: int) -> Pixel {
        if px >= x && py >= y && image.in_bounds(px - x, py - y) && mask_lets_through(mask, px - x, py - y) {
            overlaid(self.at(px, py), image.at(px - x, py - y), self.overlay_mode)
        } else {
            self.at(px, py)
        }
    }

    fn paste_unchecked(&mut self, x: u32, y: u32, image: &Image, mask: Option<&Image>)
        requires
            old(self).wf(),
            image.wf(),
            mask matches Some(m) ==> m.wf(),
        ensures
            final(self).wf(),
            final(self).width == old(self).width,
            final(self).height == old(self).height,
            final(self).mode == old(self).mode,
            final(self).overlay_mode == old(self).overlay_mode,
            forall|px: int, py: int|
                old(self).in_bounds(px, py) ==> #[trigger] final(self).at(px, py) == old(self).pasted_at(
                    x as int,
                    y as int,
                    image,
                    mask,
                    px,
                    py,
                ),
    {
        let ghost prev = *self;
        let n = self.pixels.len();
        let w = self.width as usize;
        let mut i: usize = 0;
        while i < n
            invariant
                prev.wf(),
                image.wf(),
                mask matches Some(m) ==> m.wf(),
                n == prev.pixels@.len(),
                w == prev.width,
                self.width == prev.width,
                self.height == prev.height,
                self.mode == prev.mode,
                self.overlay_mode == prev.overlay_mode,
                self.pixels@.len() == n,
                i <= n,
                forall|j: int|
                    0 <= j < i ==> #[trigger] self.pixels@[j] == prev.pasted_at(
                        x as int,
                        y as int,
                        image,
                        mask,
                        j % (w as int),
                        j / (w as int),
                    ),
                forall|j: int| i <= j < n ==> #[trigger] self.pixels@[j] == prev.pixels@[j],
                forall|j: int| 0 <= j < n ==> mode_of(#[trigger] self.pixels@[j]) == prev.mode,
            decreases n - i,
        {
            proof {
                lemma_grid_index(w as int, prev.height as int, i as int);
            }
            let px = i % w;
            let py = i / w;
            let mut covered = px >= x as usize && py >= y as usize && px - (x as usize) < image.width as usize && py - (
            y as usize) < image.height as usize;
            if covered {
                let ix = px - x as usize;
                let iy = py - y as usize;
                proof {
                    lemma_grid(image.width as int, image.height as int, ix as int, iy as int);
                }
                match mask {
                    Some(m) => {
                        if ix < m.width as usize && iy < m.height as usize {
                            proof {
                                lemma_grid(m.width as int, m.height as int, ix as int, iy as int);
                            }
                            let mp = m.pixels[iy * m.width as usize + ix];
                            covered = mp == Pixel::BitPixel(BitPixel { value: true });
                        } else {
                            covered = false;
                        }
                    },
                    None => {},
                }
                if covered {
                    let top = image.pixels[iy * image.width as usize + ix];
                    let p = self.pixels[i].overlay(&top, self.overlay_mode);
                    self.pixels.set(i, p);
                }
            }
            proof {
                assert(prev.at(px as int, py as int) == prev.pixels@[i as int]);
            }
            i = i + 1;
        }
        assert forall|px: int, py: int| prev.in_bounds(px, py) implies #[trigger] self.at(px, py) == prev.pasted_at(
            x as int,
            y as int,
            image,
            mask,
            px,
            py,
        ) by {
            lemma_grid(prev.width as int, prev.height as int, px, py);
        }
    }

    /// Pastes `image` with its top-left corner at `(x, y)`, under this
    /// image's overlay mode. Pixels that fall outside this image are dropped.
    /// With a mask, a pixel is pasted only where the mask holds an "on"
    /// pixel; the mask must be a 1-bit image.
    pub fn paste(&mut self, x: u32, y: u32, image: &Image, mask: Option<&Image>) -> (r: Result<(), Error>)
        requires
            old(self).wf(),
            image.wf(),
            mask matches Some(m) ==> m.wf(),
        ensures
            final(self).wf(),
            final(self).width == old(self).width,
            final(self).height == old(self).height,
            final(self).mode == old(self).mode,
            final(self).overlay_mode == old(self).overlay_mode,
            match mask {
                Some(m) if m.mode != Mode::BitPixel => r == Err::<(), Error>(mode_mismatch(Mode::BitPixel, m.mode))
                    && final(self).pixels@ == old(self).pixels@,
                _ => r is Ok && forall|px: int, py: int|
                    old(self).in_bounds(px, py) ==> #[trigger] final(self).at(px, py) == old(self).pasted_at(
                        x as int,
                        y as int,
                        image,
                        mask,
                        px,
                        py,
                    ),
            },
    {
        if let Some(m) = mask {
            if m.mode != Mode::BitPixel {
                return Err(Error::FormatMismatch(Mismatch::Mode { expected: ExpectedMode::Exactly(Mode::BitPixel), got: m.mode }));
            }
        }
        self.paste_unchecked(x, y, image, mask);
        Ok(())
    }
}

/// `p` with its alpha set from the luminance pixel `m`.
pub open spec fn with_alpha(p: Pixel, m: Pixel) -> Pixel {
    match (p, m) {
        (Pixel::Rgba(c), Pixel::L(l)) => Pixel::Rgba(Rgba { r: c.r, g: c.g, b: c.b, a: l.value }),
        _ => p,
    }
}

impl Image {
    /// Sets the alpha of every pixel to the luminance of the pixel at the
    /// same place in `mask`. The mask must be a luminance image of the same
    /// dimensions, and this image must have alpha.
    pub fn mask_alpha(&mut self, mask: &Image) -> (r: Result<(), Error>)
        requires
            old(self).wf(),
            mask.wf(),
        ensures
            final(self).wf(),
            final(self).width == old(self).width,
            final(self).height == old(self).height,
            final(self).mode == old(self).mode,
            final(self).overlay_mode == old(self).overlay_mode,
            mask.mode != Mode::L ==> r == Err::<(), Error>(mode_mismatch(Mode::L, mask.mode)),
            mask.mode == Mode::L && old(self).mode != Mode::Rgba ==> r == Err::<(), Error>(
                mode_mismatch(Mode::Rgba, old(self).mode),
            ),
            mask.mode == Mode::L && old(self).mode == Mode::Rgba && (mask.width != old(self).width || mask.height
                != old(self).height) ==> r == Err::<(), Error>(
                Error::FormatMismatch(
                    Mismatch::Dimensions {
                        expected_width: old(self).width,
                        expected_height: old(self).height,
                        width: mask.width,
                        height: mask.height,
                    },
                ),
            ),
            r is Err ==> final(self).pixels@ == old(self).pixels@,
            r is Ok <==> (mask.mode == Mode::L && old(self).mode == Mode::Rgba && mask.width == old(self).width
                && mask.height == old(self).height),
            r is Ok ==> forall|i: int|
                0 <= i < old(self).pixels@.len() ==> #[trigger] final(self).pixels@[i] == with_alpha(
                    old(self).pixels@[i],
                    mask.pixels@[i],
                ),
    {
        if mask.mode != Mode::L {
            return Err(Error::FormatMismatch(Mismatch::Mode { expected: ExpectedMode::Exactly(Mode::L), got: mask.mode }));
        }
        if self.mode != Mode::Rgba {
            return Err(Error::FormatMismatch(Mismatch::Mode { expected: ExpectedMode::Exactly(Mode::Rgba), got: self.mode }));
        }
        if mask.width != self.width || mask.height != self.height {
            return Err(
                Error::FormatMismatch(
                    Mismatch::Dimensions {
                        expected_width: self.width,
                        expected_height: self.height,
                        width: mask.width,
                        height: mask.height,
                    },
                ),
            );
        }
        let ghost prev = *self;
        let n = self.pixels.len();
        let mut i: usize = 0;
        while i < n
            invariant
                prev.wf(),
                mask.wf(),
                prev.mode == Mode::Rgba,
                mask.mode == Mode::L,
                n == prev.pixels@.len(),
                n == mask.pixels@.len(),
                self.width == prev.width,
                self.height == prev.height,
                self.mode == prev.mode,
                self.overlay_mode == prev.overlay_mode,
                self.pixels@.len() == n,
                i <= n,
                forall|j: int| 0 <= j < i ==> #[trigger] self.pixels@[j] == with_alpha(prev.pixels@[j], mask.pixels@[j]),
                forall|j: int| i <= j < n ==> #[trigger] self.pixels@[j] == prev.pixels@[j],
                forall|j: int| 0 <= j < n ==> mode_of(#[trigger] self.pixels@[j]) == Mode::Rgba,
            decreases n - i,
        {
            let p = self.pixels[i];
            let m = mask.pixels[i];
            assert(mode_of(mask.pixels@[i as int]) == Mode::L);
            let q = match (p, m) {
                (Pixel::Rgba(c), Pixel::L(l)) => Pixel::Rgba(Rgba { r: c.r, g: c.g, b: c.b, a: l.value }),
                _ => p,
            };
            self.pixels.set(i, q);
            i = i + 1;
        }
        Ok(())
    }
}

/// Channel `k` of a color pixel, in the order red, green, blue, alpha.
pub open spec fn channel(p: Pixel, k: int) -> u8 {
    match p {
        Pixel::Rgb(c) => if k == 0 {
            c.r
        } else if k == 1 {
            c.g
        } else {
            c.b
        },
        Pixel::Rgba(c) => if k == 0 {
            c.r
        } else if k == 1 {
            c.g
        } else if k == 2 {
            c.b
        } else {
            c.a
        },
        _ => 0,
    }
}

/// The value of a luminance pixel.
pub open spec fn level(p: Pixel) -> u8 {
    match p {
        Pixel::L(l) => l.value,
        _ => 0,
    }
}

/// The pixel at index `i` of the image that bands `bs` make up: RGB from
/// three bands, RGBA from four.
pub open spec fn combined(bs: Seq<Image>, i: int) -> Pixel {
    if bs.len() == 3 {
        Pixel::Rgb(
            crate::pixels::Rgb {
                r: level(bs[0].pixels@[i]),
                g: level(bs[1].pixels@[i]),
                b: level(bs[2].pixels@[i]),
            },
        )
    } else {
        Pixel::Rgba(
            Rgba {
                r: level(bs[0].pixels@[i]),
                g: level(bs[1].pixels@[i]),
                b: level(bs[2].pixels@[i]),
                a: level(bs[3].pixels@[i]),
            },
        )
    }
}

/// The number of bands of a color format.
pub open spec fn band_count(m: Mode) -> int {
    if m == Mode::Rgb {
        3
    } else {
        4
    }
}

impl Image {
    /// `self` is band `k` of `img`: a luminance image of the same dimensions
    /// that holds channel `k` of every pixel.
    pub open spec fn is_band_of(&self, img: &Image, k: int) -> bool {
        &&& self.wf()
        &&& self.width == img.width
        &&& self.height == img.height
        &&& self.mode == Mode::L
        &&& self.overlay_mode == img.overlay_mode
        &&& self.pixels@.len() == img.pixels@.len()
        &&& forall|i: int| 0 <= i < img.pixels@.len() ==> #[trigger] self.pixels@[i] == Pixel::L(L { value: channel(img.pixels@[i], k) })
    }

    fn band(&self, k: usize) -> (r: Image)
        requires
            self.wf(),
            self.mode == Mode::Rgb || self.mode == Mode::Rgba,
            k < band_count(self.mode),
        ensures
            r.is_band_of(self, k as int),
    {
        let n = self.pixels.len();
        let mut out: Vec<Pixel> = Vec::with_capacity(n);
        let mut i: usize = 0;
        while i < n
            invariant
                self.wf(),
                n == self.pixels@.len(),
                i <= n,
                out@.len() == i,
                forall|j: int| 0 <= j < i ==> #[trigger] out@[j] == Pixel::L(L { value: channel(self.pixels@[j], k as int) }),
            decreases n - i,
        {
            let v = match self.pixels[i] {
                Pixel::Rgb(c) => if k == 0 {
                    c.r
                } else if k == 1 {
                    c.g
                } else {
                    c.b
                },
                Pixel::Rgba(c) => if k == 0 {
                    c.r
                } else if k == 1 {
                    c.g
                } else if k == 2 {
                    c.b
                } else {
                    c.a
                },
                _ => 0,
            };
            out.push(Pixel::L(L { value: v }));
            i = i + 1;
        }
        Image { width: self.width, height: self.height, pixels: out, mode: Mode::L, overlay_mode: self.overlay_mode }
    }

    /// Splits a color image into one luminance image per channel, in the
    /// order red, green, blue and, for RGBA, alpha.
    pub fn bands(&self) -> (r: Result<Vec<Image>, Error>)
        requires
            self.wf(),
        ensures
            (self.mode == Mode::Rgb || self.mode == Mode::Rgba) <==> r is Ok,
            r is Err ==> r == Err::<Vec<Image>, Error>(
                Error::FormatMismatch(Mismatch::Mode { expected: ExpectedMode::Color, got: self.mode }),
            ),
            r is Ok ==> r->Ok_0@.len() == band_count(self.mode) && forall|k: int|
                0 <= k < r->Ok_0@.len() ==> #[trigger] r->Ok_0@[k].is_band_of(self, k),
    {
        if self.mode != Mode::Rgb && self.mode != Mode::Rgba {
            return Err(Error::FormatMismatch(Mismatch::Mode { expected: ExpectedMode::Color, got: self.mode }));
        }
        let count: usize = if self.mode == Mode::Rgb { 3 } else { 4 };
        let mut out: Vec<Image> = Vec::new();
        let mut k: usize = 0;
        while k < count
            invariant
                self.wf(),
                self.mode == Mode::Rgb || self.mode == Mode::Rgba,
                count == band_count(self.mode),
                k <= count,
                out@.len() == k,
                forall|j: int| 0 <= j < k ==> #[trigger] out@[j].is_band_of(self, j),
            decreases count - k,
        {
            out.push(self.band(k));
            k = k + 1;
        }
        Ok(out)
    }
}

/// Every image is a luminance image.
pub open spec fn all_luminance(bs: Seq<Image>) -> bool {
    forall|k: int| 0 <= k < bs.len() ==> (#[trigger] bs[k]).mode == Mode::L
}

impl Image {
    /// The two images differ in width or height.
    pub open spec fn size_differs(&self, other: &Image) -> bool {
        self.width != other.width || self.height != other.height
    }
}

/// Every band is a well-formed luminance image with the dimensions of the
/// first.
pub open spec fn bands_agree(bs: Seq<Image>) -> bool {
    forall|k: int|
        0 <= k < bs.len() ==> {
            &&& (#[trigger] bs[k]).wf()
            &&& bs[k].mode == Mode::L
            &&& bs[k].width == bs[0].width
            &&& bs[k].height == bs[0].height
        }
}

impl Image {
    /// Builds an RGB image from three luminance bands, or an RGBA image from
    /// four, in the order red, green, blue, alpha. All bands must be
    /// luminance images of one size.
    pub fn from_bands(bands: &Vec<Image>) -> (r: Result<Image, Error>)
        requires
            forall|k: int| 0 <= k < bands@.len() ==> (#[trigger] bands@[k]).wf(),
        ensures
            bands@.len() != 3 && bands@.len() != 4 ==> r == Err::<Image, Error>(Error::Value(ValueError::BandCount)),
            (bands@.len() == 3 || bands@.len() == 4) && !all_luminance(bands@) ==> exists|k: int|
                0 <= k < bands@.len() && (#[trigger] bands@[k]).mode != Mode::L && all_luminance(bands@.take(k))
                    && r == Err::<Image, Error>(mode_mismatch(Mode::L, bands@[k].mode)),
            (bands@.len() == 3 || bands@.len() == 4) && all_luminance(bands@) && !bands_agree(bands@) ==> exists|
                k: int,
            |
                0 <= k < bands@.len() && (#[trigger] bands@[k]).size_differs(&bands@[0]) && bands_agree(bands@.take(k))
                    && r == Err::<Image, Error>(
                    Error::FormatMismatch(
                        Mismatch::Dimensions {
                            expected_width: bands@[0].width,
                            expected_height: bands@[0].height,
                            width: bands@[k].width,
                            height: bands@[k].height,
                        },
                    ),
                ),
            (bands@.len() == 3 || bands@.len() == 4) && bands_agree(bands@) ==> {
                &&& r is Ok
                &&& r->Ok_0.wf()
                &&& r->Ok_0.width == bands@[0].width
                &&& r->Ok_0.height == bands@[0].height
                &&& r->Ok_0.mode == (if bands@.len() == 3 { Mode::Rgb } else { Mode::Rgba })
                &&& r->Ok_0.overlay_mode == OverlayMode::Merge
                &&& r->Ok_0.pixels@ == Seq::new(bands@[0].pixels@.len(), |i: int| combined(bands@, i))
            },
    {
        let count = bands.len();
        if count != 3 && count != 4 {
            return Err(Error::Value(ValueError::BandCount));
        }
        let mut k: usize = 0;
        while k < count
            invariant
                count == bands@.len(),
                count == 3 || count == 4,
                k <= count,
                all_luminance(bands@.take(k as int)),
            decreases count - k,
        {
            let b = &bands[k];
            if b.mode != Mode::L {
                return Err(Error::FormatMismatch(Mismatch::Mode { expected: ExpectedMode::Exactly(Mode::L), got: b.mode }));
            }
            assert(bands@.take(k + 1).drop_last() =~= bands@.take(k as int));
            k = k + 1;
        }
        assert(bands@.take(count as int) =~= bands@);
        let w = bands[0].width;
        let h = bands[0].height;
        let mut k: usize = 0;
        while k < count
            invariant
                count == bands@.len(),
                count == 3 || count == 4,
                all_luminance(bands@),
                w == bands@[0].width,
                h == bands@[0].height,
                forall|j: int| 0 <= j < bands@.len() ==> (#[trigger] bands@[j]).wf(),
                k <= count,
                bands_agree(bands@.take(k as int)),
            decreases count - k,
        {
            let b = &bands[k];
            if b.width != w || b.height != h {
                return Err(
                    Error::FormatMismatch(
                        Mismatch::Dimensions { expected_width: w, expected_height: h, width: b.width, height: b.height },
                    ),
                );
            }
            assert(bands@.take(k + 1)[0] == bands@[0]);
            k = k + 1;
        }
        assert(bands@.take(count as int) =~= bands@);
        let n = bands[0].pixels.len();
        let mut out: Vec<Pixel> = Vec::with_capacity(n);
        let mut i: usize = 0;
        while i < n
            invariant
                count == bands@.len(),
                count == 3 || count == 4,
                bands_agree(bands@),
                n == bands@[0].pixels@.len(),
                i <= n,
                out@.len() == i,
                forall|j: int| 0 <= j < i ==> #[trigger] out@[j] == combined(bands@, j),
            decreases n - i,
        {
            assert(bands@[1].pixels@.len() == n && bands@[2].pixels@.len() == n);
            let r = bands[0].pixels[i];
            let g = bands[1].pixels[i];
            let b = bands[2].pixels[i];
            let lr = match r { Pixel::L(l) => l.value, _ => 0 };
            let lg = match g { Pixel::L(l) => l.value, _ => 0 };
            let lb = match b { Pixel::L(l) => l.value, _ => 0 };
            if count == 3 {
                out.push(Pixel::Rgb(crate::pixels::Rgb { r: lr, g: lg, b: lb }));
            } else {
                assert(bands@[3].pixels@.len() == n);
                let a = bands[3].pixels[i];
                let la = match a { Pixel::L(l) => l.value, _ => 0 };
                out.push(Pixel::Rgba(Rgba { r: lr, g: lg, b: lb, a: la }));
            }
            i = i + 1;
        }
        let mode = if count == 3 { Mode::Rgb } else { Mode::Rgba };
        assert(out@ =~= Seq::new(bands@[0].pixels@.len(), |i: int| combined(bands@, i)));
        Ok(Image { width: w, height: h, pixels: out, mode, overlay_mode: OverlayMode::Merge })
    }
}

/// Splitting a color image into bands and building an image from those bands
/// gives the same image back: the bands pass every check of `from_bands`,
/// and the image it builds has the format, dimensions and pixels of the
/// image that was split.
pub proof fn lemma_bands_round_trip(img: &Image, bs: Seq<Image>)
    requires
        img.wf(),
        img.mode == Mode::Rgb || img.mode == Mode::Rgba,
        bs.len() == band_count(img.mode),
        forall|k: int| 0 <= k < bs.len() ==> #[trigger] bs[k].is_band_of(img, k),
    ensures
        bands_agree(bs),
        bs[0].width == img.width,
        bs[0].height == img.height,
        (if bs.len() == 3 { Mode::Rgb } else { Mode::Rgba }) == img.mode,
        Seq::new(bs[0].pixels@.len(), |i: int| combined(bs, i)) == img.pixels@,
{
    assert(bs[0].is_band_of(img, 0));
    assert(bs[1].is_band_of(img, 1));
    assert(bs[2].is_band_of(img, 2));
    if bs.len() == 4 {
        assert(bs[3].is_band_of(img, 3));
    }
    assert(Seq::new(bs[0].pixels@.len(), |i: int| combined(bs, i)) =~= img.pixels@) by {
        assert forall|i: int| 0 <= i < img.pixels@.len() implies combined(bs, i) == img.pixels@[i] by {
            assert(mode_of(img.pixels@[i]) == img.mode);
        }
    }
}

impl Image {
    /// A copy of this image.
    pub fn duplicate(&self) -> (r: Image)
        ensures
            r.width == self.width,
            r.height == self.height,
            r.mode == self.mode,
            r.overlay_mode == self.overlay_mode,
            r.pixels@ == self.pixels@,
    {
        let pixels = self.pixels.clone();
        assert(pixels@ =~= self.pixels@);
        Image { width: self.width, height: self.height, pixels, mode: self.mode, overlay_mode: self.overlay_mode }
    }
}

impl Image {
    /// Whether the image is well formed: the pixel count matches the
    /// dimensions and every pixel has the image's format.
    pub fn is_valid(&self) -> (r: bool)
        ensures
            r == self.wf(),
    {
        assert(self.width * self.height <= 0xffff_ffff * 0xffff_ffff) by (nonlinear_arith)
            requires
                self.width <= 0xffff_ffff,
                self.height <= 0xffff_ffff,
        ;
        let total: u64 = self.width as u64 * self.height as u64;
        if total > usize::MAX as u64 || self.pixels.len() as u64 != total {
            return false;
        }
        let n = self.pixels.len();
        let mut i: usize = 0;
        while i < n
            invariant
                n == self.pixels@.len(),
                n == self.width * self.height,
                self.width * self.height <= usize::MAX,
                i <= n,
                forall|j: int| 0 <= j < i ==> mode_of(#[trigger] self.pixels@[j]) == self.mode,
            decreases n - i,
        {
            if self.pixels[i].mode() != self.mode {
                return false;
            }
            i = i + 1;
        }
        true
    }
}

impl Image {
    /// The pixels, row by row.
    pub fn rows(&self) -> (r: Vec<Vec<Pixel>>)
        requires
            self.wf(),
        ensures
            r@.len() == self.height,
            forall|y: int| 0 <= y < self.height ==> (#[trigger] r@[y])@.len() == self.width,
            forall|x: int, y: int| self.in_bounds(x, y) ==> #[trigger] r@[y]@[x] == self.at(x, y),
    {
        let mut out: Vec<Vec<Pixel>> = Vec::new();
        let mut y: u32 = 0;
        while y < self.height
            invariant
                self.wf(),
                y <= self.height,
                out@.len() == y,
                forall|j: int| 0 <= j < y ==> (#[trigger] out@[j])@.len() == self.width,
                forall|x: int, j: int| 0 <= x < self.width && 0 <= j < y ==> #[trigger] out@[j]@[x] == self.at(x, j),
            decreases self.height - y,
        {
            let mut row: Vec<Pixel> = Vec::new();
            let mut x: u32 = 0;
            while x < self.width
                invariant
                    self.wf(),
                    y < self.height,
                    x <= self.width,
                    row@.len() == x,
                    forall|i: int| 0 <= i < x ==> #[trigger] row@[i] == self.at(i, y as int),
                decreases self.width - x,
            {
                proof {
                    lemma_grid(self.width as int, self.height as int, x as int, y as int);
                }
                row.push(self.pixels[y as usize * self.width as usize + x as usize]);
                x = x + 1;
            }
            out.push(row);
            y = y + 1;
        }
        out
    }
}

/// How a grid is taken out of an image.
pub enum Remap {
    /// The box whose top-left corner is at the given column and row.
    Offset(u32, u32),
    /// Each row reversed.
    Mirror,
    /// The rows reversed.
    Flip,
}

/// The crop box `(x1, y1, x2, y2)` after clamping to a `w` by `h` image.
pub open spec fn crop_box(w: u32, h: u32, x1: u32, y1: u32, x2: u32, y2: u32) -> (int, int, int, int) {
    let cx2: int = if x2 > w { w as int } else { x2 as int };
    let cx1: int = if x1 > cx2 { cx2 } else { x1 as int };
    let cy2: int = if y2 > h { h as int } else { y2 as int };
    let cy1: int = if y1 > cy2 { cy2 } else { y1 as int };
    (cx1, cy1, cx2, cy2)
}

} // verus!
