use vstd::prelude::*;

use crate::types::OverlayMode;

verus! {

/// A single-bit pixel that is either on or off.
#[derive(Clone, Copy, Debug, PartialEq, Eq, Structural)]
pub struct BitPixel {
    pub value: bool,
}

/// A luminance pixel: one intensity channel between 0 and 255.
#[derive(Clone, Copy, Debug, PartialEq, Eq, Structural)]
pub struct L {
    pub value: u8,
}

/// A pixel with red, green and blue channels.
#[derive(Clone, Copy, Debug, PartialEq, Eq, Structural)]
pub struct Rgb {
    pub r: u8,
    pub g: u8,
    pub b: u8,
}

/// A pixel with red, green, blue and alpha channels; alpha 0 is fully
/// transparent and 255 fully opaque.
#[derive(Clone, Copy, Debug, PartialEq, Eq, Structural)]
pub struct Rgba {
    pub r: u8,
    pub g: u8,
    pub b: u8,
    pub a: u8,
}

/// The concrete format of a pixel, and so of an image.
#[derive(Clone, Copy, Debug, PartialEq, Eq, Structural)]
pub enum Mode {
    BitPixel,
    L,
    Rgb,
    Rgba,
}

impl Mode {
    pub open spec fn spec_name(self) -> Seq<char> {
        match self {
            Mode::BitPixel => "bitpixel"@,
            Mode::L => "L"@,
            Mode::Rgb => "RGB"@,
            Mode::Rgba => "RGBA"@,
        }
    }

    /// The usual name of the format.
    pub fn name(&self) -> (r: &'static str)
        ensures
            r@ == self.spec_name(),
    {
        match self {
            Mode::BitPixel => "bitpixel",
            Mode::L => "L",
            Mode::Rgb => "RGB",
            Mode::Rgba => "RGBA",
        }
    }
}

/// A pixel of any of the four formats.
#[derive(Clone, Copy, Debug, PartialEq, Eq, Structural)]
pub enum Pixel {
    BitPixel(BitPixel),
    L(L),
    Rgb(Rgb),
    Rgba(Rgba),
}

impl BitPixel {
    pub fn new(value: bool) -> (r: Self)
        ensures
            r.value == value,
    {
        BitPixel { value }
    }
}

impl L {
    pub fn new(value: u8) -> (r: Self)
        ensures
            r.value == value,
    {
        L { value }
    }
}

impl Rgb {
    pub fn new(r: u8, g: u8, b: u8) -> (p: Self)
        ensures
            p == (Rgb { r, g, b }),
    {
        Rgb { r, g, b }
    }
}

impl Rgba {
    pub fn new(r: u8, g: u8, b: u8, a: u8) -> (p: Self)
        ensures
            p == (Rgba { r, g, b, a }),
    {
        Rgba { r, g, b, a }
    }
}

/// The channel value that a bit stands for: 0 when off, 255 when on.
pub open spec fn bit_level(on: bool) -> u8 {
    if on {
        255
    } else {
        0
    }
}

/// Weighted luminance of a color (ITU-R BT.601 weights, in thousandths).
pub open spec fn luma(r: u8, g: u8, b: u8) -> u8 {
    ((299 * r + 587 * g + 114 * b) / 1000) as u8
}

/// A level counts as "on" when it is in the upper half of the range.
pub open spec fn level_is_on(v: u8) -> bool {
    v > 127
}

pub open spec fn mode_of(p: Pixel) -> Mode {
    match p {
        Pixel::BitPixel(_) => Mode::BitPixel,
        Pixel::L(_) => Mode::L,
        Pixel::Rgb(_) => Mode::Rgb,
        Pixel::Rgba(_) => Mode::Rgba,
    }
}

/// The luminance a pixel of any format stands for (alpha is ignored).
pub open spec fn level_of(p: Pixel) -> u8 {
    match p {
        Pixel::BitPixel(v) => bit_level(v.value),
        Pixel::L(v) => v.value,
        Pixel::Rgb(c) => luma(c.r, c.g, c.b),
        Pixel::Rgba(c) => luma(c.r, c.g, c.b),
    }
}

/// The color a pixel of any format stands for (alpha is ignored).
pub open spec fn rgb_of(p: Pixel) -> Rgb {
    match p {
        Pixel::BitPixel(v) => Rgb { r: bit_level(v.value), g: bit_level(v.value), b: bit_level(v.value) },
        Pixel::L(v) => Rgb { r: v.value, g: v.value, b: v.value },
        Pixel::Rgb(c) => c,
        Pixel::Rgba(c) => Rgb { r: c.r, g: c.g, b: c.b },
    }
}

/// `p` converted to format `m`. Converting to the format a pixel already has
/// is the identity; added alpha is opaque; removed alpha is dropped.
pub open spec fn converted(p: Pixel, m: Mode) -> Pixel {
    if mode_of(p) == m {
        p
    } else {
        match m {
            Mode::BitPixel => Pixel::BitPixel(BitPixel { value: level_is_on(level_of(p)) }),
            Mode::L => Pixel::L(L { value: level_of(p) }),
            Mode::Rgb => Pixel::Rgb(rgb_of(p)),
            Mode::Rgba => {
                let c = rgb_of(p);
                Pixel::Rgba(Rgba { r: c.r, g: c.g, b: c.b, a: 255 })
            },
        }
    }
}

/// Whether converting `p` to `m` keeps all the information of `p`.
pub open spec fn lossless(p: Pixel, m: Mode) -> bool {
    let gray_rgb = |c: Rgb| c.r == c.g && c.g == c.b;
    let extreme = |v: u8| v == 0 || v == 255;
    match p {
        Pixel::BitPixel(_) => true,
        Pixel::L(v) => m != Mode::BitPixel || extreme(v.value),
        Pixel::Rgb(c) => match m {
            Mode::Rgb | Mode::Rgba => true,
            Mode::L => gray_rgb(c),
            Mode::BitPixel => gray_rgb(c) && extreme(c.r),
        },
        Pixel::Rgba(c) => match m {
            Mode::Rgba => true,
            Mode::Rgb => c.a == 255,
            Mode::L => c.a == 255 && c.r == c.g && c.g == c.b,
            Mode::BitPixel => c.a == 255 && c.r == c.g && c.g == c.b && extreme(c.r),
        },
    }
}

/// Per-pixel inversion: bitwise NOT for bits, `255 - v` for each color
/// channel; alpha is left as it is.
pub open spec fn inverted(p: Pixel) -> Pixel {
    match p {
        Pixel::BitPixel(v) => Pixel::BitPixel(BitPixel { value: !v.value }),
        Pixel::L(v) => Pixel::L(L { value: (255 - v.value) as u8 }),
        Pixel::Rgb(c) => Pixel::Rgb(Rgb { r: (255 - c.r) as u8, g: (255 - c.g) as u8, b: (255 - c.b) as u8 }),
        Pixel::Rgba(c) => Pixel::Rgba(
            Rgba { r: (255 - c.r) as u8, g: (255 - c.g) as u8, b: (255 - c.b) as u8, a: c.a },
        ),
    }
}

/// The weight of the result's alpha, scaled by 255, in "source over base".
pub open spec fn over_weight(base: Rgba, top: Rgba) -> int {
    top.a * 255 + base.a * (255 - top.a)
}

pub open spec fn over_channel(base_c: u8, base_a: u8, top_c: u8, top_a: u8, w: int) -> u8 {
    ((top_c * top_a * 255 + base_c * base_a * (255 - top_a)) / w) as u8
}

/// The "over" operator: `top` composited over `base`.
pub open spec fn blend_over(base: Rgba, top: Rgba) -> Rgba {
    if top.a == 255 {
        top
    } else if top.a == 0 {
        base
    } else {
        let w = over_weight(base, top);
        Rgba {
            r: over_channel(base.r, base.a, top.r, top.a, w),
            g: over_channel(base.g, base.a, top.g, top.a, w),
            b: over_channel(base.b, base.a, top.b, top.a, w),
            a: (w / 255) as u8,
        }
    }
}

/// The pixel that results from placing `top` on `base` under `mode`. `top`
/// is first converted to the format of `base`; formats without alpha are
/// overwritten under both modes.
pub open spec fn overlaid(base: Pixel, top: Pixel, mode: OverlayMode) -> Pixel {
    let t = converted(top, mode_of(base));
    match (mode, base, t) {
        (OverlayMode::Merge, Pixel::Rgba(b), Pixel::Rgba(s)) => Pixel::Rgba(blend_over(b, s)),
        _ => t,
    }
}

fn luma_exec(r: u8, g: u8, b: u8) -> (v: u8)
    ensures
        v == luma(r, g, b),
{
    ((299 * r as u32 + 587 * g as u32 + 114 * b as u32) / 1000) as u8
}

fn bit_level_exec(on: bool) -> (v: u8)
    ensures
        v == bit_level(on),
{
    if on {
        255
    } else {
        0
    }
}

fn over_channel_exec(base_c: u8, base_a: u8, top_c: u8, top_a: u8, w: u32) -> (v: u8)
    requires
        w == top_a * 255 + base_a * (255 - top_a),
        0 < top_a < 255,
    ensures
        v == over_channel(base_c, base_a, top_c, top_a, w as int),
{
    let inv: u32 = 255 - top_a as u32;
    assert(top_c * top_a * 255 <= 255 * top_a * 255) by (nonlinear_arith)
        requires
            top_c <= 255,
            top_a >= 0,
    ;
    assert(base_c * base_a * inv <= 255 * base_a * inv) by (nonlinear_arith)
        requires
            base_c <= 255,
            base_a >= 0,
            inv >= 0,
    ;
    assert(base_a * inv <= 255 * 255) by (nonlinear_arith)
        requires
            base_a <= 255,
            inv <= 255,
    ;
    assert(top_c * top_a <= 255 * 255 && base_c * base_a <= 255 * 255) by (nonlinear_arith)
        requires
            top_c <= 255,
            top_a <= 255,
            base_c <= 255,
            base_a <= 255,
    ;
    let top_part: u32 = top_c as u32 * top_a as u32;
    let base_part: u32 = base_c as u32 * base_a as u32;
    assert(base_part * inv <= 255 * 255 * 255) by (nonlinear_arith)
        requires
            base_part <= 255 * 255,
            inv <= 255,
    ;
    let num: u32 = top_part * 255 + base_part * inv;
    assert(num <= 255 * w) by (nonlinear_arith)
        requires
            num == top_c * top_a * 255 + base_c * base_a * inv,
            w == top_a * 255 + base_a * inv,
            top_c * top_a * 255 <= 255 * top_a * 255,
            base_c * base_a * inv <= 255 * base_a * inv,
    ;
    assert(num / w <= 255) by (nonlinear_arith)
        requires
            num <= 255 * w,
            w > 0,
    ;
    (num / w) as u8
}

/// The "over" operator on two RGBA pixels.
pub fn blend(base: Rgba, top: Rgba) -> (r: Rgba)
    ensures
        r == blend_over(base, top),
{
    if top.a == 255 {
        top
    } else if top.a == 0 {
        base
    } else {
        let inv: u32 = 255 - top.a as u32;
        assert(base.a * inv <= 255 * 255) by (nonlinear_arith)
            requires
                base.a <= 255,
                inv <= 255,
        ;
        let w: u32 = top.a as u32 * 255 + base.a as u32 * inv;
        Rgba {
            r: over_channel_exec(base.r, base.a, top.r, top.a, w),
            g: over_channel_exec(base.g, base.a, top.g, top.a, w),
            b: over_channel_exec(base.b, base.a, top.b, top.a, w),
            a: (w / 255) as u8,
        }
    }
}

impl Pixel {
    pub fn from_bitpixel(value: bool) -> (r: Self)
        ensures
            r == Pixel::BitPixel(BitPixel { value }),
    {
        Pixel::BitPixel(BitPixel { value })
    }

    pub fn from_l(value: u8) -> (r: Self)
        ensures
            r == Pixel::L(L { value }),
    {
        Pixel::L(L { value })
    }

    pub fn from_rgb(r: u8, g: u8, b: u8) -> (p: Self)
        ensures
            p == Pixel::Rgb(Rgb { r, g, b }),
    {
        Pixel::Rgb(Rgb { r, g, b })
    }

    pub fn from_rgba(r: u8, g: u8, b: u8, a: u8) -> (p: Self)
        ensures
            p == Pixel::Rgba(Rgba { r, g, b, a }),
    {
        Pixel::Rgba(Rgba { r, g, b, a })
    }

    /// The format of this pixel.
    pub fn mode(&self) -> (m: Mode)
        ensures
            m == mode_of(*self),
    {
        match self {
            Pixel::BitPixel(_) => Mode::BitPixel,
            Pixel::L(_) => Mode::L,
            Pixel::Rgb(_) => Mode::Rgb,
            Pixel::Rgba(_) => Mode::Rgba,
        }
    }

    fn level(&self) -> (v: u8)
        ensures
            v == level_of(*self),
    {
        match self {
            Pixel::BitPixel(v) => bit_level_exec(v.value),
            Pixel::L(v) => v.value,
            Pixel::Rgb(c) => luma_exec(c.r, c.g, c.b),
            Pixel::Rgba(c) => luma_exec(c.r, c.g, c.b),
        }
    }

    fn color(&self) -> (c: Rgb)
        ensures
            c == rgb_of(*self),
    {
        match self {
            Pixel::BitPixel(v) => {
                let x = bit_level_exec(v.value);
                Rgb { r: x, g: x, b: x }
            },
            Pixel::L(v) => Rgb { r: v.value, g: v.value, b: v.value },
            Pixel::Rgb(c) => *c,
            Pixel::Rgba(c) => Rgb { r: c.r, g: c.g, b: c.b },
        }
    }

    /// This pixel converted to format `m`.
    pub fn convert(&self, m: Mode) -> (r: Pixel)
        ensures
            r == converted(*self, m),
            mode_of(r) == m,
    {
        if self.mode() == m {
            *self
        } else {
            match m {
                Mode::BitPixel => Pixel::BitPixel(BitPixel { value: self.level() > 127 }),
                Mode::L => Pixel::L(L { value: self.level() }),
                Mode::Rgb => Pixel::Rgb(self.color()),
                Mode::Rgba => {
                    let c = self.color();
                    Pixel::Rgba(Rgba { r: c.r, g: c.g, b: c.b, a: 255 })
                },
            }
        }
    }

    /// This pixel inverted within its format's range.
    pub fn invert(&self) -> (r: Pixel)
        ensures
            r == inverted(*self),
    {
        match self {
            Pixel::BitPixel(v) => Pixel::BitPixel(BitPixel { value: !v.value }),
            Pixel::L(v) => Pixel::L(L { value: 255 - v.value }),
            Pixel::Rgb(c) => Pixel::Rgb(Rgb { r: 255 - c.r, g: 255 - c.g, b: 255 - c.b }),
            Pixel::Rgba(c) => Pixel::Rgba(Rgba { r: 255 - c.r, g: 255 - c.g, b: 255 - c.b, a: c.a }),
        }
    }

    /// `top` placed on this pixel under `mode`.
    pub fn overlay(&self, top: &Pixel, mode: OverlayMode) -> (r: Pixel)
        ensures
            r == overlaid(*self, *top, mode),
            mode_of(r) == mode_of(*self),
    {
        let t = top.convert(self.mode());
        match (mode, self, t) {
            (OverlayMode::Merge, Pixel::Rgba(b), Pixel::Rgba(s)) => Pixel::Rgba(blend(*b, s)),
            _ => t,
        }
    }
}

/// Converting a pixel to another format and back gives the pixel again
/// whenever the intermediate format can hold all of its information.
pub proof fn lemma_convert_round_trip(p: Pixel, m: Mode)
    requires
        lossless(p, m),
    ensures
        converted(converted(p, m), mode_of(p)) == p,
{
    match p {
        Pixel::L(v) => {
            let x = v.value;
            assert((299 * x + 587 * x + 114 * x) / 1000 == x);
        },
        Pixel::Rgb(c) => {
            let x = c.r;
            assert((299 * x + 587 * x + 114 * x) / 1000 == x);
        },
        Pixel::Rgba(c) => {
            let x = c.r;
            assert((299 * x + 587 * x + 114 * x) / 1000 == x);
        },
        Pixel::BitPixel(_) => {},
    }
}

/// Inverting a pixel twice gives the pixel again.
pub proof fn lemma_invert_involution(p: Pixel)
    ensures
        inverted(inverted(p)) == p,
{
}

} // verus!
