use vstd::prelude::*;

use crate::error::{Error, ValueError};
use crate::image::{lemma_grid, lemma_grid_index, Image};
use crate::pixels::{bit_level, mode_of, BitPixel, Mode, Pixel, Rgb, Rgba, L};
use crate::types::ResizeAlgorithm;

verus! {

/// One unit of kernel distance, in fixed point.
pub const POS_ONE: i64 = 256;

/// A weight of one, in fixed point.
pub const WEIGHT_ONE: i64 = 4096;

/// The four channels a pixel of any format is filtered as.
pub open spec fn channels_of(p: Pixel) -> (u8, u8, u8, u8) {
    match p {
        Pixel::BitPixel(v) => (bit_level(v.value), 0, 0, 0),
        Pixel::L(v) => (v.value, 0, 0, 0),
        Pixel::Rgb(c) => (c.r, c.g, c.b, 0),
        Pixel::Rgba(c) => (c.r, c.g, c.b, c.a),
    }
}

/// The pixel of format `m` that four filtered channels stand for.
pub open spec fn pixel_from_channels(m: Mode, c: (u8, u8, u8, u8)) -> Pixel {
    match m {
        Mode::BitPixel => Pixel::BitPixel(BitPixel { value: c.0 > 127 }),
        Mode::L => Pixel::L(L { value: c.0 }),
        Mode::Rgb => Pixel::Rgb(Rgb { r: c.0, g: c.1, b: c.2 }),
        Mode::Rgba => Pixel::Rgba(Rgba { r: c.0, g: c.1, b: c.2, a: c.3 }),
    }
}

fn channels(p: &Pixel) -> (r: [i64; 4])
    ensures
        r@.len() == 4,
        r@[0] == channels_of(*p).0,
        r@[1] == channels_of(*p).1,
        r@[2] == channels_of(*p).2,
        r@[3] == channels_of(*p).3,
{
    match p {
        Pixel::BitPixel(v) => [if v.value { 255 } else { 0 }, 0, 0, 0],
        Pixel::L(v) => [v.value as i64, 0, 0, 0],
        Pixel::Rgb(c) => [c.r as i64, c.g as i64, c.b as i64, 0],
        Pixel::Rgba(c) => [c.r as i64, c.g as i64, c.b as i64, c.a as i64],
    }
}

fn from_channels(m: Mode, c: &[u8; 4]) -> (r: Pixel)
    ensures
        r == pixel_from_channels(m, (c@[0], c@[1], c@[2], c@[3])),
        mode_of(r) == m,
{
    match m {
        Mode::BitPixel => Pixel::BitPixel(BitPixel { value: c[0] > 127 }),
        Mode::L => Pixel::L(L { value: c[0] }),
        Mode::Rgb => Pixel::Rgb(Rgb { r: c[0], g: c[1], b: c[2] }),
        Mode::Rgba => Pixel::Rgba(Rgba { r: c[0], g: c[1], b: c[2], a: c[3] }),
    }
}

/// The column (or row) of a source `src` pixels long that output pixel `x`
/// of `dst` samples under nearest-neighbour resizing: the one under the
/// output pixel's center.
pub open spec fn nearest_source(x: int, src: int, dst: int) -> int {
    ((2 * x + 1) * src) / (2 * dst)
}

fn nearest_exec(x: u32, src: u32, dst: u32) -> (r: u32)
    requires
        x < dst,
        src > 0,
    ensures
        r == nearest_source(x as int, src as int, dst as int),
        r < src,
{
    assert((2 * x + 1) * src < 2 * dst * src) by (nonlinear_arith)
        requires
            x < dst,
            src > 0,
    ;
    assert(((2 * x + 1) * src) / (2 * dst) < src) by (nonlinear_arith)
        requires
            (2 * x + 1) * src < 2 * dst * src,
            dst > 0,
    ;
    assert((2 * x + 1) * src <= 0x1_ffff_fffe_0000_0001 * 2) by (nonlinear_arith)
        requires
            x < dst <= 0xffff_ffff,
            src <= 0xffff_ffff,
    ;
    (((2 * x as u128 + 1) * src as u128) / (2 * dst as u128)) as u32
}

/// Half the width of the kernel's support, in fixed-point units.
pub open spec fn support(alg: ResizeAlgorithm) -> int {
    match alg {
        ResizeAlgorithm::Nearest | ResizeAlgorithm::Box => POS_ONE / 2,
        ResizeAlgorithm::Bilinear | ResizeAlgorithm::Hamming => POS_ONE as int,
        ResizeAlgorithm::Bicubic | ResizeAlgorithm::Mitchell => 2 * POS_ONE,
        ResizeAlgorithm::Lanczos3 => 3 * POS_ONE,
    }
}

fn support_exec(alg: ResizeAlgorithm) -> (r: i64)
    ensures
        r == support(alg),
        0 < r <= 3 * POS_ONE,
{
    match alg {
        ResizeAlgorithm::Nearest | ResizeAlgorithm::Box => POS_ONE / 2,
        ResizeAlgorithm::Bilinear | ResizeAlgorithm::Hamming => POS_ONE,
        ResizeAlgorithm::Bicubic | ResizeAlgorithm::Mitchell => 2 * POS_ONE,
        ResizeAlgorithm::Lanczos3 => 3 * POS_ONE,
    }
}

/// `n / d` in units of `WEIGHT_ONE`, rounded toward zero and kept within
/// one unit either way.
pub open spec fn ratio_of(n: int, d: int) -> int {
    let m = if n < 0 { -n } else { n };
    let q = if m * WEIGHT_ONE / d > WEIGHT_ONE { WEIGHT_ONE as int } else { m * WEIGHT_ONE / d };
    if n < 0 { -q } else { q }
}

/// Bhaskara's approximation of `sin(pi * a / POS_ONE)`, in units of
/// `WEIGHT_ONE`.
pub open spec fn sin_pi_of(a: int) -> int {
    let p = a * (POS_ONE - a);
    ratio_of(16 * p, 5 * POS_ONE * POS_ONE - 4 * p)
}

/// `sin(pi x) / (pi x)` for `x = t / POS_ONE`, in units of `WEIGHT_ONE`,
/// with pi taken as 355 / 113.
pub open spec fn sinc_of(t: int) -> int {
    let s = sin_pi_of(t % (POS_ONE as int));
    let signed = if (t / (POS_ONE as int)) % 2 == 0 { s } else { -s };
    ratio_of(signed * 113 * POS_ONE, 355 * t)
}

/// The fixed-point kernel of `alg` at distance `t` (in units of
/// `POS_ONE`), in units of `WEIGHT_ONE`.
pub open spec fn kernel_of(alg: ResizeAlgorithm, t: int) -> int {
    let a = if t < 0 { -t } else { t };
    let one = POS_ONE as int;
    let cube = 33554432int;
    match alg {
        ResizeAlgorithm::Nearest | ResizeAlgorithm::Box => if 2 * a < one { WEIGHT_ONE as int } else { 0 },
        ResizeAlgorithm::Bilinear => if a < one { ratio_of(one - a, one) } else { 0 },
        ResizeAlgorithm::Hamming => if a == 0 {
            WEIGHT_ONE as int
        } else if a < one {
            let s = sin_pi_of(a / 2);
            let c = WEIGHT_ONE - ratio_of(2 * (s * s), WEIGHT_ONE * WEIGHT_ONE);
            let window = ratio_of(54 * WEIGHT_ONE + 46 * c, 100 * WEIGHT_ONE);
            ratio_of(sinc_of(a) * window, WEIGHT_ONE * WEIGHT_ONE)
        } else {
            0
        },
        ResizeAlgorithm::Bicubic => if a < one {
            ratio_of(3 * (a * a * a) - 1280 * (a * a) + 33554432, cube)
        } else if a < 2 * one {
            ratio_of(-(a * a * a) + 1280 * (a * a) - 524288 * a + 67108864, cube)
        } else {
            0
        },
        ResizeAlgorithm::Mitchell => if a < one {
            ratio_of(21 * (a * a * a) - 9216 * (a * a) + 268435456, 9 * cube)
        } else if a < 2 * one {
            ratio_of(9216 * (a * a) - 7 * (a * a * a) - 3932160 * a + 536870912, 9 * cube)
        } else {
            0
        },
        ResizeAlgorithm::Lanczos3 => if a == 0 {
            WEIGHT_ONE as int
        } else if a < 3 * one {
            let s2 = if a / 3 == 0 { WEIGHT_ONE as int } else { sinc_of(a / 3) };
            ratio_of(sinc_of(a) * s2, WEIGHT_ONE * WEIGHT_ONE)
        } else {
            0
        },
    }
}

fn ratio(n: i64, d: i64) -> (r: i64)
    requires
        0 < d,
        -0x100_0000_0000 <= n <= 0x100_0000_0000,
    ensures
        -WEIGHT_ONE <= r <= WEIGHT_ONE,
        r == ratio_of(n as int, d as int),
{
    let m: i64 = if n < 0 { -n } else { n };
    let q: i64 = m * WEIGHT_ONE / d;
    let q: i64 = if q > WEIGHT_ONE { WEIGHT_ONE } else { q };
    assert(q >= 0) by (nonlinear_arith)
        requires
            q == WEIGHT_ONE || q == m * 4096 / (d as int),
            m >= 0,
            d > 0,
    ;
    if n < 0 {
        -q
    } else {
        q
    }
}

proof fn lemma_cube_bound(a: int)
    requires
        0 <= a <= 1024,
    ensures
        0 <= a * a <= 1024 * 1024,
        0 <= a * a * a <= 1024 * 1024 * 1024,
{
    assert(0 <= a * a <= 1024 * 1024) by (nonlinear_arith)
        requires
            0 <= a <= 1024,
    ;
    assert(0 <= a * a * a <= 1024 * 1024 * 1024) by (nonlinear_arith)
        requires
            0 <= a <= 1024,
            0 <= a * a <= 1024 * 1024,
    ;
}

proof fn lemma_product_bound(x: int, y: int)
    requires
        -4096 <= x <= 4096,
        -4096 <= y <= 4096,
    ensures
        -4096 * 4096 <= x * y <= 4096 * 4096,
{
    assert(-4096 * 4096 <= x * y <= 4096 * 4096) by (nonlinear_arith)
        requires
            -4096 <= x <= 4096,
            -4096 <= y <= 4096,
    ;
}

/// `sin(pi * a / POS_ONE)` for `0 <= a <= POS_ONE`, in units of
/// `WEIGHT_ONE`, by Bhaskara's rational approximation.
fn sin_pi(a: i64) -> (r: i64)
    requires
        0 <= a <= POS_ONE,
    ensures
        -WEIGHT_ONE <= r <= WEIGHT_ONE,
        r == sin_pi_of(a as int),
{
    proof {
        lemma_cube_bound(a as int);
    }
    assert(0 <= a * (256 - a) <= 65536) by (nonlinear_arith)
        requires
            0 <= a <= 256,
    ;
    let p = a * (POS_ONE - a);
    ratio(16 * p, 5 * POS_ONE * POS_ONE - 4 * p)
}

/// `sin(pi * t / POS_ONE) / (pi * t / POS_ONE)` for `0 < t`, in units of
/// `WEIGHT_ONE`.
fn sinc(t: i64) -> (r: i64)
    requires
        0 < t <= 3 * POS_ONE,
    ensures
        -WEIGHT_ONE <= r <= WEIGHT_ONE,
        r == sinc_of(t as int),
{
    let whole = t / POS_ONE;
    let frac = t % POS_ONE;
    let s = sin_pi(frac);
    let signed = if whole % 2 == 0 { s } else { -s };
    // pi * t / POS_ONE, with pi as 355 / 113, over the same denominator.
    ratio(signed * 113 * POS_ONE, 355 * t)
}

/// The weight of a source sample at kernel distance `t` (fixed point), in
/// units of `WEIGHT_ONE`.
fn kernel(alg: ResizeAlgorithm, t: i64) -> (r: i64)
    requires
        -4 * POS_ONE <= t <= 4 * POS_ONE,
    ensures
        -WEIGHT_ONE <= r <= WEIGHT_ONE,
        r == kernel_of(alg, t as int),
{
    let a = if t < 0 { -t } else { t };
    let one = POS_ONE;
    proof {
        lemma_cube_bound(a as int);
    }
    let cube: i64 = 33554432;
    let a2 = a * a;
    let a3 = a2 * a;
    assert(0 <= a2 <= 1024 * 1024 && 0 <= a3 <= 1024 * 1024 * 1024);
    match alg {
        ResizeAlgorithm::Nearest | ResizeAlgorithm::Box => if 2 * a < one {
            WEIGHT_ONE
        } else {
            0
        },
        ResizeAlgorithm::Bilinear => if a < one {
            ratio(one - a, one)
        } else {
            0
        },
        ResizeAlgorithm::Hamming => if a == 0 {
            WEIGHT_ONE
        } else if a < one {
            // sinc(x) (0.54 + 0.46 cos(pi x)), with cos(pi x) = 1 - 2 sin^2(pi x / 2).
            let s = sin_pi(a / 2);
            proof {
                lemma_product_bound(s as int, s as int);
            }
            let c = WEIGHT_ONE - ratio(2 * (s * s), WEIGHT_ONE * WEIGHT_ONE);
            let window = ratio(54 * WEIGHT_ONE + 46 * c, 100 * WEIGHT_ONE);
            let s1 = sinc(a);
            proof {
                lemma_product_bound(s1 as int, window as int);
            }
            ratio(s1 * window, WEIGHT_ONE * WEIGHT_ONE)
        } else {
            0
        },
        ResizeAlgorithm::Bicubic => {
            // Catmull-Rom: 1.5|x|^3 - 2.5|x|^2 + 1 below one,
            // -0.5|x|^3 + 2.5|x|^2 - 4|x| + 2 below two.
            if a < one {
                ratio(3 * a3 - 1280 * a2 + 33554432, cube)
            } else if a < 2 * one {
                ratio(-a3 + 1280 * a2 - 524288 * a + 67108864, cube)
            } else {
                0
            }
        },
        ResizeAlgorithm::Mitchell => {
            // B = C = 1/3: (7|x|^3 - 12|x|^2 + 16/3) / 6 below one,
            // (-7/3|x|^3 + 12|x|^2 - 20|x| + 32/3) / 6 below two.
            if a < one {
                ratio(21 * a3 - 9216 * a2 + 268435456, 9 * cube)
            } else if a < 2 * one {
                ratio(9216 * a2 - 7 * a3 - 3932160 * a + 536870912, 9 * cube)
            } else {
                0
            }
        },
        ResizeAlgorithm::Lanczos3 => if a == 0 {
            WEIGHT_ONE
        } else if a < 3 * one {
            let s1 = sinc(a);
            let s2 = if a / 3 == 0 { WEIGHT_ONE } else { sinc(a / 3) };
            proof {
                lemma_product_bound(s1 as int, s2 as int);
            }
            ratio(s1 * s2, WEIGHT_ONE * WEIGHT_ONE)
        } else {
            0
        },
    }
}

/// How far the kernel is stretched (in units of `POS_ONE`) when a line of
/// `src` samples becomes `dst`: by the shrink factor, and never below one.
pub open spec fn kernel_scale(src: int, dst: int) -> int {
    if src * POS_ONE / dst > POS_ONE { src * POS_ONE / dst } else { POS_ONE as int }
}

/// The center of output sample `x` in source coordinates, in units of
/// `POS_ONE`.
pub open spec fn filter_center(x: int, src: int, dst: int) -> int {
    ((2 * x + 1) * src * POS_ONE) / (2 * dst)
}

pub open spec fn filter_radius(alg: ResizeAlgorithm, src: int, dst: int) -> int {
    support(alg) * kernel_scale(src, dst) / (POS_ONE as int)
}

/// The first source sample that output sample `x` is filtered from.
pub open spec fn window_start(alg: ResizeAlgorithm, x: int, src: int, dst: int) -> int {
    let lo = filter_center(x, src, dst) - filter_radius(alg, src, dst);
    if lo <= 0 { 0 } else { lo / (POS_ONE as int) }
}

/// One past the last source sample that output sample `x` is filtered from.
pub open spec fn window_end(alg: ResizeAlgorithm, x: int, src: int, dst: int) -> int {
    let hi = (filter_center(x, src, dst) + filter_radius(alg, src, dst)) / (POS_ONE as int) + 1;
    if hi > src { src } else { hi }
}

/// The kernel distance of source sample `k` from `center`, in units of
/// `POS_ONE`, rounded toward zero and kept within four units.
pub open spec fn kernel_distance(k: int, center: int, scale: int) -> int {
    let d = k * POS_ONE + POS_ONE / 2 - center;
    let m = if d < 0 { -d } else { d };
    let t = if m * POS_ONE / scale > 4 * POS_ONE { 4 * POS_ONE } else { m * POS_ONE / scale };
    if d < 0 { -t } else { t }
}

/// The weight of source sample `k` for output sample `x`.
pub open spec fn weight_of(alg: ResizeAlgorithm, x: int, src: int, dst: int, k: int) -> int {
    kernel_of(alg, kernel_distance(k, filter_center(x, src, dst), kernel_scale(src, dst)))
}

/// The first source index and the weights of the source samples that output
/// sample `x` of `dst` is filtered from, for a line of `src` samples.
fn weights(alg: ResizeAlgorithm, x: u32, src: u32, dst: u32) -> (r: (usize, Vec<i64>))
    requires
        x < dst,
        src > 0,
    ensures
        r.0 + r.1@.len() <= src,
        forall|k: int| 0 <= k < r.1@.len() ==> -WEIGHT_ONE <= #[trigger] r.1@[k] <= WEIGHT_ONE,
        r.0 == window_start(alg, x as int, src as int, dst as int),
        r.1@.len() == (if window_end(alg, x as int, src as int, dst as int) > r.0 {
            window_end(alg, x as int, src as int, dst as int) - r.0
        } else {
            0
        }),
        forall|j: int|
            0 <= j < r.1@.len() ==> #[trigger] r.1@[j] == weight_of(alg, x as int, src as int, dst as int, r.0 + j),
{
    let src64 = src as i64;
    let dst64 = dst as i64;
    // Fixed-point scale of the kernel: stretched when shrinking.
    let ratio_fp: i64 = src64 * POS_ONE / dst64;
    let scale: i64 = if ratio_fp > POS_ONE { ratio_fp } else { POS_ONE };
    assert(scale <= src64 * POS_ONE) by (nonlinear_arith)
        requires
            scale == POS_ONE || scale == src64 * 256 / (dst64 as int),
            dst64 >= 1,
            src64 >= 1,
    ;
    assert(0 <= (2 * x + 1) * src64 <= 0x2_0000_0000 * 0x1_0000_0000) by (nonlinear_arith)
        requires
            x < dst64 <= 0xffff_ffff,
            1 <= src64 <= 0xffff_ffff,
    ;
    let wide: i128 = ((2 * x as i128 + 1) * src as i128 * POS_ONE as i128) / (2 * dst as i128);
    assert(0 <= wide <= src64 * POS_ONE) by (nonlinear_arith)
        requires
            wide == ((2 * x + 1) * src64 * 256) / (2 * dst64) as int,
            x < dst64,
            src64 >= 1,
    ;
    let center: i64 = wide as i64;
    let sup = support_exec(alg);
    assert(0 <= sup * scale <= 768 * 0x100_0000_0000) by (nonlinear_arith)
        requires
            0 < sup <= 768,
            0 < scale <= src64 * 256,
            src64 <= 0xffff_ffff,
    ;
    let radius: i64 = sup * scale / POS_ONE;
    let lo_fp: i64 = center - radius;
    let lo: i64 = if lo_fp <= 0 { 0 } else { lo_fp / POS_ONE };
    assert(lo <= src64);
    let hi_fp: i64 = (center + radius) / POS_ONE + 1;
    let hi: i64 = if hi_fp > src64 { src64 } else { hi_fp };
    let mut out: Vec<i64> = Vec::new();
    let mut k: i64 = lo;
    while k < hi
        invariant
            0 <= lo <= k,
            lo <= src64,
            k <= hi || k == lo,
            hi <= src64,
            out@.len() == k - lo,
            scale >= POS_ONE,
            0 <= center <= src64 * POS_ONE,
            scale <= src64 * POS_ONE,
            src64 <= 0xffff_ffff,
            forall|j: int| 0 <= j < out@.len() ==> -WEIGHT_ONE <= #[trigger] out@[j] <= WEIGHT_ONE,
            center == filter_center(x as int, src as int, dst as int),
            scale == kernel_scale(src as int, dst as int),
            forall|j: int|
                0 <= j < out@.len() ==> #[trigger] out@[j] == weight_of(alg, x as int, src as int, dst as int, lo + j),
        decreases hi - k,
    {
        let d: i64 = (k * POS_ONE + POS_ONE / 2) - center;
        let m: i64 = if d < 0 { -d } else { d };
        let tm_raw: i64 = m * POS_ONE / scale;
        let tm: i64 = if tm_raw > 4 * POS_ONE { 4 * POS_ONE } else { tm_raw };
        let t: i64 = if d < 0 { -tm } else { tm };
        out.push(kernel(alg, t));
        k = k + 1;
    }
    (lo as usize, out)
}

/// Every pixel of `s` equals the first.
pub open spec fn uniform(s: Seq<Pixel>) -> bool {
    forall|i: int| 0 <= i < s.len() ==> #[trigger] s[i] == s[0]
}

proof fn lemma_scaled_sum(c: int, total: int, wt: int)
    ensures
        c * total + wt * c == c * (total + wt),
{
    assert(c * total + wt * c == c * (total + wt)) by (nonlinear_arith);
}

/// A pixel's channels give the pixel back in its own format.
proof fn lemma_channels_round_trip(p: Pixel)
    ensures
        pixel_from_channels(mode_of(p), channels_of(p)) == p,
{
}

/// Channel `c` (0 to 3) of the channels a pixel is filtered as.
pub open spec fn channel_of(p: Pixel, c: int) -> int {
    let ch = channels_of(p);
    if c == 0 {
        ch.0 as int
    } else if c == 1 {
        ch.1 as int
    } else if c == 2 {
        ch.2 as int
    } else {
        ch.3 as int
    }
}

/// Sample `k` of the line through output position `(x, y)`: along row `y`
/// when filtering rows, along column `x` when filtering columns.
pub open spec fn line_sample(pixels: Seq<Pixel>, w: int, horizontal: bool, x: int, y: int, k: int) -> Pixel {
    if horizontal {
        pixels[y * w + k]
    } else {
        pixels[k * w + x]
    }
}

/// What output position `(x, y)` is filtered over: the sample's place on
/// the line, and the line's length.
pub open spec fn axis_of(w: int, h: int, horizontal: bool, x: int, y: int) -> (int, int) {
    if horizontal {
        (x, w)
    } else {
        (y, h)
    }
}

/// The weighted sum of channel `c` over the first `n` samples of the window
/// of output position `(x, y)`.
pub open spec fn channel_sum(
    pixels: Seq<Pixel>,
    w: int,
    h: int,
    horizontal: bool,
    new_len: int,
    alg: ResizeAlgorithm,
    x: int,
    y: int,
    c: int,
    n: int,
) -> int
    decreases n,
{
    if n <= 0 {
        0
    } else {
        let (a, src) = axis_of(w, h, horizontal, x, y);
        let k = window_start(alg, a, src, new_len) + n - 1;
        channel_sum(pixels, w, h, horizontal, new_len, alg, x, y, c, n - 1) + weight_of(alg, a, src, new_len, k)
            * channel_of(line_sample(pixels, w, horizontal, x, y, k), c)
    }
}

/// The sum of the first `n` weights of the window of output position
/// `(x, y)`.
pub open spec fn weight_total(w: int, h: int, horizontal: bool, new_len: int, alg: ResizeAlgorithm, x: int, y: int, n: int) -> int
    decreases n,
{
    if n <= 0 {
        0
    } else {
        let (a, src) = axis_of(w, h, horizontal, x, y);
        weight_total(w, h, horizontal, new_len, alg, x, y, n - 1) + weight_of(alg, a, src, new_len, window_start(alg, a, src, new_len) + n - 1)
    }
}

/// A weighted sum over the weight total, rounded and brought into `0..=255`.
pub open spec fn settled(acc: int, total: int) -> u8 {
    if acc <= 0 {
        0
    } else if (acc + total / 2) / total > 255 {
        255
    } else {
        ((acc + total / 2) / total) as u8
    }
}

/// Output position `(x, y)` of a `w` by `h` grid of format `m` filtered with
/// `alg` along rows (to `new_len` columns) or columns (to `new_len` rows):
/// each channel is the settled weighted sum over the window; where the
/// weights sum to nothing, the nearest sample is taken.
pub open spec fn filtered_at(
    pixels: Seq<Pixel>,
    w: int,
    h: int,
    m: Mode,
    horizontal: bool,
    new_len: int,
    alg: ResizeAlgorithm,
    x: int,
    y: int,
) -> Pixel {
    let (a, src) = axis_of(w, h, horizontal, x, y);
    let lo = window_start(alg, a, src, new_len);
    let hi = window_end(alg, a, src, new_len);
    let n = if hi > lo { hi - lo } else { 0 };
    let total = weight_total(w, h, horizontal, new_len, alg, x, y, n);
    if total > 0 {
        let sum = |c: int| channel_sum(pixels, w, h, horizontal, new_len, alg, x, y, c, n);
        pixel_from_channels(m, (settled(sum(0), total), settled(sum(1), total), settled(sum(2), total), settled(sum(3), total)))
    } else {
        line_sample(pixels, w, horizontal, x, y, nearest_source(a, src, new_len))
    }
}

/// The grid of `img` filtered along rows to `width` columns.
pub open spec fn filtered_rows(img: &Image, width: int, alg: ResizeAlgorithm) -> Seq<Pixel> {
    Seq::new(
        (width * img.height) as nat,
        |i: int| filtered_at(img.pixels@, img.width as int, img.height as int, img.mode, true, width, alg, i % width, i / width),
    )
}

/// The grid of `img` filtered along rows to `width` columns and then along
/// columns to `height` rows.
pub open spec fn filtered_grid(img: &Image, width: int, height: int, alg: ResizeAlgorithm) -> Seq<Pixel> {
    Seq::new(
        (width * height) as nat,
        |i: int|
            filtered_at(filtered_rows(img, width, alg), width, img.height as int, img.mode, false, height, alg, i % width, i / width),
    )
}

/// A filtered channel: the weighted sum over the weight total, rounded and
/// brought into `0..=255`.
fn settle(acc: i64, total: i64, Ghost(c): Ghost<u8>) -> (r: u8)
    requires
        total > 0,
        acc <= 0x10_0000_0000_0000,
    ensures
        acc == c * total ==> r == c,
        r == settled(acc as int, total as int),
{
    if acc <= 0 {
        assert(acc == c * total ==> c == 0) by (nonlinear_arith)
            requires
                acc <= 0,
                total > 0,
                c >= 0,
        ;
        0
    } else {
        let v = (acc + total / 2) / total;
        assert(acc == c * total ==> v == c) by (nonlinear_arith)
            requires
                v == (acc + total / 2) / (total as int),
                total > 0,
                c >= 0,
        ;
        if v > 255 {
            255
        } else {
            v as u8
        }
    }
}

/// Output position `(x, y)` of `img` filtered along one axis to `new_len`
/// samples: along its row when `horizontal`, else along its column.
fn filter_one(img: &Image, new_len: u32, horizontal: bool, alg: ResizeAlgorithm, x: u32, y: u32) -> (p: Pixel)
    requires
        img.wf(),
        img.width > 0,
        img.height > 0,
        new_len > 0,
        x < (if horizontal { new_len } else { img.width }),
        y < (if horizontal { img.height } else { new_len }),
    ensures
        mode_of(p) == img.mode,
        uniform(img.pixels@) ==> p == img.pixels@[0],
        p == filtered_at(img.pixels@, img.width as int, img.height as int, img.mode, horizontal, new_len as int, alg, x as int, y as int),
{
    let w = img.width;
    let h = img.height;
    let out_w = if horizontal { new_len } else { w };
    let out_h = if horizontal { h } else { new_len };
    let (a, src_len) = if horizontal { (x, w) } else { (y, h) };
    let (lo, ws) = weights(alg, a, src_len, new_len);
    let mut acc0: i64 = 0;
    let mut acc1: i64 = 0;
    let mut acc2: i64 = 0;
    let mut acc3: i64 = 0;
    let mut total: i64 = 0;
    let mut j: usize = 0;
    while j < ws.len()
        invariant
            img.wf(),
            w == img.width,
            h == img.height,
            x < out_w,
            y < out_h,
            out_w == (if horizontal { new_len } else { w }),
            out_h == (if horizontal { h } else { new_len }),
            src_len == (if horizontal { w } else { h }),
            lo + ws@.len() <= src_len,
            forall|k: int| 0 <= k < ws@.len() ==> -WEIGHT_ONE <= #[trigger] ws@[k] <= WEIGHT_ONE,
            j <= ws@.len(),
            -(j * 4096 * 255) <= acc0 <= j * 4096 * 255,
            -(j * 4096 * 255) <= acc1 <= j * 4096 * 255,
            -(j * 4096 * 255) <= acc2 <= j * 4096 * 255,
            -(j * 4096 * 255) <= acc3 <= j * 4096 * 255,
            -(j * 4096) <= total <= j * 4096,
            src_len <= 0xffff_ffff,
            (a as int, src_len as int) == axis_of(w as int, h as int, horizontal, x as int, y as int),
            lo == window_start(alg, a as int, src_len as int, new_len as int),
            forall|k: int|
                0 <= k < ws@.len() ==> #[trigger] ws@[k] == weight_of(alg, a as int, src_len as int, new_len as int, lo + k),
            acc0 == channel_sum(img.pixels@, w as int, h as int, horizontal, new_len as int, alg, x as int, y as int, 0, j as int),
            acc1 == channel_sum(img.pixels@, w as int, h as int, horizontal, new_len as int, alg, x as int, y as int, 1, j as int),
            acc2 == channel_sum(img.pixels@, w as int, h as int, horizontal, new_len as int, alg, x as int, y as int, 2, j as int),
            acc3 == channel_sum(img.pixels@, w as int, h as int, horizontal, new_len as int, alg, x as int, y as int, 3, j as int),
            total == weight_total(w as int, h as int, horizontal, new_len as int, alg, x as int, y as int, j as int),
            uniform(img.pixels@) ==> {
                let c = channels_of(img.pixels@[0]);
                &&& acc0 == c.0 * total
                &&& acc1 == c.1 * total
                &&& acc2 == c.2 * total
                &&& acc3 == c.3 * total
            },
        decreases ws@.len() - j,
    {
        let (sx, sy) = if horizontal { (lo + j, y as usize) } else { (x as usize, lo + j) };
        proof {
            lemma_grid(w as int, h as int, sx as int, sy as int);
        }
        let p = img.pixels[sy * w as usize + sx];
        let c = channels(&p);
        let wt = ws[j];
        assert(p == line_sample(img.pixels@, w as int, horizontal, x as int, y as int, lo + j));
        assert(-(4096 * 255) <= wt * c@[0] <= 4096 * 255 && -(4096 * 255) <= wt * c@[1] <= 4096 * 255 && -(4096
            * 255) <= wt * c@[2] <= 4096 * 255 && -(4096 * 255) <= wt * c@[3] <= 4096 * 255) by (nonlinear_arith)
            requires
                -4096 <= wt <= 4096,
                0 <= c@[0] <= 255,
                0 <= c@[1] <= 255,
                0 <= c@[2] <= 255,
                0 <= c@[3] <= 255,
        ;
        proof {
            if uniform(img.pixels@) {
                assert(img.pixels@[sy * w + sx] == img.pixels@[0]);
                let k = channels_of(img.pixels@[0]);
                lemma_scaled_sum(k.0 as int, total as int, wt as int);
                lemma_scaled_sum(k.1 as int, total as int, wt as int);
                lemma_scaled_sum(k.2 as int, total as int, wt as int);
                lemma_scaled_sum(k.3 as int, total as int, wt as int);
            }
        }
        acc0 = acc0 + wt * c[0];
        acc1 = acc1 + wt * c[1];
        acc2 = acc2 + wt * c[2];
        acc3 = acc3 + wt * c[3];
        total = total + wt;
        j = j + 1;
    }
    assert(ws@.len() * 4096 * 255 <= 0x10_0000_0000_0000) by (nonlinear_arith)
        requires
            ws@.len() <= 0xffff_ffff,
    ;
    let p = if total > 0 {
        let ghost k = channels_of(img.pixels@[0]);
        let chans: [u8; 4] = [
            settle(acc0, total, Ghost(k.0)),
            settle(acc1, total, Ghost(k.1)),
            settle(acc2, total, Ghost(k.2)),
            settle(acc3, total, Ghost(k.3)),
        ];
        proof {
            if uniform(img.pixels@) {
                assert(w * h > 0) by (nonlinear_arith)
                    requires
                        w > 0,
                        h > 0,
                ;
                assert(mode_of(img.pixels@[0]) == img.mode);
                lemma_channels_round_trip(img.pixels@[0]);
            }
        }
        from_channels(img.mode, &chans)
    } else {
        let (sx, sy) = if horizontal {
            (nearest_exec(x, w, new_len), y)
        } else {
            (x, nearest_exec(y, h, new_len))
        };
        proof {
            lemma_grid(w as int, h as int, sx as int, sy as int);
        }
        img.pixels[sy as usize * w as usize + sx as usize]
    };
    proof {
        if uniform(img.pixels@) {
            assert(p == img.pixels@[0]);
        }
        assert(p == filtered_at(img.pixels@, w as int, h as int, img.mode, horizontal, new_len as int, alg, x as int, y as int));
    }
    p
}

/// Filters `img` along one axis to `new_len` samples: along each row when
/// `horizontal`, else along each column.
fn resample_axis(img: &Image, new_len: u32, horizontal: bool, alg: ResizeAlgorithm) -> (r: Vec<Pixel>)
    requires
        img.wf(),
        img.width > 0,
        img.height > 0,
        new_len > 0,
        horizontal ==> new_len * img.height <= usize::MAX,
        !horizontal ==> img.width * new_len <= usize::MAX,
    ensures
        r@.len() == (if horizontal { new_len * img.height } else { img.width * new_len }),
        forall|i: int| 0 <= i < r@.len() ==> mode_of(#[trigger] r@[i]) == img.mode,
        uniform(img.pixels@) ==> forall|i: int| 0 <= i < r@.len() ==> #[trigger] r@[i] == img.pixels@[0],
        forall|i: int|
            0 <= i < r@.len() ==> #[trigger] r@[i] == filtered_at(
                img.pixels@,
                img.width as int,
                img.height as int,
                img.mode,
                horizontal,
                new_len as int,
                alg,
                i % (if horizontal { new_len as int } else { img.width as int }),
                i / (if horizontal { new_len as int } else { img.width as int }),
            ),
{
    let w = img.width;
    let h = img.height;
    let (out_w, out_h) = if horizontal { (new_len, h) } else { (w, new_len) };
    let n: usize = out_w as usize * out_h as usize;
    let mut out: Vec<Pixel> = Vec::with_capacity(n);
    let mut i: usize = 0;
    while i < n
        invariant
            img.wf(),
            w == img.width,
            h == img.height,
            w > 0,
            h > 0,
            new_len > 0,
            out_w == (if horizontal { new_len } else { w }),
            out_h == (if horizontal { h } else { new_len }),
            n == out_w * out_h,
            i <= n,
            out@.len() == i,
            forall|j: int| 0 <= j < i ==> mode_of(#[trigger] out@[j]) == img.mode,
            uniform(img.pixels@) ==> forall|j: int| 0 <= j < i ==> #[trigger] out@[j] == img.pixels@[0],
            forall|j: int|
                0 <= j < i ==> #[trigger] out@[j] == filtered_at(
                    img.pixels@,
                    w as int,
                    h as int,
                    img.mode,
                    horizontal,
                    new_len as int,
                    alg,
                    j % (out_w as int),
                    j / (out_w as int),
                ),
        decreases n - i,
    {
        proof {
            lemma_grid_index(out_w as int, out_h as int, i as int);
        }
        let x = (i % out_w as usize) as u32;
        let y = (i / out_w as usize) as u32;
        let p = filter_one(img, new_len, horizontal, alg, x, y);
        out.push(p);
        i = i + 1;
    }
    out
}

/// Nearest-neighbour resizing to `width` by `height`.
fn resize_nearest(img: &Image, width: u32, height: u32) -> (r: Vec<Pixel>)
    requires
        img.wf(),
        img.width > 0,
        img.height > 0,
        width > 0,
        height > 0,
        width * height <= usize::MAX,
    ensures
        r@.len() == width * height,
        forall|i: int| 0 <= i < r@.len() ==> mode_of(#[trigger] r@[i]) == img.mode,
        uniform(img.pixels@) ==> forall|i: int| 0 <= i < r@.len() ==> #[trigger] r@[i] == img.pixels@[0],
        forall|x: int, y: int|
            0 <= x < width && 0 <= y < height ==> #[trigger] r@[y * width + x] == img.at(
                nearest_source(x, img.width as int, width as int),
                nearest_source(y, img.height as int, height as int),
            ),
{
    let n: usize = width as usize * height as usize;
    let mut out: Vec<Pixel> = Vec::with_capacity(n);
    let mut i: usize = 0;
    while i < n
        invariant
            img.wf(),
            img.width > 0,
            img.height > 0,
            width > 0,
            n == width * height,
            i <= n,
            out@.len() == i,
            forall|j: int| 0 <= j < i ==> mode_of(#[trigger] out@[j]) == img.mode,
            uniform(img.pixels@) ==> forall|j: int| 0 <= j < i ==> #[trigger] out@[j] == img.pixels@[0],
            forall|j: int|
                0 <= j < i ==> #[trigger] out@[j] == img.at(
                    nearest_source(j % (width as int), img.width as int, width as int),
                    nearest_source(j / (width as int), img.height as int, height as int),
                ),
        decreases n - i,
    {
        proof {
            lemma_grid_index(width as int, height as int, i as int);
        }
        let x = (i % width as usize) as u32;
        let y = (i / width as usize) as u32;
        let sx = nearest_exec(x, img.width, width);
        let sy = nearest_exec(y, img.height, height);
        proof {
            lemma_grid(img.width as int, img.height as int, sx as int, sy as int);
        }
        out.push(img.pixels[sy as usize * img.width as usize + sx as usize]);
        i = i + 1;
    }
    assert forall|x: int, y: int| 0 <= x < width && 0 <= y < height implies #[trigger] out@[y * width + x] == img.at(
        nearest_source(x, img.width as int, width as int),
        nearest_source(y, img.height as int, height as int),
    ) by {
        lemma_grid(width as int, height as int, x, y);
    }
    out
}

impl Image {
    /// Whether resizing this image to `width` by `height` succeeds: both
    /// images have pixels, and the new grid (and the grid filtered along
    /// rows first) can be held in memory.
    pub open spec fn can_resize(&self, width: u32, height: u32) -> bool {
        &&& width > 0
        &&& height > 0
        &&& self.width > 0
        &&& self.height > 0
        &&& width * height <= usize::MAX
        &&& width * self.height <= usize::MAX
    }

    /// Resamples the image to `width` by `height` with `algorithm`, applied
    /// along rows and then along columns. Nearest takes the source pixel
    /// under each output pixel's center; the other algorithms give each
    /// channel as the settled, weighted sum of `filtered_at`, with the
    /// fixed-point weights of `kernel_of`. The format is kept and channel
    /// values are clamped to their range; an image of a single color keeps
    /// that color under every algorithm. Fails when either image would have
    /// no pixels, or when the grids are too large to hold.
    pub fn resize(&mut self, width: u32, height: u32, algorithm: ResizeAlgorithm) -> (r: Result<(), Error>)
        requires
            old(self).wf(),
        ensures
            final(self).wf(),
            final(self).mode == old(self).mode,
            final(self).overlay_mode == old(self).overlay_mode,
            r is Ok <==> old(self).can_resize(width, height),
            r is Ok ==> final(self).width == width && final(self).height == height,
            r is Err ==> final(self).width == old(self).width && final(self).height == old(self).height
                && final(self).pixels@ == old(self).pixels@,
            (width == 0 || height == 0 || old(self).width == 0 || old(self).height == 0) ==> r == Err::<(), Error>(
                Error::Value(ValueError::ZeroDimensions),
            ),
            r is Ok && uniform(old(self).pixels@) ==> forall|i: int|
                0 <= i < final(self).pixels@.len() ==> #[trigger] final(self).pixels@[i] == old(self).pixels@[0],
            r is Ok && algorithm != ResizeAlgorithm::Nearest ==> final(self).pixels@ == filtered_grid(
                old(self),
                width as int,
                height as int,
                algorithm,
            ),
            r is Ok && algorithm == ResizeAlgorithm::Nearest ==> forall|x: int, y: int|
                final(self).in_bounds(x, y) ==> #[trigger] final(self).at(x, y) == old(self).at(
                    nearest_source(x, old(self).width as int, width as int),
                    nearest_source(y, old(self).height as int, height as int),
                ),
    {
        if width == 0 || height == 0 || self.width == 0 || self.height == 0 {
            return Err(Error::Value(ValueError::ZeroDimensions));
        }
        assert(width * height <= 0xffff_ffff * 0xffff_ffff && width * self.height <= 0xffff_ffff * 0xffff_ffff)
            by (nonlinear_arith)
            requires
                width <= 0xffff_ffff,
                height <= 0xffff_ffff,
                self.height <= 0xffff_ffff,
        ;
        if width as u64 * height as u64 > usize::MAX as u64 || width as u64 * self.height as u64 > usize::MAX as u64 {
            return Err(Error::Value(ValueError::DimensionsTooLarge));
        }
        let ghost prev = *self;
        if algorithm == ResizeAlgorithm::Nearest {
            let pixels = resize_nearest(self, width, height);
            self.pixels = pixels;
            self.width = width;
            self.height = height;
            assert forall|x: int, y: int| self.in_bounds(x, y) implies #[trigger] self.at(x, y) == prev.at(
                nearest_source(x, prev.width as int, width as int),
                nearest_source(y, prev.height as int, height as int),
            ) by {
                assert(self.at(x, y) == pixels@[y * width + x]);
            }
        } else {
            let rows = resample_axis(self, width, true, algorithm);
            let middle = Image {
                width,
                height: self.height,
                pixels: rows,
                mode: self.mode,
                overlay_mode: self.overlay_mode,
            };
            proof {
                assert(width * prev.height > 0) by (nonlinear_arith)
                    requires
                        width > 0,
                        prev.height > 0,
                ;
                if uniform(prev.pixels@) {
                    assert(middle.pixels@[0] == prev.pixels@[0]);
                    assert(uniform(middle.pixels@));
                }
            }
            assert(middle.pixels@ =~= filtered_rows(&prev, width as int, algorithm));
            let cols = resample_axis(&middle, height, false, algorithm);
            assert(cols@ =~= filtered_grid(&prev, width as int, height as int, algorithm));
            self.pixels = cols;
            self.width = width;
            self.height = height;
        }
        Ok(())
    }
}

/// Resizing is dimension-idempotent: once an image has been resized to
/// `w` by `h`, resizing the result back to the first image's size succeeds,
/// and so (by the contract of `resize`) gives exactly those dimensions again,
/// whatever the algorithm; the pixels may differ. The one case left out is a
/// grid too large to hold while filtering back along rows.
pub proof fn lemma_resize_round_trip_dimensions(img: &Image, w: u32, h: u32, back: &Image)
    requires
        img.wf(),
        img.can_resize(w, h),
        back.width == w,
        back.height == h,
        back.wf(),
        img.width * h <= usize::MAX,
    ensures
        back.can_resize(img.width, img.height),
{
}

} // verus!
