use vstd::prelude::*;

use crate::pixels::Mode;

verus! {

/// Malformed input parameters.
#[derive(Clone, Copy, Debug, PartialEq, Eq, Structural)]
pub enum ValueError {
    /// A width or height of zero was asked for.
    ZeroDimensions,
    /// The number of pixels is not a multiple of the width.
    PixelCountNotMultiple,
    /// The height that the pixel count implies does not fit in 32 bits.
    DimensionsTooLarge,
    /// A coordinate lies outside the image.
    OutOfBounds,
    /// Bands come three (RGB) or four (RGBA) at a time.
    BandCount,
    /// A border position other than `inset`, `center` or `outset`.
    InvalidBorderPosition,
    /// An image or font whose public fields break its invariant (see
    /// `Image::is_valid` and `Font::is_valid`).
    Malformed,
}

/// The format an operation wanted.
#[derive(Clone, Copy, Debug, PartialEq, Eq, Structural)]
pub enum ExpectedMode {
    Exactly(Mode),
    /// Either RGB or RGBA.
    Color,
}

/// Data of the wrong pixel format or shape.
#[derive(Clone, Copy, Debug, PartialEq, Eq, Structural)]
pub enum Mismatch {
    Mode { expected: ExpectedMode, got: Mode },
    Dimensions { expected_width: u32, expected_height: u32, width: u32, height: u32 },
}

/// A drawable shape that lacks what it needs to be drawn.
#[derive(Clone, Copy, Debug, PartialEq, Eq, Structural)]
pub enum ConfigError {
    /// The size or the radii have a zero component.
    ZeroSize,
    /// Neither a fill nor a border is set.
    NoFillOrBorder,
    /// A radius plus the border's thickness exceeds the largest extent that
    /// can be measured exactly.
    TooLarge,
}

/// Every failure an operation of this library can report.
#[derive(Clone, Copy, Debug, PartialEq, Eq, Structural)]
pub enum Error {
    Value(ValueError),
    FormatMismatch(Mismatch),
    Configuration(ConfigError),
    /// A shared text layout's lock was left poisoned by an earlier failure.
    LockPoisoned,
}

pub open spec fn mode_mismatch(expected: Mode, got: Mode) -> Error {
    Error::FormatMismatch(Mismatch::Mode { expected: ExpectedMode::Exactly(expected), got })
}

} // verus!
