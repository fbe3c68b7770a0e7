use vstd::prelude::*;

verus! {

/// How a source pixel is combined with the pixel it lands on.
#[derive(Clone, Copy, Debug, PartialEq, Eq, Structural)]
pub enum OverlayMode {
    /// The destination pixel is overwritten.
    Replace,
    /// The source is alpha-composited over the destination.
    Merge,
}

/// A filtering algorithm used to resize an image.
#[derive(Clone, Copy, Debug, PartialEq, Eq, Structural)]
pub enum ResizeAlgorithm {
    Nearest,
    Box,
    Bilinear,
    Hamming,
    Bicubic,
    Mitchell,
    Lanczos3,
}

/// How a frame is disposed of before the next frame of a sequence is shown.
#[derive(Clone, Copy, Debug, PartialEq, Eq, Structural)]
pub enum DisposalMethod {
    /// Leave the frame in place.
    Keep,
    /// Replace the frame with the background color.
    Background,
    /// Restore what was shown before the frame.
    Previous,
}

impl DisposalMethod {
    pub open spec fn spec_name(self) -> Seq<char> {
        match self {
            DisposalMethod::Keep => "Keep"@,
            DisposalMethod::Background => "Background"@,
            DisposalMethod::Previous => "Previous"@,
        }
    }

    /// The name of the method.
    pub fn name(&self) -> (r: &'static str)
        ensures
            r@ == self.spec_name(),
    {
        match self {
            DisposalMethod::Keep => "Keep",
            DisposalMethod::Background => "Background",
            DisposalMethod::Previous => "Previous",
        }
    }
}

/// The policy for breaking text into lines when a width is set.
#[derive(Clone, Copy, Debug, PartialEq, Eq, Structural)]
pub enum WrapStyle {
    NoWrap,
    Word,
    Character,
}

/// Which horizontal point of the text box the layout position designates.
#[derive(Clone, Copy, Debug, PartialEq, Eq, Structural)]
pub enum HorizontalAnchor {
    Left,
    Center,
    Right,
}

/// Which vertical point of the text box the layout position designates.
#[derive(Clone, Copy, Debug, PartialEq, Eq, Structural)]
pub enum VerticalAnchor {
    Top,
    Center,
    Bottom,
}

} // verus!
