use vstd::prelude::*;

pub mod draw;
pub mod error;
pub mod image;
pub mod pixels;
pub mod render;
pub mod resize;
pub mod sequence;
pub mod text;
pub mod types;

verus! {

} // verus!
