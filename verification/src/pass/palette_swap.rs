//! Configuration of the palette-swap pass, which maps intensities onto
//! a fixed palette.

use vstd::prelude::*;

use crate::pass::luminance::LuminanceMethod;

verus! {

/// How a pixel is collapsed to the intensity that indexes the palette.
#[derive(Clone, Copy, PartialEq, Eq, Structural, Debug)]
pub enum PalleteSwapMode {
    Luminance(LuminanceMethod),
}

} // verus!
