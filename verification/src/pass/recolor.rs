//! Configuration of the recolor pass, which maps intensities onto an
//! interpolated palette.

use vstd::prelude::*;

use crate::pass::luminance::LuminanceMethod;

verus! {

/// How a pixel is collapsed to the intensity that drives recoloring.
#[derive(Clone, Copy, PartialEq, Eq, Structural, Debug)]
pub enum RecolorMode {
    Luminance(LuminanceMethod),
}

} // verus!
