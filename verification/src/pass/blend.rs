//! Configuration of the blend pass, which combines two images.

use vstd::prelude::*;

use crate::pass::luminance::LuminanceMethod;

verus! {

/// How the channels of two images are combined.
#[derive(Clone, Copy, PartialEq, Eq, Structural, Debug)]
pub enum BlendMode {
    /// Add the channel values of the first image with the corresponding
    /// channel values of the second image.
    Add,
    /// Subtract the channel values of the second image from the
    /// corresponding channel values of the first image.
    Subtract,
    /// Multiply the channel values of the first image with the
    /// corresponding channel values of the second image.
    Multiply,
    Screen,
    Overlay(LuminanceMethod),
    SoftLight(LuminanceMethod),
    ColorDodge,
    ColorBurn,
    VividLight(LuminanceMethod),
}

} // verus!
