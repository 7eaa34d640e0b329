//! Configuration of the edge-detecting convolution pass. The kernel
//! arithmetic lives with the image subsystem.

use vstd::prelude::*;

verus! {

/// A pass that detects edges by horizontal and vertical convolution of
/// its luminance input.
pub struct Sobel {
}

} // verus!
