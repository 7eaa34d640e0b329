//! Configuration of the tangent-flow gradient pass.

use vstd::prelude::*;

verus! {

/// A pass computing image gradients as the first step of the tangent
/// flow map.
pub struct Sobel;

} // verus!
