//! Configuration of the structure-tensor subpass of the tangent flow
//! map.

use vstd::prelude::*;

verus! {

/// A subpass turning gradients into a structure tensor.
pub struct TangentFlowStructureTensor;

} // verus!
