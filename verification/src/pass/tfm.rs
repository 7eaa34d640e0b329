//! Configurations of the tangent-flow-map passes.

pub mod sobel;
pub mod structure_tensor;
