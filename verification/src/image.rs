//! The image contract.
//!
//! The core never inspects pixels: it only needs, of whatever buffer type
//! the image subsystem supplies, the ability to conjure a fresh buffer
//! matching the input image, one per graph node. Pixel formats, codecs
//! and filters live outside.

pub mod sampler;

use vstd::prelude::*;

verus! {

/// What the graph requires of an image buffer: a constant-fill
/// constructor at this buffer's own resolution. Implementations live
/// with the image subsystem, outside the core.
pub trait Image: Sized {
    /// A fresh buffer with the same resolution as `self`, uniformly
    /// initialized.
    fn blank_like(&self) -> Self;
}

} // verus!
