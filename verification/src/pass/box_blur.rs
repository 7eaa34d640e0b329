//! An earlier, name-addressed box-blur configuration, kept for
//! compatibility: the pass carries its own logical name, target and
//! dependency names, with the kernel size fixed by a constant parameter.

use vstd::prelude::*;

verus! {

/// A pass that performs a box blur on the image named `target`.
pub struct BoxBlur<const KERNEL_SIZE: u32> {
    /// The name of this pass.
    pub name: String,
    /// The image to write the resulting blur to; without a separate
    /// source, the blur is computed in place from this same image.
    pub target: String,
    /// The image to blur, if different from `target`.
    pub source: Option<String>,
    /// The passes to run before this pass.
    pub dependencies: Vec<String>,
}

impl<const KERNEL_SIZE: u32> BoxBlur<KERNEL_SIZE> {
    pub fn new(name: String, target: String, dependencies: Vec<String>) -> (r: Self)
        ensures
            r.name == name,
            r.target == target,
            r.dependencies == dependencies,
            r.source is None,
    {
        Self { name, target, dependencies, source: None }
    }

    /// Reads the blur's input from a named image instead of in place.
    pub fn with_source(self, source: String) -> (r: Self)
        ensures
            r.name == self.name,
            r.target == self.target,
            r.dependencies == self.dependencies,
            r.source == Some(source),
    {
        BoxBlur { source: Some(source), ..self }
    }
}

} // verus!
