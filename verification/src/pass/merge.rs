//! Configuration of the merge pass, which copies an auxiliary image over
//! the main image.

use vstd::prelude::*;

verus! {

/// A pass that merges an auxiliary image into the main image.
pub struct Merge {
    /// The name of the auxiliary image that will be merged.
    pub target: String,
    /// The passes to merge after.
    pub dependencies: Vec<String>,
    /// Whether the merged image is forced completely opaque.
    pub ensure_opaque: bool,
}

impl Merge {
    /// Whether the merged image is forced completely opaque.
    pub open spec fn opaque(self) -> bool {
        self.ensure_opaque
    }

    pub fn new(target: String, dependencies: Vec<String>) -> (r: Self)
        ensures
            r.target == target,
            r.dependencies == dependencies,
            !r.opaque(),
    {
        Self { target, dependencies, ensure_opaque: false }
    }

    /// Ensures the merged image is completely opaque.
    pub fn ensure_opaque(self) -> (r: Self)
        ensures
            r.target == self.target,
            r.dependencies == self.dependencies,
            r.opaque(),
    {
        Merge { ensure_opaque: true, ..self }
    }
}

} // verus!
