//! Configuration of the relaxed-Voronoi pass.

use vstd::prelude::*;

verus! {

/// How centroids are weighted while relaxing the Voronoi regions.
#[derive(Clone, Copy, PartialEq, Eq, Structural, Debug)]
pub enum VoronoiRelaxWeightMode {
    /// Weights the centroids of voronoi regions based on luminance of
    /// the image. This is only really useful with stippling.
    Luminance,
    /// Weights the centroids of voronoi regions based on frequency of
    /// the image. For stippling, this accentuates edge lines; for the
    /// mosaic, it creates smaller tiles near edges, leading to clearer
    /// edge lines.
    Frequency,
}

} // verus!
