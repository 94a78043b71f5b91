//! Modes of the line mesh generator.

use vstd::prelude::*;

verus! {

/// How the UV Y coordinate of a line mesh is computed.
#[derive(Clone, Copy, PartialEq, Eq, Structural, Debug)]
pub enum StagLineMeshUVMode {
    /// UV Y coordinate is the current point index divided by (the total number of points minus one).
    /// This mode is fastest because a length does not need to be computed beforehand.
    /// Range of [0, 1].
    Factor,
    /// UV Y coordinate is the current traveled distance along the line, divided by the total length of the line.
    /// Range of [0, 1].
    FactorProportional,
    /// UV Y coordinate is the current traveled distance along the line.
    /// Range of [0, infinity)
    Length,
}

impl Default for StagLineMeshUVMode {
    fn default() -> (r: Self)
        ensures
            r == StagLineMeshUVMode::Factor,
    {
        StagLineMeshUVMode::Factor
    }
}

/// Which points of a line are included in its bounding box.
#[derive(Clone, Copy, PartialEq, Eq, Structural, Debug)]
pub enum StagLineMeshBoundingMode {
    /// All points in the line are included in its bounding box.
    All,
    /// Only the two end points of the line are included in its bounding box.
    /// This is much faster to compute, but the bounding box may not encapsulate all points.
    EndPoints,
}

impl Default for StagLineMeshBoundingMode {
    fn default() -> (r: Self)
        ensures
            r == StagLineMeshBoundingMode::All,
    {
        StagLineMeshBoundingMode::All
    }
}

} // verus!
