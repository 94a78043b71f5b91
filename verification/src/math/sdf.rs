//! Kinds of signed distance field primitives and of the operations that combine them.

use vstd::prelude::*;

verus! {

/// Describes an SDF primitive shape.
#[derive(Copy, Clone, PartialEq, Eq, Structural, Debug)]
pub enum ShapeType {
    /// A sphere primitive.
    Sphere,
    /// A rounded box primitive.
    RoundedBox,
    /// A rounded cylinder primitive.
    RoundedCylinder,
    /// A torus primitive.
    Torus,
}

/// Describes an SDF primitive operation.
#[derive(Copy, Clone, PartialEq, Eq, Structural, Debug)]
pub enum ShapeOperation {
    /// A joining between two shapes.
    Union,
    /// An intersection between two shapes.
    Intersection,
    /// A subtraction between two shapes.
    Subtraction,
}

} // verus!
