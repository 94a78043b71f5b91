//! Kinds of signed distance field primitives of the Godot extension.

use vstd::prelude::*;

verus! {

/// Describes an SDF primitive shape.
#[derive(Copy, Clone, PartialEq, Eq, Structural, Debug)]
pub enum ShapeType {
    /// A sphere primitive.
    Sphere,
    /// A rounded box primitive.
    RoundedBox,
}

} // verus!
