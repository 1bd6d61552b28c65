//! Errors of tensor construction and of the layer operations.

use vstd::prelude::*;

verus! {

/// A tensor was handed to an operation that expects another shape.
#[derive(Debug, Clone, Copy, PartialEq, Eq)]
pub struct ShapeMismatchError;

/// A buffer's length is not the size of the shape it was paired with.
#[derive(Debug, Clone, Copy, PartialEq, Eq)]
pub struct LengthMismatchError;

} // verus!
