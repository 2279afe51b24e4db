//! The errors of the codec.

use vstd::prelude::*;
use crate::shape_type::ShapeType;

verus! {

#[derive(Debug, Clone, Copy, PartialEq, Eq, Structural)]
pub enum Error {
    /// The bytes ran out before the item being read was complete.
    IoError,
    /// The header's file code is not 9994; it holds the code that was found.
    InvalidFileCode(i32),
    /// A shape-type tag outside the enumeration; it holds the tag that was found.
    InvalidShapeType(i32),
    /// A record's tag is neither the header's tag nor the null shape.
    MismatchedShapeType { requested: ShapeType, actual: ShapeType },
    /// A record's content length fits none of the sizes its counts allow.
    InvalidShapeRecordSize,
    /// A shape whose parts or rings break their invariant.
    MalformedShape,
}

} // verus!
