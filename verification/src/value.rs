//! The dynamic value carried by a property.

use vstd::prelude::*;

verus! {

/// A value held by an entity property.
///
/// Properties are dynamically typed slots: a numeric operation expects an
/// integer, but any value may arrive on its input stream.  A non-integer
/// value reaching a numeric operation is an invalid update and is dropped
/// by the propagation step (it never reaches the transform function).
#[derive(Clone, Copy, PartialEq, Eq, Structural, Debug)]
pub enum PropertyValue {
    Int(i64),
    Bool(bool),
}

impl PropertyValue {
    /// The integer carried by the value, if it is an integer.
    pub open spec fn spec_as_int(self) -> Option<i64> {
        match self {
            PropertyValue::Int(x) => Some(x),
            PropertyValue::Bool(_) => None,
        }
    }

    /// Returns the integer carried by the value, if any.
    pub fn as_int(self) -> (r: Option<i64>)
        ensures
            r == self.spec_as_int(),
    {
        match self {
            PropertyValue::Int(x) => Some(x),
            PropertyValue::Bool(_) => None,
        }
    }
}

} // verus!
