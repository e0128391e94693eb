use vstd::prelude::*;

verus! {

/// Tag for the datatype of a typed object in an edge table.  The numeric
/// codes match the `dtype` column of the input tables.
#[derive(Clone, Copy, Debug, PartialEq, Eq, Structural)]
pub enum DataType {
    Quantity,
    Coordinate,
    String,
    DateTime,
    Entity,
}

impl DataType {
    /// The numeric code under which this tag appears in a `dtype` column.
    pub open spec fn code(self) -> u8 {
        match self {
            DataType::Quantity => 1,
            DataType::Coordinate => 2,
            DataType::String => 3,
            DataType::DateTime => 4,
            DataType::Entity => 5,
        }
    }

    /// Returns the numeric code of this tag.
    pub fn as_code(&self) -> (r: u8)
        ensures
            r == self.code(),
    {
        match self {
            DataType::Quantity => 1,
            DataType::Coordinate => 2,
            DataType::String => 3,
            DataType::DateTime => 4,
            DataType::Entity => 5,
        }
    }
}

} // verus!
