//! Why an operation of the debugger failed.
use vstd::prelude::*;

use crate::text::{concat, decimal, own, unsigned_text};
use crate::types::{CodeOffset, offset_text};

verus! {

/// A child that a formatter looks for.
#[derive(Debug, Clone, Copy, PartialEq, Eq, Structural)]
pub enum Child {
    Begin,
    End,
    Tree,
    BeginNode,
    Size,
    ValueType,
}

/// A value that a formatter needs.
#[derive(Debug, Clone, Copy, PartialEq, Eq, Structural)]
pub enum Needed {
    Begin,
    End,
    ElementType,
    ElementSize,
    Size,
}

/// The failures that the debugger reports.
#[derive(Debug, Clone, Copy, PartialEq, Eq, Structural)]
pub enum DebugError {
    /// The debug information could not be read.
    Malformed,
    /// A reference names a unit that is not there.
    UnitOutOfBounds,
    /// A reference names an entry that is not there.
    EntryNotFound,
    /// No frame of the debug stack has the number asked for.
    FrameNotFound(u32),
    /// No function holds the address.
    FunctionNotFound(CodeOffset),
    /// What is said to be a function is none.
    NotSubprogram,
    /// A location expression needs a value that the frame does not hold.
    LocationNotSaved,
    /// The function has no frame base, and an expression needs one.
    FrameBaseMissing,
    /// A location expression asks for something that cannot be answered.
    Unsupported,
    /// A location expression yields no pieces.
    NoPieces,
    /// What a location expression yields is no value.
    NoValue,
    /// A value does not fit the type asked for.
    OutOfRange,
    /// The value is no scalar.
    NotScalar,
    /// The value is no structure.
    NotStructure,
    /// The value is neither a pointer nor a reference.
    NotReferential,
    /// The members are to be counted of a value that is no structure.
    NoMembersToCount,
    /// The members are to be listed of a value that is no structure.
    NoMembersToList,
    /// A child that the formatter relies on is not there.
    ChildMissing(Child),
    /// A value that the formatter relies on cannot be read.
    Unavailable(Needed),
    /// The formatter does not present this value.
    NotImplemented,
    /// The range asked for does not lie within the children.
    RangeOutOfBounds,
}

/// What is told of a failure.
pub open spec fn message_of(e: DebugError) -> Seq<char> {
    match e {
        DebugError::FrameNotFound(frame) => "Could not find frame offset for frame "@ + decimal(
            frame as nat,
        ),
        DebugError::FunctionNotFound(pc) => "Could not find function for pc "@ + offset_text(pc.0),
        DebugError::Malformed => "The debug information could not be read"@,
        DebugError::UnitOutOfBounds => "Unit index out of bounds"@,
        DebugError::EntryNotFound => "Entry not found"@,
        DebugError::NotSubprogram => "get_variables requires subprogram die"@,
        DebugError::LocationNotSaved => "Location could not be found in function"@,
        DebugError::FrameBaseMissing => "Required DW_AT_frame_base missing on function"@,
        DebugError::Unsupported => "Could not execute evaluation step"@,
        DebugError::NoPieces => "Evaluation resulted in no pieces"@,
        DebugError::NoValue => "Could not determine value from piece location"@,
        DebugError::OutOfRange => "DWARF value out of range"@,
        DebugError::NotScalar => "Cannot format non-scalar value"@,
        DebugError::NotStructure => "Cannot format non-structure value"@,
        DebugError::NotReferential => "Cannot format non-referential value"@,
        DebugError::NoMembersToCount => "Calling num_children on non-structure value"@,
        DebugError::NoMembersToList => "Calling named_children on non-structure value"@,
        DebugError::ChildMissing(Child::Begin) => "No child named '__begin_'"@,
        DebugError::ChildMissing(Child::End) => "No child named '__end_'"@,
        DebugError::ChildMissing(Child::Tree) => "No child named '__tree_'"@,
        DebugError::ChildMissing(Child::BeginNode) => "No child named '__begin_node_'"@,
        DebugError::ChildMissing(Child::Size) => "No child named '__size_'"@,
        DebugError::ChildMissing(Child::ValueType) => "No type named 'value_type'"@,
        DebugError::Unavailable(Needed::Begin) => "std::vector __begin_ is unavailable"@,
        DebugError::Unavailable(Needed::End) => "std::vector __end_ is unavailable"@,
        DebugError::Unavailable(Needed::ElementType) => "std::vector element type is unavailable"@,
        DebugError::Unavailable(Needed::ElementSize) => "std::vector element size is unavailable"@,
        DebugError::Unavailable(Needed::Size) => "Could not read __size_"@,
        DebugError::NotImplemented => "not implemented"@,
        DebugError::RangeOutOfBounds => "Range out of bounds"@,
    }
}

impl DebugError {
    /// What is told of this failure.
    pub fn message(&self) -> (r: String)
        ensures
            r@ == message_of(*self),
    {
        let text = match self {
            DebugError::FrameNotFound(frame) => {
                let number = unsigned_text(*frame as u64);
                return concat("Could not find frame offset for frame ", number.as_str());
            },
            DebugError::FunctionNotFound(pc) => {
                let place = pc.to_text();
                return concat("Could not find function for pc ", place.as_str());
            },
            DebugError::Malformed => "The debug information could not be read",
            DebugError::UnitOutOfBounds => "Unit index out of bounds",
            DebugError::EntryNotFound => "Entry not found",
            DebugError::NotSubprogram => "get_variables requires subprogram die",
            DebugError::LocationNotSaved => "Location could not be found in function",
            DebugError::FrameBaseMissing => "Required DW_AT_frame_base missing on function",
            DebugError::Unsupported => "Could not execute evaluation step",
            DebugError::NoPieces => "Evaluation resulted in no pieces",
            DebugError::NoValue => "Could not determine value from piece location",
            DebugError::OutOfRange => "DWARF value out of range",
            DebugError::NotScalar => "Cannot format non-scalar value",
            DebugError::NotStructure => "Cannot format non-structure value",
            DebugError::NotReferential => "Cannot format non-referential value",
            DebugError::NoMembersToCount => "Calling num_children on non-structure value",
            DebugError::NoMembersToList => "Calling named_children on non-structure value",
            DebugError::ChildMissing(Child::Begin) => "No child named '__begin_'",
            DebugError::ChildMissing(Child::End) => "No child named '__end_'",
            DebugError::ChildMissing(Child::Tree) => "No child named '__tree_'",
            DebugError::ChildMissing(Child::BeginNode) => "No child named '__begin_node_'",
            DebugError::ChildMissing(Child::Size) => "No child named '__size_'",
            DebugError::ChildMissing(Child::ValueType) => "No type named 'value_type'",
            DebugError::Unavailable(Needed::Begin) => "std::vector __begin_ is unavailable",
            DebugError::Unavailable(Needed::End) => "std::vector __end_ is unavailable",
            DebugError::Unavailable(Needed::ElementType) => "std::vector element type is unavailable",
            DebugError::Unavailable(Needed::ElementSize) => "std::vector element size is unavailable",
            DebugError::Unavailable(Needed::Size) => "Could not read __size_",
            DebugError::NotImplemented => "not implemented",
            DebugError::RangeOutOfBounds => "Range out of bounds",
        };
        own(text)
    }
}

} // verus!
