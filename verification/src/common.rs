//! Shared error and type definitions for the name/value list.

use vstd::prelude::*;

verus! {

/// Error raised by fallible list operations outside the codec.
#[derive(Copy, Clone, Debug)]
pub enum NvErr {
    /// The list could not be constructed (unrecognized flag value).
    ConstructionErr,
    /// The sticky error code could not be recorded because the list is the
    /// invalid sentinel; carries the code that was to be set.
    ErrorNotSet(i32),
}

/// Result type for fallible list operations.
pub type NvResult<T> = Result<T, NvErr>;

/// Largest name accepted for an entry, measured in UTF-8 bytes.
pub const NV_NAME_MAX: u32 = 2048;

/// Error code read from the invalid sentinel list: the out-of-memory
/// equivalent, since the sentinel stands for a list that could not be built.
pub const ERROR_NO_MEMORY: i32 = 12;

/// Sticky error code recorded when an insertion collides with an existing
/// name while duplicates are disallowed.
pub const ERROR_NAME_EXISTS: i32 = 17;

/// Sticky error code recorded when an insertion's name exceeds
/// [`NV_NAME_MAX`] bytes.
pub const ERROR_NAME_TOO_LONG: i32 = 63;

/// Error raised when parsing a serialized list fails.
#[derive(Copy, Clone, Debug, PartialEq, Eq, Structural)]
pub enum NvDecodeErr {
    /// The input is truncated, carries an unrecognized tag or flag byte, an
    /// over-long or ill-encoded name, or trailing bytes after the list.
    Corrupt,
    /// A length or count field claims more data than the input holds.
    MalformedLength,
}

/// The kinds of value an entry may hold, with one tag per kind.
#[derive(Copy, Clone, Debug, PartialEq, Eq, Structural)]
pub enum NvType {
    /// Empty type; its wire code also ends a list's entries.
    Empty,
    /// A presence marker with no payload.
    Null,
    /// A boolean value.
    Bool,
    /// A 64-bit unsigned number.
    Number,
    /// A text string.
    String,
    /// A nested list.
    NvList,
    /// An opaque descriptor handle.
    Descriptor,
    /// A binary buffer.
    Binary,
    /// An array of boolean values.
    BoolArray,
    /// An array of 64-bit unsigned numbers.
    NumberArray,
    /// An array of text strings.
    StringArray,
    /// An array of nested lists.
    NvListArray,
    /// An array of opaque descriptor handles.
    DescriptorArray,
}

impl NvType {
    /// The stable wire code of each tag.
    pub open spec fn code_spec(self) -> u8 {
        match self {
            NvType::Empty => 0,
            NvType::Null => 1,
            NvType::Bool => 2,
            NvType::Number => 3,
            NvType::String => 4,
            NvType::NvList => 5,
            NvType::Descriptor => 6,
            NvType::Binary => 7,
            NvType::BoolArray => 8,
            NvType::NumberArray => 9,
            NvType::StringArray => 10,
            NvType::NvListArray => 11,
            NvType::DescriptorArray => 12,
        }
    }

    /// Returns the stable wire code of this tag.
    pub fn code(self) -> (c: u8)
        ensures
            c == self.code_spec(),
    {
        match self {
            NvType::Empty => 0,
            NvType::Null => 1,
            NvType::Bool => 2,
            NvType::Number => 3,
            NvType::String => 4,
            NvType::NvList => 5,
            NvType::Descriptor => 6,
            NvType::Binary => 7,
            NvType::BoolArray => 8,
            NvType::NumberArray => 9,
            NvType::StringArray => 10,
            NvType::NvListArray => 11,
            NvType::DescriptorArray => 12,
        }
    }
}


impl NvType {
    /// The tag denoted by a wire code, if it is a defined one; inverse of
    /// [`NvType::code_spec`].
    pub open spec fn from_code_spec(c: u8) -> Option<NvType> {
        if c == 0 {
            Some(NvType::Empty)
        } else if c == 1 {
            Some(NvType::Null)
        } else if c == 2 {
            Some(NvType::Bool)
        } else if c == 3 {
            Some(NvType::Number)
        } else if c == 4 {
            Some(NvType::String)
        } else if c == 5 {
            Some(NvType::NvList)
        } else if c == 6 {
            Some(NvType::Descriptor)
        } else if c == 7 {
            Some(NvType::Binary)
        } else if c == 8 {
            Some(NvType::BoolArray)
        } else if c == 9 {
            Some(NvType::NumberArray)
        } else if c == 10 {
            Some(NvType::StringArray)
        } else if c == 11 {
            Some(NvType::NvListArray)
        } else if c == 12 {
            Some(NvType::DescriptorArray)
        } else {
            None
        }
    }

    /// Returns the tag denoted by a wire code, if it is a defined one.
    pub fn from_code(c: u8) -> (r: Option<NvType>)
        ensures
            r == NvType::from_code_spec(c),
    {
        match c {
            0 => Some(NvType::Empty),
            1 => Some(NvType::Null),
            2 => Some(NvType::Bool),
            3 => Some(NvType::Number),
            4 => Some(NvType::String),
            5 => Some(NvType::NvList),
            6 => Some(NvType::Descriptor),
            7 => Some(NvType::Binary),
            8 => Some(NvType::BoolArray),
            9 => Some(NvType::NumberArray),
            10 => Some(NvType::StringArray),
            11 => Some(NvType::NvListArray),
            12 => Some(NvType::DescriptorArray),
            _ => None,
        }
    }
}

} // verus!
