//! The failures of encoding and decoding.

use vstd::prelude::*;

verus! {

/// What can go wrong in either direction.
#[derive(Debug, Clone, PartialEq, Eq)]
pub enum Error {
    /// A failure described in words by the caller's data model.
    Message(String),
    /// The byte stream ended before the value did.
    IoError,
    /// A name or a string payload is not UTF-8.
    Uft8Error,
    /// An integer does not fit the width it is converted to.
    IntError,
    /// A list element's tag differs from the tag of the list's first element.
    IncompatibleListType,
    /// A list element's tag is no value tag.
    UnknownListType,
    NotWritingToList,
    NotWritingToCompound,
    ExpectedByte,
    ExpectedShort,
    ExpectedInt,
    ExpectedLong,
    ExpectedFloat,
    ExpectedDouble,
    ExpectedByteArray,
    ExpectedString,
    ExpectedCompound,
    ExpectedStruct(String),
    ExpectedIdentifier,
    ExpectedEnd,
}

impl Error {
    /// The error for a failure that the caller describes in words.
    pub fn custom(msg: String) -> (e: Error)
        ensures
            e == Error::Message(msg),
    {
        Error::Message(msg)
    }
}

} // verus!
