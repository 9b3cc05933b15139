//! The failures that the store reports.

use vstd::prelude::*;

verus! {

/// Why an operation of the store failed.
#[derive(Clone, Copy, Debug, PartialEq, Eq, Structural)]
pub enum StoreError {
    /// The data ends in the middle of a record: a header of fewer than five
    /// bytes, or a payload shorter than its header declares.
    Io,
    /// A record with the given key is already indexed.
    AlreadyExists,
    /// A payload does not decode into a record: it is too short, or a text
    /// field is not valid UTF-8.
    Decode,
    /// A length does not fit the four bytes that the format gives it.
    TooLarge,
}

impl StoreError {
    /// A short description of the failure.
    pub fn message(&self) -> (s: &'static str)
        ensures
            s@ == (match *self {
                StoreError::Io => "unexpected end of data inside a record"@,
                StoreError::AlreadyExists => "Record with this key already exists."@,
                StoreError::Decode => "payload does not decode into a record"@,
                StoreError::TooLarge => "length does not fit in four bytes"@,
            }),
    {
        match self {
            StoreError::Io => "unexpected end of data inside a record",
            StoreError::AlreadyExists => "Record with this key already exists.",
            StoreError::Decode => "payload does not decode into a record",
            StoreError::TooLarge => "length does not fit in four bytes",
        }
    }
}

} // verus!
