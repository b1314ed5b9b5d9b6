//! The ways in which an operation on a feed can fail.

use vstd::prelude::*;

verus! {

/// Why an operation on a feed failed.
#[derive(Debug, PartialEq, Eq)]
pub enum StoreError {
    /// No file exists at the feed's path.
    NotFound,
    /// The file exists but does not hold a feed.
    MalformedFeed,
    /// Storage failed while reading or writing; the cause is attached.
    IoFailure(String),
    /// The request lacks a title or an address.
    InvalidInput,
}

impl StoreError {
    /// A short name of the failure, for messages.
    pub fn kind_name(&self) -> (name: String)
        ensures
            name@ == match *self {
                StoreError::NotFound => "not found"@,
                StoreError::MalformedFeed => "malformed feed"@,
                StoreError::IoFailure(_) => "i/o failure"@,
                StoreError::InvalidInput => "invalid input"@,
            },
    {
        match self {
            StoreError::NotFound => String::from_str("not found"),
            StoreError::MalformedFeed => String::from_str("malformed feed"),
            StoreError::IoFailure(_) => String::from_str("i/o failure"),
            StoreError::InvalidInput => String::from_str("invalid input"),
        }
    }
}

} // verus!
