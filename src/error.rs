//! The error that insertion reports.

use vstd::prelude::*;
use vstd::string::StringExecFns;

verus! {

/// Errors that can occur when manipulating a `SeqMap`.
#[derive(Debug, Clone, Copy, PartialEq, Eq, Structural)]
pub enum SeqMapError {
    /// Occurs when attempting to insert a key that already exists in the map.
    KeyAlreadyExists,
}

impl SeqMapError {
    /// A one-line description of the error.
    pub fn to_string(&self) -> (r: String)
        ensures
            r@ == "The key already exists in the SeqMap."@,
    {
        match self {
            SeqMapError::KeyAlreadyExists => String::from_str("The key already exists in the SeqMap."),
        }
    }
}

} // verus!
