//! What can go wrong when a table is written out in one piece.

use vstd::prelude::*;
use vstd::std_specs::convert::FromSpecImpl;

verus! {

/// Why a table or a document could not be written.
#[derive(Debug)]
pub enum WriteError {
    /// Input or output failed.
    IoError(std::io::Error),
    /// Something else went wrong; the text says what.
    Other(String),
}

impl From<std::io::Error> for WriteError {
    fn from(value: std::io::Error) -> (error: Self) {
        WriteError::IoError(value)
    }
}

impl FromSpecImpl<std::io::Error> for WriteError {
    open spec fn obeys_from_spec() -> bool {
        true
    }

    open spec fn from_spec(value: std::io::Error) -> Self {
        WriteError::IoError(value)
    }
}

} // verus!
