//! The failures that reading or writing a cabinet can report.

use vstd::prelude::*;

verus! {

/// Why an operation on a cabinet failed.
#[derive(Debug)]
pub enum CabError {
    /// On-disk content violates the cabinet format.
    InvalidData(String),
    /// The caller's request breaks a limit or a rule of the format.
    InvalidInput(String),
    /// No file with the requested name is in the cabinet.
    NotFound(String),
    /// The cabinet asks for a feature this library does not implement.
    Unsupported(String),
}

impl CabError {
    /// The human-readable description carried by the error.
    pub fn message(&self) -> (r: String)
        ensures
            r@ == self.spec_message(),
    {
        match self {
            CabError::InvalidData(m) => m.clone(),
            CabError::InvalidInput(m) => m.clone(),
            CabError::NotFound(m) => m.clone(),
            CabError::Unsupported(m) => m.clone(),
        }
    }

    pub open spec fn spec_message(&self) -> Seq<char> {
        match self {
            CabError::InvalidData(m) => m@,
            CabError::InvalidInput(m) => m@,
            CabError::NotFound(m) => m@,
            CabError::Unsupported(m) => m@,
        }
    }

    pub open spec fn is_invalid_data(&self) -> bool {
        self is InvalidData
    }

    pub open spec fn is_invalid_input(&self) -> bool {
        self is InvalidInput
    }

    pub open spec fn is_not_found(&self) -> bool {
        self is NotFound
    }

    pub open spec fn is_unsupported(&self) -> bool {
        self is Unsupported
    }
}

} // verus!
