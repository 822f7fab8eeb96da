//! The error conditions that the fallible functions of this crate report.

use vstd::prelude::*;

verus! {

/// Why a call was refused.
#[derive(Clone, Copy, Debug, PartialEq, Eq, Structural)]
pub enum ErrorKind {
    /// An argument lies outside the domain on which the function is defined.
    InvalidArgument,
}

impl ErrorKind {
    /// A short human-readable description of the condition.
    pub fn message(&self) -> (text: String)
        ensures
            text@ == "invalid argument"@,
    {
        match self {
            ErrorKind::InvalidArgument => String::from_str("invalid argument"),
        }
    }
}

} // verus!
