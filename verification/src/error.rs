//! The library's error type.

use vstd::prelude::*;

verus! {

/// Errors reported by the library.
#[derive(Debug)]
pub enum CtxError {
    /// A failure described by a message.
    Other(String),
}

impl CtxError {
    /// The message carried by the error.
    pub open spec fn text(self) -> Seq<char> {
        match self {
            CtxError::Other(m) => m@,
        }
    }

    /// The human-readable message (what `Display` prints).
    pub fn message(&self) -> (r: String)
        ensures
            match self {
                CtxError::Other(m) => r@ == m@,
            },
    {
        match self {
            CtxError::Other(m) => m.clone(),
        }
    }
}

} // verus!
