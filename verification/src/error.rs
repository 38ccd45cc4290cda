//! Error kinds surfaced by the library.

use vstd::prelude::*;

verus! {

/// What went wrong, by kind. Per-record problems are counted and skipped
/// by callers rather than surfaced, so most functions here return only the
/// kinds that abort an operation.
#[derive(Debug)]
pub enum MemexError {
    /// A filesystem error wrapped by the caller.
    Io(String),
    /// An invariant of the on-disk stores is broken; the operation aborts.
    Corruption(String),
    /// A record could not be parsed; counted, not surfaced.
    ParseError(String),
    /// The embedding backend failed to initialize; ingest goes on text-only.
    BackendUnavailable(String),
    /// A session or document id is absent.
    NotFound(String),
    /// An unknown model tag or malformed configuration; fatal at startup.
    ConfigInvalid(String),
}

impl MemexError {
    /// The text carried by the error.
    pub fn message(&self) -> (r: &str)
        ensures
            ({
                match self {
                    MemexError::Io(m) => r@ == m@,
                    MemexError::Corruption(m) => r@ == m@,
                    MemexError::ParseError(m) => r@ == m@,
                    MemexError::BackendUnavailable(m) => r@ == m@,
                    MemexError::NotFound(m) => r@ == m@,
                    MemexError::ConfigInvalid(m) => r@ == m@,
                }
            }),
    {
        match self {
            MemexError::Io(m) => m.as_str(),
            MemexError::Corruption(m) => m.as_str(),
            MemexError::ParseError(m) => m.as_str(),
            MemexError::BackendUnavailable(m) => m.as_str(),
            MemexError::NotFound(m) => m.as_str(),
            MemexError::ConfigInvalid(m) => m.as_str(),
        }
    }
}

} // verus!
