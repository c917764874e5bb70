//! The failures that the import operations report.
use vstd::prelude::*;

verus! {

/// Why an import operation failed.
#[derive(Debug, Clone, Copy, PartialEq, Eq, Structural)]
pub enum ImportError {
    /// An amount or a date could not be read; the row is dropped or reported.
    FormatError,
    /// The file or document could not be opened or decoded.
    SourceUnreadable,
    /// The text recovered from a document is too short to hold a statement.
    LowSignalDocument,
    /// A referenced record does not exist.
    NotFound,
    /// An input breaks a rule of the operation.
    ValidationError,
}

} // verus!
