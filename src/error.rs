use vstd::prelude::*;

verus! {

/// What can go wrong while storing or reading back the document.
#[derive(Debug, Clone, Copy, PartialEq, Eq, Structural)]
pub enum AppError {
    /// The database could not be opened, created or read.
    StorageUnavailable,
    /// The replace of the stored document could not be committed.
    TransactionFailure,
    /// The segments could not be turned into their stored form.
    EncodingFailure,
    /// The stored segments do not form a valid segment list.
    DecodingFailure,
}

} // verus!
