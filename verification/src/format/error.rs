use std::io::Error as IoError;
use vstd::prelude::*;

verus! {

#[verifier::external_type_specification]
#[verifier::external_body]
pub struct ExIoError(IoError);

/// Why formatting a stream failed.
#[derive(Debug)]
#[allow(inconsistent_fields)]
pub enum Error {
    /// Reading a line failed.
    ReadFailed(IoError),
    /// Writing a line failed.
    WriteFailed(IoError),
    /// A line asks to be deleted, and deletions are not allowed.
    DeletionForbidden { line: String },
    /// A line asks to be moved to `path`, and external writes are not allowed.
    ExternalWriteForbidden { line: String, path: String },
}

} // verus!
