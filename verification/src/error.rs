use std::io::Error as IoError;
use vstd::prelude::*;

verus! {

/// What the library keeps of a failure to parse the settings: whether it was
/// only a request to display help or the version, and the text to show.
#[derive(Debug)]
pub struct ClapFailure {
    pub display_request: bool,
    pub message: String,
}

/// Why a run failed.
#[derive(Debug)]
#[allow(inconsistent_fields)]
pub enum Error {
    /// The command line or the environment did not give valid settings.
    ClapFailed(ClapFailure),
    /// Another process holds the lock on the file at this path.
    LockFailed(String),
    /// Opening, reading, writing or syncing the file at `path` failed.
    IOFailed { error: Option<IoError>, path: String },
    /// Formatting a stream failed; `path` is `None` for standard input and output.
    FormatFailed { error: crate::format::error::Error, path: Option<String> },
}

/// The exit status of a run that failed with `error`.
pub open spec fn exit_code_spec(error: &Error) -> u8 {
    match error {
        Error::ClapFailed(failure) => if failure.display_request {
            0
        } else {
            1
        },
        Error::FormatFailed { error: crate::format::error::Error::ReadFailed(_), .. } => 2,
        Error::FormatFailed { error: crate::format::error::Error::WriteFailed(_), .. } => 3,
        Error::IOFailed { .. } => 4,
        Error::FormatFailed { .. } => 5,
        Error::LockFailed(_) => 6,
    }
}

/// The exit status of a run that failed with `error`: success for a mere
/// request of help or of the version, else a number for each kind of failure.
pub fn exit_code(error: &Error) -> (r: u8)
    ensures
        r == exit_code_spec(error),
{
    match error {
        Error::ClapFailed(failure) => if failure.display_request {
            0
        } else {
            1
        },
        Error::FormatFailed { error: crate::format::error::Error::ReadFailed(_), .. } => 2,
        Error::FormatFailed { error: crate::format::error::Error::WriteFailed(_), .. } => 3,
        Error::IOFailed { .. } => 4,
        Error::FormatFailed { .. } => 5,
        Error::LockFailed(_) => 6,
    }
}

} // verus!
