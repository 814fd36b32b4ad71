use std::io::Error as IoError;
use vstd::prelude::*;

verus! {

/// The failures that end a run of the formatter.
#[derive(Debug)]
pub enum FatalError {
    /// The locale descriptor is not valid Unicode.
    LocaleNotUnicode,
    /// The locale descriptor names no locale.
    LocaleNotValid { descriptor: String },
    /// Reading the input failed.
    IOReadError { cause: IoError },
    /// Writing the output failed.
    IOWriteError { cause: IoError },
}

} // verus!
