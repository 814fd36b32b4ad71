use crate::error::Error;
use std::io::Error as IoError;
use vstd::prelude::*;

verus! {

/// Turns the failure of a file operation into an `Error::IOFailed` that
/// names the file.
pub trait IntoIOFailed {
    type Result;

    fn path(self, path: &str) -> Self::Result;
}

impl<T> IntoIOFailed for Option<T> {
    type Result = Result<T, Error>;

    /// `Some` becomes `Ok`; `None` becomes a failure without a cause.
    fn path(self, path: &str) -> (r: Result<T, Error>)
        ensures
            match self {
                Some(v) => r == Ok::<T, Error>(v),
                None => r matches Err(Error::IOFailed { error: None, path: p }) && p@ == path@,
            },
    {
        match self {
            Some(v) => Ok(v),
            None => Err(Error::IOFailed { error: None, path: path.to_owned() }),
        }
    }
}

impl<T> IntoIOFailed for Result<T, IoError> {
    type Result = Result<T, Error>;

    /// `Ok` stays; an I/O error becomes the failure's cause.
    fn path(self, path: &str) -> (r: Result<T, Error>)
        ensures
            match self {
                Ok(v) => r == Ok::<T, Error>(v),
                Err(e) => r matches Err(Error::IOFailed { error: Some(c), path: p }) && c == e && p@
                    == path@,
            },
    {
        match self {
            Ok(v) => Ok(v),
            Err(e) => Err(Error::IOFailed { error: Some(e), path: path.to_owned() }),
        }
    }
}

} // verus!
