//! What a failed operation reports.

use vstd::prelude::*;

verus! {

/// An error: the operation that failed, where known, and a code.
#[derive(Clone, Copy, Debug, PartialEq, Eq)]
pub struct Error {
    /// The operation that failed.
    pub func: Option<&'static str>,
    /// The code it failed with.
    pub code: libc::c_int,
}

impl Error {
    /// The error of an operation that gives no code of its own.
    pub open spec fn of(func: &'static str) -> Error {
        Error { func: Some(func), code: (-1) as libc::c_int }
    }

    /// An error of the operation `func`.
    pub fn new(func: Option<&'static str>, code: libc::c_int) -> (r: Error)
        ensures
            r == (Error { func, code }),
    {
        Error { func, code }
    }
}

/// An operation that gives no code of its own is reported with the code -1.
pub proof fn law_error_without_code(func: &'static str)
    ensures
        Error::of(func).func == Some(func),
        Error::of(func).code == -1,
{
}

/// The outcome of an operation that can fail.
pub type Result<T> = core::result::Result<T, Error>;

} // verus!
