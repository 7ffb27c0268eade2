//! The run's error taxonomy: which stage failed, and, for HTTP failures, the
//! status and body that came back.

use vstd::prelude::*;

verus! {

/// What went wrong, by stage. The `...Http` variants carry the HTTP status
/// code and the response body of a failed call.
#[derive(Debug, PartialEq)]
pub enum ErrorKind {
    ReadEnvVar,
    UnixTimestamp,
    YnabGetTransactions,
    YnabGetTransactionsHttp(u16, String),
    YnabPostTransactions,
    YnabPostTransactionsHttp(u16, String),
    YnabUpdateTransactions,
    YnabUpdateTransactionsHttp(u16, String),
    N26Authenticate,
    N26GetTransactions,
    N26GetTransactionsHttp(u16, String),
}

/// An error of the run, wrapping the kind of failure.
#[derive(Debug)]
pub struct Error {
    pub kind: ErrorKind,
}

impl Error {
    /// The kind of failure this error reports.
    pub fn kind(&self) -> (r: &ErrorKind)
        ensures
            *r == self.kind,
    {
        &self.kind
    }
}

impl From<ErrorKind> for Error {
    fn from(kind: ErrorKind) -> (r: Error) {
        Error { kind }
    }
}

impl vstd::std_specs::convert::FromSpecImpl<ErrorKind> for Error {
    open spec fn obeys_from_spec() -> bool {
        true
    }

    open spec fn from_spec(kind: ErrorKind) -> Error {
        Error { kind }
    }
}

} // verus!
