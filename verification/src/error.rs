use vstd::prelude::*;

verus! {

/// The ways an operation of the engine can fail.
#[derive(Clone, Copy, Debug, PartialEq, Eq, Structural)]
pub enum Error {
    /// A lookup by identifier, path or key matched no row.
    NotFound,
    /// A lookup that must be unique matched more than one row.
    Inconsistent,
    /// A required field is empty, or a text or path is malformed.
    InvalidArgument,
    /// The permission gate answered `Denied` for a required capability.
    PermissionDenied,
    /// The backing store refused or could not carry out the statement.
    Upstream,
}

impl Error {
    /// A short human-readable description of the failure.
    pub fn message(&self) -> (r: &'static str)
        ensures
            r@ == self.spec_message(),
    {
        match self {
            Error::NotFound => "Not found",
            Error::Inconsistent => "Received more than one expected item",
            Error::InvalidArgument => "Invalid argument",
            Error::PermissionDenied => "Access denied",
            Error::Upstream => "Storage failure",
        }
    }

    /// The HTTP status under which the failure is shown to a client.
    pub open spec fn spec_status(&self) -> u16 {
        match self {
            Error::NotFound => 404,
            Error::Inconsistent => 500,
            Error::InvalidArgument => 400,
            Error::PermissionDenied => 403,
            Error::Upstream => 500,
        }
    }

    pub fn status(&self) -> (r: u16)
        ensures
            r == self.spec_status(),
    {
        match self {
            Error::NotFound => 404,
            Error::Inconsistent => 500,
            Error::InvalidArgument => 400,
            Error::PermissionDenied => 403,
            Error::Upstream => 500,
        }
    }

    pub open spec fn spec_message(&self) -> Seq<char> {
        match self {
            Error::NotFound => "Not found"@,
            Error::Inconsistent => "Received more than one expected item"@,
            Error::InvalidArgument => "Invalid argument"@,
            Error::PermissionDenied => "Access denied"@,
            Error::Upstream => "Storage failure"@,
        }
    }
}

} // verus!
