use vstd::prelude::*;

verus! {

/// The error taxonomy carried across the messaging boundary: local read
/// failures, local write failures, a digest mismatch after an upload, and
/// everything else.
#[derive(Debug)]
pub enum Error {
    ReadError(String),
    WriteError(String),
    IntegrityError,
    InternalError(String),
}

impl Error {
    /// Which variant this is, for contracts that pin the variant but not
    /// the human-readable message inside it.
    pub open spec fn is_read_error(&self) -> bool {
        matches!(self, Error::ReadError(_))
    }

    pub open spec fn is_write_error(&self) -> bool {
        matches!(self, Error::WriteError(_))
    }

    pub open spec fn is_integrity_error(&self) -> bool {
        matches!(self, Error::IntegrityError)
    }

    pub open spec fn is_internal_error(&self) -> bool {
        matches!(self, Error::InternalError(_))
    }

    /// A short description of the variant, for callers that print errors.
    pub fn describe(&self) -> (r: String)
        ensures
            r@ == match self {
                Error::ReadError(_) => "read error"@,
                Error::WriteError(_) => "write error"@,
                Error::IntegrityError => "integrity error"@,
                Error::InternalError(_) => "internal error"@,
            },
    {
        match self {
            Error::ReadError(_) => "read error".to_owned(),
            Error::WriteError(_) => "write error".to_owned(),
            Error::IntegrityError => "integrity error".to_owned(),
            Error::InternalError(_) => "internal error".to_owned(),
        }
    }
}

} // verus!
