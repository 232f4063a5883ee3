//! Failures inside the filesystem, and how they reach the transport.

use crate::db::error::DbError;
use crate::rust_filesystem::error::FuseError;
use vstd::prelude::*;
use vstd::std_specs::convert::FromSpecImpl;
use vstd::string::StringExecFns;

verus! {

/// Why a filesystem operation failed.
#[derive(Clone, Copy, PartialEq, Eq, Debug, Structural)]
pub enum PhotoFsError {
    /// The cache store failed.
    PhotoDbError(DbError),
}

impl From<DbError> for PhotoFsError {
    fn from(error: DbError) -> (converted: Self) {
        PhotoFsError::PhotoDbError(error)
    }
}

impl FromSpecImpl<DbError> for PhotoFsError {
    open spec fn obeys_from_spec() -> bool {
        true
    }

    open spec fn from_spec(error: DbError) -> Self {
        PhotoFsError::PhotoDbError(error)
    }
}

impl PhotoFsError {
    /// The text that describes an error.
    pub open spec fn spec_to_string(self) -> Seq<char> {
        match self {
            PhotoFsError::PhotoDbError(error) => "PhotoFsError: PhotoDbError("@ + error.spec_name()
                + ")"@,
        }
    }

    /// A description of the error, for logs.
    pub fn to_string(&self) -> (text: String)
        ensures
            text@ == self.spec_to_string(),
    {
        match self {
            PhotoFsError::PhotoDbError(error) => {
                let mut text = "PhotoFsError: PhotoDbError(".to_owned();
                text.append(error.name());
                text.append(")");
                text
            },
        }
    }

    /// The failure of the cache store behind the error.
    pub fn source(&self) -> (cause: Option<DbError>)
        ensures
            cause == (match *self {
                PhotoFsError::PhotoDbError(error) => Some(error),
            }),
    {
        match self {
            PhotoFsError::PhotoDbError(error) => Some(*error),
        }
    }
}

impl From<PhotoFsError> for FuseError {
    fn from(_error: PhotoFsError) -> (converted: Self) {
        FuseError::FunctionNotImplemented
    }
}

impl FromSpecImpl<PhotoFsError> for FuseError {
    open spec fn obeys_from_spec() -> bool {
        true
    }

    open spec fn from_spec(_error: PhotoFsError) -> Self {
        FuseError::FunctionNotImplemented
    }
}

impl From<DbError> for FuseError {
    fn from(_error: DbError) -> (converted: Self) {
        FuseError::FunctionNotImplemented
    }
}

impl FromSpecImpl<DbError> for FuseError {
    open spec fn obeys_from_spec() -> bool {
        true
    }

    open spec fn from_spec(_error: DbError) -> Self {
        FuseError::FunctionNotImplemented
    }
}

} // verus!
