//! Failures of the program as a whole.

use crate::db::error::DbError;
use vstd::prelude::*;
use vstd::std_specs::convert::FromSpecImpl;
use vstd::string::StringExecFns;

verus! {

/// Why the program as a whole failed.
#[derive(Clone, Copy, PartialEq, Eq, Debug, Structural)]
pub enum PhotoOxideError {
    /// The cache store failed.
    DbError(DbError),
}

impl From<DbError> for PhotoOxideError {
    fn from(error: DbError) -> (converted: Self) {
        PhotoOxideError::DbError(error)
    }
}

impl FromSpecImpl<DbError> for PhotoOxideError {
    open spec fn obeys_from_spec() -> bool {
        true
    }

    open spec fn from_spec(error: DbError) -> Self {
        PhotoOxideError::DbError(error)
    }
}

impl PhotoOxideError {
    /// The text that describes an error.
    pub open spec fn spec_to_string(self) -> Seq<char> {
        match self {
            PhotoOxideError::DbError(error) => "PhotoOxideError: DbError("@ + error.spec_name()
                + ")"@,
        }
    }

    /// A description of the error, for logs.
    pub fn to_string(&self) -> (text: String)
        ensures
            text@ == self.spec_to_string(),
    {
        match self {
            PhotoOxideError::DbError(error) => {
                let mut text = "PhotoOxideError: DbError(".to_owned();
                text.append(error.name());
                text.append(")");
                text
            },
        }
    }

    /// The failure of the cache store behind the error.
    pub fn source(&self) -> (cause: Option<DbError>)
        ensures
            cause == (match *self {
                PhotoOxideError::DbError(error) => Some(error),
            }),
    {
        match self {
            PhotoOxideError::DbError(error) => Some(*error),
        }
    }
}

} // verus!
