//! What can go wrong in the cache store.

use vstd::prelude::*;
use vstd::string::StringExecFns;

verus! {

/// A fault of the storage layer.
#[derive(Clone, Copy, PartialEq, Eq, Debug, Hash, Structural)]
pub enum SqlFault {
    /// A membership row names an item that has no record.
    ForeignKey,
    /// The inode counter has reached the largest number it can hold.
    InodeOverflow,
    /// Persisted rows do not form a valid cache.
    Malformed,
}

/// A failed operation of the cache store.
#[derive(Clone, Copy, PartialEq, Eq, Debug, Hash, Structural)]
pub enum DbError {
    /// The storage layer reported a fault.
    SqlError(SqlFault),
    /// The store's lock could not be taken.
    LockingError,
}

impl DbError {
    /// The text that names an error: its variant, with the fault in
    /// brackets where it has one.
    pub open spec fn spec_name(self) -> Seq<char> {
        match self {
            DbError::SqlError(SqlFault::ForeignKey) => "SqlError(ForeignKey)"@,
            DbError::SqlError(SqlFault::InodeOverflow) => "SqlError(InodeOverflow)"@,
            DbError::SqlError(SqlFault::Malformed) => "SqlError(Malformed)"@,
            DbError::LockingError => "LockingError"@,
        }
    }

    /// The text that describes an error.
    pub open spec fn spec_to_string(self) -> Seq<char> {
        "DbError: "@ + self.spec_name()
    }

    /// The name of the error: its variant, with the fault in brackets
    /// where it has one.
    pub fn name(&self) -> (text: &'static str)
        ensures
            text@ == self.spec_name(),
    {
        match self {
            DbError::SqlError(SqlFault::ForeignKey) => "SqlError(ForeignKey)",
            DbError::SqlError(SqlFault::InodeOverflow) => "SqlError(InodeOverflow)",
            DbError::SqlError(SqlFault::Malformed) => "SqlError(Malformed)",
            DbError::LockingError => "LockingError",
        }
    }

    /// A description of the error, for logs.
    pub fn to_string(&self) -> (text: String)
        ensures
            text@ == self.spec_to_string(),
    {
        let mut text = "DbError: ".to_owned();
        text.append(self.name());
        text
    }

    /// The storage fault behind the error, if there is one.
    pub fn source(&self) -> (cause: Option<SqlFault>)
        ensures
            cause == (match *self {
                DbError::SqlError(fault) => Some(fault),
                DbError::LockingError => None,
            }),
    {
        match self {
            DbError::SqlError(fault) => Some(*fault),
            DbError::LockingError => None,
        }
    }
}

} // verus!
