//! The one failure that the filesystem reports to its transport.

use vstd::prelude::*;

verus! {

/// Why a filesystem request failed. The transport does not tell causes
/// apart, so there is one.
#[derive(Clone, Copy, PartialEq, Eq, PartialOrd, Ord, Debug, Hash, Structural)]
pub enum FuseError {
    FunctionNotImplemented,
}

/// The result of a filesystem request.
pub type FuseResult<T> = Result<T, FuseError>;

/// Reads `libc::ENOENT`, the error number for "no such file or
/// directory". On every platform that has a FUSE transport (Linux, macOS,
/// the BSDs) libc defines it as 2.
#[verifier::external_body]
fn enoent() -> (code: i32)
    ensures
        code == 2,
{
    libc::ENOENT
}

impl FuseError {
    /// The text that describes an error.
    pub open spec fn spec_to_string(self) -> Seq<char> {
        "FuseError: FunctionNotImplemented"@
    }

    /// The error number that the transport hands to the kernel.
    pub fn libc_error_code(self) -> (code: i32)
        ensures
            code == 2,
    {
        match self {
            FuseError::FunctionNotImplemented => enoent(),
        }
    }

    /// A description of the error, for logs.
    pub fn to_string(&self) -> (text: String)
        ensures
            text@ == self.spec_to_string(),
    {
        match self {
            FuseError::FunctionNotImplemented => "FuseError: FunctionNotImplemented".to_owned(),
        }
    }
}

} // verus!
