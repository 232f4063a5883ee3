//! What the filesystem may ask of the request it serves.

use vstd::prelude::*;

verus! {

/// A request of the transport, with the identity of its caller.
pub trait UniqRequest {
    /// The number of the request.
    fn unique(&self) -> u64;

    /// The user that made the request.
    fn uid(&self) -> u32;

    /// The group of that user.
    fn gid(&self) -> u32;

    /// The process that made the request.
    fn pid(&self) -> u32;
}

} // verus!
