//! Handing out inode numbers.

use crate::db::error::DbError;
use crate::domain::Inode;
use vstd::prelude::*;

verus! {

/// A source of inode numbers that never gives one out twice.
pub trait NextInodeDb: Sized {
    /// Moves the counter on by one and returns its new value.
    fn get_and_update_inode(&mut self) -> Result<Inode, DbError>;
}

} // verus!
