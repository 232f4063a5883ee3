//! Attributes of nodes, and the table of open handles.

use crate::domain::Inode;
use crate::rust_filesystem::{FileAttr, FileType, Timespec};
use std::collections::HashMap;
use vstd::prelude::*;
use vstd::set_lib::lemma_len_subset;

verus! {

broadcast use vstd::std_specs::hash::group_hash_axioms;

/// The time that every node reports as its creation, access and change
/// time: 2013-10-08 08:56 UTC.
pub const CREATE_TIME_SECONDS: i64 = 1_381_237_736;

/// The group that owns every node.
pub const NODE_GID: u32 = 20;

/// The permissions of every node: `rw-r--r--`.
pub const NODE_PERM: u16 = 0o644;

/// The attributes of a node with the given number, size and kind that
/// belongs to the user `uid`.
pub open spec fn file_attr(inode: Inode, size: u64, file_type: FileType, uid: u32) -> FileAttr {
    let created = Timespec { sec: CREATE_TIME_SECONDS, nsec: 0 };
    FileAttr {
        ino: inode,
        size,
        blocks: 1,
        atime: created,
        mtime: created,
        ctime: created,
        crtime: created,
        kind: file_type,
        perm: NODE_PERM,
        nlink: 1,
        uid,
        gid: NODE_GID,
        rdev: 0,
        flags: 0,
    }
}

/// Calls `users::get_current_uid`: the user that runs this process.
/// Whatever the system answers, nothing is known of it beforehand.
#[verifier::external_body]
fn current_uid() -> u32 {
    users::get_current_uid()
}

/// The attributes of a node that belongs to the user `uid`.
pub fn make_atr_for(uid: u32, inode: Inode, size: usize, file_type: FileType) -> (attr: FileAttr)
    ensures
        attr == file_attr(inode, size as u64, file_type, uid),
{
    let created = Timespec { sec: CREATE_TIME_SECONDS, nsec: 0 };
    FileAttr {
        ino: inode,
        size: size as u64,
        blocks: 1,
        atime: created,
        mtime: created,
        ctime: created,
        crtime: created,
        kind: file_type,
        perm: NODE_PERM,
        nlink: 1,
        uid,
        gid: NODE_GID,
        rdev: 0,
        flags: 0,
    }
}

/// The attributes of a node that belongs to the user that runs this
/// process.
pub fn make_atr(inode: Inode, size: usize, file_type: FileType) -> (attr: FileAttr)
    ensures
        attr == file_attr(inode, size as u64, file_type, attr.uid),
{
    make_atr_for(current_uid(), inode, size, file_type)
}

/// Whether `fh` is the lowest handle at or above `seed` that `taken` does
/// not hold.
pub open spec fn is_lowest_free(taken: Set<u64>, seed: u64, fh: u64) -> bool {
    &&& seed <= fh
    &&& !taken.contains(fh)
    &&& forall|k: u64| seed <= k < fh ==> taken.contains(k)
}

/// Whether `taken` holds every handle at or above `seed`.
pub open spec fn is_exhausted(taken: Set<u64>, seed: u64) -> bool {
    forall|k: u64| seed <= k ==> taken.contains(k)
}

/// The handles from `seed` up to, not including, `end`.
pub open spec fn handles_between(seed: u64, end: u64) -> Set<u64> {
    Set::new(|k: u64| seed <= k < end)
}

/// There are `end - seed` handles from `seed` up to `end`.
pub proof fn lemma_handles_between(seed: u64, end: u64)
    requires
        seed <= end,
    ensures
        handles_between(seed, end).finite(),
        handles_between(seed, end).len() == end - seed,
    decreases end - seed,
{
    if seed == end {
        assert(handles_between(seed, end) =~= Set::empty());
    } else {
        let shorter = (end - 1) as u64;
        lemma_handles_between(seed, shorter);
        assert(handles_between(seed, end) =~= handles_between(seed, shorter).insert(shorter));
    }
}

/// The table of open handles: which handle stands for what.
#[derive(Debug)]
pub struct OpenFileHandles<X> {
    fhs: HashMap<u64, X>,
}

impl<X> View for OpenFileHandles<X> {
    type V = Map<u64, X>;

    closed spec fn view(&self) -> Map<u64, X> {
        self.fhs@
    }
}

impl<X> OpenFileHandles<X> {
    /// A table without handles.
    pub fn new() -> (table: OpenFileHandles<X>)
        ensures
            table@ == Map::<u64, X>::empty(),
    {
        OpenFileHandles { fhs: HashMap::new() }
    }

    /// Opens the lowest free handle at or above `seed` for `x`. Where
    /// every handle from `seed` on is taken, nothing is opened.
    pub fn open_at(&mut self, seed: u64, x: X) -> (opened: Option<u64>)
        ensures
            match opened {
                Some(fh) => is_lowest_free(old(self)@.dom(), seed, fh) && final(self)@ == old(
                    self,
                )@.insert(fh, x),
                None => is_exhausted(old(self)@.dom(), seed) && final(self)@ == old(self)@,
            },
    {
        let mut fh: u64 = seed;
        while self.fhs.contains_key(&fh)
            invariant
                seed <= fh,
                self@ == old(self)@,
                forall|k: u64| seed <= k < fh ==> self@.dom().contains(k),
            decreases u64::MAX - fh,
        {
            if fh == u64::MAX {
                return None;
            }
            fh += 1;
        }
        self.fhs.insert(fh, x);
        Some(fh)
    }

    /// Opens the lowest free handle for `x`.
    pub fn open(&mut self, x: X) -> (fh: u64)
        ensures
            is_lowest_free(old(self)@.dom(), 0, fh),
            final(self)@ == old(self)@.insert(fh, x),
    {
        let count = self.fhs.len();
        let mut fh: u64 = 0;
        while self.fhs.contains_key(&fh)
            invariant
                self@ == old(self)@,
                count == self@.dom().len(),
                self@.dom().finite(),
                forall|k: u64| 0 <= k < fh ==> self@.dom().contains(k),
            decreases u64::MAX - fh,
        {
            proof {
                let upto = (fh + 1) as u64;
                if fh < u64::MAX {
                    lemma_handles_between(0, upto);
                    lemma_len_subset(handles_between(0, upto), self@.dom());
                } else {
                    lemma_handles_between(0, fh);
                    assert(handles_between(0, fh).insert(fh).subset_of(self@.dom()));
                    lemma_len_subset(handles_between(0, fh).insert(fh), self@.dom());
                }
            }
            fh += 1;
        }
        self.fhs.insert(fh, x);
        fh
    }

    /// What the handle `fh` stands for, if it is open.
    pub fn get(&self, fh: u64) -> (found: Option<&X>)
        ensures
            match found {
                Some(x) => self@.contains_key(fh) && *x == self@[fh],
                None => !self@.contains_key(fh),
            },
    {
        self.fhs.get(&fh)
    }

    /// Closes the handle `fh` and returns what it stood for, if it was
    /// open.
    pub fn remove(&mut self, fh: u64) -> (removed: Option<X>)
        ensures
            final(self)@ == old(self)@.remove(fh),
            match removed {
                Some(x) => old(self)@.contains_key(fh) && x == old(self)@[fh],
                None => !old(self)@.contains_key(fh),
            },
    {
        self.fhs.remove(&fh)
    }
}

} // verus!
