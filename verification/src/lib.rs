//! A read-only filesystem view of a remote photo library, served from a
//! local cache with stable inode numbers.

pub mod background_update;
pub mod db;
pub mod domain;
pub mod error;
pub mod photofs;
pub mod photolib;
pub mod rust_filesystem;
pub mod text;
pub mod text_set;
