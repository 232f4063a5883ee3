//! The cache store: stable inode numbers for remote items, and which media
//! item belongs to which album.

pub mod error;
pub mod inode_db;
pub mod model;
pub mod photo_db;
pub mod table_name;

pub use self::error::{DbError, SqlFault};
pub use self::inode_db::NextInodeDb;
pub use self::model::{CacheView, Upsert, INODE_SEED};
pub use self::photo_db::{CacheStore, Filter, PhotoDb, PhotoDbRo};
pub use self::table_name::TableName;
