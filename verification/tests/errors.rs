use photooxide::db::{DbError, SqlFault};
use photooxide::error::PhotoOxideError;
use photooxide::photofs::PhotoFsError;
use photooxide::rust_filesystem::FuseError;

#[test]
fn photo_oxide_error_display() {
    assert_eq!(
        PhotoOxideError::DbError(DbError::LockingError).to_string(),
        "PhotoOxideError: DbError(LockingError)"
    );
}

#[test]
fn photo_fs_error_display() {
    assert_eq!(
        PhotoFsError::PhotoDbError(DbError::LockingError).to_string(),
        "PhotoFsError: PhotoDbError(LockingError)"
    );
}

#[test]
fn photo_fs_error_source() {
    assert_eq!(
        PhotoFsError::PhotoDbError(DbError::LockingError)
            .source()
            .unwrap()
            .to_string(),
        "DbError: LockingError"
    );
}

#[test]
fn photo_fs_error_from_dberror() {
    assert_eq!(
        PhotoFsError::from(DbError::LockingError).to_string(),
        "PhotoFsError: PhotoDbError(LockingError)"
    );
}

#[test]
fn fuse_error_from_photo_fs_error() {
    assert_eq!(
        FuseError::from(PhotoFsError::PhotoDbError(DbError::LockingError)).to_string(),
        "FuseError: FunctionNotImplemented"
    );
}

#[test]
fn fuse_error_from_photo_db_error() {
    assert_eq!(
        FuseError::from(DbError::LockingError).to_string(),
        "FuseError: FunctionNotImplemented"
    );
}

#[test]
fn rust_filesystem_fuse_error_libc_error_code() {
    assert_eq!(FuseError::FunctionNotImplemented.libc_error_code(), 2);
}

#[test]
fn error_fuse_error_libc_error_code() {
    assert_eq!(FuseError::FunctionNotImplemented.libc_error_code(), 2);
}

#[test]
fn fuse_error_display() {
    assert_eq!(
        FuseError::FunctionNotImplemented.to_string(),
        "FuseError: FunctionNotImplemented"
    );
}

#[test]
fn the_error_code_is_the_one_of_libc() {
    assert_eq!(
        FuseError::FunctionNotImplemented.libc_error_code(),
        libc::ENOENT
    );
}

#[test]
fn db_error_to_string() {
    assert_eq!(DbError::LockingError.to_string(), "DbError: LockingError");
    assert_eq!(
        DbError::SqlError(SqlFault::ForeignKey).to_string(),
        "DbError: SqlError(ForeignKey)"
    );
    assert_eq!(
        DbError::SqlError(SqlFault::InodeOverflow).to_string(),
        "DbError: SqlError(InodeOverflow)"
    );
    assert_eq!(
        DbError::SqlError(SqlFault::Malformed).to_string(),
        "DbError: SqlError(Malformed)"
    );
    assert_eq!(DbError::LockingError.name(), "LockingError");
    assert_eq!(
        format!("{:?}", DbError::SqlError(SqlFault::ForeignKey)),
        "SqlError(ForeignKey)"
    );
}

#[test]
fn errors_name_their_source() {
    assert_eq!(DbError::LockingError.source(), None);
    assert_eq!(
        DbError::SqlError(SqlFault::Malformed).source(),
        Some(SqlFault::Malformed)
    );
    assert_eq!(
        PhotoOxideError::from(DbError::LockingError).source(),
        Some(DbError::LockingError)
    );
    assert_eq!(
        PhotoOxideError::DbError(DbError::SqlError(SqlFault::ForeignKey)).to_string(),
        "PhotoOxideError: DbError(SqlError(ForeignKey))"
    );
    assert_eq!(
        PhotoFsError::PhotoDbError(DbError::SqlError(SqlFault::InodeOverflow)).to_string(),
        "PhotoFsError: PhotoDbError(SqlError(InodeOverflow))"
    );
}
