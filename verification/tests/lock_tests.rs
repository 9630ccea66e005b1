//! Tests of the file lock table: reader sharing, writer exclusion, and
//! the table returning to empty when every session has released.

use tftpserver::locks::{FileLockMode, FileLockTable};

#[test]
fn two_readers_share_one_writer_excludes() {
    let mut t = FileLockTable::new();
    let path = b"pub/data.bin";

    // Two concurrent read sessions on the same file both succeed.
    assert!(t.check_lock_file(path, FileLockMode::Read(1)));
    assert!(t.check_lock_file(path, FileLockMode::Read(1)));
    assert_eq!(t.len(), 1);

    // A write request for the same file arrives second: refused.
    assert!(!t.check_lock_file(path, FileLockMode::Write));

    t.unlock_file(path);
    assert_eq!(t.len(), 1);
    t.unlock_file(path);
    assert!(t.is_empty());
}

#[test]
fn writer_blocks_readers_and_writers() {
    let mut t = FileLockTable::new();
    let path = b"up.bin";
    assert!(t.check_lock_file(path, FileLockMode::Write));
    // Whoever arrives second is refused, reader or writer.
    assert!(!t.check_lock_file(path, FileLockMode::Read(1)));
    assert!(!t.check_lock_file(path, FileLockMode::Write));
    t.unlock_file(path);
    assert!(t.is_empty());
}

#[test]
fn distinct_paths_do_not_conflict() {
    let mut t = FileLockTable::new();
    assert!(t.check_lock_file(b"a", FileLockMode::Write));
    assert!(t.check_lock_file(b"b", FileLockMode::Read(1)));
    assert_eq!(t.len(), 2);
    t.unlock_file(b"a");
    assert_eq!(t.len(), 1);
    // Releasing an unlocked path changes nothing.
    t.unlock_file(b"a");
    assert_eq!(t.len(), 1);
    t.unlock_file(b"b");
    assert!(t.is_empty());
}

#[test]
fn table_empty_after_every_session_exits() {
    // Sessions lock, run and release on every exit path; afterwards the
    // table is empty again.
    let mut t = FileLockTable::new();
    assert!(t.check_lock_file(b"x", FileLockMode::Read(1)));
    assert!(t.check_lock_file(b"y", FileLockMode::Write));
    assert!(t.check_lock_file(b"x", FileLockMode::Read(1)));
    assert!(!t.is_empty());
    t.unlock_file(b"y");
    t.unlock_file(b"x");
    t.unlock_file(b"x");
    assert!(t.is_empty());
    assert_eq!(t.len(), 0);
}

#[test]
fn failed_acquire_leaves_table_unchanged() {
    let mut t = FileLockTable::new();
    assert!(t.check_lock_file(b"f", FileLockMode::Write));
    assert_eq!(t.len(), 1);
    assert!(!t.check_lock_file(b"f", FileLockMode::Read(1)));
    assert_eq!(t.len(), 1);
    t.unlock_file(b"f");
    assert!(t.is_empty());
}
