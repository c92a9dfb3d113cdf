use aio::backend::MemBackend;
use aio::sgdata::SGData;
use aio::AsyncIO;
use aio::IoErrorKind;

fn pool() -> AsyncIO {
    AsyncIO::new(b"root".to_vec(), MemBackend::new())
}

fn payload(bytes: &[u8]) -> SGData {
    SGData::from_single(bytes.to_vec())
}

#[test]
fn write_then_read_round_trip() {
    let mut aio = pool();
    let handle = aio.write(&b"a".to_vec(), &payload(b"hello"));
    assert!(handle.wait().is_ok());
    let got = aio.read(&b"a".to_vec()).wait().unwrap();
    assert_eq!(got.to_linear(), b"hello".to_vec());
    let stats = aio.stats().get_stats();
    assert_eq!(stats.new_chunks, 1);
    assert_eq!(stats.new_bytes, 5);
}

#[test]
fn read_missing_is_not_found_and_pool_stays_usable() {
    let mut aio = pool();
    let err = aio.read(&b"missing".to_vec()).wait().unwrap_err();
    assert_eq!(err.kind, IoErrorKind::NotFound);
    assert!(aio.write(&b"a".to_vec(), &payload(b"x")).wait().is_ok());
    assert_eq!(aio.read(&b"a".to_vec()).wait().unwrap().to_linear(), b"x".to_vec());
}

#[test]
fn rename_moves_content() {
    let mut aio = pool();
    assert!(aio.write(&b"src".to_vec(), &payload(b"content")).wait().is_ok());
    assert!(aio.rename(&b"src".to_vec(), &b"dst".to_vec()).wait().is_ok());
    assert_eq!(
        aio.read(&b"dst".to_vec()).wait().unwrap().to_linear(),
        b"content".to_vec()
    );
    let err = aio.read(&b"src".to_vec()).wait().unwrap_err();
    assert_eq!(err.kind, IoErrorKind::NotFound);
}

#[test]
fn rename_missing_source_is_not_found() {
    let mut aio = pool();
    let err = aio.rename(&b"nope".to_vec(), &b"dst".to_vec()).wait().unwrap_err();
    assert_eq!(err.kind, IoErrorKind::NotFound);
}

#[test]
fn rename_overwrites_destination() {
    let mut aio = pool();
    assert!(aio.write(&b"src".to_vec(), &payload(b"new")).wait().is_ok());
    assert!(aio.write(&b"dst".to_vec(), &payload(b"old")).wait().is_ok());
    assert!(aio.rename(&b"src".to_vec(), &b"dst".to_vec()).wait().is_ok());
    assert_eq!(aio.read(&b"dst".to_vec()).wait().unwrap().to_linear(), b"new".to_vec());
}

#[test]
fn remove_deletes_file() {
    let mut aio = pool();
    assert!(aio.write(&b"a".to_vec(), &payload(b"x")).wait().is_ok());
    assert!(aio.remove(&b"a".to_vec()).wait().is_ok());
    let err = aio.read(&b"a".to_vec()).wait().unwrap_err();
    assert_eq!(err.kind, IoErrorKind::NotFound);
}

#[test]
fn remove_missing_is_not_found() {
    let mut aio = pool();
    let err = aio.remove(&b"a".to_vec()).wait().unwrap_err();
    assert_eq!(err.kind, IoErrorKind::NotFound);
}

#[test]
fn remove_dir_all_clears_subtree_only() {
    let mut aio = pool();
    assert!(aio.write(&b"sub/a".to_vec(), &payload(b"1")).wait().is_ok());
    assert!(aio.write(&b"sub/deep/b".to_vec(), &payload(b"2")).wait().is_ok());
    assert!(aio.write(&b"other/c".to_vec(), &payload(b"3")).wait().is_ok());
    assert!(aio.remove_dir_all(&b"sub".to_vec()).wait().is_ok());
    assert_eq!(
        aio.read(&b"sub/a".to_vec()).wait().unwrap_err().kind,
        IoErrorKind::NotFound
    );
    assert_eq!(
        aio.read(&b"sub/deep/b".to_vec()).wait().unwrap_err().kind,
        IoErrorKind::NotFound
    );
    assert_eq!(aio.read(&b"other/c".to_vec()).wait().unwrap().to_linear(), b"3".to_vec());
}

#[test]
fn remove_dir_all_missing_is_not_found() {
    let mut aio = pool();
    let err = aio.remove_dir_all(&b"nothing".to_vec()).wait().unwrap_err();
    assert_eq!(err.kind, IoErrorKind::NotFound);
}

#[test]
fn idempotent_write_twice_succeeds_and_keeps_content() {
    let mut aio = pool();
    assert!(aio.write_idempotent(&b"x".to_vec(), &payload(b"v")).wait().is_ok());
    assert!(aio.write_idempotent(&b"x".to_vec(), &payload(b"v")).wait().is_ok());
    assert_eq!(aio.read(&b"x".to_vec()).wait().unwrap().to_linear(), b"v".to_vec());
    let stats = aio.stats().get_stats();
    assert_eq!(stats.new_chunks, 2);
    assert_eq!(stats.new_bytes, 2);
}

#[test]
fn checked_writes_count_in_stats() {
    let mut aio = pool();
    aio.write_checked(&b"a".to_vec(), &payload(b"abc"));
    aio.write_checked_idempotent(&b"a".to_vec(), &payload(b"abc"));
    let stats = aio.stats().get_stats();
    assert_eq!(stats.new_chunks, 2);
    assert_eq!(stats.new_bytes, 6);
    assert_eq!(aio.read(&b"a".to_vec()).wait().unwrap().to_linear(), b"abc".to_vec());
}

#[test]
fn stats_snapshot_does_not_track_later_writes() {
    let mut aio = pool();
    let before = aio.stats();
    assert!(aio.write(&b"a".to_vec(), &payload(b"abcd")).wait().is_ok());
    let after = aio.stats();
    assert_eq!(before.get_stats().new_chunks, 0);
    assert_eq!(after.get_stats().new_chunks, 1);
    assert_eq!(after.get_stats().new_bytes, 4);
}

#[test]
fn read_metadata_reports_file_and_directory() {
    let mut aio = pool();
    assert!(aio.write(&b"dir/file".to_vec(), &payload(b"12345")).wait().is_ok());
    let m = aio.read_metadata(&b"dir/file".to_vec()).wait().unwrap();
    assert!(m.is_file);
    assert_eq!(m.len, 5);
    let d = aio.read_metadata(&b"dir".to_vec()).wait().unwrap();
    assert!(!d.is_file);
    assert_eq!(d.len, 0);
    let err = aio.read_metadata(&b"gone".to_vec()).wait().unwrap_err();
    assert_eq!(err.kind, IoErrorKind::NotFound);
}

#[test]
fn list_yields_direct_children_only() {
    let mut aio = pool();
    assert!(aio.write(&b"sub/a".to_vec(), &payload(b"1")).wait().is_ok());
    assert!(aio.write(&b"sub/deep/b".to_vec(), &payload(b"2")).wait().is_ok());
    assert!(aio.write(&b"top".to_vec(), &payload(b"3")).wait().is_ok());
    let listed = aio.list(&b"sub".to_vec()).wait().unwrap();
    assert_eq!(listed, vec![b"root/sub/a".to_vec()]);
}

#[test]
fn list_missing_directory_is_not_found() {
    let aio = pool();
    let err = aio.list(&b"nowhere".to_vec()).wait().unwrap_err();
    assert_eq!(err.kind, IoErrorKind::NotFound);
}

#[test]
fn list_recursively_missing_path_yields_empty_stream() {
    let aio = pool();
    let items = aio.list_recursively(&b"nowhere".to_vec());
    assert!(items.is_empty());
}

#[test]
fn list_recursively_returns_each_file_once() {
    let mut aio = pool();
    assert!(aio.write(&b"sub/a".to_vec(), &payload(b"1")).wait().is_ok());
    assert!(aio.write(&b"sub/deep/b".to_vec(), &payload(b"2")).wait().is_ok());
    assert!(aio.write(&b"other".to_vec(), &payload(b"3")).wait().is_ok());
    let mut items = aio.list_recursively(&b"sub".to_vec());
    items.sort();
    assert_eq!(items, vec![b"root/sub/a".to_vec(), b"root/sub/deep/b".to_vec()]);
}

#[test]
fn worker_count_is_at_least_four() {
    assert!(aio::facade::worker_count() >= 4);
}

#[test]
fn repository_lock_modes_exclude_each_other() {
    let mut aio = pool();
    assert!(aio.lock_shared().is_ok());
    assert!(aio.lock_shared().is_ok());
    let err = aio.lock_exclusive().unwrap_err();
    assert_eq!(err.kind, IoErrorKind::Interrupted);
    aio.unlock_shared();
    aio.unlock_shared();
    assert!(aio.lock_exclusive().is_ok());
    assert_eq!(aio.lock_shared().unwrap_err().kind, IoErrorKind::Interrupted);
    assert_eq!(aio.lock_exclusive().unwrap_err().kind, IoErrorKind::Interrupted);
    aio.unlock_exclusive();
    assert!(aio.lock_shared().is_ok());
}
