use aio::backend::MemBackend;
use aio::batch::{batch_paths, flatten_batches};
use aio::bytes::join_path;
use aio::digest::{digest_to_path, hex_encode, ChunkType};
use aio::sgdata::SGData;
use aio::shared::AsyncIOThreadShared;
use aio::worker::{AsyncIOThread, Message, Reply, WriteAttempt};

fn paths(n: usize, prefix: &str) -> Vec<Vec<u8>> {
    let mut v = Vec::new();
    let mut i: usize = 0;
    while i < n {
        v.push(format!("{}{}", prefix, i).into_bytes());
        i += 1;
    }
    v
}

#[test]
fn batching_flushes_above_one_hundred() {
    let batches = batch_paths(&paths(101, "f"));
    assert_eq!(batches.len(), 1);
    assert_eq!(batches[0].len(), 101);

    let batches = batch_paths(&paths(102, "f"));
    assert_eq!(batches.len(), 2);
    assert!(batches[0].len() > 100);
    assert_eq!(batches[1].len(), 1);

    let batches = batch_paths(&paths(100, "f"));
    assert_eq!(batches.len(), 1);
    assert_eq!(batches[0].len(), 100);

    let batches = batch_paths(&paths(0, "f"));
    assert!(batches.is_empty());
}

#[test]
fn batching_loses_and_duplicates_nothing() {
    let input = paths(250, "entry");
    let batches = batch_paths(&input);
    assert_eq!(batches.len(), 3);
    let flattened = flatten_batches(&batches);
    assert_eq!(flattened, input);
}

#[test]
fn listing_250_files_streams_three_batches() {
    let shared = AsyncIOThreadShared::new();
    let mut thread = AsyncIOThread::new(b"root".to_vec(), shared, MemBackend::new());
    for p in paths(250, "sub/f") {
        assert!(thread.write(&p, &SGData::from_single(b"x".to_vec()), false).is_ok());
    }
    let batches = thread.list_recursively(&b"sub".to_vec());
    assert_eq!(batches.len(), 3);
    assert_eq!(batches[0].len(), 101);
    assert_eq!(batches[1].len(), 101);
    assert_eq!(batches[2].len(), 48);
    assert_eq!(flatten_batches(&batches).len(), 250);
}

#[test]
fn idempotent_write_on_path_in_flight_succeeds_without_backend_write() {
    let mut shared = AsyncIOThreadShared::new();
    let full = join_path(&b"root".to_vec(), &b"x".to_vec());
    assert!(shared.try_acquire(&full));
    let mut thread = AsyncIOThread::new(b"root".to_vec(), shared, MemBackend::new());
    let data = SGData::from_single(b"v".to_vec());
    let mut successes: usize = 0;
    for _ in 0..100 {
        match thread.try_write(&b"x".to_vec(), &data, true) {
            WriteAttempt::Done(res) => {
                assert!(res.is_ok());
                successes += 1;
            }
            WriteAttempt::Busy => panic!("idempotent write reported busy"),
        }
    }
    assert_eq!(successes, 100);
    // No attempt reached the backend: nothing was counted.
    assert_eq!(thread.shared_state().get_stats().new_chunks, 0);
    assert!(thread.read(&b"y".to_vec()).is_err());
}

#[test]
fn non_idempotent_write_on_path_in_flight_is_busy() {
    let mut shared = AsyncIOThreadShared::new();
    let full = join_path(&b"root".to_vec(), &b"x".to_vec());
    assert!(shared.try_acquire(&full));
    let mut thread = AsyncIOThread::new(b"root".to_vec(), shared, MemBackend::new());
    let data = SGData::from_single(b"v".to_vec());
    assert!(matches!(thread.try_write(&b"x".to_vec(), &data, false), WriteAttempt::Busy));
    // A different path is not excluded.
    assert!(matches!(
        thread.try_write(&b"other".to_vec(), &data, false),
        WriteAttempt::Done(Ok(()))
    ));
}

#[test]
fn acquire_is_exclusive_until_release() {
    let mut shared = AsyncIOThreadShared::new();
    let p = b"root/x".to_vec();
    assert!(shared.try_acquire(&p));
    assert!(!shared.try_acquire(&p));
    shared.release(&p);
    assert!(shared.try_acquire(&p));
    shared.release(&p);
    assert!(shared.in_progress_is_empty());
}

#[test]
fn run_gives_each_message_one_reply_and_counts_writes() {
    let shared = AsyncIOThreadShared::new();
    let mut thread = AsyncIOThread::new(b"root".to_vec(), shared, MemBackend::new());
    let mut msgs: Vec<Message> = Vec::new();
    for p in paths(50, "w") {
        msgs.push(Message::Write {
            path: p,
            data: SGData::from_single(b"abcd".to_vec()),
            idempotent: false,
            checked: false,
        });
    }
    msgs.push(Message::Read { path: b"w0".to_vec() });
    msgs.push(Message::ReadMetadata { path: b"w1".to_vec() });
    msgs.push(Message::List { path: b"missing".to_vec() });
    msgs.push(Message::ListRecursively { path: b"w2".to_vec() });
    msgs.push(Message::Remove { path: b"w3".to_vec() });
    msgs.push(Message::RemoveDirAll { path: b"w4".to_vec() });
    msgs.push(Message::Rename { src: b"w5".to_vec(), dst: b"w5moved".to_vec() });
    msgs.push(Message::Write {
        path: b"checked".to_vec(),
        data: SGData::from_single(b"zz".to_vec()),
        idempotent: true,
        checked: true,
    });
    let total = msgs.len();
    let replies = thread.run(&msgs);
    assert_eq!(replies.len(), total);
    assert!(matches!(replies[0], Reply::Unit(Ok(()))));
    assert!(matches!(replies[50], Reply::Data(Ok(_))));
    assert!(matches!(replies[total - 1], Reply::Done));
    // 50 plain writes and one checked write reached the backend.
    let stats = thread.shared_state().get_stats();
    assert_eq!(stats.new_chunks, 51);
    assert_eq!(stats.new_bytes, 50 * 4 + 2);
    // Every exclusion taken while draining the queue was released.
    assert!(thread.shared_state().in_progress_is_empty());
}

#[test]
fn backend_write_read_remove_cycle() {
    let mut backend = MemBackend::new();
    let path = b"root/x".to_vec();
    assert!(!backend.contains(&path));
    assert!(backend.write(&path, &SGData::from_single(b"hi".to_vec()), false).is_ok());
    assert!(backend.contains(&path));
    assert_eq!(backend.read(&path).unwrap().to_linear(), b"hi".to_vec());
    // An idempotent write to an existing path is skipped.
    assert!(backend.write(&path, &SGData::from_single(b"other".to_vec()), true).is_ok());
    assert_eq!(backend.read(&path).unwrap().to_linear(), b"hi".to_vec());
    // A plain write overwrites.
    assert!(backend.write(&path, &SGData::from_single(b"new".to_vec()), false).is_ok());
    assert_eq!(backend.read(&path).unwrap().to_linear(), b"new".to_vec());
    assert!(backend.remove(&path).is_ok());
    assert!(!backend.contains(&path));
}

#[test]
fn hex_encoding_is_two_lowercase_digits_per_byte() {
    assert_eq!(hex_encode(&vec![0x00u8, 0xff, 0x10]), b"00ff10".to_vec());
    assert_eq!(hex_encode(&vec![]), b"".to_vec());
    assert_eq!(hex_encode(&vec![0xabu8]), b"ab".to_vec());
}

#[test]
fn digest_paths_fan_out_by_leading_bytes() {
    let digest = vec![0xabu8, 0xcd, 0xef];
    assert_eq!(
        digest_to_path(ChunkType::Data, &digest),
        b"chunks/ab/cd/abcdef".to_vec()
    );
    assert_eq!(
        digest_to_path(ChunkType::Index, &digest),
        b"index/ab/cd/abcdef".to_vec()
    );
}

#[test]
fn sgdata_concatenates_segments() {
    let mut sg = SGData::new();
    assert_eq!(sg.len(), 0);
    sg.push_segment(b"ab".to_vec());
    sg.push_segment(b"".to_vec());
    sg.push_segment(b"cde".to_vec());
    assert_eq!(sg.len(), 5);
    assert_eq!(sg.to_linear(), b"abcde".to_vec());
    assert_eq!(sg.duplicate().to_linear(), b"abcde".to_vec());
}

#[test]
fn join_path_inserts_one_separator() {
    assert_eq!(join_path(&b"root".to_vec(), &b"a/b".to_vec()), b"root/a/b".to_vec());
    assert_eq!(join_path(&b"".to_vec(), &b"a".to_vec()), b"/a".to_vec());
}
