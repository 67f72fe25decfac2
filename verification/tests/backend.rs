//! Log destinations.

use promisedb::backend::{
    persist, policy_after, Durability, MemoryWal, PolicyCall, WalBackend,
};
use promisedb::error::StorageError;

#[test]
fn memory_wal_retains_bytes_and_counts_policy_calls() {
    let mut wal = MemoryWal::new();

    persist(&mut wal, b"first".to_vec(), Durability::Buffered).unwrap();
    persist(&mut wal, b"second".to_vec(), Durability::Flush).unwrap();
    persist(&mut wal, b"third".to_vec(), Durability::Sync).unwrap();

    assert_eq!(wal.bytes(), b"firstsecondthird");
    assert_eq!(wal.append_count(), 3);
    assert_eq!(wal.flush_count(), 1);
    assert_eq!(wal.sync_count(), 1);
}

#[test]
fn the_policy_follows_the_append() {
    let failure = StorageError::TruncatedPayload;
    assert_eq!(
        policy_after(Ok(()), Durability::Buffered),
        Ok(PolicyCall::Nothing)
    );
    assert_eq!(
        policy_after(Ok(()), Durability::Flush),
        Ok(PolicyCall::Flush)
    );
    assert_eq!(policy_after(Ok(()), Durability::Sync), Ok(PolicyCall::Sync));
    assert_eq!(
        policy_after(Err(failure.clone()), Durability::Sync),
        Err(failure)
    );
}

#[test]
fn a_log_in_memory_may_start_with_bytes() {
    let mut wal = MemoryWal::from_bytes(vec![1, 2]);
    assert_eq!(wal.append_count(), 0);
    wal.append(&[3]).unwrap();
    wal.flush().unwrap();
    wal.sync().unwrap();
    assert_eq!(wal.bytes(), &[1, 2, 3]);
    assert_eq!(MemoryWal::default(), MemoryWal::new());
}

#[test]
fn a_log_in_memory_holds_every_append() {
    let mut wal = MemoryWal::new();
    wal.append(&[1, 2]).unwrap();
    wal.sync().unwrap();
    wal.append(&[]).unwrap();
    wal.flush().unwrap();
    wal.sync().unwrap();
    wal.append(&[3]).unwrap();
    assert_eq!(wal.bytes(), &[1, 2, 3]);
    assert_eq!(wal.append_count(), 3);
    assert_eq!(wal.flush_count(), 1);
    assert_eq!(wal.sync_count(), 2);
}
