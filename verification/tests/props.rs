//! Scenario checks for the store's headline guarantees, plus edge cases of
//! the key codec, timestamps and the error taxonomy.

use libra_kv::commands::{Commit, Pause, Prewrite};
use libra_kv::errors::Error;
use libra_kv::kv::{Context, Key, Mutation};
use libra_kv::lock_manager::DummyLockManager;
use libra_kv::scheduler::SchedOutcome;
use libra_kv::storage::TestStorageBuilder;
use libra_kv::tso::TimeStamp;
use libra_kv::types::{PessimisticLockRes, ProcessResult, TxnStatus};

fn tsv(v: u64) -> TimeStamp {
    TimeStamp(v)
}

fn finished_ok(outcome: SchedOutcome) -> ProcessResult {
    match outcome {
        SchedOutcome::Finished(Ok(pr)) => pr,
        other => panic!("unexpected outcome: {:?}", other),
    }
}

/// A prewritten key blocks a later read until the commit, and afterwards a
/// read sees the value exactly from the commit timestamp on.
#[test]
fn scenario_prewrite_commit_visibility() {
    let mut storage = TestStorageBuilder::new(DummyLockManager).build().unwrap();
    finished_ok(storage.sched_txn_command(Prewrite::with_defaults(
        vec![Mutation::Put((Key::from_raw(b"x"), b"100".to_vec()))],
        b"x".to_vec(),
        tsv(100),
    )));
    match storage.get(Context::default(), Key::from_raw(b"x"), tsv(101)) {
        Err(Error::KeyIsLocked(info)) => {
            assert_eq!(info.get_key(), &b"x".to_vec());
            assert_eq!(info.get_primary_lock(), &b"x".to_vec());
        }
        r => panic!("unexpected result: {:?}", r),
    }
    finished_ok(storage.sched_txn_command(Commit::new(
        vec![Key::from_raw(b"x")],
        tsv(100),
        tsv(101),
        Context::default(),
    )));
    // A read below the commit timestamp misses the write.
    assert_eq!(
        storage
            .get(Context::default(), Key::from_raw(b"x"), tsv(100))
            .unwrap(),
        None
    );
    // Only a commit timestamp at or below the read timestamp counts.
    assert_eq!(
        storage
            .get(Context::default(), Key::from_raw(b"x"), tsv(101))
            .unwrap(),
        Some(b"100".to_vec())
    );
    assert_eq!(
        storage
            .get(Context::default(), Key::from_raw(b"x"), tsv(102))
            .unwrap(),
        Some(b"100".to_vec())
    );
}

/// Raw batch reads leave missing keys out instead of reporting them as
/// empty entries.
#[test]
fn scenario_raw_batch_get_omits_missing() {
    let mut storage = TestStorageBuilder::new(DummyLockManager).build().unwrap();
    storage
        .raw_put(
            Context::default(),
            "".to_string(),
            b"a".to_vec(),
            b"aa".to_vec(),
        )
        .unwrap();
    storage
        .raw_put(
            Context::default(),
            "".to_string(),
            b"b".to_vec(),
            b"bb".to_vec(),
        )
        .unwrap();
    let rows: Vec<(Vec<u8>, Vec<u8>)> = storage
        .raw_batch_get(
            Context::default(),
            "".to_string(),
            vec![b"a".to_vec(), b"b".to_vec(), b"c".to_vec()],
        )
        .unwrap()
        .into_iter()
        .map(|r| r.unwrap())
        .collect();
    assert_eq!(
        rows,
        vec![
            (b"a".to_vec(), b"aa".to_vec()),
            (b"b".to_vec(), b"bb".to_vec())
        ]
    );
}

/// A pessimistic lock on an absent key reports the absence when values are
/// asked for, and leaves no residue once rolled back: the identical request
/// answers identically.
#[test]
fn scenario_pessimistic_lock_absent_key_repeats() {
    let mut storage = TestStorageBuilder::new(DummyLockManager).build().unwrap();
    let key = Key::from_raw(b"key");
    for _ in 0..2 {
        let outcome = storage.sched_txn_command(libra_kv::commands::AcquirePessimisticLock::new(
            vec![(key.clone(), false)],
            b"key".to_vec(),
            tsv(10),
            3000,
            false,
            tsv(10),
            None,
            true,
            tsv(11),
            Context::default(),
        ));
        assert_eq!(
            finished_ok(outcome),
            ProcessResult::PessimisticLockRes(Ok(PessimisticLockRes::Values(vec![None])))
        );
        finished_ok(storage.sched_txn_command(libra_kv::commands::PessimisticRollback::new(
            vec![key.clone()],
            tsv(10),
            tsv(10),
            Context::default(),
        )));
    }
}

/// Two writers on disjoint key sets do not block each other: while one
/// holds its latches, the other still runs to completion.
#[test]
fn scenario_disjoint_writers_do_not_block() {
    let mut storage = TestStorageBuilder::new(DummyLockManager).build().unwrap();
    let paused = match storage.sched_txn_command(Pause::new(
        vec![Key::from_raw(b"a")],
        1000,
        Context::default(),
    )) {
        SchedOutcome::Pending(id) => id,
        other => panic!("unexpected outcome: {:?}", other),
    };
    // The writer of `b` completes although `a`'s latches are held.
    finished_ok(storage.sched_txn_command(Prewrite::with_defaults(
        vec![Mutation::Put((Key::from_raw(b"b"), b"vb".to_vec()))],
        b"b".to_vec(),
        tsv(5),
    )));
    assert!(storage.finish_paused(paused));
    let completed = storage.take_completed();
    assert_eq!(completed.len(), 1);
    assert_eq!(completed[0].0, paused);
}

/// Committing the same keys with the same timestamps again succeeds and
/// reports the same commit timestamp.
#[test]
fn scenario_commit_twice_same_timestamp() {
    let mut storage = TestStorageBuilder::new(DummyLockManager).build().unwrap();
    finished_ok(storage.sched_txn_command(Prewrite::with_defaults(
        vec![Mutation::Put((Key::from_raw(b"k"), b"v".to_vec()))],
        b"k".to_vec(),
        tsv(10),
    )));
    for _ in 0..2 {
        assert_eq!(
            finished_ok(storage.sched_txn_command(Commit::new(
                vec![Key::from_raw(b"k")],
                tsv(10),
                tsv(20),
                Context::default(),
            ))),
            ProcessResult::TxnStatus(TxnStatus::committed(tsv(20)))
        );
    }
}

/// The memcomparable codec round-trips raw keys of every group shape.
#[test]
fn codec_round_trip() {
    let cases: Vec<Vec<u8>> = vec![
        vec![],
        b"a".to_vec(),
        b"12345678".to_vec(),
        b"123456789".to_vec(),
        vec![0u8, 0, 0],
        vec![255u8; 17],
    ];
    for raw in cases {
        let key = Key::from_raw(&raw);
        assert_eq!(key.to_raw().unwrap(), raw);
        // The encoding is nine bytes per started group of eight.
        assert_eq!(key.len(), 9 * (raw.len() / 8 + 1));
    }
    // Bytes no raw key encodes to are rejected.
    assert_eq!(Key::from_encoded(b"junk".to_vec()).to_raw(), None);
    // The encoded form is what the engine orders by, not the raw bytes.
    assert_ne!(
        Key::from_raw(b"a").as_encoded().clone(),
        b"a".to_vec()
    );
}

/// The key digest is a function of the key alone.
#[test]
fn key_hash_deterministic() {
    let a1 = Key::from_raw(b"a").gen_hash();
    let a2 = Key::from_raw(b"a").gen_hash();
    let b = Key::from_raw(b"b").gen_hash();
    assert_eq!(a1, a2);
    assert_ne!(a1, b);
}

/// Timestamps compose a physical and a logical part.
#[test]
fn timestamp_compose_parts() {
    let t = TimeStamp::compose(110, 3);
    assert_eq!(t.physical(), 110);
    assert_eq!(t.0, (110u64 << 18) + 3);
    assert!(TimeStamp::zero().is_zero());
    assert_eq!(TimeStamp(5).next(), TimeStamp(6));
}

/// Oversized keys are rejected before anything reaches the engine.
#[test]
fn error_key_too_large() {
    let mut storage = TestStorageBuilder::new(DummyLockManager).build().unwrap();
    let big = vec![b'k'; 5000];
    match storage.raw_put(Context::default(), "".to_string(), big, b"v".to_vec()) {
        Err(Error::KeyTooLarge { size, limit }) => {
            assert_eq!(size, 5000);
            assert_eq!(limit, 4096);
        }
        r => panic!("unexpected result: {:?}", r),
    }
}

/// A malformed raw-mode column family name is refused.
#[test]
fn error_invalid_cf() {
    let mut storage = TestStorageBuilder::new(DummyLockManager).build().unwrap();
    match storage.raw_get(Context::default(), "bogus".to_string(), b"k".to_vec()) {
        Err(Error::InvalidCf(name)) => assert_eq!(name, "bogus".to_string()),
        r => panic!("unexpected result: {:?}", r),
    }
}

/// Raw-mode writes land in the named family, not only the default one.
#[test]
fn raw_put_respects_family() {
    let mut storage = TestStorageBuilder::new(DummyLockManager).build().unwrap();
    storage
        .raw_put(
            Context::default(),
            "write".to_string(),
            b"k".to_vec(),
            b"vw".to_vec(),
        )
        .unwrap();
    assert_eq!(
        storage
            .raw_get(Context::default(), "write".to_string(), b"k".to_vec())
            .unwrap(),
        Some(b"vw".to_vec())
    );
    assert_eq!(
        storage
            .raw_get(Context::default(), "".to_string(), b"k".to_vec())
            .unwrap(),
        None
    );
}

/// A rollback protects its timestamp: a prewrite arriving afterwards at
/// the same start timestamp is refused.
#[test]
fn rollback_protects_timestamp() {
    let mut storage = TestStorageBuilder::new(DummyLockManager).build().unwrap();
    finished_ok(storage.sched_txn_command(Prewrite::with_defaults(
        vec![Mutation::Put((Key::from_raw(b"k"), b"v".to_vec()))],
        b"k".to_vec(),
        tsv(7),
    )));
    finished_ok(storage.sched_txn_command(libra_kv::commands::Rollback::new(
        vec![Key::from_raw(b"k")],
        tsv(7),
        Context::default(),
    )));
    match storage.sched_txn_command(Prewrite::with_defaults(
        vec![Mutation::Put((Key::from_raw(b"k"), b"v".to_vec()))],
        b"k".to_vec(),
        tsv(7),
    )) {
        SchedOutcome::Finished(Err(Error::WriteConflict { .. })) => (),
        other => panic!("unexpected outcome: {:?}", other),
    }
    // The lock is gone: a read passes and finds nothing.
    assert_eq!(
        storage
            .get(Context::default(), Key::from_raw(b"k"), tsv(100))
            .unwrap(),
        None
    );
}

/// A value longer than the inlining bound survives the round trip through
/// the default family.
#[test]
fn long_value_round_trip() {
    let mut storage = TestStorageBuilder::new(DummyLockManager).build().unwrap();
    let long = vec![b'v'; 500];
    finished_ok(storage.sched_txn_command(Prewrite::with_defaults(
        vec![Mutation::Put((Key::from_raw(b"k"), long.clone()))],
        b"k".to_vec(),
        tsv(10),
    )));
    finished_ok(storage.sched_txn_command(Commit::new(
        vec![Key::from_raw(b"k")],
        tsv(10),
        tsv(11),
        Context::default(),
    )));
    assert_eq!(
        storage
            .get(Context::default(), Key::from_raw(b"k"), tsv(12))
            .unwrap(),
        Some(long)
    );
}

/// A deletion hides the key from later readers while older readers still
/// see the prior value.
#[test]
fn delete_shadows_only_later_reads() {
    let mut storage = TestStorageBuilder::new(DummyLockManager).build().unwrap();
    finished_ok(storage.sched_txn_command(Prewrite::with_defaults(
        vec![Mutation::Put((Key::from_raw(b"k"), b"v".to_vec()))],
        b"k".to_vec(),
        tsv(10),
    )));
    finished_ok(storage.sched_txn_command(Commit::new(
        vec![Key::from_raw(b"k")],
        tsv(10),
        tsv(11),
        Context::default(),
    )));
    finished_ok(storage.sched_txn_command(Prewrite::with_defaults(
        vec![Mutation::Delete(Key::from_raw(b"k"))],
        b"k".to_vec(),
        tsv(20),
    )));
    finished_ok(storage.sched_txn_command(Commit::new(
        vec![Key::from_raw(b"k")],
        tsv(20),
        tsv(21),
        Context::default(),
    )));
    assert_eq!(
        storage
            .get(Context::default(), Key::from_raw(b"k"), tsv(15))
            .unwrap(),
        Some(b"v".to_vec())
    );
    assert_eq!(
        storage
            .get(Context::default(), Key::from_raw(b"k"), tsv(25))
            .unwrap(),
        None
    );
}

/// A writer whose keys are latched by a paused command queues behind it
/// and runs as soon as the pause ends.
#[test]
fn queued_writer_runs_after_pause() {
    let mut storage = TestStorageBuilder::new(DummyLockManager).build().unwrap();
    let paused = match storage.sched_txn_command(Pause::new(
        vec![Key::from_raw(b"x")],
        1000,
        Context::default(),
    )) {
        SchedOutcome::Pending(id) => id,
        other => panic!("unexpected outcome: {:?}", other),
    };
    // The same key is latched: the prewrite must wait its turn.
    let queued = match storage.sched_txn_command(Prewrite::with_defaults(
        vec![Mutation::Put((Key::from_raw(b"x"), b"v".to_vec()))],
        b"x".to_vec(),
        tsv(10),
    )) {
        SchedOutcome::Pending(id) => id,
        other => panic!("unexpected outcome: {:?}", other),
    };
    assert_ne!(paused, queued);
    // Nothing has run yet: the key carries no lock.
    assert_eq!(
        storage
            .get(Context::default(), Key::from_raw(b"x"), tsv(50))
            .unwrap(),
        None
    );
    assert!(storage.finish_paused(paused));
    let completed = storage.take_completed();
    assert_eq!(completed.len(), 2);
    assert_eq!(completed[0].0, paused);
    assert_eq!(completed[1].0, queued);
    assert!(completed[1].1.is_ok());
    // The queued prewrite has now staked its lock.
    match storage.get(Context::default(), Key::from_raw(b"x"), tsv(50)) {
        Err(Error::KeyIsLocked(..)) => (),
        r => panic!("unexpected result: {:?}", r),
    }
    finished_ok(storage.sched_txn_command(Commit::new(
        vec![Key::from_raw(b"x")],
        tsv(10),
        tsv(20),
        Context::default(),
    )));
    assert_eq!(
        storage
            .get(Context::default(), Key::from_raw(b"x"), tsv(50))
            .unwrap(),
        Some(b"v".to_vec())
    );
}

#[test]
fn lock_dir_names_the_owning_user() {
    assert_eq!(libra_kv::pd::get_lock_dir(0), "0_TIKV_LOCK_FILES");
    assert_eq!(libra_kv::pd::get_lock_dir(7), "7_TIKV_LOCK_FILES");
    assert_eq!(libra_kv::pd::get_lock_dir(1000), "1000_TIKV_LOCK_FILES");
    assert_eq!(libra_kv::pd::get_lock_dir(4294967295), "4294967295_TIKV_LOCK_FILES");
}

#[test]
fn guard_release_frees_the_key() {
    let mut storage = TestStorageBuilder::new(DummyLockManager).build().unwrap();
    let key = Key::from_raw(b"gk");
    let guard = storage.cm_lock_key(&key).unwrap();
    // The key is guarded: a second residency attempt is refused.
    assert!(storage.cm_lock_key(&key).is_none());
    // A guard that was never handed out stores nothing.
    assert!(!storage.cm_store_lock(guard + 1, None));
    // Releasing the guard removes its entry, and the key is free again.
    storage.cm_release_guard(guard);
    assert!(storage.cm_lock_key(&key).is_some());
}
