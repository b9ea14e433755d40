//! Exercises the storage facade: transactional reads and writes, raw-mode
//! operations, scheduling, and the lock manager notifications.

use libra_kv::commands::{
    AcquirePessimisticLock, CheckSecondaryLocks, CheckTxnStatus, Cleanup, Command, Commit, Pause,
    PessimisticRollback, Prewrite, PrewritePessimistic, ResolveLockLite, ResolveLockReadPhase,
    Rollback, ScanLock, TxnHeartBeat,
};
use libra_kv::errors::Error;
use libra_kv::kv::{
    Context, GetRequest, IsolationLevel, Key, KvPair, Lock as TxnLock, LockInfo, LockType,
    Mutation, WaitTimeout,
};
use libra_kv::lock_manager::{DummyLockManager, Lock as LmLock, LockManager};
use libra_kv::scheduler::{SchedOutcome, RESOLVE_LOCK_BATCH_SIZE};
use libra_kv::storage::{Config, Storage, TestEngineBuilder, TestStorageBuilder};
use libra_kv::tso::TimeStamp;
use libra_kv::types::{PessimisticLockRes, ProcessResult, SecondaryLocksStatus, TxnStatus};

fn ts(v: u64) -> TimeStamp {
    TimeStamp(v)
}

fn expect_cmd_ok(outcome: SchedOutcome) -> ProcessResult {
    match outcome {
        SchedOutcome::Finished(Ok(pr)) => pr,
        other => panic!("unexpected outcome: {:?}", other),
    }
}

fn expect_cmd_err(outcome: SchedOutcome) -> Error {
    match outcome {
        SchedOutcome::Finished(Err(e)) => e,
        other => panic!("unexpected outcome: {:?}", other),
    }
}

fn expect_none(x: Result<Option<Vec<u8>>, Error>) {
    assert_eq!(x.unwrap(), None);
}

fn expect_value(v: Vec<u8>, x: Result<Option<Vec<u8>>, Error>) {
    assert_eq!(x.unwrap().unwrap(), v);
}

fn expect_multi_values(v: Vec<Option<KvPair>>, x: Result<Vec<Result<KvPair, Error>>, Error>) {
    let x: Vec<Option<KvPair>> = x.unwrap().into_iter().map(Result::ok).collect();
    assert_eq!(x, v);
}

fn create_get_request(key: &[u8], start_ts: u64) -> GetRequest {
    let mut req = GetRequest::default();
    req.set_key(key.to_vec());
    req.set_version(start_ts);
    req
}

fn new_acquire_pessimistic_lock_command(
    keys: Vec<(Key, bool)>,
    start_ts: u64,
    for_update_ts: u64,
    return_values: bool,
) -> Command {
    let primary = keys[0].0.clone().into_raw().unwrap();
    let for_update_ts = ts(for_update_ts);
    AcquirePessimisticLock::new(
        keys,
        primary,
        ts(start_ts),
        3000,
        false,
        for_update_ts,
        None,
        return_values,
        for_update_ts.next(),
        Context::default(),
    )
}

fn delete_pessimistic_lock<L: LockManager>(
    storage: &mut Storage<L>,
    key: Key,
    start_ts: u64,
    for_update_ts: u64,
) {
    expect_cmd_ok(storage.sched_txn_command(PessimisticRollback::new(
        vec![key],
        ts(start_ts),
        ts(for_update_ts),
        Context::default(),
    )));
}

#[test]
fn test_get_put() {
    let mut storage = TestStorageBuilder::new(DummyLockManager).build().unwrap();
    expect_none(storage.get(Context::default(), Key::from_raw(b"x"), ts(100)));
    expect_cmd_ok(storage.sched_txn_command(Prewrite::with_defaults(
        vec![Mutation::Put((Key::from_raw(b"x"), b"100".to_vec()))],
        b"x".to_vec(),
        ts(100),
    )));
    match storage.get(Context::default(), Key::from_raw(b"x"), ts(101)) {
        Err(Error::KeyIsLocked(..)) => (),
        e => panic!("unexpected error chain: {:?}", e),
    }
    expect_cmd_ok(storage.sched_txn_command(Commit::new(
        vec![Key::from_raw(b"x")],
        ts(100),
        ts(101),
        Context::default(),
    )));
    expect_none(storage.get(Context::default(), Key::from_raw(b"x"), ts(100)));
    expect_value(
        b"100".to_vec(),
        storage.get(Context::default(), Key::from_raw(b"x"), ts(101)),
    );
}

#[test]
fn test_cf_error() {
    // New engine lacks normal column families.
    let engine = TestEngineBuilder::new()
        .cfs(vec!["foo".to_string()])
        .build()
        .unwrap();
    let mut storage = TestStorageBuilder::from_engine_and_lock_mgr(engine, DummyLockManager)
        .build()
        .unwrap();
    match expect_cmd_err(storage.sched_txn_command(Prewrite::with_defaults(
        vec![
            Mutation::Put((Key::from_raw(b"a"), b"aa".to_vec())),
            Mutation::Put((Key::from_raw(b"b"), b"bb".to_vec())),
            Mutation::Put((Key::from_raw(b"c"), b"cc".to_vec())),
        ],
        b"a".to_vec(),
        ts(1),
    ))) {
        Error::EngineRequest(..) => (),
        e => panic!("unexpected error chain: {:?}", e),
    }
    match storage.get(Context::default(), Key::from_raw(b"x"), ts(1)) {
        Err(Error::EngineRequest(..)) => (),
        e => panic!("unexpected error chain: {:?}", e),
    }
    match storage.scan(
        Context::default(),
        Key::from_raw(b"x"),
        None,
        1000,
        0,
        ts(1),
        false,
        false,
    ) {
        Err(Error::EngineRequest(..)) => (),
        e => panic!("unexpected error chain: {:?}", e),
    }
    match storage.batch_get(
        Context::default(),
        vec![Key::from_raw(b"c"), Key::from_raw(b"d")],
        ts(1),
    ) {
        Err(Error::EngineRequest(..)) => (),
        e => panic!("unexpected error chain: {:?}", e),
    }
    let x = storage
        .batch_get_command(vec![create_get_request(b"c", 1), create_get_request(b"d", 1)])
        .unwrap();
    for v in x {
        match v {
            Err(Error::EngineRequest(..)) => (),
            e => panic!("unexpected error chain: {:?}", e),
        }
    }
}

#[test]
fn test_scan() {
    let mut storage = TestStorageBuilder::new(DummyLockManager).build().unwrap();
    expect_cmd_ok(storage.sched_txn_command(Prewrite::with_defaults(
        vec![
            Mutation::Put((Key::from_raw(b"a"), b"aa".to_vec())),
            Mutation::Put((Key::from_raw(b"b"), b"bb".to_vec())),
            Mutation::Put((Key::from_raw(b"c"), b"cc".to_vec())),
        ],
        b"a".to_vec(),
        ts(1),
    )));
    // Forward
    expect_multi_values(
        vec![None, None, None],
        storage.scan(
            Context::default(),
            Key::from_raw(b"\x00"),
            None,
            1000,
            0,
            ts(5),
            false,
            false,
        ),
    );
    // Backward
    expect_multi_values(
        vec![None, None, None],
        storage.scan(
            Context::default(),
            Key::from_raw(b"\xff"),
            None,
            1000,
            0,
            ts(5),
            false,
            true,
        ),
    );
    // Forward with bound
    expect_multi_values(
        vec![None, None],
        storage.scan(
            Context::default(),
            Key::from_raw(b"\x00"),
            Some(Key::from_raw(b"c")),
            1000,
            0,
            ts(5),
            false,
            false,
        ),
    );
    // Backward with bound
    expect_multi_values(
        vec![None, None],
        storage.scan(
            Context::default(),
            Key::from_raw(b"\xff"),
            Some(Key::from_raw(b"b")),
            1000,
            0,
            ts(5),
            false,
            true,
        ),
    );
    // Forward with limit
    expect_multi_values(
        vec![None, None],
        storage.scan(
            Context::default(),
            Key::from_raw(b"\x00"),
            None,
            2,
            0,
            ts(5),
            false,
            false,
        ),
    );
    // Backward with limit
    expect_multi_values(
        vec![None, None],
        storage.scan(
            Context::default(),
            Key::from_raw(b"\xff"),
            None,
            2,
            0,
            ts(5),
            false,
            true,
        ),
    );

    expect_cmd_ok(storage.sched_txn_command(Commit::new(
        vec![
            Key::from_raw(b"a"),
            Key::from_raw(b"b"),
            Key::from_raw(b"c"),
        ],
        ts(1),
        ts(2),
        Context::default(),
    )));
    // Forward
    expect_multi_values(
        vec![
            Some((b"a".to_vec(), b"aa".to_vec())),
            Some((b"b".to_vec(), b"bb".to_vec())),
            Some((b"c".to_vec(), b"cc".to_vec())),
        ],
        storage.scan(
            Context::default(),
            Key::from_raw(b"\x00"),
            None,
            1000,
            0,
            ts(5),
            false,
            false,
        ),
    );
    // Backward
    expect_multi_values(
        vec![
            Some((b"c".to_vec(), b"cc".to_vec())),
            Some((b"b".to_vec(), b"bb".to_vec())),
            Some((b"a".to_vec(), b"aa".to_vec())),
        ],
        storage.scan(
            Context::default(),
            Key::from_raw(b"\xff"),
            None,
            1000,
            0,
            ts(5),
            false,
            true,
        ),
    );
    // Forward with sample step
    expect_multi_values(
        vec![
            Some((b"a".to_vec(), b"aa".to_vec())),
            Some((b"c".to_vec(), b"cc".to_vec())),
        ],
        storage.scan(
            Context::default(),
            Key::from_raw(b"\x00"),
            None,
            1000,
            2,
            ts(5),
            false,
            false,
        ),
    );
    // Backward with sample step
    expect_multi_values(
        vec![
            Some((b"c".to_vec(), b"cc".to_vec())),
            Some((b"a".to_vec(), b"aa".to_vec())),
        ],
        storage.scan(
            Context::default(),
            Key::from_raw(b"\xff"),
            None,
            1000,
            2,
            ts(5),
            false,
            true,
        ),
    );
    // Forward with sample step and limit
    expect_multi_values(
        vec![Some((b"a".to_vec(), b"aa".to_vec()))],
        storage.scan(
            Context::default(),
            Key::from_raw(b"\x00"),
            None,
            1,
            2,
            ts(5),
            false,
            false,
        ),
    );
    // Backward with sample step and limit
    expect_multi_values(
        vec![Some((b"c".to_vec(), b"cc".to_vec()))],
        storage.scan(
            Context::default(),
            Key::from_raw(b"\xff"),
            None,
            1,
            2,
            ts(5),
            false,
            true,
        ),
    );
    // Forward with bound
    expect_multi_values(
        vec![
            Some((b"a".to_vec(), b"aa".to_vec())),
            Some((b"b".to_vec(), b"bb".to_vec())),
        ],
        storage.scan(
            Context::default(),
            Key::from_raw(b"\x00"),
            Some(Key::from_raw(b"c")),
            1000,
            0,
            ts(5),
            false,
            false,
        ),
    );
    // Backward with bound
    expect_multi_values(
        vec![
            Some((b"c".to_vec(), b"cc".to_vec())),
            Some((b"b".to_vec(), b"bb".to_vec())),
        ],
        storage.scan(
            Context::default(),
            Key::from_raw(b"\xff"),
            Some(Key::from_raw(b"b")),
            1000,
            0,
            ts(5),
            false,
            true,
        ),
    );
    // Forward with limit
    expect_multi_values(
        vec![
            Some((b"a".to_vec(), b"aa".to_vec())),
            Some((b"b".to_vec(), b"bb".to_vec())),
        ],
        storage.scan(
            Context::default(),
            Key::from_raw(b"\x00"),
            None,
            2,
            0,
            ts(5),
            false,
            false,
        ),
    );
    // Backward with limit
    expect_multi_values(
        vec![
            Some((b"c".to_vec(), b"cc".to_vec())),
            Some((b"b".to_vec(), b"bb".to_vec())),
        ],
        storage.scan(
            Context::default(),
            Key::from_raw(b"\xff"),
            None,
            2,
            0,
            ts(5),
            false,
            true,
        ),
    );
}

#[test]
fn test_scan_with_key_only() {
    let mut storage = TestStorageBuilder::new(DummyLockManager).build().unwrap();
    expect_cmd_ok(storage.sched_txn_command(Prewrite::with_defaults(
        vec![
            Mutation::Put((Key::from_raw(b"a"), b"aa".to_vec())),
            Mutation::Put((Key::from_raw(b"b"), b"bb".to_vec())),
            Mutation::Put((Key::from_raw(b"c"), b"cc".to_vec())),
        ],
        b"a".to_vec(),
        ts(1),
    )));
    // Forward
    expect_multi_values(
        vec![None, None, None],
        storage.scan(
            Context::default(),
            Key::from_raw(b"\x00"),
            None,
            1000,
            0,
            ts(5),
            true,
            false,
        ),
    );
    // Backward
    expect_multi_values(
        vec![None, None, None],
        storage.scan(
            Context::default(),
            Key::from_raw(b"\xff"),
            None,
            1000,
            0,
            ts(5),
            true,
            true,
        ),
    );
    // Forward with bound
    expect_multi_values(
        vec![None, None],
        storage.scan(
            Context::default(),
            Key::from_raw(b"\x00"),
            Some(Key::from_raw(b"c")),
            1000,
            0,
            ts(5),
            true,
            false,
        ),
    );
    // Backward with bound
    expect_multi_values(
        vec![None, None],
        storage.scan(
            Context::default(),
            Key::from_raw(b"\xff"),
            Some(Key::from_raw(b"b")),
            1000,
            0,
            ts(5),
            true,
            true,
        ),
    );
    // Forward with limit
    expect_multi_values(
        vec![None, None],
        storage.scan(
            Context::default(),
            Key::from_raw(b"\x00"),
            None,
            2,
            0,
            ts(5),
            true,
            false,
        ),
    );
    // Backward with limit
    expect_multi_values(
        vec![None, None],
        storage.scan(
            Context::default(),
            Key::from_raw(b"\xff"),
            None,
            2,
            0,
            ts(5),
            true,
            true,
        ),
    );

    expect_cmd_ok(storage.sched_txn_command(Commit::new(
        vec![
            Key::from_raw(b"a"),
            Key::from_raw(b"b"),
            Key::from_raw(b"c"),
        ],
        ts(1),
        ts(2),
        Context::default(),
    )));
    // Forward
    expect_multi_values(
        vec![
            Some((b"a".to_vec(), vec![])),
            Some((b"b".to_vec(), vec![])),
            Some((b"c".to_vec(), vec![])),
        ],
        storage.scan(
            Context::default(),
            Key::from_raw(b"\x00"),
            None,
            1000,
            0,
            ts(5),
            true,
            false,
        ),
    );
    // Backward
    expect_multi_values(
        vec![
            Some((b"c".to_vec(), vec![])),
            Some((b"b".to_vec(), vec![])),
            Some((b"a".to_vec(), vec![])),
        ],
        storage.scan(
            Context::default(),
            Key::from_raw(b"\xff"),
            None,
            1000,
            0,
            ts(5),
            true,
            true,
        ),
    );
    // Forward with bound
    expect_multi_values(
        vec![Some((b"a".to_vec(), vec![])), Some((b"b".to_vec(), vec![]))],
        storage.scan(
            Context::default(),
            Key::from_raw(b"\x00"),
            Some(Key::from_raw(b"c")),
            1000,
            0,
            ts(5),
            true,
            false,
        ),
    );
    // Backward with bound
    expect_multi_values(
        vec![Some((b"c".to_vec(), vec![])), Some((b"b".to_vec(), vec![]))],
        storage.scan(
            Context::default(),
            Key::from_raw(b"\xff"),
            Some(Key::from_raw(b"b")),
            1000,
            0,
            ts(5),
            true,
            true,
        ),
    );
    // Forward with limit
    expect_multi_values(
        vec![Some((b"a".to_vec(), vec![])), Some((b"b".to_vec(), vec![]))],
        storage.scan(
            Context::default(),
            Key::from_raw(b"\x00"),
            None,
            2,
            0,
            ts(5),
            true,
            false,
        ),
    );
    // Backward with limit
    expect_multi_values(
        vec![Some((b"c".to_vec(), vec![])), Some((b"b".to_vec(), vec![]))],
        storage.scan(
            Context::default(),
            Key::from_raw(b"\xff"),
            None,
            2,
            0,
            ts(5),
            true,
            true,
        ),
    );
}

#[test]
fn test_batch_get() {
    let mut storage = TestStorageBuilder::new(DummyLockManager).build().unwrap();
    expect_cmd_ok(storage.sched_txn_command(Prewrite::with_defaults(
        vec![
            Mutation::Put((Key::from_raw(b"a"), b"aa".to_vec())),
            Mutation::Put((Key::from_raw(b"b"), b"bb".to_vec())),
            Mutation::Put((Key::from_raw(b"c"), b"cc".to_vec())),
        ],
        b"a".to_vec(),
        ts(1),
    )));
    expect_multi_values(
        vec![None],
        storage.batch_get(
            Context::default(),
            vec![Key::from_raw(b"c"), Key::from_raw(b"d")],
            ts(2),
        ),
    );
    expect_cmd_ok(storage.sched_txn_command(Commit::new(
        vec![
            Key::from_raw(b"a"),
            Key::from_raw(b"b"),
            Key::from_raw(b"c"),
        ],
        ts(1),
        ts(2),
        Context::default(),
    )));
    expect_multi_values(
        vec![
            Some((b"c".to_vec(), b"cc".to_vec())),
            Some((b"a".to_vec(), b"aa".to_vec())),
            Some((b"b".to_vec(), b"bb".to_vec())),
        ],
        storage.batch_get(
            Context::default(),
            vec![
                Key::from_raw(b"c"),
                Key::from_raw(b"x"),
                Key::from_raw(b"a"),
                Key::from_raw(b"b"),
            ],
            ts(5),
        ),
    );
}

#[test]
fn test_batch_get_command() {
    let mut storage = TestStorageBuilder::new(DummyLockManager).build().unwrap();
    expect_cmd_ok(storage.sched_txn_command(Prewrite::with_defaults(
        vec![
            Mutation::Put((Key::from_raw(b"a"), b"aa".to_vec())),
            Mutation::Put((Key::from_raw(b"b"), b"bb".to_vec())),
            Mutation::Put((Key::from_raw(b"c"), b"cc".to_vec())),
        ],
        b"a".to_vec(),
        ts(1),
    )));
    let mut x = storage
        .batch_get_command(vec![create_get_request(b"c", 2), create_get_request(b"d", 2)])
        .unwrap();
    match x.remove(0) {
        Err(Error::KeyIsLocked(..)) => (),
        e => panic!("unexpected error chain: {:?}", e),
    }
    assert_eq!(x.remove(0).unwrap(), None);
    expect_cmd_ok(storage.sched_txn_command(Commit::new(
        vec![
            Key::from_raw(b"a"),
            Key::from_raw(b"b"),
            Key::from_raw(b"c"),
        ],
        ts(1),
        ts(2),
        Context::default(),
    )));
    let x: Vec<Option<Vec<u8>>> = storage
        .batch_get_command(vec![
            create_get_request(b"c", 5),
            create_get_request(b"x", 5),
            create_get_request(b"a", 5),
            create_get_request(b"b", 5),
        ])
        .unwrap()
        .into_iter()
        .map(|x| x.unwrap())
        .collect();
    assert_eq!(
        x,
        vec![
            Some(b"cc".to_vec()),
            None,
            Some(b"aa".to_vec()),
            Some(b"bb".to_vec())
        ]
    );
}

#[test]
fn test_txn() {
    let mut storage = TestStorageBuilder::new(DummyLockManager).build().unwrap();
    expect_cmd_ok(storage.sched_txn_command(Prewrite::with_defaults(
        vec![Mutation::Put((Key::from_raw(b"x"), b"100".to_vec()))],
        b"x".to_vec(),
        ts(100),
    )));
    expect_cmd_ok(storage.sched_txn_command(Prewrite::with_defaults(
        vec![Mutation::Put((Key::from_raw(b"y"), b"101".to_vec()))],
        b"y".to_vec(),
        ts(101),
    )));
    assert_eq!(
        expect_cmd_ok(storage.sched_txn_command(Commit::new(
            vec![Key::from_raw(b"x")],
            ts(100),
            ts(110),
            Context::default(),
        ))),
        ProcessResult::TxnStatus(TxnStatus::committed(ts(110)))
    );
    assert_eq!(
        expect_cmd_ok(storage.sched_txn_command(Commit::new(
            vec![Key::from_raw(b"y")],
            ts(101),
            ts(111),
            Context::default(),
        ))),
        ProcessResult::TxnStatus(TxnStatus::committed(ts(111)))
    );
    expect_value(
        b"100".to_vec(),
        storage.get(Context::default(), Key::from_raw(b"x"), ts(120)),
    );
    expect_value(
        b"101".to_vec(),
        storage.get(Context::default(), Key::from_raw(b"y"), ts(120)),
    );
    match expect_cmd_err(storage.sched_txn_command(Prewrite::with_defaults(
        vec![Mutation::Put((Key::from_raw(b"x"), b"105".to_vec()))],
        b"x".to_vec(),
        ts(105),
    ))) {
        Error::WriteConflict { .. } => (),
        e => panic!("unexpected error chain: {:?}", e),
    }
}

#[test]
fn test_sched_too_busy() {
    let mut config = Config::default();
    config.scheduler_pending_write_threshold = 1;
    let mut storage = TestStorageBuilder::new(DummyLockManager)
        .config(config)
        .build()
        .unwrap();
    expect_none(storage.get(Context::default(), Key::from_raw(b"x"), ts(100)));
    let paused = match storage.sched_txn_command(Pause::new(
        vec![Key::from_raw(b"x")],
        1000,
        Context::default(),
    )) {
        SchedOutcome::Pending(id) => id,
        other => panic!("unexpected outcome: {:?}", other),
    };
    match expect_cmd_err(storage.sched_txn_command(Prewrite::with_defaults(
        vec![Mutation::Put((Key::from_raw(b"y"), b"101".to_vec()))],
        b"y".to_vec(),
        ts(101),
    ))) {
        Error::SchedTooBusy => (),
        e => panic!("unexpected error chain: {:?}, expect too busy", e),
    }
    assert!(storage.finish_paused(paused));
    let completed = storage.take_completed();
    assert_eq!(completed.len(), 1);
    assert_eq!(completed[0].0, paused);
    assert!(completed[0].1.is_ok());
    expect_cmd_ok(storage.sched_txn_command(Prewrite::with_defaults(
        vec![Mutation::Put((Key::from_raw(b"z"), b"102".to_vec()))],
        b"y".to_vec(),
        ts(102),
    )));
}

#[test]
fn test_cleanup() {
    let mut storage = TestStorageBuilder::new(DummyLockManager).build().unwrap();
    expect_cmd_ok(storage.sched_txn_command(Prewrite::with_defaults(
        vec![Mutation::Put((Key::from_raw(b"x"), b"100".to_vec()))],
        b"x".to_vec(),
        ts(100),
    )));
    expect_cmd_ok(storage.sched_txn_command(Cleanup::new(
        Key::from_raw(b"x"),
        ts(100),
        TimeStamp::zero(),
        Context::default(),
    )));
    expect_none(storage.get(Context::default(), Key::from_raw(b"x"), ts(105)));
}

#[test]
fn test_cleanup_check_ttl() {
    let mut storage = TestStorageBuilder::new(DummyLockManager).build().unwrap();
    let ts = TimeStamp::compose;
    expect_cmd_ok(storage.sched_txn_command(Prewrite::with_lock_ttl(
        vec![Mutation::Put((Key::from_raw(b"x"), b"110".to_vec()))],
        b"x".to_vec(),
        ts(110, 0),
        100,
    )));
    match expect_cmd_err(storage.sched_txn_command(Cleanup::new(
        Key::from_raw(b"x"),
        ts(110, 0),
        ts(120, 0),
        Context::default(),
    ))) {
        Error::KeyIsLocked(info) => assert_eq!(info.get_lock_ttl(), 100),
        e => panic!("unexpected error chain: {:?}", e),
    }
    expect_cmd_ok(storage.sched_txn_command(Cleanup::new(
        Key::from_raw(b"x"),
        ts(110, 0),
        ts(220, 0),
        Context::default(),
    )));
    expect_none(storage.get(Context::default(), Key::from_raw(b"x"), ts(230, 0)));
}

#[test]
fn test_high_priority_get_put() {
    let mut storage = TestStorageBuilder::new(DummyLockManager).build().unwrap();
    let mut ctx = Context::default();
    ctx.set_priority(libra_kv::kv::CommandPri::High);
    expect_none(storage.get(ctx, Key::from_raw(b"x"), ts(100)));
    let mut ctx = Context::default();
    ctx.set_priority(libra_kv::kv::CommandPri::High);
    expect_cmd_ok(storage.sched_txn_command(Prewrite::with_context(
        vec![Mutation::Put((Key::from_raw(b"x"), b"100".to_vec()))],
        b"x".to_vec(),
        ts(100),
        ctx,
    )));
    let mut ctx = Context::default();
    ctx.set_priority(libra_kv::kv::CommandPri::High);
    expect_cmd_ok(storage.sched_txn_command(Commit::new(
        vec![Key::from_raw(b"x")],
        ts(100),
        ts(101),
        ctx,
    )));
    let mut ctx = Context::default();
    ctx.set_priority(libra_kv::kv::CommandPri::High);
    expect_none(storage.get(ctx, Key::from_raw(b"x"), ts(100)));
    let mut ctx = Context::default();
    ctx.set_priority(libra_kv::kv::CommandPri::High);
    expect_value(
        b"100".to_vec(),
        storage.get(ctx, Key::from_raw(b"x"), ts(101)),
    );
}

#[test]
fn test_high_priority_no_block() {
    let mut config = Config::default();
    config.scheduler_worker_pool_size = 1;
    let mut storage = TestStorageBuilder::new(DummyLockManager)
        .config(config)
        .build()
        .unwrap();
    expect_none(storage.get(Context::default(), Key::from_raw(b"x"), ts(100)));
    expect_cmd_ok(storage.sched_txn_command(Prewrite::with_defaults(
        vec![Mutation::Put((Key::from_raw(b"x"), b"100".to_vec()))],
        b"x".to_vec(),
        ts(100),
    )));
    expect_cmd_ok(storage.sched_txn_command(Commit::new(
        vec![Key::from_raw(b"x")],
        ts(100),
        ts(101),
        Context::default(),
    )));

    let paused = match storage.sched_txn_command(Pause::new(
        vec![Key::from_raw(b"y")],
        1000,
        Context::default(),
    )) {
        SchedOutcome::Pending(id) => id,
        other => panic!("unexpected outcome: {:?}", other),
    };
    let mut ctx = Context::default();
    ctx.set_priority(libra_kv::kv::CommandPri::High);
    // A high-priority get is not blocked by the paused command.
    expect_value(
        b"100".to_vec(),
        storage.get(ctx, Key::from_raw(b"x"), ts(101)),
    );
    assert!(storage.finish_paused(paused));
    assert_eq!(storage.take_completed().len(), 1);
}

#[test]
fn test_delete_range() {
    let mut storage = TestStorageBuilder::new(DummyLockManager).build().unwrap();
    // Write x and y.
    expect_cmd_ok(storage.sched_txn_command(Prewrite::with_defaults(
        vec![
            Mutation::Put((Key::from_raw(b"x"), b"100".to_vec())),
            Mutation::Put((Key::from_raw(b"y"), b"100".to_vec())),
            Mutation::Put((Key::from_raw(b"z"), b"100".to_vec())),
        ],
        b"x".to_vec(),
        ts(100),
    )));
    expect_cmd_ok(storage.sched_txn_command(Commit::new(
        vec![
            Key::from_raw(b"x"),
            Key::from_raw(b"y"),
            Key::from_raw(b"z"),
        ],
        ts(100),
        ts(101),
        Context::default(),
    )));
    expect_value(
        b"100".to_vec(),
        storage.get(Context::default(), Key::from_raw(b"x"), ts(101)),
    );
    expect_value(
        b"100".to_vec(),
        storage.get(Context::default(), Key::from_raw(b"y"), ts(101)),
    );
    expect_value(
        b"100".to_vec(),
        storage.get(Context::default(), Key::from_raw(b"z"), ts(101)),
    );

    // Delete range [x, z)
    storage
        .delete_range(
            Context::default(),
            Key::from_raw(b"x"),
            Key::from_raw(b"z"),
            false,
        )
        .unwrap();
    expect_none(storage.get(Context::default(), Key::from_raw(b"x"), ts(101)));
    expect_none(storage.get(Context::default(), Key::from_raw(b"y"), ts(101)));
    expect_value(
        b"100".to_vec(),
        storage.get(Context::default(), Key::from_raw(b"z"), ts(101)),
    );

    storage
        .delete_range(
            Context::default(),
            Key::from_raw(b""),
            Key::from_raw(&[255]),
            false,
        )
        .unwrap();
    expect_none(storage.get(Context::default(), Key::from_raw(b"z"), ts(101)));
}

#[test]
fn test_raw_delete_range() {
    let mut storage = TestStorageBuilder::new(DummyLockManager).build().unwrap();
    let test_data = [
        (b"a", b"001"),
        (b"b", b"002"),
        (b"c", b"003"),
        (b"d", b"004"),
        (b"e", b"005"),
    ];
    // Write some key-value pairs to the db
    for kv in &test_data {
        storage
            .raw_put(
                Context::default(),
                "".to_string(),
                kv.0.to_vec(),
                kv.1.to_vec(),
            )
            .unwrap();
    }
    expect_value(
        b"004".to_vec(),
        storage.raw_get(Context::default(), "".to_string(), b"d".to_vec()),
    );

    // Delete ["d", "e")
    storage
        .raw_delete_range(
            Context::default(),
            "".to_string(),
            b"d".to_vec(),
            b"e".to_vec(),
        )
        .unwrap();

    // Assert key "d" has gone
    expect_value(
        b"003".to_vec(),
        storage.raw_get(Context::default(), "".to_string(), b"c".to_vec()),
    );
    expect_none(storage.raw_get(Context::default(), "".to_string(), b"d".to_vec()));
    expect_value(
        b"005".to_vec(),
        storage.raw_get(Context::default(), "".to_string(), b"e".to_vec()),
    );

    // Delete ["aa", "ab")
    storage
        .raw_delete_range(
            Context::default(),
            "".to_string(),
            b"aa".to_vec(),
            b"ab".to_vec(),
        )
        .unwrap();

    // Assert nothing happened
    expect_value(
        b"001".to_vec(),
        storage.raw_get(Context::default(), "".to_string(), b"a".to_vec()),
    );
    expect_value(
        b"002".to_vec(),
        storage.raw_get(Context::default(), "".to_string(), b"b".to_vec()),
    );

    // Delete all
    storage
        .raw_delete_range(
            Context::default(),
            "".to_string(),
            b"a".to_vec(),
            b"z".to_vec(),
        )
        .unwrap();

    // Assert now no key remains
    for kv in &test_data {
        expect_none(storage.raw_get(Context::default(), "".to_string(), kv.0.to_vec()));
    }
}

#[test]
fn test_raw_batch_put() {
    let mut storage = TestStorageBuilder::new(DummyLockManager).build().unwrap();
    let test_data = vec![
        (b"a".to_vec(), b"aa".to_vec()),
        (b"b".to_vec(), b"bb".to_vec()),
        (b"c".to_vec(), b"cc".to_vec()),
        (b"d".to_vec(), b"dd".to_vec()),
        (b"e".to_vec(), b"ee".to_vec()),
    ];
    // Write key-value pairs in a batch
    storage
        .raw_batch_put(Context::default(), "".to_string(), test_data.clone())
        .unwrap();
    // Verify pairs one by one
    for (key, val) in test_data {
        expect_value(
            val,
            storage.raw_get(Context::default(), "".to_string(), key),
        );
    }
}

#[test]
fn test_raw_batch_get() {
    let mut storage = TestStorageBuilder::new(DummyLockManager).build().unwrap();
    let test_data = vec![
        (b"a".to_vec(), b"aa".to_vec()),
        (b"b".to_vec(), b"bb".to_vec()),
        (b"c".to_vec(), b"cc".to_vec()),
        (b"d".to_vec(), b"dd".to_vec()),
        (b"e".to_vec(), b"ee".to_vec()),
    ];
    // Write key-value pairs one by one
    for (key, value) in &test_data {
        storage
            .raw_put(
                Context::default(),
                "".to_string(),
                key.clone(),
                value.clone(),
            )
            .unwrap();
    }
    // Verify pairs in a batch
    let keys = test_data.iter().map(|(k, _)| k.clone()).collect();
    let results = test_data.into_iter().map(|(k, v)| Some((k, v))).collect();
    expect_multi_values(
        results,
        storage.raw_batch_get(Context::default(), "".to_string(), keys),
    );
}

#[test]
fn test_batch_raw_get() {
    let mut storage = TestStorageBuilder::new(DummyLockManager).build().unwrap();
    let test_data = vec![
        (b"a".to_vec(), b"aa".to_vec()),
        (b"b".to_vec(), b"bb".to_vec()),
        (b"c".to_vec(), b"cc".to_vec()),
        (b"d".to_vec(), b"dd".to_vec()),
        (b"e".to_vec(), b"ee".to_vec()),
    ];
    // Write key-value pairs one by one
    for (key, value) in &test_data {
        storage
            .raw_put(
                Context::default(),
                "".to_string(),
                key.clone(),
                value.clone(),
            )
            .unwrap();
    }
    // Verify pairs in a batch
    let cmds = test_data
        .iter()
        .map(|(k, _)| {
            let mut req = libra_kv::kv::RawGetRequest::default();
            req.set_key(k.clone());
            req
        })
        .collect();
    let results: Vec<Option<Vec<u8>>> = test_data.into_iter().map(|(_, v)| Some(v)).collect();
    let x: Vec<Option<Vec<u8>>> = storage
        .raw_batch_get_command(cmds)
        .unwrap()
        .into_iter()
        .map(|x| x.unwrap())
        .collect();
    assert_eq!(x, results);
}

#[test]
fn test_raw_batch_delete() {
    let mut storage = TestStorageBuilder::new(DummyLockManager).build().unwrap();
    let test_data = vec![
        (b"a".to_vec(), b"aa".to_vec()),
        (b"b".to_vec(), b"bb".to_vec()),
        (b"c".to_vec(), b"cc".to_vec()),
        (b"d".to_vec(), b"dd".to_vec()),
        (b"e".to_vec(), b"ee".to_vec()),
    ];
    // Write key-value pairs in batch
    storage
        .raw_batch_put(Context::default(), "".to_string(), test_data.clone())
        .unwrap();
    // Verify pairs exist
    let keys = test_data.iter().map(|(k, _)| k.clone()).collect();
    let results = test_data
        .iter()
        .map(|(k, v)| Some((k.clone(), v.clone())))
        .collect();
    expect_multi_values(
        results,
        storage.raw_batch_get(Context::default(), "".to_string(), keys),
    );

    // Delete ["b", "d"]
    storage
        .raw_batch_delete(
            Context::default(),
            "".to_string(),
            vec![b"b".to_vec(), b"d".to_vec()],
        )
        .unwrap();

    // Assert "b" and "d" are gone
    expect_value(
        b"aa".to_vec(),
        storage.raw_get(Context::default(), "".to_string(), b"a".to_vec()),
    );
    expect_none(storage.raw_get(Context::default(), "".to_string(), b"b".to_vec()));
    expect_value(
        b"cc".to_vec(),
        storage.raw_get(Context::default(), "".to_string(), b"c".to_vec()),
    );
    expect_none(storage.raw_get(Context::default(), "".to_string(), b"d".to_vec()));
    expect_value(
        b"ee".to_vec(),
        storage.raw_get(Context::default(), "".to_string(), b"e".to_vec()),
    );

    // Delete ["a", "c", "e"]
    storage
        .raw_batch_delete(
            Context::default(),
            "".to_string(),
            vec![b"a".to_vec(), b"c".to_vec(), b"e".to_vec()],
        )
        .unwrap();

    // Assert no key remains
    for (k, _) in test_data {
        expect_none(storage.raw_get(Context::default(), "".to_string(), k));
    }
}

#[test]
fn test_raw_scan() {
    let mut storage = TestStorageBuilder::new(DummyLockManager).build().unwrap();
    let test_data = vec![
        (b"a".to_vec(), b"aa".to_vec()),
        (b"a1".to_vec(), b"aa11".to_vec()),
        (b"a2".to_vec(), b"aa22".to_vec()),
        (b"a3".to_vec(), b"aa33".to_vec()),
        (b"b".to_vec(), b"bb".to_vec()),
        (b"b1".to_vec(), b"bb11".to_vec()),
        (b"b2".to_vec(), b"bb22".to_vec()),
        (b"b3".to_vec(), b"bb33".to_vec()),
        (b"c".to_vec(), b"cc".to_vec()),
        (b"c1".to_vec(), b"cc11".to_vec()),
        (b"c2".to_vec(), b"cc22".to_vec()),
        (b"c3".to_vec(), b"cc33".to_vec()),
        (b"d".to_vec(), b"dd".to_vec()),
        (b"d1".to_vec(), b"dd11".to_vec()),
        (b"d2".to_vec(), b"dd22".to_vec()),
        (b"d3".to_vec(), b"dd33".to_vec()),
        (b"e".to_vec(), b"ee".to_vec()),
        (b"e1".to_vec(), b"ee11".to_vec()),
        (b"e2".to_vec(), b"ee22".to_vec()),
        (b"e3".to_vec(), b"ee33".to_vec()),
    ];
    // Write key-value pairs in batch
    storage
        .raw_batch_put(Context::default(), "".to_string(), test_data.clone())
        .unwrap();

    // Scan pairs with key only
    let mut results: Vec<Option<KvPair>> = test_data
        .iter()
        .map(|(k, _)| Some((k.clone(), vec![])))
        .collect();
    expect_multi_values(
        results.clone(),
        storage.raw_scan(
            Context::default(),
            "".to_string(),
            vec![],
            None,
            20,
            true,
            false,
        ),
    );
    results = results.split_off(10);
    expect_multi_values(
        results,
        storage.raw_scan(
            Context::default(),
            "".to_string(),
            b"c2".to_vec(),
            None,
            20,
            true,
            false,
        ),
    );
    let mut results: Vec<Option<KvPair>> = test_data
        .clone()
        .into_iter()
        .map(|(k, v)| Some((k, v)))
        .collect();
    expect_multi_values(
        results.clone(),
        storage.raw_scan(
            Context::default(),
            "".to_string(),
            vec![],
            None,
            20,
            false,
            false,
        ),
    );
    results = results.split_off(10);
    expect_multi_values(
        results,
        storage.raw_scan(
            Context::default(),
            "".to_string(),
            b"c2".to_vec(),
            None,
            20,
            false,
            false,
        ),
    );
    let results: Vec<Option<KvPair>> = test_data
        .clone()
        .into_iter()
        .map(|(k, v)| Some((k, v)))
        .rev()
        .collect();
    expect_multi_values(
        results,
        storage.raw_scan(
            Context::default(),
            "".to_string(),
            b"z".to_vec(),
            None,
            20,
            false,
            true,
        ),
    );
    let results: Vec<Option<KvPair>> = test_data
        .clone()
        .into_iter()
        .map(|(k, v)| Some((k, v)))
        .rev()
        .take(5)
        .collect();
    expect_multi_values(
        results,
        storage.raw_scan(
            Context::default(),
            "".to_string(),
            b"z".to_vec(),
            None,
            5,
            false,
            true,
        ),
    );

    // Scan with end_key
    let results: Vec<Option<KvPair>> = test_data
        .clone()
        .into_iter()
        .skip(6)
        .take(4)
        .map(|(k, v)| Some((k, v)))
        .collect();
    expect_multi_values(
        results,
        storage.raw_scan(
            Context::default(),
            "".to_string(),
            b"b2".to_vec(),
            Some(b"c2".to_vec()),
            20,
            false,
            false,
        ),
    );
    let results: Vec<Option<KvPair>> = test_data
        .clone()
        .into_iter()
        .skip(6)
        .take(1)
        .map(|(k, v)| Some((k, v)))
        .collect();
    expect_multi_values(
        results,
        storage.raw_scan(
            Context::default(),
            "".to_string(),
            b"b2".to_vec(),
            Some(b"b2\x00".to_vec()),
            20,
            false,
            false,
        ),
    );

    // Reverse scan with end_key
    let results: Vec<Option<KvPair>> = test_data
        .clone()
        .into_iter()
        .rev()
        .skip(10)
        .take(4)
        .map(|(k, v)| Some((k, v)))
        .collect();
    expect_multi_values(
        results,
        storage.raw_scan(
            Context::default(),
            "".to_string(),
            b"c2".to_vec(),
            Some(b"b2".to_vec()),
            20,
            false,
            true,
        ),
    );
    let results: Vec<Option<KvPair>> = test_data
        .clone()
        .into_iter()
        .skip(6)
        .take(1)
        .map(|(k, v)| Some((k, v)))
        .collect();
    expect_multi_values(
        results,
        storage.raw_scan(
            Context::default(),
            "".to_string(),
            b"b2\x00".to_vec(),
            Some(b"b2".to_vec()),
            20,
            false,
            true,
        ),
    );

    // End key tests. Confirm that lower/upper bound works correctly.
    let results = vec![
        (b"c1".to_vec(), b"cc11".to_vec()),
        (b"c2".to_vec(), b"cc22".to_vec()),
        (b"c3".to_vec(), b"cc33".to_vec()),
        (b"d".to_vec(), b"dd".to_vec()),
        (b"d1".to_vec(), b"dd11".to_vec()),
        (b"d2".to_vec(), b"dd22".to_vec()),
    ]
    .into_iter()
    .map(|(k, v)| Some((k, v)));
    let snapshot = storage.snapshot();
    expect_multi_values(
        results.clone().collect(),
        Storage::<DummyLockManager>::forward_raw_scan(
            &snapshot,
            &"".to_string(),
            &Key::from_encoded(b"c1".to_vec()),
            Some(Key::from_encoded(b"d3".to_vec())),
            20,
            false,
        ),
    );
    expect_multi_values(
        results.rev().collect(),
        Storage::<DummyLockManager>::reverse_raw_scan(
            &snapshot,
            &"".to_string(),
            &Key::from_encoded(b"d3".to_vec()),
            Some(Key::from_encoded(b"c1".to_vec())),
            20,
            false,
        ),
    );
}

#[test]
fn test_check_key_ranges() {
    fn make_ranges(ranges: Vec<(Vec<u8>, Vec<u8>)>) -> Vec<libra_kv::kv::KeyRange> {
        ranges
            .into_iter()
            .map(|(s, e)| {
                let mut range = libra_kv::kv::KeyRange::default();
                range.set_start_key(s);
                if !e.is_empty() {
                    range.set_end_key(e);
                }
                range
            })
            .collect()
    }

    let ranges = make_ranges(vec![
        (b"a".to_vec(), b"a3".to_vec()),
        (b"b".to_vec(), b"b3".to_vec()),
        (b"c".to_vec(), b"c3".to_vec()),
    ]);
    assert_eq!(
        Storage::<DummyLockManager>::check_key_ranges(&ranges, false),
        true
    );

    let ranges = make_ranges(vec![
        (b"a".to_vec(), vec![]),
        (b"b".to_vec(), vec![]),
        (b"c".to_vec(), vec![]),
    ]);
    assert_eq!(
        Storage::<DummyLockManager>::check_key_ranges(&ranges, false),
        true
    );

    let ranges = make_ranges(vec![
        (b"a3".to_vec(), b"a".to_vec()),
        (b"b3".to_vec(), b"b".to_vec()),
        (b"c3".to_vec(), b"c".to_vec()),
    ]);
    assert_eq!(
        Storage::<DummyLockManager>::check_key_ranges(&ranges, false),
        false
    );

    // if end_key is omitted, the next start_key is used instead. so, false is returned.
    let ranges = make_ranges(vec![
        (b"c".to_vec(), vec![]),
        (b"b".to_vec(), vec![]),
        (b"a".to_vec(), vec![]),
    ]);
    assert_eq!(
        Storage::<DummyLockManager>::check_key_ranges(&ranges, false),
        false
    );

    let ranges = make_ranges(vec![
        (b"a3".to_vec(), b"a".to_vec()),
        (b"b3".to_vec(), b"b".to_vec()),
        (b"c3".to_vec(), b"c".to_vec()),
    ]);
    assert_eq!(
        Storage::<DummyLockManager>::check_key_ranges(&ranges, true),
        true
    );

    let ranges = make_ranges(vec![
        (b"c3".to_vec(), vec![]),
        (b"b3".to_vec(), vec![]),
        (b"a3".to_vec(), vec![]),
    ]);
    assert_eq!(
        Storage::<DummyLockManager>::check_key_ranges(&ranges, true),
        true
    );

    let ranges = make_ranges(vec![
        (b"a".to_vec(), b"a3".to_vec()),
        (b"b".to_vec(), b"b3".to_vec()),
        (b"c".to_vec(), b"c3".to_vec()),
    ]);
    assert_eq!(
        Storage::<DummyLockManager>::check_key_ranges(&ranges, true),
        false
    );

    let ranges = make_ranges(vec![
        (b"a3".to_vec(), vec![]),
        (b"b3".to_vec(), vec![]),
        (b"c3".to_vec(), vec![]),
    ]);
    assert_eq!(
        Storage::<DummyLockManager>::check_key_ranges(&ranges, true),
        false
    );
}

#[test]
fn test_raw_batch_scan() {
    let mut storage = TestStorageBuilder::new(DummyLockManager).build().unwrap();
    let test_data = vec![
        (b"a".to_vec(), b"aa".to_vec()),
        (b"a1".to_vec(), b"aa11".to_vec()),
        (b"a2".to_vec(), b"aa22".to_vec()),
        (b"a3".to_vec(), b"aa33".to_vec()),
        (b"b".to_vec(), b"bb".to_vec()),
        (b"b1".to_vec(), b"bb11".to_vec()),
        (b"b2".to_vec(), b"bb22".to_vec()),
        (b"b3".to_vec(), b"bb33".to_vec()),
        (b"c".to_vec(), b"cc".to_vec()),
        (b"c1".to_vec(), b"cc11".to_vec()),
        (b"c2".to_vec(), b"cc22".to_vec()),
        (b"c3".to_vec(), b"cc33".to_vec()),
        (b"d".to_vec(), b"dd".to_vec()),
        (b"d1".to_vec(), b"dd11".to_vec()),
        (b"d2".to_vec(), b"dd22".to_vec()),
        (b"d3".to_vec(), b"dd33".to_vec()),
        (b"e".to_vec(), b"ee".to_vec()),
        (b"e1".to_vec(), b"ee11".to_vec()),
        (b"e2".to_vec(), b"ee22".to_vec()),
        (b"e3".to_vec(), b"ee33".to_vec()),
    ];
    // Write key-value pairs in batch
    storage
        .raw_batch_put(Context::default(), "".to_string(), test_data.clone())
        .unwrap();

    // Verify pairs exist
    let keys = test_data.iter().map(|(k, _)| k.clone()).collect();
    let results = test_data.into_iter().map(|(k, v)| Some((k, v))).collect();
    expect_multi_values(
        results,
        storage.raw_batch_get(Context::default(), "".to_string(), keys),
    );

    let results = vec![
        Some((b"a".to_vec(), b"aa".to_vec())),
        Some((b"a1".to_vec(), b"aa11".to_vec())),
        Some((b"a2".to_vec(), b"aa22".to_vec())),
        Some((b"a3".to_vec(), b"aa33".to_vec())),
        Some((b"b".to_vec(), b"bb".to_vec())),
        Some((b"b1".to_vec(), b"bb11".to_vec())),
        Some((b"b2".to_vec(), b"bb22".to_vec())),
        Some((b"b3".to_vec(), b"bb33".to_vec())),
        Some((b"c".to_vec(), b"cc".to_vec())),
        Some((b"c1".to_vec(), b"cc11".to_vec())),
        Some((b"c2".to_vec(), b"cc22".to_vec())),
        Some((b"c3".to_vec(), b"cc33".to_vec())),
        Some((b"d".to_vec(), b"dd".to_vec())),
    ];
    let ranges: Vec<libra_kv::kv::KeyRange> = vec![b"a".to_vec(), b"b".to_vec(), b"c".to_vec()]
        .into_iter()
        .map(|k| {
            let mut range = libra_kv::kv::KeyRange::default();
            range.set_start_key(k);
            range
        })
        .collect();
    expect_multi_values(
        results,
        storage.raw_batch_scan(
            Context::default(),
            "".to_string(),
            ranges.clone(),
            5,
            false,
            false,
        ),
    );

    let results = vec![
        Some((b"a".to_vec(), vec![])),
        Some((b"a1".to_vec(), vec![])),
        Some((b"a2".to_vec(), vec![])),
        Some((b"a3".to_vec(), vec![])),
        Some((b"b".to_vec(), vec![])),
        Some((b"b1".to_vec(), vec![])),
        Some((b"b2".to_vec(), vec![])),
        Some((b"b3".to_vec(), vec![])),
        Some((b"c".to_vec(), vec![])),
        Some((b"c1".to_vec(), vec![])),
        Some((b"c2".to_vec(), vec![])),
        Some((b"c3".to_vec(), vec![])),
        Some((b"d".to_vec(), vec![])),
    ];
    expect_multi_values(
        results,
        storage.raw_batch_scan(
            Context::default(),
            "".to_string(),
            ranges.clone(),
            5,
            true,
            false,
        ),
    );

    let results = vec![
        Some((b"a".to_vec(), b"aa".to_vec())),
        Some((b"a1".to_vec(), b"aa11".to_vec())),
        Some((b"a2".to_vec(), b"aa22".to_vec())),
        Some((b"b".to_vec(), b"bb".to_vec())),
        Some((b"b1".to_vec(), b"bb11".to_vec())),
        Some((b"b2".to_vec(), b"bb22".to_vec())),
        Some((b"c".to_vec(), b"cc".to_vec())),
        Some((b"c1".to_vec(), b"cc11".to_vec())),
        Some((b"c2".to_vec(), b"cc22".to_vec())),
    ];
    expect_multi_values(
        results,
        storage.raw_batch_scan(
            Context::default(),
            "".to_string(),
            ranges.clone(),
            3,
            false,
            false,
        ),
    );

    let results = vec![
        Some((b"a".to_vec(), vec![])),
        Some((b"a1".to_vec(), vec![])),
        Some((b"a2".to_vec(), vec![])),
        Some((b"b".to_vec(), vec![])),
        Some((b"b1".to_vec(), vec![])),
        Some((b"b2".to_vec(), vec![])),
        Some((b"c".to_vec(), vec![])),
        Some((b"c1".to_vec(), vec![])),
        Some((b"c2".to_vec(), vec![])),
    ];
    expect_multi_values(
        results,
        storage.raw_batch_scan(Context::default(), "".to_string(), ranges, 3, true, false),
    );

    let results = vec![
        Some((b"a2".to_vec(), b"aa22".to_vec())),
        Some((b"a1".to_vec(), b"aa11".to_vec())),
        Some((b"a".to_vec(), b"aa".to_vec())),
        Some((b"b2".to_vec(), b"bb22".to_vec())),
        Some((b"b1".to_vec(), b"bb11".to_vec())),
        Some((b"b".to_vec(), b"bb".to_vec())),
        Some((b"c2".to_vec(), b"cc22".to_vec())),
        Some((b"c1".to_vec(), b"cc11".to_vec())),
        Some((b"c".to_vec(), b"cc".to_vec())),
    ];
    let ranges: Vec<libra_kv::kv::KeyRange> = vec![
        (b"a3".to_vec(), b"a".to_vec()),
        (b"b3".to_vec(), b"b".to_vec()),
        (b"c3".to_vec(), b"c".to_vec()),
    ]
    .into_iter()
    .map(|(s, e)| {
        let mut range = libra_kv::kv::KeyRange::default();
        range.set_start_key(s);
        range.set_end_key(e);
        range
    })
    .collect();
    expect_multi_values(
        results,
        storage.raw_batch_scan(Context::default(), "".to_string(), ranges, 5, false, true),
    );

    let results = vec![
        Some((b"c2".to_vec(), b"cc22".to_vec())),
        Some((b"c1".to_vec(), b"cc11".to_vec())),
        Some((b"b2".to_vec(), b"bb22".to_vec())),
        Some((b"b1".to_vec(), b"bb11".to_vec())),
        Some((b"a2".to_vec(), b"aa22".to_vec())),
        Some((b"a1".to_vec(), b"aa11".to_vec())),
    ];
    let ranges: Vec<libra_kv::kv::KeyRange> = vec![b"c3".to_vec(), b"b3".to_vec(), b"a3".to_vec()]
        .into_iter()
        .map(|s| {
            let mut range = libra_kv::kv::KeyRange::default();
            range.set_start_key(s);
            range
        })
        .collect();
    expect_multi_values(
        results,
        storage.raw_batch_scan(Context::default(), "".to_string(), ranges, 2, false, true),
    );

    let results = vec![
        Some((b"a2".to_vec(), vec![])),
        Some((b"a1".to_vec(), vec![])),
        Some((b"a".to_vec(), vec![])),
        Some((b"b2".to_vec(), vec![])),
        Some((b"b1".to_vec(), vec![])),
        Some((b"b".to_vec(), vec![])),
        Some((b"c2".to_vec(), vec![])),
        Some((b"c1".to_vec(), vec![])),
        Some((b"c".to_vec(), vec![])),
    ];
    let ranges: Vec<libra_kv::kv::KeyRange> = vec![
        (b"a3".to_vec(), b"a".to_vec()),
        (b"b3".to_vec(), b"b".to_vec()),
        (b"c3".to_vec(), b"c".to_vec()),
    ]
    .into_iter()
    .map(|(s, e)| {
        let mut range = libra_kv::kv::KeyRange::default();
        range.set_start_key(s);
        range.set_end_key(e);
        range
    })
    .collect();
    expect_multi_values(
        results,
        storage.raw_batch_scan(Context::default(), "".to_string(), ranges, 5, true, true),
    );
}

#[test]
fn test_scan_lock() {
    let mut storage = TestStorageBuilder::new(DummyLockManager).build().unwrap();
    expect_cmd_ok(storage.sched_txn_command(Prewrite::with_defaults(
        vec![
            Mutation::Put((Key::from_raw(b"x"), b"foo".to_vec())),
            Mutation::Put((Key::from_raw(b"y"), b"foo".to_vec())),
            Mutation::Put((Key::from_raw(b"z"), b"foo".to_vec())),
        ],
        b"x".to_vec(),
        ts(100),
    )));
    expect_cmd_ok(storage.sched_txn_command(Prewrite::new(
        vec![
            Mutation::Put((Key::from_raw(b"a"), b"foo".to_vec())),
            Mutation::Put((Key::from_raw(b"b"), b"foo".to_vec())),
            Mutation::Put((Key::from_raw(b"c"), b"foo".to_vec())),
        ],
        b"c".to_vec(),
        ts(101),
        123,
        false,
        3,
        ts(0),
        None,
        Context::default(),
    )));

    let (lock_a, lock_b, lock_c, lock_x, lock_y, lock_z) = (
        {
            let mut lock = LockInfo::default();
            lock.set_primary_lock(b"c".to_vec());
            lock.set_lock_version(101);
            lock.set_key(b"a".to_vec());
            lock.set_lock_ttl(123);
            lock.set_txn_size(3);
            lock
        },
        {
            let mut lock = LockInfo::default();
            lock.set_primary_lock(b"c".to_vec());
            lock.set_lock_version(101);
            lock.set_key(b"b".to_vec());
            lock.set_lock_ttl(123);
            lock.set_txn_size(3);
            lock
        },
        {
            let mut lock = LockInfo::default();
            lock.set_primary_lock(b"c".to_vec());
            lock.set_lock_version(101);
            lock.set_key(b"c".to_vec());
            lock.set_lock_ttl(123);
            lock.set_txn_size(3);
            lock
        },
        {
            let mut lock = LockInfo::default();
            lock.set_primary_lock(b"x".to_vec());
            lock.set_lock_version(100);
            lock.set_key(b"x".to_vec());
            lock
        },
        {
            let mut lock = LockInfo::default();
            lock.set_primary_lock(b"x".to_vec());
            lock.set_lock_version(100);
            lock.set_key(b"y".to_vec());
            lock
        },
        {
            let mut lock = LockInfo::default();
            lock.set_primary_lock(b"x".to_vec());
            lock.set_lock_version(100);
            lock.set_key(b"z".to_vec());
            lock
        },
    );

    assert_eq!(
        expect_cmd_ok(storage.sched_txn_command(ScanLock::new(
            ts(99),
            None,
            10,
            Context::default()
        ))),
        ProcessResult::Locks(vec![])
    );
    assert_eq!(
        expect_cmd_ok(storage.sched_txn_command(ScanLock::new(
            ts(100),
            None,
            10,
            Context::default()
        ))),
        ProcessResult::Locks(vec![lock_x.clone(), lock_y.clone(), lock_z.clone()])
    );
    assert_eq!(
        expect_cmd_ok(storage.sched_txn_command(ScanLock::new(
            ts(100),
            Some(Key::from_raw(b"a")),
            10,
            Context::default()
        ))),
        ProcessResult::Locks(vec![lock_x.clone(), lock_y.clone(), lock_z.clone()])
    );
    assert_eq!(
        expect_cmd_ok(storage.sched_txn_command(ScanLock::new(
            ts(100),
            Some(Key::from_raw(b"y")),
            10,
            Context::default()
        ))),
        ProcessResult::Locks(vec![lock_y.clone(), lock_z.clone()])
    );
    assert_eq!(
        expect_cmd_ok(storage.sched_txn_command(ScanLock::new(
            ts(101),
            None,
            10,
            Context::default()
        ))),
        ProcessResult::Locks(vec![
            lock_a.clone(),
            lock_b.clone(),
            lock_c.clone(),
            lock_x.clone(),
            lock_y.clone(),
            lock_z.clone(),
        ])
    );
    assert_eq!(
        expect_cmd_ok(storage.sched_txn_command(ScanLock::new(
            ts(101),
            None,
            4,
            Context::default()
        ))),
        ProcessResult::Locks(vec![lock_a, lock_b.clone(), lock_c.clone(), lock_x.clone()])
    );
    assert_eq!(
        expect_cmd_ok(storage.sched_txn_command(ScanLock::new(
            ts(101),
            Some(Key::from_raw(b"b")),
            4,
            Context::default()
        ))),
        ProcessResult::Locks(vec![
            lock_b.clone(),
            lock_c.clone(),
            lock_x.clone(),
            lock_y.clone(),
        ])
    );
    assert_eq!(
        expect_cmd_ok(storage.sched_txn_command(ScanLock::new(
            ts(101),
            Some(Key::from_raw(b"b")),
            0,
            Context::default()
        ))),
        ProcessResult::Locks(vec![lock_b, lock_c, lock_x, lock_y, lock_z])
    );
}

#[test]
fn test_resolve_lock() {
    let mut storage = TestStorageBuilder::new(DummyLockManager).build().unwrap();

    // These locks (transaction ts=99) are not going to be resolved.
    expect_cmd_ok(storage.sched_txn_command(Prewrite::with_defaults(
        vec![
            Mutation::Put((Key::from_raw(b"a"), b"foo".to_vec())),
            Mutation::Put((Key::from_raw(b"b"), b"foo".to_vec())),
            Mutation::Put((Key::from_raw(b"c"), b"foo".to_vec())),
        ],
        b"c".to_vec(),
        ts(99),
    )));

    let (lock_a, lock_b, lock_c) = (
        {
            let mut lock = LockInfo::default();
            lock.set_primary_lock(b"c".to_vec());
            lock.set_lock_version(99);
            lock.set_key(b"a".to_vec());
            lock
        },
        {
            let mut lock = LockInfo::default();
            lock.set_primary_lock(b"c".to_vec());
            lock.set_lock_version(99);
            lock.set_key(b"b".to_vec());
            lock
        },
        {
            let mut lock = LockInfo::default();
            lock.set_primary_lock(b"c".to_vec());
            lock.set_lock_version(99);
            lock.set_key(b"c".to_vec());
            lock
        },
    );

    // We should be able to resolve all locks for transaction ts=100 when there are this
    // many locks.
    let scanned_locks_coll = vec![
        1,
        RESOLVE_LOCK_BATCH_SIZE,
        RESOLVE_LOCK_BATCH_SIZE - 1,
        RESOLVE_LOCK_BATCH_SIZE + 1,
        RESOLVE_LOCK_BATCH_SIZE * 2,
        RESOLVE_LOCK_BATCH_SIZE * 2 - 1,
        RESOLVE_LOCK_BATCH_SIZE * 2 + 1,
    ];
    let is_rollback_coll = vec![
        false, // commit
        true,  // rollback
    ];
    let mut start: u64 = 100;

    for scanned_locks in scanned_locks_coll {
        for is_rollback in &is_rollback_coll {
            let mut mutations = vec![];
            for i in 0..scanned_locks {
                mutations.push(Mutation::Put((
                    Key::from_raw(format!("x{:08}", i).as_bytes()),
                    b"foo".to_vec(),
                )));
            }
            expect_cmd_ok(storage.sched_txn_command(Prewrite::with_defaults(
                mutations,
                b"x".to_vec(),
                ts(start),
            )));

            let txn_status = vec![(
                ts(start),
                if *is_rollback {
                    TimeStamp::zero() // rollback
                } else {
                    ts(start + 5) // commit, commit_ts = start_ts + 5
                },
            )];
            expect_cmd_ok(storage.sched_txn_command(ResolveLockReadPhase::new(
                txn_status,
                None,
                Context::default(),
            )));

            // All locks should be resolved except for a, b and c.
            assert_eq!(
                expect_cmd_ok(storage.sched_txn_command(ScanLock::new(
                    ts(start),
                    None,
                    0,
                    Context::default()
                ))),
                ProcessResult::Locks(vec![lock_a.clone(), lock_b.clone(), lock_c.clone()])
            );

            start += 10;
        }
    }
}

#[test]
fn test_resolve_lock_lite() {
    let mut storage = TestStorageBuilder::new(DummyLockManager).build().unwrap();

    expect_cmd_ok(storage.sched_txn_command(Prewrite::with_defaults(
        vec![
            Mutation::Put((Key::from_raw(b"a"), b"foo".to_vec())),
            Mutation::Put((Key::from_raw(b"b"), b"foo".to_vec())),
            Mutation::Put((Key::from_raw(b"c"), b"foo".to_vec())),
        ],
        b"c".to_vec(),
        ts(99),
    )));

    // Rollback key 'b' and key 'c' and left key 'a' still locked.
    let resolve_keys = vec![Key::from_raw(b"b"), Key::from_raw(b"c")];
    expect_cmd_ok(storage.sched_txn_command(ResolveLockLite::new(
        ts(99),
        TimeStamp::zero(),
        resolve_keys,
        Context::default(),
    )));

    // Check lock for key 'a'.
    let lock_a = {
        let mut lock = LockInfo::default();
        lock.set_primary_lock(b"c".to_vec());
        lock.set_lock_version(99);
        lock.set_key(b"a".to_vec());
        lock
    };
    assert_eq!(
        expect_cmd_ok(storage.sched_txn_command(ScanLock::new(
            ts(99),
            None,
            0,
            Context::default()
        ))),
        ProcessResult::Locks(vec![lock_a])
    );

    // Resolve lock for key 'a'.
    expect_cmd_ok(storage.sched_txn_command(ResolveLockLite::new(
        ts(99),
        TimeStamp::zero(),
        vec![Key::from_raw(b"a")],
        Context::default(),
    )));

    expect_cmd_ok(storage.sched_txn_command(Prewrite::with_defaults(
        vec![
            Mutation::Put((Key::from_raw(b"a"), b"foo".to_vec())),
            Mutation::Put((Key::from_raw(b"b"), b"foo".to_vec())),
            Mutation::Put((Key::from_raw(b"c"), b"foo".to_vec())),
        ],
        b"c".to_vec(),
        ts(101),
    )));

    // Commit key 'b' and key 'c' and left key 'a' still locked.
    let resolve_keys = vec![Key::from_raw(b"b"), Key::from_raw(b"c")];
    expect_cmd_ok(storage.sched_txn_command(ResolveLockLite::new(
        ts(101),
        ts(102),
        resolve_keys,
        Context::default(),
    )));

    // Check lock for key 'a'.
    let lock_a = {
        let mut lock = LockInfo::default();
        lock.set_primary_lock(b"c".to_vec());
        lock.set_lock_version(101);
        lock.set_key(b"a".to_vec());
        lock
    };
    assert_eq!(
        expect_cmd_ok(storage.sched_txn_command(ScanLock::new(
            ts(101),
            None,
            0,
            Context::default()
        ))),
        ProcessResult::Locks(vec![lock_a])
    );
}

#[test]
fn test_txn_heart_beat() {
    let mut storage = TestStorageBuilder::new(DummyLockManager).build().unwrap();

    let k = Key::from_raw(b"k");
    let v = b"v".to_vec();

    let uncommitted = TxnStatus::uncommitted;

    // No lock.
    match expect_cmd_err(storage.sched_txn_command(TxnHeartBeat::new(
        k.clone(),
        ts(10),
        100,
        Context::default(),
    ))) {
        Error::TxnLockNotFound { .. } => (),
        e => panic!("unexpected error chain: {:?}", e),
    }

    expect_cmd_ok(storage.sched_txn_command(Prewrite::with_lock_ttl(
        vec![Mutation::Put((k.clone(), v.clone()))],
        b"k".to_vec(),
        ts(10),
        100,
    )));

    let lock_with_ttl = |ttl| {
        TxnLock::new(
            LockType::Put,
            b"k".to_vec(),
            ts(10),
            ttl,
            Some(v.clone()),
            ts(0),
            0,
            ts(0),
        )
    };

    // `advise_ttl` = 90, which is less than current ttl 100. The lock's ttl will remains 100.
    assert_eq!(
        expect_cmd_ok(storage.sched_txn_command(TxnHeartBeat::new(
            k.clone(),
            ts(10),
            90,
            Context::default()
        ))),
        ProcessResult::TxnStatus(uncommitted(lock_with_ttl(100)))
    );

    // `advise_ttl` = 110, which is greater than current ttl. The lock's ttl will be updated to
    // 110.
    assert_eq!(
        expect_cmd_ok(storage.sched_txn_command(TxnHeartBeat::new(
            k.clone(),
            ts(10),
            110,
            Context::default()
        ))),
        ProcessResult::TxnStatus(uncommitted(lock_with_ttl(110)))
    );

    // Lock not match. Nothing happens except throwing an error.
    match expect_cmd_err(storage.sched_txn_command(TxnHeartBeat::new(
        k,
        ts(11),
        150,
        Context::default(),
    ))) {
        Error::TxnLockNotFound { .. } => (),
        e => panic!("unexpected error chain: {:?}", e),
    }
}

#[test]
fn test_check_txn_status() {
    let mut storage = TestStorageBuilder::new(DummyLockManager).build().unwrap();

    let k = Key::from_raw(b"k");
    let v = b"b".to_vec();

    let ts = TimeStamp::compose;
    let uncommitted = TxnStatus::uncommitted;
    let committed = TxnStatus::committed;

    // No lock and no commit info. Gets an error.
    match expect_cmd_err(storage.sched_txn_command(CheckTxnStatus::new(
        k.clone(),
        ts(9, 0),
        ts(9, 1),
        ts(9, 1),
        false,
        Context::default(),
    ))) {
        Error::TxnNotFound { .. } => (),
        e => panic!("unexpected error chain: {:?}", e),
    }

    // No lock and no commit info. If specified rollback_if_not_exist, the key will be rolled
    // back.
    assert_eq!(
        expect_cmd_ok(storage.sched_txn_command(CheckTxnStatus::new(
            k.clone(),
            ts(9, 0),
            ts(9, 1),
            ts(9, 1),
            true,
            Context::default(),
        ))),
        ProcessResult::TxnStatus(TxnStatus::LockNotExist)
    );

    // A rollback will be written, so an later-arriving prewrite will fail.
    match expect_cmd_err(storage.sched_txn_command(Prewrite::with_defaults(
        vec![Mutation::Put((k.clone(), v.clone()))],
        k.clone().into_raw().unwrap(),
        ts(9, 0),
    ))) {
        Error::WriteConflict { .. } => (),
        e => panic!("unexpected error chain: {:?}", e),
    }

    expect_cmd_ok(storage.sched_txn_command(Prewrite::new(
        vec![Mutation::Put((k.clone(), v.clone()))],
        b"k".to_vec(),
        ts(10, 0),
        100,
        false,
        3,
        ts(10, 1),
        Some(vec![b"k1".to_vec(), b"k2".to_vec()]),
        Context::default(),
    )));

    // If lock exists and not expired, returns the lock's information.
    assert_eq!(
        expect_cmd_ok(storage.sched_txn_command(CheckTxnStatus::new(
            k.clone(),
            ts(10, 0),
            TimeStamp::zero(),
            TimeStamp::zero(),
            true,
            Context::default(),
        ))),
        ProcessResult::TxnStatus(uncommitted(
            TxnLock::new(
                LockType::Put,
                b"k".to_vec(),
                ts(10, 0),
                100,
                Some(v.clone()),
                TimeStamp::zero(),
                3,
                ts(10, 1),
            )
            .use_async_commit(vec![b"k1".to_vec(), b"k2".to_vec()]),
        ))
    );

    expect_cmd_ok(storage.sched_txn_command(Commit::new(
        vec![k.clone()],
        ts(10, 0),
        ts(20, 0),
        Context::default(),
    )));

    // If the transaction is committed, returns the commit_ts.
    assert_eq!(
        expect_cmd_ok(storage.sched_txn_command(CheckTxnStatus::new(
            k.clone(),
            ts(10, 0),
            ts(12, 0),
            ts(15, 0),
            true,
            Context::default(),
        ))),
        ProcessResult::TxnStatus(committed(ts(20, 0)))
    );

    expect_cmd_ok(storage.sched_txn_command(Prewrite::with_lock_ttl(
        vec![Mutation::Put((k.clone(), v))],
        k.clone().into_raw().unwrap(),
        ts(25, 0),
        100,
    )));

    // If the lock has expired, cleanup it.
    assert_eq!(
        expect_cmd_ok(storage.sched_txn_command(CheckTxnStatus::new(
            k.clone(),
            ts(25, 0),
            ts(126, 0),
            ts(127, 0),
            true,
            Context::default(),
        ))),
        ProcessResult::TxnStatus(TxnStatus::TtlExpire)
    );

    match expect_cmd_err(storage.sched_txn_command(Commit::new(
        vec![k],
        ts(25, 0),
        ts(28, 0),
        Context::default(),
    ))) {
        Error::TxnLockNotFound { .. } => (),
        e => panic!("unexpected error chain: {:?}", e),
    }
}

#[test]
fn test_check_secondary_locks() {
    let mut storage = TestStorageBuilder::new(DummyLockManager).build().unwrap();

    let k1 = Key::from_raw(b"k1");
    let k2 = Key::from_raw(b"k2");

    expect_cmd_ok(storage.sched_txn_command(Prewrite::new(
        vec![Mutation::Lock(k1.clone()), Mutation::Lock(k2.clone())],
        b"k".to_vec(),
        ts(10),
        100,
        false,
        2,
        TimeStamp::zero(),
        None,
        Context::default(),
    )));

    // All locks exist
    let mut lock1 = LockInfo::default();
    lock1.set_primary_lock(b"k".to_vec());
    lock1.set_lock_version(10);
    lock1.set_key(b"k1".to_vec());
    lock1.set_txn_size(2);
    lock1.set_lock_ttl(100);
    lock1.set_lock_type(libra_kv::kv::Op::Lock);
    let mut lock2 = lock1.clone();
    lock2.set_key(b"k2".to_vec());

    assert_eq!(
        expect_cmd_ok(storage.sched_txn_command(CheckSecondaryLocks::new(
            vec![k1.clone(), k2.clone()],
            ts(10),
            Context::default(),
        ))),
        ProcessResult::SecondaryLocksStatus(SecondaryLocksStatus::Locked(vec![lock1, lock2]))
    );

    // One of the locks are committed
    expect_cmd_ok(storage.sched_txn_command(Commit::new(
        vec![k1.clone()],
        ts(10),
        ts(20),
        Context::default(),
    )));

    assert_eq!(
        expect_cmd_ok(storage.sched_txn_command(CheckSecondaryLocks::new(
            vec![k1, k2],
            ts(10),
            Context::default(),
        ))),
        ProcessResult::SecondaryLocksStatus(SecondaryLocksStatus::Committed(ts(20)))
    );

    // Some of the locks do not exist
    let k3 = Key::from_raw(b"k3");
    let k4 = Key::from_raw(b"k4");

    expect_cmd_ok(storage.sched_txn_command(Prewrite::new(
        vec![Mutation::Lock(k3.clone())],
        b"k".to_vec(),
        ts(30),
        100,
        false,
        2,
        TimeStamp::zero(),
        None,
        Context::default(),
    )));

    assert_eq!(
        expect_cmd_ok(storage.sched_txn_command(CheckSecondaryLocks::new(
            vec![k3, k4],
            ts(10),
            Context::default(),
        ))),
        ProcessResult::SecondaryLocksStatus(SecondaryLocksStatus::RolledBack)
    );
}

fn test_pessimistic_lock_impl(pipelined_pessimistic_lock: bool) {
    let mut storage = TestStorageBuilder::new(DummyLockManager)
        .set_pipelined_pessimistic_lock(pipelined_pessimistic_lock)
        .build()
        .unwrap();
    let (key, val) = (Key::from_raw(b"key"), b"val".to_vec());
    let (key2, val2) = (Key::from_raw(b"key2"), b"val2".to_vec());

    // Key not exist
    for &return_values in &[false, true] {
        let pessimistic_lock_res = if return_values {
            PessimisticLockRes::Values(vec![None])
        } else {
            PessimisticLockRes::Empty
        };

        assert_eq!(
            expect_cmd_ok(storage.sched_txn_command(new_acquire_pessimistic_lock_command(
                vec![(key.clone(), false)],
                10,
                10,
                return_values,
            ))),
            ProcessResult::PessimisticLockRes(Ok(if return_values {
                PessimisticLockRes::Values(vec![None])
            } else {
                PessimisticLockRes::Empty
            }))
        );

        // Duplicated command
        assert_eq!(
            expect_cmd_ok(storage.sched_txn_command(new_acquire_pessimistic_lock_command(
                vec![(key.clone(), false)],
                10,
                10,
                return_values,
            ))),
            ProcessResult::PessimisticLockRes(Ok(pessimistic_lock_res))
        );

        delete_pessimistic_lock(&mut storage, key.clone(), 10, 10);
    }

    assert_eq!(
        expect_cmd_ok(storage.sched_txn_command(new_acquire_pessimistic_lock_command(
            vec![(key.clone(), false)],
            10,
            10,
            false,
        ))),
        ProcessResult::PessimisticLockRes(Ok(PessimisticLockRes::Empty))
    );

    // KeyIsLocked: the request parks on the lock manager, which here drops it.
    for &return_values in &[false, true] {
        match storage.sched_txn_command(new_acquire_pessimistic_lock_command(
            vec![(key.clone(), false)],
            20,
            20,
            return_values,
        )) {
            SchedOutcome::WaitingForLock => (),
            other => panic!("unexpected outcome: {:?}", other),
        }
    }

    // Put key and key2.
    expect_cmd_ok(storage.sched_txn_command(PrewritePessimistic::new(
        vec![
            (Mutation::Put((key.clone(), val.clone())), true),
            (Mutation::Put((key2.clone(), val2.clone())), false),
        ],
        key.clone().into_raw().unwrap(),
        ts(10),
        3000,
        ts(10),
        1,
        TimeStamp::zero(),
        None,
        Context::default(),
    )));
    expect_cmd_ok(storage.sched_txn_command(Commit::new(
        vec![key.clone(), key2.clone()],
        ts(10),
        ts(20),
        Context::default(),
    )));

    // WriteConflict
    for &return_values in &[false, true] {
        match expect_cmd_err(storage.sched_txn_command(new_acquire_pessimistic_lock_command(
            vec![(key.clone(), false)],
            15,
            15,
            return_values,
        ))) {
            Error::WriteConflict { .. } => (),
            e => panic!("unexpected error chain: {:?}", e),
        }
    }

    // Return multiple values
    for &return_values in &[false, true] {
        let pessimistic_lock_res = if return_values {
            PessimisticLockRes::Values(vec![Some(val.clone()), Some(val2.clone()), None])
        } else {
            PessimisticLockRes::Empty
        };
        assert_eq!(
            expect_cmd_ok(storage.sched_txn_command(new_acquire_pessimistic_lock_command(
                vec![
                    (key.clone(), false),
                    (key2.clone(), false),
                    (Key::from_raw(b"key3"), false),
                ],
                30,
                30,
                return_values,
            ))),
            ProcessResult::PessimisticLockRes(Ok(pessimistic_lock_res))
        );

        delete_pessimistic_lock(&mut storage, key.clone(), 30, 30);
    }
}

#[test]
fn test_pessimistic_lock() {
    test_pessimistic_lock_impl(false);
    test_pessimistic_lock_impl(true);
}

pub enum Msg {
    WaitFor {
        start_ts: TimeStamp,
        lock: LmLock,
        pr: ProcessResult,
        is_first_lock: bool,
        timeout: Option<WaitTimeout>,
    },
    WakeUp {
        lock_ts: TimeStamp,
        hashes: Vec<u64>,
        commit_ts: TimeStamp,
        is_pessimistic_txn: bool,
    },
}

// `ProxyLockMgr` sends all msgs it received to `Sender`.
// It's used to check whether we send right messages to the lock manager.
pub struct ProxyLockMgr {
    tx: std::sync::mpsc::Sender<Msg>,
    has_waiter: bool,
}

impl ProxyLockMgr {
    pub fn new(tx: std::sync::mpsc::Sender<Msg>) -> Self {
        Self {
            tx,
            has_waiter: false,
        }
    }

    pub fn set_has_waiter(&mut self, has_waiter: bool) {
        self.has_waiter = has_waiter;
    }
}

impl LockManager for ProxyLockMgr {
    fn wait_for(
        &self,
        start_ts: TimeStamp,
        lock: LmLock,
        pr: ProcessResult,
        is_first_lock: bool,
        timeout: Option<WaitTimeout>,
    ) {
        self.tx
            .send(Msg::WaitFor {
                start_ts,
                lock,
                pr,
                is_first_lock,
                timeout,
            })
            .unwrap();
    }

    fn wake_up(
        &self,
        lock_ts: TimeStamp,
        hashes: Vec<u64>,
        commit_ts: TimeStamp,
        is_pessimistic_txn: bool,
    ) {
        self.tx
            .send(Msg::WakeUp {
                lock_ts,
                hashes,
                commit_ts,
                is_pessimistic_txn,
            })
            .unwrap();
    }

    fn has_waiter(&self) -> bool {
        self.has_waiter
    }
}

// Test whether `Storage` sends right wait-for-lock msgs to the lock manager.
#[test]
fn validate_wait_for_lock_msg() {
    let (msg_tx, msg_rx) = std::sync::mpsc::channel();
    let mut storage = TestStorageBuilder::from_engine_and_lock_mgr(
        TestEngineBuilder::new().build().unwrap(),
        ProxyLockMgr::new(msg_tx),
    )
    .build()
    .unwrap();

    let (k, v) = (b"k".to_vec(), b"v".to_vec());
    // Write lock-k.
    expect_cmd_ok(storage.sched_txn_command(Prewrite::with_defaults(
        vec![Mutation::Put((Key::from_raw(&k), v))],
        k.clone(),
        ts(10),
    )));
    // No wait for msg
    assert!(msg_rx.try_recv().is_err());

    // Meet lock-k.
    match storage.sched_txn_command(AcquirePessimisticLock::new(
        vec![(Key::from_raw(b"foo"), false), (Key::from_raw(&k), false)],
        k.clone(),
        ts(20),
        3000,
        true,
        ts(20),
        Some(WaitTimeout::Millis(100)),
        false,
        ts(21),
        Context::default(),
    )) {
        SchedOutcome::WaitingForLock => (),
        other => panic!("unexpected outcome: {:?}", other),
    }

    let msg = msg_rx.try_recv().unwrap();
    // Check msg validation.
    match msg {
        Msg::WaitFor {
            start_ts,
            pr,
            lock,
            is_first_lock,
            timeout,
        } => {
            assert_eq!(start_ts, TimeStamp(20));
            assert_eq!(
                lock,
                LmLock {
                    ts: ts(10),
                    hash: Key::from_raw(&k).gen_hash(),
                }
            );
            assert_eq!(is_first_lock, true);
            assert_eq!(timeout, Some(WaitTimeout::Millis(100)));
            match pr {
                ProcessResult::PessimisticLockRes(res) => match res {
                    Err(Error::KeyIsLocked(info)) => {
                        assert_eq!(info.get_key(), &k);
                        assert_eq!(info.get_primary_lock(), &k);
                        assert_eq!(info.get_lock_version(), 10);
                    }
                    _ => panic!("unexpected error"),
                },
                _ => panic!("unexpected process result"),
            };
        }
        _ => panic!("unexpected msg"),
    }
}

// Test whether `Storage` sends right wake-up msgs to the lock manager.
#[test]
fn validate_wake_up_msg() {
    fn assert_wake_up_msg_eq(
        msg: Msg,
        expected_lock_ts: TimeStamp,
        expected_hashes: Vec<u64>,
        expected_commit_ts: TimeStamp,
        expected_is_pessimistic_txn: bool,
    ) {
        match msg {
            Msg::WakeUp {
                lock_ts,
                hashes,
                commit_ts,
                is_pessimistic_txn,
            } => {
                assert_eq!(lock_ts, expected_lock_ts);
                assert_eq!(hashes, expected_hashes);
                assert_eq!(commit_ts, expected_commit_ts);
                assert_eq!(is_pessimistic_txn, expected_is_pessimistic_txn);
            }
            _ => panic!("unexpected msg"),
        }
    }

    let (msg_tx, msg_rx) = std::sync::mpsc::channel();
    let mut lock_mgr = ProxyLockMgr::new(msg_tx);
    lock_mgr.set_has_waiter(true);
    let mut storage = TestStorageBuilder::from_engine_and_lock_mgr(
        TestEngineBuilder::new().build().unwrap(),
        lock_mgr,
    )
    .build()
    .unwrap();

    let keys = vec![
        Key::from_raw(b"a"),
        Key::from_raw(b"b"),
        Key::from_raw(b"c"),
    ];
    let key_hashes: Vec<u64> = keys.iter().map(|k| k.gen_hash()).collect();

    // Commit
    expect_cmd_ok(storage.sched_txn_command(Prewrite::with_defaults(
        keys.iter()
            .map(|k| Mutation::Put((k.clone(), b"v".to_vec())))
            .collect(),
        keys[0].clone().into_raw().unwrap(),
        ts(10),
    )));
    // If locks don't exist, hashes of released locks should be empty.
    for empty_hashes in &[false, true] {
        expect_cmd_ok(storage.sched_txn_command(Commit::new(
            keys.clone(),
            ts(10),
            ts(20),
            Context::default(),
        )));

        let msg = msg_rx.recv().unwrap();
        let hashes = if *empty_hashes {
            Vec::new()
        } else {
            key_hashes.clone()
        };
        assert_wake_up_msg_eq(msg, ts(10), hashes, ts(20), false);
    }

    // Cleanup
    for pessimistic in &[false, true] {
        let mut start_ts = TimeStamp(30);
        if *pessimistic {
            start_ts.incr();
            assert_eq!(
                expect_cmd_ok(storage.sched_txn_command(new_acquire_pessimistic_lock_command(
                    keys[..1].iter().map(|k| (k.clone(), false)).collect(),
                    start_ts.0,
                    start_ts.0,
                    false,
                ))),
                ProcessResult::PessimisticLockRes(Ok(PessimisticLockRes::Empty))
            );
        } else {
            expect_cmd_ok(storage.sched_txn_command(Prewrite::with_defaults(
                keys[..1]
                    .iter()
                    .map(|k| Mutation::Put((k.clone(), b"v".to_vec())))
                    .collect(),
                keys[0].clone().into_raw().unwrap(),
                start_ts,
            )));
        }
        for empty_hashes in &[false, true] {
            expect_cmd_ok(storage.sched_txn_command(Cleanup::new(
                keys[0].clone(),
                start_ts,
                TimeStamp::max_value(),
                Context::default(),
            )));

            let msg = msg_rx.recv().unwrap();
            let (hashes, pessimistic) = if *empty_hashes {
                (Vec::new(), false)
            } else {
                (key_hashes[..1].to_vec(), *pessimistic)
            };
            assert_wake_up_msg_eq(msg, start_ts, hashes, ts(0), pessimistic);
        }
    }

    // Rollback
    for pessimistic in &[false, true] {
        let mut start_ts = TimeStamp(40);
        if *pessimistic {
            start_ts.incr();
            expect_cmd_ok(storage.sched_txn_command(new_acquire_pessimistic_lock_command(
                keys.iter().map(|k| (k.clone(), false)).collect(),
                start_ts.0,
                start_ts.0,
                false,
            )));
        } else {
            expect_cmd_ok(storage.sched_txn_command(Prewrite::with_defaults(
                keys.iter()
                    .map(|k| Mutation::Put((k.clone(), b"v".to_vec())))
                    .collect(),
                keys[0].clone().into_raw().unwrap(),
                start_ts,
            )));
        }
        for empty_hashes in &[false, true] {
            expect_cmd_ok(storage.sched_txn_command(Rollback::new(
                keys.clone(),
                start_ts,
                Context::default(),
            )));

            let msg = msg_rx.recv().unwrap();
            let (hashes, pessimistic) = if *empty_hashes {
                (Vec::new(), false)
            } else {
                (key_hashes.clone(), *pessimistic)
            };
            assert_wake_up_msg_eq(msg, start_ts, hashes, ts(0), pessimistic);
        }
    }

    // PessimisticRollback
    expect_cmd_ok(storage.sched_txn_command(new_acquire_pessimistic_lock_command(
        keys.iter().map(|k| (k.clone(), false)).collect(),
        50,
        50,
        false,
    )));
    for empty_hashes in &[false, true] {
        expect_cmd_ok(storage.sched_txn_command(PessimisticRollback::new(
            keys.clone(),
            ts(50),
            ts(50),
            Context::default(),
        )));

        let msg = msg_rx.recv().unwrap();
        let (hashes, pessimistic) = if *empty_hashes {
            (Vec::new(), false)
        } else {
            (key_hashes.clone(), true)
        };
        assert_wake_up_msg_eq(msg, ts(50), hashes, ts(0), pessimistic);
    }

    // ResolveLockLite
    for commit in &[false, true] {
        let mut start_ts = TimeStamp(60);
        let commit_ts = if *commit {
            start_ts.incr();
            start_ts.next()
        } else {
            TimeStamp::zero()
        };
        expect_cmd_ok(storage.sched_txn_command(Prewrite::with_defaults(
            keys.iter()
                .map(|k| Mutation::Put((k.clone(), b"v".to_vec())))
                .collect(),
            keys[0].clone().into_raw().unwrap(),
            start_ts,
        )));
        for empty_hashes in &[false, true] {
            expect_cmd_ok(storage.sched_txn_command(ResolveLockLite::new(
                start_ts,
                commit_ts,
                keys.clone(),
                Context::default(),
            )));

            let msg = msg_rx.recv().unwrap();
            let hashes = if *empty_hashes {
                Vec::new()
            } else {
                key_hashes.clone()
            };
            assert_wake_up_msg_eq(msg, start_ts, hashes, commit_ts, false);
        }
    }

    // ResolveLock
    let mut txn_status = Vec::new();
    expect_cmd_ok(storage.sched_txn_command(new_acquire_pessimistic_lock_command(
        keys.iter().map(|k| (k.clone(), false)).collect(),
        70,
        70,
        false,
    )));
    // Rollback start_ts=70
    txn_status.push((TimeStamp(70), TimeStamp::zero()));
    let committed_keys = vec![
        Key::from_raw(b"d"),
        Key::from_raw(b"e"),
        Key::from_raw(b"f"),
    ];
    let committed_key_hashes: Vec<u64> = committed_keys.iter().map(|k| k.gen_hash()).collect();
    // Commit start_ts=75
    expect_cmd_ok(storage.sched_txn_command(Prewrite::with_defaults(
        committed_keys
            .iter()
            .map(|k| Mutation::Put((k.clone(), b"v".to_vec())))
            .collect(),
        committed_keys[0].clone().into_raw().unwrap(),
        ts(75),
    )));
    txn_status.push((TimeStamp(75), TimeStamp(76)));
    expect_cmd_ok(storage.sched_txn_command(ResolveLockReadPhase::new(
        txn_status,
        None,
        Context::default(),
    )));

    let mut msg1 = msg_rx.recv().unwrap();
    let mut msg2 = msg_rx.recv().unwrap();
    match msg1 {
        Msg::WakeUp { lock_ts, .. } => {
            if lock_ts != TimeStamp(70) {
                // Let msg1 be the msg of the rolled back transaction.
                std::mem::swap(&mut msg1, &mut msg2);
            }
            assert_wake_up_msg_eq(msg1, ts(70), key_hashes, ts(0), true);
            assert_wake_up_msg_eq(msg2, ts(75), committed_key_hashes, ts(76), false);
        }
        _ => panic!("unexpect msg"),
    }

    // CheckTxnStatus
    let key = Key::from_raw(b"k");
    let start_ts = TimeStamp::compose(100, 0);
    expect_cmd_ok(storage.sched_txn_command(Prewrite::with_lock_ttl(
        vec![Mutation::Put((key.clone(), b"v".to_vec()))],
        key.clone().into_raw().unwrap(),
        start_ts,
        100,
    )));

    // Not expire
    assert_eq!(
        expect_cmd_ok(storage.sched_txn_command(CheckTxnStatus::new(
            key.clone(),
            start_ts,
            TimeStamp::compose(110, 0),
            TimeStamp::compose(150, 0),
            false,
            Context::default(),
        ))),
        ProcessResult::TxnStatus(TxnStatus::uncommitted(TxnLock::new(
            LockType::Put,
            b"k".to_vec(),
            start_ts,
            100,
            Some(b"v".to_vec()),
            TimeStamp::zero(),
            0,
            TimeStamp::zero(),
        )))
    );
    // No msg
    assert!(msg_rx.try_recv().is_err());

    // Expired
    assert_eq!(
        expect_cmd_ok(storage.sched_txn_command(CheckTxnStatus::new(
            key.clone(),
            start_ts,
            TimeStamp::compose(110, 0),
            TimeStamp::compose(201, 0),
            false,
            Context::default(),
        ))),
        ProcessResult::TxnStatus(TxnStatus::TtlExpire)
    );
    assert_wake_up_msg_eq(
        msg_rx.recv().unwrap(),
        start_ts,
        vec![key.gen_hash()],
        ts(0),
        false,
    );
}

#[test]
fn test_check_memory_locks() {
    let mut storage = TestStorageBuilder::new(DummyLockManager).build().unwrap();
    let key = Key::from_raw(b"key");
    let guard = storage.cm_lock_key(&key).unwrap();
    assert!(storage.cm_store_lock(
        guard,
        Some(TxnLock::new(
            LockType::Put,
            b"key".to_vec(),
            ts(10),
            100,
            Some(vec![]),
            ts(0),
            1,
            ts(20),
        )),
    ));

    let mut ctx = Context::default();
    ctx.set_isolation_level(IsolationLevel::Si);

    // Test get
    match storage.get(ctx.clone(), key.clone(), ts(100)) {
        Err(Error::KeyIsLocked(info)) => assert_eq!(info.get_key(), &b"key".to_vec()),
        r => panic!("unexpected result: {:?}", r),
    }

    // Test batch_get
    match storage.batch_get(ctx.clone(), vec![Key::from_raw(b"a"), key], ts(100)) {
        Err(Error::KeyIsLocked(info)) => assert_eq!(info.get_key(), &b"key".to_vec()),
        r => panic!("unexpected result: {:?}", r),
    }

    // Test scan
    match storage.scan(
        ctx.clone(),
        Key::from_raw(b"a"),
        None,
        10,
        0,
        ts(100),
        false,
        false,
    ) {
        Err(Error::KeyIsLocked(info)) => assert_eq!(info.get_key(), &b"key".to_vec()),
        r => panic!("unexpected result: {:?}", r),
    }

    // Test batch_get_command
    let mut req1 = GetRequest::default();
    req1.set_context(ctx.clone());
    req1.set_key(b"a".to_vec());
    req1.set_version(50);
    let mut req2 = GetRequest::default();
    req2.set_context(ctx);
    req2.set_key(b"key".to_vec());
    req2.set_version(100);
    let res = storage.batch_get_command(vec![req1, req2]).unwrap();
    assert!(res[0].is_ok());
    match res[1].as_ref().unwrap_err() {
        Error::KeyIsLocked(info) => assert_eq!(info.get_key(), &b"key".to_vec()),
        e => panic!("unexpected error: {:?}", e),
    }
}
