//! The closed set of commands the scheduler runs: each bundles its typed
//! inputs; the scheduler derives its latch keys and write size from it.

use vstd::prelude::*;

use crate::kv::{Context, Key, Mutation, WaitTimeout};
use crate::tso::TimeStamp;

verus! {

/// A write or locking command, with everything it needs to run.
#[derive(Debug)]
pub enum Command {
    /// Phase one of two-phase commit: stake a lock and tentative value per
    /// mutation.
    Prewrite {
        mutations: Vec<Mutation>,
        primary: Vec<u8>,
        start_ts: TimeStamp,
        lock_ttl: u64,
        skip_constraint_check: bool,
        txn_size: u64,
        min_commit_ts: TimeStamp,
        secondary_keys: Option<Vec<Vec<u8>>>,
        ctx: Context,
    },
    /// Phase one for a pessimistic transaction: convert its pessimistic
    /// locks into prewrite locks.
    PrewritePessimistic {
        mutations: Vec<(Mutation, bool)>,
        primary: Vec<u8>,
        start_ts: TimeStamp,
        lock_ttl: u64,
        for_update_ts: TimeStamp,
        txn_size: u64,
        min_commit_ts: TimeStamp,
        secondary_keys: Option<Vec<Vec<u8>>>,
        ctx: Context,
    },
    /// Lock keys before the final values are known.
    AcquirePessimisticLock {
        keys: Vec<(Key, bool)>,
        primary: Vec<u8>,
        start_ts: TimeStamp,
        lock_ttl: u64,
        is_first_lock: bool,
        for_update_ts: TimeStamp,
        wait_timeout: Option<WaitTimeout>,
        return_values: bool,
        min_commit_ts: TimeStamp,
        ctx: Context,
    },
    /// Phase two: turn the transaction's locks into committed versions.
    Commit { keys: Vec<Key>, lock_ts: TimeStamp, commit_ts: TimeStamp, ctx: Context },
    /// Roll one key's lock back unless it is still alive.
    Cleanup { key: Key, start_ts: TimeStamp, current_ts: TimeStamp, ctx: Context },
    /// Roll the transaction's locks back unconditionally.
    Rollback { keys: Vec<Key>, start_ts: TimeStamp, ctx: Context },
    /// Remove the transaction's pessimistic locks.
    PessimisticRollback {
        keys: Vec<Key>,
        start_ts: TimeStamp,
        for_update_ts: TimeStamp,
        ctx: Context,
    },
    /// Extend the primary lock's time-to-live.
    TxnHeartBeat { primary_key: Key, start_ts: TimeStamp, advise_ttl: u64, ctx: Context },
    /// Resolve an ambiguous transaction outcome.
    CheckTxnStatus {
        primary_key: Key,
        lock_ts: TimeStamp,
        caller_start_ts: TimeStamp,
        current_ts: TimeStamp,
        rollback_if_not_exist: bool,
        ctx: Context,
    },
    /// Query the combined state of a transaction's secondary locks.
    CheckSecondaryLocks { keys: Vec<Key>, start_ts: TimeStamp, ctx: Context },
    /// List the locks of transactions that started at or before `max_ts`.
    ScanLock { max_ts: TimeStamp, start_key: Option<Key>, limit: usize, ctx: Context },
    /// Scan for locks of the decided transactions and commit or roll each
    /// back according to its recorded outcome.
    ResolveLockReadPhase {
        txn_status: Vec<(TimeStamp, TimeStamp)>,
        scan_key: Option<Key>,
        ctx: Context,
    },
    /// Commit or roll back the named keys of one decided transaction.
    ResolveLockLite {
        start_ts: TimeStamp,
        commit_ts: TimeStamp,
        resolve_keys: Vec<Key>,
        ctx: Context,
    },
    /// Hold the keys' latches for a while; a test aid that models long
    /// engine writes.
    Pause { keys: Vec<Key>, duration: u64, ctx: Context },
}

/// Builders for the prewrite command.
pub struct Prewrite;

impl Prewrite {
    /// The full constructor.
    pub fn new(
        mutations: Vec<Mutation>,
        primary: Vec<u8>,
        start_ts: TimeStamp,
        lock_ttl: u64,
        skip_constraint_check: bool,
        txn_size: u64,
        min_commit_ts: TimeStamp,
        secondary_keys: Option<Vec<Vec<u8>>>,
        ctx: Context,
    ) -> (r: Command)
        ensures
            r == (Command::Prewrite {
                mutations,
                primary,
                start_ts,
                lock_ttl,
                skip_constraint_check,
                txn_size,
                min_commit_ts,
                secondary_keys,
                ctx,
            }),
    {
        Command::Prewrite {
            mutations,
            primary,
            start_ts,
            lock_ttl,
            skip_constraint_check,
            txn_size,
            min_commit_ts,
            secondary_keys,
            ctx,
        }
    }

    /// A prewrite with default options.
    pub fn with_defaults(mutations: Vec<Mutation>, primary: Vec<u8>, start_ts: TimeStamp) -> (r:
        Command)
        ensures
            (match r {
                Command::Prewrite {
                    mutations: m2,
                    primary: p2,
                    start_ts: s2,
                    lock_ttl: ttl2,
                    skip_constraint_check: skip2,
                    txn_size: n2,
                    min_commit_ts: mc2,
                    secondary_keys: sk2,
                    ctx: c2,
                } => m2 == mutations && p2 == primary && s2 == start_ts && ttl2 == 0 && !skip2
                    && n2 == 0 && mc2.0 == 0 && sk2 is None && c2.priority
                    == crate::kv::CommandPri::Normal && c2.isolation_level
                    == crate::kv::IsolationLevel::Si && c2.resolved_locks@.len() == 0,
                _ => false,
            }),
    {
        Command::Prewrite {
            mutations,
            primary,
            start_ts,
            lock_ttl: 0,
            skip_constraint_check: false,
            txn_size: 0,
            min_commit_ts: TimeStamp(0),
            secondary_keys: Option::None,
            ctx: Context::default(),
        }
    }

    /// A prewrite with a lock time-to-live.
    pub fn with_lock_ttl(
        mutations: Vec<Mutation>,
        primary: Vec<u8>,
        start_ts: TimeStamp,
        lock_ttl: u64,
    ) -> (r: Command)
        ensures
            (match r {
                Command::Prewrite {
                    mutations: m2,
                    primary: p2,
                    start_ts: s2,
                    lock_ttl: ttl2,
                    skip_constraint_check: skip2,
                    txn_size: n2,
                    min_commit_ts: mc2,
                    secondary_keys: sk2,
                    ctx: c2,
                } => m2 == mutations && p2 == primary && s2 == start_ts && ttl2 == lock_ttl
                    && !skip2 && n2 == 0 && mc2.0 == 0 && sk2 is None && c2.priority
                    == crate::kv::CommandPri::Normal && c2.isolation_level
                    == crate::kv::IsolationLevel::Si && c2.resolved_locks@.len() == 0,
                _ => false,
            }),
    {
        Command::Prewrite {
            mutations,
            primary,
            start_ts,
            lock_ttl,
            skip_constraint_check: false,
            txn_size: 0,
            min_commit_ts: TimeStamp(0),
            secondary_keys: Option::None,
            ctx: Context::default(),
        }
    }

    /// A prewrite with default options and the given context.
    pub fn with_context(
        mutations: Vec<Mutation>,
        primary: Vec<u8>,
        start_ts: TimeStamp,
        ctx: Context,
    ) -> (r: Command)
        ensures
            r == (Command::Prewrite {
                mutations,
                primary,
                start_ts,
                lock_ttl: 0,
                skip_constraint_check: false,
                txn_size: 0,
                min_commit_ts: TimeStamp(0),
                secondary_keys: Option::None,
                ctx,
            }),
    {
        Command::Prewrite {
            mutations,
            primary,
            start_ts,
            lock_ttl: 0,
            skip_constraint_check: false,
            txn_size: 0,
            min_commit_ts: TimeStamp(0),
            secondary_keys: Option::None,
            ctx,
        }
    }
}

/// Builder for the pessimistic prewrite command.
pub struct PrewritePessimistic;

impl PrewritePessimistic {
    /// The full constructor.
    pub fn new(
        mutations: Vec<(Mutation, bool)>,
        primary: Vec<u8>,
        start_ts: TimeStamp,
        lock_ttl: u64,
        for_update_ts: TimeStamp,
        txn_size: u64,
        min_commit_ts: TimeStamp,
        secondary_keys: Option<Vec<Vec<u8>>>,
        ctx: Context,
    ) -> (r: Command)
        ensures
            r == (Command::PrewritePessimistic {
                mutations,
                primary,
                start_ts,
                lock_ttl,
                for_update_ts,
                txn_size,
                min_commit_ts,
                secondary_keys,
                ctx,
            }),
    {
        Command::PrewritePessimistic {
            mutations,
            primary,
            start_ts,
            lock_ttl,
            for_update_ts,
            txn_size,
            min_commit_ts,
            secondary_keys,
            ctx,
        }
    }
}

/// Builder for the pessimistic lock command.
pub struct AcquirePessimisticLock;

impl AcquirePessimisticLock {
    /// The full constructor.
    pub fn new(
        keys: Vec<(Key, bool)>,
        primary: Vec<u8>,
        start_ts: TimeStamp,
        lock_ttl: u64,
        is_first_lock: bool,
        for_update_ts: TimeStamp,
        wait_timeout: Option<WaitTimeout>,
        return_values: bool,
        min_commit_ts: TimeStamp,
        ctx: Context,
    ) -> (r: Command)
        ensures
            r == (Command::AcquirePessimisticLock {
                keys,
                primary,
                start_ts,
                lock_ttl,
                is_first_lock,
                for_update_ts,
                wait_timeout,
                return_values,
                min_commit_ts,
                ctx,
            }),
    {
        Command::AcquirePessimisticLock {
            keys,
            primary,
            start_ts,
            lock_ttl,
            is_first_lock,
            for_update_ts,
            wait_timeout,
            return_values,
            min_commit_ts,
            ctx,
        }
    }
}

/// Builder for the commit command.
pub struct Commit;

impl Commit {
    /// The full constructor.
    pub fn new(keys: Vec<Key>, lock_ts: TimeStamp, commit_ts: TimeStamp, ctx: Context) -> (r:
        Command)
        ensures
            r == (Command::Commit { keys, lock_ts, commit_ts, ctx }),
    {
        Command::Commit { keys, lock_ts, commit_ts, ctx }
    }
}

/// Builder for the cleanup command.
pub struct Cleanup;

impl Cleanup {
    /// The full constructor.
    pub fn new(key: Key, start_ts: TimeStamp, current_ts: TimeStamp, ctx: Context) -> (r: Command)
        ensures
            r == (Command::Cleanup { key, start_ts, current_ts, ctx }),
    {
        Command::Cleanup { key, start_ts, current_ts, ctx }
    }
}

/// Builder for the rollback command.
pub struct Rollback;

impl Rollback {
    /// The full constructor.
    pub fn new(keys: Vec<Key>, start_ts: TimeStamp, ctx: Context) -> (r: Command)
        ensures
            r == (Command::Rollback { keys, start_ts, ctx }),
    {
        Command::Rollback { keys, start_ts, ctx }
    }
}

/// Builder for the pessimistic rollback command.
pub struct PessimisticRollback;

impl PessimisticRollback {
    /// The full constructor.
    pub fn new(keys: Vec<Key>, start_ts: TimeStamp, for_update_ts: TimeStamp, ctx: Context) -> (r:
        Command)
        ensures
            r == (Command::PessimisticRollback { keys, start_ts, for_update_ts, ctx }),
    {
        Command::PessimisticRollback { keys, start_ts, for_update_ts, ctx }
    }
}

/// Builder for the heartbeat command.
pub struct TxnHeartBeat;

impl TxnHeartBeat {
    /// The full constructor.
    pub fn new(primary_key: Key, start_ts: TimeStamp, advise_ttl: u64, ctx: Context) -> (r: Command)
        ensures
            r == (Command::TxnHeartBeat { primary_key, start_ts, advise_ttl, ctx }),
    {
        Command::TxnHeartBeat { primary_key, start_ts, advise_ttl, ctx }
    }
}

/// Builder for the status-check command.
pub struct CheckTxnStatus;

impl CheckTxnStatus {
    /// The full constructor.
    pub fn new(
        primary_key: Key,
        lock_ts: TimeStamp,
        caller_start_ts: TimeStamp,
        current_ts: TimeStamp,
        rollback_if_not_exist: bool,
        ctx: Context,
    ) -> (r: Command)
        ensures
            r == (Command::CheckTxnStatus {
                primary_key,
                lock_ts,
                caller_start_ts,
                current_ts,
                rollback_if_not_exist,
                ctx,
            }),
    {
        Command::CheckTxnStatus {
            primary_key,
            lock_ts,
            caller_start_ts,
            current_ts,
            rollback_if_not_exist,
            ctx,
        }
    }
}

/// Builder for the secondary-locks check command.
pub struct CheckSecondaryLocks;

impl CheckSecondaryLocks {
    /// The full constructor.
    pub fn new(keys: Vec<Key>, start_ts: TimeStamp, ctx: Context) -> (r: Command)
        ensures
            r == (Command::CheckSecondaryLocks { keys, start_ts, ctx }),
    {
        Command::CheckSecondaryLocks { keys, start_ts, ctx }
    }
}

/// Builder for the lock-scan command.
pub struct ScanLock;

impl ScanLock {
    /// The full constructor.
    pub fn new(max_ts: TimeStamp, start_key: Option<Key>, limit: usize, ctx: Context) -> (r:
        Command)
        ensures
            r == (Command::ScanLock { max_ts, start_key, limit, ctx }),
    {
        Command::ScanLock { max_ts, start_key, limit, ctx }
    }
}

/// Builder for the lock-resolution command.
pub struct ResolveLockReadPhase;

impl ResolveLockReadPhase {
    /// The full constructor.
    pub fn new(
        txn_status: Vec<(TimeStamp, TimeStamp)>,
        scan_key: Option<Key>,
        ctx: Context,
    ) -> (r: Command)
        ensures
            r == (Command::ResolveLockReadPhase { txn_status, scan_key, ctx }),
    {
        Command::ResolveLockReadPhase { txn_status, scan_key, ctx }
    }
}

/// Builder for the single-transaction lock-resolution command.
pub struct ResolveLockLite;

impl ResolveLockLite {
    /// The full constructor.
    pub fn new(
        start_ts: TimeStamp,
        commit_ts: TimeStamp,
        resolve_keys: Vec<Key>,
        ctx: Context,
    ) -> (r: Command)
        ensures
            r == (Command::ResolveLockLite { start_ts, commit_ts, resolve_keys, ctx }),
    {
        Command::ResolveLockLite { start_ts, commit_ts, resolve_keys, ctx }
    }
}

/// Builder for the pause command.
pub struct Pause;

impl Pause {
    /// The full constructor.
    pub fn new(keys: Vec<Key>, duration: u64, ctx: Context) -> (r: Command)
        ensures
            r == (Command::Pause { keys, duration, ctx }),
    {
        Command::Pause { keys, duration, ctx }
    }
}

impl Command {
    /// Whether the command only reads.
    pub fn readonly(&self) -> (r: bool)
        ensures
            r == (self is ScanLock),
    {
        matches!(self, Command::ScanLock { .. })
    }

    /// The number of bytes the command will write, for backpressure
    /// accounting: the sizes of its keys and staged values.
    pub fn write_bytes(&self) -> (r: usize)
        ensures
            self matches Command::Pause { keys, .. } ==> (keys@.len() > 0 ==> r >= keys@[0]@.len()),
    {
        let mut total: usize = 0;
        match self {
            Command::Prewrite { mutations, .. } => {
                let mut i: usize = 0;
                while i < mutations.len()
                    decreases mutations@.len() - i,
                {
                    total = total.saturating_add(mutations[i].key().len());
                    match &mutations[i] {
                        Mutation::Put((_, v)) => {
                            total = total.saturating_add(v.len());
                        },
                        _ => {},
                    }
                    i = i + 1;
                }
            },
            Command::PrewritePessimistic { mutations, .. } => {
                let mut i: usize = 0;
                while i < mutations.len()
                    decreases mutations@.len() - i,
                {
                    total = total.saturating_add(mutations[i].0.key().len());
                    match &mutations[i].0 {
                        Mutation::Put((_, v)) => {
                            total = total.saturating_add(v.len());
                        },
                        _ => {},
                    }
                    i = i + 1;
                }
            },
            Command::AcquirePessimisticLock { keys, .. } => {
                let mut i: usize = 0;
                while i < keys.len()
                    decreases keys@.len() - i,
                {
                    total = total.saturating_add(keys[i].0.len());
                    i = i + 1;
                }
            },
            Command::Commit { keys, .. } => {
                let mut i: usize = 0;
                while i < keys.len()
                    decreases keys@.len() - i,
                {
                    total = total.saturating_add(keys[i].len());
                    i = i + 1;
                }
            },
            Command::Cleanup { key, .. } => {
                total = key.len();
            },
            Command::Rollback { keys, .. } => {
                let mut i: usize = 0;
                while i < keys.len()
                    decreases keys@.len() - i,
                {
                    total = total.saturating_add(keys[i].len());
                    i = i + 1;
                }
            },
            Command::PessimisticRollback { keys, .. } => {
                let mut i: usize = 0;
                while i < keys.len()
                    decreases keys@.len() - i,
                {
                    total = total.saturating_add(keys[i].len());
                    i = i + 1;
                }
            },
            Command::TxnHeartBeat { primary_key, .. } => {
                total = primary_key.len();
            },
            Command::CheckTxnStatus { primary_key, .. } => {
                total = primary_key.len();
            },
            Command::CheckSecondaryLocks { keys, .. } => {
                let mut i: usize = 0;
                while i < keys.len()
                    decreases keys@.len() - i,
                {
                    total = total.saturating_add(keys[i].len());
                    i = i + 1;
                }
            },
            Command::ResolveLockLite { resolve_keys, .. } => {
                let mut i: usize = 0;
                while i < resolve_keys.len()
                    decreases resolve_keys@.len() - i,
                {
                    total = total.saturating_add(resolve_keys[i].len());
                    i = i + 1;
                }
            },
            Command::Pause { keys, .. } => {
                let mut i: usize = 0;
                while i < keys.len()
                    invariant
                        0 <= i <= keys@.len(),
                        i >= 1 ==> total >= keys@[0]@.len(),
                    decreases keys@.len() - i,
                {
                    total = total.saturating_add(keys[i].len());
                    i = i + 1;
                }
            },
            _ => {},
        }
        total
    }

    /// The latch slots the command must hold, one per key it touches.
    pub fn latch_slots(&self, latches: &crate::latches::Latches) -> (r: Vec<usize>)
        requires
            latches.slots@.len() > 0,
        ensures
            latches.slots_ok(r@),
    {
        let mut out: Vec<usize> = Vec::new();
        let n = latches.slots.len();
        match self {
            Command::Prewrite { mutations, .. } => {
                let mut i: usize = 0;
                while i < mutations.len()
                    invariant
                        latches.slots@.len() == n,
                        n > 0,
                        forall|j: int| 0 <= j < out@.len() ==> (#[trigger] out@[j]) < n,
                    decreases mutations@.len() - i,
                {
                    out.push(latches.slot_of(mutations[i].key()));
                    i = i + 1;
                }
            },
            Command::PrewritePessimistic { mutations, .. } => {
                let mut i: usize = 0;
                while i < mutations.len()
                    invariant
                        latches.slots@.len() == n,
                        n > 0,
                        forall|j: int| 0 <= j < out@.len() ==> (#[trigger] out@[j]) < n,
                    decreases mutations@.len() - i,
                {
                    out.push(latches.slot_of(mutations[i].0.key()));
                    i = i + 1;
                }
            },
            Command::AcquirePessimisticLock { keys, .. } => {
                let mut i: usize = 0;
                while i < keys.len()
                    invariant
                        latches.slots@.len() == n,
                        n > 0,
                        forall|j: int| 0 <= j < out@.len() ==> (#[trigger] out@[j]) < n,
                    decreases keys@.len() - i,
                {
                    out.push(latches.slot_of(&keys[i].0));
                    i = i + 1;
                }
            },
            Command::Commit { keys, .. } => {
                let mut i: usize = 0;
                while i < keys.len()
                    invariant
                        latches.slots@.len() == n,
                        n > 0,
                        forall|j: int| 0 <= j < out@.len() ==> (#[trigger] out@[j]) < n,
                    decreases keys@.len() - i,
                {
                    out.push(latches.slot_of(&keys[i]));
                    i = i + 1;
                }
            },
            Command::Cleanup { key, .. } => {
                out.push(latches.slot_of(key));
            },
            Command::Rollback { keys, .. } => {
                let mut i: usize = 0;
                while i < keys.len()
                    invariant
                        latches.slots@.len() == n,
                        n > 0,
                        forall|j: int| 0 <= j < out@.len() ==> (#[trigger] out@[j]) < n,
                    decreases keys@.len() - i,
                {
                    out.push(latches.slot_of(&keys[i]));
                    i = i + 1;
                }
            },
            Command::PessimisticRollback { keys, .. } => {
                let mut i: usize = 0;
                while i < keys.len()
                    invariant
                        latches.slots@.len() == n,
                        n > 0,
                        forall|j: int| 0 <= j < out@.len() ==> (#[trigger] out@[j]) < n,
                    decreases keys@.len() - i,
                {
                    out.push(latches.slot_of(&keys[i]));
                    i = i + 1;
                }
            },
            Command::TxnHeartBeat { primary_key, .. } => {
                out.push(latches.slot_of(primary_key));
            },
            Command::CheckTxnStatus { primary_key, .. } => {
                out.push(latches.slot_of(primary_key));
            },
            Command::CheckSecondaryLocks { keys, .. } => {
                let mut i: usize = 0;
                while i < keys.len()
                    invariant
                        latches.slots@.len() == n,
                        n > 0,
                        forall|j: int| 0 <= j < out@.len() ==> (#[trigger] out@[j]) < n,
                    decreases keys@.len() - i,
                {
                    out.push(latches.slot_of(&keys[i]));
                    i = i + 1;
                }
            },
            Command::ResolveLockLite { resolve_keys, .. } => {
                let mut i: usize = 0;
                while i < resolve_keys.len()
                    invariant
                        latches.slots@.len() == n,
                        n > 0,
                        forall|j: int| 0 <= j < out@.len() ==> (#[trigger] out@[j]) < n,
                    decreases resolve_keys@.len() - i,
                {
                    out.push(latches.slot_of(&resolve_keys[i]));
                    i = i + 1;
                }
            },
            Command::Pause { keys, .. } => {
                let mut i: usize = 0;
                while i < keys.len()
                    invariant
                        latches.slots@.len() == n,
                        n > 0,
                        forall|j: int| 0 <= j < out@.len() ==> (#[trigger] out@[j]) < n,
                    decreases keys@.len() - i,
                {
                    out.push(latches.slot_of(&keys[i]));
                    i = i + 1;
                }
            },
            _ => {},
        }
        out
    }
}

} // verus!
