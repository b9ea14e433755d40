//! The pluggable lock manager: the capability the scheduler notifies when a
//! pessimistic request must wait for a lock and when commits or rollbacks
//! release locks that waiters may be parked on.  Deadlock detection and the
//! actual parking live behind this interface.

use vstd::prelude::*;

use crate::kv::WaitTimeout;
use crate::tso::TimeStamp;
use crate::types::ProcessResult;

verus! {

/// The lock a waiter is parked on: the owning transaction and the digest of
/// the contended key.
#[derive(Clone, Copy, PartialEq, Eq, Structural, Debug)]
pub struct Lock {
    pub ts: TimeStamp,
    pub hash: u64,
}

/// What the scheduler asks of a lock manager.
pub trait LockManager {
    /// Parks the transaction that started at `start_ts` until the lock is
    /// released or the timeout runs out; `pr` is the answer to deliver when
    /// the wait ends in failure.
    fn wait_for(
        &self,
        start_ts: TimeStamp,
        lock: Lock,
        pr: ProcessResult,
        is_first_lock: bool,
        timeout: Option<WaitTimeout>,
    );

    /// Wakes the waiters parked on the released locks of the transaction
    /// that started at `lock_ts`; `commit_ts` is zero when it rolled back.
    fn wake_up(
        &self,
        lock_ts: TimeStamp,
        hashes: Vec<u64>,
        commit_ts: TimeStamp,
        is_pessimistic_txn: bool,
    );

    /// Whether any waiter is parked at all; notifications may be skipped
    /// when none is.
    fn has_waiter(&self) -> bool;
}

/// A lock manager that parks nobody: waits are dropped on the floor and
/// wake-ups go nowhere.
#[derive(Clone, Copy, Debug)]
pub struct DummyLockManager;

impl LockManager for DummyLockManager {
    fn wait_for(
        &self,
        start_ts: TimeStamp,
        lock: Lock,
        pr: ProcessResult,
        is_first_lock: bool,
        timeout: Option<WaitTimeout>,
    ) {
    }

    fn wake_up(
        &self,
        lock_ts: TimeStamp,
        hashes: Vec<u64>,
        commit_ts: TimeStamp,
        is_pessimistic_txn: bool,
    ) {
    }

    fn has_waiter(&self) -> bool {
        false
    }
}

} // verus!
