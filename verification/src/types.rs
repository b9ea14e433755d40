//! The typed results a command hands back through its callback.

use vstd::prelude::*;

use crate::kv::{Lock, LockInfo};
use crate::tso::TimeStamp;

verus! {

/// The outcome of a status inquiry on a transaction.
#[derive(Debug, PartialEq)]
pub enum TxnStatus {
    /// A rollback record marks the transaction as undone.
    RolledBack,
    /// The lock outlived its time-to-live and was cleaned up.
    TtlExpire,
    /// No lock and no record existed; a protective rollback was written.
    LockNotExist,
    /// The transaction committed at this timestamp.
    Committed { commit_ts: TimeStamp },
    /// The lock is alive; its current state.
    Uncommitted { lock: Lock },
}

impl TxnStatus {
    /// A committed outcome.
    pub fn committed(commit_ts: TimeStamp) -> (r: TxnStatus)
        ensures
            r == (TxnStatus::Committed { commit_ts }),
    {
        TxnStatus::Committed { commit_ts }
    }

    /// A still-running outcome carrying the live lock.
    pub fn uncommitted(lock: Lock) -> (r: TxnStatus)
        ensures
            r == (TxnStatus::Uncommitted { lock }),
    {
        TxnStatus::Uncommitted { lock }
    }
}

/// What acquiring a pessimistic lock returns.
#[derive(Debug, PartialEq)]
pub enum PessimisticLockRes {
    /// The values of the locked keys, in request order.
    Values(Vec<Option<Vec<u8>>>),
    /// Nothing was asked for.
    Empty,
}

/// The combined state of a transaction's secondary locks.
#[derive(Debug, PartialEq)]
pub enum SecondaryLocksStatus {
    /// All queried keys are still locked by the transaction.
    Locked(Vec<LockInfo>),
    /// At least one key already committed at this timestamp.
    Committed(TimeStamp),
    /// At least one key is rolled back or unlocked.
    RolledBack,
}

/// The typed result of a processed command.
#[derive(Debug, PartialEq)]
pub enum ProcessResult {
    /// Done, nothing to report.
    Res,
    /// A transaction status.
    TxnStatus(TxnStatus),
    /// The locks a scan found.
    Locks(Vec<LockInfo>),
    /// The outcome of a pessimistic lock request, which may itself have
    /// failed per key.
    PessimisticLockRes(Result<PessimisticLockRes, crate::errors::Error>),
    /// The status of a transaction's secondary locks.
    SecondaryLocksStatus(SecondaryLocksStatus),
}

} // verus!
