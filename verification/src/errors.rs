//! The closed set of failures a storage operation can end in.  Every public
//! operation either succeeds with a typed result or fails with one of these;
//! recoverable conflicts carry what the client needs to resolve them.

use vstd::prelude::*;

use crate::kv::{LockInfo, LockInfoV};
use crate::tso::TimeStamp;

verus! {

/// The mathematical value of a storage failure.
pub enum ErrorV {
    KeyIsLocked(LockInfoV),
    WriteConflict {
        start_ts: TimeStamp,
        conflict_start_ts: TimeStamp,
        conflict_commit_ts: TimeStamp,
        key: Seq<u8>,
        primary: Seq<u8>,
    },
    TxnLockNotFound { start_ts: TimeStamp, commit_ts: TimeStamp, key: Seq<u8> },
    TxnNotFound { start_ts: TimeStamp, key: Seq<u8> },
    KeyTooLarge { size: usize, limit: usize },
    SchedTooBusy,
    InvalidCf(Seq<char>),
    EngineRequest(Seq<char>),
    DefaultNotFound { key: Seq<u8> },
    BadFormatKey,
    InvalidKeyRanges,
}

/// A storage failure.
#[derive(Debug, PartialEq)]
pub enum Error {
    /// The key is locked by an in-progress transaction; recoverable, the
    /// caller should resolve the lock and retry.
    KeyIsLocked(LockInfo),
    /// A newer committed write exists; the caller must restart the
    /// transaction with a fresh start timestamp.
    WriteConflict {
        start_ts: TimeStamp,
        conflict_start_ts: TimeStamp,
        conflict_commit_ts: TimeStamp,
        key: Vec<u8>,
        primary: Vec<u8>,
    },
    /// The expected lock is gone and no forward commit record exists; the
    /// operation is stale or already resolved.
    TxnLockNotFound { start_ts: TimeStamp, commit_ts: TimeStamp, key: Vec<u8> },
    /// No trace of the transaction exists on the queried key.
    TxnNotFound { start_ts: TimeStamp, key: Vec<u8> },
    /// The key exceeds the configured maximum size; rejected before any
    /// engine interaction.
    KeyTooLarge { size: usize, limit: usize },
    /// Transient backpressure: the scheduler's pending writes exceed the
    /// configured threshold.  Retry with backoff.
    SchedTooBusy,
    /// A raw-mode request named a column family that does not exist.
    InvalidCf(String),
    /// The engine lacks the named column family.
    EngineRequest(String),
    /// A write record points at a value the engine no longer holds.
    DefaultNotFound { key: Vec<u8> },
    /// Bytes that should have been a memcomparable key were not.
    BadFormatKey,
    /// A batch scan was asked for ranges that are not properly ordered.
    InvalidKeyRanges,
}

impl View for Error {
    type V = ErrorV;

    open spec fn view(&self) -> ErrorV {
        match self {
            Error::KeyIsLocked(info) => ErrorV::KeyIsLocked(info@),
            Error::WriteConflict { start_ts, conflict_start_ts, conflict_commit_ts, key, primary } => (
            ErrorV::WriteConflict {
                start_ts: *start_ts,
                conflict_start_ts: *conflict_start_ts,
                conflict_commit_ts: *conflict_commit_ts,
                key: key@,
                primary: primary@,
            }),
            Error::TxnLockNotFound { start_ts, commit_ts, key } => (ErrorV::TxnLockNotFound {
                start_ts: *start_ts,
                commit_ts: *commit_ts,
                key: key@,
            }),
            Error::TxnNotFound { start_ts, key } => (ErrorV::TxnNotFound {
                start_ts: *start_ts,
                key: key@,
            }),
            Error::KeyTooLarge { size, limit } => (ErrorV::KeyTooLarge {
                size: *size,
                limit: *limit,
            }),
            Error::SchedTooBusy => ErrorV::SchedTooBusy,
            Error::InvalidCf(cf) => ErrorV::InvalidCf(cf@),
            Error::EngineRequest(cf) => ErrorV::EngineRequest(cf@),
            Error::DefaultNotFound { key } => (ErrorV::DefaultNotFound { key: key@ }),
            Error::BadFormatKey => ErrorV::BadFormatKey,
            Error::InvalidKeyRanges => ErrorV::InvalidKeyRanges,
        }
    }
}

} // verus!
