//! Per-key transaction rules: staking locks, converting them to committed
//! versions, and the cleanup paths that roll them back.  Each operation works
//! on a private copy of the engine; the scheduler installs the copy only
//! when the whole command succeeded, so a command's effect is atomic.

use vstd::prelude::*;

use crate::engine::{ver_find_start, Engine};
use crate::errors::{Error, ErrorV};
use crate::kv::{
    clone_bytes, clone_bytes_opt, lock_info_of, Key, Lock, LockType, LockV, Mutation, Write,
    WriteType, WriteV, SHORT_VALUE_MAX_LEN,
};
use crate::mvcc::raw_or_empty;
use crate::store::{key_versions, store_del_spec, store_get_spec, store_put_spec, ver_first_le};
use crate::tso::TimeStamp;

verus! {

/// The persisted lock on `k`, if any.
pub open spec fn lock_of(e: Engine, k: Seq<u8>) -> Option<LockV> {
    store_get_spec(e.lock.view_seq(), k, 0)
}

/// The newest committed record of `k`, with its commit timestamp.
pub open spec fn newest_write(e: Engine, k: Seq<u8>) -> Option<(u64, WriteV)> {
    ver_first_le(key_versions(e.write.view_seq(), k), u64::MAX)
}

/// The commit record left by the transaction that started at `start_ts`.
pub open spec fn commit_record_of(e: Engine, k: Seq<u8>, start_ts: TimeStamp) -> Option<
    (u64, WriteV),
> {
    ver_find_start(key_versions(e.write.view_seq(), k), start_ts)
}

/// Whether a lock's time-to-live has run out at `current_ts`: its physical
/// start plus the TTL in milliseconds lies strictly before the present.
pub open spec fn lock_expired(l: LockV, current_ts: u64) -> bool {
    (l.ts.0 >> 18) + l.ttl < (current_ts >> 18)
}

/// The lock a prewrite stakes.
pub open spec fn prewrite_lock_v(
    kind: LockType,
    primary: Seq<u8>,
    start_ts: TimeStamp,
    ttl: u64,
    val: Option<Seq<u8>>,
    for_update_ts: TimeStamp,
    txn_size: u64,
    min_commit_ts: TimeStamp,
    secs: Option<Seq<Seq<u8>>>,
) -> LockV {
    LockV {
        lock_type: kind,
        primary: primary,
        ts: start_ts,
        ttl: ttl,
        short_value: if val is Some && val->0.len() <= SHORT_VALUE_MAX_LEN {
            val
        } else {
            Option::None
        },
        for_update_ts: for_update_ts,
        txn_size: txn_size,
        min_commit_ts: min_commit_ts,
        use_async_commit: secs is Some,
        secondaries: if secs is Some {
            secs->0
        } else {
            Seq::empty()
        },
    }
}

/// Everything but the lock and default families is unchanged, and the write
/// family too.
pub open spec fn only_lock_data_changed(a: Engine, b: Engine) -> bool {
    &&& b.has_default == a.has_default
    &&& b.has_lock == a.has_lock
    &&& b.has_write == a.has_write
    &&& b.has_raft == a.has_raft
    &&& b.write == a.write
    &&& b.raw_default == a.raw_default
    &&& b.raw_lock == a.raw_lock
    &&& b.raw_write == a.raw_write
}

/// Everything but the lock, write and default families is unchanged.
pub open spec fn only_mvcc_changed(a: Engine, b: Engine) -> bool {
    &&& b.has_default == a.has_default
    &&& b.has_lock == a.has_lock
    &&& b.has_write == a.has_write
    &&& b.has_raft == a.has_raft
    &&& b.raw_default == a.raw_default
    &&& b.raw_lock == a.raw_lock
    &&& b.raw_write == a.raw_write
}

/// Stakes the lock for one mutation of an optimistic prewrite.
///
/// Fails with `WriteConflict` where a version committed at or after
/// `start_ts` exists (unless the check is skipped), with `KeyIsLocked` where
/// another transaction holds the key.  A repeated prewrite of the same
/// transaction succeeds and changes nothing.
pub fn prewrite_key(
    eng: &mut Engine,
    m: &Mutation,
    primary: &Vec<u8>,
    start_ts: TimeStamp,
    lock_ttl: u64,
    txn_size: u64,
    min_commit_ts: TimeStamp,
    skip_constraint_check: bool,
    secondaries: Option<&Vec<Vec<u8>>>,
) -> (r: Result<(), Error>)
    requires
        old(eng).wf(),
    ensures
        final(eng).wf(),
        match r {
            Result::Ok(()) => {
                &&& old(eng).has_write && old(eng).has_lock
                &&& (!skip_constraint_check ==> (match newest_write(*old(eng), m.key_view()) {
                    Option::Some((cts, _)) => cts < start_ts.0,
                    Option::None => true,
                }))
                &&& (match lock_of(*old(eng), m.key_view()) {
                    Option::Some(l) => l.ts == start_ts && *final(eng) == *old(eng),
                    Option::None => {
                        &&& only_lock_data_changed(*old(eng), *final(eng))
                        &&& final(eng).lock.view_seq() == store_put_spec(
                            old(eng).lock.view_seq(),
                            m.key_view(),
                            0,
                            prewrite_lock_v(
                                m.lock_kind(),
                                primary@,
                                start_ts,
                                lock_ttl,
                                m.value_view(),
                                TimeStamp(0),
                                txn_size,
                                min_commit_ts,
                                match secondaries {
                                    Option::Some(s) => Option::Some(
                                        crate::kv::bytes_list_view(s@),
                                    ),
                                    Option::None => Option::None,
                                },
                            ),
                        )
                        &&& final(eng).data.view_seq() == (if m.value_view() is Some
                            && m.value_view()->0.len() > SHORT_VALUE_MAX_LEN {
                            store_put_spec(
                                old(eng).data.view_seq(),
                                m.key_view(),
                                start_ts.0,
                                m.value_view()->0,
                            )
                        } else {
                            old(eng).data.view_seq()
                        })
                    },
                })
            },
            Result::Err(e) => *final(eng) == *old(eng) && match e@ {
                ErrorV::WriteConflict {
                    start_ts: s,
                    conflict_start_ts,
                    conflict_commit_ts,
                    key,
                    primary: p,
                } => {
                    &&& !skip_constraint_check
                    &&& newest_write(*old(eng), m.key_view()) is Some
                    &&& (newest_write(*old(eng), m.key_view())->0).0 == conflict_commit_ts.0
                    &&& (newest_write(*old(eng), m.key_view())->0).1.start_ts == conflict_start_ts
                    &&& conflict_commit_ts.0 >= start_ts.0
                    &&& s == start_ts
                    &&& key == raw_or_empty(m.key_view())
                    &&& p == primary@
                },
                ErrorV::KeyIsLocked(info) => {
                    &&& lock_of(*old(eng), m.key_view()) is Some
                    &&& lock_of(*old(eng), m.key_view())->0.ts != start_ts
                    &&& info == lock_info_of(
                        lock_of(*old(eng), m.key_view())->0,
                        raw_or_empty(m.key_view()),
                    )
                },
                ErrorV::EngineRequest(_) => !old(eng).has_write || !old(eng).has_lock || !old(
                    eng,
                ).has_default,
                _ => false,
            },
        },
{
    let key = m.key();
    if !skip_constraint_check {
        match eng.seek_write(key, u64::MAX) {
            Result::Err(e) => {
                return Result::Err(e);
            },
            Result::Ok(Option::Some((cts, w))) => {
                if cts >= start_ts.0 {
                    let conflict_start_ts = w.start_ts;
                    let raw = match key.to_raw() {
                        Option::Some(raw) => raw,
                        Option::None => Vec::new(),
                    };
                    proof {
                        assert(raw@ == raw_or_empty(m.key_view()));
                    }
                    return Result::Err(Error::WriteConflict {
                        start_ts,
                        conflict_start_ts,
                        conflict_commit_ts: TimeStamp(cts),
                        key: raw,
                        primary: clone_bytes(primary),
                    });
                }
            },
            Result::Ok(Option::None) => {},
        }
    } else {
        if !eng.has_write {
            return Result::Err(Error::EngineRequest(crate::engine::cf_name_string(
                crate::engine::CfName::Write,
            )));
        }
    }
    match eng.load_lock(key) {
        Result::Err(e) => {
            return Result::Err(e);
        },
        Result::Ok(Option::Some(l)) => {
            if l.ts.0 == start_ts.0 {
                return Result::Ok(());
            }
            let raw = match key.to_raw() {
                Option::Some(raw) => raw,
                Option::None => Vec::new(),
            };
            proof {
                assert(raw@ == raw_or_empty(m.key_view()));
            }
            return Result::Err(Error::KeyIsLocked(l.into_lock_info(raw)));
        },
        Result::Ok(Option::None) => {},
    }
    let (short_value, long_value): (Option<Vec<u8>>, Option<Vec<u8>>) = match m {
        Mutation::Put((_, v)) => {
            if v.len() <= SHORT_VALUE_MAX_LEN {
                (Option::Some(clone_bytes(v)), Option::None)
            } else {
                (Option::None, Option::Some(clone_bytes(v)))
            }
        },
        Mutation::Delete(_) => (Option::None, Option::None),
        Mutation::Lock(_) => (Option::None, Option::None),
    };
    if let Option::Some(v) = long_value {
        match eng.put_data(key, start_ts, v) {
            Result::Err(e) => {
                return Result::Err(e);
            },
            Result::Ok(()) => {},
        }
    }
    let kind = match m {
        Mutation::Put(_) => LockType::Put,
        Mutation::Delete(_) => LockType::Delete,
        Mutation::Lock(_) => LockType::Lock,
    };
    let mut lock = Lock::new(
        kind,
        clone_bytes(primary),
        start_ts,
        lock_ttl,
        short_value,
        TimeStamp(0),
        txn_size,
        min_commit_ts,
    );
    if let Option::Some(secs) = secondaries {
        lock = lock.use_async_commit(crate::kv::clone_bytes_list(secs));
    }
    proof {
        assert(kind == m.lock_kind());
        assert(crate::kv::opt_bytes_view(lock.short_value) == (if m.value_view() is Some
            && m.value_view()->0.len() <= SHORT_VALUE_MAX_LEN {
            m.value_view()
        } else {
            Option::<Seq<u8>>::None
        }));
        if secondaries is None {
            assert(lock.secondaries@.len() == 0);
            assert(crate::kv::bytes_list_view(lock.secondaries@) =~= Seq::<Seq<u8>>::empty());
        }
        assert(lock@ == prewrite_lock_v(
            m.lock_kind(),
            primary@,
            start_ts,
            lock_ttl,
            m.value_view(),
            TimeStamp(0),
            txn_size,
            min_commit_ts,
            match secondaries {
                Option::Some(s) => Option::Some(crate::kv::bytes_list_view(s@)),
                Option::None => Option::None,
            },
        ));
    }
    match eng.put_lock(key, lock) {
        Result::Err(e) => Result::Err(e),
        Result::Ok(()) => Result::Ok(()),
    }
}

/// The write-record kind a committed lock turns into.
pub open spec fn commit_kind(t: LockType) -> WriteType {
    match t {
        LockType::Put => WriteType::Put,
        LockType::Delete => WriteType::Delete,
        _ => WriteType::Lock,
    }
}

/// No usable commit record: the transaction left nothing, or only a
/// rollback marker.
pub open spec fn no_forward_record(e: Engine, k: Seq<u8>, start_ts: TimeStamp) -> bool {
    match commit_record_of(e, k, start_ts) {
        Option::None => true,
        Option::Some((_, w)) => w.write_type == WriteType::Rollback,
    }
}

/// Converts the lock at `start_ts` into a committed record at `commit_ts`.
///
/// Succeeds again after a retry: with the lock already gone, an existing
/// forward commit record makes the call succeed with the recorded commit
/// timestamp; otherwise the transaction is lost and `TxnLockNotFound` is
/// returned.
pub fn commit_key(eng: &mut Engine, key: &Key, start_ts: TimeStamp, commit_ts: TimeStamp) -> (r:
    Result<(TimeStamp, Option<Lock>), Error>)
    requires
        old(eng).wf(),
    ensures
        final(eng).wf(),
        match r {
            Result::Ok((actual, released)) => {
                &&& old(eng).has_lock && old(eng).has_write
                &&& (match lock_of(*old(eng), key@) {
                    Option::Some(l) => {
                        if l.ts == start_ts && l.lock_type != LockType::Pessimistic {
                            &&& released is Some && released->0@ == l
                            &&& actual == commit_ts
                            &&& only_mvcc_changed(*old(eng), *final(eng))
                            &&& final(eng).data == old(eng).data
                            &&& final(eng).lock.view_seq() == store_del_spec(
                                old(eng).lock.view_seq(),
                                key@,
                                0,
                            )
                            &&& final(eng).write.view_seq() == store_put_spec(
                                old(eng).write.view_seq(),
                                key@,
                                commit_ts.0,
                                WriteV {
                                    write_type: commit_kind(l.lock_type),
                                    start_ts: start_ts,
                                    short_value: l.short_value,
                                },
                            )
                        } else {
                            &&& released is None && *final(eng) == *old(eng)
                            &&& l.ts != start_ts
                            &&& !no_forward_record(*old(eng), key@, start_ts)
                            &&& actual.0 == (commit_record_of(*old(eng), key@, start_ts)->0).0
                        }
                    },
                    Option::None => {
                        &&& released is None && *final(eng) == *old(eng)
                        &&& !no_forward_record(*old(eng), key@, start_ts)
                        &&& actual.0 == (commit_record_of(*old(eng), key@, start_ts)->0).0
                    },
                })
            },
            Result::Err(e) => *final(eng) == *old(eng) && match e@ {
                ErrorV::TxnLockNotFound { start_ts: s, commit_ts: c, key: ek } => {
                    &&& s == start_ts && c == commit_ts && ek == raw_or_empty(key@)
                    &&& (match lock_of(*old(eng), key@) {
                        Option::Some(l) => (l.ts == start_ts && l.lock_type
                            == LockType::Pessimistic) || (l.ts != start_ts && no_forward_record(
                            *old(eng),
                            key@,
                            start_ts,
                        )),
                        Option::None => no_forward_record(*old(eng), key@, start_ts),
                    })
                },
                ErrorV::EngineRequest(_) => !old(eng).has_lock || !old(eng).has_write,
                _ => false,
            },
        },
{
    let lock_found: Option<Lock> = match eng.load_lock(key) {
        Result::Err(e) => {
            return Result::Err(e);
        },
        Result::Ok(Option::Some(l)) => {
            if l.ts.0 == start_ts.0 {
                if matches!(l.lock_type, LockType::Pessimistic) {
                    let raw = match key.to_raw() {
                        Option::Some(raw) => raw,
                        Option::None => Vec::new(),
                    };
                    proof {
                        assert(raw@ == raw_or_empty(key@));
                    }
                    return Result::Err(Error::TxnLockNotFound { start_ts, commit_ts, key: raw });
                }
                Option::Some(l.clone())
            } else {
                Option::None
            }
        },
        Result::Ok(Option::None) => Option::None,
    };
    match lock_found {
        Option::Some(l) => {
            let kind = match l.lock_type {
                LockType::Put => WriteType::Put,
                LockType::Delete => WriteType::Delete,
                _ => WriteType::Lock,
            };
            let rec = Write::new(kind, start_ts, clone_bytes_opt(&l.short_value));
            match eng.put_write(key, commit_ts, rec) {
                Result::Err(e) => {
                    return Result::Err(e);
                },
                Result::Ok(()) => {},
            }
            match eng.del_lock(key) {
                Result::Err(e) => {
                    return Result::Err(e);
                },
                Result::Ok(()) => {},
            }
            Result::Ok((commit_ts, Option::Some(l)))
        },
        Option::None => {
            match eng.get_txn_commit_record(key, start_ts) {
                Result::Err(e) => Result::Err(e),
                Result::Ok(Option::Some((cts, w))) => {
                    if matches!(w.write_type, WriteType::Rollback) {
                        let raw = match key.to_raw() {
                            Option::Some(raw) => raw,
                            Option::None => Vec::new(),
                        };
                        proof {
                            assert(raw@ == raw_or_empty(key@));
                        }
                        Result::Err(Error::TxnLockNotFound { start_ts, commit_ts, key: raw })
                    } else {
                        Result::Ok((TimeStamp(cts), Option::None))
                    }
                },
                Result::Ok(Option::None) => {
                    let raw = match key.to_raw() {
                        Option::Some(raw) => raw,
                        Option::None => Vec::new(),
                    };
                    proof {
                        assert(raw@ == raw_or_empty(key@));
                    }
                    Result::Err(Error::TxnLockNotFound { start_ts, commit_ts, key: raw })
                },
            }
        },
    }
}

/// Unconditionally rolls the key's lock at `start_ts` back: the lock and its
/// staged value are removed and a rollback marker protects the timestamp
/// against a late prewrite.  Without a lock, an existing rollback marker
/// means done; a forward commit record means the transaction already
/// committed and the rollback fails; otherwise only the marker is written.
pub fn rollback_key(eng: &mut Engine, key: &Key, start_ts: TimeStamp) -> (r: Result<
    Option<Lock>,
    Error,
>)
    requires
        old(eng).wf(),
    ensures
        final(eng).wf(),
        match r {
            Result::Ok(released) => {
                &&& old(eng).has_lock && old(eng).has_write
                &&& (match lock_of(*old(eng), key@) {
                    Option::Some(l) if l.ts == start_ts => {
                        &&& released is Some && released->0@ == l
                        &&& only_mvcc_changed(*old(eng), *final(eng))
                        &&& final(eng).lock.view_seq() == store_del_spec(
                            old(eng).lock.view_seq(),
                            key@,
                            0,
                        )
                        &&& final(eng).write.view_seq() == store_put_spec(
                            old(eng).write.view_seq(),
                            key@,
                            start_ts.0,
                            WriteV {
                                write_type: WriteType::Rollback,
                                start_ts: start_ts,
                                short_value: Option::None,
                            },
                        )
                        &&& final(eng).data.view_seq() == (if l.lock_type == LockType::Put
                            && l.short_value is None {
                            store_del_spec(old(eng).data.view_seq(), key@, start_ts.0)
                        } else {
                            old(eng).data.view_seq()
                        })
                    },
                    _ => {
                        &&& released is None
                        &&& no_forward_record(*old(eng), key@, start_ts)
                        &&& (match commit_record_of(*old(eng), key@, start_ts) {
                            Option::Some(_) => *final(eng) == *old(eng),
                            Option::None => {
                                &&& only_mvcc_changed(*old(eng), *final(eng))
                                &&& final(eng).lock == old(eng).lock
                                &&& final(eng).data == old(eng).data
                                &&& final(eng).write.view_seq() == store_put_spec(
                                    old(eng).write.view_seq(),
                                    key@,
                                    start_ts.0,
                                    WriteV {
                                        write_type: WriteType::Rollback,
                                        start_ts: start_ts,
                                        short_value: Option::None,
                                    },
                                )
                            },
                        })
                    },
                })
            },
            Result::Err(e) => *final(eng) == *old(eng) && match e@ {
                ErrorV::TxnLockNotFound { start_ts: s, commit_ts: c, key: ek } => {
                    &&& s == start_ts && c.0 == 0 && ek == raw_or_empty(key@)
                    &&& (match lock_of(*old(eng), key@) {
                        Option::Some(l) => l.ts != start_ts,
                        Option::None => true,
                    })
                    &&& !no_forward_record(*old(eng), key@, start_ts)
                },
                ErrorV::EngineRequest(_) => !old(eng).has_lock || !old(eng).has_write || !old(
                    eng,
                ).has_default,
                _ => false,
            },
        },
{
    let lock_found: Option<Lock> = match eng.load_lock(key) {
        Result::Err(e) => {
            return Result::Err(e);
        },
        Result::Ok(Option::Some(l)) => {
            if l.ts.0 == start_ts.0 {
                Option::Some(l.clone())
            } else {
                Option::None
            }
        },
        Result::Ok(Option::None) => Option::None,
    };
    match lock_found {
        Option::Some(l) => {
            if !eng.has_write {
                return Result::Err(Error::EngineRequest(crate::engine::cf_name_string(
                    crate::engine::CfName::Write,
                )));
            }
            if !eng.has_default {
                return Result::Err(Error::EngineRequest(crate::engine::cf_name_string(
                    crate::engine::CfName::Default,
                )));
            }
            let is_put = matches!(l.lock_type, LockType::Put);
            let no_short = matches!(l.short_value, Option::None);
            if is_put && no_short {
                match eng.del_data(key, start_ts) {
                    Result::Err(e) => {
                        return Result::Err(e);
                    },
                    Result::Ok(()) => {},
                }
            }
            let rec = Write::new(WriteType::Rollback, start_ts, Option::None);
            match eng.put_write(key, start_ts, rec) {
                Result::Err(e) => {
                    return Result::Err(e);
                },
                Result::Ok(()) => {},
            }
            match eng.del_lock(key) {
                Result::Err(e) => {
                    return Result::Err(e);
                },
                Result::Ok(()) => {},
            }
            Result::Ok(Option::Some(l))
        },
        Option::None => {
            match eng.get_txn_commit_record(key, start_ts) {
                Result::Err(e) => Result::Err(e),
                Result::Ok(Option::Some((_cts, w))) => {
                    if matches!(w.write_type, WriteType::Rollback) {
                        Result::Ok(Option::None)
                    } else {
                        let raw = match key.to_raw() {
                            Option::Some(raw) => raw,
                            Option::None => Vec::new(),
                        };
                        proof {
                            assert(raw@ == raw_or_empty(key@));
                        }
                        Result::Err(Error::TxnLockNotFound {
                            start_ts,
                            commit_ts: TimeStamp(0),
                            key: raw,
                        })
                    }
                },
                Result::Ok(Option::None) => {
                    let rec = Write::new(WriteType::Rollback, start_ts, Option::None);
                    match eng.put_write(key, start_ts, rec) {
                        Result::Err(e) => Result::Err(e),
                        Result::Ok(()) => Result::Ok(Option::None),
                    }
                },
            }
        },
    }
}

/// Rolls the lock at `start_ts` back unless it is still alive: with a
/// nonzero `current_ts` a lock whose time-to-live has not run out is
/// reported to the caller instead of being removed.
pub fn cleanup_key(eng: &mut Engine, key: &Key, start_ts: TimeStamp, current_ts: TimeStamp) -> (r:
    Result<Option<Lock>, Error>)
    requires
        old(eng).wf(),
    ensures
        final(eng).wf(),
        match r {
            Result::Ok(_) => old(eng).has_lock && old(eng).has_write,
            Result::Err(_) => true,
        },
        match r {
            Result::Err(e) => match e@ {
                ErrorV::KeyIsLocked(info) => {
                    &&& *final(eng) == *old(eng)
                    &&& lock_of(*old(eng), key@) is Some
                    &&& lock_of(*old(eng), key@)->0.ts == start_ts
                    &&& current_ts.0 != 0
                    &&& !lock_expired(lock_of(*old(eng), key@)->0, current_ts.0)
                    &&& info == lock_info_of(lock_of(*old(eng), key@)->0, raw_or_empty(key@))
                },
                _ => true,
            },
            Result::Ok(_) => (match lock_of(*old(eng), key@) {
                Option::Some(l) if l.ts == start_ts => current_ts.0 == 0 || lock_expired(
                    l,
                    current_ts.0,
                ),
                _ => true,
            }),
        },
        match r {
            Result::Ok(released) => lock_rolled_back(*old(eng), *final(eng), key@, start_ts, released),
            Result::Err(e) => match e@ {
                ErrorV::KeyIsLocked(_) => true,
                ErrorV::TxnLockNotFound { start_ts: s, commit_ts: c, key: ek } => {
                    &&& *final(eng) == *old(eng)
                    &&& s == start_ts && c.0 == 0 && ek == raw_or_empty(key@)
                    &&& !no_forward_record(*old(eng), key@, start_ts)
                },
                ErrorV::EngineRequest(_) => *final(eng) == *old(eng) && (!old(eng).has_lock || !old(
                    eng,
                ).has_write || !old(eng).has_default),
                _ => false,
            },
        },
{
    match eng.load_lock(key) {
        Result::Err(e) => {
            return Result::Err(e);
        },
        Result::Ok(Option::Some(l)) => {
            if l.ts.0 == start_ts.0 {
                let phys = l.ts.0 >> 18;
                let cur = current_ts.0 >> 18;
                let alive = if current_ts.0 == 0 {
                    false
                } else if cur <= phys {
                    true
                } else {
                    l.ttl >= cur - phys
                };
                proof {
                    assert(current_ts.0 != 0 ==> (alive <==> !lock_expired(l@, current_ts.0)));
                }
                if alive {
                    let raw = match key.to_raw() {
                        Option::Some(raw) => raw,
                        Option::None => Vec::new(),
                    };
                    proof {
                        assert(raw@ == raw_or_empty(key@));
                    }
                    return Result::Err(Error::KeyIsLocked(l.into_lock_info(raw)));
                }
            }
        },
        Result::Ok(Option::None) => {},
    }
    let r = rollback_key(eng, key, start_ts);
    proof {
        if r is Ok {
            crate::store::lemma_del_get(old(eng).lock.view_seq(), key@, 0, key@, 0);
        }
    }
    r
}

/// Extends the time-to-live of the transaction's primary lock to at least
/// `advise_ttl`; the TTL never shrinks.  Returns the lock as it stands
/// afterwards.
pub fn txn_heart_beat_key(
    eng: &mut Engine,
    primary_key: &Key,
    start_ts: TimeStamp,
    advise_ttl: u64,
) -> (r: Result<Lock, Error>)
    requires
        old(eng).wf(),
    ensures
        final(eng).wf(),
        match r {
            Result::Ok(l) => {
                &&& lock_of(*old(eng), primary_key@) is Some
                &&& lock_of(*old(eng), primary_key@)->0.ts == start_ts
                &&& l@ == (LockV {
                    ttl: if advise_ttl > lock_of(*old(eng), primary_key@)->0.ttl {
                        advise_ttl
                    } else {
                        lock_of(*old(eng), primary_key@)->0.ttl
                    },
                    ..lock_of(*old(eng), primary_key@)->0
                })
                &&& only_lock_data_changed(*old(eng), *final(eng))
                &&& final(eng).data == old(eng).data
                &&& final(eng).lock.view_seq() == (if advise_ttl > lock_of(
                    *old(eng),
                    primary_key@,
                )->0.ttl {
                    store_put_spec(old(eng).lock.view_seq(), primary_key@, 0, l@)
                } else {
                    old(eng).lock.view_seq()
                })
            },
            Result::Err(e) => *final(eng) == *old(eng) && match e@ {
                ErrorV::TxnLockNotFound { start_ts: s, commit_ts: c, key: ek } => {
                    &&& s == start_ts && c.0 == 0 && ek == raw_or_empty(primary_key@)
                    &&& (match lock_of(*old(eng), primary_key@) {
                        Option::Some(l) => l.ts != start_ts,
                        Option::None => true,
                    })
                },
                ErrorV::EngineRequest(_) => !old(eng).has_lock,
                _ => false,
            },
        },
{
    let lock_found: Option<Lock> = match eng.load_lock(primary_key) {
        Result::Err(e) => {
            return Result::Err(e);
        },
        Result::Ok(Option::Some(l)) => {
            if l.ts.0 == start_ts.0 {
                Option::Some(l.clone())
            } else {
                Option::None
            }
        },
        Result::Ok(Option::None) => Option::None,
    };
    match lock_found {
        Option::Some(mut l) => {
            if advise_ttl > l.ttl {
                l.ttl = advise_ttl;
                match eng.put_lock(primary_key, l.clone()) {
                    Result::Err(e) => {
                        return Result::Err(e);
                    },
                    Result::Ok(()) => {},
                }
            }
            Result::Ok(l)
        },
        Option::None => {
            let raw = match primary_key.to_raw() {
                Option::Some(raw) => raw,
                Option::None => Vec::new(),
            };
            proof {
                assert(raw@ == raw_or_empty(primary_key@));
            }
            Result::Err(Error::TxnLockNotFound { start_ts, commit_ts: TimeStamp(0), key: raw })
        },
    }
}

/// Resolves an ambiguous transaction outcome on its primary key.
///
/// A live lock is reported back; an expired one is rolled back; with the
/// lock gone, the commit or rollback record answers; with no trace at all,
/// the caller may ask for a protective rollback, else the transaction is
/// unknown.
pub fn check_txn_status_key(
    eng: &mut Engine,
    key: &Key,
    lock_ts: TimeStamp,
    caller_start_ts: TimeStamp,
    current_ts: TimeStamp,
    rollback_if_not_exist: bool,
) -> (r: Result<(crate::types::TxnStatus, Option<Lock>), Error>)
    requires
        old(eng).wf(),
    ensures
        final(eng).wf(),
        match r {
            Result::Ok((status, released)) => match status {
                crate::types::TxnStatus::Uncommitted { lock } => {
                    &&& *final(eng) == *old(eng)
                    &&& released is None
                    &&& lock_of(*old(eng), key@) is Some
                    &&& lock_of(*old(eng), key@)->0.ts == lock_ts
                    &&& !lock_expired(lock_of(*old(eng), key@)->0, current_ts.0)
                    &&& lock@ == lock_of(*old(eng), key@)->0
                },
                crate::types::TxnStatus::TtlExpire => {
                    &&& lock_of(*old(eng), key@) is Some
                    &&& lock_of(*old(eng), key@)->0.ts == lock_ts
                    &&& lock_expired(lock_of(*old(eng), key@)->0, current_ts.0)
                    &&& lock_rolled_back(*old(eng), *final(eng), key@, lock_ts, released)
                },
                crate::types::TxnStatus::Committed { commit_ts } => {
                    &&& *final(eng) == *old(eng)
                    &&& released is None
                    &&& no_lock_at(*old(eng), key@, lock_ts)
                    &&& commit_record_of(*old(eng), key@, lock_ts) is Some
                    &&& (commit_record_of(*old(eng), key@, lock_ts)->0).1.write_type
                        != WriteType::Rollback
                    &&& commit_ts.0 == (commit_record_of(*old(eng), key@, lock_ts)->0).0
                },
                crate::types::TxnStatus::RolledBack => {
                    &&& *final(eng) == *old(eng)
                    &&& released is None
                    &&& no_lock_at(*old(eng), key@, lock_ts)
                    &&& commit_record_of(*old(eng), key@, lock_ts) is Some
                    &&& (commit_record_of(*old(eng), key@, lock_ts)->0).1.write_type
                        == WriteType::Rollback
                },
                crate::types::TxnStatus::LockNotExist => {
                    &&& rollback_if_not_exist
                    &&& released is None
                    &&& no_lock_at(*old(eng), key@, lock_ts)
                    &&& commit_record_of(*old(eng), key@, lock_ts) is None
                    &&& only_mvcc_changed(*old(eng), *final(eng))
                    &&& final(eng).lock == old(eng).lock
                    &&& final(eng).data == old(eng).data
                    &&& final(eng).write.view_seq() == store_put_spec(
                        old(eng).write.view_seq(),
                        key@,
                        lock_ts.0,
                        WriteV {
                            write_type: WriteType::Rollback,
                            start_ts: lock_ts,
                            short_value: Option::None,
                        },
                    )
                },
            },
            Result::Err(e) => *final(eng) == *old(eng) && match e@ {
                ErrorV::TxnNotFound { start_ts: s, key: ek } => {
                    &&& !rollback_if_not_exist
                    &&& s == lock_ts && ek == raw_or_empty(key@)
                    &&& no_lock_at(*old(eng), key@, lock_ts)
                    &&& commit_record_of(*old(eng), key@, lock_ts) is None
                },
                ErrorV::EngineRequest(_) => !old(eng).has_lock || !old(eng).has_write || !old(
                    eng,
                ).has_default,
                _ => false,
            },
        },
{
    let _ = caller_start_ts;
    let lock_found: Option<Lock> = match eng.load_lock(key) {
        Result::Err(e) => {
            return Result::Err(e);
        },
        Result::Ok(Option::Some(l)) => {
            if l.ts.0 == lock_ts.0 {
                Option::Some(l.clone())
            } else {
                Option::None
            }
        },
        Result::Ok(Option::None) => Option::None,
    };
    match lock_found {
        Option::Some(l) => {
            let phys = l.ts.0 >> 18;
            let cur = current_ts.0 >> 18;
            let expired = if cur <= phys {
                false
            } else {
                l.ttl < cur - phys
            };
            proof {
                assert(expired <==> lock_expired(l@, current_ts.0));
            }
            if expired {
                match rollback_key(eng, key, lock_ts) {
                    Result::Err(e) => Result::Err(e),
                    Result::Ok(released) => {
                        proof {
                            crate::store::lemma_del_get(
                                old(eng).lock.view_seq(),
                                key@,
                                0,
                                key@,
                                0,
                            );
                        }
                        Result::Ok((crate::types::TxnStatus::TtlExpire, released))
                    },
                }
            } else {
                Result::Ok((crate::types::TxnStatus::Uncommitted { lock: l }, Option::None))
            }
        },
        Option::None => {
            match eng.get_txn_commit_record(key, lock_ts) {
                Result::Err(e) => Result::Err(e),
                Result::Ok(Option::Some((cts, w))) => {
                    if matches!(w.write_type, WriteType::Rollback) {
                        Result::Ok((crate::types::TxnStatus::RolledBack, Option::None))
                    } else {
                        Result::Ok(
                            (
                                crate::types::TxnStatus::Committed { commit_ts: TimeStamp(cts) },
                                Option::None,
                            ),
                        )
                    }
                },
                Result::Ok(Option::None) => {
                    if rollback_if_not_exist {
                        if !eng.has_write {
                            return Result::Err(Error::EngineRequest(
                                crate::engine::cf_name_string(crate::engine::CfName::Write),
                            ));
                        }
                        let rec = Write::new(WriteType::Rollback, lock_ts, Option::None);
                        match eng.put_write(key, lock_ts, rec) {
                            Result::Err(e) => Result::Err(e),
                            Result::Ok(()) => Result::Ok(
                                (crate::types::TxnStatus::LockNotExist, Option::None),
                            ),
                        }
                    } else {
                        let raw = match key.to_raw() {
                            Option::Some(raw) => raw,
                            Option::None => Vec::new(),
                        };
                        proof {
                            assert(raw@ == raw_or_empty(key@));
                        }
                        Result::Err(Error::TxnNotFound { start_ts: lock_ts, key: raw })
                    }
                },
            }
        },
    }
}

/// The lock a pessimistic acquisition stakes.
pub open spec fn pessimistic_lock_v(
    primary: Seq<u8>,
    start_ts: TimeStamp,
    ttl: u64,
    for_update_ts: TimeStamp,
    min_commit_ts: TimeStamp,
) -> LockV {
    LockV {
        lock_type: LockType::Pessimistic,
        primary: primary,
        ts: start_ts,
        ttl: ttl,
        short_value: Option::None,
        for_update_ts: for_update_ts,
        txn_size: 0,
        min_commit_ts: min_commit_ts,
        use_async_commit: false,
        secondaries: Seq::empty(),
    }
}

/// Locks one key pessimistically, before the final value is known.
///
/// A lock of another transaction blocks the request; a version committed
/// after `for_update_ts` is a write conflict; a repeated request of the
/// same transaction succeeds with the same answer.  With `return_values`
/// the value visible at `for_update_ts` is read under the lock.
pub fn acquire_pessimistic_lock_key(
    eng: &mut Engine,
    key: &Key,
    primary: &Vec<u8>,
    start_ts: TimeStamp,
    lock_ttl: u64,
    for_update_ts: TimeStamp,
    min_commit_ts: TimeStamp,
    return_values: bool,
) -> (r: Result<Option<Option<Vec<u8>>>, Error>)
    requires
        old(eng).wf(),
    ensures
        final(eng).wf(),
        match r {
            Result::Ok(val) => {
                &&& old(eng).has_lock
                &&& (return_values <==> val is Some)
                &&& (return_values ==> (match val->0 {
                    Option::Some(v) => crate::mvcc::mvcc_read_spec(
                        old(eng).write.view_seq(),
                        old(eng).data.view_seq(),
                        key@,
                        for_update_ts.0,
                    ) == crate::mvcc::MvccRead::Value(v@),
                    Option::None => crate::mvcc::mvcc_read_spec(
                        old(eng).write.view_seq(),
                        old(eng).data.view_seq(),
                        key@,
                        for_update_ts.0,
                    ) == crate::mvcc::MvccRead::NotFound,
                }))
                &&& only_lock_data_changed(*old(eng), *final(eng))
                &&& final(eng).data == old(eng).data
                &&& (match lock_of(*old(eng), key@) {
                    Option::Some(l) => {
                        &&& l.ts == start_ts
                        &&& final(eng).lock.view_seq() == (if for_update_ts.0 > l.for_update_ts.0 {
                            store_put_spec(
                                old(eng).lock.view_seq(),
                                key@,
                                0,
                                LockV { for_update_ts: for_update_ts, ..l },
                            )
                        } else {
                            old(eng).lock.view_seq()
                        })
                    },
                    Option::None => {
                        &&& (match newest_write(*old(eng), key@) {
                            Option::Some((cts, _)) => cts <= for_update_ts.0,
                            Option::None => true,
                        })
                        &&& final(eng).lock.view_seq() == store_put_spec(
                            old(eng).lock.view_seq(),
                            key@,
                            0,
                            pessimistic_lock_v(
                                primary@,
                                start_ts,
                                lock_ttl,
                                for_update_ts,
                                min_commit_ts,
                            ),
                        )
                    },
                })
            },
            Result::Err(e) => *final(eng) == *old(eng) && match e@ {
                ErrorV::KeyIsLocked(info) => {
                    &&& lock_of(*old(eng), key@) is Some
                    &&& lock_of(*old(eng), key@)->0.ts != start_ts
                    &&& info == lock_info_of(lock_of(*old(eng), key@)->0, raw_or_empty(key@))
                },
                ErrorV::WriteConflict {
                    start_ts: s,
                    conflict_start_ts,
                    conflict_commit_ts,
                    key: ek,
                    primary: p,
                } => {
                    &&& lock_of(*old(eng), key@) is None
                    &&& newest_write(*old(eng), key@) is Some
                    &&& (newest_write(*old(eng), key@)->0).0 == conflict_commit_ts.0
                    &&& (newest_write(*old(eng), key@)->0).1.start_ts == conflict_start_ts
                    &&& conflict_commit_ts.0 > for_update_ts.0
                    &&& s == start_ts
                    &&& ek == raw_or_empty(key@)
                    &&& p == primary@
                },
                ErrorV::DefaultNotFound { key: ek } => ek == raw_or_empty(key@) && return_values
                    && crate::mvcc::mvcc_read_spec(
                    old(eng).write.view_seq(),
                    old(eng).data.view_seq(),
                    key@,
                    for_update_ts.0,
                ) == crate::mvcc::MvccRead::Dangling,
                ErrorV::EngineRequest(_) => !old(eng).has_lock || !old(eng).has_write || !old(
                    eng,
                ).has_default,
                _ => false,
            },
        },
{
    let lock_found: Option<Lock> = match eng.load_lock(key) {
        Result::Err(e) => {
            return Result::Err(e);
        },
        Result::Ok(Option::Some(l)) => {
            if l.ts.0 != start_ts.0 {
                let raw = match key.to_raw() {
                    Option::Some(raw) => raw,
                    Option::None => Vec::new(),
                };
                proof {
                    assert(raw@ == raw_or_empty(key@));
                }
                return Result::Err(Error::KeyIsLocked(l.into_lock_info(raw)));
            }
            Option::Some(l.clone())
        },
        Result::Ok(Option::None) => Option::None,
    };
    match &lock_found {
        Option::Some(_) => {},
        Option::None => {
            match eng.seek_write(key, u64::MAX) {
                Result::Err(e) => {
                    return Result::Err(e);
                },
                Result::Ok(Option::Some((cts, w))) => {
                    if cts > for_update_ts.0 {
                        let conflict_start_ts = w.start_ts;
                        let raw = match key.to_raw() {
                            Option::Some(raw) => raw,
                            Option::None => Vec::new(),
                        };
                        proof {
                            assert(raw@ == raw_or_empty(key@));
                        }
                        return Result::Err(Error::WriteConflict {
                            start_ts,
                            conflict_start_ts,
                            conflict_commit_ts: TimeStamp(cts),
                            key: raw,
                            primary: clone_bytes(primary),
                        });
                    }
                },
                Result::Ok(Option::None) => {},
            }
        },
    }
    let val: Option<Option<Vec<u8>>> = if return_values {
        match crate::mvcc::load_visible(eng, key, for_update_ts) {
            Result::Err(e) => {
                return Result::Err(e);
            },
            Result::Ok(v) => Option::Some(v),
        }
    } else {
        Option::None
    };
    match lock_found {
        Option::Some(l) => {
            if for_update_ts.0 > l.for_update_ts.0 {
                let ghost lv = l@;
                let updated = Lock { for_update_ts, ..l };
                proof {
                    assert(updated@ =~= (LockV { for_update_ts: for_update_ts, ..lv }));
                }
                match eng.put_lock(key, updated) {
                    Result::Err(e) => {
                        return Result::Err(e);
                    },
                    Result::Ok(()) => {},
                }
            }
        },
        Option::None => {
            let lock = Lock::new(
                LockType::Pessimistic,
                clone_bytes(primary),
                start_ts,
                lock_ttl,
                Option::None,
                for_update_ts,
                0,
                min_commit_ts,
            );
            proof {
                assert(crate::kv::bytes_list_view(lock.secondaries@) =~= Seq::<Seq<u8>>::empty());
                assert(lock@ =~= pessimistic_lock_v(
                    primary@,
                    start_ts,
                    lock_ttl,
                    for_update_ts,
                    min_commit_ts,
                ));
            }
            match eng.put_lock(key, lock) {
                Result::Err(e) => {
                    return Result::Err(e);
                },
                Result::Ok(()) => {},
            }
        },
    }
    Result::Ok(val)
}

/// Stakes the prewrite lock of one mutation of a pessimistic transaction:
/// the pessimistic lock taken earlier is converted in place; a key the
/// transaction did not lock pessimistically is locked directly, its
/// conflicts having been checked at acquisition time.
pub fn pessimistic_prewrite_key(
    eng: &mut Engine,
    m: &Mutation,
    is_pessimistic_lock: bool,
    primary: &Vec<u8>,
    start_ts: TimeStamp,
    lock_ttl: u64,
    for_update_ts: TimeStamp,
    txn_size: u64,
    min_commit_ts: TimeStamp,
    secondaries: Option<&Vec<Vec<u8>>>,
) -> (r: Result<(), Error>)
    requires
        old(eng).wf(),
    ensures
        final(eng).wf(),
        match r {
            Result::Ok(()) => {
                &&& old(eng).has_lock
                &&& (match lock_of(*old(eng), m.key_view()) {
                    Option::Some(l) => {
                        &&& l.ts == start_ts
                        &&& (if l.lock_type != LockType::Pessimistic {
                            *final(eng) == *old(eng)
                        } else {
                            &&& only_lock_data_changed(*old(eng), *final(eng))
                            &&& final(eng).lock.view_seq() == store_put_spec(
                                old(eng).lock.view_seq(),
                                m.key_view(),
                                0,
                                prewrite_lock_v(
                                    m.lock_kind(),
                                    primary@,
                                    start_ts,
                                    if l.ttl > lock_ttl {
                                        l.ttl
                                    } else {
                                        lock_ttl
                                    },
                                    m.value_view(),
                                    for_update_ts,
                                    txn_size,
                                    min_commit_ts,
                                    match secondaries {
                                        Option::Some(s) => Option::Some(
                                            crate::kv::bytes_list_view(s@),
                                        ),
                                        Option::None => Option::None,
                                    },
                                ),
                            )
                            &&& final(eng).data.view_seq() == (if m.value_view() is Some
                                && m.value_view()->0.len() > SHORT_VALUE_MAX_LEN {
                                store_put_spec(
                                    old(eng).data.view_seq(),
                                    m.key_view(),
                                    start_ts.0,
                                    m.value_view()->0,
                                )
                            } else {
                                old(eng).data.view_seq()
                            })
                        })
                    },
                    Option::None => {
                        &&& !is_pessimistic_lock
                        &&& only_lock_data_changed(*old(eng), *final(eng))
                        &&& final(eng).lock.view_seq() == store_put_spec(
                            old(eng).lock.view_seq(),
                            m.key_view(),
                            0,
                            prewrite_lock_v(
                                m.lock_kind(),
                                primary@,
                                start_ts,
                                lock_ttl,
                                m.value_view(),
                                for_update_ts,
                                txn_size,
                                min_commit_ts,
                                match secondaries {
                                    Option::Some(s) => Option::Some(
                                        crate::kv::bytes_list_view(s@),
                                    ),
                                    Option::None => Option::None,
                                },
                            ),
                        )
                        &&& final(eng).data.view_seq() == (if m.value_view() is Some
                            && m.value_view()->0.len() > SHORT_VALUE_MAX_LEN {
                            store_put_spec(
                                old(eng).data.view_seq(),
                                m.key_view(),
                                start_ts.0,
                                m.value_view()->0,
                            )
                        } else {
                            old(eng).data.view_seq()
                        })
                    },
                })
            },
            Result::Err(e) => *final(eng) == *old(eng) && match e@ {
                ErrorV::KeyIsLocked(info) => {
                    &&& lock_of(*old(eng), m.key_view()) is Some
                    &&& lock_of(*old(eng), m.key_view())->0.ts != start_ts
                    &&& info == lock_info_of(
                        lock_of(*old(eng), m.key_view())->0,
                        raw_or_empty(m.key_view()),
                    )
                },
                ErrorV::TxnLockNotFound { start_ts: s, commit_ts: c, key: ek } => {
                    &&& is_pessimistic_lock
                    &&& lock_of(*old(eng), m.key_view()) is None
                    &&& s == start_ts && c.0 == 0 && ek == raw_or_empty(m.key_view())
                },
                ErrorV::EngineRequest(_) => !old(eng).has_lock || !old(eng).has_default,
                _ => false,
            },
        },
{
    let key = m.key();
    let converted_ttl: u64;
    match eng.load_lock(key) {
        Result::Err(e) => {
            return Result::Err(e);
        },
        Result::Ok(Option::Some(l)) => {
            if l.ts.0 != start_ts.0 {
                let raw = match key.to_raw() {
                    Option::Some(raw) => raw,
                    Option::None => Vec::new(),
                };
                proof {
                    assert(raw@ == raw_or_empty(m.key_view()));
                }
                return Result::Err(Error::KeyIsLocked(l.into_lock_info(raw)));
            }
            if !matches!(l.lock_type, LockType::Pessimistic) {
                return Result::Ok(());
            }
            converted_ttl = if l.ttl > lock_ttl {
                l.ttl
            } else {
                lock_ttl
            };
        },
        Result::Ok(Option::None) => {
            if is_pessimistic_lock {
                let raw = match key.to_raw() {
                    Option::Some(raw) => raw,
                    Option::None => Vec::new(),
                };
                proof {
                    assert(raw@ == raw_or_empty(m.key_view()));
                }
                return Result::Err(Error::TxnLockNotFound {
                    start_ts,
                    commit_ts: TimeStamp(0),
                    key: raw,
                });
            }
            converted_ttl = lock_ttl;
        },
    }
    let (short_value, long_value): (Option<Vec<u8>>, Option<Vec<u8>>) = match m {
        Mutation::Put((_, v)) => {
            if v.len() <= SHORT_VALUE_MAX_LEN {
                (Option::Some(clone_bytes(v)), Option::None)
            } else {
                (Option::None, Option::Some(clone_bytes(v)))
            }
        },
        Mutation::Delete(_) => (Option::None, Option::None),
        Mutation::Lock(_) => (Option::None, Option::None),
    };
    if let Option::Some(v) = long_value {
        match eng.put_data(key, start_ts, v) {
            Result::Err(e) => {
                return Result::Err(e);
            },
            Result::Ok(()) => {},
        }
    }
    let kind = match m {
        Mutation::Put(_) => LockType::Put,
        Mutation::Delete(_) => LockType::Delete,
        Mutation::Lock(_) => LockType::Lock,
    };
    let mut lock = Lock::new(
        kind,
        clone_bytes(primary),
        start_ts,
        converted_ttl,
        short_value,
        for_update_ts,
        txn_size,
        min_commit_ts,
    );
    if let Option::Some(secs) = secondaries {
        lock = lock.use_async_commit(crate::kv::clone_bytes_list(secs));
    }
    proof {
        assert(kind == m.lock_kind());
        assert(crate::kv::opt_bytes_view(lock.short_value) == (if m.value_view() is Some
            && m.value_view()->0.len() <= SHORT_VALUE_MAX_LEN {
            m.value_view()
        } else {
            Option::<Seq<u8>>::None
        }));
        if secondaries is None {
            assert(lock.secondaries@.len() == 0);
            assert(crate::kv::bytes_list_view(lock.secondaries@) =~= Seq::<Seq<u8>>::empty());
        }
    }
    match eng.put_lock(key, lock) {
        Result::Err(e) => Result::Err(e),
        Result::Ok(()) => Result::Ok(()),
    }
}

/// Removes the transaction's pessimistic lock from one key, if it is still
/// there; leaves committed state and other transactions' locks alone.
pub fn pessimistic_rollback_key(
    eng: &mut Engine,
    key: &Key,
    start_ts: TimeStamp,
    for_update_ts: TimeStamp,
) -> (r: Result<Option<Lock>, Error>)
    requires
        old(eng).wf(),
    ensures
        final(eng).wf(),
        match r {
            Result::Ok(released) => {
                &&& old(eng).has_lock
                &&& (match lock_of(*old(eng), key@) {
                    Option::Some(l) => {
                        if l.ts == start_ts && l.lock_type == LockType::Pessimistic
                            && l.for_update_ts.0 <= for_update_ts.0 {
                            &&& released is Some && released->0@ == l
                            &&& only_lock_data_changed(*old(eng), *final(eng))
                            &&& final(eng).data == old(eng).data
                            &&& final(eng).lock.view_seq() == store_del_spec(
                                old(eng).lock.view_seq(),
                                key@,
                                0,
                            )
                        } else {
                            released is None && *final(eng) == *old(eng)
                        }
                    },
                    Option::None => released is None && *final(eng) == *old(eng),
                })
            },
            Result::Err(e) => *final(eng) == *old(eng) && (!old(eng).has_lock && e@
                matches ErrorV::EngineRequest(_)),
        },
{
    let matched: bool = match eng.load_lock(key) {
        Result::Err(e) => {
            return Result::Err(e);
        },
        Result::Ok(Option::Some(l)) => l.ts.0 == start_ts.0 && matches!(
            l.lock_type,
            LockType::Pessimistic,
        ) && l.for_update_ts.0 <= for_update_ts.0,
        Result::Ok(Option::None) => false,
    };
    if matched {
        let released: Option<Lock> = match eng.load_lock(key) {
            Result::Err(e) => {
                return Result::Err(e);
            },
            Result::Ok(Option::Some(l)) => Option::Some(l.clone()),
            Result::Ok(Option::None) => Option::None,
        };
        match eng.del_lock(key) {
            Result::Err(e) => {
                return Result::Err(e);
            },
            Result::Ok(()) => {},
        }
        Result::Ok(released)
    } else {
        Result::Ok(Option::None)
    }
}

/// What checking one secondary key found.
pub enum SecondaryCheck {
    /// The transaction still holds a prewrite lock on the key.
    Locked(Lock),
    /// The key committed at this timestamp.
    Committed(TimeStamp),
    /// The key holds no prewrite lock of the transaction; a rollback marker
    /// now protects it.
    RolledBack,
}

/// Checks one secondary key of an async-commit transaction: a prewrite lock
/// counts as locked; a bare pessimistic lock is rolled back; otherwise the
/// commit or rollback record answers, and a missing record is protected
/// with a rollback marker.
pub fn check_secondary_key(eng: &mut Engine, key: &Key, start_ts: TimeStamp) -> (r: Result<
    (SecondaryCheck, Option<Lock>),
    Error,
>)
    requires
        old(eng).wf(),
    ensures
        final(eng).wf(),
        match r {
            Result::Ok((check, released)) => match check {
                SecondaryCheck::Locked(l) => {
                    &&& *final(eng) == *old(eng)
                    &&& released is None
                    &&& lock_of(*old(eng), key@) is Some
                    &&& lock_of(*old(eng), key@)->0.ts == start_ts
                    &&& lock_of(*old(eng), key@)->0.lock_type != LockType::Pessimistic
                    &&& l@ == lock_of(*old(eng), key@)->0
                },
                SecondaryCheck::Committed(cts) => {
                    &&& *final(eng) == *old(eng)
                    &&& released is None
                    &&& no_lock_at(*old(eng), key@, start_ts)
                    &&& commit_record_of(*old(eng), key@, start_ts) is Some
                    &&& (commit_record_of(*old(eng), key@, start_ts)->0).1.write_type
                        != WriteType::Rollback
                    &&& cts.0 == (commit_record_of(*old(eng), key@, start_ts)->0).0
                },
                SecondaryCheck::RolledBack => {
                    &&& (match lock_of(*old(eng), key@) {
                        Option::Some(l) => l.ts != start_ts || l.lock_type == LockType::Pessimistic,
                        Option::None => true,
                    })
                    &&& (lock_of(*old(eng), key@) is Some && lock_of(*old(eng), key@)->0.ts
                        == start_ts ==> lock_rolled_back(
                        *old(eng),
                        *final(eng),
                        key@,
                        start_ts,
                        released,
                    ))
                },
            },
            Result::Err(e) => match e@ {
                ErrorV::TxnLockNotFound { .. } => *final(eng) == *old(eng),
                ErrorV::EngineRequest(_) => *final(eng) == *old(eng) && (!old(eng).has_lock || !old(
                    eng,
                ).has_write || !old(eng).has_default),
                _ => false,
            },
        },
{
    let pessimistic: bool = match eng.load_lock(key) {
        Result::Err(e) => {
            return Result::Err(e);
        },
        Result::Ok(Option::Some(l)) => {
            if l.ts.0 == start_ts.0 {
                if !matches!(l.lock_type, LockType::Pessimistic) {
                    let out = l.clone();
                    return Result::Ok((SecondaryCheck::Locked(out), Option::None));
                }
                true
            } else {
                false
            }
        },
        Result::Ok(Option::None) => false,
    };
    if pessimistic {
        let r = rollback_key(eng, key, start_ts);
        proof {
            if r is Ok {
                crate::store::lemma_del_get(old(eng).lock.view_seq(), key@, 0, key@, 0);
            }
        }
        match r {
            Result::Err(e) => {
                return Result::Err(e);
            },
            Result::Ok(released) => {
                return Result::Ok((SecondaryCheck::RolledBack, released));
            },
        }
    }
    match eng.get_txn_commit_record(key, start_ts) {
        Result::Err(e) => Result::Err(e),
        Result::Ok(Option::Some((cts, w))) => {
            if matches!(w.write_type, WriteType::Rollback) {
                Result::Ok((SecondaryCheck::RolledBack, Option::None))
            } else {
                Result::Ok((SecondaryCheck::Committed(TimeStamp(cts)), Option::None))
            }
        },
        Result::Ok(Option::None) => {
            if !eng.has_write {
                return Result::Err(Error::EngineRequest(crate::engine::cf_name_string(
                    crate::engine::CfName::Write,
                )));
            }
            let rec = Write::new(WriteType::Rollback, start_ts, Option::None);
            match eng.put_write(key, start_ts, rec) {
                Result::Err(e) => Result::Err(e),
                Result::Ok(()) => Result::Ok((SecondaryCheck::RolledBack, Option::None)),
            }
        },
    }
}

/// The locks whose transaction started at or before `max_ts`, from
/// `start_key` on, in key order.
pub open spec fn scan_locks_spec(
    locks: Seq<(Seq<u8>, u64, LockV)>,
    max_ts: u64,
    lo: Option<Seq<u8>>,
) -> Seq<(Seq<u8>, LockV)>
    decreases locks.len(),
{
    if locks.len() == 0 {
        Seq::empty()
    } else {
        let keep = locks[0].2.ts.0 <= max_ts && (match lo {
            Option::Some(l) => crate::codec::lex_le(l, locks[0].0),
            Option::None => true,
        });
        if keep {
            seq![(locks[0].0, locks[0].2)] + scan_locks_spec(locks.skip(1), max_ts, lo)
        } else {
            scan_locks_spec(locks.skip(1), max_ts, lo)
        }
    }
}

/// The client-facing descriptions of the scanned locks.
pub open spec fn lock_infos_of(s: Seq<(Seq<u8>, LockV)>) -> Seq<crate::kv::LockInfoV> {
    Seq::new(s.len(), |i: int| lock_info_of(s[i].1, raw_or_empty(s[i].0)))
}

/// The views of a list of lock descriptions.
pub open spec fn lock_info_list_view(s: Seq<crate::kv::LockInfo>) -> Seq<crate::kv::LockInfoV> {
    Seq::new(s.len(), |i: int| s[i]@)
}

/// Scans the lock family for locks of transactions that started at or
/// before `max_ts`, beginning at `start_key`, reporting at most `limit`
/// locks (zero: all of them).
pub fn scan_locks(
    eng: &Engine,
    max_ts: TimeStamp,
    start_key: Option<&Key>,
    limit: usize,
) -> (r: Result<Vec<crate::kv::LockInfo>, Error>)
    ensures
        match r {
            Result::Ok(infos) => {
                &&& eng.has_lock
                &&& {
                    let found = lock_infos_of(
                        scan_locks_spec(
                            eng.lock.view_seq(),
                            max_ts.0,
                            match start_key {
                                Option::Some(k) => Option::Some(k@),
                                Option::None => Option::None,
                            },
                        ),
                    );
                    lock_info_list_view(infos@) == (if limit == 0 || found.len() <= limit {
                        found
                    } else {
                        found.take(limit as int)
                    })
                }
            },
            Result::Err(e) => !eng.has_lock && e@ matches ErrorV::EngineRequest(_),
        },
{
    if !eng.has_lock {
        return Result::Err(Error::EngineRequest(crate::engine::cf_name_string(
            crate::engine::CfName::Lock,
        )));
    }
    let ghost lov: Option<Seq<u8>> = match start_key {
        Option::Some(k) => Option::Some(k@),
        Option::None => Option::None,
    };
    let slots = &eng.lock.slots;
    let len = slots.len();
    let mut out: Vec<crate::kv::LockInfo> = Vec::new();
    let mut i: usize = 0;
    proof {
        assert(crate::store::store_view(slots@.skip(0)) =~= eng.lock.view_seq());
        assert(lock_info_list_view(out@) + lock_infos_of(
            scan_locks_spec(eng.lock.view_seq(), max_ts.0, lov),
        ) =~= lock_infos_of(scan_locks_spec(eng.lock.view_seq(), max_ts.0, lov)));
    }
    while i < len
        invariant
            0 <= i <= len,
            len == slots@.len(),
            slots == &eng.lock.slots,
            lov == (match start_key {
                Option::Some(k) => Option::Some(k@),
                Option::None => Option::<Seq<u8>>::None,
            }),
            lock_infos_of(scan_locks_spec(eng.lock.view_seq(), max_ts.0, lov))
                == lock_info_list_view(out@) + lock_infos_of(
                scan_locks_spec(
                    crate::store::store_view(slots@.skip(i as int)),
                    max_ts.0,
                    lov,
                ),
            ),
        decreases len - i,
    {
        let ghost tailv = crate::store::store_view(slots@.skip(i as int));
        proof {
            assert(tailv[0] == (slots@[i as int].key@, slots@[i as int].ts, slots@[i as int].val@));
            assert(tailv.skip(1) =~= crate::store::store_view(slots@.skip(i + 1)));
        }
        let in_ts = slots[i].val.ts.0 <= max_ts.0;
        let in_lo = match start_key {
            Option::Some(k) => {
                proof {
                    crate::codec::lemma_lex_trichotomy(k@, slots@[i as int].key@);
                }
                !(crate::codec::lex_cmp(&slots[i].key, k.as_encoded()) == crate::codec::KeyOrd::Less)
            },
            Option::None => true,
        };
        if in_ts && in_lo {
            let raw = match crate::codec::decode_bytes(&slots[i].key) {
                Option::Some(raw) => raw,
                Option::None => Vec::new(),
            };
            proof {
                assert(raw@ == raw_or_empty(slots@[i as int].key@));
            }
            let ghost before = out@;
            let info = slots[i].val.into_lock_info(raw);
            out.push(info);
            proof {
                assert(scan_locks_spec(tailv, max_ts.0, lov) == seq![(tailv[0].0, tailv[0].2)]
                    + scan_locks_spec(tailv.skip(1), max_ts.0, lov));
                assert(lock_info_list_view(out@) =~= lock_info_list_view(before) + seq![info@]);
                assert(lock_infos_of(scan_locks_spec(tailv, max_ts.0, lov)) =~= seq![info@]
                    + lock_infos_of(scan_locks_spec(tailv.skip(1), max_ts.0, lov)));
            }
        } else {
            proof {
                assert(scan_locks_spec(tailv, max_ts.0, lov) == scan_locks_spec(
                    tailv.skip(1),
                    max_ts.0,
                    lov,
                ));
            }
        }
        i = i + 1;
    }
    proof {
        assert(crate::store::store_view(slots@.skip(len as int)).len() == 0);
        assert(lock_infos_of(
            scan_locks_spec(crate::store::store_view(slots@.skip(len as int)), max_ts.0, lov),
        ).len() == 0);
        assert(lock_info_list_view(out@) + lock_infos_of(
            scan_locks_spec(crate::store::store_view(slots@.skip(len as int)), max_ts.0, lov),
        ) =~= lock_info_list_view(out@));
    }
    if limit > 0 && out.len() > limit {
        out.truncate(limit);
        proof {
            let found = lock_infos_of(scan_locks_spec(eng.lock.view_seq(), max_ts.0, lov));
            assert(lock_info_list_view(out@) =~= found.take(limit as int));
        }
    }
    Result::Ok(out)
}

/// The key can be committed for `start_ts`: it still carries the
/// transaction's prewrite lock, or a forward commit record already exists.
pub open spec fn commit_ready(e: Engine, k: Seq<u8>, start_ts: TimeStamp) -> bool {
    &&& e.has_lock
    &&& e.has_write
    &&& (match lock_of(e, k) {
        Option::Some(l) => {
            if l.ts == start_ts {
                l.lock_type != LockType::Pessimistic
            } else {
                !no_forward_record(e, k, start_ts)
            }
        },
        Option::None => !no_forward_record(e, k, start_ts),
    })
}

/// The write record a commit leaves for a key whose prewrite lock the
/// transaction still held.
pub open spec fn commit_write_v(l: LockV, start_ts: TimeStamp) -> WriteV {
    WriteV { write_type: commit_kind(l.lock_type), start_ts, short_value: l.short_value }
}

/// A prewrite of `k` at `start_ts` cannot fail on `e`: no committed
/// version sits at or above `start_ts`, and any lock present is the
/// transaction's own.
pub open spec fn prewrite_ready(e: Engine, k: Seq<u8>, start_ts: TimeStamp) -> bool {
    &&& (match newest_write(e, k) {
        Option::Some((cts, _)) => cts < start_ts.0,
        Option::None => true,
    })
    &&& (match lock_of(e, k) {
        Option::Some(l) => l.ts == start_ts,
        Option::None => true,
    })
}

/// A pessimistic lock of `k` cannot fail on `e`: any lock present is the
/// transaction's own, no committed version is newer than `for_update_ts`,
/// and, when values are returned, the visible version is not dangling.
pub open spec fn pessimistic_ready(
    e: Engine,
    k: Seq<u8>,
    start_ts: TimeStamp,
    for_update_ts: TimeStamp,
    return_values: bool,
) -> bool {
    &&& (match lock_of(e, k) {
        Option::Some(l) => l.ts == start_ts,
        Option::None => (match newest_write(e, k) {
            Option::Some((cts, _)) => cts <= for_update_ts.0,
            Option::None => true,
        }),
    })
    &&& (return_values ==> crate::mvcc::mvcc_read_spec(
        e.write.view_seq(),
        e.data.view_seq(),
        k,
        for_update_ts.0,
    ) != crate::mvcc::MvccRead::Dangling)
}

/// Every version the key has sits strictly below `cts` — what a monotonic
/// timestamp oracle guarantees of a fresh commit timestamp.
pub open spec fn versions_below(e: Engine, k: Seq<u8>, cts: u64) -> bool {
    forall|i: int|
        0 <= i < key_versions(e.write.view_seq(), k).len() ==> (#[trigger] key_versions(
            e.write.view_seq(),
            k,
        )[i]).0 < cts
}

/// The secondary-key list a mutation's lock carries: the full list on the
/// transaction's primary key, the empty list elsewhere, nothing when the
/// commit is not asynchronous.
pub open spec fn prewrite_secs_view(
    key: Seq<u8>,
    primary: Seq<u8>,
    secs: Option<Seq<Seq<u8>>>,
) -> Option<Seq<Seq<u8>>> {
    match secs {
        Option::None => Option::None,
        Option::Some(s) => Option::Some(
            if crate::codec::dec_bytes(key) == Option::Some(primary) {
                s
            } else {
                Seq::empty()
            },
        ),
    }
}

/// The lock a prewrite of `m` leaves on its key: a fresh lock where the key
/// had none, the one already staked by this transaction otherwise.
pub open spec fn prewrite_result_lock(
    pre: Engine,
    m: Mutation,
    primary: Seq<u8>,
    start_ts: TimeStamp,
    lock_ttl: u64,
    txn_size: u64,
    min_commit_ts: TimeStamp,
    secs: Option<Seq<Seq<u8>>>,
) -> LockV {
    match lock_of(pre, m.key_view()) {
        Option::Some(l) => l,
        Option::None => prewrite_lock_v(
            m.lock_kind(),
            primary,
            start_ts,
            lock_ttl,
            m.value_view(),
            TimeStamp(0),
            txn_size,
            min_commit_ts,
            prewrite_secs_view(m.key_view(), primary, secs),
        ),
    }
}

/// The listed keys are pairwise different.
pub open spec fn keys_pairwise_distinct(ks: Seq<Seq<u8>>) -> bool {
    forall|i: int, j: int| 0 <= i < j < ks.len() ==> (#[trigger] ks[i]) != (#[trigger] ks[j])
}

/// No lock of the transaction that started at `start_ts` is on the key.
pub open spec fn no_lock_at(e: Engine, k: Seq<u8>, start_ts: TimeStamp) -> bool {
    match lock_of(e, k) {
        Option::Some(l) => l.ts != start_ts,
        Option::None => true,
    }
}

/// What a completed rollback guarantees: the lock at `start_ts` is gone and
/// the released lock reports what was removed.
pub open spec fn lock_rolled_back(
    pre: Engine,
    post: Engine,
    k: Seq<u8>,
    start_ts: TimeStamp,
    released: Option<Lock>,
) -> bool {
    match lock_of(pre, k) {
        Option::Some(l) => {
            if l.ts == start_ts {
                &&& released is Some && released->0@ == l
                &&& lock_of(post, k) is None
            } else {
                released is None && post.lock == pre.lock
            }
        },
        Option::None => released is None && post.lock == pre.lock,
    }
}

} // verus!
