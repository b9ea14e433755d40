//! The transaction scheduler: the only writer path into the engine.  It
//! admits commands under a pending-write byte budget, takes all their latch
//! slots at once, runs them against a private copy of the engine and
//! installs the copy whole, so a failed command changes nothing and two
//! commands sharing a key never interleave their writes.

use vstd::prelude::*;

use crate::cm::ConcurrencyManager;
use crate::commands::Command;
use crate::engine::Engine;
use crate::errors::{Error, ErrorV};
use crate::kv::{Key, LockType, Mutation, WaitTimeout};
use crate::latches::Latches;
use crate::lock_manager::LockManager;
use crate::tso::TimeStamp;
use crate::store::key_versions;
use crate::txn::{lock_of, no_lock_at};
use crate::types::{PessimisticLockRes, ProcessResult, SecondaryLocksStatus, TxnStatus};

verus! {

/// How many locks one resolution pass handles before it reports the batch's
/// released locks; a tuning knob, not a correctness constant.
pub const RESOLVE_LOCK_BATCH_SIZE: usize = 16;

/// Every listed mutation can be prewritten on `eng` without failing.
pub open spec fn all_prewrite_ready(eng: Engine, mutations: Seq<Mutation>, start_ts: TimeStamp) -> bool {
    &&& eng.has_write && eng.has_lock && eng.has_default
    &&& forall|i: int|
        0 <= i < mutations.len() ==> crate::txn::prewrite_ready(
            eng,
            (#[trigger] mutations[i]).key_view(),
            start_ts,
        )
}

/// Every listed key can take the transaction's pessimistic lock on `eng`
/// without failing.
pub open spec fn all_pessimistic_ready(
    eng: Engine,
    keys: Seq<(Key, bool)>,
    start_ts: TimeStamp,
    for_update_ts: TimeStamp,
    return_values: bool,
) -> bool {
    &&& eng.has_lock && eng.has_write && eng.has_default
    &&& forall|i: int|
        0 <= i < keys.len() ==> crate::txn::pessimistic_ready(
            eng,
            (#[trigger] keys[i]).0@,
            start_ts,
            for_update_ts,
            return_values,
        )
}

/// What state of `eng` a failed prewrite reports: each error variant names
/// the key and the conflicting record or lock that caused it.
pub open spec fn prewrite_fail_cause(
    eng: Engine,
    mutations: Seq<Mutation>,
    primary: Seq<u8>,
    start_ts: TimeStamp,
    skip_constraint_check: bool,
    e: ErrorV,
) -> bool {
    match e {
        ErrorV::WriteConflict {
            start_ts: s,
            conflict_start_ts,
            conflict_commit_ts,
            key,
            primary: p,
        } => exists|i: int|
            0 <= i < mutations.len() && {
                let nw = crate::txn::newest_write(eng, (#[trigger] mutations[i]).key_view());
                &&& !skip_constraint_check
                &&& nw is Some
                &&& (nw->0).0 == conflict_commit_ts.0
                &&& (nw->0).1.start_ts == conflict_start_ts
                &&& conflict_commit_ts.0 >= start_ts.0
                &&& s == start_ts
                &&& key == crate::mvcc::raw_or_empty(mutations[i].key_view())
                &&& p == primary
            },
        ErrorV::KeyIsLocked(info) => exists|i: int|
            0 <= i < mutations.len() && {
                let lo = lock_of(eng, (#[trigger] mutations[i]).key_view());
                &&& lo is Some
                &&& lo->0.ts != start_ts
                &&& info == crate::kv::lock_info_of(
                    lo->0,
                    crate::mvcc::raw_or_empty(mutations[i].key_view()),
                )
            },
        ErrorV::EngineRequest(_) => !eng.has_write || !eng.has_lock || !eng.has_default,
        _ => false,
    }
}

/// What state of `eng` a failed pessimistic lock acquisition reports.
pub open spec fn acquire_fail_cause(
    eng: Engine,
    keys: Seq<(Key, bool)>,
    primary: Seq<u8>,
    start_ts: TimeStamp,
    for_update_ts: TimeStamp,
    return_values: bool,
    e: ErrorV,
) -> bool {
    match e {
        ErrorV::KeyIsLocked(info) => exists|i: int|
            0 <= i < keys.len() && {
                let lo = lock_of(eng, (#[trigger] keys[i]).0@);
                &&& lo is Some
                &&& lo->0.ts != start_ts
                &&& info == crate::kv::lock_info_of(
                    lo->0,
                    crate::mvcc::raw_or_empty(keys[i].0@),
                )
            },
        ErrorV::WriteConflict {
            start_ts: s,
            conflict_start_ts,
            conflict_commit_ts,
            key: ek,
            primary: p,
        } => exists|i: int|
            0 <= i < keys.len() && {
                let nw = crate::txn::newest_write(eng, (#[trigger] keys[i]).0@);
                &&& lock_of(eng, keys[i].0@) is None
                &&& nw is Some
                &&& (nw->0).0 == conflict_commit_ts.0
                &&& (nw->0).1.start_ts == conflict_start_ts
                &&& conflict_commit_ts.0 > for_update_ts.0
                &&& s == start_ts
                &&& ek == crate::mvcc::raw_or_empty(keys[i].0@)
                &&& p == primary
            },
        ErrorV::DefaultNotFound { key: ek } => exists|i: int|
            0 <= i < keys.len() && ek == crate::mvcc::raw_or_empty((#[trigger] keys[i]).0@)
                && return_values && crate::mvcc::mvcc_read_spec(
                eng.write.view_seq(),
                eng.data.view_seq(),
                keys[i].0@,
                for_update_ts.0,
            ) == crate::mvcc::MvccRead::Dangling,
        ErrorV::EngineRequest(_) => !eng.has_lock || !eng.has_write || !eng.has_default,
        _ => false,
    }
}

/// Each returned value is the key's visible version on `eng` at
/// `for_update_ts`.
pub open spec fn acquire_values_match(
    eng: Engine,
    keys: Seq<(Key, bool)>,
    for_update_ts: TimeStamp,
    vs: Seq<Option<Vec<u8>>>,
) -> bool {
    forall|i: int|
        0 <= i < keys.len() ==> (match vs[i] {
            Option::Some(valv) => crate::mvcc::mvcc_read_spec(
                eng.write.view_seq(),
                eng.data.view_seq(),
                (#[trigger] keys[i]).0@,
                for_update_ts.0,
            ) == crate::mvcc::MvccRead::Value(valv@),
            Option::None => crate::mvcc::mvcc_read_spec(
                eng.write.view_seq(),
                eng.data.view_seq(),
                (#[trigger] keys[i]).0@,
                for_update_ts.0,
            ) == crate::mvcc::MvccRead::NotFound,
        })
}

/// The write records a commit leaves: every key whose prewrite lock the
/// transaction held reads back its record at `commit_ts`.
pub open spec fn commit_records_left(
    pre: Engine,
    post: Engine,
    keys: Seq<Key>,
    lock_ts: TimeStamp,
    commit_ts: TimeStamp,
) -> bool {
    forall|i: int|
        0 <= i < keys.len() ==> (match lock_of(pre, (#[trigger] keys[i])@) {
            Option::Some(l) => (l.ts == lock_ts && l.lock_type != LockType::Pessimistic)
                ==> crate::store::store_get_spec(post.write.view_seq(), keys[i]@, commit_ts.0)
                == Option::Some(crate::txn::commit_write_v(l, lock_ts)),
            Option::None => true,
        })
}

/// What submitting a command produced.
#[derive(Debug)]
pub enum SchedOutcome {
    /// The command ran to an end; its typed result or failure.
    Finished(Result<ProcessResult, Error>),
    /// The command holds or waits for latches; its completion arrives later
    /// under this ticket.
    Pending(u64),
    /// The command is parked on the lock manager until a conflicting lock
    /// is released.
    WaitingForLock,
}

/// The next timestamp value, capped at the largest one.
pub open spec fn sat_inc(x: u64) -> u64 {
    if x == u64::MAX {
        u64::MAX
    } else {
        (x + 1) as u64
    }
}

/// The minimum commit timestamp an asynchronous prewrite records: at least
/// the requested one, above the start timestamp, and above every read
/// timestamp observed so far.
pub open spec fn effective_min_commit(
    min_commit_ts: TimeStamp,
    start_ts: TimeStamp,
    max_read_ts: TimeStamp,
    async_on: bool,
) -> TimeStamp {
    if async_on {
        let a = if min_commit_ts.0 > sat_inc(start_ts.0) {
            min_commit_ts.0
        } else {
            sat_inc(start_ts.0)
        };
        TimeStamp(
            if a > sat_inc(max_read_ts.0) {
                a
            } else {
                sat_inc(max_read_ts.0)
            },
        )
    } else {
        min_commit_ts
    }
}

/// A released-locks notification for the lock manager.
pub struct WakeUpEvent {
    pub lock_ts: TimeStamp,
    pub hashes: Vec<u64>,
    pub commit_ts: TimeStamp,
    pub pessimistic: bool,
}

/// Runs every prewrite mutation; on success each key carries the
/// transaction's lock.
fn process_prewrite(
    eng: &mut Engine,
    mutations: &Vec<Mutation>,
    primary: &Vec<u8>,
    start_ts: TimeStamp,
    lock_ttl: u64,
    skip_constraint_check: bool,
    txn_size: u64,
    min_commit_ts: TimeStamp,
    secondaries: &Option<Vec<Vec<u8>>>,
) -> (r: Result<ProcessResult, Error>)
    requires
        old(eng).wf(),
    ensures
        final(eng).wf(),
        r matches Result::Ok(pr) ==> pr == ProcessResult::Res,
        r is Ok ==> forall|i: int|
            0 <= i < mutations@.len() ==> {
                &&& lock_of(*final(eng), (#[trigger] mutations@[i]).key_view()) is Some
                &&& lock_of(*final(eng), mutations@[i].key_view())->0.ts == start_ts
            },
        crate::txn::keys_pairwise_distinct(
            Seq::new(mutations@.len(), |i: int| mutations@[i].key_view()),
        ) && r is Ok ==> forall|i: int|
            0 <= i < mutations@.len() ==> lock_of(
                *final(eng),
                (#[trigger] mutations@[i]).key_view(),
            ) == Option::Some(
                crate::txn::prewrite_result_lock(
                    *old(eng),
                    mutations@[i],
                    primary@,
                    start_ts,
                    lock_ttl,
                    txn_size,
                    min_commit_ts,
                    match *secondaries {
                        Option::Some(sv) => Option::Some(crate::kv::bytes_list_view(sv@)),
                        Option::None => Option::None,
                    },
                ),
            ),
        old(eng).has_write && old(eng).has_lock && old(eng).has_default
            && crate::txn::keys_pairwise_distinct(
            Seq::new(mutations@.len(), |i: int| mutations@[i].key_view()),
        ) && (forall|i: int|
            0 <= i < mutations@.len() ==> crate::txn::prewrite_ready(
                *old(eng),
                (#[trigger] mutations@[i]).key_view(),
                start_ts,
            )) ==> r is Ok,
        crate::txn::keys_pairwise_distinct(
            Seq::new(mutations@.len(), |i: int| mutations@[i].key_view()),
        ) ==> (r matches Result::Err(e) ==> (match e@ {
            ErrorV::WriteConflict {
                start_ts: s,
                conflict_start_ts,
                conflict_commit_ts,
                key,
                primary: p,
            } => exists|i: int|
                0 <= i < mutations@.len() && {
                    let nw = crate::txn::newest_write(
                        *old(eng),
                        (#[trigger] mutations@[i]).key_view(),
                    );
                    &&& !skip_constraint_check
                    &&& nw is Some
                    &&& (nw->0).0 == conflict_commit_ts.0
                    &&& (nw->0).1.start_ts == conflict_start_ts
                    &&& conflict_commit_ts.0 >= start_ts.0
                    &&& s == start_ts
                    &&& key == crate::mvcc::raw_or_empty(mutations@[i].key_view())
                    &&& p == primary@
                },
            ErrorV::KeyIsLocked(info) => exists|i: int|
                0 <= i < mutations@.len() && {
                    let lo = lock_of(*old(eng), (#[trigger] mutations@[i]).key_view());
                    &&& lo is Some
                    &&& lo->0.ts != start_ts
                    &&& info == crate::kv::lock_info_of(
                        lo->0,
                        crate::mvcc::raw_or_empty(mutations@[i].key_view()),
                    )
                },
            ErrorV::EngineRequest(_) => !old(eng).has_write || !old(eng).has_lock || !old(
                eng,
            ).has_default,
            _ => false,
        })),
{
    let ghost mkeys = Seq::new(mutations@.len(), |i: int| mutations@[i].key_view());
    let ghost distinct = crate::txn::keys_pairwise_distinct(mkeys);
    let ghost secs_v: Option<Seq<Seq<u8>>> = match secondaries {
        Option::Some(sv) => Option::Some(crate::kv::bytes_list_view(sv@)),
        Option::None => Option::None,
    };
    let empty_secs: Vec<Vec<u8>> = Vec::new();
    let mut i: usize = 0;
    let n = mutations.len();
    while i < n
        invariant
            0 <= i <= n,
            n == mutations@.len(),
            eng.wf(),
            mkeys == Seq::new(mutations@.len(), |x: int| mutations@[x].key_view()),
            distinct == crate::txn::keys_pairwise_distinct(mkeys),
            secs_v == (match secondaries {
                Option::Some(sv) => Option::Some(crate::kv::bytes_list_view(sv@)),
                Option::None => Option::<Seq<Seq<u8>>>::None,
            }),
            empty_secs@.len() == 0,
            eng.write == old(eng).write,
            eng.has_write == old(eng).has_write,
            eng.has_lock == old(eng).has_lock,
            eng.has_default == old(eng).has_default,
            forall|j: int|
                0 <= j < i ==> {
                    &&& lock_of(*eng, (#[trigger] mutations@[j]).key_view()) is Some
                    &&& lock_of(*eng, mutations@[j].key_view())->0.ts == start_ts
                },
            distinct ==> forall|j: int|
                i <= j < n ==> lock_of(*eng, (#[trigger] mutations@[j]).key_view()) == lock_of(
                    *old(eng),
                    mutations@[j].key_view(),
                ),
            distinct ==> forall|j: int|
                0 <= j < i ==> lock_of(*eng, (#[trigger] mutations@[j]).key_view())
                    == Option::Some(
                    crate::txn::prewrite_result_lock(
                        *old(eng),
                        mutations@[j],
                        primary@,
                        start_ts,
                        lock_ttl,
                        txn_size,
                        min_commit_ts,
                        secs_v,
                    ),
                ),
        decreases n - i,
    {
        let m = &mutations[i];
        let use_secs: Option<&Vec<Vec<u8>>> = match secondaries {
            Option::Some(secs) => {
                let is_primary = match m.key().to_raw() {
                    Option::Some(raw) => crate::codec::lex_cmp(&raw, primary)
                        == crate::codec::KeyOrd::Equal,
                    Option::None => false,
                };
                if is_primary {
                    Option::Some(secs)
                } else {
                    Option::Some(&empty_secs)
                }
            },
            Option::None => Option::None,
        };
        proof {
            let mk = mutations@[i as int].key_view();
            assert((match use_secs {
                Option::Some(s) => Option::Some(crate::kv::bytes_list_view(s@)),
                Option::None => Option::<Seq<Seq<u8>>>::None,
            }) == crate::txn::prewrite_secs_view(mk, primary@, secs_v)) by {
                if secs_v is Some {
                    assert(crate::kv::bytes_list_view(empty_secs@) =~= Seq::<Seq<u8>>::empty());
                }
            }
        }
        let ghost pre = *eng;
        match crate::txn::prewrite_key(
            eng,
            m,
            primary,
            start_ts,
            lock_ttl,
            txn_size,
            min_commit_ts,
            skip_constraint_check,
            use_secs,
        ) {
            Result::Err(e) => {
                proof {
                    if distinct {
                        let mk = mutations@[i as int].key_view();
                        assert(lock_of(pre, mk) == lock_of(*old(eng), mk));
                        assert(crate::txn::newest_write(pre, mk) == crate::txn::newest_write(
                            *old(eng),
                            mk,
                        ));
                    }
                }
                return Result::Err(e);
            },
            Result::Ok(()) => {},
        }
        proof {
            let mk = mutations@[i as int].key_view();
            match lock_of(pre, mk) {
                Option::Some(_) => {
                    assert(*eng == pre);
                },
                Option::None => {
                    let lv = crate::txn::prewrite_lock_v(
                        mutations@[i as int].lock_kind(),
                        primary@,
                        start_ts,
                        lock_ttl,
                        mutations@[i as int].value_view(),
                        TimeStamp(0),
                        txn_size,
                        min_commit_ts,
                        match use_secs {
                            Option::Some(s) => Option::Some(crate::kv::bytes_list_view(s@)),
                            Option::None => Option::None,
                        },
                    );
                    assert(eng.lock.view_seq() == crate::store::store_put_spec(
                        pre.lock.view_seq(),
                        mk,
                        0,
                        lv,
                    ));
                    assert forall|j: int| 0 <= j <= i implies {
                        &&& lock_of(*eng, (#[trigger] mutations@[j]).key_view()) is Some
                        &&& lock_of(*eng, mutations@[j].key_view())->0.ts == start_ts
                    } by {
                        crate::store::lemma_put_get(
                            pre.lock.view_seq(),
                            mk,
                            0,
                            lv,
                            mutations@[j].key_view(),
                            0,
                        );
                    }
                    if distinct {
                        assert forall|j: int| 0 <= j < n implies lock_of(
                            *eng,
                            (#[trigger] mutations@[j]).key_view(),
                        ) == (if j == i {
                            Option::Some(lv)
                        } else {
                            lock_of(pre, mutations@[j].key_view())
                        }) by {
                            if j != i {
                                assert(mkeys[j] != mkeys[i as int]);
                            }
                            crate::store::lemma_put_get(
                                pre.lock.view_seq(),
                                mk,
                                0,
                                lv,
                                mutations@[j].key_view(),
                                0,
                            );
                        }
                    }
                },
            }
        }
        i = i + 1;
    }
    Result::Ok(ProcessResult::Res)
}

/// Commits every key; on success none carries the transaction's lock any
/// more.  Returns the released locks' digests for the lock manager.
fn process_commit(eng: &mut Engine, keys: &Vec<Key>, lock_ts: TimeStamp, commit_ts: TimeStamp) -> (r:
    Result<(ProcessResult, WakeUpEvent), Error>)
    requires
        old(eng).wf(),
    ensures
        final(eng).wf(),
        r matches Result::Ok((pr, _)) ==> pr == ProcessResult::TxnStatus(
            TxnStatus::Committed { commit_ts },
        ),
        r is Ok ==> forall|i: int|
            0 <= i < keys@.len() ==> no_lock_at(*final(eng), (#[trigger] keys@[i])@, lock_ts),
        crate::txn::keys_pairwise_distinct(Seq::new(keys@.len(), |i: int| keys@[i]@)) && (forall|
            i: int,
        |
            0 <= i < keys@.len() ==> crate::txn::commit_ready(
                *old(eng),
                (#[trigger] keys@[i])@,
                lock_ts,
            )) ==> r is Ok,
        crate::txn::keys_pairwise_distinct(Seq::new(keys@.len(), |i: int| keys@[i]@))
            && commit_ts.0 > lock_ts.0 && (forall|i: int|
            0 <= i < keys@.len() ==> crate::txn::versions_below(
                *old(eng),
                (#[trigger] keys@[i])@,
                commit_ts.0,
            )) && r is Ok ==> forall|i: int|
            0 <= i < keys@.len() ==> !crate::txn::no_forward_record(
                *final(eng),
                (#[trigger] keys@[i])@,
                lock_ts,
            ),
        final(eng).data == old(eng).data,
        final(eng).raw_default == old(eng).raw_default,
        final(eng).raw_lock == old(eng).raw_lock,
        final(eng).raw_write == old(eng).raw_write,
        final(eng).has_default == old(eng).has_default,
        final(eng).has_lock == old(eng).has_lock,
        final(eng).has_write == old(eng).has_write,
        final(eng).has_raft == old(eng).has_raft,
        crate::txn::keys_pairwise_distinct(Seq::new(keys@.len(), |i: int| keys@[i]@)) && r is Ok
            ==> forall|i: int|
            0 <= i < keys@.len() ==> (match crate::txn::lock_of(*old(eng), (#[trigger] keys@[i])@) {
                Option::Some(l) => (l.ts == lock_ts && l.lock_type != crate::kv::LockType::Pessimistic)
                    ==> crate::store::store_get_spec(
                    final(eng).write.view_seq(),
                    keys@[i]@,
                    commit_ts.0,
                ) == Option::Some(crate::txn::commit_write_v(l, lock_ts)),
                Option::None => true,
            }),
{
    let ghost kviews = Seq::new(keys@.len(), |i: int| keys@[i]@);
    let ghost distinct = crate::txn::keys_pairwise_distinct(kviews);
    let ghost all_ready = forall|i: int|
        0 <= i < keys@.len() ==> crate::txn::commit_ready(*old(eng), (#[trigger] keys@[i])@, lock_ts);
    let ghost all_below = forall|i: int|
        0 <= i < keys@.len() ==> crate::txn::versions_below(
            *old(eng),
            (#[trigger] keys@[i])@,
            commit_ts.0,
        );
    let mut hashes: Vec<u64> = Vec::new();
    let mut pessimistic = false;
    let mut i: usize = 0;
    let n = keys.len();
    while i < n
        invariant
            0 <= i <= n,
            n == keys@.len(),
            eng.wf(),
            kviews == Seq::new(keys@.len(), |x: int| keys@[x]@),
            distinct == crate::txn::keys_pairwise_distinct(kviews),
            all_ready == (forall|x: int|
                0 <= x < keys@.len() ==> crate::txn::commit_ready(
                    *old(eng),
                    (#[trigger] keys@[x])@,
                    lock_ts,
                )),
            all_below == (forall|x: int|
                0 <= x < keys@.len() ==> crate::txn::versions_below(
                    *old(eng),
                    (#[trigger] keys@[x])@,
                    commit_ts.0,
                )),
            eng.data == old(eng).data,
            eng.raw_default == old(eng).raw_default,
            eng.raw_lock == old(eng).raw_lock,
            eng.raw_write == old(eng).raw_write,
            eng.has_default == old(eng).has_default,
            eng.has_lock == old(eng).has_lock,
            eng.has_write == old(eng).has_write,
            eng.has_raft == old(eng).has_raft,
            forall|j: int| 0 <= j < i ==> no_lock_at(*eng, (#[trigger] keys@[j])@, lock_ts),
            distinct ==> forall|j: int|
                i <= j < n ==> crate::txn::lock_of(*eng, (#[trigger] keys@[j])@)
                    == crate::txn::lock_of(*old(eng), keys@[j]@),
            distinct ==> forall|j: int|
                0 <= j < i ==> (match crate::txn::lock_of(*old(eng), (#[trigger] keys@[j])@) {
                    Option::Some(l) => (l.ts == lock_ts && l.lock_type
                        != crate::kv::LockType::Pessimistic) ==> crate::store::store_get_spec(
                        eng.write.view_seq(),
                        keys@[j]@,
                        commit_ts.0,
                    ) == Option::Some(crate::txn::commit_write_v(l, lock_ts)),
                    Option::None => true,
                }),
            distinct && all_ready ==> forall|j: int|
                i <= j < n ==> crate::txn::commit_ready(*eng, (#[trigger] keys@[j])@, lock_ts),
            distinct && commit_ts.0 > lock_ts.0 && all_below ==> forall|j: int|
                0 <= j < i ==> !crate::txn::no_forward_record(
                    *eng,
                    (#[trigger] keys@[j])@,
                    lock_ts,
                ),
            distinct && commit_ts.0 > lock_ts.0 && all_below ==> forall|j: int|
                i <= j < n ==> crate::txn::versions_below(*eng, (#[trigger] keys@[j])@, commit_ts.0),
        decreases n - i,
    {
        let ghost pre = *eng;
        match crate::txn::commit_key(eng, &keys[i], lock_ts, commit_ts) {
            Result::Err(e) => {
                proof {
                    if distinct && all_ready {
                        assert(crate::txn::commit_ready(pre, keys@[i as int]@, lock_ts));
                    }
                }
                return Result::Err(e);
            },
            Result::Ok((_actual, released)) => {
                match released {
                    Option::Some(l) => {
                        hashes.push(keys[i].gen_hash());
                        if l.for_update_ts.0 > 0 {
                            pessimistic = true;
                        }
                        proof {
                            let ki = keys@[i as int]@;
                            assert forall|j: int| 0 <= j <= i implies no_lock_at(
                                *eng,
                                (#[trigger] keys@[j])@,
                                lock_ts,
                            ) by {
                                crate::store::lemma_del_get(
                                    pre.lock.view_seq(),
                                    ki,
                                    0,
                                    keys@[j]@,
                                    0,
                                );
                            }
                            if distinct {
                                assert forall|j: int| i < j < n implies crate::txn::lock_of(
                                    *eng,
                                    (#[trigger] keys@[j])@,
                                ) == crate::txn::lock_of(*old(eng), keys@[j]@) by {
                                    assert(kviews[j] != kviews[i as int]);
                                    crate::store::lemma_del_get(
                                        pre.lock.view_seq(),
                                        ki,
                                        0,
                                        keys@[j]@,
                                        0,
                                    );
                                }
                                let li = crate::txn::lock_of(pre, ki)->0;
                                let rec2 = crate::txn::commit_write_v(li, lock_ts);
                                crate::store::lemma_put_get(
                                    pre.write.view_seq(),
                                    ki,
                                    commit_ts.0,
                                    rec2,
                                    ki,
                                    commit_ts.0,
                                );
                                assert(crate::store::store_get_spec(
                                    eng.write.view_seq(),
                                    ki,
                                    commit_ts.0,
                                ) == Option::Some(rec2));
                                assert forall|j: int| 0 <= j < i implies (
                                match crate::txn::lock_of(*old(eng), (#[trigger] keys@[j])@) {
                                    Option::Some(l) => (l.ts == lock_ts && l.lock_type
                                        != crate::kv::LockType::Pessimistic)
                                        ==> crate::store::store_get_spec(
                                        eng.write.view_seq(),
                                        keys@[j]@,
                                        commit_ts.0,
                                    ) == Option::Some(crate::txn::commit_write_v(l, lock_ts)),
                                    Option::None => true,
                                }) by {
                                    assert(kviews[j] != kviews[i as int]);
                                    crate::store::lemma_put_get(
                                        pre.write.view_seq(),
                                        ki,
                                        commit_ts.0,
                                        rec2,
                                        keys@[j]@,
                                        commit_ts.0,
                                    );
                                }
                            }
                            if distinct && all_ready {
                                assert forall|j: int| i < j < n implies crate::txn::commit_ready(
                                    *eng,
                                    (#[trigger] keys@[j])@,
                                    lock_ts,
                                ) by {
                                    assert(kviews[j] != kviews[i as int]);
                                    crate::store::lemma_del_get(
                                        pre.lock.view_seq(),
                                        ki,
                                        0,
                                        keys@[j]@,
                                        0,
                                    );
                                    crate::store::lemma_put_versions(
                                        pre.write.view_seq(),
                                        ki,
                                        commit_ts.0,
                                        crate::kv::WriteV {
                                            write_type: crate::txn::commit_kind(
                                                crate::txn::lock_of(pre, ki)->0.lock_type,
                                            ),
                                            start_ts: lock_ts,
                                            short_value: crate::txn::lock_of(
                                                pre,
                                                ki,
                                            )->0.short_value,
                                        },
                                        keys@[j]@,
                                    );
                                }
                            }
                            if distinct {
                                if commit_ts.0 > lock_ts.0 && all_below {
                                    let rec = crate::kv::WriteV {
                                        write_type: crate::txn::commit_kind(
                                            crate::txn::lock_of(pre, ki)->0.lock_type,
                                        ),
                                        start_ts: lock_ts,
                                        short_value: crate::txn::lock_of(pre, ki)->0.short_value,
                                    };
                                    crate::store::lemma_put_versions_newest(
                                        pre.write.view_seq(),
                                        ki,
                                        commit_ts.0,
                                        rec,
                                    );
                                    assert(!crate::txn::no_forward_record(*eng, ki, lock_ts)) by {
                                        let nvs = seq![(commit_ts.0, rec)] + key_versions(
                                            pre.write.view_seq(),
                                            ki,
                                        );
                                        assert(key_versions(eng.write.view_seq(), ki) == nvs);
                                        assert(nvs[0] == (commit_ts.0, rec));
                                    }
                                    assert forall|j: int|
                                        0 <= j < i implies !crate::txn::no_forward_record(
                                        *eng,
                                        (#[trigger] keys@[j])@,
                                        lock_ts,
                                    ) by {
                                        assert(kviews[j] != kviews[i as int]);
                                        crate::store::lemma_put_versions(
                                            pre.write.view_seq(),
                                            ki,
                                            commit_ts.0,
                                            rec,
                                            keys@[j]@,
                                        );
                                    }
                                    assert forall|j: int|
                                        i < j < n implies crate::txn::versions_below(
                                        *eng,
                                        (#[trigger] keys@[j])@,
                                        commit_ts.0,
                                    ) by {
                                        assert(kviews[j] != kviews[i as int]);
                                        crate::store::lemma_put_versions(
                                            pre.write.view_seq(),
                                            ki,
                                            commit_ts.0,
                                            rec,
                                            keys@[j]@,
                                        );
                                    }
                                }
                            }
                        }
                    },
                    Option::None => {
                        proof {
                            assert(*eng == pre);
                        }
                    },
                }
            },
        }
        i = i + 1;
    }
    let wake = WakeUpEvent { lock_ts, hashes, commit_ts, pessimistic };
    Result::Ok((ProcessResult::TxnStatus(TxnStatus::committed(commit_ts)), wake))
}

/// Rolls every key back; on success none carries the transaction's lock.
fn process_rollback(eng: &mut Engine, keys: &Vec<Key>, start_ts: TimeStamp) -> (r: Result<
    (ProcessResult, WakeUpEvent),
    Error,
>)
    requires
        old(eng).wf(),
    ensures
        final(eng).wf(),
        r matches Result::Ok((pr, _)) ==> pr == ProcessResult::Res,
        r is Ok ==> forall|i: int|
            0 <= i < keys@.len() ==> no_lock_at(*final(eng), (#[trigger] keys@[i])@, start_ts),
{
    let mut hashes: Vec<u64> = Vec::new();
    let mut pessimistic = false;
    let mut i: usize = 0;
    let n = keys.len();
    while i < n
        invariant
            0 <= i <= n,
            n == keys@.len(),
            eng.wf(),
            forall|j: int| 0 <= j < i ==> no_lock_at(*eng, (#[trigger] keys@[j])@, start_ts),
        decreases n - i,
    {
        let ghost pre = *eng;
        match crate::txn::rollback_key(eng, &keys[i], start_ts) {
            Result::Err(e) => {
                return Result::Err(e);
            },
            Result::Ok(released) => {
                match released {
                    Option::Some(l) => {
                        hashes.push(keys[i].gen_hash());
                        if l.for_update_ts.0 > 0 || matches!(l.lock_type, LockType::Pessimistic) {
                            pessimistic = true;
                        }
                        proof {
                            assert forall|j: int| 0 <= j <= i implies no_lock_at(
                                *eng,
                                (#[trigger] keys@[j])@,
                                start_ts,
                            ) by {
                                crate::store::lemma_del_get(
                                    pre.lock.view_seq(),
                                    keys@[i as int]@,
                                    0,
                                    keys@[j]@,
                                    0,
                                );
                            }
                        }
                    },
                    Option::None => {
                        proof {
                            assert(eng.lock == pre.lock);
                        }
                    },
                }
            },
        }
        i = i + 1;
    }
    let wake = WakeUpEvent { lock_ts: start_ts, hashes, commit_ts: TimeStamp(0), pessimistic };
    Result::Ok((ProcessResult::Res, wake))
}

/// Removes the transaction's pessimistic locks from every key.
fn process_pessimistic_rollback(
    eng: &mut Engine,
    keys: &Vec<Key>,
    start_ts: TimeStamp,
    for_update_ts: TimeStamp,
) -> (r: Result<(ProcessResult, WakeUpEvent), Error>)
    requires
        old(eng).wf(),
    ensures
        final(eng).wf(),
        r matches Result::Ok((pr, _)) ==> pr == ProcessResult::Res,
{
    let mut hashes: Vec<u64> = Vec::new();
    let mut any = false;
    let mut i: usize = 0;
    let n = keys.len();
    while i < n
        invariant
            0 <= i <= n,
            n == keys@.len(),
            eng.wf(),
        decreases n - i,
    {
        match crate::txn::pessimistic_rollback_key(eng, &keys[i], start_ts, for_update_ts) {
            Result::Err(e) => {
                return Result::Err(e);
            },
            Result::Ok(released) => {
                if matches!(released, Option::Some(_)) {
                    hashes.push(keys[i].gen_hash());
                    any = true;
                }
            },
        }
        i = i + 1;
    }
    let wake = WakeUpEvent {
        lock_ts: start_ts,
        hashes,
        commit_ts: TimeStamp(0),
        pessimistic: any,
    };
    Result::Ok((ProcessResult::Res, wake))
}

/// Acquires pessimistic locks on every key, collecting values if asked to.
fn process_acquire_pessimistic(
    eng: &mut Engine,
    keys: &Vec<(Key, bool)>,
    primary: &Vec<u8>,
    start_ts: TimeStamp,
    lock_ttl: u64,
    for_update_ts: TimeStamp,
    min_commit_ts: TimeStamp,
    return_values: bool,
) -> (r: Result<ProcessResult, Error>)
    requires
        old(eng).wf(),
    ensures
        final(eng).wf(),
        r matches Result::Ok(pr) ==> (pr matches ProcessResult::PessimisticLockRes(res) && (
        res matches Result::Ok(v) && (if return_values {
            v matches PessimisticLockRes::Values(vs) && vs@.len() == keys@.len()
        } else {
            v == PessimisticLockRes::Empty
        }))),
        final(eng).write == old(eng).write,
        final(eng).data == old(eng).data,
        r is Ok ==> forall|i: int|
            0 <= i < keys@.len() ==> {
                &&& lock_of(*final(eng), (#[trigger] keys@[i]).0@) is Some
                &&& lock_of(*final(eng), keys@[i].0@)->0.ts == start_ts
            },
        return_values && r is Ok ==> (r matches Result::Ok(pr) && (pr
            matches ProcessResult::PessimisticLockRes(res) && (res matches Result::Ok(v) && (v
            matches PessimisticLockRes::Values(vs) && forall|i: int|
            0 <= i < keys@.len() ==> (match vs@[i] {
                Option::Some(valv) => crate::mvcc::mvcc_read_spec(
                    old(eng).write.view_seq(),
                    old(eng).data.view_seq(),
                    (#[trigger] keys@[i]).0@,
                    for_update_ts.0,
                ) == crate::mvcc::MvccRead::Value(valv@),
                Option::None => crate::mvcc::mvcc_read_spec(
                    old(eng).write.view_seq(),
                    old(eng).data.view_seq(),
                    (#[trigger] keys@[i]).0@,
                    for_update_ts.0,
                ) == crate::mvcc::MvccRead::NotFound,
            }))))),
        old(eng).has_lock && old(eng).has_write && old(eng).has_default
            && crate::txn::keys_pairwise_distinct(Seq::new(keys@.len(), |i: int| keys@[i].0@)) && (
        forall|i: int|
            0 <= i < keys@.len() ==> crate::txn::pessimistic_ready(
                *old(eng),
                (#[trigger] keys@[i]).0@,
                start_ts,
                for_update_ts,
                return_values,
            )) ==> r is Ok,
        crate::txn::keys_pairwise_distinct(Seq::new(keys@.len(), |i: int| keys@[i].0@)) ==> (r
            matches Result::Err(e) ==> (match e@ {
            ErrorV::KeyIsLocked(info) => exists|i: int|
                0 <= i < keys@.len() && {
                    let lo = lock_of(*old(eng), (#[trigger] keys@[i]).0@);
                    &&& lo is Some
                    &&& lo->0.ts != start_ts
                    &&& info == crate::kv::lock_info_of(
                        lo->0,
                        crate::mvcc::raw_or_empty(keys@[i].0@),
                    )
                },
            ErrorV::WriteConflict {
                start_ts: s,
                conflict_start_ts,
                conflict_commit_ts,
                key: ek,
                primary: p,
            } => exists|i: int|
                0 <= i < keys@.len() && {
                    let nw = crate::txn::newest_write(*old(eng), (#[trigger] keys@[i]).0@);
                    &&& lock_of(*old(eng), keys@[i].0@) is None
                    &&& nw is Some
                    &&& (nw->0).0 == conflict_commit_ts.0
                    &&& (nw->0).1.start_ts == conflict_start_ts
                    &&& conflict_commit_ts.0 > for_update_ts.0
                    &&& s == start_ts
                    &&& ek == crate::mvcc::raw_or_empty(keys@[i].0@)
                    &&& p == primary@
                },
            ErrorV::DefaultNotFound { key: ek } => exists|i: int|
                0 <= i < keys@.len() && ek == crate::mvcc::raw_or_empty((#[trigger] keys@[i]).0@)
                    && return_values && crate::mvcc::mvcc_read_spec(
                    old(eng).write.view_seq(),
                    old(eng).data.view_seq(),
                    keys@[i].0@,
                    for_update_ts.0,
                ) == crate::mvcc::MvccRead::Dangling,
            ErrorV::EngineRequest(_) => !old(eng).has_lock || !old(eng).has_write || !old(
                eng,
            ).has_default,
            _ => false,
        })),
{
    let ghost kviews = Seq::new(keys@.len(), |i: int| keys@[i].0@);
    let ghost distinct = crate::txn::keys_pairwise_distinct(kviews);
    let mut values: Vec<Option<Vec<u8>>> = Vec::new();
    let mut i: usize = 0;
    let n = keys.len();
    while i < n
        invariant
            0 <= i <= n,
            n == keys@.len(),
            eng.wf(),
            kviews == Seq::new(keys@.len(), |x: int| keys@[x].0@),
            distinct == crate::txn::keys_pairwise_distinct(kviews),
            eng.write == old(eng).write,
            eng.data == old(eng).data,
            eng.has_lock == old(eng).has_lock,
            eng.has_write == old(eng).has_write,
            eng.has_default == old(eng).has_default,
            values@.len() == (if return_values {
                i as int
            } else {
                0
            }),
            forall|j: int|
                0 <= j < i ==> {
                    &&& lock_of(*eng, (#[trigger] keys@[j]).0@) is Some
                    &&& lock_of(*eng, keys@[j].0@)->0.ts == start_ts
                },
            distinct ==> forall|j: int|
                i <= j < n ==> lock_of(*eng, (#[trigger] keys@[j]).0@) == lock_of(
                    *old(eng),
                    keys@[j].0@,
                ),
            return_values ==> forall|j: int|
                0 <= j < i ==> (match values@[j] {
                    Option::Some(valv) => crate::mvcc::mvcc_read_spec(
                        old(eng).write.view_seq(),
                        old(eng).data.view_seq(),
                        (#[trigger] keys@[j]).0@,
                        for_update_ts.0,
                    ) == crate::mvcc::MvccRead::Value(valv@),
                    Option::None => crate::mvcc::mvcc_read_spec(
                        old(eng).write.view_seq(),
                        old(eng).data.view_seq(),
                        (#[trigger] keys@[j]).0@,
                        for_update_ts.0,
                    ) == crate::mvcc::MvccRead::NotFound,
                }),
        decreases n - i,
    {
        let ghost pre = *eng;
        match crate::txn::acquire_pessimistic_lock_key(
            eng,
            &keys[i].0,
            primary,
            start_ts,
            lock_ttl,
            for_update_ts,
            min_commit_ts,
            return_values,
        ) {
            Result::Err(e) => {
                proof {
                    if distinct {
                        let ki = keys@[i as int].0@;
                        assert(lock_of(pre, ki) == lock_of(*old(eng), ki));
                    }
                }
                return Result::Err(e);
            },
            Result::Ok(Option::Some(v)) => {
                values.push(v);
            },
            Result::Ok(Option::None) => {},
        }
        proof {
            let ki = keys@[i as int].0@;
            match lock_of(pre, ki) {
                Option::Some(l) => {
                    if for_update_ts.0 > l.for_update_ts.0 {
                        let lv = (crate::kv::LockV { for_update_ts: for_update_ts, ..l });
                        assert forall|j: int| 0 <= j <= i implies lock_of(
                            *eng,
                            (#[trigger] keys@[j]).0@,
                        ) is Some && lock_of(*eng, keys@[j].0@)->0.ts == start_ts by {
                            crate::store::lemma_put_get(
                                pre.lock.view_seq(),
                                ki,
                                0,
                                lv,
                                keys@[j].0@,
                                0,
                            );
                        }
                        if distinct {
                            assert forall|j: int| i < j < n implies lock_of(
                                *eng,
                                (#[trigger] keys@[j]).0@,
                            ) == lock_of(*old(eng), keys@[j].0@) by {
                                assert(kviews[j] != kviews[i as int]);
                                crate::store::lemma_put_get(
                                    pre.lock.view_seq(),
                                    ki,
                                    0,
                                    lv,
                                    keys@[j].0@,
                                    0,
                                );
                            }
                        }
                    } else {
                        assert(eng.lock.view_seq() == pre.lock.view_seq());
                    }
                },
                Option::None => {
                    let lv = crate::txn::pessimistic_lock_v(
                        primary@,
                        start_ts,
                        lock_ttl,
                        for_update_ts,
                        min_commit_ts,
                    );
                    assert forall|j: int| 0 <= j <= i implies lock_of(
                        *eng,
                        (#[trigger] keys@[j]).0@,
                    ) is Some && lock_of(*eng, keys@[j].0@)->0.ts == start_ts by {
                        crate::store::lemma_put_get(
                            pre.lock.view_seq(),
                            ki,
                            0,
                            lv,
                            keys@[j].0@,
                            0,
                        );
                    }
                    if distinct {
                        assert forall|j: int| i < j < n implies lock_of(
                            *eng,
                            (#[trigger] keys@[j]).0@,
                        ) == lock_of(*old(eng), keys@[j].0@) by {
                            assert(kviews[j] != kviews[i as int]);
                            crate::store::lemma_put_get(
                                pre.lock.view_seq(),
                                ki,
                                0,
                                lv,
                                keys@[j].0@,
                                0,
                            );
                        }
                    }
                },
            }
        }
        i = i + 1;
    }
    let res = if return_values {
        PessimisticLockRes::Values(values)
    } else {
        PessimisticLockRes::Empty
    };
    Result::Ok(ProcessResult::PessimisticLockRes(Result::Ok(res)))
}

/// Converts the transaction's pessimistic locks into prewrite locks.
fn process_pessimistic_prewrite(
    eng: &mut Engine,
    mutations: &Vec<(Mutation, bool)>,
    primary: &Vec<u8>,
    start_ts: TimeStamp,
    lock_ttl: u64,
    for_update_ts: TimeStamp,
    txn_size: u64,
    min_commit_ts: TimeStamp,
    secondaries: &Option<Vec<Vec<u8>>>,
) -> (r: Result<ProcessResult, Error>)
    requires
        old(eng).wf(),
    ensures
        final(eng).wf(),
        r matches Result::Ok(pr) ==> pr == ProcessResult::Res,
        r is Ok ==> forall|i: int|
            0 <= i < mutations@.len() ==> {
                &&& lock_of(*final(eng), (#[trigger] mutations@[i]).0.key_view()) is Some
                &&& lock_of(*final(eng), mutations@[i].0.key_view())->0.ts == start_ts
            },
{
    let empty_secs: Vec<Vec<u8>> = Vec::new();
    let mut i: usize = 0;
    let n = mutations.len();
    while i < n
        invariant
            0 <= i <= n,
            n == mutations@.len(),
            eng.wf(),
            forall|j: int|
                0 <= j < i ==> {
                    &&& lock_of(*eng, (#[trigger] mutations@[j]).0.key_view()) is Some
                    &&& lock_of(*eng, mutations@[j].0.key_view())->0.ts == start_ts
                },
        decreases n - i,
    {
        let ghost pre0 = *eng;
        let m = &mutations[i].0;
        let is_pessimistic_lock = mutations[i].1;
        let use_secs: Option<&Vec<Vec<u8>>> = match secondaries {
            Option::Some(secs) => {
                let is_primary = match m.key().to_raw() {
                    Option::Some(raw) => crate::codec::lex_cmp(&raw, primary)
                        == crate::codec::KeyOrd::Equal,
                    Option::None => false,
                };
                if is_primary {
                    Option::Some(secs)
                } else {
                    Option::Some(&empty_secs)
                }
            },
            Option::None => Option::None,
        };
        match crate::txn::pessimistic_prewrite_key(
            eng,
            m,
            is_pessimistic_lock,
            primary,
            start_ts,
            lock_ttl,
            for_update_ts,
            txn_size,
            min_commit_ts,
            use_secs,
        ) {
            Result::Err(e) => {
                return Result::Err(e);
            },
            Result::Ok(()) => {},
        }
        proof {
            let mk = mutations@[i as int].0.key_view();
            let ghost secs_used: Option<Seq<Seq<u8>>> = match use_secs {
                Option::Some(sv) => Option::Some(crate::kv::bytes_list_view(sv@)),
                Option::None => Option::None,
            };
            match lock_of(pre0, mk) {
                Option::Some(l0) => {
                    if l0.lock_type != crate::kv::LockType::Pessimistic {
                        assert(*eng == pre0);
                    } else {
                        let lv = crate::txn::prewrite_lock_v(
                            mutations@[i as int].0.lock_kind(),
                            primary@,
                            start_ts,
                            if l0.ttl > lock_ttl {
                                l0.ttl
                            } else {
                                lock_ttl
                            },
                            mutations@[i as int].0.value_view(),
                            for_update_ts,
                            txn_size,
                            min_commit_ts,
                            secs_used,
                        );
                        assert forall|j: int| 0 <= j <= i implies {
                            &&& lock_of(*eng, (#[trigger] mutations@[j]).0.key_view()) is Some
                            &&& lock_of(*eng, mutations@[j].0.key_view())->0.ts == start_ts
                        } by {
                            crate::store::lemma_put_get(
                                pre0.lock.view_seq(),
                                mk,
                                0,
                                lv,
                                mutations@[j].0.key_view(),
                                0,
                            );
                        }
                    }
                },
                Option::None => {
                    let lv = crate::txn::prewrite_lock_v(
                        mutations@[i as int].0.lock_kind(),
                        primary@,
                        start_ts,
                        lock_ttl,
                        mutations@[i as int].0.value_view(),
                        for_update_ts,
                        txn_size,
                        min_commit_ts,
                        secs_used,
                    );
                    assert forall|j: int| 0 <= j <= i implies {
                        &&& lock_of(*eng, (#[trigger] mutations@[j]).0.key_view()) is Some
                        &&& lock_of(*eng, mutations@[j].0.key_view())->0.ts == start_ts
                    } by {
                        crate::store::lemma_put_get(
                            pre0.lock.view_seq(),
                            mk,
                            0,
                            lv,
                            mutations@[j].0.key_view(),
                            0,
                        );
                    }
                },
            }
        }
        i = i + 1;
    }
    Result::Ok(ProcessResult::Res)
}

/// Checks the state of every secondary key.
fn process_check_secondary(eng: &mut Engine, keys: &Vec<Key>, start_ts: TimeStamp) -> (r: Result<
    (ProcessResult, WakeUpEvent),
    Error,
>)
    requires
        old(eng).wf(),
    ensures
        final(eng).wf(),
        r matches Result::Ok((pr, _)) ==> pr is SecondaryLocksStatus,
{
    let mut infos: Vec<crate::kv::LockInfo> = Vec::new();
    let mut hashes: Vec<u64> = Vec::new();
    let mut any_released = false;
    let mut i: usize = 0;
    let n = keys.len();
    while i < n
        invariant
            0 <= i <= n,
            n == keys@.len(),
            eng.wf(),
        decreases n - i,
    {
        match crate::txn::check_secondary_key(eng, &keys[i], start_ts) {
            Result::Err(e) => {
                return Result::Err(e);
            },
            Result::Ok((check, released)) => {
                if matches!(released, Option::Some(_)) {
                    hashes.push(keys[i].gen_hash());
                    any_released = true;
                }
                match check {
                    crate::txn::SecondaryCheck::Locked(l) => {
                        let raw = match keys[i].to_raw() {
                            Option::Some(raw) => raw,
                            Option::None => Vec::new(),
                        };
                        infos.push(l.into_lock_info(raw));
                    },
                    crate::txn::SecondaryCheck::Committed(cts) => {
                        let wake = WakeUpEvent {
                            lock_ts: start_ts,
                            hashes,
                            commit_ts: TimeStamp(0),
                            pessimistic: any_released,
                        };
                        return Result::Ok(
                            (
                                ProcessResult::SecondaryLocksStatus(
                                    SecondaryLocksStatus::Committed(cts),
                                ),
                                wake,
                            ),
                        );
                    },
                    crate::txn::SecondaryCheck::RolledBack => {
                        let wake = WakeUpEvent {
                            lock_ts: start_ts,
                            hashes,
                            commit_ts: TimeStamp(0),
                            pessimistic: any_released,
                        };
                        return Result::Ok(
                            (
                                ProcessResult::SecondaryLocksStatus(
                                    SecondaryLocksStatus::RolledBack,
                                ),
                                wake,
                            ),
                        );
                    },
                }
            },
        }
        i = i + 1;
    }
    let wake = WakeUpEvent {
        lock_ts: start_ts,
        hashes,
        commit_ts: TimeStamp(0),
        pessimistic: any_released,
    };
    Result::Ok((ProcessResult::SecondaryLocksStatus(SecondaryLocksStatus::Locked(infos)), wake))
}

/// Commits or rolls back the named keys of one decided transaction,
/// skipping keys it no longer locks.
fn process_resolve_lite(
    eng: &mut Engine,
    resolve_keys: &Vec<Key>,
    start_ts: TimeStamp,
    commit_ts: TimeStamp,
) -> (r: Result<(ProcessResult, WakeUpEvent), Error>)
    requires
        old(eng).wf(),
    ensures
        final(eng).wf(),
        r matches Result::Ok((pr, _)) ==> pr == ProcessResult::Res,
{
    let mut hashes: Vec<u64> = Vec::new();
    let mut i: usize = 0;
    let n = resolve_keys.len();
    while i < n
        invariant
            0 <= i <= n,
            n == resolve_keys@.len(),
            eng.wf(),
        decreases n - i,
    {
        let key = &resolve_keys[i];
        let matched: bool = match eng.load_lock(key) {
            Result::Err(e) => {
                return Result::Err(e);
            },
            Result::Ok(Option::Some(l)) => l.ts.0 == start_ts.0,
            Result::Ok(Option::None) => false,
        };
        if matched {
            if commit_ts.0 > 0 {
                match crate::txn::commit_key(eng, key, start_ts, commit_ts) {
                    Result::Err(e) => {
                        return Result::Err(e);
                    },
                    Result::Ok(_) => {},
                }
            } else {
                match crate::txn::rollback_key(eng, key, start_ts) {
                    Result::Err(e) => {
                        return Result::Err(e);
                    },
                    Result::Ok(_) => {},
                }
            }
            hashes.push(key.gen_hash());
        }
        i = i + 1;
    }
    let wake = WakeUpEvent { lock_ts: start_ts, hashes, commit_ts, pessimistic: false };
    Result::Ok((ProcessResult::Res, wake))
}

/// The recorded outcome of `ts` in the resolution list: the first match.
fn status_of(txn_status: &Vec<(TimeStamp, TimeStamp)>, ts: TimeStamp) -> (r: Option<TimeStamp>) {
    let mut i: usize = 0;
    let n = txn_status.len();
    while i < n
        invariant
            0 <= i <= n,
            n == txn_status@.len(),
        decreases n - i,
    {
        if txn_status[i].0.0 == ts.0 {
            return Option::Some(txn_status[i].1);
        }
        i = i + 1;
    }
    Option::None
}

/// Scans for locks of the decided transactions and resolves each according
/// to its recorded outcome, in batches, collecting per-transaction
/// released-lock notifications per batch.
fn process_resolve_read_phase(
    eng: &mut Engine,
    txn_status: &Vec<(TimeStamp, TimeStamp)>,
    scan_key: &Option<Key>,
) -> (r: Result<(ProcessResult, Vec<WakeUpEvent>), Error>)
    requires
        old(eng).wf(),
    ensures
        final(eng).wf(),
        r is Err ==> *final(eng) == *old(eng),
        r matches Result::Ok((pr, _)) ==> pr == ProcessResult::Res,
{
    let start_ref: Option<&Key> = match scan_key {
        Option::Some(k) => Option::Some(k),
        Option::None => Option::None,
    };
    let infos = match crate::txn::scan_locks(eng, TimeStamp(u64::MAX), start_ref, 0) {
        Result::Err(e) => {
            return Result::Err(e);
        },
        Result::Ok(infos) => infos,
    };
    let ghost pre = *eng;
    proof {
        assert(pre.wf());
    }
    let mut wakeups: Vec<WakeUpEvent> = Vec::new();
    let mut batch: Vec<WakeUpEvent> = Vec::new();
    let mut in_batch: usize = 0;
    let mut i: usize = 0;
    let n = infos.len();
    let mut work = eng.dup();
    proof {
        assert(work.wf());
    }
    while i < n
        invariant
            0 <= i <= n,
            n == infos@.len(),
            work.wf(),
            *eng == pre,
            pre.wf(),
            in_batch < RESOLVE_LOCK_BATCH_SIZE,
        decreases n - i,
    {
        match status_of(txn_status, TimeStamp(infos[i].lock_version)) {
            Option::None => {},
            Option::Some(commit_ts) => {
                let key = Key::from_raw(infos[i].key.as_slice());
                let lock_ts = TimeStamp(infos[i].lock_version);
                let mut pess = false;
                if commit_ts.0 > 0 {
                    match crate::txn::commit_key(&mut work, &key, lock_ts, commit_ts) {
                        Result::Err(e) => {
                            return Result::Err(e);
                        },
                        Result::Ok((_, released)) => {
                            if let Option::Some(l) = released {
                                if l.for_update_ts.0 > 0 {
                                    pess = true;
                                }
                            }
                        },
                    }
                } else {
                    match crate::txn::rollback_key(&mut work, &key, lock_ts) {
                        Result::Err(e) => {
                            return Result::Err(e);
                        },
                        Result::Ok(released) => {
                            if let Option::Some(l) = released {
                                if l.for_update_ts.0 > 0 || matches!(
                                    l.lock_type,
                                    LockType::Pessimistic,
                                ) {
                                    pess = true;
                                }
                            }
                        },
                    }
                }
                let h = key.gen_hash();
                let mut found = false;
                let mut j: usize = 0;
                let bn = batch.len();
                while j < bn
                    invariant
                        0 <= j <= bn,
                        bn == batch@.len(),
                    decreases bn - j,
                {
                    if !found && batch[j].lock_ts.0 == lock_ts.0 {
                        found = true;
                        let mut entry = batch.remove(j);
                        entry.hashes.push(h);
                        batch.insert(j, entry);
                    }
                    j = j + 1;
                }
                if !found {
                    let mut hs: Vec<u64> = Vec::new();
                    hs.push(h);
                    batch.push(
                        WakeUpEvent { lock_ts, hashes: hs, commit_ts, pessimistic: pess },
                    );
                }
                in_batch = in_batch + 1;
                if in_batch >= RESOLVE_LOCK_BATCH_SIZE {
                    while batch.len() > 0
                        decreases batch@.len(),
                    {
                        let e = batch.remove(0);
                        wakeups.push(e);
                    }
                    in_batch = 0;
                }
            },
        }
        i = i + 1;
    }
    while batch.len() > 0
        decreases batch@.len(),
    {
        let e = batch.remove(0);
        wakeups.push(e);
    }
    *eng = work;
    Result::Ok((ProcessResult::Res, wakeups))
}

/// The larger of two timestamps.
fn ts_max(a: TimeStamp, b: TimeStamp) -> (r: TimeStamp)
    ensures
        r.0 == (if a.0 > b.0 {
            a.0
        } else {
            b.0
        }),
{
    if a.0 > b.0 {
        a
    } else {
        b
    }
}

/// A parked pessimistic request, as handed to the lock manager.
struct WaitForEvent {
    start_ts: TimeStamp,
    lock: crate::lock_manager::Lock,
    error: Error,
    is_first_lock: bool,
    timeout: Option<WaitTimeout>,
}

/// Runs one command against a private copy of the engine and installs the
/// copy only when it succeeded, so the whole command is one atomic write.
fn process_command(
    cmd: &Command,
    eng: &mut Engine,
    cm: &mut ConcurrencyManager,
    enable_async_commit: bool,
) -> (r: (Result<ProcessResult, Error>, Vec<WakeUpEvent>))
    requires
        old(eng).wf(),
    ensures
        final(eng).wf(),
        *final(cm) == *old(cm),
        r.0 is Err ==> *final(eng) == *old(eng),
        cmd matches Command::Commit { keys, lock_ts, commit_ts, .. } ==> {
            &&& (r.0 matches Result::Ok(pr) ==> pr == ProcessResult::TxnStatus(
                TxnStatus::Committed { commit_ts: *commit_ts },
            ))
            &&& (r.0 is Ok ==> forall|i: int|
                0 <= i < keys@.len() ==> no_lock_at(*final(eng), (#[trigger] keys@[i])@, *lock_ts))
            &&& (crate::txn::keys_pairwise_distinct(Seq::new(keys@.len(), |i: int| keys@[i]@))
                && (forall|i: int|
                0 <= i < keys@.len() ==> crate::txn::commit_ready(
                    *old(eng),
                    (#[trigger] keys@[i])@,
                    *lock_ts,
                )) ==> r.0 is Ok)
            &&& (crate::txn::keys_pairwise_distinct(Seq::new(keys@.len(), |i: int| keys@[i]@))
                && commit_ts.0 > lock_ts.0 && (forall|i: int|
                0 <= i < keys@.len() ==> crate::txn::versions_below(
                    *old(eng),
                    (#[trigger] keys@[i])@,
                    commit_ts.0,
                )) && r.0 is Ok ==> forall|i: int|
                0 <= i < keys@.len() ==> !crate::txn::no_forward_record(
                    *final(eng),
                    (#[trigger] keys@[i])@,
                    *lock_ts,
                ))
            &&& (crate::txn::keys_pairwise_distinct(Seq::new(keys@.len(), |i: int| keys@[i]@))
                && r.0 is Ok ==> commit_records_left(
                *old(eng),
                *final(eng),
                keys@,
                *lock_ts,
                *commit_ts,
            ))
            &&& final(eng).data.view_seq() == old(eng).data.view_seq()
            &&& final(eng).raw_default.view_seq() == old(eng).raw_default.view_seq()
            &&& final(eng).raw_lock.view_seq() == old(eng).raw_lock.view_seq()
            &&& final(eng).raw_write.view_seq() == old(eng).raw_write.view_seq()
            &&& final(eng).has_default == old(eng).has_default
            &&& final(eng).has_lock == old(eng).has_lock
            &&& final(eng).has_write == old(eng).has_write
            &&& final(eng).has_raft == old(eng).has_raft
        },
        cmd matches Command::Prewrite {
            mutations,
            primary,
            start_ts,
            lock_ttl,
            skip_constraint_check,
            txn_size,
            min_commit_ts,
            secondary_keys,
            ..
        } ==> {
            &&& (r.0 matches Result::Ok(pr) ==> pr == ProcessResult::Res)
            &&& (r.0 is Ok ==> forall|i: int|
                0 <= i < mutations@.len() ==> lock_of(
                    *final(eng),
                    (#[trigger] mutations@[i]).key_view(),
                ) is Some && lock_of(*final(eng), mutations@[i].key_view())->0.ts == *start_ts)
            &&& (crate::txn::keys_pairwise_distinct(
                Seq::new(mutations@.len(), |i: int| mutations@[i].key_view()),
            ) && r.0 is Ok ==> forall|i: int|
                0 <= i < mutations@.len() ==> lock_of(
                    *final(eng),
                    (#[trigger] mutations@[i]).key_view(),
                ) == Option::Some(
                    crate::txn::prewrite_result_lock(
                        *old(eng),
                        mutations@[i],
                        primary@,
                        *start_ts,
                        *lock_ttl,
                        *txn_size,
                        effective_min_commit(
                            *min_commit_ts,
                            *start_ts,
                            old(cm).max_read_ts,
                            (secondary_keys is Some) && enable_async_commit,
                        ),
                        match secondary_keys {
                            Option::Some(sv) => Option::Some(crate::kv::bytes_list_view(sv@)),
                            Option::None => Option::None,
                        },
                    ),
                ))
            &&& (all_prewrite_ready(*old(eng), mutations@, *start_ts)
                && crate::txn::keys_pairwise_distinct(
                Seq::new(mutations@.len(), |i: int| mutations@[i].key_view()),
            ) ==> r.0 is Ok)
            &&& (crate::txn::keys_pairwise_distinct(
                Seq::new(mutations@.len(), |i: int| mutations@[i].key_view()),
            ) ==> (r.0 matches Result::Err(e) ==> prewrite_fail_cause(
                *old(eng),
                mutations@,
                primary@,
                *start_ts,
                *skip_constraint_check,
                e@,
            )))
        },
        cmd matches Command::PrewritePessimistic { mutations, start_ts, .. } ==> {
            &&& (r.0 matches Result::Ok(pr) ==> pr == ProcessResult::Res)
            &&& (r.0 is Ok ==> forall|i: int|
                0 <= i < mutations@.len() ==> lock_of(
                    *final(eng),
                    (#[trigger] mutations@[i]).0.key_view(),
                ) is Some && lock_of(*final(eng), mutations@[i].0.key_view())->0.ts == *start_ts)
        },
        cmd matches Command::Rollback { keys, start_ts, .. } ==> {
            &&& (r.0 matches Result::Ok(pr) ==> pr == ProcessResult::Res)
            &&& (r.0 is Ok ==> forall|i: int|
                0 <= i < keys@.len() ==> no_lock_at(*final(eng), (#[trigger] keys@[i])@, *start_ts))
        },
        cmd matches Command::TxnHeartBeat { primary_key, start_ts, advise_ttl, .. } ==> {
            &&& (r.0 matches Result::Ok(pr) ==> (pr matches ProcessResult::TxnStatus(ts2) && (
            ts2 matches TxnStatus::Uncommitted { lock } && {
                &&& lock_of(*old(eng), primary_key@) is Some
                &&& lock_of(*old(eng), primary_key@)->0.ts == *start_ts
                &&& lock@ == (crate::kv::LockV {
                    ttl: if *advise_ttl > lock_of(*old(eng), primary_key@)->0.ttl {
                        *advise_ttl
                    } else {
                        lock_of(*old(eng), primary_key@)->0.ttl
                    },
                    ..lock_of(*old(eng), primary_key@)->0
                })
            })))
            &&& (old(eng).has_lock && (match lock_of(*old(eng), primary_key@) {
                Option::Some(l) => l.ts == *start_ts,
                Option::None => false,
            }) ==> r.0 is Ok)
            &&& (r.0 matches Result::Err(e) ==> ((e@ matches ErrorV::TxnLockNotFound { .. }
                && (match lock_of(*old(eng), primary_key@) {
                Option::Some(l) => l.ts != *start_ts,
                Option::None => true,
            })) || (e@ matches ErrorV::EngineRequest(_) && !old(eng).has_lock)))
        },
        cmd matches Command::AcquirePessimisticLock {
            keys,
            primary,
            start_ts,
            for_update_ts,
            return_values,
            ..
        } ==> {
            &&& (r.0 matches Result::Ok(pr) ==> (pr matches ProcessResult::PessimisticLockRes(res)
                && (res matches Result::Ok(v) && (if *return_values {
                v matches PessimisticLockRes::Values(vs) && vs@.len() == keys@.len()
            } else {
                v == PessimisticLockRes::Empty
            }))))
            &&& (r.0 is Ok ==> forall|i: int|
                0 <= i < keys@.len() ==> lock_of(*final(eng), (#[trigger] keys@[i]).0@) is Some
                    && lock_of(*final(eng), keys@[i].0@)->0.ts == *start_ts)
            &&& (*return_values && r.0 is Ok ==> (r.0 matches Result::Ok(pr) && (pr
                matches ProcessResult::PessimisticLockRes(res) && (res matches Result::Ok(v) && (
            v matches PessimisticLockRes::Values(vs) && acquire_values_match(
                *old(eng),
                keys@,
                *for_update_ts,
                vs@,
            ))))))
            &&& (all_pessimistic_ready(*old(eng), keys@, *start_ts, *for_update_ts, *return_values)
                && crate::txn::keys_pairwise_distinct(Seq::new(keys@.len(), |i: int| keys@[i].0@))
                ==> r.0 is Ok)
            &&& (crate::txn::keys_pairwise_distinct(Seq::new(keys@.len(), |i: int| keys@[i].0@))
                ==> (r.0 matches Result::Err(e) ==> acquire_fail_cause(
                *old(eng),
                keys@,
                primary@,
                *start_ts,
                *for_update_ts,
                *return_values,
                e@,
            )))
        },
        cmd matches Command::CheckSecondaryLocks { .. } ==> (r.0 matches Result::Ok(pr) ==> pr
            is SecondaryLocksStatus),
        cmd matches Command::CheckTxnStatus { .. } ==> (r.0 matches Result::Ok(pr) ==> pr
            is TxnStatus),
        cmd matches Command::Cleanup { .. } ==> (r.0 matches Result::Ok(pr) ==> pr
            == ProcessResult::Res),
        cmd matches Command::PessimisticRollback { .. } ==> (r.0 matches Result::Ok(pr) ==> pr
            == ProcessResult::Res),
        cmd matches Command::ResolveLockLite { .. } ==> (r.0 matches Result::Ok(pr) ==> pr
            == ProcessResult::Res),
        cmd matches Command::ResolveLockReadPhase { .. } ==> (r.0 matches Result::Ok(pr) ==> pr
            == ProcessResult::Res),
{
    let mut wakeups: Vec<WakeUpEvent> = Vec::new();
    match cmd {
        Command::Prewrite {
            mutations,
            primary,
            start_ts,
            lock_ttl,
            skip_constraint_check,
            txn_size,
            min_commit_ts,
            secondary_keys,
            ..
        } => {
            let effective_min = if matches!(secondary_keys, Option::Some(_)) && enable_async_commit {
                let a = ts_max(*min_commit_ts, TimeStamp(start_ts.0.saturating_add(1)));
                ts_max(a, TimeStamp(cm.max_read_ts().0.saturating_add(1)))
            } else {
                *min_commit_ts
            };
            let mut work = eng.dup();
            match process_prewrite(
                &mut work,
                mutations,
                primary,
                *start_ts,
                *lock_ttl,
                *skip_constraint_check,
                *txn_size,
                effective_min,
                secondary_keys,
            ) {
                Result::Ok(pr) => {
                    *eng = work;
                    (Result::Ok(pr), wakeups)
                },
                Result::Err(e) => (Result::Err(e), wakeups),
            }
        },
        Command::PrewritePessimistic {
            mutations,
            primary,
            start_ts,
            lock_ttl,
            for_update_ts,
            txn_size,
            min_commit_ts,
            secondary_keys,
            ..
        } => {
            let effective_min = if matches!(secondary_keys, Option::Some(_)) && enable_async_commit {
                let a = ts_max(*min_commit_ts, TimeStamp(start_ts.0.saturating_add(1)));
                ts_max(a, TimeStamp(cm.max_read_ts().0.saturating_add(1)))
            } else {
                *min_commit_ts
            };
            let mut work = eng.dup();
            match process_pessimistic_prewrite(
                &mut work,
                mutations,
                primary,
                *start_ts,
                *lock_ttl,
                *for_update_ts,
                *txn_size,
                effective_min,
                secondary_keys,
            ) {
                Result::Ok(pr) => {
                    *eng = work;
                    (Result::Ok(pr), wakeups)
                },
                Result::Err(e) => (Result::Err(e), wakeups),
            }
        },
        Command::AcquirePessimisticLock {
            keys,
            primary,
            start_ts,
            lock_ttl,
            for_update_ts,
            return_values,
            min_commit_ts,
            ..
        } => {
            let mut work = eng.dup();
            match process_acquire_pessimistic(
                &mut work,
                keys,
                primary,
                *start_ts,
                *lock_ttl,
                *for_update_ts,
                *min_commit_ts,
                *return_values,
            ) {
                Result::Ok(pr) => {
                    *eng = work;
                    (Result::Ok(pr), wakeups)
                },
                Result::Err(e) => (Result::Err(e), wakeups),
            }
        },
        Command::Commit { keys, lock_ts, commit_ts, .. } => {
            let mut work = eng.dup();
            match process_commit(&mut work, keys, *lock_ts, *commit_ts) {
                Result::Ok((pr, wake)) => {
                    *eng = work;
                    wakeups.push(wake);
                    (Result::Ok(pr), wakeups)
                },
                Result::Err(e) => (Result::Err(e), wakeups),
            }
        },
        Command::Cleanup { key, start_ts, current_ts, .. } => {
            let mut work = eng.dup();
            match crate::txn::cleanup_key(&mut work, key, *start_ts, *current_ts) {
                Result::Ok(released) => {
                    *eng = work;
                    let mut hashes: Vec<u64> = Vec::new();
                    let mut pess = false;
                    if let Option::Some(l) = released {
                        hashes.push(key.gen_hash());
                        if l.for_update_ts.0 > 0 || matches!(l.lock_type, LockType::Pessimistic) {
                            pess = true;
                        }
                    }
                    wakeups.push(
                        WakeUpEvent {
                            lock_ts: *start_ts,
                            hashes,
                            commit_ts: TimeStamp(0),
                            pessimistic: pess,
                        },
                    );
                    (Result::Ok(ProcessResult::Res), wakeups)
                },
                Result::Err(e) => (Result::Err(e), wakeups),
            }
        },
        Command::Rollback { keys, start_ts, .. } => {
            let mut work = eng.dup();
            match process_rollback(&mut work, keys, *start_ts) {
                Result::Ok((pr, wake)) => {
                    *eng = work;
                    wakeups.push(wake);
                    (Result::Ok(pr), wakeups)
                },
                Result::Err(e) => (Result::Err(e), wakeups),
            }
        },
        Command::PessimisticRollback { keys, start_ts, for_update_ts, .. } => {
            let mut work = eng.dup();
            match process_pessimistic_rollback(&mut work, keys, *start_ts, *for_update_ts) {
                Result::Ok((pr, wake)) => {
                    *eng = work;
                    wakeups.push(wake);
                    (Result::Ok(pr), wakeups)
                },
                Result::Err(e) => (Result::Err(e), wakeups),
            }
        },
        Command::TxnHeartBeat { primary_key, start_ts, advise_ttl, .. } => {
            let mut work = eng.dup();
            match crate::txn::txn_heart_beat_key(&mut work, primary_key, *start_ts, *advise_ttl) {
                Result::Ok(lock) => {
                    *eng = work;
                    (
                        Result::Ok(ProcessResult::TxnStatus(TxnStatus::uncommitted(lock))),
                        wakeups,
                    )
                },
                Result::Err(e) => (Result::Err(e), wakeups),
            }
        },
        Command::CheckTxnStatus {
            primary_key,
            lock_ts,
            caller_start_ts,
            current_ts,
            rollback_if_not_exist,
            ..
        } => {
            let mut work = eng.dup();
            match crate::txn::check_txn_status_key(
                &mut work,
                primary_key,
                *lock_ts,
                *caller_start_ts,
                *current_ts,
                *rollback_if_not_exist,
            ) {
                Result::Ok((status, released)) => {
                    *eng = work;
                    if let Option::Some(l) = released {
                        let mut hashes: Vec<u64> = Vec::new();
                        hashes.push(primary_key.gen_hash());
                        let pess = l.for_update_ts.0 > 0 || matches!(
                            l.lock_type,
                            LockType::Pessimistic,
                        );
                        wakeups.push(
                            WakeUpEvent {
                                lock_ts: *lock_ts,
                                hashes,
                                commit_ts: TimeStamp(0),
                                pessimistic: pess,
                            },
                        );
                    }
                    (Result::Ok(ProcessResult::TxnStatus(status)), wakeups)
                },
                Result::Err(e) => (Result::Err(e), wakeups),
            }
        },
        Command::CheckSecondaryLocks { keys, start_ts, .. } => {
            let mut work = eng.dup();
            match process_check_secondary(&mut work, keys, *start_ts) {
                Result::Ok((pr, wake)) => {
                    *eng = work;
                    if wake.hashes.len() > 0 {
                        wakeups.push(wake);
                    }
                    (Result::Ok(pr), wakeups)
                },
                Result::Err(e) => (Result::Err(e), wakeups),
            }
        },
        Command::ResolveLockReadPhase { txn_status, scan_key, .. } => {
            match process_resolve_read_phase(eng, txn_status, scan_key) {
                Result::Ok((pr, mut ws)) => {
                    while ws.len() > 0
                        decreases ws@.len(),
                    {
                        let w = ws.remove(0);
                        wakeups.push(w);
                    }
                    (Result::Ok(pr), wakeups)
                },
                Result::Err(e) => (Result::Err(e), wakeups),
            }
        },
        Command::ResolveLockLite { start_ts, commit_ts, resolve_keys, .. } => {
            let mut work = eng.dup();
            match process_resolve_lite(&mut work, resolve_keys, *start_ts, *commit_ts) {
                Result::Ok((pr, wake)) => {
                    *eng = work;
                    wakeups.push(wake);
                    (Result::Ok(pr), wakeups)
                },
                Result::Err(e) => (Result::Err(e), wakeups),
            }
        },
        _ => (Result::Ok(ProcessResult::Res), wakeups),
    }
}

/// A command parked behind busy latches.
pub struct QueuedCmd {
    pub id: u64,
    pub cmd: Command,
    pub slots: Vec<usize>,
    pub bytes: usize,
}

/// A pause holding its latches until it is finished explicitly.
pub struct PausedCmd {
    pub id: u64,
    pub slots: Vec<usize>,
    pub bytes: usize,
}

/// The transaction scheduler.
pub struct TxnScheduler<L: LockManager> {
    pub latches: Latches,
    pub lock_mgr: L,
    pub pending_write_threshold: usize,
    pub running_write_bytes: usize,
    pub paused: Vec<PausedCmd>,
    pub queued: Vec<QueuedCmd>,
    pub completed: Vec<(u64, Result<ProcessResult, Error>)>,
    pub next_id: u64,
    pub pipelined_pessimistic_lock: bool,
    pub enable_async_commit: bool,
}

impl<L: LockManager> TxnScheduler<L> {
    /// Every queued or paused command's latch slots are in bounds, and the
    /// table is not empty.
    pub open spec fn wf(&self) -> bool {
        &&& self.latches.slots@.len() > 0
        &&& forall|i: int|
            0 <= i < self.queued@.len() ==> self.latches.slots_ok(
                (#[trigger] self.queued@[i]).slots@,
            )
        &&& forall|i: int|
            0 <= i < self.paused@.len() ==> self.latches.slots_ok(
                (#[trigger] self.paused@[i]).slots@,
            )
    }

    /// Builds the scheduler.
    pub fn new(
        lock_mgr: L,
        concurrency: usize,
        pending_write_threshold: usize,
        pipelined_pessimistic_lock: bool,
        enable_async_commit: bool,
    ) -> (r: TxnScheduler<L>)
        requires
            concurrency > 0,
        ensures
            r.wf(),
            r.latches.slots@.len() == concurrency,
            r.pending_write_threshold == pending_write_threshold,
            r.running_write_bytes == 0,
            r.enable_async_commit == enable_async_commit,
    {
        TxnScheduler {
            latches: Latches::new(concurrency),
            lock_mgr,
            pending_write_threshold,
            running_write_bytes: 0,
            paused: Vec::new(),
            queued: Vec::new(),
            completed: Vec::new(),
            next_id: 1,
            pipelined_pessimistic_lock,
            enable_async_commit,
        }
    }

    /// Sends the collected released-locks notifications to the lock
    /// manager, where anyone is waiting.
    fn deliver_wakeups(&self, mut wakeups: Vec<WakeUpEvent>)
    {
        if !self.lock_mgr.has_waiter() {
            return ;
        }
        while wakeups.len() > 0
            decreases wakeups@.len(),
        {
            let w = wakeups.remove(0);
            self.lock_mgr.wake_up(w.lock_ts, w.hashes, w.commit_ts, w.pessimistic);
        }
    }

    /// Admits and runs one command.
    ///
    /// A write command is refused with `SchedTooBusy` while the pending
    /// write bytes sit at or above the threshold.  A command whose latches
    /// are busy queues behind them.  A pessimistic-lock command that meets
    /// a conflicting lock is parked on the lock manager.  Everything else
    /// runs to an end at once, atomically.
    #[verifier::rlimit(100)]
    pub fn run_cmd(&mut self, cmd: Command, eng: &mut Engine, cm: &mut ConcurrencyManager) -> (r:
        SchedOutcome)
        requires
            old(eng).wf(),
            old(self).wf(),
        ensures
            final(eng).wf(),
            final(self).wf(),
            final(self).latches.slots@.len() == old(self).latches.slots@.len(),
            !(cmd is ScanLock) && !(cmd is ResolveLockReadPhase) && old(self).running_write_bytes
                >= old(self).pending_write_threshold ==> (r matches SchedOutcome::Finished(res)
                && (res matches Result::Err(e) && (e@ == ErrorV::SchedTooBusy && *final(eng)
                == *old(eng)))),
            r matches SchedOutcome::Finished(res) && res is Err ==> *final(eng) == *old(eng),
            cmd matches Command::Commit { keys, lock_ts, .. } ==> (r
                matches SchedOutcome::Finished(res) ==> (res is Ok ==> forall|i: int|
                0 <= i < keys@.len() ==> no_lock_at(*final(eng), (#[trigger] keys@[i])@, lock_ts))),
            cmd matches Command::Prewrite { mutations, start_ts, .. } ==> (r
                matches SchedOutcome::Finished(res) ==> (res is Ok ==> forall|i: int|
                0 <= i < mutations@.len() ==> lock_of(
                    *final(eng),
                    (#[trigger] mutations@[i]).key_view(),
                ) is Some && lock_of(*final(eng), mutations@[i].key_view())->0.ts == start_ts)),
            cmd matches Command::Rollback { keys, start_ts, .. } ==> (r
                matches SchedOutcome::Finished(res) ==> (res is Ok ==> forall|i: int|
                0 <= i < keys@.len() ==> no_lock_at(*final(eng), (#[trigger] keys@[i])@, start_ts))),
            cmd is ScanLock ==> *final(eng) == *old(eng),
            r is Finished ==> final(self).running_write_bytes == old(self).running_write_bytes
                && final(self).paused@ == old(self).paused@ && final(self).queued@ == old(
                self,
            ).queued@,
            old(self).latches.all_free() && r is Finished ==> final(self).latches.all_free(),
            cmd matches Command::Pause { keys, .. } ==> (old(self).latches.all_free() && old(
                self,
            ).running_write_bytes < old(self).pending_write_threshold ==> (r is Pending && final(self).paused@.len() == old(self).paused@.len() + 1 && final(self).running_write_bytes
                >= old(self).running_write_bytes && (keys@.len() > 0 ==> final(self).running_write_bytes >= keys@[0]@.len()))),
            cmd matches Command::Commit { keys, lock_ts, commit_ts, .. } ==> {
                &&& (r matches SchedOutcome::Finished(res) ==> (res matches Result::Ok(pr) ==> pr
                    == ProcessResult::TxnStatus(TxnStatus::Committed { commit_ts })))
                &&& (old(self).latches.all_free() && old(self).running_write_bytes < old(
                    self,
                ).pending_write_threshold && crate::txn::keys_pairwise_distinct(
                    Seq::new(keys@.len(), |i: int| keys@[i]@),
                ) && (forall|i: int|
                    0 <= i < keys@.len() ==> crate::txn::commit_ready(
                        *old(eng),
                        (#[trigger] keys@[i])@,
                        lock_ts,
                    )) ==> (r matches SchedOutcome::Finished(res) && res is Ok))
                &&& (crate::txn::keys_pairwise_distinct(Seq::new(keys@.len(), |i: int| keys@[i]@))
                    && commit_ts.0 > lock_ts.0 && (forall|i: int|
                    0 <= i < keys@.len() ==> crate::txn::versions_below(
                        *old(eng),
                        (#[trigger] keys@[i])@,
                        commit_ts.0,
                    )) ==> (r matches SchedOutcome::Finished(res) ==> (res is Ok ==> forall|
                    i: int,
                |
                    0 <= i < keys@.len() ==> !crate::txn::no_forward_record(
                        *final(eng),
                        (#[trigger] keys@[i])@,
                        lock_ts,
                    ))))
                &&& (crate::txn::keys_pairwise_distinct(Seq::new(keys@.len(), |i: int| keys@[i]@))
                    ==> (r matches SchedOutcome::Finished(res) ==> (res is Ok
                    ==> commit_records_left(*old(eng), *final(eng), keys@, lock_ts, commit_ts))))
                &&& (r is Finished ==> final(eng).data.view_seq() == old(eng).data.view_seq()
                    && final(eng).raw_default.view_seq() == old(eng).raw_default.view_seq()
                    && final(eng).raw_lock.view_seq() == old(eng).raw_lock.view_seq()
                    && final(eng).raw_write.view_seq() == old(eng).raw_write.view_seq()
                    && final(eng).has_default == old(eng).has_default && final(eng).has_lock
                    == old(eng).has_lock && final(eng).has_write == old(eng).has_write
                    && final(eng).has_raft == old(eng).has_raft)
            },
            cmd matches Command::Prewrite {
                mutations,
                primary,
                start_ts,
                lock_ttl,
                skip_constraint_check,
                txn_size,
                min_commit_ts,
                secondary_keys,
                ..
            } ==> {
                &&& (r matches SchedOutcome::Finished(res) ==> (res matches Result::Ok(pr) ==> pr
                    == ProcessResult::Res))
                &&& (crate::txn::keys_pairwise_distinct(
                    Seq::new(mutations@.len(), |i: int| mutations@[i].key_view()),
                ) ==> (r matches SchedOutcome::Finished(res) ==> (res is Ok ==> forall|i: int|
                    0 <= i < mutations@.len() ==> lock_of(
                        *final(eng),
                        (#[trigger] mutations@[i]).key_view(),
                    ) == Option::Some(
                        crate::txn::prewrite_result_lock(
                            *old(eng),
                            mutations@[i],
                            primary@,
                            start_ts,
                            lock_ttl,
                            txn_size,
                            effective_min_commit(
                                min_commit_ts,
                                start_ts,
                                old(cm).max_read_ts,
                                (secondary_keys is Some) && old(self).enable_async_commit,
                            ),
                            match secondary_keys {
                                Option::Some(sv) => Option::Some(
                                    crate::kv::bytes_list_view(sv@),
                                ),
                                Option::None => Option::None,
                            },
                        ),
                    ))))
                &&& (old(self).latches.all_free() && old(self).running_write_bytes < old(
                    self,
                ).pending_write_threshold && all_prewrite_ready(*old(eng), mutations@, start_ts)
                    && crate::txn::keys_pairwise_distinct(
                    Seq::new(mutations@.len(), |i: int| mutations@[i].key_view()),
                ) ==> (r matches SchedOutcome::Finished(res) && res is Ok))
                &&& (crate::txn::keys_pairwise_distinct(
                    Seq::new(mutations@.len(), |i: int| mutations@[i].key_view()),
                ) ==> (r matches SchedOutcome::Finished(res) ==> (res matches Result::Err(e) ==> (
                prewrite_fail_cause(
                    *old(eng),
                    mutations@,
                    primary@,
                    start_ts,
                    skip_constraint_check,
                    e@,
                ) || (e@ == ErrorV::SchedTooBusy && old(self).running_write_bytes >= old(
                    self,
                ).pending_write_threshold)))))
            },
            cmd matches Command::PrewritePessimistic { mutations, start_ts, .. } ==> (r
                matches SchedOutcome::Finished(res) ==> (res matches Result::Ok(pr) ==> (pr
                == ProcessResult::Res && forall|i: int|
                0 <= i < mutations@.len() ==> lock_of(
                    *final(eng),
                    (#[trigger] mutations@[i]).0.key_view(),
                ) is Some && lock_of(*final(eng), mutations@[i].0.key_view())->0.ts == start_ts))),
            cmd matches Command::TxnHeartBeat { primary_key, start_ts, advise_ttl, .. } ==> {
                &&& (r matches SchedOutcome::Finished(res) ==> (res matches Result::Ok(pr) ==> (
                pr matches ProcessResult::TxnStatus(ts2) && (ts2 matches TxnStatus::Uncommitted {
                    lock,
                } && {
                    &&& lock_of(*old(eng), primary_key@) is Some
                    &&& lock_of(*old(eng), primary_key@)->0.ts == start_ts
                    &&& lock@ == (crate::kv::LockV {
                        ttl: if advise_ttl > lock_of(*old(eng), primary_key@)->0.ttl {
                            advise_ttl
                        } else {
                            lock_of(*old(eng), primary_key@)->0.ttl
                        },
                        ..lock_of(*old(eng), primary_key@)->0
                    })
                }))))
                &&& (old(self).latches.all_free() && old(self).running_write_bytes < old(
                    self,
                ).pending_write_threshold && old(eng).has_lock && (match lock_of(
                    *old(eng),
                    primary_key@,
                ) {
                    Option::Some(l) => l.ts == start_ts,
                    Option::None => false,
                }) ==> (r matches SchedOutcome::Finished(res) && res is Ok))
                &&& (r matches SchedOutcome::Finished(res) ==> (res matches Result::Err(e) ==> ((
                e@ matches ErrorV::TxnLockNotFound { .. } && (match lock_of(
                    *old(eng),
                    primary_key@,
                ) {
                    Option::Some(l) => l.ts != start_ts,
                    Option::None => true,
                })) || (e@ matches ErrorV::EngineRequest(_) && !old(eng).has_lock) || (e@
                    == ErrorV::SchedTooBusy && old(self).running_write_bytes >= old(
                    self,
                ).pending_write_threshold))))
            },
            cmd matches Command::AcquirePessimisticLock {
                keys,
                primary,
                start_ts,
                for_update_ts,
                return_values,
                ..
            } ==> {
                &&& (r matches SchedOutcome::Finished(res) ==> (res matches Result::Ok(pr) ==> (
                pr matches ProcessResult::PessimisticLockRes(pres) && (pres matches Result::Ok(v)
                    && (if return_values {
                    v matches PessimisticLockRes::Values(vs) && vs@.len() == keys@.len()
                } else {
                    v == PessimisticLockRes::Empty
                })))))
                &&& (r matches SchedOutcome::Finished(res) ==> (res is Ok ==> forall|i: int|
                    0 <= i < keys@.len() ==> lock_of(*final(eng), (#[trigger] keys@[i]).0@)
                        is Some && lock_of(*final(eng), keys@[i].0@)->0.ts == start_ts))
                &&& (return_values ==> (r matches SchedOutcome::Finished(res) ==> (res
                    matches Result::Ok(pr) ==> (pr matches ProcessResult::PessimisticLockRes(pres)
                    && (pres matches Result::Ok(v) && (v matches PessimisticLockRes::Values(vs)
                    && acquire_values_match(*old(eng), keys@, for_update_ts, vs@)))))))
                &&& (old(self).latches.all_free() && old(self).running_write_bytes < old(
                    self,
                ).pending_write_threshold && all_pessimistic_ready(
                    *old(eng),
                    keys@,
                    start_ts,
                    for_update_ts,
                    return_values,
                ) && crate::txn::keys_pairwise_distinct(
                    Seq::new(keys@.len(), |i: int| keys@[i].0@),
                ) ==> (r matches SchedOutcome::Finished(res) && res is Ok))
                &&& (crate::txn::keys_pairwise_distinct(Seq::new(keys@.len(), |i: int| keys@[i].0@))
                    ==> (r matches SchedOutcome::Finished(res) ==> (res matches Result::Err(e)
                    ==> (acquire_fail_cause(
                    *old(eng),
                    keys@,
                    primary@,
                    start_ts,
                    for_update_ts,
                    return_values,
                    e@,
                ) || (e@ == ErrorV::SchedTooBusy && old(self).running_write_bytes >= old(
                    self,
                ).pending_write_threshold)))))
            },
            cmd is CheckSecondaryLocks ==> (r matches SchedOutcome::Finished(res) ==> (res
                matches Result::Ok(pr) ==> pr is SecondaryLocksStatus)),
            cmd is CheckTxnStatus ==> (r matches SchedOutcome::Finished(res) ==> (res
                matches Result::Ok(pr) ==> pr is TxnStatus)),
            (cmd is Cleanup || cmd is Rollback || cmd is PessimisticRollback || cmd
                is ResolveLockLite || cmd is ResolveLockReadPhase) ==> (r
                matches SchedOutcome::Finished(res) ==> (res matches Result::Ok(pr) ==> pr
                == ProcessResult::Res)),
            cmd matches Command::ScanLock { max_ts, start_key, limit, .. } ==> (r
                matches SchedOutcome::Finished(res) && (match res {
                    Result::Ok(pr) => pr matches ProcessResult::Locks(infos) && old(eng).has_lock
                        && {
                        let found = crate::txn::lock_infos_of(
                            crate::txn::scan_locks_spec(
                                old(eng).lock.view_seq(),
                                max_ts.0,
                                match start_key {
                                    Option::Some(k) => Option::Some(k@),
                                    Option::None => Option::None,
                                },
                            ),
                        );
                        crate::txn::lock_info_list_view(infos@) == (if limit == 0 || found.len()
                            <= limit {
                            found
                        } else {
                            found.take(limit as int)
                        })
                    },
                    Result::Err(e) => !old(eng).has_lock && e@ matches ErrorV::EngineRequest(_),
                })),
    {
        if cmd.readonly() {
            match &cmd {
                Command::ScanLock { max_ts, start_key, limit, .. } => {
                    let start_ref: Option<&Key> = match start_key {
                        Option::Some(k) => Option::Some(k),
                        Option::None => Option::None,
                    };
                    match crate::txn::scan_locks(eng, *max_ts, start_ref, *limit) {
                        Result::Ok(infos) => {
                            return SchedOutcome::Finished(
                                Result::Ok(ProcessResult::Locks(infos)),
                            );
                        },
                        Result::Err(e) => {
                            return SchedOutcome::Finished(Result::Err(e));
                        },
                    }
                },
                _ => {
                    return SchedOutcome::Finished(Result::Ok(ProcessResult::Res));
                },
            }
        }
        let is_resolve = matches!(cmd, Command::ResolveLockReadPhase { .. });
        if !is_resolve && self.running_write_bytes >= self.pending_write_threshold {
            return SchedOutcome::Finished(Result::Err(Error::SchedTooBusy));
        }
        let bytes = cmd.write_bytes();
        let id = self.next_id;
        self.next_id = self.next_id.wrapping_add(1);
        let slots = cmd.latch_slots(&self.latches);
        let acquired = self.latches.acquire_all(id, &slots);
        if !acquired {
            self.running_write_bytes = self.running_write_bytes.saturating_add(bytes);
            self.queued.push(QueuedCmd { id, cmd, slots, bytes });
            return SchedOutcome::Pending(id);
        }
        if matches!(cmd, Command::Pause { .. }) {
            self.running_write_bytes = self.running_write_bytes.saturating_add(bytes);
            self.paused.push(PausedCmd { id, slots, bytes });
            return SchedOutcome::Pending(id);
        }
        let wait_info: Option<(TimeStamp, bool, Option<WaitTimeout>)> = match &cmd {
            Command::AcquirePessimisticLock { start_ts, is_first_lock, wait_timeout, .. } => {
                Option::Some((*start_ts, *is_first_lock, *wait_timeout))
            },
            _ => Option::None,
        };
        let ghost mid_latches = self.latches;
        let (result, wakeups) = process_command(&cmd, eng, cm, self.enable_async_commit);
        self.latches.release_all(id, &slots);
        let latch_count = self.latches.slots.len();
        proof {
            if old(self).latches.all_free() {
                assert(mid_latches.holds_all(id, slots@));
                assert forall|i: int| 0 <= i < self.latches.slots@.len() implies (
                #[trigger] self.latches.slots@[i]) is None by {
                    assert(self.latches.slots@.len() == latch_count);
                    if slots@.contains(i as usize) {
                        let x = choose|x: int| 0 <= x < slots@.len() && slots@[x] == i as usize;
                        assert(slots@[x] == i as usize);
                        assert((slots@[x]) as int == i);
                        assert(mid_latches.slots@[(slots@[x]) as int] == Option::Some(id));
                        assert(self.latches.slots@[(slots@[x]) as int] is None);
                    } else {
                        assert(self.latches.slots@[i] == mid_latches.slots@[i]);
                        assert(mid_latches.slots@[i] == old(self).latches.slots@[i]);
                    }
                }
            }
        }
        self.deliver_wakeups(wakeups);
        match (&result, wait_info) {
            (Result::Err(Error::KeyIsLocked(info)), Option::Some((start_ts, first, timeout))) => {
                let lock = crate::lock_manager::Lock {
                    ts: TimeStamp(info.lock_version),
                    hash: Key::from_raw(info.key.as_slice()).gen_hash(),
                };
                let pr = ProcessResult::PessimisticLockRes(Result::Err(result_err_clone(info)));
                self.lock_mgr.wait_for(start_ts, lock, pr, first, timeout);
                SchedOutcome::WaitingForLock
            },
            _ => SchedOutcome::Finished(result),
        }
    }

    /// Ends a paused command: its latches and byte budget are released, its
    /// completion is recorded, and commands queued behind it get their turn.
    pub fn finish_paused(
        &mut self,
        id: u64,
        eng: &mut Engine,
        cm: &mut ConcurrencyManager,
    ) -> (r: bool)
        requires
            old(eng).wf(),
            old(self).wf(),
        ensures
            final(eng).wf(),
            final(self).wf(),
            final(self).latches.slots@.len() == old(self).latches.slots@.len(),
            r <==> exists|j: int|
                0 <= j < old(self).paused@.len() && (#[trigger] old(self).paused@[j]).id == id,
            !r ==> *final(self) == *old(self) && *final(eng) == *old(eng) && *final(cm) == *old(
                cm,
            ),
            r && old(self).queued@.len() == 0 ==> exists|j: int|
                0 <= j < old(self).paused@.len() && (#[trigger] old(self).paused@[j]).id == id
                    && final(self).paused@ == old(self).paused@.remove(j)
                    && final(self).running_write_bytes == (if old(self).running_write_bytes >= old(
                    self,
                ).paused@[j].bytes {
                    (old(self).running_write_bytes - old(self).paused@[j].bytes) as u64
                } else {
                    0u64
                }) && final(self).completed@ == old(self).completed@.push(
                    (id, Result::<ProcessResult, Error>::Ok(ProcessResult::Res)),
                ) && final(self).queued@ == old(self).queued@ && *final(eng) == *old(eng)
                    && *final(cm) == *old(cm),
    {
        let n = self.paused.len();
        let mut at: usize = n;
        let mut i: usize = 0;
        while i < n
            invariant
                0 <= i <= n,
                n == self.paused@.len(),
                at == n || at < n,
                at == n ==> forall|j: int| 0 <= j < i ==> (#[trigger] self.paused@[j]).id != id,
                at < n ==> self.paused@[at as int].id == id,
            decreases n - i,
        {
            if at == n && self.paused[i].id == id {
                at = i;
            }
            i = i + 1;
        }
        if at >= self.paused.len() {
            return false;
        }
        let p = self.paused.remove(at);
        proof {
            assert(old(self).paused@.contains(old(self).paused@[at as int]));
        }
        self.latches.release_all(p.id, &p.slots);
        if self.running_write_bytes >= p.bytes {
            self.running_write_bytes = self.running_write_bytes - p.bytes;
        } else {
            self.running_write_bytes = 0;
        }
        self.completed.push((id, Result::Ok(ProcessResult::Res)));
        let ghost before_queue = *self;
        self.run_queue(eng, cm);
        proof {
            if old(self).queued@.len() == 0 {
                assert(before_queue.queued@.len() == 0);
                assert(*self == before_queue);
                assert(old(self).paused@[at as int].id == id);
            }
        }
        true
    }

    /// Runs every queued command whose latches have become free.
    fn run_queue(&mut self, eng: &mut Engine, cm: &mut ConcurrencyManager)
        requires
            old(eng).wf(),
            old(self).wf(),
        ensures
            final(eng).wf(),
            final(self).wf(),
            final(self).latches.slots@.len() == old(self).latches.slots@.len(),
            old(self).queued@.len() == 0 ==> *final(self) == *old(self) && *final(eng) == *old(
                eng,
            ) && *final(cm) == *old(cm),
    {
        loop
            invariant
                eng.wf(),
                self.wf(),
                self.latches.slots@.len() == old(self).latches.slots@.len(),
                old(self).queued@.len() == 0 ==> *self == *old(self) && *eng == *old(eng) && *cm
                    == *old(cm),
            ensures
                eng.wf(),
                self.wf(),
                self.latches.slots@.len() == old(self).latches.slots@.len(),
                old(self).queued@.len() == 0 ==> *self == *old(self) && *eng == *old(eng) && *cm
                    == *old(cm),
            decreases self.queued@.len(),
        {
            let mut progressed = false;
            let mut i: usize = 0;
            let n = self.queued.len();
            let ghost qlen0 = self.queued@.len();
            while i < n
                invariant_except_break
                    0 <= i <= n,
                    n == self.queued@.len(),
                    n == qlen0,
                    !progressed,
                invariant
                    eng.wf(),
                    self.wf(),
                    self.latches.slots@.len() == old(self).latches.slots@.len(),
                    old(self).queued@.len() == 0 ==> *self == *old(self) && *eng == *old(eng)
                        && *cm == *old(cm),
                ensures
                    progressed ==> self.queued@.len() < qlen0,
                    !progressed ==> self.queued@.len() == qlen0,
                decreases n - i,
            {
                let ok = {
                    let q = &self.queued[i];
                    proof {
                        assert(self.queued@.contains(self.queued@[i as int]));
                    }
                    let mut all_free = true;
                    let mut j: usize = 0;
                    let sn = q.slots.len();
                    while j < sn
                        invariant
                            0 <= j <= sn,
                            sn == q.slots@.len(),
                            self.latches.slots_ok(q.slots@),
                        decreases sn - j,
                    {
                        match self.latches.slots[q.slots[j]] {
                            Option::Some(_) => {
                                all_free = false;
                            },
                            Option::None => {},
                        }
                        j = j + 1;
                    }
                    all_free
                };
                if ok {
                    proof {
                        assert(self.queued@.contains(self.queued@[i as int]));
                    }
                    let q = self.queued.remove(i);
                    let QueuedCmd { id: qid, cmd: qcmd, slots: qslots, bytes: qbytes } = q;
                    let acquired = self.latches.acquire_all(qid, &qslots);
                    if acquired {
                        if matches!(qcmd, Command::Pause { .. }) {
                            self.paused.push(PausedCmd { id: qid, slots: qslots, bytes: qbytes });
                            progressed = true;
                        } else {
                            let (result, wakeups) = process_command(
                                &qcmd,
                                eng,
                                cm,
                                self.enable_async_commit,
                            );
                            self.latches.release_all(qid, &qslots);
                            if self.running_write_bytes >= qbytes {
                                self.running_write_bytes = self.running_write_bytes - qbytes;
                            } else {
                                self.running_write_bytes = 0;
                            }
                            self.deliver_wakeups(wakeups);
                            self.completed.push((qid, result));
                            progressed = true;
                        }
                        break ;
                    } else {
                        self.queued.insert(i, QueuedCmd { id: qid, cmd: qcmd, slots: qslots, bytes: qbytes });
                        i = i + 1;
                    }
                } else {
                    i = i + 1;
                }
            }
            if !progressed {
                break ;
            }
        }
    }

    /// Takes the completions of commands that finished after queuing or
    /// pausing.
    pub fn take_completed(&mut self) -> (r: Vec<(u64, Result<ProcessResult, Error>)>)
        ensures
            final(self).latches == old(self).latches,
            final(self).queued == old(self).queued,
            final(self).paused == old(self).paused,
            final(self).wf() == old(self).wf(),
            r@ == old(self).completed@,
            final(self).completed@.len() == 0,
            final(self).running_write_bytes == old(self).running_write_bytes,
    {
        let mut out: Vec<(u64, Result<ProcessResult, Error>)> = Vec::new();
        core::mem::swap(&mut out, &mut self.completed);
        out
    }
}

/// Copies a lock description into a fresh `KeyIsLocked` failure.
fn result_err_clone(info: &crate::kv::LockInfo) -> (r: Error)
    ensures
        r@ == ErrorV::KeyIsLocked(info@),
{
    Error::KeyIsLocked(info.clone())
}

} // verus!
