//! The storage facade: the single entry point that validates requests,
//! serves MVCC and raw reads from snapshots, and forwards write commands to
//! the scheduler.

use vstd::prelude::*;

use crate::cm::ConcurrencyManager;
use crate::commands::Command;
use crate::engine::{CfName, Engine, Snapshot};
use crate::errors::{Error, ErrorV};
use crate::kv::{
    clone_bytes, Context, GetRequest, Key, KeyRange, KvPair, RawGetRequest, TsSet,
};
use crate::lock_manager::LockManager;
use crate::mvcc::{
    matches_point_read, rows_view, scan_rows_spec, SnapshotStore,
};
use crate::scheduler::{SchedOutcome, TxnScheduler};
use crate::tso::TimeStamp;
use crate::types::{PessimisticLockRes, ProcessResult, TxnStatus};

verus! {

/// The configuration surface the core consumes.
#[derive(Debug)]
pub struct Config {
    /// Keys larger than this are rejected before any engine interaction.
    pub max_key_size: usize,
    /// The number of latch slots of the scheduler.
    pub scheduler_concurrency: usize,
    /// The size of the scheduler's worker pool; execution here is
    /// sequential, the knob is kept for the callers that set it.
    pub scheduler_worker_pool_size: usize,
    /// Pending write bytes at or above this fail new writes fast.
    pub scheduler_pending_write_threshold: usize,
    /// Whether reads publish their timestamp and check in-memory locks.
    pub enable_async_commit: bool,
}

impl Default for Config {
    /// The defaults the callers start from.
    fn default() -> (r: Config)
        ensures
            r.max_key_size == 4096,
            r.scheduler_concurrency == 128,
            r.scheduler_pending_write_threshold == 0x6400000,
            !r.enable_async_commit,
    {
        Config {
            max_key_size: 4096,
            scheduler_concurrency: 128,
            scheduler_worker_pool_size: 4,
            scheduler_pending_write_threshold: 0x6400000,
            enable_async_commit: false,
        }
    }
}

/// The family a raw-mode name denotes; the empty name means the default
/// family, and anything but the data families is refused.
pub open spec fn rawkv_cf_spec(cf: Seq<char>) -> Option<CfName> {
    if cf.len() == 0 {
        Option::Some(CfName::Default)
    } else if cf == "default"@ {
        Option::Some(CfName::Default)
    } else if cf == "write"@ {
        Option::Some(CfName::Write)
    } else if cf == "lock"@ {
        Option::Some(CfName::Lock)
    } else {
        Option::None
    }
}

/// Resolves a raw-mode column family name; the empty name means the default
/// family.
pub fn rawkv_cf(cf: &String) -> (r: Result<CfName, Error>)
    ensures
        match rawkv_cf_spec(cf@) {
            Option::Some(c0) => r matches Result::Ok(c) && c == c0,
            Option::None => r matches Result::Err(e) && e@ == ErrorV::InvalidCf(cf@),
        },
{
    proof {
        reveal_strlit("default");
        reveal_strlit("write");
        reveal_strlit("lock");
    }
    if cf.as_str().is_empty() {
        return Result::Ok(CfName::Default);
    }
    let dflt: String = "default".to_owned();
    let wr: String = "write".to_owned();
    let lk: String = "lock".to_owned();
    if *cf == dflt {
        Result::Ok(CfName::Default)
    } else if *cf == wr {
        Result::Ok(CfName::Write)
    } else if *cf == lk {
        Result::Ok(CfName::Lock)
    } else {
        Result::Err(Error::InvalidCf(cf.clone()))
    }
}

/// The bytes of an optional bound key.
pub open spec fn key_opt_view(k: Option<Key>) -> Option<Seq<u8>> {
    match k {
        Option::Some(k) => Option::Some(k@),
        Option::None => Option::None,
    }
}

/// The start and end bytes of each requested range.
pub open spec fn ranges_view(rs: Seq<KeyRange>) -> Seq<(Seq<u8>, Seq<u8>)> {
    Seq::new(rs.len(), |i: int| (rs[i].start_key@, rs[i].end_key@))
}

/// The effective end of range `i`: its own end, or — where that is empty
/// and a next range exists — the next range's start.
pub open spec fn range_end_of(rs: Seq<(Seq<u8>, Seq<u8>)>, i: int) -> Seq<u8> {
    if rs[i].1.len() == 0 && i + 1 != rs.len() {
        rs[i + 1].0
    } else {
        rs[i].1
    }
}

/// Range `i` is properly ordered for the scan direction, where its
/// effective end is bounded.
pub open spec fn range_entry_ok(rs: Seq<(Seq<u8>, Seq<u8>)>, i: int, reverse: bool) -> bool {
    let end = range_end_of(rs, i);
    end.len() != 0 ==> (if !reverse {
        crate::codec::lex_lt(rs[i].0, end)
    } else {
        crate::codec::lex_lt(end, rs[i].0)
    })
}

/// Every range in the batch is properly ordered for the scan direction.
pub open spec fn key_ranges_ok(rs: Seq<(Seq<u8>, Seq<u8>)>, reverse: bool) -> bool {
    forall|i: int| 0 <= i < rs.len() ==> range_entry_ok(rs, i, reverse)
}

/// The bound a batch scan uses for range `i`: an empty end key runs to
/// the next range's start, or, for the last range, to the end of the
/// keyspace.
pub open spec fn batch_range_bound(rs: Seq<(Seq<u8>, Seq<u8>)>, i: int) -> Option<Seq<u8>> {
    if rs[i].1.len() == 0 {
        if i + 1 == rs.len() {
            Option::None
        } else {
            Option::Some(rs[i + 1].0)
        }
    } else {
        Option::Some(rs[i].1)
    }
}

/// The rows batch range `i` yields: its raw rows in scan order, at most
/// `each_limit` of them.
pub open spec fn batch_range_rows(
    st: Seq<(Seq<u8>, u64, Seq<u8>)>,
    rs: Seq<(Seq<u8>, Seq<u8>)>,
    i: int,
    each_limit: int,
    key_only: bool,
    reverse: bool,
) -> Seq<(Seq<u8>, Seq<u8>)> {
    let full = if reverse {
        raw_rows(st, batch_range_bound(rs, i), Option::Some(rs[i].0), key_only).reverse()
    } else {
        raw_rows(st, Option::Some(rs[i].0), batch_range_bound(rs, i), key_only)
    };
    full.take(
        if each_limit <= full.len() {
            each_limit
        } else {
            full.len() as int
        },
    )
}

/// The rows of the first `n` batch ranges, concatenated in range order.
pub open spec fn batch_scan_rows(
    st: Seq<(Seq<u8>, u64, Seq<u8>)>,
    rs: Seq<(Seq<u8>, Seq<u8>)>,
    n: int,
    each_limit: int,
    key_only: bool,
    reverse: bool,
) -> Seq<(Seq<u8>, Seq<u8>)>
    decreases n,
{
    if n <= 0 {
        Seq::empty()
    } else {
        batch_scan_rows(st, rs, n - 1, each_limit, key_only, reverse) + batch_range_rows(
            st,
            rs,
            n - 1,
            each_limit,
            key_only,
            reverse,
        )
    }
}

/// Whether a guarded entry carries a lock that blocks a ranged read over
/// `[lo, hi)` at `ts`.
pub open spec fn scan_entry_conflicts(
    e: crate::cm::CmEntry,
    lo: Option<Seq<u8>>,
    hi: Option<Seq<u8>>,
    ts: u64,
    bypass: Seq<u64>,
) -> bool {
    match crate::cm::entry_lock_view(e) {
        Option::Some(l) => crate::mvcc::in_range(e.key@, lo, hi) && crate::mvcc::lock_conflicts(
            l,
            e.key@,
            ts,
            bypass,
        ),
        Option::None => false,
    }
}

/// The transactional and raw key-value store: MVCC reads against
/// snapshots, writes through the scheduler.
pub struct Storage<L: LockManager> {
    pub engine: Engine,
    pub sched: TxnScheduler<L>,
    pub concurrency_manager: ConcurrencyManager,
    pub enable_async_commit: bool,
    pub max_key_size: usize,
}

impl<L: LockManager> Storage<L> {
    /// The engine is sorted and the scheduler's bookkeeping is sound.
    pub open spec fn wf(&self) -> bool {
        &&& self.engine.wf()
        &&& self.sched.wf()
    }

    /// Builds a storage over the given engine.
    pub fn from_engine(
        engine: Engine,
        config: &Config,
        lock_mgr: L,
        concurrency_manager: ConcurrencyManager,
        pipelined_pessimistic_lock: bool,
    ) -> (r: Result<Storage<L>, Error>)
        requires
            engine.wf(),
            config.scheduler_concurrency > 0,
        ensures
            match r {
                Result::Ok(s) => {
                    &&& s.wf()
                    &&& s.engine == engine
                    &&& s.concurrency_manager == concurrency_manager
                    &&& s.enable_async_commit == config.enable_async_commit
                    &&& s.max_key_size == config.max_key_size
                    &&& s.sched.pending_write_threshold
                        == config.scheduler_pending_write_threshold
                    &&& s.sched.running_write_bytes == 0
                },
                Result::Err(_) => false,
            },
    {
        let sched = TxnScheduler::new(
            lock_mgr,
            config.scheduler_concurrency,
            config.scheduler_pending_write_threshold,
            pipelined_pessimistic_lock,
            config.enable_async_commit,
        );
        Result::Ok(
            Storage {
                engine,
                sched,
                concurrency_manager,
                enable_async_commit: config.enable_async_commit,
                max_key_size: config.max_key_size,
            },
        )
    }

    /// A copy of the underlying engine.
    pub fn get_engine(&self) -> (r: Engine)
        ensures
            self.wf() ==> r.wf(),
    {
        self.engine.dup()
    }

    /// A consistent snapshot of the engine.
    pub fn snapshot(&self) -> (r: Snapshot)
        ensures
            self.wf() ==> r.wf(),
            r.has_lock == self.engine.has_lock,
            r.has_write == self.engine.has_write,
            r.has_default == self.engine.has_default,
            r.lock.view_seq() == self.engine.lock.view_seq(),
            r.write.view_seq() == self.engine.write.view_seq(),
            r.data.view_seq() == self.engine.data.view_seq(),
            r.raw_default.view_seq() == self.engine.raw_default.view_seq(),
            r.raw_lock.view_seq() == self.engine.raw_lock.view_seq(),
            r.raw_write.view_seq() == self.engine.raw_write.view_seq(),
    {
        self.engine.snapshot()
    }

    /// Publishes a read timestamp and checks the in-memory lock table for
    /// every key, as async commit requires before a snapshot is taken.
    fn async_commit_check_keys(
        &mut self,
        keys: &Vec<Key>,
        ts: TimeStamp,
        isolation_level: crate::kv::IsolationLevel,
        bypass_locks: &TsSet,
    ) -> (r: Result<(), Error>)
        ensures
            final(self).engine == old(self).engine,
            final(self).sched == old(self).sched,
            final(self).enable_async_commit == old(self).enable_async_commit,
            final(self).max_key_size == old(self).max_key_size,
            final(self).concurrency_manager.entries == old(self).concurrency_manager.entries,
            final(self).concurrency_manager.next_guard == old(
                self,
            ).concurrency_manager.next_guard,
            final(self).concurrency_manager.max_read_ts.0 == (if ts.0 > old(
                self,
            ).concurrency_manager.max_read_ts.0 {
                ts.0
            } else {
                old(self).concurrency_manager.max_read_ts.0
            }),
            r is Ok ==> (isolation_level == crate::kv::IsolationLevel::Si ==> forall|i: int|
                0 <= i < keys@.len() ==> !crate::cm::mem_conflicts(
                    old(self).concurrency_manager.entries@,
                    (#[trigger] keys@[i])@,
                    ts.0,
                    bypass_locks@,
                )),
            r matches Result::Err(e) ==> isolation_level == crate::kv::IsolationLevel::Si
                && exists|i: int|
                {
                    &&& 0 <= i < keys@.len()
                    &&& crate::cm::mem_conflicts(
                        old(self).concurrency_manager.entries@,
                        (#[trigger] keys@[i])@,
                        ts.0,
                        bypass_locks@,
                    )
                    &&& (forall|j: int|
                        0 <= j < i ==> !crate::cm::mem_conflicts(
                            old(self).concurrency_manager.entries@,
                            (#[trigger] keys@[j])@,
                            ts.0,
                            bypass_locks@,
                        ))
                    &&& e@ == ErrorV::KeyIsLocked(
                        crate::kv::lock_info_of(
                            crate::cm::mem_lock_of(
                                old(self).concurrency_manager.entries@,
                                keys@[i]@,
                            )->0,
                            crate::mvcc::raw_or_empty(keys@[i]@),
                        ),
                    )
                },
    {
        self.concurrency_manager.update_max_read_ts(ts);
        if matches!(isolation_level, crate::kv::IsolationLevel::Si) {
            let mut i: usize = 0;
            while i < keys.len()
                invariant
                    0 <= i <= keys@.len(),
                    isolation_level == crate::kv::IsolationLevel::Si,
                    self.engine == old(self).engine,
                    self.sched == old(self).sched,
                    self.enable_async_commit == old(self).enable_async_commit,
                    self.max_key_size == old(self).max_key_size,
                    self.concurrency_manager.entries == old(self).concurrency_manager.entries,
                    self.concurrency_manager.next_guard == old(
                        self,
                    ).concurrency_manager.next_guard,
                    self.concurrency_manager.max_read_ts.0 == (if ts.0 > old(
                        self,
                    ).concurrency_manager.max_read_ts.0 {
                        ts.0
                    } else {
                        old(self).concurrency_manager.max_read_ts.0
                    }),
                    forall|j: int|
                        0 <= j < i ==> !crate::cm::mem_conflicts(
                            old(self).concurrency_manager.entries@,
                            (#[trigger] keys@[j])@,
                            ts.0,
                            bypass_locks@,
                        ),
                decreases keys@.len() - i,
            {
                match self.concurrency_manager.read_key_check(&keys[i], ts, bypass_locks) {
                    Result::Err(e) => {
                        proof {
                            let w = i as int;
                            assert(crate::cm::mem_conflicts(
                                old(self).concurrency_manager.entries@,
                                keys@[w]@,
                                ts.0,
                                bypass_locks@,
                            ));
                        }
                        return Result::Err(e);
                    },
                    Result::Ok(()) => {},
                }
                i = i + 1;
            }
        }
        Result::Ok(())
    }

    /// Reads the value of `key` visible at `start_ts`.
    ///
    /// Only writes committed at or below `start_ts` are visible; a
    /// conflicting lock, in memory or persisted, fails the read with
    /// `KeyIsLocked`.
    pub fn get(&mut self, ctx: Context, key: Key, start_ts: TimeStamp) -> (r: Result<
        Option<Vec<u8>>,
        Error,
    >)
        requires
            old(self).wf(),
        ensures
            final(self).wf(),
            final(self).engine == old(self).engine,
            final(self).sched == old(self).sched,
            final(self).concurrency_manager.entries == old(self).concurrency_manager.entries,
            final(self).concurrency_manager.next_guard == old(
                self,
            ).concurrency_manager.next_guard,
            final(self).enable_async_commit == old(self).enable_async_commit,
            final(self).max_key_size == old(self).max_key_size,
            final(self).concurrency_manager.max_read_ts.0 == (if old(self).enable_async_commit
                && start_ts.0 > old(self).concurrency_manager.max_read_ts.0 {
                start_ts.0
            } else {
                old(self).concurrency_manager.max_read_ts.0
            }),
            match r {
                Result::Err(e) => (e@ matches ErrorV::KeyIsLocked(_)) || (e@
                    matches ErrorV::DefaultNotFound { .. }) || (e@ matches ErrorV::EngineRequest(
                    _,
                )),
                Result::Ok(_) => true,
            },
            old(self).enable_async_commit && ctx.isolation_level == crate::kv::IsolationLevel::Si
                && crate::cm::mem_conflicts(
                old(self).concurrency_manager.entries@,
                key@,
                start_ts.0,
                ctx.resolved_locks@,
            ) ==> (r matches Result::Err(e) && e@ == ErrorV::KeyIsLocked(
                crate::kv::lock_info_of(
                    crate::cm::mem_lock_of(old(self).concurrency_manager.entries@, key@)->0,
                    crate::mvcc::raw_or_empty(key@),
                ),
            )),
            !(old(self).enable_async_commit && ctx.isolation_level
                == crate::kv::IsolationLevel::Si && crate::cm::mem_conflicts(
                old(self).concurrency_manager.entries@,
                key@,
                start_ts.0,
                ctx.resolved_locks@,
            )) ==> matches_point_read(
                r,
                old(self).engine,
                key@,
                start_ts.0,
                ctx.resolved_locks@,
                ctx.isolation_level,
            ),
    {
        let mut ctx = ctx;
        let bypass_locks = TsSet::vec_from_u64s(ctx.take_resolved_locks());
        if self.enable_async_commit {
            let mut one: Vec<Key> = Vec::new();
            one.push(key.clone());
            proof {
                assert(one@.len() == 1);
                assert(one@[0]@ == key@);
            }
            match self.async_commit_check_keys(
                &one,
                start_ts,
                ctx.get_isolation_level(),
                &bypass_locks,
            ) {
                Result::Err(e) => {
                    return Result::Err(e);
                },
                Result::Ok(()) => {},
            }
        }
        crate::mvcc::point_get(
            &self.engine,
            &key,
            start_ts,
            &bypass_locks,
            ctx.get_isolation_level(),
        )
    }

    /// Reads the values of `keys` visible at `start_ts`, in the order
    /// given; keys with no visible value are left out.
    pub fn batch_get(&mut self, ctx: Context, keys: Vec<Key>, start_ts: TimeStamp) -> (r: Result<
        Vec<Result<KvPair, Error>>,
        Error,
    >)
        requires
            old(self).wf(),
        ensures
            final(self).wf(),
            final(self).engine == old(self).engine,
            final(self).sched == old(self).sched,
            final(self).concurrency_manager.entries == old(self).concurrency_manager.entries,
            final(self).concurrency_manager.max_read_ts.0 == (if old(self).enable_async_commit
                && start_ts.0 > old(self).concurrency_manager.max_read_ts.0 {
                start_ts.0
            } else {
                old(self).concurrency_manager.max_read_ts.0
            }),
            old(self).enable_async_commit && ctx.isolation_level == crate::kv::IsolationLevel::Si
                && (exists|i: int|
                0 <= i < keys@.len() && crate::cm::mem_conflicts(
                    old(self).concurrency_manager.entries@,
                    (#[trigger] keys@[i])@,
                    start_ts.0,
                    ctx.resolved_locks@,
                )) ==> (r matches Result::Err(e) && exists|i: int|
                {
                    &&& 0 <= i < keys@.len()
                    &&& crate::cm::mem_conflicts(
                        old(self).concurrency_manager.entries@,
                        (#[trigger] keys@[i])@,
                        start_ts.0,
                        ctx.resolved_locks@,
                    )
                    &&& e@ == ErrorV::KeyIsLocked(
                        crate::kv::lock_info_of(
                            crate::cm::mem_lock_of(
                                old(self).concurrency_manager.entries@,
                                keys@[i]@,
                            )->0,
                            crate::mvcc::raw_or_empty(keys@[i]@),
                        ),
                    )
                }),
            match r {
                Result::Ok(rows) => old(self).engine.has_lock && old(self).engine.has_write && old(
                    self,
                ).engine.has_default && rows_view(rows@) == scan_rows_spec(
                    old(self).engine,
                    Seq::new(keys@.len(), |i: int| keys@[i]@),
                    start_ts.0,
                    ctx.resolved_locks@,
                    ctx.isolation_level,
                    false,
                ),
                Result::Err(e) => match e@ {
                    ErrorV::KeyIsLocked(_) => old(self).enable_async_commit
                        && ctx.isolation_level == crate::kv::IsolationLevel::Si && exists|i: int|
                        0 <= i < keys@.len() && crate::cm::mem_conflicts(
                            old(self).concurrency_manager.entries@,
                            (#[trigger] keys@[i])@,
                            start_ts.0,
                            ctx.resolved_locks@,
                        ),
                    ErrorV::EngineRequest(_) => !old(self).engine.has_lock || !old(
                        self,
                    ).engine.has_write || !old(self).engine.has_default,
                    _ => false,
                },
            },
    {
        let mut ctx = ctx;
        let bypass_locks = TsSet::from_u64s(ctx.take_resolved_locks());
        if self.enable_async_commit {
            match self.async_commit_check_keys(
                &keys,
                start_ts,
                ctx.get_isolation_level(),
                &bypass_locks,
            ) {
                Result::Err(e) => {
                    return Result::Err(e);
                },
                Result::Ok(()) => {},
            }
        }
        if !self.engine.has_lock {
            return Result::Err(Error::EngineRequest(crate::engine::cf_name_string(CfName::Lock)));
        }
        if !self.engine.has_write {
            return Result::Err(Error::EngineRequest(crate::engine::cf_name_string(CfName::Write)));
        }
        if !self.engine.has_default {
            return Result::Err(
                Error::EngineRequest(crate::engine::cf_name_string(CfName::Default)),
            );
        }
        let ghost kviews = Seq::new(keys@.len(), |i: int| keys@[i]@);
        let mut out: Vec<Result<KvPair, Error>> = Vec::new();
        let mut i: usize = 0;
        let n = keys.len();
        proof {
            assert(kviews.take(0) =~= Seq::<Seq<u8>>::empty());
            assert(rows_view(out@) =~= scan_rows_spec(
                old(self).engine,
                kviews.take(0),
                start_ts.0,
                bypass_locks@,
                ctx.isolation_level,
                false,
            ));
        }
        while i < n
            invariant
                0 <= i <= n,
                n == keys@.len(),
                kviews == Seq::new(keys@.len(), |x: int| keys@[x]@),
                self.engine == old(self).engine,
                self.engine.has_lock && self.engine.has_write && self.engine.has_default,
                rows_view(out@) == scan_rows_spec(
                    self.engine,
                    kviews.take(i as int),
                    start_ts.0,
                    bypass_locks@,
                    ctx.isolation_level,
                    false,
                ),
            decreases n - i,
        {
            proof {
                assert(kviews.take(i + 1) =~= kviews.take(i as int).push(kviews[i as int]));
                crate::mvcc::lemma_scan_rows_snoc(
                    self.engine,
                    kviews.take(i as int),
                    kviews[i as int],
                    start_ts.0,
                    bypass_locks@,
                    ctx.isolation_level,
                    false,
                );
            }
            match crate::mvcc::resolve_point(
                &self.engine,
                keys[i].as_encoded(),
                start_ts,
                &bypass_locks,
                ctx.isolation_level,
                false,
            ) {
                crate::mvcc::RowOutcome::Row(row) => {
                    let ghost before = out@;
                    out.push(row);
                    proof {
                        assert(rows_view(out@) =~= rows_view(before) + seq![
                            crate::mvcc::row_view(out@.last()),
                        ]);
                    }
                },
                crate::mvcc::RowOutcome::Skip => {
                    proof {
                        assert(rows_view(out@) + Seq::<
                            Result<(Seq<u8>, Seq<u8>), ErrorV>,
                        >::empty() =~= rows_view(out@));
                    }
                },
            }
            i = i + 1;
        }
        proof {
            assert(kviews.take(n as int) =~= kviews);
        }
        Result::Ok(out)
    }

    /// Scans `[start_key, end_key)` at `start_ts` (or backwards from
    /// `start_key` when `reverse_scan` is set), resolving every key met,
    /// keeping every `sample_step`-th row, up to `limit` rows.
    pub fn scan(
        &mut self,
        ctx: Context,
        start_key: Key,
        end_key: Option<Key>,
        limit: usize,
        sample_step: usize,
        start_ts: TimeStamp,
        key_only: bool,
        reverse_scan: bool,
    ) -> (r: Result<Vec<Result<KvPair, Error>>, Error>)
        requires
            old(self).wf(),
        ensures
            final(self).wf(),
            final(self).engine == old(self).engine,
            final(self).sched == old(self).sched,
            final(self).concurrency_manager.entries == old(self).concurrency_manager.entries,
            final(self).concurrency_manager.max_read_ts.0 == (if old(self).enable_async_commit
                && start_ts.0 > old(self).concurrency_manager.max_read_ts.0 {
                start_ts.0
            } else {
                old(self).concurrency_manager.max_read_ts.0
            }),
            old(self).enable_async_commit && ctx.isolation_level == crate::kv::IsolationLevel::Si
                && (exists|i: int|
                0 <= i < old(self).concurrency_manager.entries@.len() && scan_entry_conflicts(
                    #[trigger] old(self).concurrency_manager.entries@[i],
                    if !reverse_scan {
                        Option::Some(start_key@)
                    } else {
                        key_opt_view(end_key)
                    },
                    if !reverse_scan {
                        key_opt_view(end_key)
                    } else {
                        Option::Some(start_key@)
                    },
                    start_ts.0,
                    ctx.resolved_locks@,
                )) ==> (r matches Result::Err(e) && e@ matches ErrorV::KeyIsLocked(_)),
            r is Err && r->Err_0@ is KeyIsLocked ==> old(
                self,
            ).enable_async_commit && ctx.isolation_level == crate::kv::IsolationLevel::Si
                && exists|i: int|
                0 <= i < old(self).concurrency_manager.entries@.len() && scan_entry_conflicts(
                    #[trigger] old(self).concurrency_manager.entries@[i],
                    if !reverse_scan {
                        Option::Some(start_key@)
                    } else {
                        key_opt_view(end_key)
                    },
                    if !reverse_scan {
                        key_opt_view(end_key)
                    } else {
                        Option::Some(start_key@)
                    },
                    start_ts.0,
                    ctx.resolved_locks@,
                ) && r->Err_0@ == ErrorV::KeyIsLocked(
                    crate::kv::lock_info_of(
                        crate::cm::entry_lock_view(old(self).concurrency_manager.entries@[i])->0,
                        crate::mvcc::raw_or_empty(old(self).concurrency_manager.entries@[i].key@),
                    ),
                ),
            match r {
                Result::Ok(rows) => {
                    let lo: Option<Seq<u8>> = if !reverse_scan {
                        Option::Some(start_key@)
                    } else {
                        match end_key {
                            Option::Some(k) => Option::Some(k@),
                            Option::None => Option::None,
                        }
                    };
                    let hi: Option<Seq<u8>> = if !reverse_scan {
                        match end_key {
                            Option::Some(k) => Option::Some(k@),
                            Option::None => Option::None,
                        }
                    } else {
                        Option::Some(start_key@)
                    };
                    let cand0 = crate::mvcc::scan_candidates(old(self).engine, lo, hi);
                    let cand = if reverse_scan {
                        cand0.reverse()
                    } else {
                        cand0
                    };
                    let srows = scan_rows_spec(
                        old(self).engine,
                        cand,
                        start_ts.0,
                        ctx.resolved_locks@,
                        ctx.isolation_level,
                        key_only,
                    );
                    let sampled = crate::mvcc::sample_rows(srows, sample_step as int);
                    rows_view(rows@) == (if limit == 0 || sampled.len() <= limit {
                        sampled
                    } else {
                        sampled.take(limit as int)
                    })
                },
                Result::Err(e) => (e@ matches ErrorV::KeyIsLocked(_)) || (e@
                    matches ErrorV::EngineRequest(_)),
            },
    {
        let mut ctx = ctx;
        let bypass_locks = TsSet::from_u64s(ctx.take_resolved_locks());
        if self.enable_async_commit {
            self.concurrency_manager.update_max_read_ts(start_ts);
            if matches!(ctx.get_isolation_level(), crate::kv::IsolationLevel::Si) {
                let (lo, hi): (Option<&Key>, Option<&Key>) = if !reverse_scan {
                    (Option::Some(&start_key), end_key.as_ref())
                } else {
                    (end_key.as_ref(), Option::Some(&start_key))
                };
                match self.concurrency_manager.read_range_check(lo, hi, start_ts, &bypass_locks) {
                    Result::Err(e) => {
                        return Result::Err(e);
                    },
                    Result::Ok(()) => {},
                }
            }
        }
        let snapshot = self.engine.snapshot();
        let snap_store = SnapshotStore::new(
            snapshot,
            start_ts,
            ctx.get_isolation_level(),
            !ctx.not_fill_cache,
            bypass_locks,
            false,
        );
        let ghost snap_value = snap_store.snapshot;
        let scanner = if !reverse_scan {
            snap_store.scanner(false, key_only, false, Option::Some(start_key), end_key)
        } else {
            snap_store.scanner(true, key_only, false, end_key, Option::Some(start_key))
        };
        let r = scanner.scan(limit, sample_step);
        proof {
            if r is Err {
                assert(r->Err_0@ matches ErrorV::EngineRequest(_));
            }
            if r is Ok {
                crate::mvcc::lemma_scan_candidates_congruent(
                    snap_value,
                    old(self).engine,
                    scanner.lower_view(),
                    scanner.upper_view(),
                );
                let cand0 = crate::mvcc::scan_candidates(
                    old(self).engine,
                    scanner.lower_view(),
                    scanner.upper_view(),
                );
                let cand = if reverse_scan {
                    cand0.reverse()
                } else {
                    cand0
                };
                crate::mvcc::lemma_scan_rows_congruent(
                    snap_value,
                    old(self).engine,
                    cand,
                    start_ts.0,
                    bypass_locks@,
                    ctx.isolation_level,
                    key_only,
                );
            }
        }
        r
    }

    /// Reads each request's key at its own timestamp under its own context;
    /// per-request failures stay in their slot.
    pub fn batch_get_command(&mut self, requests: Vec<GetRequest>) -> (r: Result<
        Vec<Result<Option<Vec<u8>>, Error>>,
        Error,
    >)
        requires
            old(self).wf(),
        ensures
            final(self).wf(),
            final(self).engine == old(self).engine,
            final(self).sched == old(self).sched,
            final(self).concurrency_manager.entries == old(self).concurrency_manager.entries,
            match r {
                Result::Ok(results) => results@.len() == requests@.len() && forall|i: int|
                    0 <= i < requests@.len() ==> {
                        let req = #[trigger] requests@[i];
                        let conflict = old(self).enable_async_commit && req.ctx.isolation_level
                            == crate::kv::IsolationLevel::Si && crate::cm::mem_conflicts(
                            old(self).concurrency_manager.entries@,
                            crate::codec::enc_bytes(req.key@),
                            req.version,
                            req.ctx.resolved_locks@,
                        );
                        &&& (conflict ==> (results@[i] matches Result::Err(e) && e@
                            == ErrorV::KeyIsLocked(
                            crate::kv::lock_info_of(
                                crate::cm::mem_lock_of(
                                    old(self).concurrency_manager.entries@,
                                    crate::codec::enc_bytes(req.key@),
                                )->0,
                                crate::mvcc::raw_or_empty(crate::codec::enc_bytes(req.key@)),
                            ),
                        )))
                        &&& (!conflict ==> matches_point_read(
                            results@[i],
                            old(self).engine,
                            crate::codec::enc_bytes(req.key@),
                            req.version,
                            req.ctx.resolved_locks@,
                            req.ctx.isolation_level,
                        ))
                    },
                Result::Err(_) => false,
            },
    {
        let mut out: Vec<Result<Option<Vec<u8>>, Error>> = Vec::new();
        let mut i: usize = 0;
        let n = requests.len();
        while i < n
            invariant
                0 <= i <= n,
                n == requests@.len(),
                self.wf(),
                self.engine == old(self).engine,
                self.concurrency_manager.entries == old(self).concurrency_manager.entries,
                self.sched == old(self).sched,
                self.enable_async_commit == old(self).enable_async_commit,
                out@.len() == i,
                forall|j: int|
                    0 <= j < i ==> {
                        let req = #[trigger] requests@[j];
                        let conflict = old(self).enable_async_commit && req.ctx.isolation_level
                            == crate::kv::IsolationLevel::Si && crate::cm::mem_conflicts(
                            old(self).concurrency_manager.entries@,
                            crate::codec::enc_bytes(req.key@),
                            req.version,
                            req.ctx.resolved_locks@,
                        );
                        &&& (conflict ==> (out@[j] matches Result::Err(e) && e@
                            == ErrorV::KeyIsLocked(
                            crate::kv::lock_info_of(
                                crate::cm::mem_lock_of(
                                    old(self).concurrency_manager.entries@,
                                    crate::codec::enc_bytes(req.key@),
                                )->0,
                                crate::mvcc::raw_or_empty(crate::codec::enc_bytes(req.key@)),
                            ),
                        )))
                        &&& (!conflict ==> matches_point_read(
                            out@[j],
                            old(self).engine,
                            crate::codec::enc_bytes(req.key@),
                            req.version,
                            req.ctx.resolved_locks@,
                            req.ctx.isolation_level,
                        ))
                    },
            decreases n - i,
        {
            let req = &requests[i];
            let key = Key::from_raw(req.key.as_slice());
            let ctx = req.ctx.clone();
            let version = TimeStamp(req.version);
            let one = self.get(ctx, key, version);
            out.push(one);
            i = i + 1;
        }
        Result::Ok(out)
    }

    /// Forwards a write command to the scheduler, rejecting oversized keys
    /// before anything is scheduled.
    pub fn sched_txn_command(&mut self, cmd: Command) -> (r: SchedOutcome)
        requires
            old(self).wf(),
        ensures
            final(self).wf(),
            (match cmd {
                Command::Prewrite { mutations, .. } => forall|i: int|
                    0 <= i < mutations@.len() ==> (#[trigger] mutations@[i]).key_view().len()
                        <= old(self).max_key_size,
                Command::PrewritePessimistic { mutations, .. } => forall|i: int|
                    0 <= i < mutations@.len() ==> (#[trigger] mutations@[i]).0.key_view().len()
                        <= old(self).max_key_size,
                Command::AcquirePessimisticLock { keys, .. } => forall|i: int|
                    0 <= i < keys@.len() ==> (#[trigger] keys@[i]).0@.len() <= old(
                        self,
                    ).max_key_size,
                _ => true,
            }) && !(cmd is ScanLock) && !(cmd is ResolveLockReadPhase) && old(
                self,
            ).sched.running_write_bytes >= old(self).sched.pending_write_threshold ==> (r
                matches SchedOutcome::Finished(res) && (res matches Result::Err(e) && (e@
                == ErrorV::SchedTooBusy && final(self).engine == old(self).engine))),
            r matches SchedOutcome::Finished(res) && res is Err ==> final(self).engine == old(
                self,
            ).engine,
            cmd matches Command::Commit { keys, lock_ts, .. } ==> (r
                matches SchedOutcome::Finished(res) ==> (res is Ok ==> forall|i: int|
                0 <= i < keys@.len() ==> crate::txn::no_lock_at(
                    final(self).engine,
                    (#[trigger] keys@[i])@,
                    lock_ts,
                ))),
            cmd matches Command::Prewrite { mutations, start_ts, .. } ==> (r
                matches SchedOutcome::Finished(res) ==> (res is Ok ==> forall|i: int|
                0 <= i < mutations@.len() ==> crate::txn::lock_of(
                    final(self).engine,
                    (#[trigger] mutations@[i]).key_view(),
                ) is Some && crate::txn::lock_of(
                    final(self).engine,
                    mutations@[i].key_view(),
                )->0.ts == start_ts)),
            cmd matches Command::Rollback { keys, start_ts, .. } ==> (r
                matches SchedOutcome::Finished(res) ==> (res is Ok ==> forall|i: int|
                0 <= i < keys@.len() ==> crate::txn::no_lock_at(
                    final(self).engine,
                    (#[trigger] keys@[i])@,
                    start_ts,
                ))),
            cmd matches Command::ScanLock { max_ts, start_key, limit, .. } ==> (r
                matches SchedOutcome::Finished(res) && (match res {
                    Result::Ok(pr) => pr matches ProcessResult::Locks(infos) && old(
                        self,
                    ).engine.has_lock && {
                        let found = crate::txn::lock_infos_of(
                            crate::txn::scan_locks_spec(
                                old(self).engine.lock.view_seq(),
                                max_ts.0,
                                match start_key {
                                    Option::Some(k) => Option::Some(k@),
                                    Option::None => Option::None,
                                },
                            ),
                        );
                        crate::txn::lock_info_list_view(infos@) == (if limit == 0 || found.len()
                            <= limit {
                            found
                        } else {
                            found.take(limit as int)
                        })
                    },
                    Result::Err(e) => !old(self).engine.has_lock && e@
                        matches ErrorV::EngineRequest(_),
                })),
            r is Finished ==> final(self).sched.running_write_bytes == old(
                self,
            ).sched.running_write_bytes && final(self).sched.paused@ == old(self).sched.paused@
                && final(self).sched.queued@ == old(self).sched.queued@,
            old(self).sched.latches.all_free() && r is Finished
                ==> final(self).sched.latches.all_free(),
            cmd is ScanLock ==> final(self).engine == old(self).engine,
            cmd matches Command::Pause { keys, .. } ==> (old(self).sched.latches.all_free() && old(
                self,
            ).sched.running_write_bytes < old(self).sched.pending_write_threshold ==> (r
                is Pending && final(self).sched.paused@.len() == old(self).sched.paused@.len() + 1
                && final(self).sched.running_write_bytes >= old(self).sched.running_write_bytes && (
            keys@.len() > 0 ==> final(self).sched.running_write_bytes >= keys@[0]@.len()))),
            cmd matches Command::Commit { keys, lock_ts, commit_ts, .. } ==> {
                &&& (r matches SchedOutcome::Finished(res) ==> (res matches Result::Ok(pr) ==> pr
                    == ProcessResult::TxnStatus(TxnStatus::Committed { commit_ts })))
                &&& (old(self).sched.latches.all_free() && old(self).sched.running_write_bytes
                    < old(self).sched.pending_write_threshold
                    && crate::txn::keys_pairwise_distinct(
                    Seq::new(keys@.len(), |i: int| keys@[i]@),
                ) && (forall|i: int|
                    0 <= i < keys@.len() ==> crate::txn::commit_ready(
                        old(self).engine,
                        (#[trigger] keys@[i])@,
                        lock_ts,
                    )) ==> (r matches SchedOutcome::Finished(res) && res is Ok))
                &&& (crate::txn::keys_pairwise_distinct(Seq::new(keys@.len(), |i: int| keys@[i]@))
                    && commit_ts.0 > lock_ts.0 && (forall|i: int|
                    0 <= i < keys@.len() ==> crate::txn::versions_below(
                        old(self).engine,
                        (#[trigger] keys@[i])@,
                        commit_ts.0,
                    )) ==> (r matches SchedOutcome::Finished(res) ==> (res is Ok ==> forall|i: int|
                    0 <= i < keys@.len() ==> !crate::txn::no_forward_record(
                        final(self).engine,
                        (#[trigger] keys@[i])@,
                        lock_ts,
                    ))))
                &&& (crate::txn::keys_pairwise_distinct(Seq::new(keys@.len(), |i: int| keys@[i]@))
                    ==> (r matches SchedOutcome::Finished(res) ==> (res is Ok
                    ==> crate::scheduler::commit_records_left(
                    old(self).engine,
                    final(self).engine,
                    keys@,
                    lock_ts,
                    commit_ts,
                ))))
                &&& (r is Finished ==> final(self).engine.data.view_seq() == old(
                    self,
                ).engine.data.view_seq() && final(self).engine.raw_default.view_seq() == old(
                    self,
                ).engine.raw_default.view_seq() && final(self).engine.raw_lock.view_seq() == old(
                    self,
                ).engine.raw_lock.view_seq() && final(self).engine.raw_write.view_seq() == old(
                    self,
                ).engine.raw_write.view_seq() && final(self).engine.has_default == old(
                    self,
                ).engine.has_default && final(self).engine.has_lock == old(self).engine.has_lock
                    && final(self).engine.has_write == old(self).engine.has_write
                    && final(self).engine.has_raft == old(self).engine.has_raft)
            },
            cmd matches Command::Prewrite {
                mutations,
                primary,
                start_ts,
                lock_ttl,
                skip_constraint_check,
                txn_size,
                min_commit_ts,
                secondary_keys,
                ..
            } ==> {
                &&& (r matches SchedOutcome::Finished(res) ==> (res matches Result::Ok(pr) ==> pr
                    == ProcessResult::Res))
                &&& (crate::txn::keys_pairwise_distinct(
                    Seq::new(mutations@.len(), |i: int| mutations@[i].key_view()),
                ) ==> (r matches SchedOutcome::Finished(res) ==> (res is Ok ==> forall|i: int|
                    0 <= i < mutations@.len() ==> crate::txn::lock_of(
                        final(self).engine,
                        (#[trigger] mutations@[i]).key_view(),
                    ) == Option::Some(
                        crate::txn::prewrite_result_lock(
                            old(self).engine,
                            mutations@[i],
                            primary@,
                            start_ts,
                            lock_ttl,
                            txn_size,
                            crate::scheduler::effective_min_commit(
                                min_commit_ts,
                                start_ts,
                                old(self).concurrency_manager.max_read_ts,
                                (secondary_keys is Some) && old(self).sched.enable_async_commit,
                            ),
                            match secondary_keys {
                                Option::Some(sv) => Option::Some(
                                    crate::kv::bytes_list_view(sv@),
                                ),
                                Option::None => Option::None,
                            },
                        ),
                    ))))
                &&& (old(self).sched.latches.all_free() && old(self).sched.running_write_bytes
                    < old(self).sched.pending_write_threshold
                    && crate::scheduler::all_prewrite_ready(old(self).engine, mutations@, start_ts)
                    && crate::txn::keys_pairwise_distinct(
                    Seq::new(mutations@.len(), |i: int| mutations@[i].key_view()),
                ) && (forall|i: int|
                    0 <= i < mutations@.len() ==> (#[trigger] mutations@[i]).key_view().len()
                        <= old(self).max_key_size) ==> (r matches SchedOutcome::Finished(res)
                    && res is Ok))
                &&& (crate::txn::keys_pairwise_distinct(
                    Seq::new(mutations@.len(), |i: int| mutations@[i].key_view()),
                ) ==> (r matches SchedOutcome::Finished(res) ==> (res matches Result::Err(e) ==> (
                crate::scheduler::prewrite_fail_cause(
                    old(self).engine,
                    mutations@,
                    primary@,
                    start_ts,
                    skip_constraint_check,
                    e@,
                ) || (e@ == ErrorV::SchedTooBusy && old(self).sched.running_write_bytes >= old(
                    self,
                ).sched.pending_write_threshold) || (e@ matches ErrorV::KeyTooLarge { .. }
                    && exists|i: int|
                    0 <= i < mutations@.len() && (#[trigger] mutations@[i]).key_view().len() > old(
                        self,
                    ).max_key_size)))))
            },
            cmd matches Command::PrewritePessimistic { mutations, start_ts, .. } ==> (r
                matches SchedOutcome::Finished(res) ==> (res matches Result::Ok(pr) ==> (pr
                == ProcessResult::Res && forall|i: int|
                0 <= i < mutations@.len() ==> crate::txn::lock_of(
                    final(self).engine,
                    (#[trigger] mutations@[i]).0.key_view(),
                ) is Some && crate::txn::lock_of(
                    final(self).engine,
                    mutations@[i].0.key_view(),
                )->0.ts == start_ts))),
            cmd matches Command::TxnHeartBeat { primary_key, start_ts, advise_ttl, .. } ==> {
                &&& (r matches SchedOutcome::Finished(res) ==> (res matches Result::Ok(pr) ==> (
                pr matches ProcessResult::TxnStatus(ts2) && (ts2 matches TxnStatus::Uncommitted {
                    lock,
                } && {
                    &&& crate::txn::lock_of(old(self).engine, primary_key@) is Some
                    &&& crate::txn::lock_of(old(self).engine, primary_key@)->0.ts == start_ts
                    &&& lock@ == (crate::kv::LockV {
                        ttl: if advise_ttl > crate::txn::lock_of(
                            old(self).engine,
                            primary_key@,
                        )->0.ttl {
                            advise_ttl
                        } else {
                            crate::txn::lock_of(old(self).engine, primary_key@)->0.ttl
                        },
                        ..crate::txn::lock_of(old(self).engine, primary_key@)->0
                    })
                }))))
                &&& (old(self).sched.latches.all_free() && old(self).sched.running_write_bytes
                    < old(self).sched.pending_write_threshold && old(self).engine.has_lock && (
                match crate::txn::lock_of(old(self).engine, primary_key@) {
                    Option::Some(l) => l.ts == start_ts,
                    Option::None => false,
                }) ==> (r matches SchedOutcome::Finished(res) && res is Ok))
                &&& (r matches SchedOutcome::Finished(res) ==> (res matches Result::Err(e) ==> ((
                e@ matches ErrorV::TxnLockNotFound { .. } && (match crate::txn::lock_of(
                    old(self).engine,
                    primary_key@,
                ) {
                    Option::Some(l) => l.ts != start_ts,
                    Option::None => true,
                })) || (e@ matches ErrorV::EngineRequest(_) && !old(self).engine.has_lock) || (e@
                    == ErrorV::SchedTooBusy && old(self).sched.running_write_bytes >= old(
                    self,
                ).sched.pending_write_threshold))))
            },
            cmd matches Command::AcquirePessimisticLock {
                keys,
                primary,
                start_ts,
                for_update_ts,
                return_values,
                ..
            } ==> {
                &&& (r matches SchedOutcome::Finished(res) ==> (res matches Result::Ok(pr) ==> (
                pr matches ProcessResult::PessimisticLockRes(pres) && (pres matches Result::Ok(v)
                    && (if return_values {
                    v matches PessimisticLockRes::Values(vs) && vs@.len() == keys@.len()
                } else {
                    v == PessimisticLockRes::Empty
                })))))
                &&& (r matches SchedOutcome::Finished(res) ==> (res is Ok ==> forall|i: int|
                    0 <= i < keys@.len() ==> crate::txn::lock_of(
                        final(self).engine,
                        (#[trigger] keys@[i]).0@,
                    ) is Some && crate::txn::lock_of(final(self).engine, keys@[i].0@)->0.ts
                        == start_ts))
                &&& (return_values ==> (r matches SchedOutcome::Finished(res) ==> (res
                    matches Result::Ok(pr) ==> (pr matches ProcessResult::PessimisticLockRes(pres)
                    && (pres matches Result::Ok(v) && (v matches PessimisticLockRes::Values(vs)
                    && crate::scheduler::acquire_values_match(
                    old(self).engine,
                    keys@,
                    for_update_ts,
                    vs@,
                )))))))
                &&& (old(self).sched.latches.all_free() && old(self).sched.running_write_bytes
                    < old(self).sched.pending_write_threshold
                    && crate::scheduler::all_pessimistic_ready(
                    old(self).engine,
                    keys@,
                    start_ts,
                    for_update_ts,
                    return_values,
                ) && crate::txn::keys_pairwise_distinct(Seq::new(keys@.len(), |i: int| keys@[i].0@))
                    && (forall|i: int|
                    0 <= i < keys@.len() ==> (#[trigger] keys@[i]).0@.len() <= old(
                        self,
                    ).max_key_size) ==> (r matches SchedOutcome::Finished(res) && res is Ok))
                &&& (crate::txn::keys_pairwise_distinct(Seq::new(keys@.len(), |i: int| keys@[i].0@))
                    ==> (r matches SchedOutcome::Finished(res) ==> (res matches Result::Err(e)
                    ==> (crate::scheduler::acquire_fail_cause(
                    old(self).engine,
                    keys@,
                    primary@,
                    start_ts,
                    for_update_ts,
                    return_values,
                    e@,
                ) || (e@ == ErrorV::SchedTooBusy && old(self).sched.running_write_bytes >= old(
                    self,
                ).sched.pending_write_threshold) || (e@ matches ErrorV::KeyTooLarge { .. }
                    && exists|i: int|
                    0 <= i < keys@.len() && (#[trigger] keys@[i]).0@.len() > old(
                        self,
                    ).max_key_size)))))
            },
            cmd is CheckSecondaryLocks ==> (r matches SchedOutcome::Finished(res) ==> (res
                matches Result::Ok(pr) ==> pr is SecondaryLocksStatus)),
            cmd is CheckTxnStatus ==> (r matches SchedOutcome::Finished(res) ==> (res
                matches Result::Ok(pr) ==> pr is TxnStatus)),
            (cmd is Cleanup || cmd is Rollback || cmd is PessimisticRollback || cmd
                is ResolveLockLite || cmd is ResolveLockReadPhase) ==> (r
                matches SchedOutcome::Finished(res) ==> (res matches Result::Ok(pr) ==> pr
                == ProcessResult::Res)),
            (match cmd {
                Command::Prewrite { mutations, .. } => exists|i: int|
                    0 <= i < mutations@.len() && (#[trigger] mutations@[i]).key_view().len() > old(
                        self,
                    ).max_key_size,
                Command::PrewritePessimistic { mutations, .. } => exists|i: int|
                    0 <= i < mutations@.len() && (#[trigger] mutations@[i]).0.key_view().len()
                        > old(self).max_key_size,
                Command::AcquirePessimisticLock { keys, .. } => exists|i: int|
                    0 <= i < keys@.len() && (#[trigger] keys@[i]).0@.len() > old(
                        self,
                    ).max_key_size,
                _ => false,
            }) ==> (r matches SchedOutcome::Finished(res) && (res matches Result::Err(e) && (e@
                matches ErrorV::KeyTooLarge { size, limit } && (limit == old(self).max_key_size
                && size > old(self).max_key_size))) && *final(self) == *old(self)),
    {
        let too_large: Option<usize> = match &cmd {
            Command::Prewrite { mutations, .. } => {
                let mut worst: Option<usize> = Option::None;
                let mut i: usize = 0;
                while i < mutations.len()
                    invariant
                        0 <= i <= mutations@.len(),
                        self.max_key_size == old(self).max_key_size,
                        worst is Some ==> exists|j: int|
                            0 <= j < i && (#[trigger] mutations@[j]).key_view().len() > old(
                                self,
                            ).max_key_size,
                        worst is None ==> forall|j: int|
                            0 <= j < i ==> (#[trigger] mutations@[j]).key_view().len() <= old(
                                self,
                            ).max_key_size,
                        worst matches Option::Some(s) ==> s > old(self).max_key_size,
                    decreases mutations@.len() - i,
                {
                    if mutations[i].key().len() > self.max_key_size {
                        worst = Option::Some(mutations[i].key().len());
                        proof {
                            assert(mutations@[i as int].key_view().len() > old(self).max_key_size);
                        }
                    }
                    i = i + 1;
                }
                worst
            },
            Command::PrewritePessimistic { mutations, .. } => {
                let mut worst: Option<usize> = Option::None;
                let mut i: usize = 0;
                while i < mutations.len()
                    invariant
                        0 <= i <= mutations@.len(),
                        self.max_key_size == old(self).max_key_size,
                        worst is Some ==> exists|j: int|
                            0 <= j < i && (#[trigger] mutations@[j]).0.key_view().len() > old(
                                self,
                            ).max_key_size,
                        worst is None ==> forall|j: int|
                            0 <= j < i ==> (#[trigger] mutations@[j]).0.key_view().len() <= old(
                                self,
                            ).max_key_size,
                        worst matches Option::Some(s) ==> s > old(self).max_key_size,
                    decreases mutations@.len() - i,
                {
                    if mutations[i].0.key().len() > self.max_key_size {
                        worst = Option::Some(mutations[i].0.key().len());
                        proof {
                            assert(mutations@[i as int].0.key_view().len() > old(
                                self,
                            ).max_key_size);
                        }
                    }
                    i = i + 1;
                }
                worst
            },
            Command::AcquirePessimisticLock { keys, .. } => {
                let mut worst: Option<usize> = Option::None;
                let mut i: usize = 0;
                while i < keys.len()
                    invariant
                        0 <= i <= keys@.len(),
                        self.max_key_size == old(self).max_key_size,
                        worst is Some ==> exists|j: int|
                            0 <= j < i && (#[trigger] keys@[j]).0@.len() > old(self).max_key_size,
                        worst is None ==> forall|j: int|
                            0 <= j < i ==> (#[trigger] keys@[j]).0@.len() <= old(
                                self,
                            ).max_key_size,
                        worst matches Option::Some(s) ==> s > old(self).max_key_size,
                    decreases keys@.len() - i,
                {
                    if keys[i].0.len() > self.max_key_size {
                        worst = Option::Some(keys[i].0.len());
                        proof {
                            assert(keys@[i as int].0@.len() > old(self).max_key_size);
                        }
                    }
                    i = i + 1;
                }
                worst
            },
            _ => Option::None,
        };
        if let Option::Some(size) = too_large {
            return SchedOutcome::Finished(
                Result::Err(Error::KeyTooLarge { size, limit: self.max_key_size }),
            );
        }
        // Lend the engine to the scheduler for the command's duration; the
        // placeholder left behind has no families and is never observed.
        let mut engine = Engine::with_cfs(false, false, false, false);
        core::mem::swap(&mut engine, &mut self.engine);
        let outcome = self.sched.run_cmd(cmd, &mut engine, &mut self.concurrency_manager);
        core::mem::swap(&mut engine, &mut self.engine);
        outcome
    }

    /// Ends a paused command, letting whatever queued behind it run.
    pub fn finish_paused(&mut self, id: u64) -> (r: bool)
        requires
            old(self).wf(),
        ensures
            final(self).wf(),
            r <==> exists|j: int|
                0 <= j < old(self).sched.paused@.len() && (#[trigger] old(
                    self,
                ).sched.paused@[j]).id == id,
            !r ==> final(self).sched == old(self).sched && final(self).engine == old(self).engine
                && final(self).concurrency_manager == old(self).concurrency_manager,
            r && old(self).sched.queued@.len() == 0 ==> exists|j: int|
                0 <= j < old(self).sched.paused@.len() && (#[trigger] old(
                    self,
                ).sched.paused@[j]).id == id && final(self).sched.paused@ == old(
                    self,
                ).sched.paused@.remove(j) && final(self).sched.running_write_bytes == (if old(
                    self,
                ).sched.running_write_bytes >= old(self).sched.paused@[j].bytes {
                    (old(self).sched.running_write_bytes - old(self).sched.paused@[j].bytes) as u64
                } else {
                    0u64
                }) && final(self).sched.completed@ == old(self).sched.completed@.push(
                    (id, Result::<ProcessResult, Error>::Ok(ProcessResult::Res)),
                ) && final(self).sched.queued@ == old(self).sched.queued@ && final(self).engine
                    == old(self).engine && final(self).concurrency_manager == old(
                    self,
                ).concurrency_manager,
    {
        // Lend the engine to the scheduler while queued commands run.
        let mut engine = Engine::with_cfs(false, false, false, false);
        core::mem::swap(&mut engine, &mut self.engine);
        let r = self.sched.finish_paused(id, &mut engine, &mut self.concurrency_manager);
        core::mem::swap(&mut engine, &mut self.engine);
        r
    }

    /// Takes the completions of commands that finished after queuing or
    /// pausing.
    pub fn take_completed(&mut self) -> (r: Vec<(u64, Result<ProcessResult, Error>)>)
        requires
            old(self).wf(),
        ensures
            final(self).wf(),
            final(self).engine == old(self).engine,
            final(self).concurrency_manager == old(self).concurrency_manager,
            final(self).sched.latches == old(self).sched.latches,
            final(self).sched.queued == old(self).sched.queued,
            final(self).sched.paused == old(self).sched.paused,
            final(self).sched.running_write_bytes == old(self).sched.running_write_bytes,
            r@ == old(self).sched.completed@,
            final(self).sched.completed@.len() == 0,
    {
        self.sched.take_completed()
    }

    /// Deletes every key in `[start_key, end_key)` from all data families
    /// at once, raw and MVCC alike; with `notify_only` the removal is
    /// deferred to background cleanup but the range is logically gone as
    /// soon as this write is durable, which the model makes immediate.
    pub fn delete_range(
        &mut self,
        ctx: Context,
        start_key: Key,
        end_key: Key,
        notify_only: bool,
    ) -> (r: Result<(), Error>)
        requires
            old(self).wf(),
        ensures
            final(self).wf(),
            r is Err <==> (!old(self).engine.has_default || !old(self).engine.has_lock || !old(
                self,
            ).engine.has_write),
            match r {
                Result::Ok(()) => {
                    &&& final(self).sched == old(self).sched
                    &&& final(self).concurrency_manager == old(self).concurrency_manager
                    &&& final(self).engine.lock.view_seq() == crate::store::store_range_del_spec(
                        old(self).engine.lock.view_seq(),
                        start_key@,
                        end_key@,
                    )
                    &&& final(self).engine.write.view_seq() == crate::store::store_range_del_spec(
                        old(self).engine.write.view_seq(),
                        start_key@,
                        end_key@,
                    )
                    &&& final(self).engine.data.view_seq() == crate::store::store_range_del_spec(
                        old(self).engine.data.view_seq(),
                        start_key@,
                        end_key@,
                    )
                    &&& final(self).engine.raw_default.view_seq()
                        == crate::store::store_range_del_spec(
                        old(self).engine.raw_default.view_seq(),
                        start_key@,
                        end_key@,
                    )
                    &&& final(self).engine.raw_lock.view_seq()
                        == crate::store::store_range_del_spec(
                        old(self).engine.raw_lock.view_seq(),
                        start_key@,
                        end_key@,
                    )
                    &&& final(self).engine.raw_write.view_seq()
                        == crate::store::store_range_del_spec(
                        old(self).engine.raw_write.view_seq(),
                        start_key@,
                        end_key@,
                    )
                    &&& final(self).engine.has_default == old(self).engine.has_default
                    &&& final(self).engine.has_lock == old(self).engine.has_lock
                    &&& final(self).engine.has_write == old(self).engine.has_write
                    &&& final(self).engine.has_raft == old(self).engine.has_raft
                },
                Result::Err(e) => final(self).engine == old(self).engine && e@
                    matches ErrorV::EngineRequest(_),
            },
    {
        let _ = ctx;
        let _ = notify_only;
        self.engine.delete_range_all_cfs(&start_key, &end_key)
    }

    /// Takes in-memory residency for a key in the concurrency manager.
    pub fn cm_lock_key(&mut self, key: &Key) -> (r: Option<u64>)
        requires
            old(self).wf(),
        ensures
            final(self).wf(),
            final(self).engine == old(self).engine,
            final(self).sched == old(self).sched,
            match r {
                Option::Some(g) => {
                    &&& !crate::cm::guarded(old(self).concurrency_manager.entries@, key@)
                    &&& final(self).concurrency_manager.entries@.len() == old(
                        self,
                    ).concurrency_manager.entries@.len() + 1
                    &&& final(self).concurrency_manager.entries@.last().key@ == key@
                    &&& final(self).concurrency_manager.entries@.last().lock is None
                    &&& final(self).concurrency_manager.entries@.last().guard == g
                    &&& final(self).concurrency_manager.entries@.take(
                        old(self).concurrency_manager.entries@.len() as int,
                    ) == old(self).concurrency_manager.entries@
                    &&& final(self).concurrency_manager.max_read_ts == old(
                        self,
                    ).concurrency_manager.max_read_ts
                },
                Option::None => final(self).concurrency_manager == old(self).concurrency_manager
                    && (crate::cm::guarded(old(self).concurrency_manager.entries@, key@) || old(
                    self,
                ).concurrency_manager.next_guard == u64::MAX),
            },
    {
        self.concurrency_manager.lock_key(key)
    }

    /// Stores a transient lock under a concurrency-manager guard.
    pub fn cm_store_lock(&mut self, guard: u64, lock: Option<crate::kv::Lock>) -> (r: bool)
        requires
            old(self).wf(),
        ensures
            final(self).wf(),
            final(self).engine == old(self).engine,
            final(self).sched == old(self).sched,
            final(self).concurrency_manager.max_read_ts == old(
                self,
            ).concurrency_manager.max_read_ts,
            final(self).concurrency_manager.next_guard == old(self).concurrency_manager.next_guard,
            final(self).concurrency_manager.entries@.len() == old(
                self,
            ).concurrency_manager.entries@.len(),
            r <==> exists|j: int|
                0 <= j < old(self).concurrency_manager.entries@.len() && (#[trigger] old(
                    self,
                ).concurrency_manager.entries@[j]).guard == guard,
            r ==> exists|j: int|
                {
                    &&& 0 <= j < old(self).concurrency_manager.entries@.len()
                    &&& (#[trigger] old(self).concurrency_manager.entries@[j]).guard == guard
                    &&& final(self).concurrency_manager.entries@[j].key@ == old(
                        self,
                    ).concurrency_manager.entries@[j].key@
                    &&& final(self).concurrency_manager.entries@[j].lock == lock
                },
            !r ==> final(self).concurrency_manager == old(self).concurrency_manager,
    {
        self.concurrency_manager.store_lock(guard, lock)
    }

    /// Releases a concurrency-manager guard.
    pub fn cm_release_guard(&mut self, guard: u64)
        requires
            old(self).wf(),
        ensures
            final(self).wf(),
            final(self).engine == old(self).engine,
            final(self).sched == old(self).sched,
            final(self).concurrency_manager.max_read_ts == old(
                self,
            ).concurrency_manager.max_read_ts,
            final(self).concurrency_manager.next_guard == old(self).concurrency_manager.next_guard,
            final(self).concurrency_manager.entries@ == old(
                self,
            ).concurrency_manager.entries@.filter(
                (|e: crate::cm::CmEntry| e.guard != guard),
            ),
            forall|k: Seq<u8>| #[trigger]
                crate::cm::guarded(final(self).concurrency_manager.entries@, k)
                    ==> crate::cm::guarded(old(self).concurrency_manager.entries@, k),
    {
        self.concurrency_manager.release_guard(guard)
    }

    /// The watermark of the highest timestamp any read has observed.
    pub fn cm_max_read_ts(&self) -> (r: TimeStamp)
        ensures
            r == self.concurrency_manager.max_read_ts,
    {
        self.concurrency_manager.max_read_ts()
    }

    /// Reads the value of a raw key.
    pub fn raw_get(&mut self, ctx: Context, cf: String, key: Vec<u8>) -> (r: Result<
        Option<Vec<u8>>,
        Error,
    >)
        requires
            old(self).wf(),
        ensures
            final(self).wf(),
            *final(self) == *old(self),
            match rawkv_cf_spec(cf@) {
                Option::None => r matches Result::Err(e) && e@ == ErrorV::InvalidCf(cf@),
                Option::Some(c) => {
                    if !old(self).engine.has_cf_spec(c) {
                        r matches Result::Err(e) && (e@ matches ErrorV::EngineRequest(_))
                    } else {
                        r matches Result::Ok(o) && (match o {
                            Option::Some(v) => crate::store::store_get_spec(
                                old(self).engine.raw_store_spec(c),
                                key@,
                                0,
                            ) == Option::Some(v@),
                            Option::None => crate::store::store_get_spec(
                                old(self).engine.raw_store_spec(c),
                                key@,
                                0,
                            ) is None,
                        })
                    }
                },
            },
    {
        let _ = ctx;
        let cf = match rawkv_cf(&cf) {
            Result::Ok(c) => c,
            Result::Err(e) => {
                return Result::Err(e);
            },
        };
        let k = Key::from_encoded(key);
        match self.engine.raw_get_cf(cf, &k) {
            Result::Ok(Option::Some(v)) => {
                let ghost c = cf;
                let out = clone_bytes(v);
                proof {
                    assert(c != CfName::Raft && self.engine.has_cf_spec(c)
                        && crate::store::store_get_spec(self.engine.raw_store_spec(c), k@, 0)
                        == Option::Some(out@));
                }
                Result::Ok(Option::Some(out))
            },
            Result::Ok(Option::None) => Result::Ok(Option::None),
            Result::Err(e) => Result::Err(e),
        }
    }

    /// Writes a raw key, rejecting oversized keys first.
    pub fn raw_put(&mut self, ctx: Context, cf: String, key: Vec<u8>, value: Vec<u8>) -> (r: Result<
        (),
        Error,
    >)
        requires
            old(self).wf(),
        ensures
            final(self).wf(),
            final(self).max_key_size == old(self).max_key_size,
            final(self).enable_async_commit == old(self).enable_async_commit,
            r is Err ==> *final(self) == *old(self),
            key@.len() > old(self).max_key_size ==> (r matches Result::Err(e) && e@
                == (ErrorV::KeyTooLarge { size: key@.len() as usize, limit: old(self).max_key_size })),
            key@.len() <= old(self).max_key_size ==> (match rawkv_cf_spec(cf@) {
                Option::None => r matches Result::Err(e) && e@ == ErrorV::InvalidCf(cf@),
                Option::Some(c) => {
                    if !old(self).engine.has_cf_spec(c) {
                        r matches Result::Err(e) && (e@ matches ErrorV::EngineRequest(_))
                    } else {
                        r is Ok && final(self).engine.raw_store_spec(c)
                            == crate::store::store_put_spec(
                            old(self).engine.raw_store_spec(c),
                            key@,
                            0,
                            value@,
                        ) && crate::engine::raw_only_changed(
                            old(self).engine,
                            final(self).engine,
                            c,
                        ) && final(self).sched == old(self).sched
                            && final(self).concurrency_manager == old(self).concurrency_manager
                    }
                },
            }),
    {
        let _ = ctx;
        if key.len() > self.max_key_size {
            return Result::Err(Error::KeyTooLarge { size: key.len(), limit: self.max_key_size });
        }
        let cf = match rawkv_cf(&cf) {
            Result::Ok(c) => c,
            Result::Err(e) => {
                return Result::Err(e);
            },
        };
        let k = Key::from_encoded(key);
        match self.engine.raw_put_cf(cf, &k, value) {
            Result::Ok(()) => {
                proof {
                    assert(self.engine.raw_store_spec(cf) == crate::store::store_put_spec(
                        old(self).engine.raw_store_spec(cf),
                        k@,
                        0,
                        value@,
                    ));
                }
                Result::Ok(())
            },
            Result::Err(e) => Result::Err(e),
        }
    }

    /// Writes a batch of raw pairs, all of them or none.
    pub fn raw_batch_put(&mut self, ctx: Context, cf: String, pairs: Vec<KvPair>) -> (r: Result<
        (),
        Error,
    >)
        requires
            old(self).wf(),
        ensures
            final(self).wf(),
            final(self).max_key_size == old(self).max_key_size,
            final(self).enable_async_commit == old(self).enable_async_commit,
            r is Err ==> *final(self) == *old(self),
            match rawkv_cf_spec(cf@) {
                Option::None => r matches Result::Err(e) && e@ == ErrorV::InvalidCf(cf@),
                Option::Some(c) => {
                    if exists|i: int|
                        0 <= i < pairs@.len() && (#[trigger] pairs@[i]).0@.len() > old(
                            self,
                        ).max_key_size {
                        r matches Result::Err(e) && (e@ matches ErrorV::KeyTooLarge { .. })
                    } else if !old(self).engine.has_cf_spec(c) {
                        r matches Result::Err(e) && (e@ matches ErrorV::EngineRequest(_))
                    } else {
                        r is Ok && final(self).engine.raw_store_spec(c) == raw_puts_fold(
                            old(self).engine.raw_store_spec(c),
                            crate::mvcc::pairs_view(pairs@),
                        ) && crate::engine::raw_only_changed(
                            old(self).engine,
                            final(self).engine,
                            c,
                        ) && final(self).sched == old(self).sched
                            && final(self).concurrency_manager == old(self).concurrency_manager
                    }
                },
            },
    {
        let _ = ctx;
        let cfn = match rawkv_cf(&cf) {
            Result::Ok(c) => c,
            Result::Err(e) => {
                return Result::Err(e);
            },
        };
        let mut i: usize = 0;
        let n = pairs.len();
        while i < n
            invariant
                0 <= i <= n,
                n == pairs@.len(),
                *self == *old(self),
                self.wf(),
                self.max_key_size == old(self).max_key_size,
                rawkv_cf_spec(cf@) == Option::Some(cfn),
                forall|x: int|
                    0 <= x < i ==> (#[trigger] pairs@[x]).0@.len() <= old(self).max_key_size,
            decreases n - i,
        {
            if pairs[i].0.len() > self.max_key_size {
                proof {
                    assert(pairs@[i as int].0@.len() > old(self).max_key_size);
                }
                return Result::Err(Error::KeyTooLarge {
                    size: pairs[i].0.len(),
                    limit: self.max_key_size,
                });
            }
            i = i + 1;
        }
        if !self.engine.has_cf(cfn) {
            return Result::Err(Error::EngineRequest(crate::engine::cf_name_string(cfn)));
        }
        let ghost pv = crate::mvcc::pairs_view(pairs@);
        let ghost target = raw_puts_fold(old(self).engine.raw_store_spec(cfn), pv);
        proof {
            assert(pv.skip(0) =~= pv);
        }
        let mut j: usize = 0;
        while j < n
            invariant
                0 <= j <= n,
                n == pairs@.len(),
                self.wf(),
                self.engine.has_cf_spec(cfn),
                cfn != CfName::Raft,
                rawkv_cf_spec(cf@) == Option::Some(cfn),
                forall|x: int|
                    0 <= x < n ==> (#[trigger] pairs@[x]).0@.len() <= old(self).max_key_size,
                pv == crate::mvcc::pairs_view(pairs@),
                target == raw_puts_fold(old(self).engine.raw_store_spec(cfn), pv),
                raw_puts_fold(self.engine.raw_store_spec(cfn), pv.skip(j as int)) == target,
                crate::engine::raw_only_changed(old(self).engine, self.engine, cfn),
                self.sched == old(self).sched,
                self.concurrency_manager == old(self).concurrency_manager,
                self.max_key_size == old(self).max_key_size,
                self.enable_async_commit == old(self).enable_async_commit,
            decreases n - j,
        {
            let k = Key::from_encoded(clone_bytes(&pairs[j].0));
            let v = clone_bytes(&pairs[j].1);
            proof {
                assert(pv.skip(j as int)[0] == (pairs@[j as int].0@, pairs@[j as int].1@));
                assert(pv.skip(j as int).skip(1) =~= pv.skip(j + 1));
            }
            match self.engine.raw_put_cf(cfn, &k, v) {
                Result::Ok(()) => {},
                Result::Err(e) => {
                    return Result::Err(e);
                },
            }
            j = j + 1;
        }
        proof {
            assert(pv.skip(n as int).len() == 0);
            assert(raw_puts_fold(self.engine.raw_store_spec(cfn), pv.skip(n as int))
                == self.engine.raw_store_spec(cfn));
        }
        Result::Ok(())
    }

    /// Deletes a raw key.
    pub fn raw_delete(&mut self, ctx: Context, cf: String, key: Vec<u8>) -> (r: Result<(), Error>)
        requires
            old(self).wf(),
        ensures
            final(self).wf(),
            final(self).max_key_size == old(self).max_key_size,
            final(self).enable_async_commit == old(self).enable_async_commit,
            r is Err ==> *final(self) == *old(self),
            key@.len() > old(self).max_key_size ==> (r matches Result::Err(e) && e@
                == (ErrorV::KeyTooLarge { size: key@.len() as usize, limit: old(self).max_key_size })),
            key@.len() <= old(self).max_key_size ==> (match rawkv_cf_spec(cf@) {
                Option::None => r matches Result::Err(e) && e@ == ErrorV::InvalidCf(cf@),
                Option::Some(c) => {
                    if !old(self).engine.has_cf_spec(c) {
                        r matches Result::Err(e) && (e@ matches ErrorV::EngineRequest(_))
                    } else {
                        r is Ok && final(self).engine.raw_store_spec(c)
                            == crate::store::store_del_spec(
                            old(self).engine.raw_store_spec(c),
                            key@,
                            0,
                        ) && crate::engine::raw_only_changed(
                            old(self).engine,
                            final(self).engine,
                            c,
                        ) && final(self).sched == old(self).sched
                            && final(self).concurrency_manager == old(self).concurrency_manager
                    }
                },
            }),
    {
        let _ = ctx;
        if key.len() > self.max_key_size {
            return Result::Err(Error::KeyTooLarge { size: key.len(), limit: self.max_key_size });
        }
        let cf = match rawkv_cf(&cf) {
            Result::Ok(c) => c,
            Result::Err(e) => {
                return Result::Err(e);
            },
        };
        let k = Key::from_encoded(key);
        match self.engine.raw_del_cf(cf, &k) {
            Result::Ok(()) => {
                proof {
                    assert(self.engine.raw_store_spec(cf) == crate::store::store_del_spec(
                        old(self).engine.raw_store_spec(cf),
                        k@,
                        0,
                    ));
                }
                Result::Ok(())
            },
            Result::Err(e) => Result::Err(e),
        }
    }

    /// Deletes every raw key in `[start_key, end_key)` of one family.
    pub fn raw_delete_range(
        &mut self,
        ctx: Context,
        cf: String,
        start_key: Vec<u8>,
        end_key: Vec<u8>,
    ) -> (r: Result<(), Error>)
        requires
            old(self).wf(),
        ensures
            final(self).wf(),
            final(self).max_key_size == old(self).max_key_size,
            final(self).enable_async_commit == old(self).enable_async_commit,
            r is Err ==> *final(self) == *old(self),
            start_key@.len() > old(self).max_key_size || end_key@.len() > old(self).max_key_size
                ==> (r matches Result::Err(e) && (e@ matches ErrorV::KeyTooLarge { .. })),
            start_key@.len() <= old(self).max_key_size && end_key@.len() <= old(self).max_key_size
                ==> (match rawkv_cf_spec(cf@) {
                Option::None => r matches Result::Err(e) && e@ == ErrorV::InvalidCf(cf@),
                Option::Some(c) => {
                    if !old(self).engine.has_cf_spec(c) {
                        r matches Result::Err(e) && (e@ matches ErrorV::EngineRequest(_))
                    } else {
                        r is Ok && final(self).engine.raw_store_spec(c)
                            == crate::store::store_range_del_spec(
                            old(self).engine.raw_store_spec(c),
                            start_key@,
                            end_key@,
                        ) && crate::engine::raw_only_changed(
                            old(self).engine,
                            final(self).engine,
                            c,
                        ) && final(self).sched == old(self).sched
                            && final(self).concurrency_manager == old(self).concurrency_manager
                    }
                },
            }),
    {
        let _ = ctx;
        if start_key.len() > self.max_key_size || end_key.len() > self.max_key_size {
            let size = if start_key.len() > self.max_key_size {
                start_key.len()
            } else {
                end_key.len()
            };
            return Result::Err(Error::KeyTooLarge { size, limit: self.max_key_size });
        }
        let cf = match rawkv_cf(&cf) {
            Result::Ok(c) => c,
            Result::Err(e) => {
                return Result::Err(e);
            },
        };
        let s = Key::from_encoded(start_key);
        let e = Key::from_encoded(end_key);
        match self.engine.raw_del_range_cf(cf, &s, &e) {
            Result::Ok(()) => {
                proof {
                    assert(self.engine.raw_store_spec(cf) == crate::store::store_range_del_spec(
                        old(self).engine.raw_store_spec(cf),
                        s@,
                        e@,
                    ));
                }
                Result::Ok(())
            },
            Result::Err(err) => Result::Err(err),
        }
    }

    /// Deletes a batch of raw keys, all of them or none.
    pub fn raw_batch_delete(&mut self, ctx: Context, cf: String, keys: Vec<Vec<u8>>) -> (r: Result<
        (),
        Error,
    >)
        requires
            old(self).wf(),
        ensures
            final(self).wf(),
            final(self).max_key_size == old(self).max_key_size,
            final(self).enable_async_commit == old(self).enable_async_commit,
            r is Err ==> *final(self) == *old(self),
            match rawkv_cf_spec(cf@) {
                Option::None => r matches Result::Err(e) && e@ == ErrorV::InvalidCf(cf@),
                Option::Some(c) => {
                    if exists|i: int|
                        0 <= i < keys@.len() && (#[trigger] keys@[i])@.len() > old(
                            self,
                        ).max_key_size {
                        r matches Result::Err(e) && (e@ matches ErrorV::KeyTooLarge { .. })
                    } else if !old(self).engine.has_cf_spec(c) {
                        r matches Result::Err(e) && (e@ matches ErrorV::EngineRequest(_))
                    } else {
                        r is Ok && final(self).engine.raw_store_spec(c) == raw_dels_fold(
                            old(self).engine.raw_store_spec(c),
                            crate::kv::bytes_list_view(keys@),
                        ) && crate::engine::raw_only_changed(
                            old(self).engine,
                            final(self).engine,
                            c,
                        ) && final(self).sched == old(self).sched
                            && final(self).concurrency_manager == old(self).concurrency_manager
                    }
                },
            },
    {
        let _ = ctx;
        let cfn = match rawkv_cf(&cf) {
            Result::Ok(c) => c,
            Result::Err(e) => {
                return Result::Err(e);
            },
        };
        let mut i: usize = 0;
        let n = keys.len();
        while i < n
            invariant
                0 <= i <= n,
                n == keys@.len(),
                *self == *old(self),
                self.wf(),
                self.max_key_size == old(self).max_key_size,
                rawkv_cf_spec(cf@) == Option::Some(cfn),
                forall|x: int| 0 <= x < i ==> (#[trigger] keys@[x])@.len() <= old(self).max_key_size,
            decreases n - i,
        {
            if keys[i].len() > self.max_key_size {
                proof {
                    assert(keys@[i as int]@.len() > old(self).max_key_size);
                }
                return Result::Err(Error::KeyTooLarge {
                    size: keys[i].len(),
                    limit: self.max_key_size,
                });
            }
            i = i + 1;
        }
        if !self.engine.has_cf(cfn) {
            return Result::Err(Error::EngineRequest(crate::engine::cf_name_string(cfn)));
        }
        let ghost kv = crate::kv::bytes_list_view(keys@);
        let ghost target = raw_dels_fold(old(self).engine.raw_store_spec(cfn), kv);
        proof {
            assert(kv.skip(0) =~= kv);
        }
        let mut j: usize = 0;
        while j < n
            invariant
                0 <= j <= n,
                n == keys@.len(),
                self.wf(),
                self.engine.has_cf_spec(cfn),
                cfn != CfName::Raft,
                rawkv_cf_spec(cf@) == Option::Some(cfn),
                forall|x: int| 0 <= x < n ==> (#[trigger] keys@[x])@.len() <= old(self).max_key_size,
                kv == crate::kv::bytes_list_view(keys@),
                target == raw_dels_fold(old(self).engine.raw_store_spec(cfn), kv),
                raw_dels_fold(self.engine.raw_store_spec(cfn), kv.skip(j as int)) == target,
                crate::engine::raw_only_changed(old(self).engine, self.engine, cfn),
                self.sched == old(self).sched,
                self.concurrency_manager == old(self).concurrency_manager,
                self.max_key_size == old(self).max_key_size,
                self.enable_async_commit == old(self).enable_async_commit,
            decreases n - j,
        {
            let k = Key::from_encoded(clone_bytes(&keys[j]));
            proof {
                assert(kv.skip(j as int)[0] == keys@[j as int]@);
                assert(kv.skip(j as int).skip(1) =~= kv.skip(j + 1));
            }
            match self.engine.raw_del_cf(cfn, &k) {
                Result::Ok(()) => {},
                Result::Err(e) => {
                    return Result::Err(e);
                },
            }
            j = j + 1;
        }
        proof {
            assert(kv.skip(n as int).len() == 0);
            assert(raw_dels_fold(self.engine.raw_store_spec(cfn), kv.skip(n as int))
                == self.engine.raw_store_spec(cfn));
        }
        Result::Ok(())
    }

    /// Reads a batch of raw keys; missing keys are left out of the answer.
    pub fn raw_batch_get(&mut self, ctx: Context, cf: String, keys: Vec<Vec<u8>>) -> (r: Result<
        Vec<Result<KvPair, Error>>,
        Error,
    >)
        requires
            old(self).wf(),
        ensures
            final(self).wf(),
            *final(self) == *old(self),
            match rawkv_cf_spec(cf@) {
                Option::None => r matches Result::Err(e) && e@ == ErrorV::InvalidCf(cf@),
                Option::Some(c) => {
                    if !old(self).engine.has_cf_spec(c) {
                        r matches Result::Err(e) && (e@ matches ErrorV::EngineRequest(_))
                    } else {
                        r matches Result::Ok(rows) && crate::mvcc::rows_view(rows@) == ok_rows(
                            raw_batch_rows(
                                old(self).engine.raw_store_spec(c),
                                crate::kv::bytes_list_view(keys@),
                            ),
                        )
                    }
                },
            },
    {
        let _ = ctx;
        let cfn = match rawkv_cf(&cf) {
            Result::Ok(c) => c,
            Result::Err(e) => {
                return Result::Err(e);
            },
        };
        if !self.engine.has_cf(cfn) {
            return Result::Err(Error::EngineRequest(crate::engine::cf_name_string(cfn)));
        }
        let ghost kv = crate::kv::bytes_list_view(keys@);
        let mut out: Vec<Result<KvPair, Error>> = Vec::new();
        let mut i: usize = 0;
        let n = keys.len();
        proof {
            assert(kv.take(0) =~= Seq::<Seq<u8>>::empty());
            assert(crate::mvcc::rows_view(out@) =~= ok_rows(
                raw_batch_rows(old(self).engine.raw_store_spec(cfn), kv.take(0)),
            ));
        }
        while i < n
            invariant
                0 <= i <= n,
                n == keys@.len(),
                *self == *old(self),
                self.wf(),
                cfn != CfName::Raft,
                self.engine.has_cf_spec(cfn),
                rawkv_cf_spec(cf@) == Option::Some(cfn),
                kv == crate::kv::bytes_list_view(keys@),
                crate::mvcc::rows_view(out@) == ok_rows(
                    raw_batch_rows(old(self).engine.raw_store_spec(cfn), kv.take(i as int)),
                ),
            decreases n - i,
        {
            let ghost before = out@;
            proof {
                assert(kv.take(i + 1) =~= kv.take(i as int).push(kv[i as int]));
                lemma_raw_batch_rows_snoc(
                    old(self).engine.raw_store_spec(cfn),
                    kv.take(i as int),
                    kv[i as int],
                );
                assert(kv[i as int] == keys@[i as int]@);
            }
            let k = Key::from_encoded(clone_bytes(&keys[i]));
            match self.engine.raw_get_cf(cfn, &k) {
                Result::Ok(Option::Some(v)) => {
                    out.push(Result::Ok((clone_bytes(&keys[i]), clone_bytes(v))));
                    proof {
                        assert(crate::mvcc::rows_view(out@) =~= crate::mvcc::rows_view(before)
                            + seq![crate::mvcc::row_view(out@.last())]);
                        assert(crate::mvcc::rows_view(out@) =~= ok_rows(
                            raw_batch_rows(
                                old(self).engine.raw_store_spec(cfn),
                                kv.take(i + 1),
                            ),
                        ));
                    }
                },
                Result::Ok(Option::None) => {
                    proof {
                        assert(crate::mvcc::rows_view(out@) + Seq::<
                            Result<(Seq<u8>, Seq<u8>), ErrorV>,
                        >::empty() =~= crate::mvcc::rows_view(out@));
                        assert(ok_rows(
                            raw_batch_rows(
                                old(self).engine.raw_store_spec(cfn),
                                kv.take(i + 1),
                            ),
                        ) =~= crate::mvcc::rows_view(out@));
                    }
                },
                Result::Err(e) => {
                    return Result::Err(e);
                },
            }
            i = i + 1;
        }
        proof {
            assert(kv.take(n as int) =~= kv);
        }
        Result::Ok(out)
    }

    /// Reads each raw request independently; per-request failures stay in
    /// their slot.
    pub fn raw_batch_get_command(&mut self, gets: Vec<RawGetRequest>) -> (r: Result<
        Vec<Result<Option<Vec<u8>>, Error>>,
        Error,
    >)
        requires
            old(self).wf(),
        ensures
            final(self).wf(),
            *final(self) == *old(self),
            match r {
                Result::Ok(results) => results@.len() == gets@.len() && forall|i: int|
                    0 <= i < gets@.len() ==> {
                        let req = #[trigger] gets@[i];
                        match rawkv_cf_spec(req.cf@) {
                            Option::None => results@[i] matches Result::Err(e) && e@
                                == ErrorV::InvalidCf(req.cf@),
                            Option::Some(c) => {
                                if !old(self).engine.has_cf_spec(c) {
                                    results@[i] matches Result::Err(e) && (e@
                                        matches ErrorV::EngineRequest(_))
                                } else {
                                    results@[i] matches Result::Ok(o) && (match o {
                                        Option::Some(v) => crate::store::store_get_spec(
                                            old(self).engine.raw_store_spec(c),
                                            req.key@,
                                            0,
                                        ) == Option::Some(v@),
                                        Option::None => crate::store::store_get_spec(
                                            old(self).engine.raw_store_spec(c),
                                            req.key@,
                                            0,
                                        ) is None,
                                    })
                                }
                            },
                        }
                    },
                Result::Err(_) => false,
            },
    {
        let mut out: Vec<Result<Option<Vec<u8>>, Error>> = Vec::new();
        let mut i: usize = 0;
        let n = gets.len();
        while i < n
            invariant
                0 <= i <= n,
                n == gets@.len(),
                *self == *old(self),
                self.wf(),
                out@.len() == i,
                forall|j: int|
                    0 <= j < i ==> {
                        let req = #[trigger] gets@[j];
                        match rawkv_cf_spec(req.cf@) {
                            Option::None => out@[j] matches Result::Err(e) && e@
                                == ErrorV::InvalidCf(req.cf@),
                            Option::Some(c) => {
                                if !old(self).engine.has_cf_spec(c) {
                                    out@[j] matches Result::Err(e) && (e@
                                        matches ErrorV::EngineRequest(_))
                                } else {
                                    out@[j] matches Result::Ok(o) && (match o {
                                        Option::Some(v) => crate::store::store_get_spec(
                                            old(self).engine.raw_store_spec(c),
                                            req.key@,
                                            0,
                                        ) == Option::Some(v@),
                                        Option::None => crate::store::store_get_spec(
                                            old(self).engine.raw_store_spec(c),
                                            req.key@,
                                            0,
                                        ) is None,
                                    })
                                }
                            },
                        }
                    },
            decreases n - i,
        {
            let req = &gets[i];
            let one: Result<Option<Vec<u8>>, Error> = match rawkv_cf(&req.cf) {
                Result::Err(e) => Result::Err(e),
                Result::Ok(cf) => {
                    let k = Key::from_encoded(clone_bytes(&req.key));
                    match self.engine.raw_get_cf(cf, &k) {
                        Result::Ok(Option::Some(v)) => Result::Ok(Option::Some(clone_bytes(v))),
                        Result::Ok(Option::None) => Result::Ok(Option::None),
                        Result::Err(e) => Result::Err(e),
                    }
                },
            };
            out.push(one);
            i = i + 1;
        }
        Result::Ok(out)
    }
}

/// The raw rows of a store that lie in the range, in store order; with
/// `key_only` the values are blanked.
pub open spec fn raw_rows(
    raw: Seq<(Seq<u8>, u64, Seq<u8>)>,
    lo: Option<Seq<u8>>,
    hi: Option<Seq<u8>>,
    key_only: bool,
) -> Seq<(Seq<u8>, Seq<u8>)>
    decreases raw.len(),
{
    if raw.len() == 0 {
        Seq::empty()
    } else {
        let rest = raw_rows(raw.skip(1), lo, hi, key_only);
        if crate::mvcc::in_range(raw[0].0, lo, hi) {
            seq![
                (raw[0].0, if key_only {
                    Seq::<u8>::empty()
                } else {
                    raw[0].2
                }),
            ] + rest
        } else {
            rest
        }
    }
}

/// The rows a raw batch read returns: for each requested key, in order, its
/// pair where the family holds it; missing keys contribute nothing.
pub open spec fn raw_batch_rows(
    store: Seq<(Seq<u8>, u64, Seq<u8>)>,
    ks: Seq<Seq<u8>>,
) -> Seq<(Seq<u8>, Seq<u8>)>
    decreases ks.len(),
{
    if ks.len() == 0 {
        Seq::empty()
    } else {
        let rest = raw_batch_rows(store, ks.skip(1));
        match crate::store::store_get_spec(store, ks[0], 0) {
            Option::Some(v) => seq![(ks[0], v)] + rest,
            Option::None => rest,
        }
    }
}

/// One more requested key appends its row, if the family holds it.
pub proof fn lemma_raw_batch_rows_snoc(
    store: Seq<(Seq<u8>, u64, Seq<u8>)>,
    ks: Seq<Seq<u8>>,
    k: Seq<u8>,
)
    ensures
        raw_batch_rows(store, ks.push(k)) == raw_batch_rows(store, ks) + (match crate::store::store_get_spec(
            store,
            k,
            0,
        ) {
            Option::Some(v) => seq![(k, v)],
            Option::None => Seq::<(Seq<u8>, Seq<u8>)>::empty(),
        }),
    decreases ks.len(),
{
    if ks.len() == 0 {
        assert(ks.push(k)[0] == k);
        assert(ks.push(k).skip(1) =~= Seq::<Seq<u8>>::empty());
        assert(raw_batch_rows(store, Seq::<Seq<u8>>::empty()) == Seq::<
            (Seq<u8>, Seq<u8>),
        >::empty());
        match crate::store::store_get_spec(store, k, 0) {
            Option::Some(v) => {
                assert(raw_batch_rows(store, ks.push(k)) =~= raw_batch_rows(store, ks) + seq![
                    (k, v),
                ]);
            },
            Option::None => {
                assert(raw_batch_rows(store, ks.push(k)) =~= raw_batch_rows(store, ks));
                assert(raw_batch_rows(store, ks) + Seq::<(Seq<u8>, Seq<u8>)>::empty()
                    =~= raw_batch_rows(store, ks));
            },
        }
    } else {
        lemma_raw_batch_rows_snoc(store, ks.skip(1), k);
        assert(ks.push(k)[0] == ks[0]);
        assert(ks.push(k).skip(1) =~= ks.skip(1).push(k));
        match crate::store::store_get_spec(store, k, 0) {
            Option::Some(v) => {
                assert(raw_batch_rows(store, ks.push(k)) =~= raw_batch_rows(store, ks) + seq![
                    (k, v),
                ]);
            },
            Option::None => {
                assert(raw_batch_rows(store, ks.push(k)) =~= raw_batch_rows(store, ks));
                assert(raw_batch_rows(store, ks) + Seq::<(Seq<u8>, Seq<u8>)>::empty()
                    =~= raw_batch_rows(store, ks));
            },
        }
    }
}

/// The family after a batch of raw writes, pair by pair in order.
pub open spec fn raw_puts_fold(
    store: Seq<(Seq<u8>, u64, Seq<u8>)>,
    ps: Seq<(Seq<u8>, Seq<u8>)>,
) -> Seq<(Seq<u8>, u64, Seq<u8>)>
    decreases ps.len(),
{
    if ps.len() == 0 {
        store
    } else {
        raw_puts_fold(crate::store::store_put_spec(store, ps[0].0, 0, ps[0].1), ps.skip(1))
    }
}

/// The family after a batch of raw deletions, key by key in order.
pub open spec fn raw_dels_fold(
    store: Seq<(Seq<u8>, u64, Seq<u8>)>,
    ks: Seq<Seq<u8>>,
) -> Seq<(Seq<u8>, u64, Seq<u8>)>
    decreases ks.len(),
{
    if ks.len() == 0 {
        store
    } else {
        raw_dels_fold(crate::store::store_del_spec(store, ks[0], 0), ks.skip(1))
    }
}

/// Raw scan rows wrapped as successful results, pair by pair.
pub open spec fn ok_rows(ps: Seq<(Seq<u8>, Seq<u8>)>) -> Seq<Result<(Seq<u8>, Seq<u8>), ErrorV>> {
    Seq::new(ps.len(), |i: int| Result::Ok(ps[i]))
}

/// Collects the raw rows of one family that lie in `[lo, hi)`.
fn collect_raw_rows(
    store: &crate::store::Store<Vec<u8>>,
    lo: Option<&Vec<u8>>,
    hi: Option<&Vec<u8>>,
    key_only: bool,
) -> (r: Vec<KvPair>)
    ensures
        crate::mvcc::pairs_view(r@) == raw_rows(
            store.view_seq(),
            match lo {
                Option::Some(l) => Option::Some(l@),
                Option::None => Option::None,
            },
            match hi {
                Option::Some(h) => Option::Some(h@),
                Option::None => Option::None,
            },
            key_only,
        ),
{
    let ghost lov: Option<Seq<u8>> = match lo {
        Option::Some(l) => Option::Some(l@),
        Option::None => Option::None,
    };
    let ghost hiv: Option<Seq<u8>> = match hi {
        Option::Some(h) => Option::Some(h@),
        Option::None => Option::None,
    };
    let slots = &store.slots;
    let len = slots.len();
    let mut out: Vec<KvPair> = Vec::new();
    let mut i: usize = 0;
    proof {
        assert(crate::store::store_view(slots@.skip(0)) =~= store.view_seq());
        assert(crate::mvcc::pairs_view(out@) + raw_rows(store.view_seq(), lov, hiv, key_only)
            =~= raw_rows(store.view_seq(), lov, hiv, key_only));
    }
    while i < len
        invariant
            0 <= i <= len,
            len == slots@.len(),
            slots == &store.slots,
            lov == (match lo {
                Option::Some(l) => Option::Some(l@),
                Option::None => Option::<Seq<u8>>::None,
            }),
            hiv == (match hi {
                Option::Some(h) => Option::Some(h@),
                Option::None => Option::<Seq<u8>>::None,
            }),
            raw_rows(store.view_seq(), lov, hiv, key_only) == crate::mvcc::pairs_view(out@)
                + raw_rows(
                crate::store::store_view(slots@.skip(i as int)),
                lov,
                hiv,
                key_only,
            ),
        decreases len - i,
    {
        let ghost tailv = crate::store::store_view(slots@.skip(i as int));
        proof {
            assert(tailv[0] == (slots@[i as int].key@, slots@[i as int].ts, slots@[i as int].val@));
            assert(tailv.skip(1) =~= crate::store::store_view(slots@.skip(i + 1)));
        }
        let ge_lo = match lo {
            Option::Some(l) => {
                proof {
                    crate::codec::lemma_lex_trichotomy(l@, slots@[i as int].key@);
                }
                !(crate::codec::lex_cmp(&slots[i].key, l) == crate::codec::KeyOrd::Less)
            },
            Option::None => true,
        };
        let lt_hi = match hi {
            Option::Some(h) => crate::codec::lex_cmp(&slots[i].key, h)
                == crate::codec::KeyOrd::Less,
            Option::None => true,
        };
        if ge_lo && lt_hi {
            let ghost before = out@;
            let value = if key_only {
                Vec::new()
            } else {
                clone_bytes(&slots[i].val)
            };
            out.push((clone_bytes(&slots[i].key), value));
            proof {
                assert(crate::mvcc::in_range(tailv[0].0, lov, hiv));
                assert(crate::mvcc::pairs_view(out@) =~= crate::mvcc::pairs_view(before) + seq![
                    (tailv[0].0, if key_only {
                        Seq::<u8>::empty()
                    } else {
                        tailv[0].2
                    }),
                ]);
                assert(raw_rows(store.view_seq(), lov, hiv, key_only) =~= crate::mvcc::pairs_view(
                    out@,
                ) + raw_rows(crate::store::store_view(slots@.skip(i + 1)), lov, hiv, key_only));
            }
        } else {
            proof {
                assert(!crate::mvcc::in_range(tailv[0].0, lov, hiv));
            }
        }
        i = i + 1;
    }
    proof {
        assert(crate::store::store_view(slots@.skip(len as int)).len() == 0);
        assert(raw_rows(crate::store::store_view(slots@.skip(len as int)), lov, hiv, key_only).len()
            == 0);
        assert(crate::mvcc::pairs_view(out@) + raw_rows(
            crate::store::store_view(slots@.skip(len as int)),
            lov,
            hiv,
            key_only,
        ) =~= crate::mvcc::pairs_view(out@));
    }
    out
}

impl<L: LockManager> Storage<L> {
    /// Scans a raw family forward from `start_key`, at most `limit` rows.
    pub fn forward_raw_scan(
        snapshot: &Snapshot,
        cf: &String,
        start_key: &Key,
        end_key: Option<Key>,
        limit: usize,
        key_only: bool,
    ) -> (r: Result<Vec<Result<KvPair, Error>>, Error>)
        ensures
            match rawkv_cf_spec(cf@) {
                Option::None => r matches Result::Err(e) && e@ == ErrorV::InvalidCf(cf@),
                Option::Some(c) => {
                    if !snapshot.has_cf_spec(c) {
                        r matches Result::Err(e) && (e@ matches ErrorV::EngineRequest(_))
                    } else {
                        r matches Result::Ok(rows) && {
                            let full = raw_rows(
                                snapshot.raw_store_spec(c),
                                Option::Some(start_key@),
                                key_opt_view(end_key),
                                key_only,
                            );
                            crate::mvcc::rows_view(rows@) == ok_rows(
                                full.take(
                                    if limit <= full.len() {
                                        limit as int
                                    } else {
                                        full.len() as int
                                    },
                                ),
                            )
                        }
                    }
                },
            },
    {
        let cf = match rawkv_cf(cf) {
            Result::Ok(c) => c,
            Result::Err(e) => {
                return Result::Err(e);
            },
        };
        if !snapshot.has_cf(cf) {
            return Result::Err(Error::EngineRequest(crate::engine::cf_name_string(cf)));
        }
        let store = match cf {
            CfName::Default => &snapshot.raw_default,
            CfName::Lock => &snapshot.raw_lock,
            _ => &snapshot.raw_write,
        };
        let hi: Option<&Vec<u8>> = match &end_key {
            Option::Some(k) => Option::Some(k.as_encoded()),
            Option::None => Option::None,
        };
        let mut rows = collect_raw_rows(store, Option::Some(start_key.as_encoded()), hi, key_only);
        let ghost full = crate::mvcc::pairs_view(rows@);
        let mut out: Vec<Result<KvPair, Error>> = Vec::new();
        proof {
            assert(crate::mvcc::rows_view(out@) =~= ok_rows(full.take(0)));
            assert(crate::mvcc::pairs_view(rows@) =~= full.skip(0));
        }
        while rows.len() > 0 && out.len() < limit
            invariant
                out@.len() <= limit,
                out@.len() + rows@.len() == full.len(),
                crate::mvcc::rows_view(out@) == ok_rows(full.take(out@.len() as int)),
                crate::mvcc::pairs_view(rows@) == full.skip(out@.len() as int),
            decreases rows@.len(),
        {
            let ghost k = out@.len() as int;
            let ghost prev = rows@;
            let ghost before = out@;
            let p = rows.remove(0);
            let ghost pv = (p.0@, p.1@);
            proof {
                assert(crate::mvcc::pairs_view(prev)[0] == full.skip(k)[0]);
                assert(full.skip(k)[0] == full[k]);
                assert(pv == full[k]);
            }
            out.push(Result::Ok(p));
            proof {
                assert(rows@ =~= prev.skip(1));
                assert forall|i: int|
                    0 <= i < rows@.len() implies crate::mvcc::pairs_view(rows@)[i] == full.skip(
                    k + 1,
                )[i] by {
                    assert(rows@[i] == prev[i + 1]);
                    assert(crate::mvcc::pairs_view(prev)[i + 1] == full.skip(k)[i + 1]);
                    assert(full.skip(k)[i + 1] == full[k + 1 + i]);
                    assert(full.skip(k + 1)[i] == full[k + 1 + i]);
                }
                assert(crate::mvcc::pairs_view(rows@) =~= full.skip(k + 1));
                assert forall|j: int|
                    0 <= j < out@.len() implies crate::mvcc::rows_view(out@)[j] == ok_rows(
                    full.take(k + 1),
                )[j] by {
                    if j < k {
                        assert(out@[j] == before[j]);
                        assert(crate::mvcc::rows_view(before)[j] == ok_rows(full.take(k))[j]);
                        assert(full.take(k)[j] == full[j]);
                        assert(full.take(k + 1)[j] == full[j]);
                    } else {
                        assert(crate::mvcc::row_view(out@[j]) == Result::<
                            (Seq<u8>, Seq<u8>),
                            ErrorV,
                        >::Ok(pv));
                        assert(full.take(k + 1)[j] == full[k]);
                    }
                }
                assert(crate::mvcc::rows_view(out@) =~= ok_rows(full.take(k + 1)));
            }
        }
        proof {
            if out@.len() < limit {
                assert(rows@.len() == 0);
                assert(full.take(out@.len() as int) =~= full);
            }
            let hv: Option<Seq<u8>> = match end_key {
                Option::Some(k) => Option::Some(k@),
                Option::None => Option::None,
            };
            assert(full == raw_rows(
                snapshot.raw_store_spec(cf),
                Option::Some(start_key@),
                hv,
                key_only,
            ));
            assert(full.take(out@.len() as int) == full.take(
                if limit <= full.len() {
                    limit as int
                } else {
                    full.len() as int
                },
            ));
        }
        Result::Ok(out)
    }

    /// Scans a raw family backward from just below `start_key`, down into
    /// `end_key`, at most `limit` rows.
    pub fn reverse_raw_scan(
        snapshot: &Snapshot,
        cf: &String,
        start_key: &Key,
        end_key: Option<Key>,
        limit: usize,
        key_only: bool,
    ) -> (r: Result<Vec<Result<KvPair, Error>>, Error>)
        ensures
            match rawkv_cf_spec(cf@) {
                Option::None => r matches Result::Err(e) && e@ == ErrorV::InvalidCf(cf@),
                Option::Some(c) => {
                    if !snapshot.has_cf_spec(c) {
                        r matches Result::Err(e) && (e@ matches ErrorV::EngineRequest(_))
                    } else {
                        r matches Result::Ok(rows) && {
                            let full = raw_rows(
                                snapshot.raw_store_spec(c),
                                key_opt_view(end_key),
                                Option::Some(start_key@),
                                key_only,
                            ).reverse();
                            crate::mvcc::rows_view(rows@) == ok_rows(
                                full.take(
                                    if limit <= full.len() {
                                        limit as int
                                    } else {
                                        full.len() as int
                                    },
                                ),
                            )
                        }
                    }
                },
            },
    {
        let cf = match rawkv_cf(cf) {
            Result::Ok(c) => c,
            Result::Err(e) => {
                return Result::Err(e);
            },
        };
        if !snapshot.has_cf(cf) {
            return Result::Err(Error::EngineRequest(crate::engine::cf_name_string(cf)));
        }
        let store = match cf {
            CfName::Default => &snapshot.raw_default,
            CfName::Lock => &snapshot.raw_lock,
            _ => &snapshot.raw_write,
        };
        let lo: Option<&Vec<u8>> = match &end_key {
            Option::Some(k) => Option::Some(k.as_encoded()),
            Option::None => Option::None,
        };
        let mut rows = collect_raw_rows(store, lo, Option::Some(start_key.as_encoded()), key_only);
        let ghost full = crate::mvcc::pairs_view(rows@).reverse();
        let mut out: Vec<Result<KvPair, Error>> = Vec::new();
        proof {
            assert(crate::mvcc::rows_view(out@) =~= ok_rows(full.take(0)));
            assert(crate::mvcc::pairs_view(rows@) =~= full.reverse().take(
                full.len() - out@.len(),
            ));
        }
        while rows.len() > 0 && out.len() < limit
            invariant
                out@.len() <= limit,
                out@.len() + rows@.len() == full.len(),
                crate::mvcc::rows_view(out@) == ok_rows(full.take(out@.len() as int)),
                crate::mvcc::pairs_view(rows@) == full.reverse().take(full.len() - out@.len()),
            decreases rows@.len(),
        {
            let ghost k = out@.len() as int;
            let ghost prev = rows@;
            let ghost before = out@;
            let last = rows.len() - 1;
            let p = rows.remove(last);
            let ghost pv = (p.0@, p.1@);
            proof {
                assert(crate::mvcc::pairs_view(prev)[last as int] == full.reverse().take(
                    full.len() - k,
                )[last as int]);
                assert(full.reverse().take(full.len() - k)[last as int] == full.reverse()[full.len()
                    - k - 1]);
                assert(full.reverse()[full.len() - k - 1] == full[k]);
                assert(pv == full[k]);
            }
            out.push(Result::Ok(p));
            proof {
                assert(rows@ =~= prev.take(last as int));
                assert forall|i: int|
                    0 <= i < rows@.len() implies crate::mvcc::pairs_view(rows@)[i]
                    == full.reverse().take(full.len() - (k + 1))[i] by {
                    assert(rows@[i] == prev[i]);
                    assert(crate::mvcc::pairs_view(prev)[i] == full.reverse().take(
                        full.len() - k,
                    )[i]);
                    assert(full.reverse().take(full.len() - k)[i] == full.reverse()[i]);
                    assert(full.reverse().take(full.len() - (k + 1))[i] == full.reverse()[i]);
                }
                assert(crate::mvcc::pairs_view(rows@) =~= full.reverse().take(
                    full.len() - (k + 1),
                ));
                assert forall|j: int|
                    0 <= j < out@.len() implies crate::mvcc::rows_view(out@)[j] == ok_rows(
                    full.take(k + 1),
                )[j] by {
                    if j < k {
                        assert(out@[j] == before[j]);
                        assert(crate::mvcc::rows_view(before)[j] == ok_rows(full.take(k))[j]);
                        assert(full.take(k)[j] == full[j]);
                        assert(full.take(k + 1)[j] == full[j]);
                    } else {
                        assert(crate::mvcc::row_view(out@[j]) == Result::<
                            (Seq<u8>, Seq<u8>),
                            ErrorV,
                        >::Ok(pv));
                        assert(full.take(k + 1)[j] == full[k]);
                    }
                }
                assert(crate::mvcc::rows_view(out@) =~= ok_rows(full.take(k + 1)));
            }
        }
        proof {
            if out@.len() < limit {
                assert(rows@.len() == 0);
                assert(full.take(out@.len() as int) =~= full);
            }
            let lv: Option<Seq<u8>> = match end_key {
                Option::Some(k) => Option::Some(k@),
                Option::None => Option::None,
            };
            assert(full == raw_rows(
                snapshot.raw_store_spec(cf),
                lv,
                Option::Some(start_key@),
                key_only,
            ).reverse());
            assert(full.take(out@.len() as int) == full.take(
                if limit <= full.len() {
                    limit as int
                } else {
                    full.len() as int
                },
            ));
        }
        Result::Ok(out)
    }

    /// Scans a raw key range, forward or backward.
    pub fn raw_scan(
        &mut self,
        ctx: Context,
        cf: String,
        start_key: Vec<u8>,
        end_key: Option<Vec<u8>>,
        limit: usize,
        key_only: bool,
        reverse_scan: bool,
    ) -> (r: Result<Vec<Result<KvPair, Error>>, Error>)
        requires
            old(self).wf(),
        ensures
            final(self).wf(),
            *final(self) == *old(self),
            match rawkv_cf_spec(cf@) {
                Option::None => r matches Result::Err(e) && e@ == ErrorV::InvalidCf(cf@),
                Option::Some(c) => {
                    if !old(self).engine.has_cf_spec(c) {
                        r matches Result::Err(e) && (e@ matches ErrorV::EngineRequest(_))
                    } else {
                        r matches Result::Ok(rows) && {
                            let full = if reverse_scan {
                                raw_rows(
                                    old(self).engine.raw_store_spec(c),
                                    match end_key {
                                        Option::Some(e) => Option::Some(e@),
                                        Option::None => Option::None,
                                    },
                                    Option::Some(start_key@),
                                    key_only,
                                ).reverse()
                            } else {
                                raw_rows(
                                    old(self).engine.raw_store_spec(c),
                                    Option::Some(start_key@),
                                    match end_key {
                                        Option::Some(e) => Option::Some(e@),
                                        Option::None => Option::None,
                                    },
                                    key_only,
                                )
                            };
                            crate::mvcc::rows_view(rows@) == ok_rows(
                                full.take(
                                    if limit <= full.len() {
                                        limit as int
                                    } else {
                                        full.len() as int
                                    },
                                ),
                            )
                        }
                    }
                },
            },
    {
        let _ = ctx;
        let snapshot = self.engine.snapshot();
        let start = Key::from_encoded(start_key);
        let end = match end_key {
            Option::Some(e) => Option::Some(Key::from_encoded(e)),
            Option::None => Option::None,
        };
        if reverse_scan {
            Self::reverse_raw_scan(&snapshot, &cf, &start, end, limit, key_only)
        } else {
            Self::forward_raw_scan(&snapshot, &cf, &start, end, limit, key_only)
        }
    }

    /// Whether a batch of ranges is properly ordered for the scan
    /// direction; an empty end means "up to the next range's start".
    pub fn check_key_ranges(ranges: &Vec<KeyRange>, reverse: bool) -> (r: bool)
        ensures
            r == key_ranges_ok(ranges_view(ranges@), reverse),
    {
        let ghost rv = ranges_view(ranges@);
        let ranges_len = ranges.len();
        let mut i: usize = 0;
        while i < ranges_len
            invariant
                0 <= i <= ranges_len,
                ranges_len == ranges@.len(),
                rv == ranges_view(ranges@),
                forall|j: int| 0 <= j < i ==> range_entry_ok(rv, j, reverse),
            decreases ranges_len - i,
        {
            let start_key = &ranges[i].start_key;
            let mut end_ref: &Vec<u8> = &ranges[i].end_key;
            if end_ref.len() == 0 && i + 1 != ranges_len {
                end_ref = &ranges[i + 1].start_key;
            }
            proof {
                assert(end_ref@ == range_end_of(rv, i as int));
            }
            if end_ref.len() != 0 {
                let c = crate::codec::lex_cmp(start_key, end_ref);
                let bad = if !reverse {
                    !(c == crate::codec::KeyOrd::Less)
                } else {
                    !(c == crate::codec::KeyOrd::Greater)
                };
                if bad {
                    proof {
                        assert(!range_entry_ok(rv, i as int, reverse));
                    }
                    return false;
                }
            }
            i = i + 1;
        }
        true
    }

    /// Scans several raw ranges in one batch; each range yields at most
    /// `each_limit` rows, and an empty end key runs to the next range's
    /// start (or, for the last range, to the end of the keyspace).
    pub fn raw_batch_scan(
        &mut self,
        ctx: Context,
        cf: String,
        ranges: Vec<KeyRange>,
        each_limit: usize,
        key_only: bool,
        reverse_scan: bool,
    ) -> (r: Result<Vec<Result<KvPair, Error>>, Error>)
        requires
            old(self).wf(),
        ensures
            final(self).wf(),
            *final(self) == *old(self),
            !key_ranges_ok(ranges_view(ranges@), reverse_scan) <==> (r matches Result::Err(e)
                && e@ == ErrorV::InvalidKeyRanges),
            key_ranges_ok(ranges_view(ranges@), reverse_scan) ==> (match rawkv_cf_spec(cf@) {
                Option::None => r matches Result::Err(e) && e@ == ErrorV::InvalidCf(cf@),
                Option::Some(c) => {
                    if !old(self).engine.has_cf_spec(c) {
                        r matches Result::Err(e) && (e@ matches ErrorV::EngineRequest(_))
                    } else {
                        r matches Result::Ok(rows) && crate::mvcc::rows_view(rows@) == ok_rows(
                            batch_scan_rows(
                                old(self).engine.raw_store_spec(c),
                                ranges_view(ranges@),
                                ranges@.len() as int,
                                each_limit as int,
                                key_only,
                                reverse_scan,
                            ),
                        ) && forall|i: int| 0 <= i < rows@.len() ==> (#[trigger] rows@[i]) is Ok
                    }
                },
            }),
    {
        let _ = ctx;
        if !Self::check_key_ranges(&ranges, reverse_scan) {
            return Result::Err(Error::InvalidKeyRanges);
        }
        let snapshot = self.engine.snapshot();
        // Resolving the family here also pins which error a bad name gives.
        match rawkv_cf(&cf) {
            Result::Ok(c) => {
                if !self.engine.has_cf(c) {
                    return Result::Err(Error::EngineRequest(crate::engine::cf_name_string(c)));
                }
            },
            Result::Err(e) => {
                return Result::Err(e);
            },
        }
        let mut out: Vec<Result<KvPair, Error>> = Vec::new();
        let mut i: usize = 0;
        let n = ranges.len();
        proof {
            assert(crate::mvcc::rows_view(out@) =~= ok_rows(
                batch_scan_rows(
                    old(self).engine.raw_store_spec(rawkv_cf_spec(cf@)->0),
                    ranges_view(ranges@),
                    0,
                    each_limit as int,
                    key_only,
                    reverse_scan,
                ),
            ));
        }
        while i < n
            invariant
                0 <= i <= n,
                n == ranges@.len(),
                *self == *old(self),
                self.wf(),
                key_ranges_ok(ranges_view(ranges@), reverse_scan),
                rawkv_cf_spec(cf@) is Some,
                self.engine.has_cf_spec(rawkv_cf_spec(cf@)->0),
                snapshot.has_cf_spec(rawkv_cf_spec(cf@)->0),
                snapshot.raw_store_spec(rawkv_cf_spec(cf@)->0) == old(self).engine.raw_store_spec(
                    rawkv_cf_spec(cf@)->0,
                ),
                forall|x: int| 0 <= x < out@.len() ==> (#[trigger] out@[x]) is Ok,
                crate::mvcc::rows_view(out@) == ok_rows(
                    batch_scan_rows(
                        old(self).engine.raw_store_spec(rawkv_cf_spec(cf@)->0),
                        ranges_view(ranges@),
                        i as int,
                        each_limit as int,
                        key_only,
                        reverse_scan,
                    ),
                ),
            decreases n - i,
        {
            let start = Key::from_encoded(clone_bytes(&ranges[i].start_key));
            let end: Option<Key> = if ranges[i].end_key.len() == 0 {
                if i + 1 == n {
                    Option::None
                } else {
                    Option::Some(Key::from_encoded(clone_bytes(&ranges[i + 1].start_key)))
                }
            } else {
                Option::Some(Key::from_encoded(clone_bytes(&ranges[i].end_key)))
            };
            let ghost endv = key_opt_view(end);
            let pairs = if reverse_scan {
                Self::reverse_raw_scan(&snapshot, &cf, &start, end, each_limit, key_only)
            } else {
                Self::forward_raw_scan(&snapshot, &cf, &start, end, each_limit, key_only)
            };
            match pairs {
                Result::Ok(mut rows) => {
                    proof {
                        let c = rawkv_cf_spec(cf@)->0;
                        let full = if reverse_scan {
                            raw_rows(
                                snapshot.raw_store_spec(c),
                                endv,
                                Option::Some(start@),
                                key_only,
                            ).reverse()
                        } else {
                            raw_rows(
                                snapshot.raw_store_spec(c),
                                Option::Some(start@),
                                endv,
                                key_only,
                            )
                        };
                        let taken = full.take(
                            if each_limit <= full.len() {
                                each_limit as int
                            } else {
                                full.len() as int
                            },
                        );
                        assert(crate::mvcc::rows_view(rows@) == ok_rows(taken));
                        let rv = crate::mvcc::rows_view(rows@);
                        assert forall|x: int| 0 <= x < rows@.len() implies (
                        #[trigger] rows@[x]) is Ok by {
                            assert(crate::mvcc::row_view(rows@[x]) == rv[x]);
                            assert(rv[x] == ok_rows(taken)[x]);
                        }
                        let rgs = ranges_view(ranges@);
                        assert(start@ == rgs[i as int].0);
                        assert(endv == batch_range_bound(rgs, i as int));
                        assert(taken == batch_range_rows(
                            snapshot.raw_store_spec(c),
                            rgs,
                            i as int,
                            each_limit as int,
                            key_only,
                            reverse_scan,
                        ));
                    }
                    let ghost out_before = out@;
                    let ghost rows_in = rows@;
                    out.append(&mut rows);
                    proof {
                        let st = old(self).engine.raw_store_spec(rawkv_cf_spec(cf@)->0);
                        let rgs = ranges_view(ranges@);
                        let part = batch_range_rows(
                            st,
                            rgs,
                            i as int,
                            each_limit as int,
                            key_only,
                            reverse_scan,
                        );
                        let head = batch_scan_rows(
                            st,
                            rgs,
                            i as int,
                            each_limit as int,
                            key_only,
                            reverse_scan,
                        );
                        assert(crate::mvcc::rows_view(out_before).len() == out_before.len());
                        assert(ok_rows(head).len() == head.len());
                        assert(out_before.len() == head.len());
                        assert(crate::mvcc::rows_view(rows_in).len() == rows_in.len());
                        assert(ok_rows(part).len() == part.len());
                        assert(crate::mvcc::rows_view(rows_in) == ok_rows(part));
                        assert(rows_in.len() == part.len());
                        assert forall|x: int|
                            0 <= x < out@.len() implies crate::mvcc::rows_view(out@)[x] == ok_rows(
                            head + part,
                        )[x] by {
                            if x < out_before.len() {
                                assert(out@[x] == out_before[x]);
                                assert(crate::mvcc::rows_view(out_before)[x] == ok_rows(head)[x]);
                                assert(ok_rows(head)[x] == Result::<
                                    (Seq<u8>, Seq<u8>),
                                    ErrorV,
                                >::Ok(head[x]));
                                assert((head + part)[x] == head[x]);
                            } else {
                                let y = x - out_before.len();
                                assert(out@[x] == rows_in[y]);
                                assert(crate::mvcc::rows_view(rows_in)[y] == ok_rows(part)[y]);
                                assert((head + part)[x] == part[y]);
                            }
                        }
                        assert(crate::mvcc::rows_view(out@) =~= ok_rows(head + part));
                        assert(batch_scan_rows(
                            st,
                            rgs,
                            i as int + 1,
                            each_limit as int,
                            key_only,
                            reverse_scan,
                        ) == head + part);
                    }
                },
                Result::Err(e) => {
                    return Result::Err(e);
                },
            }
            i = i + 1;
        }
        Result::Ok(out)
    }
}

/// Builds engines for exercising the storage: the standard families, or a
/// chosen subset.
pub struct TestEngineBuilder {
    pub cf_names: Option<Vec<String>>,
}

impl TestEngineBuilder {
    /// A builder for an engine with the standard families.
    pub fn new() -> (r: TestEngineBuilder)
        ensures
            r.cf_names is None,
    {
        TestEngineBuilder { cf_names: Option::None }
    }

    /// Restricts the engine to the named families.
    pub fn cfs(self, names: Vec<String>) -> (r: TestEngineBuilder)
        ensures
            r.cf_names == Option::Some(names),
    {
        TestEngineBuilder { cf_names: Option::Some(names) }
    }

    /// Builds the engine: the standard families when none were named,
    /// else exactly the named ones.
    pub fn build(self) -> (r: Result<Engine, Error>)
        ensures
            match r {
                Result::Ok(e) => e.wf() && (match self.cf_names {
                    Option::None => e.has_default && e.has_lock && e.has_write && e.has_raft,
                    Option::Some(names) => {
                        &&& e.has_default == (exists|i: int|
                            0 <= i < names@.len() && (#[trigger] names@[i])@ == "default"@)
                        &&& e.has_lock == (exists|i: int|
                            0 <= i < names@.len() && (#[trigger] names@[i])@ == "lock"@)
                        &&& e.has_write == (exists|i: int|
                            0 <= i < names@.len() && (#[trigger] names@[i])@ == "write"@)
                        &&& e.has_raft == (exists|i: int|
                            0 <= i < names@.len() && (#[trigger] names@[i])@ == "raft"@)
                    },
                }),
                Result::Err(_) => false,
            },
    {
        match self.cf_names {
            Option::None => Result::Ok(Engine::new()),
            Option::Some(names) => {
                let mut has_default = false;
                let mut has_lock = false;
                let mut has_write = false;
                let mut has_raft = false;
                let dflt: String = "default".to_owned();
                let lk: String = "lock".to_owned();
                let wr: String = "write".to_owned();
                let rf: String = "raft".to_owned();
                let mut i: usize = 0;
                let n = names.len();
                while i < n
                    invariant
                        0 <= i <= n,
                        n == names@.len(),
                        dflt@ == "default"@,
                        lk@ == "lock"@,
                        wr@ == "write"@,
                        rf@ == "raft"@,
                        has_default == (exists|j: int|
                            0 <= j < i && (#[trigger] names@[j])@ == "default"@),
                        has_lock == (exists|j: int|
                            0 <= j < i && (#[trigger] names@[j])@ == "lock"@),
                        has_write == (exists|j: int|
                            0 <= j < i && (#[trigger] names@[j])@ == "write"@),
                        has_raft == (exists|j: int|
                            0 <= j < i && (#[trigger] names@[j])@ == "raft"@),
                    decreases n - i,
                {
                    let eq_d = names[i] == dflt;
                    let eq_l = names[i] == lk;
                    let eq_w = names[i] == wr;
                    let eq_r = names[i] == rf;
                    if eq_d {
                        has_default = true;
                    }
                    if eq_l {
                        has_lock = true;
                    }
                    if eq_w {
                        has_write = true;
                    }
                    if eq_r {
                        has_raft = true;
                    }
                    i = i + 1;
                }
                Result::Ok(Engine::with_cfs(has_default, has_lock, has_write, has_raft))
            },
        }
    }
}

/// A builder for a storage to exercise: a default engine, async commit on,
/// and the chosen lock manager.
#[must_use]
pub struct TestStorageBuilder<L: LockManager> {
    pub engine: Engine,
    pub config: Config,
    pub pipelined_pessimistic_lock: bool,
    pub lock_mgr: L,
}

impl<L: LockManager> TestStorageBuilder<L> {
    /// A storage over a fresh engine with the standard families.
    pub fn new(lock_mgr: L) -> (r: TestStorageBuilder<L>)
        ensures
            r.engine.wf(),
            r.config.scheduler_concurrency > 0,
            r.config.enable_async_commit,
    {
        let mut config = Config::default();
        config.enable_async_commit = true;
        TestStorageBuilder {
            engine: Engine::new(),
            config,
            pipelined_pessimistic_lock: false,
            lock_mgr,
        }
    }

    /// A storage over the given engine.
    pub fn from_engine_and_lock_mgr(engine: Engine, lock_mgr: L) -> (r: TestStorageBuilder<L>)
        requires
            engine.wf(),
        ensures
            r.engine == engine,
            r.engine.wf(),
            r.config.scheduler_concurrency > 0,
            r.config.enable_async_commit,
    {
        let mut config = Config::default();
        config.enable_async_commit = true;
        TestStorageBuilder { engine, config, pipelined_pessimistic_lock: false, lock_mgr }
    }

    /// Replaces the configuration.
    pub fn config(self, config: Config) -> (r: TestStorageBuilder<L>)
        requires
            config.scheduler_concurrency > 0,
        ensures
            r.config == config,
            r.engine == self.engine,
    {
        TestStorageBuilder { config, ..self }
    }

    /// Chooses pipelined pessimistic locking.
    pub fn set_pipelined_pessimistic_lock(self, enabled: bool) -> (r: TestStorageBuilder<L>)
        ensures
            r.pipelined_pessimistic_lock == enabled,
            r.engine == self.engine,
            r.config == self.config,
    {
        TestStorageBuilder { pipelined_pessimistic_lock: enabled, ..self }
    }

    /// Builds the storage.
    pub fn build(self) -> (r: Result<Storage<L>, Error>)
        requires
            self.engine.wf(),
            self.config.scheduler_concurrency > 0,
        ensures
            match r {
                Result::Ok(s) => {
                    &&& s.wf()
                    &&& s.engine == self.engine
                    &&& s.concurrency_manager.max_read_ts == TimeStamp(1)
                    &&& s.concurrency_manager.entries@.len() == 0
                    &&& s.concurrency_manager.next_guard == 0
                    &&& s.enable_async_commit == self.config.enable_async_commit
                    &&& s.max_key_size == self.config.max_key_size
                    &&& s.sched.pending_write_threshold
                        == self.config.scheduler_pending_write_threshold
                    &&& s.sched.running_write_bytes == 0
                },
                Result::Err(_) => false,
            },
    {
        Storage::from_engine(
            self.engine,
            &self.config,
            self.lock_mgr,
            ConcurrencyManager::new(TimeStamp(1)),
            self.pipelined_pessimistic_lock,
        )
    }
}

} // verus!
