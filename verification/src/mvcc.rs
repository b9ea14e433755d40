//! MVCC visibility: how a read at a timestamp resolves a key against the
//! lock, write and default column families, and when a lock blocks it.

use vstd::prelude::*;

use crate::codec::dec_bytes;
use crate::engine::Snapshot;
use crate::errors::{Error, ErrorV};
use crate::kv::{
    clone_bytes, lock_info_of, Key, Lock, LockInfoV, LockType, LockV, TsSet, WriteType, WriteV,
};
use crate::store::{key_versions, store_get_spec, Store};
use crate::tso::TimeStamp;

verus! {

/// The raw key a stored key decodes to, or the empty key where the bytes are
/// not a valid encoding.
pub open spec fn raw_or_empty(k: Seq<u8>) -> Seq<u8> {
    match dec_bytes(k) {
        Option::Some(r) => r,
        Option::None => Seq::empty(),
    }
}

/// Whether the lock `l` blocks a read of `key` (encoded) at `ts`: it does
/// unless the lock is below no reader (a `Lock` or pessimistic lock), is
/// newer than the read, was already resolved by the reader, or the reader
/// reads at the maximum timestamp and `key` is the lock's own primary.
pub open spec fn lock_conflicts(l: LockV, key: Seq<u8>, ts: u64, bypass: Seq<u64>) -> bool {
    &&& l.lock_type != LockType::Lock
    &&& l.lock_type != LockType::Pessimistic
    &&& l.ts.0 <= ts
    &&& !bypass.contains(l.ts.0)
    &&& !(ts == u64::MAX && raw_or_empty(key) == l.primary)
}

/// Checks whether `lock` blocks a read of `key` at `ts`; a conflict carries
/// the lock's description for the client.
pub fn check_ts_conflict(lock: &Lock, key: &Key, ts: TimeStamp, bypass: &TsSet) -> (r: Result<
    (),
    Error,
>)
    ensures
        match r {
            Result::Ok(()) => !lock_conflicts(lock@, key@, ts.0, bypass@),
            Result::Err(e) => lock_conflicts(lock@, key@, ts.0, bypass@) && e@
                == ErrorV::KeyIsLocked(lock_info_of(lock@, raw_or_empty(key@))),
        },
{
    let blocked: bool;
    match lock.lock_type {
        LockType::Lock => {
            blocked = false;
        },
        LockType::Pessimistic => {
            blocked = false;
        },
        _ => {
            if lock.ts.0 > ts.0 {
                blocked = false;
            } else if bypass.contains(lock.ts) {
                blocked = false;
            } else if ts.0 == u64::MAX {
                let raw = match key.to_raw() {
                    Option::Some(raw) => raw,
                    Option::None => Vec::new(),
                };
                proof {
                    assert(raw@ == raw_or_empty(key@));
                }
                blocked = !(crate::codec::lex_cmp(&raw, &lock.primary)
                    == crate::codec::KeyOrd::Equal);
            } else {
                blocked = true;
            }
        },
    }
    if blocked {
        let raw = match key.to_raw() {
            Option::Some(raw) => raw,
            Option::None => Vec::new(),
        };
        proof {
            assert(raw@ == raw_or_empty(key@));
        }
        Result::Err(Error::KeyIsLocked(lock.into_lock_info(raw)))
    } else {
        Result::Ok(())
    }
}

/// What a read resolves to before values are fetched: the newest version at
/// or below `ts`, skipping `Lock` and `Rollback` markers.
pub open spec fn visible_version(vs: Seq<(u64, WriteV)>, ts: u64) -> Option<(u64, WriteV)>
    decreases vs.len(),
{
    if vs.len() == 0 {
        Option::None
    } else if vs[0].0 > ts {
        visible_version(vs.skip(1), ts)
    } else {
        match vs[0].1.write_type {
            WriteType::Put => Option::Some(vs[0]),
            WriteType::Delete => Option::Some(vs[0]),
            _ => visible_version(vs.skip(1), ts),
        }
    }
}

/// The outcome of resolving one key at one timestamp.
pub enum MvccRead {
    /// The key has this value.
    Value(Seq<u8>),
    /// The key has no visible value: never written, or deleted.
    NotFound,
    /// A committed record points at a value the default family lost.
    Dangling,
}

/// How a read at `ts` resolves key `k` against the write and default
/// families: the newest version at or below `ts` decides; a `Delete` hides
/// the key, a `Put` yields its inline value or the staged value written at
/// the transaction's start timestamp.
pub open spec fn mvcc_read_spec(
    writes: Seq<(Seq<u8>, u64, WriteV)>,
    data: Seq<(Seq<u8>, u64, Seq<u8>)>,
    k: Seq<u8>,
    ts: u64,
) -> MvccRead {
    match visible_version(key_versions(writes, k), ts) {
        Option::None => MvccRead::NotFound,
        Option::Some((cts, w)) => {
            if w.write_type == WriteType::Delete {
                MvccRead::NotFound
            } else {
                match w.short_value {
                    Option::Some(v) => MvccRead::Value(v),
                    Option::None => match store_get_spec(data, k, w.start_ts.0) {
                        Option::Some(v) => MvccRead::Value(v),
                        Option::None => MvccRead::Dangling,
                    },
                }
            }
        },
    }
}

/// Loads the value visible at `ts` for `key`, ignoring locks.
pub fn load_visible(snap: &Snapshot, key: &Key, ts: TimeStamp) -> (r: Result<Option<Vec<u8>>, Error>)
    ensures
        match r {
            Result::Ok(o) => snap.has_write && (match o {
                Option::Some(v) => mvcc_read_spec(
                    snap.write.view_seq(),
                    snap.data.view_seq(),
                    key@,
                    ts.0,
                ) == MvccRead::Value(v@),
                Option::None => mvcc_read_spec(
                    snap.write.view_seq(),
                    snap.data.view_seq(),
                    key@,
                    ts.0,
                ) == MvccRead::NotFound,
            }),
            Result::Err(e) => match e@ {
                ErrorV::EngineRequest(_) => !snap.has_write || !snap.has_default,
                ErrorV::DefaultNotFound { key: ek } => ek == raw_or_empty(key@) && mvcc_read_spec(
                    snap.write.view_seq(),
                    snap.data.view_seq(),
                    key@,
                    ts.0,
                ) == MvccRead::Dangling,
                _ => false,
            },
        },
{
    if !snap.has_write {
        return Result::Err(Error::EngineRequest(crate::engine::cf_name_string(
            crate::engine::CfName::Write,
        )));
    }
    let slots = &snap.write.slots;
    let mut i: usize = 0;
    let len = slots.len();
    let ghost full = key_versions(snap.write.view_seq(), key@);
    proof {
        assert(crate::store::store_view(slots@.skip(0)) =~= snap.write.view_seq());
    }
    while i < len
        invariant
            0 <= i <= len,
            len == slots@.len(),
            snap.has_write,
            visible_version(key_versions(snap.write.view_seq(), key@), ts.0) == visible_version(
                key_versions(crate::store::store_view(slots@.skip(i as int)), key@),
                ts.0,
            ),
        decreases len - i,
    {
        let ghost tailv = crate::store::store_view(slots@.skip(i as int));
        proof {
            assert(tailv[0] == (slots@[i as int].key@, slots@[i as int].ts, slots@[i as int].val@));
            assert(tailv.skip(1) =~= crate::store::store_view(slots@.skip(i + 1)));
        }
        if crate::codec::lex_cmp(&slots[i].key, key.as_encoded()) == crate::codec::KeyOrd::Equal {
            proof {
                assert(key_versions(tailv, key@) == seq![(tailv[0].1, tailv[0].2)] + key_versions(
                    tailv.skip(1),
                    key@,
                ));
                assert(key_versions(tailv, key@).skip(1) =~= key_versions(tailv.skip(1), key@));
            }
            if slots[i].ts <= ts.0 {
                let is_put = matches!(slots[i].val.write_type, WriteType::Put);
                let is_del = matches!(slots[i].val.write_type, WriteType::Delete);
                if is_del {
                    proof {
                        assert(visible_version(key_versions(tailv, key@), ts.0) == Option::Some(
                            (tailv[0].1, tailv[0].2),
                        ));
                    }
                    return Result::Ok(Option::None);
                }
                if is_put {
                    proof {
                        assert(visible_version(key_versions(tailv, key@), ts.0) == Option::Some(
                            (tailv[0].1, tailv[0].2),
                        ));
                    }
                    match &slots[i].val.short_value {
                        Option::Some(v) => {
                            return Result::Ok(Option::Some(clone_bytes(v)));
                        },
                        Option::None => {
                            let start_ts = slots[i].val.start_ts;
                            match snap.load_data(key, start_ts) {
                                Result::Err(e) => {
                                    return Result::Err(e);
                                },
                                Result::Ok(Option::Some(v)) => {
                                    return Result::Ok(Option::Some(clone_bytes(v)));
                                },
                                Result::Ok(Option::None) => {
                                    let raw = match key.to_raw() {
                                        Option::Some(raw) => raw,
                                        Option::None => Vec::new(),
                                    };
                                    proof {
                                        assert(raw@ == raw_or_empty(key@));
                                    }
                                    return Result::Err(Error::DefaultNotFound { key: raw });
                                },
                            }
                        },
                    }
                }
            }
        } else {
            proof {
                assert(key_versions(tailv, key@) == key_versions(tailv.skip(1), key@));
            }
        }
        i = i + 1;
    }
    proof {
        assert(crate::store::store_view(slots@.skip(len as int)).len() == 0);
    }
    Result::Ok(Option::None)
}

/// The outcome of resolving one key at one timestamp, locks included.
pub enum PointRead {
    /// A lock blocks the read.
    Locked(LockInfoV),
    /// The key has this value.
    Value(Seq<u8>),
    /// The key has no visible value.
    NotFound,
    /// A committed record points at a value the default family lost.
    Dangling,
}

/// How a read of `k` at `ts` resolves against a snapshot: under snapshot
/// isolation a conflicting lock blocks it; otherwise the newest committed
/// version at or below `ts` decides.
pub open spec fn point_read_spec(
    snap: Snapshot,
    k: Seq<u8>,
    ts: u64,
    bypass: Seq<u64>,
    iso: crate::kv::IsolationLevel,
) -> PointRead {
    let lock = store_get_spec(snap.lock.view_seq(), k, 0);
    if iso == crate::kv::IsolationLevel::Si && lock is Some && lock_conflicts(
        lock->0,
        k,
        ts,
        bypass,
    ) {
        PointRead::Locked(lock_info_of(lock->0, raw_or_empty(k)))
    } else {
        match mvcc_read_spec(snap.write.view_seq(), snap.data.view_seq(), k, ts) {
            MvccRead::Value(v) => PointRead::Value(v),
            MvccRead::NotFound => PointRead::NotFound,
            MvccRead::Dangling => PointRead::Dangling,
        }
    }
}

/// Whether an executable read result means what the point-read
/// specification says, allowing an engine refusal only where a family the
/// read needs is missing.
pub open spec fn matches_point_read(
    r: Result<Option<Vec<u8>>, Error>,
    snap: Snapshot,
    k: Seq<u8>,
    ts: u64,
    bypass: Seq<u64>,
    iso: crate::kv::IsolationLevel,
) -> bool {
    match r {
        Result::Ok(o) => {
            &&& (match o {
                Option::Some(v) => point_read_spec(snap, k, ts, bypass, iso) == PointRead::Value(
                    v@,
                ),
                Option::None => point_read_spec(snap, k, ts, bypass, iso) == PointRead::NotFound,
            })
            &&& snap.has_write
        },
        Result::Err(e) => match e@ {
            ErrorV::KeyIsLocked(info) => point_read_spec(snap, k, ts, bypass, iso)
                == PointRead::Locked(info),
            ErrorV::DefaultNotFound { key: ek } => ek == raw_or_empty(k) && point_read_spec(
                snap,
                k,
                ts,
                bypass,
                iso,
            ) == PointRead::Dangling,
            ErrorV::EngineRequest(_) => !snap.has_write || !snap.has_default || (iso
                == crate::kv::IsolationLevel::Si && !snap.has_lock),
            _ => false,
        },
    }
}

/// The distinct keys of a store, in store order (keys ascending): of each
/// run of versions of one key, the one key.
pub open spec fn keys_of_store<V>(v: Seq<(Seq<u8>, u64, V)>) -> Seq<Seq<u8>>
    decreases v.len(),
{
    if v.len() == 0 {
        Seq::empty()
    } else if v.len() > 1 && v[1].0 == v[0].0 {
        keys_of_store(v.skip(1))
    } else {
        seq![v[0].0] + keys_of_store(v.skip(1))
    }
}

/// The merge of two ascending key lists, duplicates collapsed.
pub open spec fn merge_keys_spec(a: Seq<Seq<u8>>, b: Seq<Seq<u8>>) -> Seq<Seq<u8>>
    decreases a.len() + b.len(),
{
    if a.len() == 0 {
        b
    } else if b.len() == 0 {
        a
    } else if a[0] == b[0] {
        seq![a[0]] + merge_keys_spec(a.skip(1), b.skip(1))
    } else if crate::codec::lex_lt(a[0], b[0]) {
        seq![a[0]] + merge_keys_spec(a.skip(1), b)
    } else {
        seq![b[0]] + merge_keys_spec(a, b.skip(1))
    }
}

/// Whether `k` lies in the scanned range.
pub open spec fn in_range(k: Seq<u8>, lo: Option<Seq<u8>>, hi: Option<Seq<u8>>) -> bool {
    &&& (match lo {
        Option::Some(l) => crate::codec::lex_le(l, k),
        Option::None => true,
    })
    &&& (match hi {
        Option::Some(h) => crate::codec::lex_lt(k, h),
        Option::None => true,
    })
}

/// The keys of the list that lie in the range.
pub open spec fn range_filter(ks: Seq<Seq<u8>>, lo: Option<Seq<u8>>, hi: Option<Seq<u8>>) -> Seq<
    Seq<u8>,
>
    decreases ks.len(),
{
    if ks.len() == 0 {
        ks
    } else if in_range(ks[0], lo, hi) {
        seq![ks[0]] + range_filter(ks.skip(1), lo, hi)
    } else {
        range_filter(ks.skip(1), lo, hi)
    }
}

/// The candidate keys of a scan over a snapshot: every key that holds a
/// lock or any committed version and lies in the range, ascending.
pub open spec fn scan_candidates(snap: Snapshot, lo: Option<Seq<u8>>, hi: Option<Seq<u8>>) -> Seq<
    Seq<u8>,
> {
    range_filter(
        merge_keys_spec(
            keys_of_store(snap.lock.view_seq()),
            keys_of_store(snap.write.view_seq()),
        ),
        lo,
        hi,
    )
}

/// The row one candidate key contributes to a scan: a lock error, a pair,
/// nothing for an invisible key.
pub open spec fn row_of(
    snap: Snapshot,
    k: Seq<u8>,
    ts: u64,
    bypass: Seq<u64>,
    iso: crate::kv::IsolationLevel,
    key_only: bool,
) -> Seq<Result<(Seq<u8>, Seq<u8>), ErrorV>> {
    match point_read_spec(snap, k, ts, bypass, iso) {
        PointRead::Locked(info) => seq![Result::Err(ErrorV::KeyIsLocked(info))],
        PointRead::Value(v) => match dec_bytes(k) {
            Option::Some(raw) => seq![
                Result::Ok((raw, if key_only { Seq::<u8>::empty() } else { v })),
            ],
            Option::None => seq![Result::Err(ErrorV::BadFormatKey)],
        },
        PointRead::NotFound => Seq::empty(),
        PointRead::Dangling => seq![Result::Err(ErrorV::DefaultNotFound { key: raw_or_empty(k) })],
    }
}

/// The rows a scan over the given candidate keys produces, in their order.
pub open spec fn scan_rows_spec(
    snap: Snapshot,
    keys: Seq<Seq<u8>>,
    ts: u64,
    bypass: Seq<u64>,
    iso: crate::kv::IsolationLevel,
    key_only: bool,
) -> Seq<Result<(Seq<u8>, Seq<u8>), ErrorV>>
    decreases keys.len(),
{
    if keys.len() == 0 {
        Seq::empty()
    } else {
        row_of(snap, keys[0], ts, bypass, iso, key_only) + scan_rows_spec(
            snap,
            keys.skip(1),
            ts,
            bypass,
            iso,
            key_only,
        )
    }
}

/// Adding one more candidate key appends its row.
pub proof fn lemma_scan_rows_snoc(
    snap: Snapshot,
    keys: Seq<Seq<u8>>,
    k: Seq<u8>,
    ts: u64,
    bypass: Seq<u64>,
    iso: crate::kv::IsolationLevel,
    key_only: bool,
)
    ensures
        scan_rows_spec(snap, keys.push(k), ts, bypass, iso, key_only) == scan_rows_spec(
            snap,
            keys,
            ts,
            bypass,
            iso,
            key_only,
        ) + row_of(snap, k, ts, bypass, iso, key_only),
    decreases keys.len(),
{
    if keys.len() == 0 {
        assert(keys.push(k)[0] == k);
        let e = keys.push(k).skip(1);
        assert(e =~= Seq::<Seq<u8>>::empty());
        assert(scan_rows_spec(snap, e, ts, bypass, iso, key_only) == Seq::<
            Result<(Seq<u8>, Seq<u8>), ErrorV>,
        >::empty());
        assert(scan_rows_spec(snap, keys.push(k), ts, bypass, iso, key_only) == row_of(
            snap,
            k,
            ts,
            bypass,
            iso,
            key_only,
        ) + scan_rows_spec(snap, e, ts, bypass, iso, key_only));
        assert(row_of(snap, k, ts, bypass, iso, key_only) + Seq::<
            Result<(Seq<u8>, Seq<u8>), ErrorV>,
        >::empty() =~= row_of(snap, k, ts, bypass, iso, key_only));
        assert(scan_rows_spec(snap, keys, ts, bypass, iso, key_only) + row_of(
            snap,
            k,
            ts,
            bypass,
            iso,
            key_only,
        ) =~= row_of(snap, k, ts, bypass, iso, key_only));
    } else {
        lemma_scan_rows_snoc(snap, keys.skip(1), k, ts, bypass, iso, key_only);
        assert(keys.push(k)[0] == keys[0]);
        assert(keys.push(k).skip(1) =~= keys.skip(1).push(k));
        assert(scan_rows_spec(snap, keys.push(k), ts, bypass, iso, key_only) =~= scan_rows_spec(
            snap,
            keys,
            ts,
            bypass,
            iso,
            key_only,
        ) + row_of(snap, k, ts, bypass, iso, key_only));
    }
}

/// The rows whose position, counted from `c`, is a multiple of `step`.
pub open spec fn sample_from<A>(rows: Seq<A>, step: int, c: int) -> Seq<A>
    decreases rows.len(),
{
    if rows.len() == 0 {
        rows
    } else if c % step == 0 {
        seq![rows[0]] + sample_from(rows.skip(1), step, c + 1)
    } else {
        sample_from(rows.skip(1), step, c + 1)
    }
}

/// Two snapshots with the same family contents resolve every scan the same
/// way: the rows depend on the stored values alone.
pub proof fn lemma_scan_rows_congruent(
    a: Snapshot,
    b: Snapshot,
    keys: Seq<Seq<u8>>,
    ts: u64,
    bypass: Seq<u64>,
    iso: crate::kv::IsolationLevel,
    key_only: bool,
)
    requires
        a.lock.view_seq() == b.lock.view_seq(),
        a.write.view_seq() == b.write.view_seq(),
        a.data.view_seq() == b.data.view_seq(),
    ensures
        scan_rows_spec(a, keys, ts, bypass, iso, key_only) == scan_rows_spec(
            b,
            keys,
            ts,
            bypass,
            iso,
            key_only,
        ),
    decreases keys.len(),
{
    if keys.len() > 0 {
        lemma_scan_rows_congruent(a, b, keys.skip(1), ts, bypass, iso, key_only);
        assert(point_read_spec(a, keys[0], ts, bypass, iso) == point_read_spec(
            b,
            keys[0],
            ts,
            bypass,
            iso,
        ));
        assert(row_of(a, keys[0], ts, bypass, iso, key_only) == row_of(
            b,
            keys[0],
            ts,
            bypass,
            iso,
            key_only,
        ));
    }
}

/// Two snapshots with the same family contents have the same scan
/// candidates.
pub proof fn lemma_scan_candidates_congruent(
    a: Snapshot,
    b: Snapshot,
    lo: Option<Seq<u8>>,
    hi: Option<Seq<u8>>,
)
    requires
        a.lock.view_seq() == b.lock.view_seq(),
        a.write.view_seq() == b.write.view_seq(),
    ensures
        scan_candidates(a, lo, hi) == scan_candidates(b, lo, hi),
{
}

/// Every `step`-th row, starting with the first; `step` zero or one keeps
/// every row.
pub open spec fn sample_rows<A>(rows: Seq<A>, step: int) -> Seq<A> {
    if step <= 1 {
        rows
    } else {
        sample_from(rows, step, 0)
    }
}

/// Appending a row to the input appends it to the sample exactly when its
/// position is a multiple of the step.
pub proof fn lemma_sample_snoc<A>(rows: Seq<A>, r: A, step: int, c: int)
    requires
        step >= 2,
    ensures
        sample_from(rows.push(r), step, c) == sample_from(rows, step, c) + (if (c + rows.len())
            % step == 0 {
            seq![r]
        } else {
            Seq::<A>::empty()
        }),
    decreases rows.len(),
{
    if rows.len() == 0 {
        assert(rows.push(r)[0] == r);
        assert(rows.push(r).skip(1) =~= Seq::<A>::empty());
        assert(sample_from(Seq::<A>::empty(), step, c + 1) == Seq::<A>::empty());
        if c % step == 0 {
            assert(sample_from(rows.push(r), step, c) == seq![r] + Seq::<A>::empty());
            assert(seq![r] + Seq::<A>::empty() =~= seq![r]);
            assert(sample_from(rows, step, c) + seq![r] =~= seq![r]);
        } else {
            assert(sample_from(rows.push(r), step, c) == Seq::<A>::empty());
            assert(sample_from(rows, step, c) + Seq::<A>::empty() =~= Seq::<A>::empty());
        }
    } else {
        lemma_sample_snoc(rows.skip(1), r, step, c + 1);
        assert(rows.push(r)[0] == rows[0]);
        assert(rows.push(r).skip(1) =~= rows.skip(1).push(r));
        if c % step == 0 {
            assert(sample_from(rows.push(r), step, c) =~= sample_from(rows, step, c) + (if (c
                + rows.len()) % step == 0 {
                seq![r]
            } else {
                Seq::<A>::empty()
            }));
        } else {
            assert(sample_from(rows.push(r), step, c) =~= sample_from(rows, step, c) + (if (c
                + rows.len()) % step == 0 {
                seq![r]
            } else {
                Seq::<A>::empty()
            }));
        }
    }
}

/// The view of an executable scan row.
pub open spec fn row_view(r: Result<crate::kv::KvPair, Error>) -> Result<
    (Seq<u8>, Seq<u8>),
    ErrorV,
> {
    match r {
        Result::Ok((k, v)) => Result::Ok((k@, v@)),
        Result::Err(e) => Result::Err(e@),
    }
}

/// The view of a list of key-value pairs, pair by pair.
pub open spec fn pairs_view(ps: Seq<crate::kv::KvPair>) -> Seq<(Seq<u8>, Seq<u8>)> {
    Seq::new(ps.len(), |i: int| (ps[i].0@, ps[i].1@))
}

/// The view of an executable scan result, row by row.
pub open spec fn rows_view(rs: Seq<Result<crate::kv::KvPair, Error>>) -> Seq<
    Result<(Seq<u8>, Seq<u8>), ErrorV>,
> {
    Seq::new(rs.len(), |i: int| row_view(rs[i]))
}

/// The distinct keys of a store, ascending.
fn store_keys<T: crate::store::StoreVal>(s: &Store<T>) -> (r: Vec<Vec<u8>>)
    ensures
        crate::kv::bytes_list_view(r@) == keys_of_store(s.view_seq()),
{
    let mut out: Vec<Vec<u8>> = Vec::new();
    let mut i: usize = 0;
    let len = s.slots.len();
    proof {
        assert(crate::store::store_view(s.slots@.skip(0)) =~= s.view_seq());
        assert(crate::kv::bytes_list_view(out@) + keys_of_store(s.view_seq()) =~= keys_of_store(
            s.view_seq(),
        ));
    }
    while i < len
        invariant
            0 <= i <= len,
            len == s.slots@.len(),
            keys_of_store(s.view_seq()) == crate::kv::bytes_list_view(out@) + keys_of_store(
                crate::store::store_view(s.slots@.skip(i as int)),
            ),
        decreases len - i,
    {
        let ghost tailv = crate::store::store_view(s.slots@.skip(i as int));
        proof {
            assert(tailv[0] == (s.slots@[i as int].key@, s.slots@[i as int].ts,
            s.slots@[i as int].val@));
            assert(tailv.skip(1) =~= crate::store::store_view(s.slots@.skip(i + 1)));
            if i + 1 < len {
                assert(tailv[1] == (s.slots@[i + 1].key@, s.slots@[i + 1].ts, s.slots@[i
                    + 1].val@));
            }
        }
        let run_continues = if i + 1 < len {
            crate::codec::lex_cmp(&s.slots[i + 1].key, &s.slots[i].key) == crate::codec::KeyOrd::Equal
        } else {
            false
        };
        if !run_continues {
            let ghost before = out@;
            out.push(crate::kv::clone_bytes(&s.slots[i].key));
            proof {
                assert(crate::kv::bytes_list_view(out@) =~= crate::kv::bytes_list_view(before)
                    + seq![tailv[0].0]);
                assert(keys_of_store(tailv) == seq![tailv[0].0] + keys_of_store(tailv.skip(1)));
            }
        } else {
            proof {
                assert(keys_of_store(tailv) == keys_of_store(tailv.skip(1)));
            }
        }
        i = i + 1;
    }
    proof {
        assert(crate::store::store_view(s.slots@.skip(len as int)).len() == 0);
        assert(keys_of_store(crate::store::store_view(s.slots@.skip(len as int))).len() == 0);
        assert(crate::kv::bytes_list_view(out@) + keys_of_store(
            crate::store::store_view(s.slots@.skip(len as int)),
        ) =~= crate::kv::bytes_list_view(out@));
    }
    out
}

/// Merges two ascending key lists, collapsing duplicates.
fn merge_keys(a: &Vec<Vec<u8>>, b: &Vec<Vec<u8>>) -> (r: Vec<Vec<u8>>)
    ensures
        crate::kv::bytes_list_view(r@) == merge_keys_spec(
            crate::kv::bytes_list_view(a@),
            crate::kv::bytes_list_view(b@),
        ),
{
    let ghost av = crate::kv::bytes_list_view(a@);
    let ghost bv = crate::kv::bytes_list_view(b@);
    let ghost total = merge_keys_spec(av, bv);
    let mut out: Vec<Vec<u8>> = Vec::new();
    let mut i: usize = 0;
    let mut j: usize = 0;
    proof {
        assert(av.skip(0) =~= av);
        assert(bv.skip(0) =~= bv);
        assert(crate::kv::bytes_list_view(out@) + merge_keys_spec(av.skip(0), bv.skip(0))
            =~= total);
    }
    while i < a.len() || j < b.len()
        invariant
            0 <= i <= a@.len(),
            0 <= j <= b@.len(),
            av == crate::kv::bytes_list_view(a@),
            bv == crate::kv::bytes_list_view(b@),
            total == crate::kv::bytes_list_view(out@) + merge_keys_spec(
                av.skip(i as int),
                bv.skip(j as int),
            ),
        decreases a@.len() - i + b@.len() - j,
    {
        let ghost before = out@;
        let ghost at = av.skip(i as int);
        let ghost bt = bv.skip(j as int);
        proof {
            if i < a@.len() {
                assert(at[0] == a@[i as int]@);
                assert(at.skip(1) =~= av.skip(i + 1));
            }
            if j < b@.len() {
                assert(bt[0] == b@[j as int]@);
                assert(bt.skip(1) =~= bv.skip(j + 1));
            }
        }
        if i >= a.len() {
            out.push(crate::kv::clone_bytes(&b[j]));
            proof {
                assert(at.len() == 0);
                assert(merge_keys_spec(at, bt) == bt);
                assert(bt =~= seq![bt[0]] + bt.skip(1));
                assert(crate::kv::bytes_list_view(out@) =~= crate::kv::bytes_list_view(before)
                    + seq![bt[0]]);
                assert(total =~= crate::kv::bytes_list_view(out@) + merge_keys_spec(
                    av.skip(i as int),
                    bv.skip(j + 1),
                )) by {
                    assert(merge_keys_spec(av.skip(i as int), bv.skip(j + 1)) == bt.skip(1));
                }
            }
            j = j + 1;
        } else if j >= b.len() {
            out.push(crate::kv::clone_bytes(&a[i]));
            proof {
                assert(bt.len() == 0);
                assert(merge_keys_spec(at, bt) == at);
                assert(at =~= seq![at[0]] + at.skip(1));
                assert(crate::kv::bytes_list_view(out@) =~= crate::kv::bytes_list_view(before)
                    + seq![at[0]]);
                assert(total =~= crate::kv::bytes_list_view(out@) + merge_keys_spec(
                    av.skip(i + 1),
                    bv.skip(j as int),
                )) by {
                    assert(merge_keys_spec(av.skip(i + 1), bv.skip(j as int)) == at.skip(1));
                }
            }
            i = i + 1;
        } else {
            match crate::codec::lex_cmp(&a[i], &b[j]) {
                crate::codec::KeyOrd::Equal => {
                    out.push(crate::kv::clone_bytes(&a[i]));
                    proof {
                        assert(crate::kv::bytes_list_view(out@) =~= crate::kv::bytes_list_view(
                            before,
                        ) + seq![at[0]]);
                        assert(total =~= crate::kv::bytes_list_view(out@) + merge_keys_spec(
                            av.skip(i + 1),
                            bv.skip(j + 1),
                        ));
                    }
                    i = i + 1;
                    j = j + 1;
                },
                crate::codec::KeyOrd::Less => {
                    out.push(crate::kv::clone_bytes(&a[i]));
                    proof {
                        assert(crate::kv::bytes_list_view(out@) =~= crate::kv::bytes_list_view(
                            before,
                        ) + seq![at[0]]);
                        assert(total =~= crate::kv::bytes_list_view(out@) + merge_keys_spec(
                            av.skip(i + 1),
                            bv.skip(j as int),
                        ));
                    }
                    i = i + 1;
                },
                crate::codec::KeyOrd::Greater => {
                    out.push(crate::kv::clone_bytes(&b[j]));
                    proof {
                        assert(crate::codec::lex_lt(bt[0], at[0]));
                        assert(!(at[0] == bt[0]) && !crate::codec::lex_lt(at[0], bt[0])) by {
                            crate::codec::lemma_lex_trichotomy(at[0], bt[0]);
                        }
                        assert(crate::kv::bytes_list_view(out@) =~= crate::kv::bytes_list_view(
                            before,
                        ) + seq![bt[0]]);
                        assert(total =~= crate::kv::bytes_list_view(out@) + merge_keys_spec(
                            av.skip(i as int),
                            bv.skip(j + 1),
                        ));
                    }
                    j = j + 1;
                },
            }
        }
    }
    proof {
        assert(av.skip(a@.len() as int).len() == 0);
        assert(bv.skip(b@.len() as int).len() == 0);
        assert(merge_keys_spec(av.skip(i as int), bv.skip(j as int)).len() == 0);
        assert(total =~= crate::kv::bytes_list_view(out@));
    }
    out
}

/// Keeps the keys that lie in `[lo, hi)`; an absent bound is no bound.
fn filter_range(ks: Vec<Vec<u8>>, lo: Option<&Vec<u8>>, hi: Option<&Vec<u8>>) -> (r: Vec<Vec<u8>>)
    ensures
        crate::kv::bytes_list_view(r@) == range_filter(
            crate::kv::bytes_list_view(ks@),
            match lo {
                Option::Some(l) => Option::Some(l@),
                Option::None => Option::None,
            },
            match hi {
                Option::Some(h) => Option::Some(h@),
                Option::None => Option::None,
            },
        ),
{
    let ghost kv = crate::kv::bytes_list_view(ks@);
    let ghost lov: Option<Seq<u8>> = match lo {
        Option::Some(l) => Option::Some(l@),
        Option::None => Option::None,
    };
    let ghost hiv: Option<Seq<u8>> = match hi {
        Option::Some(h) => Option::Some(h@),
        Option::None => Option::None,
    };
    let ghost total = range_filter(kv, lov, hiv);
    let mut out: Vec<Vec<u8>> = Vec::new();
    let mut i: usize = 0;
    let len = ks.len();
    proof {
        assert(kv.skip(0) =~= kv);
        assert(crate::kv::bytes_list_view(out@) + range_filter(kv.skip(0), lov, hiv) =~= total);
    }
    while i < len
        invariant
            0 <= i <= len,
            len == ks@.len(),
            kv == crate::kv::bytes_list_view(ks@),
            lov == (match lo {
                Option::Some(l) => Option::Some(l@),
                Option::None => Option::<Seq<u8>>::None,
            }),
            hiv == (match hi {
                Option::Some(h) => Option::Some(h@),
                Option::None => Option::<Seq<u8>>::None,
            }),
            total == crate::kv::bytes_list_view(out@) + range_filter(kv.skip(i as int), lov, hiv),
        decreases len - i,
    {
        let ghost before = out@;
        let ghost tail = kv.skip(i as int);
        proof {
            assert(tail[0] == ks@[i as int]@);
            assert(tail.skip(1) =~= kv.skip(i + 1));
        }
        let ge_lo = match lo {
            Option::Some(l) => {
                proof {
                    crate::codec::lemma_lex_trichotomy(l@, ks@[i as int]@);
                }
                !(crate::codec::lex_cmp(&ks[i], l) == crate::codec::KeyOrd::Less)
            },
            Option::None => true,
        };
        let lt_hi = match hi {
            Option::Some(h) => crate::codec::lex_cmp(&ks[i], h) == crate::codec::KeyOrd::Less,
            Option::None => true,
        };
        if ge_lo && lt_hi {
            out.push(crate::kv::clone_bytes(&ks[i]));
            proof {
                assert(in_range(tail[0], lov, hiv));
                assert(crate::kv::bytes_list_view(out@) =~= crate::kv::bytes_list_view(before)
                    + seq![tail[0]]);
                assert(total =~= crate::kv::bytes_list_view(out@) + range_filter(
                    kv.skip(i + 1),
                    lov,
                    hiv,
                ));
            }
        } else {
            proof {
                assert(!in_range(tail[0], lov, hiv));
                assert(total =~= crate::kv::bytes_list_view(out@) + range_filter(
                    kv.skip(i + 1),
                    lov,
                    hiv,
                ));
            }
        }
        i = i + 1;
    }
    proof {
        assert(kv.skip(len as int).len() == 0);
        assert(total =~= crate::kv::bytes_list_view(out@));
    }
    out
}

/// Resolves `key` at `ts` against a snapshot: the newest write committed
/// at or below `ts`, unless a conflicting lock blocks the read under
/// snapshot isolation.
pub fn point_get(
    snap: &Snapshot,
    key: &Key,
    ts: TimeStamp,
    bypass: &TsSet,
    iso: crate::kv::IsolationLevel,
) -> (r: Result<Option<Vec<u8>>, Error>)
    ensures
        matches_point_read(r, *snap, key@, ts.0, bypass@, iso),
{
    if matches!(iso, crate::kv::IsolationLevel::Si) {
        match snap.load_lock(key) {
            Result::Err(e) => {
                return Result::Err(e);
            },
            Result::Ok(Option::Some(l)) => {
                match check_ts_conflict(l, key, ts, bypass) {
                    Result::Err(e) => {
                        return Result::Err(e);
                    },
                    Result::Ok(()) => {},
                }
            },
            Result::Ok(Option::None) => {},
        }
    }
    load_visible(snap, key, ts)
}

/// A read-only, MVCC-aware view over one snapshot at a fixed timestamp.
pub struct SnapshotStore {
    pub snapshot: Snapshot,
    pub start_ts: TimeStamp,
    pub isolation_level: crate::kv::IsolationLevel,
    pub fill_cache: bool,
    pub bypass_locks: TsSet,
    pub check_has_newer_ts_data: bool,
}

impl SnapshotStore {
    /// Builds the view.
    pub fn new(
        snapshot: Snapshot,
        start_ts: TimeStamp,
        isolation_level: crate::kv::IsolationLevel,
        fill_cache: bool,
        bypass_locks: TsSet,
        check_has_newer_ts_data: bool,
    ) -> (r: SnapshotStore)
        ensures
            r.snapshot == snapshot,
            r.start_ts == start_ts,
            r.isolation_level == isolation_level,
            r.bypass_locks@ == bypass_locks@,
    {
        SnapshotStore {
            snapshot,
            start_ts,
            isolation_level,
            fill_cache,
            bypass_locks,
            check_has_newer_ts_data,
        }
    }

    /// Resolves `key` at this store's timestamp: the newest write committed
    /// at or below it, unless a conflicting lock blocks the read.
    pub fn get(&self, key: &Key) -> (r: Result<Option<Vec<u8>>, Error>)
        ensures
            matches_point_read(
                r,
                self.snapshot,
                key@,
                self.start_ts.0,
                self.bypass_locks@,
                self.isolation_level,
            ),
    {
        point_get(&self.snapshot, key, self.start_ts, &self.bypass_locks, self.isolation_level)
    }

    /// Turns the store into a cursor over `[lower, upper)`; descending
    /// cursors walk the same range from its upper end.
    pub fn scanner(
        self,
        desc: bool,
        key_only: bool,
        check_has_newer_ts_data: bool,
        lower: Option<Key>,
        upper: Option<Key>,
    ) -> (r: Scanner)
        ensures
            r.store == self,
            r.desc == desc,
            r.key_only == key_only,
            r.lower_view() == (match lower {
                Option::Some(k) => Option::Some(k@),
                Option::None => Option::<Seq<u8>>::None,
            }),
            r.upper_view() == (match upper {
                Option::Some(k) => Option::Some(k@),
                Option::None => Option::<Seq<u8>>::None,
            }),
    {
        Scanner { store: self, desc, key_only, check_has_newer_ts_data, lower, upper }
    }

    /// Resolves each key independently, in the order given.
    pub fn batch_get(&self, keys: &Vec<Key>) -> (r: Vec<Result<Option<Vec<u8>>, Error>>)
        ensures
            r@.len() == keys@.len(),
            forall|i: int|
                0 <= i < keys@.len() ==> matches_point_read(
                    #[trigger] r@[i],
                    self.snapshot,
                    keys@[i]@,
                    self.start_ts.0,
                    self.bypass_locks@,
                    self.isolation_level,
                ),
    {
        let mut out: Vec<Result<Option<Vec<u8>>, Error>> = Vec::new();
        let mut i: usize = 0;
        while i < keys.len()
            invariant
                0 <= i <= keys@.len(),
                out@.len() == i,
                forall|j: int|
                    0 <= j < i ==> matches_point_read(
                        #[trigger] out@[j],
                        self.snapshot,
                        keys@[j]@,
                        self.start_ts.0,
                        self.bypass_locks@,
                        self.isolation_level,
                    ),
            decreases keys@.len() - i,
        {
            out.push(self.get(&keys[i]));
            i = i + 1;
        }
        out
    }
}

/// What one candidate key contributed to a scan.
pub enum RowOutcome {
    /// A row: a pair, or a per-key failure the caller keeps in place.
    Row(Result<crate::kv::KvPair, Error>),
    /// Nothing visible; the key is left out.
    Skip,
}

/// Resolves one candidate key of a scan.
pub fn resolve_point(
    snap: &Snapshot,
    k_enc: &Vec<u8>,
    ts: TimeStamp,
    bypass: &TsSet,
    iso: crate::kv::IsolationLevel,
    key_only: bool,
) -> (r: RowOutcome)
    requires
        snap.has_lock,
        snap.has_write,
        snap.has_default,
    ensures
        match r {
            RowOutcome::Row(row) => row_of(*snap, k_enc@, ts.0, bypass@, iso, key_only) == seq![
                row_view(row),
            ],
            RowOutcome::Skip => row_of(*snap, k_enc@, ts.0, bypass@, iso, key_only).len() == 0,
        },
{
    let key = Key::from_encoded(clone_bytes(k_enc));
    if matches!(iso, crate::kv::IsolationLevel::Si) {
        match snap.lock.get(k_enc, 0) {
            Option::Some(l) => {
                match check_ts_conflict(l, &key, ts, bypass) {
                    Result::Err(e) => {
                        proof {
                            assert(row_of(*snap, k_enc@, ts.0, bypass@, iso, key_only) =~= seq![
                                row_view(Result::Err(e)),
                            ]);
                        }
                        return RowOutcome::Row(Result::Err(e));
                    },
                    Result::Ok(()) => {},
                }
            },
            Option::None => {},
        }
    }
    match load_visible(snap, &key, ts) {
        Result::Ok(Option::Some(v)) => {
            match key.to_raw() {
                Option::Some(raw) => {
                    let value = if key_only {
                        Vec::new()
                    } else {
                        v
                    };
                    let row = Result::Ok((raw, value));
                    proof {
                        assert(row_of(*snap, k_enc@, ts.0, bypass@, iso, key_only) =~= seq![
                            row_view(row),
                        ]);
                    }
                    RowOutcome::Row(row)
                },
                Option::None => {
                    proof {
                        assert(row_of(*snap, k_enc@, ts.0, bypass@, iso, key_only) =~= seq![
                            row_view(Result::Err(Error::BadFormatKey)),
                        ]);
                    }
                    RowOutcome::Row(Result::Err(Error::BadFormatKey))
                },
            }
        },
        Result::Ok(Option::None) => RowOutcome::Skip,
        Result::Err(e) => {
            let dangling = matches!(&e, Error::DefaultNotFound { .. });
            if dangling {
                proof {
                    assert(row_of(*snap, k_enc@, ts.0, bypass@, iso, key_only) =~= seq![
                        row_view(Result::Err(e)),
                    ]);
                }
                RowOutcome::Row(Result::Err(e))
            } else {
                proof {
                    assert(false);
                }
                RowOutcome::Skip
            }
        },
    }
}

/// A cursor over the visible versions of a key range at one timestamp.
pub struct Scanner {
    pub store: SnapshotStore,
    pub desc: bool,
    pub key_only: bool,
    pub check_has_newer_ts_data: bool,
    pub lower: Option<Key>,
    pub upper: Option<Key>,
}

impl Scanner {
    /// The lower bound, as bytes.
    pub open spec fn lower_view(&self) -> Option<Seq<u8>> {
        match self.lower {
            Option::Some(k) => Option::Some(k@),
            Option::None => Option::None,
        }
    }

    /// The upper bound, as bytes.
    pub open spec fn upper_view(&self) -> Option<Seq<u8>> {
        match self.upper {
            Option::Some(k) => Option::Some(k@),
            Option::None => Option::None,
        }
    }

    /// The rows this scan must produce: the candidate keys of the range in
    /// walk order, each resolved at the store's timestamp, every
    /// `sample_step`-th row kept, cut at `limit` rows (zero: no cut).
    pub open spec fn scan_spec(&self, limit: int, sample_step: int) -> Seq<
        Result<(Seq<u8>, Seq<u8>), ErrorV>,
    > {
        let cand0 = scan_candidates(self.store.snapshot, self.lower_view(), self.upper_view());
        let cand = if self.desc {
            cand0.reverse()
        } else {
            cand0
        };
        let rows = scan_rows_spec(
            self.store.snapshot,
            cand,
            self.store.start_ts.0,
            self.store.bypass_locks@,
            self.store.isolation_level,
            self.key_only,
        );
        let sampled = sample_rows(rows, sample_step);
        if limit == 0 || sampled.len() <= limit {
            sampled
        } else {
            sampled.take(limit)
        }
    }

    /// Walks the range and resolves every key it meets.
    #[verifier::rlimit(100)]
    pub fn scan(&self, limit: usize, sample_step: usize) -> (r: Result<
        Vec<Result<crate::kv::KvPair, Error>>,
        Error,
    >)
        ensures
            match r {
                Result::Ok(rows) => {
                    &&& self.store.snapshot.has_lock
                    &&& self.store.snapshot.has_write
                    &&& self.store.snapshot.has_default
                    &&& rows_view(rows@) == self.scan_spec(limit as int, sample_step as int)
                },
                Result::Err(e) => (!self.store.snapshot.has_lock || !self.store.snapshot.has_write
                    || !self.store.snapshot.has_default) && e@ matches ErrorV::EngineRequest(_),
            },
    {
        let snap = &self.store.snapshot;
        if !snap.has_lock {
            return Result::Err(Error::EngineRequest(crate::engine::cf_name_string(
                crate::engine::CfName::Lock,
            )));
        }
        if !snap.has_write {
            return Result::Err(Error::EngineRequest(crate::engine::cf_name_string(
                crate::engine::CfName::Write,
            )));
        }
        if !snap.has_default {
            return Result::Err(Error::EngineRequest(crate::engine::cf_name_string(
                crate::engine::CfName::Default,
            )));
        }
        let lock_keys = store_keys(&snap.lock);
        let write_keys = store_keys(&snap.write);
        let merged = merge_keys(&lock_keys, &write_keys);
        let lo: Option<&Vec<u8>> = match &self.lower {
            Option::Some(k) => Option::Some(k.as_encoded()),
            Option::None => Option::None,
        };
        let hi: Option<&Vec<u8>> = match &self.upper {
            Option::Some(k) => Option::Some(k.as_encoded()),
            Option::None => Option::None,
        };
        let cand = filter_range(merged, lo, hi);
        let ghost cand_order: Seq<Seq<u8>> = if self.desc {
            crate::kv::bytes_list_view(cand@).reverse()
        } else {
            crate::kv::bytes_list_view(cand@)
        };
        proof {
            assert(crate::kv::bytes_list_view(cand@) == scan_candidates(
                self.store.snapshot,
                self.lower_view(),
                self.upper_view(),
            ));
        }
        let n = cand.len();
        let mut out: Vec<Result<crate::kv::KvPair, Error>> = Vec::new();
        let mut t: usize = 0;
        let ghost ts0 = self.store.start_ts.0;
        let ghost bp = self.store.bypass_locks@;
        let ghost iso = self.store.isolation_level;
        let mut count: usize = 0;
        proof {
            assert(cand_order.take(0) =~= Seq::<Seq<u8>>::empty());
            assert(rows_view(out@) =~= sample_rows(
                scan_rows_spec(*snap, cand_order.take(0), ts0, bp, iso, self.key_only),
                sample_step as int,
            ));
        }
        while t < n
            invariant
                0 <= t <= n,
                n == cand@.len(),
                snap == &self.store.snapshot,
                snap.has_lock && snap.has_write && snap.has_default,
                ts0 == self.store.start_ts.0,
                bp == self.store.bypass_locks@,
                iso == self.store.isolation_level,
                cand_order == (if self.desc {
                    crate::kv::bytes_list_view(cand@).reverse()
                } else {
                    crate::kv::bytes_list_view(cand@)
                }),
                cand_order.len() == n,
                count <= t,
                count == scan_rows_spec(*snap, cand_order.take(t as int), ts0, bp, iso,
                self.key_only).len(),
                rows_view(out@) == sample_rows(
                    scan_rows_spec(*snap, cand_order.take(t as int), ts0, bp, iso, self.key_only),
                    sample_step as int,
                ),
            decreases n - t,
        {
            let idx = if self.desc {
                n - 1 - t
            } else {
                t
            };
            proof {
                if self.desc {
                    assert(cand_order[t as int] == crate::kv::bytes_list_view(cand@)[n - 1 - t]);
                    assert(cand_order[t as int] == cand@[idx as int]@);
                } else {
                    assert(cand_order[t as int] == cand@[idx as int]@);
                }
                assert(cand_order.take(t + 1) =~= cand_order.take(t as int).push(
                    cand_order[t as int],
                ));
            }
            let ghost prows = scan_rows_spec(
                *snap,
                cand_order.take(t as int),
                ts0,
                bp,
                iso,
                self.key_only,
            );
            proof {
                lemma_scan_rows_snoc(
                    *snap,
                    cand_order.take(t as int),
                    cand_order[t as int],
                    ts0,
                    bp,
                    iso,
                    self.key_only,
                );
            }
            match resolve_point(
                snap,
                &cand[idx],
                self.store.start_ts,
                &self.store.bypass_locks,
                self.store.isolation_level,
                self.key_only,
            ) {
                RowOutcome::Skip => {
                    proof {
                        assert(scan_rows_spec(
                            *snap,
                            cand_order.take(t + 1),
                            ts0,
                            bp,
                            iso,
                            self.key_only,
                        ) =~= prows);
                    }
                },
                RowOutcome::Row(row) => {
                    let ghost nrows = prows.push(row_view(row));
                    proof {
                        assert(scan_rows_spec(
                            *snap,
                            cand_order.take(t + 1),
                            ts0,
                            bp,
                            iso,
                            self.key_only,
                        ) =~= nrows);
                        if sample_step > 1 {
                            lemma_sample_snoc(prows, row_view(row), sample_step as int, 0);
                        }
                    }
                    if sample_step <= 1 || count % sample_step == 0 {
                        let ghost before = out@;
                        out.push(row);
                        proof {
                            assert(rows_view(out@) =~= rows_view(before) + seq![row_view(row)]);
                            assert(rows_view(out@) =~= sample_rows(nrows, sample_step as int));
                        }
                    } else {
                        proof {
                            assert(rows_view(out@) + Seq::<
                                Result<(Seq<u8>, Seq<u8>), ErrorV>,
                            >::empty() =~= rows_view(out@));
                            assert(rows_view(out@) =~= sample_rows(nrows, sample_step as int));
                        }
                    }
                    count = count + 1;
                },
            }
            t = t + 1;
        }
        proof {
            assert(cand_order.take(n as int) =~= cand_order);
        }
        if limit > 0 && out.len() > limit {
            out.truncate(limit);
            proof {
                assert(rows_view(out@) =~= self.scan_spec(limit as int, sample_step as int));
            }
        } else {
            proof {
                assert(rows_view(out@) =~= self.scan_spec(limit as int, sample_step as int));
            }
        }
        Result::Ok(out)
    }
}

} // verus!
