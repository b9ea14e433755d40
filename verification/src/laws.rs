//! The cross-cutting guarantees of the store, stated and proved once over
//! the specification model: snapshot isolation, idempotent commit, and the
//! closure of the lock lifecycle.  Latch exclusivity lives with the latch
//! table, backpressure with the scheduler's admission contract.

use vstd::prelude::*;

use crate::engine::Engine;
use crate::kv::WriteV;
use crate::mvcc::{mvcc_read_spec, visible_version};
use crate::store::{
    key_versions, lemma_del_get, lemma_put_versions, lemma_put_versions_newest, store_del_spec,
    store_put_spec,
};
use crate::tso::TimeStamp;
use crate::txn::{commit_record_of, lock_of, no_forward_record};

verus! {

/// Snapshot isolation over one key's version history: a version committed
/// above the read timestamp never changes what the read resolves to.
pub proof fn lemma_visible_ignores_later_commit(
    vs: Seq<(u64, WriteV)>,
    cts: u64,
    w: WriteV,
    ts: u64,
)
    requires
        cts > ts,
    ensures
        visible_version(seq![(cts, w)] + vs, ts) == visible_version(vs, ts),
{
    let nvs = seq![(cts, w)] + vs;
    assert(nvs[0] == (cts, w));
    assert(nvs.skip(1) =~= vs);
}

/// Snapshot isolation over the store: committing a new version of any key
/// above the read timestamp leaves every read at that timestamp unchanged,
/// provided the new version is the key's newest — as versions handed out by
/// a monotonic timestamp oracle always are.
pub proof fn lemma_snapshot_isolation(
    writes: Seq<(Seq<u8>, u64, WriteV)>,
    data: Seq<(Seq<u8>, u64, Seq<u8>)>,
    k: Seq<u8>,
    cts: u64,
    w: WriteV,
    rk: Seq<u8>,
    ts: u64,
)
    requires
        crate::store::store_sorted(writes),
        cts > ts,
        forall|i: int|
            0 <= i < key_versions(writes, k).len() ==> (#[trigger] key_versions(writes, k)[i]).0
                < cts,
    ensures
        mvcc_read_spec(store_put_spec(writes, k, cts, w), data, rk, ts) == mvcc_read_spec(
            writes,
            data,
            rk,
            ts,
        ),
{
    if rk == k {
        lemma_put_versions_newest(writes, k, cts, w);
        lemma_visible_ignores_later_commit(key_versions(writes, k), cts, w, ts);
    } else {
        lemma_put_versions(writes, k, cts, w, rk);
    }
}

/// Idempotent commit: after a commit converted the transaction's lock into
/// a committed record, a repeated commit of the same key and timestamps
/// finds no lock but a forward record at the same commit timestamp — the
/// state in which `commit_key` succeeds again with that same timestamp.
/// The commit timestamp must be newer than every version the key had, as
/// timestamps handed out by a monotonic oracle always are.
pub proof fn lemma_commit_idempotent(
    pre: Engine,
    post: Engine,
    k: Seq<u8>,
    start_ts: TimeStamp,
    commit_ts: TimeStamp,
    rec: WriteV,
)
    requires
        pre.wf(),
        rec.start_ts == start_ts,
        rec.write_type != crate::kv::WriteType::Rollback,
        post.lock.view_seq() == store_del_spec(pre.lock.view_seq(), k, 0),
        post.write.view_seq() == store_put_spec(pre.write.view_seq(), k, commit_ts.0, rec),
        forall|i: int|
            0 <= i < key_versions(pre.write.view_seq(), k).len() ==> (#[trigger] key_versions(
                pre.write.view_seq(),
                k,
            )[i]).0 < commit_ts.0,
    ensures
        lock_of(post, k) is None,
        commit_record_of(post, k, start_ts) == Option::Some((commit_ts.0, rec)),
        !no_forward_record(post, k, start_ts),
{
    lemma_del_get(pre.lock.view_seq(), k, 0, k, 0);
    lemma_put_versions_newest(pre.write.view_seq(), k, commit_ts.0, rec);
    let vs = key_versions(pre.write.view_seq(), k);
    let nvs = seq![(commit_ts.0, rec)] + vs;
    assert(key_versions(post.write.view_seq(), k) == nvs);
    assert(nvs[0] == (commit_ts.0, rec));
    assert(crate::engine::ver_find_start(nvs, start_ts) == Option::Some((commit_ts.0, rec)));
}

/// Lock lifecycle closure: once a commit or rollback of `(k, start_ts)` has
/// removed the key's lock, no lock of that transaction remains on the key —
/// so after any one resolution claims success, the other finds nothing left
/// to hold.
pub proof fn lemma_lock_lifecycle_closure(pre: Engine, post: Engine, k: Seq<u8>)
    requires
        post.lock.view_seq() == store_del_spec(pre.lock.view_seq(), k, 0),
    ensures
        lock_of(post, k) is None,
{
    lemma_del_get(pre.lock.view_seq(), k, 0, k, 0);
}

} // verus!
