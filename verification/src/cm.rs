//! The concurrency manager: the process-wide watermark of the highest
//! timestamp any read has observed, and the in-memory table of keys an
//! in-flight write currently guards.  A reader that meets a guarded key with
//! a conflicting in-memory lock fails before it ever reaches the persisted
//! lock family — the fast path that keeps async-commit writes visible.

use vstd::prelude::*;

use crate::errors::{Error, ErrorV};
use crate::kv::{lock_info_of, Key, Lock, LockV, TsSet};
use crate::mvcc::{lock_conflicts, raw_or_empty};
use crate::tso::TimeStamp;

verus! {

/// One guarded key: while the entry exists the key has in-memory residency,
/// and it may carry a transient lock for readers to check.
pub struct CmEntry {
    pub key: Vec<u8>,
    pub lock: Option<Lock>,
    pub guard: u64,
}

/// The in-memory lock an entry carries, viewed mathematically.
pub open spec fn entry_lock_view(e: CmEntry) -> Option<LockV> {
    match e.lock {
        Option::Some(l) => Option::Some(l@),
        Option::None => Option::None,
    }
}

/// The in-memory lock guarding key `k`, if any entry carries one.
pub open spec fn mem_lock_of(s: Seq<CmEntry>, k: Seq<u8>) -> Option<LockV>
    decreases s.len(),
{
    if s.len() == 0 {
        Option::None
    } else if s[0].key@ == k && s[0].lock is Some {
        Option::Some(s[0].lock->0@)
    } else {
        mem_lock_of(s.skip(1), k)
    }
}

/// Whether the in-memory lock on `k`, if any, blocks a read at `ts`.
pub open spec fn mem_conflicts(s: Seq<CmEntry>, k: Seq<u8>, ts: u64, bypass: Seq<u64>) -> bool {
    mem_lock_of(s, k) is Some && lock_conflicts(mem_lock_of(s, k)->0, k, ts, bypass)
}

/// Whether some guard entry exists for key `k`.
pub open spec fn guarded(s: Seq<CmEntry>, k: Seq<u8>) -> bool {
    exists|i: int| 0 <= i < s.len() && (#[trigger] s[i]).key@ == k
}

/// Every element the filter keeps was an element of the sequence.
proof fn lemma_filter_elements_present<A>(s: Seq<A>, pred: spec_fn(A) -> bool)
    ensures
        forall|i: int|
            0 <= i < s.filter(pred).len() ==> exists|m: int|
                0 <= m < s.len() && s[m] == #[trigger] s.filter(pred)[i],
    decreases s.len(),
{
    reveal(Seq::filter);
    if s.len() > 0 {
        lemma_filter_elements_present(s.drop_last(), pred);
        assert forall|i: int| 0 <= i < s.filter(pred).len() implies exists|m: int|
            0 <= m < s.len() && s[m] == #[trigger] s.filter(pred)[i] by {
            let sub = s.drop_last().filter(pred);
            if i < sub.len() {
                assert(s.filter(pred)[i] == sub[i]);
                let m0 = choose|m: int|
                    0 <= m < s.drop_last().len() && s.drop_last()[m] == sub[i];
                assert(s[m0] == s.filter(pred)[i]);
            } else {
                assert(s.filter(pred)[i] == s.last());
                assert(s[s.len() - 1] == s.filter(pred)[i]);
            }
        }
    }
}

/// The process-wide watermark and in-memory lock table.
pub struct ConcurrencyManager {
    pub max_read_ts: TimeStamp,
    pub entries: Vec<CmEntry>,
    pub next_guard: u64,
}

impl ConcurrencyManager {
    /// Builds the manager with an initial watermark.
    pub fn new(latest_ts: TimeStamp) -> (r: ConcurrencyManager)
        ensures
            r.max_read_ts == latest_ts,
            r.entries@.len() == 0,
            r.next_guard == 0,
    {
        ConcurrencyManager { max_read_ts: latest_ts, entries: Vec::new(), next_guard: 0 }
    }

    /// Advances the watermark; it never moves backwards.
    pub fn update_max_read_ts(&mut self, ts: TimeStamp)
        ensures
            final(self).max_read_ts.0 == (if ts.0 > old(self).max_read_ts.0 {
                ts.0
            } else {
                old(self).max_read_ts.0
            }),
            final(self).entries == old(self).entries,
            final(self).next_guard == old(self).next_guard,
    {
        if ts.0 > self.max_read_ts.0 {
            self.max_read_ts = ts;
        }
    }

    /// The current watermark.
    pub fn max_read_ts(&self) -> (r: TimeStamp)
        ensures
            r == self.max_read_ts,
    {
        self.max_read_ts
    }

    /// Takes exclusive in-memory residency for `key`.  `None` means the key
    /// is already guarded by another in-flight writer (which, in the
    /// concurrent system, is a wait).
    pub fn lock_key(&mut self, key: &Key) -> (r: Option<u64>)
        ensures
            match r {
                Option::Some(g) => {
                    &&& !guarded(old(self).entries@, key@)
                    &&& final(self).entries@.len() == old(self).entries@.len() + 1
                    &&& final(self).entries@.last().key@ == key@
                    &&& final(self).entries@.last().lock is None
                    &&& final(self).entries@.last().guard == g
                    &&& final(self).entries@.take(old(self).entries@.len() as int) == old(
                        self,
                    ).entries@
                    &&& final(self).max_read_ts == old(self).max_read_ts
                },
                Option::None => *final(self) == *old(self) && (guarded(old(self).entries@, key@)
                    || old(self).next_guard == u64::MAX),
            },
    {
        if self.next_guard == u64::MAX {
            return Option::None;
        }
        let mut i: usize = 0;
        let len = self.entries.len();
        while i < len
            invariant
                0 <= i <= len,
                len == self.entries@.len(),
                forall|j: int| 0 <= j < i ==> (#[trigger] self.entries@[j]).key@ != key@,
            decreases len - i,
        {
            if crate::codec::lex_cmp(&self.entries[i].key, key.as_encoded())
                == crate::codec::KeyOrd::Equal {
                return Option::None;
            }
            i = i + 1;
        }
        let g = self.next_guard;
        self.next_guard = self.next_guard + 1;
        let ghost before = self.entries@;
        self.entries.push(
            CmEntry { key: crate::kv::clone_bytes(key.as_encoded()), lock: Option::None, guard: g },
        );
        proof {
            assert(self.entries@.take(before.len() as int) =~= before);
        }
        Option::Some(g)
    }

    /// Stores (or clears) the transient lock the guard carries.  Returns
    /// whether the guard was found.
    pub fn store_lock(&mut self, guard: u64, lock: Option<Lock>) -> (r: bool)
        ensures
            final(self).max_read_ts == old(self).max_read_ts,
            final(self).next_guard == old(self).next_guard,
            final(self).entries@.len() == old(self).entries@.len(),
            forall|j: int|
                0 <= j < old(self).entries@.len() && (#[trigger] old(self).entries@[j]).guard
                    != guard ==> final(self).entries@[j] == old(self).entries@[j],
            forall|j: int|
                0 <= j < old(self).entries@.len() && (#[trigger] old(self).entries@[j]).guard
                    == guard ==> (#[trigger] final(self).entries@[j]).key@ == old(
                    self,
                ).entries@[j].key@ && final(self).entries@[j].guard == guard,
            r <==> exists|j: int|
                0 <= j < old(self).entries@.len() && (#[trigger] old(self).entries@[j]).guard
                    == guard,
            r ==> exists|j: int|
                {
                    &&& 0 <= j < old(self).entries@.len()
                    &&& (#[trigger] old(self).entries@[j]).guard == guard
                    &&& (forall|k: int| 0 <= k < j ==> (#[trigger] old(self).entries@[k]).guard != guard)
                    &&& final(self).entries@[j].key@ == old(self).entries@[j].key@
                    &&& final(self).entries@[j].lock == lock
                },
            !r ==> *final(self) == *old(self),
    {
        let mut i: usize = 0;
        let len = self.entries.len();
        while i < len
            invariant
                0 <= i <= len,
                len == self.entries@.len(),
                *self == *old(self),
                forall|j: int| 0 <= j < i ==> (#[trigger] old(self).entries@[j]).guard != guard,
            decreases len - i,
        {
            if self.entries[i].guard == guard {
                let key_copy = crate::kv::clone_bytes(&self.entries[i].key);
                let ghost before = self.entries@;
                self.entries.set(i, CmEntry { key: key_copy, lock, guard });
                proof {
                    assert(forall|j: int|
                        0 <= j < before.len() && j != i ==> self.entries@[j] == before[j]);
                }
                return true;
            }
            i = i + 1;
        }
        false
    }

    /// Releases the guard: the entries it owned are removed, with any
    /// transient lock they carried; every other entry stays, in order.
    pub fn release_guard(&mut self, guard: u64)
        ensures
            final(self).max_read_ts == old(self).max_read_ts,
            final(self).next_guard == old(self).next_guard,
            final(self).entries@ == old(self).entries@.filter(|e: CmEntry| e.guard != guard),
            forall|k: Seq<u8>|
                #[trigger] guarded(final(self).entries@, k) ==> guarded(old(self).entries@, k),
    {
        let mut i: usize = 0;
        let ghost mut k: int = 0;
        proof {
            assert(old(self).entries@.take(0).filter(|e: CmEntry| e.guard != guard)
                =~= Seq::<CmEntry>::empty()) by {
                reveal_with_fuel(Seq::filter, 2);
            }
            assert(self.entries@ =~= old(self).entries@.take(0).filter(
                |e: CmEntry| e.guard != guard,
            ) + old(self).entries@.skip(0));
        }
        while i < self.entries.len()
            invariant
                0 <= k <= old(self).entries@.len(),
                i == old(self).entries@.take(k).filter(|e: CmEntry| e.guard != guard).len(),
                self.entries@ == old(self).entries@.take(k).filter(|e: CmEntry| e.guard != guard)
                    + old(self).entries@.skip(k),
                self.max_read_ts == old(self).max_read_ts,
                self.next_guard == old(self).next_guard,
            decreases old(self).entries@.len() - k,
        {
            let ghost pred = |e: CmEntry| e.guard != guard;
            let ghost whole = old(self).entries@;
            proof {
                assert(whole.skip(k).len() > 0);
                assert(k < whole.len());
                assert(self.entries@[i as int] == whole.skip(k)[0]);
                assert(whole.skip(k)[0] == whole[k]);
                assert(whole.take(k + 1) =~= whole.take(k) + seq![whole[k]]);
                Seq::filter_distributes_over_add(whole.take(k), seq![whole[k]], pred);
                assert(seq![whole[k]].filter(pred) =~= if pred(whole[k]) {
                    seq![whole[k]]
                } else {
                    Seq::<CmEntry>::empty()
                }) by {
                    reveal_with_fuel(Seq::filter, 3);
                }
            }
            if self.entries[i].guard == guard {
                let ghost before = self.entries@;
                self.entries.remove(i);
                proof {
                    assert(!pred(whole[k]));
                    assert(whole.take(k + 1).filter(pred) =~= whole.take(k).filter(pred));
                    assert(self.entries@ =~= before.remove(i as int));
                    assert(self.entries@ =~= whole.take(k + 1).filter(pred) + whole.skip(k + 1))
                        by {
                        assert(before.remove(i as int) =~= whole.take(k).filter(pred) + whole.skip(
                            k,
                        ).skip(1));
                        assert(whole.skip(k).skip(1) =~= whole.skip(k + 1));
                    }
                }
            } else {
                proof {
                    assert(pred(whole[k]));
                    assert(whole.take(k + 1).filter(pred) =~= whole.take(k).filter(pred).push(
                        whole[k],
                    ));
                    assert(self.entries@ =~= whole.take(k + 1).filter(pred) + whole.skip(k + 1))
                        by {
                        assert(whole.skip(k) =~= seq![whole[k]] + whole.skip(k + 1));
                        assert(whole.take(k).filter(pred).push(whole[k]) =~= whole.take(k).filter(
                            pred,
                        ) + seq![whole[k]]);
                    }
                }
                i = i + 1;
            }
            proof {
                k = k + 1;
            }
        }
        proof {
            let pred = |e: CmEntry| e.guard != guard;
            let whole = old(self).entries@;
            assert(whole.skip(k).len() == 0);
            assert(k == whole.len());
            assert(whole.take(k) =~= whole);
            assert(self.entries@ =~= whole.filter(pred));
            assert forall|kk: Seq<u8>| #[trigger]
                guarded(self.entries@, kk) implies guarded(whole, kk) by {
                let j = choose|j: int|
                    0 <= j < self.entries@.len() && (#[trigger] self.entries@[j]).key@ == kk;
                lemma_filter_elements_present(whole, pred);
                let m = choose|m: int|
                    0 <= m < whole.len() && whole[m] == whole.filter(pred)[j];
                assert(whole[m].key@ == kk);
            }
        }
    }

    /// Fails a read of `key` at `ts` that a conflicting in-memory lock would
    /// invalidate.
    pub fn read_key_check(&self, key: &Key, ts: TimeStamp, bypass: &TsSet) -> (r: Result<(), Error>)
        ensures
            match r {
                Result::Ok(()) => match mem_lock_of(self.entries@, key@) {
                    Option::Some(l) => !lock_conflicts(l, key@, ts.0, bypass@),
                    Option::None => true,
                },
                Result::Err(e) => {
                    &&& mem_lock_of(self.entries@, key@) is Some
                    &&& lock_conflicts(mem_lock_of(self.entries@, key@)->0, key@, ts.0, bypass@)
                    &&& e@ == ErrorV::KeyIsLocked(
                        lock_info_of(mem_lock_of(self.entries@, key@)->0, raw_or_empty(key@)),
                    )
                },
            },
    {
        let mut i: usize = 0;
        let len = self.entries.len();
        proof {
            assert(self.entries@.skip(0) =~= self.entries@);
        }
        while i < len
            invariant
                0 <= i <= len,
                len == self.entries@.len(),
                mem_lock_of(self.entries@, key@) == mem_lock_of(
                    self.entries@.skip(i as int),
                    key@,
                ),
            decreases len - i,
        {
            let ghost tail = self.entries@.skip(i as int);
            proof {
                assert(tail[0] == self.entries@[i as int]);
                assert(tail.skip(1) =~= self.entries@.skip(i + 1));
            }
            let e = &self.entries[i];
            if crate::codec::lex_cmp(&e.key, key.as_encoded()) == crate::codec::KeyOrd::Equal {
                match &e.lock {
                    Option::Some(l) => {
                        return crate::mvcc::check_ts_conflict(l, key, ts, bypass);
                    },
                    Option::None => {},
                }
            }
            i = i + 1;
        }
        proof {
            assert(self.entries@.skip(len as int).len() == 0);
        }
        Result::Ok(())
    }

    /// Fails a ranged read at `ts` that any conflicting in-memory lock in
    /// `[start, end)` would invalidate; missing bounds are unbounded.
    pub fn read_range_check(
        &self,
        start: Option<&Key>,
        end: Option<&Key>,
        ts: TimeStamp,
        bypass: &TsSet,
    ) -> (r: Result<(), Error>)
        ensures
            match r {
                Result::Ok(()) => forall|i: int|
                    0 <= i < self.entries@.len() ==> (match entry_lock_view(
                        #[trigger] self.entries@[i],
                    ) {
                        Option::Some(l) => !crate::mvcc::in_range(
                            self.entries@[i].key@,
                            match start {
                                Option::Some(k) => Option::Some(k@),
                                Option::None => Option::None,
                            },
                            match end {
                                Option::Some(k) => Option::Some(k@),
                                Option::None => Option::None,
                            },
                        ) || !lock_conflicts(l, self.entries@[i].key@, ts.0, bypass@),
                        Option::None => true,
                    }),
                Result::Err(e) => exists|i: int|
                    0 <= i < self.entries@.len() && (match entry_lock_view(
                        #[trigger] self.entries@[i],
                    ) {
                        Option::Some(l) => crate::mvcc::in_range(
                            self.entries@[i].key@,
                            match start {
                                Option::Some(k) => Option::Some(k@),
                                Option::None => Option::None,
                            },
                            match end {
                                Option::Some(k) => Option::Some(k@),
                                Option::None => Option::None,
                            },
                        ) && lock_conflicts(l, self.entries@[i].key@, ts.0, bypass@) && e@
                            == ErrorV::KeyIsLocked(
                            lock_info_of(l, raw_or_empty(self.entries@[i].key@)),
                        ),
                        Option::None => false,
                    }),
            },
    {
        let mut i: usize = 0;
        let len = self.entries.len();
        while i < len
            invariant
                0 <= i <= len,
                len == self.entries@.len(),
                forall|j: int|
                    0 <= j < i ==> (match entry_lock_view(#[trigger] self.entries@[j]) {
                        Option::Some(l) => !crate::mvcc::in_range(
                            self.entries@[j].key@,
                            match start {
                                Option::Some(k) => Option::Some(k@),
                                Option::None => Option::<Seq<u8>>::None,
                            },
                            match end {
                                Option::Some(k) => Option::Some(k@),
                                Option::None => Option::<Seq<u8>>::None,
                            },
                        ) || !lock_conflicts(l, self.entries@[j].key@, ts.0, bypass@),
                        Option::None => true,
                    }),
            decreases len - i,
        {
            let e = &self.entries[i];
            let ge_start = match start {
                Option::Some(k) => {
                    proof {
                        crate::codec::lemma_lex_trichotomy(k@, self.entries@[i as int].key@);
                    }
                    !(crate::codec::lex_cmp(&e.key, k.as_encoded()) == crate::codec::KeyOrd::Less)
                },
                Option::None => true,
            };
            let lt_end = match end {
                Option::Some(k) => crate::codec::lex_cmp(&e.key, k.as_encoded())
                    == crate::codec::KeyOrd::Less,
                Option::None => true,
            };
            if ge_start && lt_end {
                match &e.lock {
                    Option::Some(l) => {
                        let entry_key = Key::from_encoded(crate::kv::clone_bytes(&e.key));
                        match crate::mvcc::check_ts_conflict(l, &entry_key, ts, bypass) {
                            Result::Err(err) => {
                                proof {
                                    let j = i as int;
                                    assert(entry_lock_view(self.entries@[j]) == Option::Some(l@));
                                }
                                return Result::Err(err);
                            },
                            Result::Ok(()) => {},
                        }
                    },
                    Option::None => {},
                }
            }
            i = i + 1;
        }
        Result::Ok(())
    }
}

} // verus!
