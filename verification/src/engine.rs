//! The model of the underlying engine: one ordered store per column family.
//! MVCC state lives in the lock, write and default families; raw-mode keys
//! share the family names but their own keyspace.  Writers never touch the
//! engine directly: a command mutates a private copy and the scheduler
//! installs the copy whole, which models the engine's atomic write batch.

use vstd::prelude::*;

use crate::errors::Error;
use crate::kv::{Key, Lock, Write};
use crate::store::{key_versions, store_get_spec, ver_first_le, Store};
use crate::tso::TimeStamp;

verus! {

/// A column family name.
#[derive(Clone, Copy, PartialEq, Eq, Structural, Debug)]
pub enum CfName {
    Default,
    Lock,
    Write,
    Raft,
}

/// The engine: per-family ordered stores, plus which families exist.  An
/// engine built without the standard families refuses every request that
/// touches a missing one.
pub struct Engine {
    pub has_default: bool,
    pub has_lock: bool,
    pub has_write: bool,
    pub has_raft: bool,
    pub lock: Store<Lock>,
    pub write: Store<Write>,
    pub data: Store<Vec<u8>>,
    pub raw_default: Store<Vec<u8>>,
    pub raw_lock: Store<Vec<u8>>,
    pub raw_write: Store<Vec<u8>>,
}

/// A consistent point-in-time view: a full copy of the engine's state, so
/// later writes cannot be observed through it.
pub type Snapshot = Engine;

impl Engine {
    /// All stores are sorted.
    pub open spec fn wf(&self) -> bool {
        &&& self.lock.wf()
        &&& self.write.wf()
        &&& self.data.wf()
        &&& self.raw_default.wf()
        &&& self.raw_lock.wf()
        &&& self.raw_write.wf()
    }

    /// Whether the named family exists.
    pub open spec fn has_cf_spec(&self, cf: CfName) -> bool {
        match cf {
            CfName::Default => self.has_default,
            CfName::Lock => self.has_lock,
            CfName::Write => self.has_write,
            CfName::Raft => self.has_raft,
        }
    }

    /// Whether the named family exists.
    pub fn has_cf(&self, cf: CfName) -> (r: bool)
        ensures
            r == self.has_cf_spec(cf),
    {
        match cf {
            CfName::Default => self.has_default,
            CfName::Lock => self.has_lock,
            CfName::Write => self.has_write,
            CfName::Raft => self.has_raft,
        }
    }

    /// The raw-mode store of the named data family.
    pub open spec fn raw_store_spec(&self, cf: CfName) -> Seq<(Seq<u8>, u64, Seq<u8>)> {
        match cf {
            CfName::Default => self.raw_default.view_seq(),
            CfName::Lock => self.raw_lock.view_seq(),
            CfName::Write => self.raw_write.view_seq(),
            CfName::Raft => Seq::empty(),
        }
    }

    /// An engine with the standard column families, all empty.
    pub fn new() -> (r: Engine)
        ensures
            r.wf(),
            r.has_default && r.has_lock && r.has_write && r.has_raft,
            r.lock.view_seq().len() == 0,
            r.write.view_seq().len() == 0,
            r.data.view_seq().len() == 0,
            r.raw_default.view_seq().len() == 0,
            r.raw_lock.view_seq().len() == 0,
            r.raw_write.view_seq().len() == 0,
    {
        Engine {
            has_default: true,
            has_lock: true,
            has_write: true,
            has_raft: true,
            lock: Store::new(),
            write: Store::new(),
            data: Store::new(),
            raw_default: Store::new(),
            raw_lock: Store::new(),
            raw_write: Store::new(),
        }
    }

    /// An engine with only the families listed present.
    pub fn with_cfs(has_default: bool, has_lock: bool, has_write: bool, has_raft: bool) -> (r:
        Engine)
        ensures
            r.wf(),
            r.has_default == has_default,
            r.has_lock == has_lock,
            r.has_write == has_write,
            r.has_raft == has_raft,
            r.lock.view_seq().len() == 0,
            r.write.view_seq().len() == 0,
            r.data.view_seq().len() == 0,
            r.raw_default.view_seq().len() == 0,
            r.raw_lock.view_seq().len() == 0,
            r.raw_write.view_seq().len() == 0,
    {
        Engine {
            has_default,
            has_lock,
            has_write,
            has_raft,
            lock: Store::new(),
            write: Store::new(),
            data: Store::new(),
            raw_default: Store::new(),
            raw_lock: Store::new(),
            raw_write: Store::new(),
        }
    }

    /// Copies the whole engine state.
    pub fn dup(&self) -> (r: Engine)
        ensures
            r.has_default == self.has_default,
            r.has_lock == self.has_lock,
            r.has_write == self.has_write,
            r.has_raft == self.has_raft,
            r.lock.view_seq() == self.lock.view_seq(),
            r.write.view_seq() == self.write.view_seq(),
            r.data.view_seq() == self.data.view_seq(),
            r.raw_default.view_seq() == self.raw_default.view_seq(),
            r.raw_lock.view_seq() == self.raw_lock.view_seq(),
            r.raw_write.view_seq() == self.raw_write.view_seq(),
            self.wf() ==> r.wf(),
    {
        Engine {
            has_default: self.has_default,
            has_lock: self.has_lock,
            has_write: self.has_write,
            has_raft: self.has_raft,
            lock: self.lock.dup(),
            write: self.write.dup(),
            data: self.data.dup(),
            raw_default: self.raw_default.dup(),
            raw_lock: self.raw_lock.dup(),
            raw_write: self.raw_write.dup(),
        }
    }

    /// Takes a consistent snapshot: a copy of the present state.
    pub fn snapshot(&self) -> (r: Snapshot)
        ensures
            r.has_default == self.has_default,
            r.has_lock == self.has_lock,
            r.has_write == self.has_write,
            r.has_raft == self.has_raft,
            r.lock.view_seq() == self.lock.view_seq(),
            r.write.view_seq() == self.write.view_seq(),
            r.data.view_seq() == self.data.view_seq(),
            r.raw_default.view_seq() == self.raw_default.view_seq(),
            r.raw_lock.view_seq() == self.raw_lock.view_seq(),
            r.raw_write.view_seq() == self.raw_write.view_seq(),
            self.wf() ==> r.wf(),
    {
        self.dup()
    }

    /// The lock on `key`, if one is persisted.
    pub fn load_lock(&self, key: &Key) -> (r: Result<Option<&Lock>, Error>)
        ensures
            match r {
                Result::Ok(o) => self.has_lock && (match o {
                    Option::Some(l) => store_get_spec(self.lock.view_seq(), key@, 0)
                        == Option::Some(l@),
                    Option::None => store_get_spec(self.lock.view_seq(), key@, 0) is None,
                }),
                Result::Err(e) => !self.has_lock && e@ matches crate::errors::ErrorV::EngineRequest(
                    _,
                ),
            },
    {
        if !self.has_lock {
            return Result::Err(Error::EngineRequest(cf_name_string(CfName::Lock)));
        }
        Result::Ok(self.lock.get(key.as_encoded(), 0))
    }

    /// Persists a lock on `key`.
    pub fn put_lock(&mut self, key: &Key, lock: Lock) -> (r: Result<(), Error>)
        ensures
            match r {
                Result::Ok(()) => old(self).has_lock && *final(self) == (Engine {
                    lock: final (self).lock,
                    ..*old(self)
                }) && final (self).lock.view_seq() == crate::store::store_put_spec(
                    old(self).lock.view_seq(),
                    key@,
                    0,
                    lock@,
                ) && (old(self).wf() ==> final (self).wf()),
                Result::Err(e) => !old(self).has_lock && *final(self) == *old(self)
                    && e@ matches crate::errors::ErrorV::EngineRequest(_),
            },
    {
        if !self.has_lock {
            return Result::Err(Error::EngineRequest(cf_name_string(CfName::Lock)));
        }
        self.lock = self.lock.put(key.as_encoded(), 0, lock);
        Result::Ok(())
    }

    /// Removes the lock on `key`.
    pub fn del_lock(&mut self, key: &Key) -> (r: Result<(), Error>)
        ensures
            match r {
                Result::Ok(()) => old(self).has_lock && *final(self) == (Engine {
                    lock: final (self).lock,
                    ..*old(self)
                }) && final (self).lock.view_seq() == crate::store::store_del_spec(
                    old(self).lock.view_seq(),
                    key@,
                    0,
                ) && (old(self).wf() ==> final (self).wf()),
                Result::Err(e) => !old(self).has_lock && *final(self) == *old(self)
                    && e@ matches crate::errors::ErrorV::EngineRequest(_),
            },
    {
        if !self.has_lock {
            return Result::Err(Error::EngineRequest(cf_name_string(CfName::Lock)));
        }
        self.lock = self.lock.del(key.as_encoded(), 0);
        Result::Ok(())
    }

    /// The newest write record of `key` committed at or below `ts`.
    pub fn seek_write(&self, key: &Key, ts: u64) -> (r: Result<Option<(u64, &Write)>, Error>)
        ensures
            match r {
                Result::Ok(o) => self.has_write && (match o {
                    Option::Some((cts, w)) => ver_first_le(
                        key_versions(self.write.view_seq(), key@),
                        ts,
                    ) == Option::Some((cts, w@)),
                    Option::None => ver_first_le(key_versions(self.write.view_seq(), key@), ts)
                        is None,
                }),
                Result::Err(e) => !self.has_write && e@
                    matches crate::errors::ErrorV::EngineRequest(_),
            },
    {
        if !self.has_write {
            return Result::Err(Error::EngineRequest(cf_name_string(CfName::Write)));
        }
        Result::Ok(self.write.seek(key.as_encoded(), ts))
    }

    /// Persists a write record for `key` at `commit_ts`.
    pub fn put_write(&mut self, key: &Key, commit_ts: TimeStamp, write: Write) -> (r: Result<
        (),
        Error,
    >)
        ensures
            match r {
                Result::Ok(()) => old(self).has_write && *final(self) == (Engine {
                    write: final (self).write,
                    ..*old(self)
                }) && final (self).write.view_seq() == crate::store::store_put_spec(
                    old(self).write.view_seq(),
                    key@,
                    commit_ts.0,
                    write@,
                ) && (old(self).wf() ==> final (self).wf()),
                Result::Err(e) => !old(self).has_write && *final(self) == *old(self)
                    && e@ matches crate::errors::ErrorV::EngineRequest(_),
            },
    {
        if !self.has_write {
            return Result::Err(Error::EngineRequest(cf_name_string(CfName::Write)));
        }
        self.write = self.write.put(key.as_encoded(), commit_ts.0, write);
        Result::Ok(())
    }

    /// The value of `key` stored at `start_ts` in the default family.
    pub fn load_data(&self, key: &Key, start_ts: TimeStamp) -> (r: Result<Option<&Vec<u8>>, Error>)
        ensures
            match r {
                Result::Ok(o) => self.has_default && (match o {
                    Option::Some(v) => store_get_spec(self.data.view_seq(), key@, start_ts.0)
                        == Option::Some(v@),
                    Option::None => store_get_spec(self.data.view_seq(), key@, start_ts.0) is None,
                }),
                Result::Err(e) => !self.has_default && e@
                    matches crate::errors::ErrorV::EngineRequest(_),
            },
    {
        if !self.has_default {
            return Result::Err(Error::EngineRequest(cf_name_string(CfName::Default)));
        }
        Result::Ok(self.data.get(key.as_encoded(), start_ts.0))
    }

    /// Stores the value of `key` written at `start_ts` in the default family.
    pub fn put_data(&mut self, key: &Key, start_ts: TimeStamp, value: Vec<u8>) -> (r: Result<
        (),
        Error,
    >)
        ensures
            match r {
                Result::Ok(()) => old(self).has_default && *final(self) == (Engine {
                    data: final (self).data,
                    ..*old(self)
                }) && final (self).data.view_seq() == crate::store::store_put_spec(
                    old(self).data.view_seq(),
                    key@,
                    start_ts.0,
                    value@,
                ) && (old(self).wf() ==> final (self).wf()),
                Result::Err(e) => !old(self).has_default && *final(self) == *old(self)
                    && e@ matches crate::errors::ErrorV::EngineRequest(_),
            },
    {
        if !self.has_default {
            return Result::Err(Error::EngineRequest(cf_name_string(CfName::Default)));
        }
        self.data = self.data.put(key.as_encoded(), start_ts.0, value);
        Result::Ok(())
    }

    /// The write record of the transaction that started at `start_ts`, with
    /// its commit timestamp: the newest record whose start matches.
    pub fn get_txn_commit_record(&self, key: &Key, start_ts: TimeStamp) -> (r: Result<
        Option<(u64, &Write)>,
        Error,
    >)
        ensures
            match r {
                Result::Ok(o) => self.has_write && (match o {
                    Option::Some((cts, w)) => ver_find_start(
                        key_versions(self.write.view_seq(), key@),
                        start_ts,
                    ) == Option::Some((cts, w@)),
                    Option::None => ver_find_start(
                        key_versions(self.write.view_seq(), key@),
                        start_ts,
                    ) is None,
                }),
                Result::Err(e) => !self.has_write && e@
                    matches crate::errors::ErrorV::EngineRequest(_),
            },
    {
        if !self.has_write {
            return Result::Err(Error::EngineRequest(cf_name_string(CfName::Write)));
        }
        let slots = &self.write.slots;
        let mut i: usize = 0;
        let len = slots.len();
        proof {
            assert(crate::store::store_view(slots@.skip(0)) =~= self.write.view_seq());
        }
        while i < len
            invariant
                0 <= i <= len,
                len == slots@.len(),
                self.has_write,
                ver_find_start(key_versions(self.write.view_seq(), key@), start_ts)
                    == ver_find_start(
                    key_versions(crate::store::store_view(slots@.skip(i as int)), key@),
                    start_ts,
                ),
            decreases len - i,
        {
            let ghost tailv = crate::store::store_view(slots@.skip(i as int));
            proof {
                assert(tailv[0] == (slots@[i as int].key@, slots@[i as int].ts,
                slots@[i as int].val@));
                assert(tailv.skip(1) =~= crate::store::store_view(slots@.skip(i + 1)));
            }
            if crate::codec::lex_cmp(&slots[i].key, key.as_encoded()) == crate::codec::KeyOrd::Equal {
                proof {
                    assert(key_versions(tailv, key@) == seq![(tailv[0].1, tailv[0].2)]
                        + key_versions(tailv.skip(1), key@));
                    assert(key_versions(tailv, key@).skip(1) =~= key_versions(
                        tailv.skip(1),
                        key@,
                    ));
                }
                if slots[i].val.start_ts.0 == start_ts.0 {
                    proof {
                        assert(key_versions(tailv, key@)[0] == (tailv[0].1, tailv[0].2));
                        assert(ver_find_start(key_versions(tailv, key@), start_ts)
                            == Option::Some((tailv[0].1, tailv[0].2)));
                        assert(ver_find_start(
                            key_versions(self.write.view_seq(), key@),
                            start_ts,
                        ) == Option::Some((slots@[i as int].ts, slots@[i as int].val@)));
                    }
                    return Result::Ok(Option::Some((slots[i].ts, &slots[i].val)));
                }
            } else {
                proof {
                    assert(key_versions(tailv, key@) == key_versions(tailv.skip(1), key@));
                }
            }
            i = i + 1;
        }
        proof {
            assert(crate::store::store_view(slots@.skip(len as int)).len() == 0);
        }
        Result::Ok(Option::None)
    }

    /// The raw-mode value of `key` in the named family.
    pub fn raw_get_cf(&self, cf: CfName, key: &Key) -> (r: Result<Option<&Vec<u8>>, Error>)
        requires
            cf != CfName::Raft,
        ensures
            match r {
                Result::Ok(o) => self.has_cf_spec(cf) && (match o {
                    Option::Some(v) => store_get_spec(self.raw_store_spec(cf), key@, 0)
                        == Option::Some(v@),
                    Option::None => store_get_spec(self.raw_store_spec(cf), key@, 0) is None,
                }),
                Result::Err(e) => !self.has_cf_spec(cf) && e@
                    matches crate::errors::ErrorV::EngineRequest(_),
            },
    {
        if !self.has_cf(cf) {
            return Result::Err(Error::EngineRequest(cf_name_string(cf)));
        }
        match cf {
            CfName::Default => Result::Ok(self.raw_default.get(key.as_encoded(), 0)),
            CfName::Lock => Result::Ok(self.raw_lock.get(key.as_encoded(), 0)),
            _ => Result::Ok(self.raw_write.get(key.as_encoded(), 0)),
        }
    }

    /// Stores a raw-mode value in the named family.
    pub fn raw_put_cf(&mut self, cf: CfName, key: &Key, value: Vec<u8>) -> (r: Result<(), Error>)
        requires
            cf != CfName::Raft,
        ensures
            match r {
                Result::Ok(()) => old(self).has_cf_spec(cf) && raw_only_changed(
                    *old(self),
                    *final(self),
                    cf,
                ) && final(self).raw_store_spec(cf) == crate::store::store_put_spec(
                    old(self).raw_store_spec(cf),
                    key@,
                    0,
                    value@,
                ) && (old(self).wf() ==> final(self).wf()),
                Result::Err(e) => !old(self).has_cf_spec(cf) && *final(self) == *old(self)
                    && e@ matches crate::errors::ErrorV::EngineRequest(_),
            },
    {
        if !self.has_cf(cf) {
            return Result::Err(Error::EngineRequest(cf_name_string(cf)));
        }
        match cf {
            CfName::Default => {
                self.raw_default = self.raw_default.put(key.as_encoded(), 0, value);
            },
            CfName::Lock => {
                self.raw_lock = self.raw_lock.put(key.as_encoded(), 0, value);
            },
            _ => {
                self.raw_write = self.raw_write.put(key.as_encoded(), 0, value);
            },
        }
        Result::Ok(())
    }

    /// Deletes a raw-mode key from the named family.
    pub fn raw_del_cf(&mut self, cf: CfName, key: &Key) -> (r: Result<(), Error>)
        requires
            cf != CfName::Raft,
        ensures
            match r {
                Result::Ok(()) => old(self).has_cf_spec(cf) && raw_only_changed(
                    *old(self),
                    *final(self),
                    cf,
                ) && final(self).raw_store_spec(cf) == crate::store::store_del_spec(
                    old(self).raw_store_spec(cf),
                    key@,
                    0,
                ) && (old(self).wf() ==> final(self).wf()),
                Result::Err(e) => !old(self).has_cf_spec(cf) && *final(self) == *old(self)
                    && e@ matches crate::errors::ErrorV::EngineRequest(_),
            },
    {
        if !self.has_cf(cf) {
            return Result::Err(Error::EngineRequest(cf_name_string(cf)));
        }
        match cf {
            CfName::Default => {
                self.raw_default = self.raw_default.del(key.as_encoded(), 0);
            },
            CfName::Lock => {
                self.raw_lock = self.raw_lock.del(key.as_encoded(), 0);
            },
            _ => {
                self.raw_write = self.raw_write.del(key.as_encoded(), 0);
            },
        }
        Result::Ok(())
    }

    /// Deletes every raw-mode key of the named family in `[start, end)`.
    pub fn raw_del_range_cf(&mut self, cf: CfName, start: &Key, end: &Key) -> (r: Result<(), Error>)
        requires
            cf != CfName::Raft,
        ensures
            match r {
                Result::Ok(()) => old(self).has_cf_spec(cf) && raw_only_changed(
                    *old(self),
                    *final(self),
                    cf,
                ) && final(self).raw_store_spec(cf) == crate::store::store_range_del_spec(
                    old(self).raw_store_spec(cf),
                    start@,
                    end@,
                ) && (old(self).wf() ==> final(self).wf()),
                Result::Err(e) => !old(self).has_cf_spec(cf) && *final(self) == *old(self)
                    && e@ matches crate::errors::ErrorV::EngineRequest(_),
            },
    {
        if !self.has_cf(cf) {
            return Result::Err(Error::EngineRequest(cf_name_string(cf)));
        }
        match cf {
            CfName::Default => {
                self.raw_default = self.raw_default.range_del(start.as_encoded(), end.as_encoded());
            },
            CfName::Lock => {
                self.raw_lock = self.raw_lock.range_del(start.as_encoded(), end.as_encoded());
            },
            _ => {
                self.raw_write = self.raw_write.range_del(start.as_encoded(), end.as_encoded());
            },
        }
        Result::Ok(())
    }

    /// Deletes `[start, end)` from every data family at once, both the MVCC
    /// and the raw keyspaces: the range is logically gone as one atomic
    /// write.
    pub fn delete_range_all_cfs(&mut self, start: &Key, end: &Key) -> (r: Result<(), Error>)
        ensures
            match r {
                Result::Ok(()) => {
                    &&& old(self).has_default && old(self).has_lock && old(self).has_write
                    &&& final(self).has_default == old(self).has_default
                    &&& final(self).has_lock == old(self).has_lock
                    &&& final(self).has_write == old(self).has_write
                    &&& final(self).has_raft == old(self).has_raft
                    &&& final(self).lock.view_seq() == crate::store::store_range_del_spec(
                        old(self).lock.view_seq(),
                        start@,
                        end@,
                    )
                    &&& final(self).write.view_seq() == crate::store::store_range_del_spec(
                        old(self).write.view_seq(),
                        start@,
                        end@,
                    )
                    &&& final(self).data.view_seq() == crate::store::store_range_del_spec(
                        old(self).data.view_seq(),
                        start@,
                        end@,
                    )
                    &&& final(self).raw_default.view_seq() == crate::store::store_range_del_spec(
                        old(self).raw_default.view_seq(),
                        start@,
                        end@,
                    )
                    &&& final(self).raw_lock.view_seq() == crate::store::store_range_del_spec(
                        old(self).raw_lock.view_seq(),
                        start@,
                        end@,
                    )
                    &&& final(self).raw_write.view_seq() == crate::store::store_range_del_spec(
                        old(self).raw_write.view_seq(),
                        start@,
                        end@,
                    )
                    &&& (old(self).wf() ==> final(self).wf())
                },
                Result::Err(e) => (!old(self).has_default || !old(self).has_lock || !old(
                    self,
                ).has_write) && *final(self) == *old(self) && e@
                    matches crate::errors::ErrorV::EngineRequest(_),
            },
    {
        if !self.has_default || !self.has_lock || !self.has_write {
            let cf = if !self.has_default {
                CfName::Default
            } else if !self.has_lock {
                CfName::Lock
            } else {
                CfName::Write
            };
            return Result::Err(Error::EngineRequest(cf_name_string(cf)));
        }
        self.lock = self.lock.range_del(start.as_encoded(), end.as_encoded());
        self.write = self.write.range_del(start.as_encoded(), end.as_encoded());
        self.data = self.data.range_del(start.as_encoded(), end.as_encoded());
        self.raw_default = self.raw_default.range_del(start.as_encoded(), end.as_encoded());
        self.raw_lock = self.raw_lock.range_del(start.as_encoded(), end.as_encoded());
        self.raw_write = self.raw_write.range_del(start.as_encoded(), end.as_encoded());
        Result::Ok(())
    }

    /// Removes the value of `key` written at `start_ts`.
    pub fn del_data(&mut self, key: &Key, start_ts: TimeStamp) -> (r: Result<(), Error>)
        ensures
            match r {
                Result::Ok(()) => old(self).has_default && *final(self) == (Engine {
                    data: final (self).data,
                    ..*old(self)
                }) && final (self).data.view_seq() == crate::store::store_del_spec(
                    old(self).data.view_seq(),
                    key@,
                    start_ts.0,
                ) && (old(self).wf() ==> final (self).wf()),
                Result::Err(e) => !old(self).has_default && *final(self) == *old(self)
                    && e@ matches crate::errors::ErrorV::EngineRequest(_),
            },
    {
        if !self.has_default {
            return Result::Err(Error::EngineRequest(cf_name_string(CfName::Default)));
        }
        self.data = self.data.del(key.as_encoded(), start_ts.0);
        Result::Ok(())
    }
}

/// Only the raw store of `cf` differs between `a` and `b`; every MVCC store
/// and every other raw store is unchanged.
pub open spec fn raw_only_changed(a: Engine, b: Engine, cf: CfName) -> bool {
    &&& b.has_default == a.has_default
    &&& b.has_lock == a.has_lock
    &&& b.has_write == a.has_write
    &&& b.has_raft == a.has_raft
    &&& b.lock == a.lock
    &&& b.write == a.write
    &&& b.data == a.data
    &&& (cf != CfName::Default ==> b.raw_default == a.raw_default)
    &&& (cf != CfName::Lock ==> b.raw_lock == a.raw_lock)
    &&& (cf != CfName::Write ==> b.raw_write == a.raw_write)
}

/// The first version in a newest-first version list written by the
/// transaction that started at `start_ts`.
pub open spec fn ver_find_start(vs: Seq<(u64, crate::kv::WriteV)>, start_ts: TimeStamp) -> Option<
    (u64, crate::kv::WriteV),
>
    decreases vs.len(),
{
    if vs.len() == 0 {
        Option::None
    } else if vs[0].1.start_ts.0 == start_ts.0 {
        Option::Some(vs[0])
    } else {
        ver_find_start(vs.skip(1), start_ts)
    }
}

/// The display name of a column family.
pub fn cf_name_string(cf: CfName) -> (r: String)
    ensures
        r@ == cf_name_view(cf),
{
    match cf {
        CfName::Default => "default".to_owned(),
        CfName::Lock => "lock".to_owned(),
        CfName::Write => "write".to_owned(),
        CfName::Raft => "raft".to_owned(),
    }
}

/// The display name of a column family, as a character sequence.
pub open spec fn cf_name_view(cf: CfName) -> Seq<char> {
    match cf {
        CfName::Default => "default"@,
        CfName::Lock => "lock"@,
        CfName::Write => "write"@,
        CfName::Raft => "raft"@,
    }
}

} // verus!
