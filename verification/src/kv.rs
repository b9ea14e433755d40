//! The data model of the transactional store: keys, locks, write records,
//! lock descriptions handed to clients, request contexts and the sets of
//! locks a reader may bypass.

use vstd::prelude::*;

use crate::codec::{dec_bytes, enc_bytes, encode_bytes};
use crate::tso::TimeStamp;

verus! {

/// A value stored under a key.
pub type Value = Vec<u8>;

/// A raw key together with its value, as returned by scans and batch reads.
pub type KvPair = (Vec<u8>, Vec<u8>);

/// Values no longer than this are inlined into lock and write records.
pub const SHORT_VALUE_MAX_LEN: usize = 64;

/// Copies a byte vector.
pub fn clone_bytes(v: &Vec<u8>) -> (r: Vec<u8>)
    ensures
        r@ == v@,
{
    let mut out: Vec<u8> = Vec::new();
    let mut i: usize = 0;
    while i < v.len()
        invariant
            0 <= i <= v@.len(),
            out@ == v@.take(i as int),
        decreases v@.len() - i,
    {
        out.push(v[i]);
        proof {
            assert(v@.take(i + 1) =~= v@.take(i as int) + seq![v@[i as int]]);
        }
        i = i + 1;
    }
    proof {
        assert(v@.take(v@.len() as int) =~= v@);
    }
    out
}

/// Copies an optional byte vector.
pub fn clone_bytes_opt(v: &Option<Vec<u8>>) -> (r: Option<Vec<u8>>)
    ensures
        match v {
            Option::Some(b) => r is Some && r->0@ == b@,
            Option::None => r is None,
        },
{
    match v {
        Option::Some(b) => Option::Some(clone_bytes(b)),
        Option::None => Option::None,
    }
}

/// Copies a vector of 64-bit values.
pub fn clone_u64s(v: &Vec<u64>) -> (r: Vec<u64>)
    ensures
        r@ == v@,
{
    let mut out: Vec<u64> = Vec::new();
    let mut i: usize = 0;
    while i < v.len()
        invariant
            0 <= i <= v@.len(),
            out@ == v@.take(i as int),
        decreases v@.len() - i,
    {
        out.push(v[i]);
        proof {
            assert(v@.take(i + 1) =~= v@.take(i as int) + seq![v@[i as int]]);
        }
        i = i + 1;
    }
    proof {
        assert(v@.take(v@.len() as int) =~= v@);
    }
    out
}

/// The view of a list of byte vectors, element by element.
pub open spec fn bytes_list_view(v: Seq<Vec<u8>>) -> Seq<Seq<u8>> {
    Seq::new(v.len(), |i: int| v[i]@)
}

/// Copies a list of byte vectors.
pub fn clone_bytes_list(v: &Vec<Vec<u8>>) -> (r: Vec<Vec<u8>>)
    ensures
        bytes_list_view(r@) == bytes_list_view(v@),
{
    let mut out: Vec<Vec<u8>> = Vec::new();
    let mut i: usize = 0;
    while i < v.len()
        invariant
            0 <= i <= v@.len(),
            out@.len() == i,
            forall|j: int| 0 <= j < i ==> out@[j]@ == v@[j]@,
        decreases v@.len() - i,
    {
        out.push(clone_bytes(&v[i]));
        i = i + 1;
    }
    proof {
        assert(bytes_list_view(out@) =~= bytes_list_view(v@));
    }
    out
}

/// A key as stored in the engine: the memcomparable encoding of the raw key
/// the client supplied.  Raw-mode operations store their keys unencoded and
/// wrap them with `from_encoded`.
#[derive(Debug, PartialEq, Eq)]
pub struct Key(Vec<u8>);

impl View for Key {
    type V = Seq<u8>;

    closed spec fn view(&self) -> Seq<u8> {
        self.0@
    }
}

impl Clone for Key {
    /// A copied key holds the same bytes.
    fn clone(&self) -> (r: Key)
        ensures
            r@ == self@,
    {
        Key(clone_bytes(&self.0))
    }
}

impl Key {
    /// Encodes a raw key.
    pub fn from_raw(raw: &[u8]) -> (k: Key)
        ensures
            k@ == enc_bytes(raw@),
    {
        let v = vstd::slice::slice_to_vec(raw);
        Key(encode_bytes(&v))
    }

    /// Wraps bytes that are already in engine order.
    pub fn from_encoded(encoded: Vec<u8>) -> (k: Key)
        ensures
            k@ == encoded@,
    {
        Key(encoded)
    }

    /// Wraps a borrowed slice of bytes already in engine order.
    pub fn from_encoded_slice(encoded: &[u8]) -> (k: Key)
        ensures
            k@ == encoded@,
    {
        Key(vstd::slice::slice_to_vec(encoded))
    }

    /// The encoded form.
    pub fn as_encoded(&self) -> (r: &Vec<u8>)
        ensures
            r@ == self@,
    {
        &self.0
    }

    /// The encoded form, by value.
    pub fn into_encoded(self) -> (r: Vec<u8>)
        ensures
            r@ == self@,
    {
        self.0
    }

    /// The number of encoded bytes.
    pub fn len(&self) -> (r: usize)
        ensures
            r == self@.len(),
    {
        self.0.len()
    }

    /// Decodes back to the raw key; `None` if the bytes are not a valid
    /// encoding (for example a raw-mode key).
    pub fn to_raw(&self) -> (r: Option<Vec<u8>>)
        ensures
            match r {
                Option::Some(v) => dec_bytes(self@) == Option::Some(v@),
                Option::None => dec_bytes(self@) is None,
            },
    {
        crate::codec::decode_bytes(&self.0)
    }

    /// Decodes back to the raw key, consuming the key.
    pub fn into_raw(self) -> (r: Option<Vec<u8>>)
        ensures
            match r {
                Option::Some(v) => dec_bytes(self@) == Option::Some(v@),
                Option::None => dec_bytes(self@) is None,
            },
    {
        crate::codec::decode_bytes(&self.0)
    }

    /// A 64-bit digest of the encoded key, used to address latch slots and to
    /// name released locks towards the lock manager.
    pub fn gen_hash(&self) -> (r: u64)
        ensures
            r == fnv_hash(self@),
    {
        fnv_hash_exec(&self.0)
    }
}

/// The FNV-1a digest of a byte string.
pub open spec fn fnv_hash(s: Seq<u8>) -> u64
    decreases s.len(),
{
    if s.len() == 0 {
        0xcbf2_9ce4_8422_2325u64
    } else {
        mul_wrap64(fnv_hash(s.drop_last()) ^ (s.last() as u64), 0x1_0000_01b3u64)
    }
}

/// 64-bit wrapping multiplication, as a specification function.
pub open spec fn mul_wrap64(a: u64, b: u64) -> u64 {
    ((a * b) % 0x1_0000_0000_0000_0000) as u64
}

/// Computes the FNV-1a digest of a byte string.
pub fn fnv_hash_exec(s: &Vec<u8>) -> (r: u64)
    ensures
        r == fnv_hash(s@),
{
    let mut h: u64 = 0xcbf2_9ce4_8422_2325u64;
    let mut i: usize = 0;
    while i < s.len()
        invariant
            0 <= i <= s@.len(),
            h == fnv_hash(s@.take(i as int)),
        decreases s@.len() - i,
    {
        let x = h ^ (s[i] as u64);
        let m = x.wrapping_mul(0x1_0000_01b3u64);
        proof {
            assert(s@.take(i + 1).drop_last() =~= s@.take(i as int));
            assert(s@.take(i + 1).last() == s@[i as int]);
        }
        h = m;
        i = i + 1;
    }
    proof {
        assert(s@.take(s@.len() as int) =~= s@);
    }
    h
}

/// The kind of operation a lock protects.
#[derive(Clone, Copy, PartialEq, Eq, Structural, Debug)]
pub enum LockType {
    Put,
    Delete,
    Lock,
    Pessimistic,
}

/// The kind of a committed write record.
#[derive(Clone, Copy, PartialEq, Eq, Structural, Debug)]
pub enum WriteType {
    Put,
    Delete,
    Lock,
    Rollback,
}

/// The operation kind reported in a `LockInfo`.
#[derive(Clone, Copy, PartialEq, Eq, Structural, Debug)]
pub enum Op {
    Put,
    Del,
    Lock,
    Rollback,
    PessimisticLock,
}

/// The mathematical value of a lock record.
#[verifier::ext_equal]
pub struct LockV {
    pub lock_type: LockType,
    pub primary: Seq<u8>,
    pub ts: TimeStamp,
    pub ttl: u64,
    pub short_value: Option<Seq<u8>>,
    pub for_update_ts: TimeStamp,
    pub txn_size: u64,
    pub min_commit_ts: TimeStamp,
    pub use_async_commit: bool,
    pub secondaries: Seq<Seq<u8>>,
}

/// The view of an optional byte vector.
pub open spec fn opt_bytes_view(v: Option<Vec<u8>>) -> Option<Seq<u8>> {
    match v {
        Option::Some(b) => Option::Some(b@),
        Option::None => Option::None,
    }
}

/// A lock staked on a key by an in-progress transaction.
#[derive(Debug, PartialEq, Eq)]
pub struct Lock {
    pub lock_type: LockType,
    pub primary: Vec<u8>,
    pub ts: TimeStamp,
    pub ttl: u64,
    pub short_value: Option<Vec<u8>>,
    pub for_update_ts: TimeStamp,
    pub txn_size: u64,
    pub min_commit_ts: TimeStamp,
    pub use_async_commit: bool,
    pub secondaries: Vec<Vec<u8>>,
}

impl View for Lock {
    type V = LockV;

    open spec fn view(&self) -> LockV {
        LockV {
            lock_type: self.lock_type,
            primary: self.primary@,
            ts: self.ts,
            ttl: self.ttl,
            short_value: opt_bytes_view(self.short_value),
            for_update_ts: self.for_update_ts,
            txn_size: self.txn_size,
            min_commit_ts: self.min_commit_ts,
            use_async_commit: self.use_async_commit,
            secondaries: bytes_list_view(self.secondaries@),
        }
    }
}

impl Clone for Lock {
    /// A copied lock describes the same transaction state.
    fn clone(&self) -> (r: Lock)
        ensures
            r@ == self@,
    {
        Lock {
            lock_type: self.lock_type,
            primary: clone_bytes(&self.primary),
            ts: self.ts,
            ttl: self.ttl,
            short_value: clone_bytes_opt(&self.short_value),
            for_update_ts: self.for_update_ts,
            txn_size: self.txn_size,
            min_commit_ts: self.min_commit_ts,
            use_async_commit: self.use_async_commit,
            secondaries: clone_bytes_list(&self.secondaries),
        }
    }
}

impl Lock {
    /// Builds a lock record.
    pub fn new(
        lock_type: LockType,
        primary: Vec<u8>,
        ts: TimeStamp,
        ttl: u64,
        short_value: Option<Vec<u8>>,
        for_update_ts: TimeStamp,
        txn_size: u64,
        min_commit_ts: TimeStamp,
    ) -> (r: Lock)
        ensures
            r.lock_type == lock_type,
            r.primary == primary,
            r.ts == ts,
            r.ttl == ttl,
            r.short_value == short_value,
            r.for_update_ts == for_update_ts,
            r.txn_size == txn_size,
            r.min_commit_ts == min_commit_ts,
            !r.use_async_commit,
            r.secondaries@.len() == 0,
    {
        Lock {
            lock_type,
            primary,
            ts,
            ttl,
            short_value,
            for_update_ts,
            txn_size,
            min_commit_ts,
            use_async_commit: false,
            secondaries: Vec::new(),
        }
    }

    /// Marks the lock as taking part in an async commit, remembering the
    /// transaction's secondary keys.
    pub fn use_async_commit(self, secondaries: Vec<Vec<u8>>) -> (r: Lock)
        ensures
            r == (Lock { use_async_commit: true, secondaries, ..self }),
    {
        Lock { use_async_commit: true, secondaries, ..self }
    }

    /// Turns the lock into the description sent back to a blocked client.
    pub fn into_lock_info(&self, raw_key: Vec<u8>) -> (r: LockInfo)
        ensures
            r@ == lock_info_of(self@, raw_key@),
    {
        LockInfo {
            primary_lock: clone_bytes(&self.primary),
            lock_version: self.ts.0,
            key: raw_key,
            lock_ttl: self.ttl,
            txn_size: self.txn_size,
            lock_type: match self.lock_type {
                LockType::Put => Op::Put,
                LockType::Delete => Op::Del,
                LockType::Lock => Op::Lock,
                LockType::Pessimistic => Op::PessimisticLock,
            },
        }
    }
}

/// The `Op` a lock kind is reported as.
pub open spec fn lock_type_to_op(t: LockType) -> Op {
    match t {
        LockType::Put => Op::Put,
        LockType::Delete => Op::Del,
        LockType::Lock => Op::Lock,
        LockType::Pessimistic => Op::PessimisticLock,
    }
}

/// The mathematical value of a write record.
#[verifier::ext_equal]
pub struct WriteV {
    pub write_type: WriteType,
    pub start_ts: TimeStamp,
    pub short_value: Option<Seq<u8>>,
}

/// A committed version of a key, stored in the write column family.
#[derive(Debug, PartialEq, Eq)]
pub struct Write {
    pub write_type: WriteType,
    pub start_ts: TimeStamp,
    pub short_value: Option<Vec<u8>>,
}

impl View for Write {
    type V = WriteV;

    open spec fn view(&self) -> WriteV {
        WriteV {
            write_type: self.write_type,
            start_ts: self.start_ts,
            short_value: opt_bytes_view(self.short_value),
        }
    }
}

impl Clone for Write {
    /// A copied write record describes the same version.
    fn clone(&self) -> (r: Write)
        ensures
            r@ == self@,
    {
        Write {
            write_type: self.write_type,
            start_ts: self.start_ts,
            short_value: clone_bytes_opt(&self.short_value),
        }
    }
}

impl Write {
    /// Builds a write record.
    pub fn new(write_type: WriteType, start_ts: TimeStamp, short_value: Option<Vec<u8>>) -> (r:
        Write)
        ensures
            r.write_type == write_type,
            r.start_ts == start_ts,
            r.short_value == short_value,
    {
        Write { write_type, start_ts, short_value }
    }
}

/// The mathematical value of a lock description.
#[verifier::ext_equal]
pub struct LockInfoV {
    pub primary_lock: Seq<u8>,
    pub lock_version: u64,
    pub key: Seq<u8>,
    pub lock_ttl: u64,
    pub txn_size: u64,
    pub lock_type: Op,
}

/// The description a blocked reader or writer receives of the lock `l` held
/// on the raw key `raw_key`.
pub open spec fn lock_info_of(l: LockV, raw_key: Seq<u8>) -> LockInfoV {
    LockInfoV {
        primary_lock: l.primary,
        lock_version: l.ts.0,
        key: raw_key,
        lock_ttl: l.ttl,
        txn_size: l.txn_size,
        lock_type: lock_type_to_op(l.lock_type),
    }
}

/// The description of a lock that blocked an operation, handed back to the
/// client so it can resolve the transaction and retry.
#[derive(Debug, PartialEq, Eq)]
pub struct LockInfo {
    pub primary_lock: Vec<u8>,
    pub lock_version: u64,
    pub key: Vec<u8>,
    pub lock_ttl: u64,
    pub txn_size: u64,
    pub lock_type: Op,
}

impl View for LockInfo {
    type V = LockInfoV;

    open spec fn view(&self) -> LockInfoV {
        LockInfoV {
            primary_lock: self.primary_lock@,
            lock_version: self.lock_version,
            key: self.key@,
            lock_ttl: self.lock_ttl,
            txn_size: self.txn_size,
            lock_type: self.lock_type,
        }
    }
}

impl Clone for LockInfo {
    /// A copied description reports the same lock.
    fn clone(&self) -> (r: LockInfo)
        ensures
            r@ == self@,
    {
        LockInfo {
            primary_lock: clone_bytes(&self.primary_lock),
            lock_version: self.lock_version,
            key: clone_bytes(&self.key),
            lock_ttl: self.lock_ttl,
            txn_size: self.txn_size,
            lock_type: self.lock_type,
        }
    }
}

impl Default for LockInfo {
    /// An empty description: no key, version zero, a `Put` lock.
    fn default() -> (r: LockInfo)
        ensures
            r.primary_lock@.len() == 0,
            r.lock_version == 0,
            r.key@.len() == 0,
            r.lock_ttl == 0,
            r.txn_size == 0,
            r.lock_type == Op::Put,
    {
        LockInfo {
            primary_lock: Vec::new(),
            lock_version: 0,
            key: Vec::new(),
            lock_ttl: 0,
            txn_size: 0,
            lock_type: Op::Put,
        }
    }
}

impl LockInfo {
    /// Sets the primary key of the owning transaction.
    pub fn set_primary_lock(&mut self, v: Vec<u8>)
        ensures
            *final(self) == (LockInfo { primary_lock: v, ..*old(self) }),
    {
        self.primary_lock = v;
    }

    /// Sets the start timestamp of the owning transaction.
    pub fn set_lock_version(&mut self, v: u64)
        ensures
            *final(self) == (LockInfo { lock_version: v, ..*old(self) }),
    {
        self.lock_version = v;
    }

    /// Sets the locked key.
    pub fn set_key(&mut self, v: Vec<u8>)
        ensures
            *final(self) == (LockInfo { key: v, ..*old(self) }),
    {
        self.key = v;
    }

    /// Sets the lock's time-to-live in milliseconds.
    pub fn set_lock_ttl(&mut self, v: u64)
        ensures
            *final(self) == (LockInfo { lock_ttl: v, ..*old(self) }),
    {
        self.lock_ttl = v;
    }

    /// Sets the number of keys the owning transaction writes.
    pub fn set_txn_size(&mut self, v: u64)
        ensures
            *final(self) == (LockInfo { txn_size: v, ..*old(self) }),
    {
        self.txn_size = v;
    }

    /// Sets the operation kind of the lock.
    pub fn set_lock_type(&mut self, v: Op)
        ensures
            *final(self) == (LockInfo { lock_type: v, ..*old(self) }),
    {
        self.lock_type = v;
    }

    /// The locked key.
    pub fn get_key(&self) -> (r: &Vec<u8>)
        ensures
            r == &self.key,
    {
        &self.key
    }

    /// The primary key of the owning transaction.
    pub fn get_primary_lock(&self) -> (r: &Vec<u8>)
        ensures
            r == &self.primary_lock,
    {
        &self.primary_lock
    }

    /// The start timestamp of the owning transaction.
    pub fn get_lock_version(&self) -> (r: u64)
        ensures
            r == self.lock_version,
    {
        self.lock_version
    }

    /// The lock's time-to-live in milliseconds.
    pub fn get_lock_ttl(&self) -> (r: u64)
        ensures
            r == self.lock_ttl,
    {
        self.lock_ttl
    }
}

/// A change a transaction stakes on one key.
#[derive(Debug)]
pub enum Mutation {
    /// Write a value.
    Put((Key, Vec<u8>)),
    /// Remove the key.
    Delete(Key),
    /// Lock the key without changing it.
    Lock(Key),
}

impl Mutation {
    /// The key this mutation touches.
    pub fn key(&self) -> (r: &Key)
        ensures
            r@ == self.key_view(),
    {
        match self {
            Mutation::Put((k, _)) => k,
            Mutation::Delete(k) => k,
            Mutation::Lock(k) => k,
        }
    }

    /// The encoded key this mutation touches.
    pub open spec fn key_view(&self) -> Seq<u8> {
        match self {
            Mutation::Put((k, _)) => k@,
            Mutation::Delete(k) => k@,
            Mutation::Lock(k) => k@,
        }
    }

    /// The kind of lock this mutation stakes.
    pub open spec fn lock_kind(&self) -> LockType {
        match self {
            Mutation::Put(_) => LockType::Put,
            Mutation::Delete(_) => LockType::Delete,
            Mutation::Lock(_) => LockType::Lock,
        }
    }

    /// The value this mutation writes, if any.
    pub open spec fn value_view(&self) -> Option<Seq<u8>> {
        match self {
            Mutation::Put((_, v)) => Option::Some(v@),
            Mutation::Delete(_) => Option::None,
            Mutation::Lock(_) => Option::None,
        }
    }
}

/// The set of lock start timestamps a reader has already resolved and may
/// read through.
#[derive(Debug)]
pub struct TsSet {
    tss: Vec<u64>,
}

impl TsSet {
    /// Builds the set from plain 64-bit timestamps.
    pub fn from_u64s(tss: Vec<u64>) -> (r: TsSet)
        ensures
            r@ == tss@,
    {
        TsSet { tss }
    }

    /// Builds the set from plain 64-bit timestamps; same contents, named as
    /// the small-read fast path.
    pub fn vec_from_u64s(tss: Vec<u64>) -> (r: TsSet)
        ensures
            r@ == tss@,
    {
        TsSet { tss }
    }

    /// Whether `ts` is in the set.
    pub fn contains(&self, ts: TimeStamp) -> (r: bool)
        ensures
            r == self@.contains(ts.0),
    {
        let mut i: usize = 0;
        while i < self.tss.len()
            invariant
                0 <= i <= self.tss@.len(),
                forall|j: int| 0 <= j < i ==> self.tss@[j] != ts.0,
            decreases self.tss@.len() - i,
        {
            if self.tss[i] == ts.0 {
                return true;
            }
            i = i + 1;
        }
        false
    }
}

impl View for TsSet {
    type V = Seq<u64>;

    closed spec fn view(&self) -> Seq<u64> {
        self.tss@
    }
}

/// Command priority, used to keep small hot operations from queuing behind
/// bulk work.
#[derive(Clone, Copy, PartialEq, Eq, Structural, Debug)]
pub enum CommandPri {
    Low,
    Normal,
    High,
}

/// The isolation level a read runs under.
#[derive(Clone, Copy, PartialEq, Eq, Structural, Debug)]
pub enum IsolationLevel {
    /// Snapshot isolation: locks below the read timestamp block the read.
    Si,
    /// Read committed: locks are ignored.
    Rc,
}

/// Per-request context: priority, isolation, and locks the client has
/// already resolved.
#[derive(Debug)]
pub struct Context {
    pub priority: CommandPri,
    pub isolation_level: IsolationLevel,
    pub resolved_locks: Vec<u64>,
    pub not_fill_cache: bool,
    pub region_id: u64,
}

impl Default for Context {
    /// Normal priority, snapshot isolation, nothing resolved.
    fn default() -> (r: Context)
        ensures
            r.priority == CommandPri::Normal,
            r.isolation_level == IsolationLevel::Si,
            r.resolved_locks@.len() == 0,
            !r.not_fill_cache,
            r.region_id == 0,
    {
        Context {
            priority: CommandPri::Normal,
            isolation_level: IsolationLevel::Si,
            resolved_locks: Vec::new(),
            not_fill_cache: false,
            region_id: 0,
        }
    }
}

impl Clone for Context {
    /// A copied context carries the same settings.
    fn clone(&self) -> (r: Context)
        ensures
            r.priority == self.priority,
            r.isolation_level == self.isolation_level,
            r.resolved_locks@ == self.resolved_locks@,
            r.not_fill_cache == self.not_fill_cache,
            r.region_id == self.region_id,
    {
        Context {
            priority: self.priority,
            isolation_level: self.isolation_level,
            resolved_locks: clone_u64s(&self.resolved_locks),
            not_fill_cache: self.not_fill_cache,
            region_id: self.region_id,
        }
    }
}

impl Context {
    /// Sets the command priority.
    pub fn set_priority(&mut self, p: CommandPri)
        ensures
            *final(self) == (Context { priority: p, ..*old(self) }),
    {
        self.priority = p;
    }

    /// The command priority.
    pub fn get_priority(&self) -> (r: CommandPri)
        ensures
            r == self.priority,
    {
        self.priority
    }

    /// Sets the isolation level.
    pub fn set_isolation_level(&mut self, l: IsolationLevel)
        ensures
            *final(self) == (Context { isolation_level: l, ..*old(self) }),
    {
        self.isolation_level = l;
    }

    /// The isolation level.
    pub fn get_isolation_level(&self) -> (r: IsolationLevel)
        ensures
            r == self.isolation_level,
    {
        self.isolation_level
    }

    /// Takes the resolved-lock timestamps out of the context.
    pub fn take_resolved_locks(&mut self) -> (r: Vec<u64>)
        ensures
            r@ == old(self).resolved_locks@,
            final(self).resolved_locks@.len() == 0,
            final(self).priority == old(self).priority,
            final(self).isolation_level == old(self).isolation_level,
            final(self).not_fill_cache == old(self).not_fill_cache,
            final(self).region_id == old(self).region_id,
    {
        let mut out: Vec<u64> = Vec::new();
        core::mem::swap(&mut out, &mut self.resolved_locks);
        out
    }
}

/// A point-read request carried by a batched read command.
#[derive(Debug)]
pub struct GetRequest {
    pub ctx: Context,
    pub key: Vec<u8>,
    pub version: u64,
}

impl Default for GetRequest {
    /// An empty request at version zero.
    fn default() -> (r: GetRequest)
        ensures
            r.key@.len() == 0,
            r.version == 0,
            r.ctx.priority == CommandPri::Normal,
            r.ctx.isolation_level == IsolationLevel::Si,
            r.ctx.resolved_locks@.len() == 0,
    {
        GetRequest { ctx: Context::default(), key: Vec::new(), version: 0 }
    }
}

impl GetRequest {
    /// Sets the raw key to read.
    pub fn set_key(&mut self, key: Vec<u8>)
        ensures
            *final(self) == (GetRequest { key, ..*old(self) }),
    {
        self.key = key;
    }

    /// Sets the read timestamp.
    pub fn set_version(&mut self, version: u64)
        ensures
            *final(self) == (GetRequest { version, ..*old(self) }),
    {
        self.version = version;
    }

    /// Sets the request context.
    pub fn set_context(&mut self, ctx: Context)
        ensures
            *final(self) == (GetRequest { ctx, ..*old(self) }),
    {
        self.ctx = ctx;
    }
}

/// A raw-mode point-read request carried by a batched read command.
#[derive(Debug)]
pub struct RawGetRequest {
    pub ctx: Context,
    pub cf: String,
    pub key: Vec<u8>,
}

impl Default for RawGetRequest {
    /// An empty request against the default column family.
    fn default() -> (r: RawGetRequest)
        ensures
            r.key@.len() == 0,
            r.cf@.len() == 0,
            r.ctx.priority == CommandPri::Normal,
    {
        RawGetRequest { ctx: Context::default(), cf: String::new(), key: Vec::new() }
    }
}

impl RawGetRequest {
    /// Sets the raw key to read.
    pub fn set_key(&mut self, key: Vec<u8>)
        ensures
            *final(self) == (RawGetRequest { key, ..*old(self) }),
    {
        self.key = key;
    }
}

/// A raw-mode key range: `end_key` empty means "up to the next range's
/// start, or unbounded".
#[derive(Debug, PartialEq, Eq)]
pub struct KeyRange {
    pub start_key: Vec<u8>,
    pub end_key: Vec<u8>,
}

impl Default for KeyRange {
    /// The unbounded range.
    fn default() -> (r: KeyRange)
        ensures
            r.start_key@.len() == 0,
            r.end_key@.len() == 0,
    {
        KeyRange { start_key: Vec::new(), end_key: Vec::new() }
    }
}

impl Clone for KeyRange {
    /// A copied range covers the same keys.
    fn clone(&self) -> (r: KeyRange)
        ensures
            r.start_key@ == self.start_key@,
            r.end_key@ == self.end_key@,
    {
        KeyRange {
            start_key: clone_bytes(&self.start_key),
            end_key: clone_bytes(&self.end_key),
        }
    }
}

impl KeyRange {
    /// Sets the inclusive start of the range.
    pub fn set_start_key(&mut self, v: Vec<u8>)
        ensures
            *final(self) == (KeyRange { start_key: v, ..*old(self) }),
    {
        self.start_key = v;
    }

    /// Sets the exclusive end of the range.
    pub fn set_end_key(&mut self, v: Vec<u8>)
        ensures
            *final(self) == (KeyRange { end_key: v, ..*old(self) }),
    {
        self.end_key = v;
    }

    /// The inclusive start of the range.
    pub fn get_start_key(&self) -> (r: &Vec<u8>)
        ensures
            r == &self.start_key,
    {
        &self.start_key
    }

    /// The exclusive end of the range.
    pub fn get_end_key(&self) -> (r: &Vec<u8>)
        ensures
            r == &self.end_key,
    {
        &self.end_key
    }
}

/// How long a pessimistic-lock request is willing to wait for a conflicting
/// lock before it is woken with a failure.
#[derive(Clone, Copy, PartialEq, Eq, Structural, Debug)]
pub enum WaitTimeout {
    /// Wait with the lock manager's default timeout.
    Default,
    /// Wait at most this many milliseconds.
    Millis(u64),
}

} // verus!
