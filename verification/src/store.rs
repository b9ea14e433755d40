//! The ordered store that models one column family: a vector of slots sorted
//! by key and, within a key, by version — newest first, so the first version
//! met from the top is the newest.  Lock and raw entries use version zero.

use vstd::prelude::*;

use crate::codec::{lex_cmp, lex_le, lex_lt, KeyOrd};

verus! {

/// A value a store slot can hold: it can be copied without changing its
/// mathematical value.
pub trait StoreVal: View + Sized {
    /// Copies the value.
    fn dup(&self) -> (r: Self)
        ensures
            r@ == self@,
    ;
}

impl StoreVal for Vec<u8> {
    fn dup(&self) -> (r: Vec<u8>)
        ensures
            r@ == self@,
    {
        crate::kv::clone_bytes(self)
    }
}

impl StoreVal for crate::kv::Lock {
    fn dup(&self) -> (r: crate::kv::Lock)
        ensures
            r@ == self@,
    {
        self.clone()
    }
}

impl StoreVal for crate::kv::Write {
    fn dup(&self) -> (r: crate::kv::Write)
        ensures
            r@ == self@,
    {
        self.clone()
    }
}

/// One entry of a column family: a key, a version, and the stored value.
pub struct Slot<T> {
    pub key: Vec<u8>,
    pub ts: u64,
    pub val: T,
}

impl<T: StoreVal> Slot<T> {
    /// Copies the slot.
    pub fn dup(&self) -> (r: Slot<T>)
        ensures
            r.key@ == self.key@,
            r.ts == self.ts,
            r.val@ == self.val@,
    {
        Slot { key: crate::kv::clone_bytes(&self.key), ts: self.ts, val: self.val.dup() }
    }
}

/// The mathematical contents of a store: key, version and value of each slot.
pub open spec fn store_view<T: View>(s: Seq<Slot<T>>) -> Seq<(Seq<u8>, u64, T::V)> {
    Seq::new(s.len(), |i: int| (s[i].key@, s[i].ts, s[i].val@))
}

/// Slot order: keys ascending, versions descending within a key.
pub open spec fn slot_lt(k1: Seq<u8>, t1: u64, k2: Seq<u8>, t2: u64) -> bool {
    lex_lt(k1, k2) || (k1 == k2 && t1 > t2)
}

/// The store is strictly sorted in slot order; keys with their versions are
/// unique.
pub open spec fn store_sorted<V>(v: Seq<(Seq<u8>, u64, V)>) -> bool {
    forall|i: int, j: int|
        0 <= i < j < v.len() ==> slot_lt((#[trigger] v[i]).0, v[i].1, (#[trigger] v[j]).0, v[j].1)
}

/// Slot order is transitive.
pub proof fn lemma_slot_lt_trans(k1: Seq<u8>, t1: u64, k2: Seq<u8>, t2: u64, k3: Seq<u8>, t3: u64)
    requires
        slot_lt(k1, t1, k2, t2),
        slot_lt(k2, t2, k3, t3),
    ensures
        slot_lt(k1, t1, k3, t3),
{
    if lex_lt(k1, k2) && lex_lt(k2, k3) {
        crate::codec::lemma_lex_trans(k1, k2, k3);
    }
}

/// Slot order is irreflexive and asymmetric.
pub proof fn lemma_slot_lt_asym(k1: Seq<u8>, t1: u64, k2: Seq<u8>, t2: u64)
    ensures
        !(slot_lt(k1, t1, k2, t2) && slot_lt(k2, t2, k1, t1)),
        !slot_lt(k1, t1, k1, t1),
        slot_lt(k1, t1, k2, t2) || slot_lt(k2, t2, k1, t1) || (k1 == k2 && t1 == t2),
{
    crate::codec::lemma_lex_trichotomy(k1, k2);
    crate::codec::lemma_lex_trichotomy(k1, k1);
}

/// Compares two slot addresses in slot order.
pub fn slot_cmp(k1: &Vec<u8>, t1: u64, k2: &Vec<u8>, t2: u64) -> (r: KeyOrd)
    ensures
        r == KeyOrd::Less <==> slot_lt(k1@, t1, k2@, t2),
        r == KeyOrd::Equal <==> (k1@ == k2@ && t1 == t2),
        r == KeyOrd::Greater <==> slot_lt(k2@, t2, k1@, t1),
{
    proof {
        crate::codec::lemma_lex_trichotomy(k1@, k2@);
    }
    match lex_cmp(k1, k2) {
        KeyOrd::Less => KeyOrd::Less,
        KeyOrd::Greater => KeyOrd::Greater,
        KeyOrd::Equal => {
            if t1 > t2 {
                KeyOrd::Less
            } else if t1 == t2 {
                KeyOrd::Equal
            } else {
                KeyOrd::Greater
            }
        },
    }
}

/// The store with `(k, ts)` bound to `val`: inserted in order, or replacing
/// the slot that held the pair.
pub open spec fn store_put_spec<V>(v: Seq<(Seq<u8>, u64, V)>, k: Seq<u8>, ts: u64, val: V) -> Seq<
    (Seq<u8>, u64, V),
>
    decreases v.len(),
{
    if v.len() == 0 {
        seq![(k, ts, val)]
    } else if slot_lt(v[0].0, v[0].1, k, ts) {
        seq![v[0]] + store_put_spec(v.skip(1), k, ts, val)
    } else if v[0].0 == k && v[0].1 == ts {
        seq![(k, ts, val)] + v.skip(1)
    } else {
        seq![(k, ts, val)] + v
    }
}

/// The store without the slot at `(k, ts)`.
pub open spec fn store_del_spec<V>(v: Seq<(Seq<u8>, u64, V)>, k: Seq<u8>, ts: u64) -> Seq<
    (Seq<u8>, u64, V),
>
    decreases v.len(),
{
    if v.len() == 0 {
        v
    } else if v[0].0 == k && v[0].1 == ts {
        store_del_spec(v.skip(1), k, ts)
    } else {
        seq![v[0]] + store_del_spec(v.skip(1), k, ts)
    }
}

/// The store without any slot whose key lies in `[start, end)`.
pub open spec fn store_range_del_spec<V>(
    v: Seq<(Seq<u8>, u64, V)>,
    start: Seq<u8>,
    end: Seq<u8>,
) -> Seq<(Seq<u8>, u64, V)>
    decreases v.len(),
{
    if v.len() == 0 {
        v
    } else if lex_le(start, v[0].0) && lex_lt(v[0].0, end) {
        store_range_del_spec(v.skip(1), start, end)
    } else {
        seq![v[0]] + store_range_del_spec(v.skip(1), start, end)
    }
}

/// The value bound to `(k, ts)`, if any.
pub open spec fn store_get_spec<V>(v: Seq<(Seq<u8>, u64, V)>, k: Seq<u8>, ts: u64) -> Option<V>
    decreases v.len(),
{
    if v.len() == 0 {
        Option::None
    } else if v[0].0 == k && v[0].1 == ts {
        Option::Some(v[0].2)
    } else {
        store_get_spec(v.skip(1), k, ts)
    }
}

/// All versions of key `k`, in store order: newest first when sorted.
pub open spec fn key_versions<V>(v: Seq<(Seq<u8>, u64, V)>, k: Seq<u8>) -> Seq<(u64, V)>
    decreases v.len(),
{
    if v.len() == 0 {
        Seq::empty()
    } else if v[0].0 == k {
        seq![(v[0].1, v[0].2)] + key_versions(v.skip(1), k)
    } else {
        key_versions(v.skip(1), k)
    }
}

/// The newest version at or below `ts`: the first entry of a
/// newest-first version list whose version is not above `ts`.
pub open spec fn ver_first_le<V>(vs: Seq<(u64, V)>, ts: u64) -> Option<(u64, V)>
    decreases vs.len(),
{
    if vs.len() == 0 {
        Option::None
    } else if vs[0].0 <= ts {
        Option::Some(vs[0])
    } else {
        ver_first_le(vs.skip(1), ts)
    }
}

/// Everything in the store after a put was there before, or is the new slot.
pub proof fn lemma_put_membership<V>(v: Seq<(Seq<u8>, u64, V)>, k: Seq<u8>, ts: u64, val: V)
    ensures
        forall|m: (Seq<u8>, u64, V)|
            #[trigger] store_put_spec(v, k, ts, val).contains(m) ==> v.contains(m) || m == (
            k,
            ts,
            val,
            ),
    decreases v.len(),
{
    let r = store_put_spec(v, k, ts, val);
    if v.len() == 0 {
    } else if slot_lt(v[0].0, v[0].1, k, ts) {
        lemma_put_membership(v.skip(1), k, ts, val);
        assert forall|m: (Seq<u8>, u64, V)| #[trigger] r.contains(m) implies v.contains(m) || m
            == (k, ts, val) by {
            if m == v[0] {
                assert(v.contains(m)) by { assert(v[0] == m) };
            } else {
                let i = choose|i: int| 0 <= i < r.len() && r[i] == m;
                if i > 0 {
                    assert(store_put_spec(v.skip(1), k, ts, val)[i - 1] == m);
                    assert(store_put_spec(v.skip(1), k, ts, val).contains(m));
                    if v.skip(1).contains(m) {
                        let j = choose|j: int| 0 <= j < v.skip(1).len() && v.skip(1)[j] == m;
                        assert(v[j + 1] == m);
                    }
                }
            }
        }
    } else if v[0].0 == k && v[0].1 == ts {
        assert forall|m: (Seq<u8>, u64, V)| #[trigger] r.contains(m) implies v.contains(m) || m
            == (k, ts, val) by {
            let i = choose|i: int| 0 <= i < r.len() && r[i] == m;
            if i > 0 {
                assert(v[i] == m);
            }
        }
    } else {
        assert forall|m: (Seq<u8>, u64, V)| #[trigger] r.contains(m) implies v.contains(m) || m
            == (k, ts, val) by {
            let i = choose|i: int| 0 <= i < r.len() && r[i] == m;
            if i > 0 {
                assert(v[i - 1] == m);
            }
        }
    }
}

/// A put into a sorted store leaves it sorted.
pub proof fn lemma_put_sorted<V>(v: Seq<(Seq<u8>, u64, V)>, k: Seq<u8>, ts: u64, val: V)
    requires
        store_sorted(v),
    ensures
        store_sorted(store_put_spec(v, k, ts, val)),
    decreases v.len(),
{
    let r = store_put_spec(v, k, ts, val);
    if v.len() == 0 {
    } else if slot_lt(v[0].0, v[0].1, k, ts) {
        assert(store_sorted(v.skip(1))) by {
            assert forall|i: int, j: int| 0 <= i < j < v.skip(1).len() implies slot_lt(
                (#[trigger] v.skip(1)[i]).0,
                v.skip(1)[i].1,
                (#[trigger] v.skip(1)[j]).0,
                v.skip(1)[j].1,
            ) by {
                assert(v.skip(1)[i] == v[i + 1]);
                assert(v.skip(1)[j] == v[j + 1]);
            }
        }
        lemma_put_sorted(v.skip(1), k, ts, val);
        lemma_put_membership(v.skip(1), k, ts, val);
        let tail = store_put_spec(v.skip(1), k, ts, val);
        assert forall|i: int, j: int| 0 <= i < j < r.len() implies slot_lt(
            (#[trigger] r[i]).0,
            r[i].1,
            (#[trigger] r[j]).0,
            r[j].1,
        ) by {
            if i == 0 {
                let m = tail[j - 1];
                assert(tail.contains(m));
                if v.skip(1).contains(m) {
                    let x = choose|x: int| 0 <= x < v.skip(1).len() && v.skip(1)[x] == m;
                    assert(v[x + 1] == m);
                    assert(slot_lt(v[0].0, v[0].1, m.0, m.1));
                }
            } else {
                assert(r[i] == tail[i - 1]);
                assert(r[j] == tail[j - 1]);
            }
        }
    } else if v[0].0 == k && v[0].1 == ts {
        assert forall|i: int, j: int| 0 <= i < j < r.len() implies slot_lt(
            (#[trigger] r[i]).0,
            r[i].1,
            (#[trigger] r[j]).0,
            r[j].1,
        ) by {
            if i == 0 {
                assert(r[j] == v[j]);
                assert(slot_lt(v[0].0, v[0].1, v[j].0, v[j].1));
            } else {
                assert(r[i] == v[i]);
                assert(r[j] == v[j]);
            }
        }
    } else {
        lemma_slot_lt_asym(v[0].0, v[0].1, k, ts);
        assert forall|i: int, j: int| 0 <= i < j < r.len() implies slot_lt(
            (#[trigger] r[i]).0,
            r[i].1,
            (#[trigger] r[j]).0,
            r[j].1,
        ) by {
            if i == 0 {
                assert(r[j] == v[j - 1]);
                if j > 1 {
                    assert(slot_lt(v[0].0, v[0].1, v[j - 1].0, v[j - 1].1));
                    lemma_slot_lt_trans(k, ts, v[0].0, v[0].1, v[j - 1].0, v[j - 1].1);
                }
            } else {
                assert(r[i] == v[i - 1]);
                assert(r[j] == v[j - 1]);
            }
        }
    }
}

/// Everything kept by a deletion was in the store, in the same relative
/// order; here: membership only.
pub proof fn lemma_del_membership<V>(v: Seq<(Seq<u8>, u64, V)>, k: Seq<u8>, ts: u64)
    ensures
        forall|m: (Seq<u8>, u64, V)|
            #[trigger] store_del_spec(v, k, ts).contains(m) ==> v.contains(m),
    decreases v.len(),
{
    let r = store_del_spec(v, k, ts);
    if v.len() > 0 {
        lemma_del_membership(v.skip(1), k, ts);
        assert forall|m: (Seq<u8>, u64, V)| #[trigger] r.contains(m) implies v.contains(m) by {
            let i = choose|i: int| 0 <= i < r.len() && r[i] == m;
            if v[0].0 == k && v[0].1 == ts {
                assert(store_del_spec(v.skip(1), k, ts).contains(m));
                let j = choose|j: int| 0 <= j < v.skip(1).len() && v.skip(1)[j] == m;
                assert(v[j + 1] == m);
            } else {
                if i == 0 {
                    assert(v[0] == m);
                } else {
                    assert(store_del_spec(v.skip(1), k, ts)[i - 1] == m);
                    assert(store_del_spec(v.skip(1), k, ts).contains(m));
                    let j = choose|j: int| 0 <= j < v.skip(1).len() && v.skip(1)[j] == m;
                    assert(v[j + 1] == m);
                }
            }
        }
    }
}

/// A deletion from a sorted store leaves it sorted.
pub proof fn lemma_del_sorted<V>(v: Seq<(Seq<u8>, u64, V)>, k: Seq<u8>, ts: u64)
    requires
        store_sorted(v),
    ensures
        store_sorted(store_del_spec(v, k, ts)),
    decreases v.len(),
{
    let r = store_del_spec(v, k, ts);
    if v.len() > 0 {
        assert(store_sorted(v.skip(1))) by {
            assert forall|i: int, j: int| 0 <= i < j < v.skip(1).len() implies slot_lt(
                (#[trigger] v.skip(1)[i]).0,
                v.skip(1)[i].1,
                (#[trigger] v.skip(1)[j]).0,
                v.skip(1)[j].1,
            ) by {
                assert(v.skip(1)[i] == v[i + 1]);
                assert(v.skip(1)[j] == v[j + 1]);
            }
        }
        lemma_del_sorted(v.skip(1), k, ts);
        lemma_del_membership(v.skip(1), k, ts);
        let tail = store_del_spec(v.skip(1), k, ts);
        if !(v[0].0 == k && v[0].1 == ts) {
            assert forall|i: int, j: int| 0 <= i < j < r.len() implies slot_lt(
                (#[trigger] r[i]).0,
                r[i].1,
                (#[trigger] r[j]).0,
                r[j].1,
            ) by {
                if i == 0 {
                    let m = tail[j - 1];
                    assert(tail.contains(m));
                    let x = choose|x: int| 0 <= x < v.skip(1).len() && v.skip(1)[x] == m;
                    assert(v[x + 1] == m);
                    assert(slot_lt(v[0].0, v[0].1, m.0, m.1));
                } else {
                    assert(r[i] == tail[i - 1]);
                    assert(r[j] == tail[j - 1]);
                }
            }
        }
    }
}

/// Everything kept by a range deletion was in the store.
pub proof fn lemma_range_del_membership<V>(v: Seq<(Seq<u8>, u64, V)>, start: Seq<u8>, end: Seq<u8>)
    ensures
        forall|m: (Seq<u8>, u64, V)|
            #[trigger] store_range_del_spec(v, start, end).contains(m) ==> v.contains(m),
    decreases v.len(),
{
    let r = store_range_del_spec(v, start, end);
    if v.len() > 0 {
        lemma_range_del_membership(v.skip(1), start, end);
        assert forall|m: (Seq<u8>, u64, V)| #[trigger] r.contains(m) implies v.contains(m) by {
            let i = choose|i: int| 0 <= i < r.len() && r[i] == m;
            if lex_le(start, v[0].0) && lex_lt(v[0].0, end) {
                assert(store_range_del_spec(v.skip(1), start, end).contains(m));
                let j = choose|j: int| 0 <= j < v.skip(1).len() && v.skip(1)[j] == m;
                assert(v[j + 1] == m);
            } else {
                if i == 0 {
                    assert(v[0] == m);
                } else {
                    assert(store_range_del_spec(v.skip(1), start, end)[i - 1] == m);
                    assert(store_range_del_spec(v.skip(1), start, end).contains(m));
                    let j = choose|j: int| 0 <= j < v.skip(1).len() && v.skip(1)[j] == m;
                    assert(v[j + 1] == m);
                }
            }
        }
    }
}

/// A range deletion from a sorted store leaves it sorted.
pub proof fn lemma_range_del_sorted<V>(v: Seq<(Seq<u8>, u64, V)>, start: Seq<u8>, end: Seq<u8>)
    requires
        store_sorted(v),
    ensures
        store_sorted(store_range_del_spec(v, start, end)),
    decreases v.len(),
{
    let r = store_range_del_spec(v, start, end);
    if v.len() > 0 {
        assert(store_sorted(v.skip(1))) by {
            assert forall|i: int, j: int| 0 <= i < j < v.skip(1).len() implies slot_lt(
                (#[trigger] v.skip(1)[i]).0,
                v.skip(1)[i].1,
                (#[trigger] v.skip(1)[j]).0,
                v.skip(1)[j].1,
            ) by {
                assert(v.skip(1)[i] == v[i + 1]);
                assert(v.skip(1)[j] == v[j + 1]);
            }
        }
        lemma_range_del_sorted(v.skip(1), start, end);
        lemma_range_del_membership(v.skip(1), start, end);
        let tail = store_range_del_spec(v.skip(1), start, end);
        if !(lex_le(start, v[0].0) && lex_lt(v[0].0, end)) {
            assert forall|i: int, j: int| 0 <= i < j < r.len() implies slot_lt(
                (#[trigger] r[i]).0,
                r[i].1,
                (#[trigger] r[j]).0,
                r[j].1,
            ) by {
                if i == 0 {
                    let m = tail[j - 1];
                    assert(tail.contains(m));
                    let x = choose|x: int| 0 <= x < v.skip(1).len() && v.skip(1)[x] == m;
                    assert(v[x + 1] == m);
                    assert(slot_lt(v[0].0, v[0].1, m.0, m.1));
                } else {
                    assert(r[i] == tail[i - 1]);
                    assert(r[j] == tail[j - 1]);
                }
            }
        }
    }
}

/// What a lookup sees after a put: the new value at its own address, the old
/// store everywhere else.
pub proof fn lemma_put_get<V>(
    v: Seq<(Seq<u8>, u64, V)>,
    k: Seq<u8>,
    ts: u64,
    val: V,
    k2: Seq<u8>,
    ts2: u64,
)
    requires
        store_sorted(v),
    ensures
        store_get_spec(store_put_spec(v, k, ts, val), k2, ts2) == (if k2 == k && ts2 == ts {
            Option::Some(val)
        } else {
            store_get_spec(v, k2, ts2)
        }),
    decreases v.len(),
{
    let r = store_put_spec(v, k, ts, val);
    if v.len() == 0 {
        assert(r[0] == (k, ts, val));
        let e = r.skip(1);
        assert(e.len() == 0);
        assert(store_get_spec(e, k2, ts2) is None);
    } else if slot_lt(v[0].0, v[0].1, k, ts) {
        assert(store_sorted(v.skip(1))) by {
            assert forall|i: int, j: int| 0 <= i < j < v.skip(1).len() implies slot_lt(
                (#[trigger] v.skip(1)[i]).0,
                v.skip(1)[i].1,
                (#[trigger] v.skip(1)[j]).0,
                v.skip(1)[j].1,
            ) by {
                assert(v.skip(1)[i] == v[i + 1]);
                assert(v.skip(1)[j] == v[j + 1]);
            }
        }
        lemma_put_get(v.skip(1), k, ts, val, k2, ts2);
        lemma_slot_lt_asym(v[0].0, v[0].1, k, ts);
        assert(r == seq![v[0]] + store_put_spec(v.skip(1), k, ts, val));
        assert(r[0] == v[0]);
        assert(r.skip(1) =~= store_put_spec(v.skip(1), k, ts, val));
    } else if v[0].0 == k && v[0].1 == ts {
        assert(r[0] == (k, ts, val));
        assert(r.skip(1) =~= v.skip(1));
        if !(k2 == k && ts2 == ts) {
        } else {
        }
    } else {
        lemma_slot_lt_asym(v[0].0, v[0].1, k, ts);
        assert(r[0] == (k, ts, val));
        assert(r.skip(1) =~= v);
    }
}

/// What a lookup sees after a deletion: nothing at the deleted address, the
/// old store everywhere else.
pub proof fn lemma_del_get<V>(v: Seq<(Seq<u8>, u64, V)>, k: Seq<u8>, ts: u64, k2: Seq<u8>, ts2: u64)
    ensures
        store_get_spec(store_del_spec(v, k, ts), k2, ts2) == (if k2 == k && ts2 == ts {
            Option::<V>::None
        } else {
            store_get_spec(v, k2, ts2)
        }),
    decreases v.len(),
{
    let r = store_del_spec(v, k, ts);
    if v.len() == 0 {
    } else {
        lemma_del_get(v.skip(1), k, ts, k2, ts2);
        if v[0].0 == k && v[0].1 == ts {
        } else {
            assert(r[0] == v[0]);
            assert(r.skip(1) =~= store_del_spec(v.skip(1), k, ts));
        }
    }
}

/// A put leaves the version lists of every other key unchanged.
pub proof fn lemma_put_versions<V>(
    v: Seq<(Seq<u8>, u64, V)>,
    k: Seq<u8>,
    ts: u64,
    val: V,
    k2: Seq<u8>,
)
    requires
        k2 != k,
    ensures
        key_versions(store_put_spec(v, k, ts, val), k2) == key_versions(v, k2),
    decreases v.len(),
{
    let r = store_put_spec(v, k, ts, val);
    if v.len() == 0 {
        assert(r[0] == (k, ts, val));
        let e = r.skip(1);
        assert(e.len() == 0);
        assert(key_versions(e, k2) == Seq::<(u64, V)>::empty());
        assert(key_versions(r, k2) == key_versions(e, k2));
        assert(key_versions(v, k2) == Seq::<(u64, V)>::empty());
    } else if slot_lt(v[0].0, v[0].1, k, ts) {
        lemma_put_versions(v.skip(1), k, ts, val, k2);
        assert(r[0] == v[0]);
        assert(r.skip(1) =~= store_put_spec(v.skip(1), k, ts, val));
    } else if v[0].0 == k && v[0].1 == ts {
        assert(r[0] == (k, ts, val));
        assert(r.skip(1) =~= v.skip(1));
    } else {
        assert(r[0] == (k, ts, val));
        assert(r.skip(1) =~= v);
    }
}

/// A deletion leaves the version lists of every other key unchanged.
pub proof fn lemma_del_versions<V>(v: Seq<(Seq<u8>, u64, V)>, k: Seq<u8>, ts: u64, k2: Seq<u8>)
    requires
        k2 != k,
    ensures
        key_versions(store_del_spec(v, k, ts), k2) == key_versions(v, k2),
    decreases v.len(),
{
    let r = store_del_spec(v, k, ts);
    if v.len() == 0 {
    } else {
        lemma_del_versions(v.skip(1), k, ts, k2);
        if v[0].0 == k && v[0].1 == ts {
        } else {
            assert(r[0] == v[0]);
            assert(r.skip(1) =~= store_del_spec(v.skip(1), k, ts));
        }
    }
}

/// A put prepends the new version to its own key's version list when it is
/// newer than every version the key already has.
pub proof fn lemma_put_versions_newest<V>(v: Seq<(Seq<u8>, u64, V)>, k: Seq<u8>, ts: u64, val: V)
    requires
        store_sorted(v),
        forall|i: int|
            0 <= i < key_versions(v, k).len() ==> (#[trigger] key_versions(v, k)[i]).0 < ts,
    ensures
        key_versions(store_put_spec(v, k, ts, val), k) == seq![(ts, val)] + key_versions(v, k),
    decreases v.len(),
{
    let r = store_put_spec(v, k, ts, val);
    if v.len() == 0 {
        assert(r[0] == (k, ts, val));
        let e = r.skip(1);
        assert(e.len() == 0);
        assert(key_versions(e, k) == Seq::<(u64, V)>::empty());
        assert(key_versions(r, k) == seq![(ts, val)] + key_versions(e, k));
        assert(key_versions(v, k) == Seq::<(u64, V)>::empty());
        assert(seq![(ts, val)] + key_versions(e, k) =~= seq![(ts, val)] + key_versions(v, k));
    } else if slot_lt(v[0].0, v[0].1, k, ts) {
        assert(store_sorted(v.skip(1))) by {
            assert forall|i: int, j: int| 0 <= i < j < v.skip(1).len() implies slot_lt(
                (#[trigger] v.skip(1)[i]).0,
                v.skip(1)[i].1,
                (#[trigger] v.skip(1)[j]).0,
                v.skip(1)[j].1,
            ) by {
                assert(v.skip(1)[i] == v[i + 1]);
                assert(v.skip(1)[j] == v[j + 1]);
            }
        }
        if v[0].0 == k {
            assert(key_versions(v, k)[0] == (v[0].1, v[0].2));
            assert(key_versions(v, k)[0].0 < ts);
            assert(v[0].1 < ts);
            assert(!slot_lt(v[0].0, v[0].1, k, ts)) by {
                crate::codec::lemma_lex_trichotomy(v[0].0, k);
            }
            assert(false);
        }
        assert(key_versions(v, k) == key_versions(v.skip(1), k));
        lemma_put_versions_newest(v.skip(1), k, ts, val);
        assert(r[0] == v[0]);
        assert(r.skip(1) =~= store_put_spec(v.skip(1), k, ts, val));
        assert(key_versions(r, k) == key_versions(store_put_spec(v.skip(1), k, ts, val), k));
    } else if v[0].0 == k && v[0].1 == ts {
        assert(key_versions(v, k)[0] == (v[0].1, v[0].2));
        assert(key_versions(v, k)[0].0 < ts);
        assert(false);
    } else {
        assert(r[0] == (k, ts, val));
        assert(r.skip(1) =~= v);
        assert(key_versions(r, k) == seq![(ts, val)] + key_versions(v, k));
    }
}

/// A store of values of one kind, sorted in slot order.
pub struct Store<T> {
    pub slots: Vec<Slot<T>>,
}

impl<T: StoreVal> Store<T> {
    /// The mathematical contents.
    pub open spec fn view_seq(&self) -> Seq<(Seq<u8>, u64, T::V)> {
        store_view(self.slots@)
    }

    /// The store invariant: sorted, hence duplicate-free.
    pub open spec fn wf(&self) -> bool {
        store_sorted(self.view_seq())
    }

    /// An empty store.
    pub fn new() -> (r: Store<T>)
        ensures
            r.view_seq() =~= Seq::<(Seq<u8>, u64, T::V)>::empty(),
            r.wf(),
    {
        Store { slots: Vec::new() }
    }

    /// Copies the store.
    pub fn dup(&self) -> (r: Store<T>)
        ensures
            r.view_seq() == self.view_seq(),
    {
        let mut slots: Vec<Slot<T>> = Vec::new();
        let mut i: usize = 0;
        while i < self.slots.len()
            invariant
                0 <= i <= self.slots@.len(),
                slots@.len() == i,
                forall|j: int|
                    0 <= j < i ==> (#[trigger] slots@[j]).key@ == self.slots@[j].key@
                        && slots@[j].ts == self.slots@[j].ts && slots@[j].val@
                        == self.slots@[j].val@,
            decreases self.slots@.len() - i,
        {
            slots.push(self.slots[i].dup());
            i = i + 1;
        }
        let r = Store { slots };
        proof {
            assert(r.view_seq() =~= self.view_seq());
        }
        r
    }

    /// Binds `(key, ts)` to `val`.
    pub fn put(&self, key: &Vec<u8>, ts: u64, val: T) -> (r: Store<T>)
        ensures
            r.view_seq() == store_put_spec(self.view_seq(), key@, ts, val@),
            self.wf() ==> r.wf(),
    {
        proof {
            if self.wf() {
                lemma_put_sorted(self.view_seq(), key@, ts, val@);
            }
        }
        let ghost total = store_put_spec(self.view_seq(), key@, ts, val@);
        let mut out: Vec<Slot<T>> = Vec::new();
        let mut i: usize = 0;
        let len = self.slots.len();
        proof {
            assert(store_view(self.slots@.skip(0)) =~= self.view_seq());
            assert(store_view(out@) + store_put_spec(store_view(self.slots@.skip(0)), key@, ts, val@)
                =~= total);
        }
        while i < len && slot_cmp(&self.slots[i].key, self.slots[i].ts, key, ts) == KeyOrd::Less
            invariant
                0 <= i <= len,
                len == self.slots@.len(),
                total == store_view(out@) + store_put_spec(
                    store_view(self.slots@.skip(i as int)),
                    key@,
                    ts,
                    val@,
                ),
            decreases len - i,
        {
            let ghost tailv = store_view(self.slots@.skip(i as int));
            proof {
                assert(tailv[0] == (self.slots@[i as int].key@, self.slots@[i as int].ts,
                self.slots@[i as int].val@));
                assert(tailv.skip(1) =~= store_view(self.slots@.skip(i + 1)));
            }
            out.push(self.slots[i].dup());
            proof {
                assert(store_view(out@) =~= store_view(out@.take(out@.len() - 1)) + seq![tailv[0]]);
                assert(store_view(out@) + store_put_spec(
                    store_view(self.slots@.skip(i + 1)),
                    key@,
                    ts,
                    val@,
                ) =~= total);
            }
            i = i + 1;
        }
        let ghost tailv = store_view(self.slots@.skip(i as int));
        let start: usize;
        if i < len && slot_cmp(&self.slots[i].key, self.slots[i].ts, key, ts) == KeyOrd::Equal {
            start = i + 1;
            proof {
                assert(tailv[0].0 == key@ && tailv[0].1 == ts);
                assert(store_put_spec(tailv, key@, ts, val@) == seq![(key@, ts, val@)] + tailv.skip(
                    1,
                ));
                crate::store::lemma_slot_lt_asym(tailv[0].0, tailv[0].1, key@, ts);
            }
        } else {
            start = i;
            proof {
                if i < len {
                    crate::store::lemma_slot_lt_asym(tailv[0].0, tailv[0].1, key@, ts);
                    assert(store_put_spec(tailv, key@, ts, val@) == seq![(key@, ts, val@)] + tailv);
                } else {
                    assert(tailv.len() == 0);
                    assert(store_put_spec(tailv, key@, ts, val@) =~= seq![(key@, ts, val@)]);
                }
            }
        }
        let ghost before = out@;
        out.push(Slot { key: crate::kv::clone_bytes(key), ts, val });
        proof {
            assert(store_view(out@) =~= store_view(before) + seq![(key@, ts, val@)]);
            if start == i + 1 {
                assert(tailv.skip(1) =~= store_view(self.slots@.skip(start as int)));
            } else {
                assert(tailv =~= store_view(self.slots@.skip(start as int)));
            }
            assert(total =~= store_view(out@) + store_view(self.slots@.skip(start as int)));
        }
        let mut j = start;
        while j < len
            invariant
                0 <= j <= len,
                len == self.slots@.len(),
                total == store_view(out@) + store_view(self.slots@.skip(j as int)),
            decreases len - j,
        {
            let ghost tv = store_view(self.slots@.skip(j as int));
            proof {
                assert(tv[0] == (self.slots@[j as int].key@, self.slots@[j as int].ts,
                self.slots@[j as int].val@));
                assert(tv.skip(1) =~= store_view(self.slots@.skip(j + 1)));
            }
            out.push(self.slots[j].dup());
            proof {
                assert(store_view(out@) =~= store_view(out@.take(out@.len() - 1)) + seq![tv[0]]);
                assert(total =~= store_view(out@) + store_view(self.slots@.skip(j + 1)));
            }
            j = j + 1;
        }
        let r = Store { slots: out };
        proof {
            assert(store_view(self.slots@.skip(len as int)).len() == 0);
            assert(r.view_seq() =~= total);
        }
        r
    }

    /// Removes the slot at `(key, ts)`, if present.
    pub fn del(&self, key: &Vec<u8>, ts: u64) -> (r: Store<T>)
        ensures
            r.view_seq() == store_del_spec(self.view_seq(), key@, ts),
            self.wf() ==> r.wf(),
    {
        proof {
            if self.wf() {
                lemma_del_sorted(self.view_seq(), key@, ts);
            }
        }
        let ghost total = store_del_spec(self.view_seq(), key@, ts);
        let mut out: Vec<Slot<T>> = Vec::new();
        let mut i: usize = 0;
        let len = self.slots.len();
        proof {
            assert(store_view(self.slots@.skip(0)) =~= self.view_seq());
            assert(store_view(out@) + store_del_spec(store_view(self.slots@.skip(0)), key@, ts)
                =~= total);
        }
        while i < len
            invariant
                0 <= i <= len,
                len == self.slots@.len(),
                total == store_view(out@) + store_del_spec(
                    store_view(self.slots@.skip(i as int)),
                    key@,
                    ts,
                ),
            decreases len - i,
        {
            let ghost tailv = store_view(self.slots@.skip(i as int));
            proof {
                assert(tailv[0] == (self.slots@[i as int].key@, self.slots@[i as int].ts,
                self.slots@[i as int].val@));
                assert(tailv.skip(1) =~= store_view(self.slots@.skip(i + 1)));
            }
            let keep = !(slot_cmp(&self.slots[i].key, self.slots[i].ts, key, ts) == KeyOrd::Equal);
            if keep {
                out.push(self.slots[i].dup());
                proof {
                    assert(store_view(out@) =~= store_view(out@.take(out@.len() - 1)) + seq![
                        tailv[0],
                    ]);
                    assert(total =~= store_view(out@) + store_del_spec(
                        store_view(self.slots@.skip(i + 1)),
                        key@,
                        ts,
                    ));
                }
            } else {
                proof {
                    assert(total =~= store_view(out@) + store_del_spec(
                        store_view(self.slots@.skip(i + 1)),
                        key@,
                        ts,
                    ));
                }
            }
            i = i + 1;
        }
        let r = Store { slots: out };
        proof {
            assert(store_view(self.slots@.skip(len as int)).len() == 0);
            assert(r.view_seq() =~= total);
        }
        r
    }

    /// Removes every slot whose key lies in `[start, end)`.
    pub fn range_del(&self, start: &Vec<u8>, end: &Vec<u8>) -> (r: Store<T>)
        ensures
            r.view_seq() == store_range_del_spec(self.view_seq(), start@, end@),
            self.wf() ==> r.wf(),
    {
        proof {
            if self.wf() {
                lemma_range_del_sorted(self.view_seq(), start@, end@);
            }
        }
        let ghost total = store_range_del_spec(self.view_seq(), start@, end@);
        let mut out: Vec<Slot<T>> = Vec::new();
        let mut i: usize = 0;
        let len = self.slots.len();
        proof {
            assert(store_view(self.slots@.skip(0)) =~= self.view_seq());
            assert(store_view(out@) + store_range_del_spec(
                store_view(self.slots@.skip(0)),
                start@,
                end@,
            ) =~= total);
        }
        while i < len
            invariant
                0 <= i <= len,
                len == self.slots@.len(),
                total == store_view(out@) + store_range_del_spec(
                    store_view(self.slots@.skip(i as int)),
                    start@,
                    end@,
                ),
            decreases len - i,
        {
            let ghost tailv = store_view(self.slots@.skip(i as int));
            proof {
                assert(tailv[0] == (self.slots@[i as int].key@, self.slots@[i as int].ts,
                self.slots@[i as int].val@));
                assert(tailv.skip(1) =~= store_view(self.slots@.skip(i + 1)));
                crate::codec::lemma_lex_trichotomy(start@, self.slots@[i as int].key@);
            }
            let ge_start = !(lex_cmp(&self.slots[i].key, start) == KeyOrd::Less);
            let lt_end = lex_cmp(&self.slots[i].key, end) == KeyOrd::Less;
            if ge_start && lt_end {
                proof {
                    assert(lex_le(start@, tailv[0].0));
                    assert(total =~= store_view(out@) + store_range_del_spec(
                        store_view(self.slots@.skip(i + 1)),
                        start@,
                        end@,
                    ));
                }
            } else {
                out.push(self.slots[i].dup());
                proof {
                    assert(!(lex_le(start@, tailv[0].0) && lex_lt(tailv[0].0, end@)));
                    assert(store_view(out@) =~= store_view(out@.take(out@.len() - 1)) + seq![
                        tailv[0],
                    ]);
                    assert(total =~= store_view(out@) + store_range_del_spec(
                        store_view(self.slots@.skip(i + 1)),
                        start@,
                        end@,
                    ));
                }
            }
            i = i + 1;
        }
        let r = Store { slots: out };
        proof {
            assert(store_view(self.slots@.skip(len as int)).len() == 0);
            assert(r.view_seq() =~= total);
        }
        r
    }

    /// The value at exactly `(key, ts)`.
    pub fn get(&self, key: &Vec<u8>, ts: u64) -> (r: Option<&T>)
        ensures
            match r {
                Option::Some(t) => store_get_spec(self.view_seq(), key@, ts) == Option::Some(t@),
                Option::None => store_get_spec(self.view_seq(), key@, ts) is None,
            },
    {
        let mut i: usize = 0;
        let len = self.slots.len();
        proof {
            assert(store_view(self.slots@.skip(0)) =~= self.view_seq());
        }
        while i < len
            invariant
                0 <= i <= len,
                len == self.slots@.len(),
                store_get_spec(self.view_seq(), key@, ts) == store_get_spec(
                    store_view(self.slots@.skip(i as int)),
                    key@,
                    ts,
                ),
            decreases len - i,
        {
            let ghost tailv = store_view(self.slots@.skip(i as int));
            proof {
                assert(tailv[0] == (self.slots@[i as int].key@, self.slots@[i as int].ts,
                self.slots@[i as int].val@));
                assert(tailv.skip(1) =~= store_view(self.slots@.skip(i + 1)));
            }
            if slot_cmp(&self.slots[i].key, self.slots[i].ts, key, ts) == KeyOrd::Equal {
                return Option::Some(&self.slots[i].val);
            }
            i = i + 1;
        }
        proof {
            assert(store_view(self.slots@.skip(len as int)).len() == 0);
        }
        Option::None
    }

    /// The newest version of `key` at or below `ts`, with its version.
    pub fn seek(&self, key: &Vec<u8>, ts: u64) -> (r: Option<(u64, &T)>)
        ensures
            match r {
                Option::Some((vts, t)) => ver_first_le(key_versions(self.view_seq(), key@), ts)
                    == Option::Some((vts, t@)),
                Option::None => ver_first_le(key_versions(self.view_seq(), key@), ts) is None,
            },
    {
        let mut i: usize = 0;
        let len = self.slots.len();
        proof {
            assert(store_view(self.slots@.skip(0)) =~= self.view_seq());
        }
        while i < len
            invariant
                0 <= i <= len,
                len == self.slots@.len(),
                ver_first_le(key_versions(self.view_seq(), key@), ts) == ver_first_le(
                    key_versions(store_view(self.slots@.skip(i as int)), key@),
                    ts,
                ),
            decreases len - i,
        {
            let ghost tailv = store_view(self.slots@.skip(i as int));
            proof {
                assert(tailv[0] == (self.slots@[i as int].key@, self.slots@[i as int].ts,
                self.slots@[i as int].val@));
                assert(tailv.skip(1) =~= store_view(self.slots@.skip(i + 1)));
            }
            if lex_cmp(&self.slots[i].key, key) == KeyOrd::Equal {
                if self.slots[i].ts <= ts {
                    proof {
                        assert(key_versions(tailv, key@)[0] == (tailv[0].1, tailv[0].2));
                    }
                    return Option::Some((self.slots[i].ts, &self.slots[i].val));
                }
                proof {
                    assert(key_versions(tailv, key@) == seq![(tailv[0].1, tailv[0].2)]
                        + key_versions(tailv.skip(1), key@));
                    assert(key_versions(tailv, key@)[0].0 > ts);
                    assert(key_versions(tailv, key@).skip(1) =~= key_versions(
                        tailv.skip(1),
                        key@,
                    ));
                }
            } else {
                proof {
                    assert(key_versions(tailv, key@) == key_versions(tailv.skip(1), key@));
                }
            }
            i = i + 1;
        }
        proof {
            assert(store_view(self.slots@.skip(len as int)).len() == 0);
        }
        Option::None
    }
}

} // verus!
