//! The striped latch table: each slot guards the hashed bucket of keys that
//! map to it.  A command acquires the slots of all its keys at once or not
//! at all, so two write commands sharing a key can never run together.

use vstd::prelude::*;

use crate::kv::{fnv_hash, Key};

verus! {

/// The slot a key hashes to in a table of `n` slots.
pub open spec fn slot_index(n: int, k: Seq<u8>) -> int {
    fnv_hash(k) as int % n
}

/// The latch table: the owning command of each slot, if any.
pub struct Latches {
    pub slots: Vec<Option<u64>>,
}

impl Latches {
    /// The command holds every slot in the list.
    pub open spec fn holds_all(&self, cmd: u64, slots: Seq<usize>) -> bool {
        forall|i: int|
            0 <= i < slots.len() ==> self.slots@[(#[trigger] slots[i]) as int] == Option::Some(cmd)
    }

    /// No slot is held by anyone.
    pub open spec fn all_free(&self) -> bool {
        forall|i: int| 0 <= i < self.slots@.len() ==> (#[trigger] self.slots@[i]) is None
    }

    /// All listed slots are in bounds.
    pub open spec fn slots_ok(&self, slots: Seq<usize>) -> bool {
        forall|i: int| 0 <= i < slots.len() ==> (#[trigger] slots[i]) < self.slots@.len()
    }

    /// Builds a table of `count` free slots.
    pub fn new(count: usize) -> (r: Latches)
        requires
            count > 0,
        ensures
            r.slots@.len() == count,
            forall|i: int| 0 <= i < count ==> (#[trigger] r.slots@[i]) is None,
    {
        let mut slots: Vec<Option<u64>> = Vec::new();
        let mut i: usize = 0;
        while i < count
            invariant
                0 <= i <= count,
                slots@.len() == i,
                forall|j: int| 0 <= j < i ==> (#[trigger] slots@[j]) is None,
            decreases count - i,
        {
            slots.push(Option::None);
            i = i + 1;
        }
        Latches { slots }
    }

    /// The slot `key` belongs to.
    pub fn slot_of(&self, key: &Key) -> (r: usize)
        requires
            self.slots@.len() > 0,
        ensures
            r == slot_index(self.slots@.len() as int, key@),
            r < self.slots@.len(),
    {
        let h = key.gen_hash();
        (h % (self.slots.len() as u64)) as usize
    }

    /// Tries to take every listed slot for `cmd` at once: all of them when
    /// each is free or already owned by `cmd`, none otherwise.
    pub fn acquire_all(&mut self, cmd: u64, slots: &Vec<usize>) -> (r: bool)
        requires
            old(self).slots_ok(slots@),
        ensures
            final(self).slots@.len() == old(self).slots@.len(),
            r ==> final(self).holds_all(cmd, slots@),
            r ==> forall|i: int|
                0 <= i < old(self).slots@.len() && !slots@.contains(i as usize) ==> (#[trigger] final(self).slots@[i]) == old(self).slots@[i],
            !r ==> *final(self) == *old(self) && exists|i: int|
                0 <= i < slots@.len() && (#[trigger] old(self).slots@[slots@[i] as int]) is Some
                    && old(self).slots@[slots@[i] as int] != Option::Some(cmd),
    {
        let mut i: usize = 0;
        let n = slots.len();
        while i < n
            invariant
                0 <= i <= n,
                n == slots@.len(),
                *self == *old(self),
                old(self).slots_ok(slots@),
                forall|j: int|
                    0 <= j < i ==> (#[trigger] old(self).slots@[slots@[j] as int]) is None || old(
                        self,
                    ).slots@[slots@[j] as int] == Option::Some(cmd),
            decreases n - i,
        {
            let s = slots[i];
            match self.slots[s] {
                Option::None => {},
                Option::Some(owner) => {
                    if owner != cmd {
                        return false;
                    }
                },
            }
            i = i + 1;
        }
        let mut j: usize = 0;
        while j < n
            invariant
                0 <= j <= n,
                n == slots@.len(),
                self.slots@.len() == old(self).slots@.len(),
                old(self).slots_ok(slots@),
                forall|x: int|
                    0 <= x < j ==> self.slots@[(#[trigger] slots@[x]) as int] == Option::Some(cmd),
                forall|i2: int|
                    0 <= i2 < self.slots@.len() && !slots@.contains(i2 as usize)
                        ==> self.slots@[i2] == old(self).slots@[i2],
            decreases n - j,
        {
            let s = slots[j];
            self.slots.set(s, Option::Some(cmd));
            proof {
                assert(slots@.contains(s)) by {
                    assert(slots@[j as int] == s);
                }
            }
            j = j + 1;
        }
        true
    }

    /// Releases every listed slot the command owns.
    pub fn release_all(&mut self, cmd: u64, slots: &Vec<usize>)
        requires
            old(self).slots_ok(slots@),
        ensures
            final(self).slots@.len() == old(self).slots@.len(),
            forall|i: int|
                0 <= i < old(self).slots@.len() && !slots@.contains(i as usize) ==> (#[trigger] final(self).slots@[i]) == old(self).slots@[i],
            forall|i: int|
                0 <= i < slots@.len() && old(self).slots@[(#[trigger] slots@[i]) as int]
                    == Option::Some(cmd) ==> final(self).slots@[slots@[i] as int] is None,
    {
        let mut j: usize = 0;
        let n = slots.len();
        while j < n
            invariant
                0 <= j <= n,
                n == slots@.len(),
                self.slots@.len() == old(self).slots@.len(),
                old(self).slots_ok(slots@),
                forall|i: int|
                    0 <= i < self.slots@.len() && !slots@.contains(i as usize) ==> self.slots@[i]
                        == old(self).slots@[i],
                forall|i: int|
                    0 <= i < self.slots@.len() ==> self.slots@[i] == old(self).slots@[i] || (
                    #[trigger] self.slots@[i]) is None,
                forall|x: int|
                    0 <= x < j && old(self).slots@[(#[trigger] slots@[x]) as int] == Option::Some(
                        cmd,
                    ) ==> self.slots@[slots@[x] as int] is None,
            decreases n - j,
        {
            let s = slots[j];
            let clear = match self.slots[s] {
                Option::Some(owner) => owner == cmd,
                Option::None => false,
            };
            if clear {
                self.slots.set(s, Option::None);
            }
            proof {
                assert(slots@.contains(s)) by {
                    assert(slots@[j as int] == s);
                }
            }
            j = j + 1;
        }
    }
}

/// Latch exclusivity: two different commands that each hold all their
/// latch slots can share no slot, and therefore no key.
pub proof fn lemma_latch_exclusivity(l: Latches, a: u64, b: u64, sa: Seq<usize>, sb: Seq<usize>)
    requires
        a != b,
        l.holds_all(a, sa),
        l.holds_all(b, sb),
    ensures
        forall|i: int, j: int| 0 <= i < sa.len() && 0 <= j < sb.len() ==> sa[i] != sb[j],
{
    assert forall|i: int, j: int| 0 <= i < sa.len() && 0 <= j < sb.len() implies sa[i] != sb[j] by {
        if sa[i] == sb[j] {
            assert(l.slots@[sa[i] as int] == Option::Some(a));
            assert(l.slots@[sb[j] as int] == Option::Some(b));
        }
    }
}

/// Two write commands that share a key map it to the same slot; with
/// exclusive slot ownership they can never both hold their latches.
pub proof fn lemma_shared_key_never_concurrent(
    l: Latches,
    a: u64,
    b: u64,
    sa: Seq<usize>,
    sb: Seq<usize>,
    k: Seq<u8>,
    ia: int,
    ib: int,
)
    requires
        a != b,
        0 <= ia < sa.len(),
        0 <= ib < sb.len(),
        sa[ia] == slot_index(l.slots@.len() as int, k),
        sb[ib] == slot_index(l.slots@.len() as int, k),
        l.holds_all(a, sa),
    ensures
        !l.holds_all(b, sb),
{
    if l.holds_all(b, sb) {
        lemma_latch_exclusivity(l, a, b, sa, sb);
    }
}

} // verus!
