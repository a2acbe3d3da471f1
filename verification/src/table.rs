//! A bounded per-mint table kept in ascending key order, so walking it visits the
//! mints in the same deterministic order every run. Each lane keeps its
//! per-mint evidence in one of these and evicts its weakest entry at capacity
//! (fewest by the lane's own weight, ties by the smaller key).

use vstd::prelude::*;

use crate::holder_flow::{key_eq, key_less, key_lt, lemma_key_lt_strict, lemma_key_lt_total};
use crate::keyed::{keyed_get, keyed_has, keys_distinct, lemma_keyed_at, lemma_keyed_remove, lemma_keyed_update};

verus! {

/// One entry of a table: a mint key and its value.
#[derive(Clone, Copy, Debug, PartialEq, Eq)]
pub struct Slot<V> {
    /// The mint.
    pub key: [u8; 32],
    /// What the table holds for it.
    pub val: V,
}

/// The key of a slot.
pub open spec fn slot_key<V>() -> spec_fn(Slot<V>) -> [u8; 32] {
    |s: Slot<V>| s.key
}

/// Keys strictly ascend along the sequence.
pub open spec fn keys_ascend<V>(s: Seq<Slot<V>>) -> bool {
    forall|i: int, j: int| 0 <= i < j < s.len() ==> key_lt(#[trigger] s[i].key, #[trigger] s[j].key)
}

/// The value held for `k` in the slot sequence, if any.
pub open spec fn slots_get<V>(s: Seq<Slot<V>>, k: [u8; 32]) -> Option<V> {
    match keyed_get(s, slot_key::<V>(), k) {
        Some(slot) => Some(slot.val),
        None => None,
    }
}

/// Ascending keys are distinct keys.
pub proof fn lemma_ascend_distinct<V>(s: Seq<Slot<V>>)
    requires
        keys_ascend(s),
    ensures
        keys_distinct(s, slot_key::<V>()),
{
    assert forall|i: int, j: int|
        0 <= i < s.len() && 0 <= j < s.len() && i != j implies #[trigger] slot_key::<V>()(s[i]) != #[trigger] slot_key::<V>()(
        s[j],
    ) by {
        lemma_key_lt_strict(s[i].key, s[j].key, s[i].key);
        if i < j {
            assert(key_lt(s[i].key, s[j].key));
        } else {
            assert(key_lt(s[j].key, s[i].key));
        }
    }
}

/// A weight by which a table's weakest entry is chosen for eviction.
pub trait EvictionWeight {
    /// The weight.
    spec fn spec_weight(&self) -> u64;

    /// The weight, computed.
    fn weight(&self) -> (w: u64)
        ensures
            w == self.spec_weight(),
    ;
}

/// The effect of writing `val` for `k` into a table bounded by `cap`: `k` maps to
/// `val`; when `k` was present or there was room, nothing else changes (and a new
/// key adds one entry); when `k` was new and the table full, the eviction victim
/// is dropped first and nothing else changes.
pub open spec fn upserted<V: EvictionWeight>(old: KeyTable<V>, new: KeyTable<V>, k: [u8; 32], val: V, cap: nat) -> bool {
    &&& new.get(k) == Some(val)
    &&& (old.get(k) is Some || old.entries().len() < cap) ==> {
        &&& new.entries().len() == old.entries().len() + (if old.get(k) is Some { 0nat } else { 1nat })
        &&& forall|kk: [u8; 32]| kk != k ==> #[trigger] new.get(kk) == old.get(kk)
    }
    &&& (old.get(k) is None && old.entries().len() >= cap) ==> exists|v: [u8; 32]| {
        &&& #[trigger] old.is_eviction_victim(v)
        &&& new.get(v) is None
        &&& new.entries().len() == old.entries().len()
        &&& forall|kk: [u8; 32]| kk != k && kk != v ==> #[trigger] new.get(kk) == old.get(kk)
    }
}

/// The value `k` starts from in an update: what the table held, else `fresh`.
pub open spec fn prior_or<V>(t: KeyTable<V>, k: [u8; 32], fresh: V) -> V {
    match t.get(k) {
        Some(v) => v,
        None => fresh,
    }
}

/// A table of per-mint values, ascending by key.
#[derive(Clone, Debug)]
pub struct KeyTable<V> {
    slots: Vec<Slot<V>>,
}

impl<V> KeyTable<V> {
    /// The entries, ascending by key.
    pub closed spec fn entries(&self) -> Seq<Slot<V>> {
        self.slots@
    }

    /// The value held for `k`, if any.
    pub open spec fn get(&self, k: [u8; 32]) -> Option<V> {
        slots_get(self.entries(), k)
    }

    /// Well-formedness: keys strictly ascend.
    pub open spec fn wf(&self) -> bool {
        keys_ascend(self.entries())
    }

    /// Whether `v` is the entry eviction picks: the smallest weight, ties by the
    /// smaller key.
    pub open spec fn is_eviction_victim(&self, v: [u8; 32]) -> bool where V: EvictionWeight {
        &&& self.get(v) is Some
        &&& forall|k: [u8; 32]| #[trigger] self.get(k) is Some && k != v ==> {
            ||| self.get(v)->Some_0.spec_weight() < self.get(k)->Some_0.spec_weight()
            ||| self.get(v)->Some_0.spec_weight() == self.get(k)->Some_0.spec_weight() && key_lt(v, k)
        }
    }

    /// An empty table.
    pub fn new() -> (t: Self)
        ensures
            t.wf(),
            t.entries() == Seq::<Slot<V>>::empty(),
    {
        KeyTable { slots: Vec::new() }
    }

    /// Number of entries.
    pub fn len(&self) -> (n: usize)
        ensures
            n == self.entries().len(),
    {
        self.slots.len()
    }

    /// The slot at position `i`.
    pub fn at(&self, i: usize) -> (s: &Slot<V>)
        requires
            i < self.entries().len(),
        ensures
            *s == self.entries()[i as int],
    {
        &self.slots[i]
    }

    /// The position of `k`, if present.
    pub fn find(&self, k: &[u8; 32]) -> (r: Option<usize>)
        requires
            self.wf(),
        ensures
            match r {
                Some(i) => i < self.entries().len() && self.entries()[i as int].key == *k && self.get(*k)
                    == Some(self.entries()[i as int].val),
                None => self.get(*k) is None,
            },
    {
        let mut i: usize = 0;
        while i < self.slots.len()
            invariant
                self.wf(),
                i <= self.slots@.len(),
                forall|j: int| 0 <= j < i ==> #[trigger] self.slots@[j].key != *k,
            decreases self.slots@.len() - i,
        {
            if key_eq(&self.slots[i].key, k) {
                proof {
                    lemma_ascend_distinct(self.slots@);
                    lemma_keyed_at(self.slots@, slot_key::<V>(), i as int);
                }
                return Some(i);
            }
            i += 1;
        }
        proof {
            if keyed_has(self.slots@, slot_key::<V>(), *k) {
                let j = choose|j: int| 0 <= j < self.slots@.len() && #[trigger] slot_key::<V>()(self.slots@[j]) == *k;
                assert(self.slots@[j].key != *k);
            }
        }
        None
    }

    /// Replace the value at position `i`, keeping its key.
    pub fn set_val(&mut self, i: usize, v: V)
        requires
            old(self).wf(),
            i < old(self).entries().len(),
        ensures
            final(self).wf(),
            final(self).entries() == old(self).entries().update(i as int, Slot { key: old(self).entries()[i as int].key, val: v }),
            final(self).get(old(self).entries()[i as int].key) == Some(v),
            forall|k: [u8; 32]| k != old(self).entries()[i as int].key ==> #[trigger] final(self).get(k) == old(self).get(k),
    {
        let key = self.slots[i].key;
        let ghost before = self.slots@;
        let x = Slot { key, val: v };
        proof {
            lemma_ascend_distinct(before);
            lemma_keyed_update(before, slot_key::<V>(), i as int, x);
        }
        self.slots.set(i, x);
        proof {
            assert(self.slots@ == before.update(i as int, x));
            assert forall|a: int, b: int| 0 <= a < b < self.slots@.len() implies key_lt(
                #[trigger] self.slots@[a].key,
                #[trigger] self.slots@[b].key,
            ) by {
                assert(self.slots@[a].key == before[a].key);
                assert(self.slots@[b].key == before[b].key);
            }
            lemma_ascend_distinct(self.slots@);
            lemma_keyed_at(self.slots@, slot_key::<V>(), i as int);
            assert forall|k: [u8; 32]| k != before[i as int].key implies #[trigger] slots_get(self.slots@, k) == slots_get(before, k) by {
                assert(keyed_get(self.slots@, slot_key::<V>(), k) == keyed_get(before, slot_key::<V>(), k));
            }
        }
    }

    /// Swap the value at position `i` for `v`, keeping its key; returns the value
    /// that was there.
    pub fn replace_val(&mut self, i: usize, v: V) -> (prev: V)
        requires
            old(self).wf(),
            i < old(self).entries().len(),
        ensures
            final(self).wf(),
            prev == old(self).entries()[i as int].val,
            final(self).entries() == old(self).entries().update(i as int, Slot { key: old(self).entries()[i as int].key, val: v }),
            final(self).get(old(self).entries()[i as int].key) == Some(v),
            forall|k: [u8; 32]| k != old(self).entries()[i as int].key ==> #[trigger] final(self).get(k) == old(self).get(k),
    {
        let ghost before = self.slots@;
        let ghost x = Slot { key: before[i as int].key, val: v };
        proof {
            lemma_ascend_distinct(before);
            lemma_keyed_update(before, slot_key::<V>(), i as int, x);
        }
        let mut tmp = v;
        std::mem::swap(&mut self.slots[i].val, &mut tmp);
        proof {
            assert(self.slots@ =~= before.update(i as int, x));
            assert forall|a: int, b: int| 0 <= a < b < self.slots@.len() implies key_lt(
                #[trigger] self.slots@[a].key,
                #[trigger] self.slots@[b].key,
            ) by {
                assert(self.slots@[a].key == before[a].key);
                assert(self.slots@[b].key == before[b].key);
            }
            lemma_ascend_distinct(self.slots@);
            lemma_keyed_at(self.slots@, slot_key::<V>(), i as int);
            assert forall|k: [u8; 32]| k != before[i as int].key implies #[trigger] slots_get(self.slots@, k) == slots_get(before, k) by {
                assert(keyed_get(self.slots@, slot_key::<V>(), k) == keyed_get(before, slot_key::<V>(), k));
            }
        }
        tmp
    }

    /// Remove the entry at position `i`.
    pub fn remove_at(&mut self, i: usize)
        requires
            old(self).wf(),
            i < old(self).entries().len(),
        ensures
            final(self).wf(),
            final(self).entries() == old(self).entries().remove(i as int),
            final(self).get(old(self).entries()[i as int].key) is None,
            forall|k: [u8; 32]| k != old(self).entries()[i as int].key ==> #[trigger] final(self).get(k) == old(self).get(k),
    {
        let ghost before = self.slots@;
        proof {
            lemma_ascend_distinct(before);
            lemma_keyed_remove(before, slot_key::<V>(), i as int);
        }
        self.slots.remove(i);
        proof {
            assert forall|a: int, b: int| 0 <= a < b < self.slots@.len() implies key_lt(
                #[trigger] self.slots@[a].key,
                #[trigger] self.slots@[b].key,
            ) by {
                let a2 = if a < i { a } else { a + 1 };
                let b2 = if b < i { b } else { b + 1 };
                assert(self.slots@[a] == before[a2]);
                assert(self.slots@[b] == before[b2]);
            }
            assert(keyed_get(self.slots@, slot_key::<V>(), before[i as int].key) is None);
            assert forall|k: [u8; 32]| k != before[i as int].key implies #[trigger] slots_get(self.slots@, k) == slots_get(before, k) by {
                assert(keyed_get(self.slots@, slot_key::<V>(), k) == keyed_get(before, slot_key::<V>(), k));
            }
        }
    }

    /// Insert `v` for a key not yet present, at its place in key order; returns the
    /// position it landed at.
    pub fn insert_new(&mut self, k: [u8; 32], v: V) -> (p: usize)
        requires
            old(self).wf(),
            old(self).get(k) is None,
        ensures
            final(self).wf(),
            p <= old(self).entries().len(),
            p < final(self).entries().len(),
            final(self).entries() == old(self).entries().insert(p as int, Slot { key: k, val: v }),
            final(self).get(k) == Some(v),
            forall|kk: [u8; 32]| kk != k ==> #[trigger] final(self).get(kk) == old(self).get(kk),
    {
        let ghost before = self.slots@;
        let mut p: usize = 0;
        while p < self.slots.len() && !key_less(&k, &self.slots[p].key)
            invariant
                p <= self.slots@.len(),
                self.slots@ == before,
                keys_ascend(before),
                slots_get(before, k) is None,
                forall|j: int| 0 <= j < p ==> key_lt(#[trigger] before[j].key, k),
            decreases self.slots@.len() - p,
        {
            proof {
                if before[p as int].key == k {
                    lemma_ascend_distinct(before);
                    lemma_keyed_at(before, slot_key::<V>(), p as int);
                }
                lemma_key_lt_total(before[p as int].key, k);
            }
            p += 1;
        }
        let x = Slot { key: k, val: v };
        self.slots.insert(p, x);
        proof {
            let s = self.slots@;
            assert(s == before.insert(p as int, x));
            assert forall|a: int, b: int| 0 <= a < b < s.len() implies key_lt(#[trigger] s[a].key, #[trigger] s[b].key) by {
                if b == p {
                    assert(s[a] == before[a]);
                } else if a == p {
                    assert(s[b] == before[b - 1]);
                    assert(key_lt(k, before[p as int].key));
                    if b - 1 > p {
                        lemma_key_lt_strict(k, before[p as int].key, before[b - 1].key);
                    }
                } else {
                    let a2 = if a < p { a } else { a - 1 };
                    let b2 = if b < p { b } else { b - 1 };
                    assert(s[a] == before[a2]);
                    assert(s[b] == before[b2]);
                    if a < p && b > p {
                        assert(key_lt(before[a2].key, k));
                        assert(key_lt(k, before[p as int].key));
                        lemma_key_lt_strict(before[a2].key, k, before[p as int].key);
                        if b2 > p {
                            lemma_key_lt_strict(before[a2].key, before[p as int].key, before[b2].key);
                        }
                    }
                }
            }
            lemma_ascend_distinct(s);
            lemma_keyed_at(s, slot_key::<V>(), p as int);
            assert forall|kk: [u8; 32]| kk != k implies #[trigger] slots_get(s, kk) == slots_get(before, kk) by {
                lemma_ascend_distinct(before);
                if keyed_has(before, slot_key::<V>(), kk) {
                    let j = choose|j: int| 0 <= j < before.len() && #[trigger] slot_key::<V>()(before[j]) == kk;
                    lemma_keyed_at(before, slot_key::<V>(), j);
                    let j2 = if j < p { j } else { j + 1 };
                    assert(s[j2] == before[j]);
                    lemma_keyed_at(s, slot_key::<V>(), j2);
                } else if keyed_has(s, slot_key::<V>(), kk) {
                    let j = choose|j: int| 0 <= j < s.len() && #[trigger] slot_key::<V>()(s[j]) == kk;
                    assert(j != p);
                    let j2 = if j < p { j } else { j - 1 };
                    assert(s[j] == before[j2]);
                    assert(slot_key::<V>()(before[j2]) == kk);
                }
            }
        }
        p
    }

    /// Make `k` present, with its current value or `fresh`, evicting the weakest
    /// entry first when `k` is new and the table holds `cap` or more; returns its
    /// position.
    pub fn prepare(&mut self, k: &[u8; 32], cap: usize, fresh: V) -> (p: usize)
        where V: EvictionWeight,
        requires
            old(self).wf(),
            cap >= 1,
        ensures
            final(self).wf(),
            p < final(self).entries().len(),
            final(self).entries()[p as int].key == *k,
            final(self).entries()[p as int].val == prior_or(*old(self), *k, fresh),
            upserted(*old(self), *final(self), *k, prior_or(*old(self), *k, fresh), cap as nat),
    {
        match self.find(k) {
            Some(i) => {
                proof {
                    assert(prior_or(*self, *k, fresh) == self.entries()[i as int].val);
                }
                i
            },
            None => {
                let ghost o = *self;
                if self.slots.len() >= cap {
                    self.evict_weakest();
                }
                let ghost mid = *self;
                let p = self.insert_new(*k, fresh);
                proof {
                    mid.entries().insert_ensures(p as int, Slot { key: *k, val: fresh });
                    assert(self.entries()[p as int] == (Slot { key: *k, val: fresh }));
                    assert(prior_or(o, *k, fresh) == fresh);
                    if o.entries().len() >= cap {
                        let v = choose|v: [u8; 32]| {
                            &&& #[trigger] o.is_eviction_victim(v)
                            &&& mid.get(v) is None
                            &&& mid.entries().len() == o.entries().len() - 1
                            &&& forall|kk: [u8; 32]| kk != v ==> #[trigger] mid.get(kk) == o.get(kk)
                        };
                        assert(self.get(v) is None);
                        assert forall|kk: [u8; 32]| kk != *k && kk != v implies #[trigger] self.get(kk) == o.get(kk) by {
                            assert(mid.get(kk) == o.get(kk));
                        }
                    }
                }
                p
            },
        }
    }

    /// Evict the weakest entry (smallest weight, ties by the smaller key); a no-op
    /// on an empty table.
    pub fn evict_weakest(&mut self)
        where V: EvictionWeight,
        requires
            old(self).wf(),
        ensures
            final(self).wf(),
            old(self).entries().len() == 0 ==> final(self).entries() == old(self).entries(),
            old(self).entries().len() > 0 ==> exists|v: [u8; 32]| {
                &&& #[trigger] old(self).is_eviction_victim(v)
                &&& final(self).get(v) is None
                &&& final(self).entries().len() == old(self).entries().len() - 1
                &&& forall|k: [u8; 32]| k != v ==> #[trigger] final(self).get(k) == old(self).get(k)
            },
    {
        if self.slots.len() == 0 {
            return;
        }
        let mut best: usize = 0;
        let mut bw: u64 = self.slots[0].val.weight();
        let mut i: usize = 1;
        while i < self.slots.len()
            invariant
                keys_ascend(self.slots@),
                1 <= i <= self.slots@.len(),
                best < i,
                bw == self.slots@[best as int].val.spec_weight(),
                forall|j: int| 0 <= j < i && j != best ==> {
                    ||| bw < (#[trigger] self.slots@[j]).val.spec_weight()
                    ||| bw == self.slots@[j].val.spec_weight() && key_lt(self.slots@[best as int].key, self.slots@[j].key)
                },
            decreases self.slots@.len() - i,
        {
            let w = self.slots[i].val.weight();
            if w < bw {
                best = i;
                bw = w;
            }
            i += 1;
        }
        let ghost before = self.slots@;
        let ghost v = before[best as int].key;
        proof {
            lemma_ascend_distinct(before);
            lemma_keyed_at(before, slot_key::<V>(), best as int);
            assert forall|k: [u8; 32]| #[trigger] slots_get(before, k) is Some && k != v implies {
                ||| slots_get(before, v)->Some_0.spec_weight() < slots_get(before, k)->Some_0.spec_weight()
                ||| slots_get(before, v)->Some_0.spec_weight() == slots_get(before, k)->Some_0.spec_weight() && key_lt(v, k)
            } by {
                let j = choose|j: int| 0 <= j < before.len() && #[trigger] slot_key::<V>()(before[j]) == k;
                lemma_keyed_at(before, slot_key::<V>(), j);
                assert(j != best);
            }
            assert(self.is_eviction_victim(v));
        }
        self.remove_at(best);
    }
}

} // verus!

verus! {

/// Writing a value at the position `prepare` returned completes an update: the
/// table after `prepare` then `set_val` is `upserted` from the table before, with
/// the written value.
pub proof fn lemma_prepare_then_set<V: EvictionWeight>(
    old: KeyTable<V>,
    mid: KeyTable<V>,
    new: KeyTable<V>,
    k: [u8; 32],
    fresh: V,
    val: V,
    cap: nat,
)
    requires
        upserted(old, mid, k, prior_or(old, k, fresh), cap),
        new.get(k) == Some(val),
        new.entries().len() == mid.entries().len(),
        forall|kk: [u8; 32]| kk != k ==> #[trigger] new.get(kk) == mid.get(kk),
    ensures
        upserted(old, new, k, val, cap),
{
    if old.get(k) is None && old.entries().len() >= cap {
        let v = choose|v: [u8; 32]| {
            &&& #[trigger] old.is_eviction_victim(v)
            &&& mid.get(v) is None
            &&& mid.entries().len() == old.entries().len()
            &&& forall|kk: [u8; 32]| kk != k && kk != v ==> #[trigger] mid.get(kk) == old.get(kk)
        };
        assert(v != k);
        assert(new.get(v) is None);
        assert forall|kk: [u8; 32]| kk != k && kk != v implies #[trigger] new.get(kk) == old.get(kk) by {
            assert(new.get(kk) == mid.get(kk));
        }
    } else {
        assert forall|kk: [u8; 32]| kk != k implies #[trigger] new.get(kk) == old.get(kk) by {
            assert(new.get(kk) == mid.get(kk));
        }
    }
}

} // verus!
