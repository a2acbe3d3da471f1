//! Keyed tables held as sequences with distinct keys: what the table maps
//! a key to, and how that mapping changes when an entry is updated in place,
//! removed or appended. Every bounded per-mint plane in the crate is one of these.

use vstd::prelude::*;

verus! {

/// No two entries share a key.
pub open spec fn keys_distinct<T, K>(s: Seq<T>, key: spec_fn(T) -> K) -> bool {
    forall|i: int, j: int|
        0 <= i < s.len() && 0 <= j < s.len() && i != j ==> #[trigger] key(s[i]) != #[trigger] key(s[j])
}

/// Whether some entry carries key `k`.
pub open spec fn keyed_has<T, K>(s: Seq<T>, key: spec_fn(T) -> K, k: K) -> bool {
    exists|i: int| 0 <= i < s.len() && #[trigger] key(s[i]) == k
}

/// The entry carrying key `k`, if any.
pub open spec fn keyed_get<T, K>(s: Seq<T>, key: spec_fn(T) -> K, k: K) -> Option<T> {
    if keyed_has(s, key, k) {
        Some(s[choose|i: int| 0 <= i < s.len() && #[trigger] key(s[i]) == k])
    } else {
        None
    }
}

/// An entry is what the table maps its key to.
pub proof fn lemma_keyed_at<T, K>(s: Seq<T>, key: spec_fn(T) -> K, i: int)
    requires
        keys_distinct(s, key),
        0 <= i < s.len(),
    ensures
        keyed_has(s, key, key(s[i])),
        keyed_get(s, key, key(s[i])) == Some(s[i]),
{
    let k = key(s[i]);
    assert(keyed_has(s, key, k));
    let c = choose|c: int| 0 <= c < s.len() && #[trigger] key(s[c]) == k;
    if c != i {
        assert(key(s[c]) != key(s[i]));
    }
}

/// Replacing an entry in place (same key) changes only that key's mapping.
pub proof fn lemma_keyed_update<T, K>(s: Seq<T>, key: spec_fn(T) -> K, i: int, x: T)
    requires
        keys_distinct(s, key),
        0 <= i < s.len(),
        key(s[i]) == key(x),
    ensures
        keys_distinct(s.update(i, x), key),
        forall|k: K| #[trigger] keyed_get(s.update(i, x), key, k) == (if k == key(x) {
            Some(x)
        } else {
            keyed_get(s, key, k)
        }),
{
    let t = s.update(i, x);
    assert forall|a: int, b: int|
        0 <= a < t.len() && 0 <= b < t.len() && a != b implies #[trigger] key(t[a]) != #[trigger] key(t[b]) by {
        assert(key(t[a]) == key(s[a]));
        assert(key(t[b]) == key(s[b]));
    }
    assert forall|k: K| #[trigger] keyed_get(t, key, k) == (if k == key(x) {
        Some(x)
    } else {
        keyed_get(s, key, k)
    }) by {
        if k == key(x) {
            lemma_keyed_at(t, key, i);
        } else if keyed_has(s, key, k) {
            let j = choose|j: int| 0 <= j < s.len() && #[trigger] key(s[j]) == k;
            lemma_keyed_at(s, key, j);
            assert(t[j] == s[j]);
            lemma_keyed_at(t, key, j);
        } else if keyed_has(t, key, k) {
            let j = choose|j: int| 0 <= j < t.len() && #[trigger] key(t[j]) == k;
            assert(t[j] == s[j]);
        }
    }
}

/// Removing an entry unmaps exactly its key.
pub proof fn lemma_keyed_remove<T, K>(s: Seq<T>, key: spec_fn(T) -> K, i: int)
    requires
        keys_distinct(s, key),
        0 <= i < s.len(),
    ensures
        keys_distinct(s.remove(i), key),
        forall|k: K| #[trigger] keyed_get(s.remove(i), key, k) == (if k == key(s[i]) {
            None
        } else {
            keyed_get(s, key, k)
        }),
{
    let t = s.remove(i);
    assert forall|a: int, b: int|
        0 <= a < t.len() && 0 <= b < t.len() && a != b implies #[trigger] key(t[a]) != #[trigger] key(t[b]) by {
        let a2 = if a < i { a } else { a + 1 };
        let b2 = if b < i { b } else { b + 1 };
        assert(t[a] == s[a2]);
        assert(t[b] == s[b2]);
    }
    assert forall|k: K| #[trigger] keyed_get(t, key, k) == (if k == key(s[i]) {
        None
    } else {
        keyed_get(s, key, k)
    }) by {
        if keyed_has(t, key, k) {
            let j = choose|j: int| 0 <= j < t.len() && #[trigger] key(t[j]) == k;
            let j2 = if j < i { j } else { j + 1 };
            assert(t[j] == s[j2]);
            lemma_keyed_at(t, key, j);
            lemma_keyed_at(s, key, j2);
        } else if k != key(s[i]) && keyed_has(s, key, k) {
            let j = choose|j: int| 0 <= j < s.len() && #[trigger] key(s[j]) == k;
            let j2 = if j < i { j } else { j - 1 };
            assert(t[j2] == s[j]);
        }
    }
}

/// Appending an entry with a fresh key maps exactly that key.
pub proof fn lemma_keyed_push<T, K>(s: Seq<T>, key: spec_fn(T) -> K, x: T)
    requires
        keys_distinct(s, key),
        !keyed_has(s, key, key(x)),
    ensures
        keys_distinct(s.push(x), key),
        forall|k: K| #[trigger] keyed_get(s.push(x), key, k) == (if k == key(x) {
            Some(x)
        } else {
            keyed_get(s, key, k)
        }),
{
    let t = s.push(x);
    assert forall|a: int, b: int|
        0 <= a < t.len() && 0 <= b < t.len() && a != b implies #[trigger] key(t[a]) != #[trigger] key(t[b]) by {
        if a < s.len() {
            assert(t[a] == s[a]);
        }
        if b < s.len() {
            assert(t[b] == s[b]);
        }
    }
    assert forall|k: K| #[trigger] keyed_get(t, key, k) == (if k == key(x) {
        Some(x)
    } else {
        keyed_get(s, key, k)
    }) by {
        if k == key(x) {
            lemma_keyed_at(t, key, s.len() as int);
        } else if keyed_has(s, key, k) {
            let j = choose|j: int| 0 <= j < s.len() && #[trigger] key(s[j]) == k;
            lemma_keyed_at(s, key, j);
            assert(t[j] == s[j]);
            lemma_keyed_at(t, key, j);
        } else if keyed_has(t, key, k) {
            let j = choose|j: int| 0 <= j < t.len() && #[trigger] key(t[j]) == k;
            assert(j < s.len());
            assert(t[j] == s[j]);
        }
    }
}

} // verus!
