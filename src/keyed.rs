//! Sequences used as maps: each element carries a key, and keys are unique.
use vstd::prelude::*;

verus! {

pub open spec fn has_key<T, K>(s: Seq<T>, key: spec_fn(T) -> K, k: K) -> bool {
    exists|i: int| 0 <= i < s.len() && key(#[trigger] s[i]) == k
}

pub open spec fn unique_keys<T, K>(s: Seq<T>, key: spec_fn(T) -> K) -> bool {
    forall|i: int, j: int|
        0 <= i < s.len() && 0 <= j < s.len() && i != j ==> key(#[trigger] s[i]) != key(
            #[trigger] s[j],
        )
}

/// The element stored under `k`, if any.
pub open spec fn lookup<T, K>(s: Seq<T>, key: spec_fn(T) -> K, k: K) -> Option<T> {
    if has_key(s, key, k) {
        Some(s[choose|i: int| 0 <= i < s.len() && key(#[trigger] s[i]) == k])
    } else {
        None
    }
}

pub proof fn lemma_lookup_at<T, K>(s: Seq<T>, key: spec_fn(T) -> K, i: int)
    requires
        unique_keys(s, key),
        0 <= i < s.len(),
    ensures
        lookup(s, key, key(s[i])) == Some(s[i]),
{
    let k = key(s[i]);
    assert(has_key(s, key, k));
    let j = choose|j: int| 0 <= j < s.len() && key(#[trigger] s[j]) == k;
    assert(i == j);
}

pub proof fn lemma_lookup_absent<T, K>(s: Seq<T>, key: spec_fn(T) -> K, k: K)
    requires
        forall|i: int| 0 <= i < s.len() ==> key(#[trigger] s[i]) != k,
    ensures
        lookup(s, key, k) == None::<T>,
{
}

/// Replacing the element at `i` by one with the same key.
pub proof fn lemma_lookup_update<T, K>(s: Seq<T>, key: spec_fn(T) -> K, i: int, v: T)
    requires
        unique_keys(s, key),
        0 <= i < s.len(),
        key(v) == key(s[i]),
    ensures
        unique_keys(s.update(i, v), key),
        lookup(s.update(i, v), key, key(v)) == Some(v),
        forall|k: K| k != key(v) ==> #[trigger] lookup(s.update(i, v), key, k) == lookup(s, key, k),
{
    let s2 = s.update(i, v);
    assert(unique_keys(s2, key)) by {
        assert forall|a: int, b: int|
            0 <= a < s2.len() && 0 <= b < s2.len() && a != b implies key(#[trigger] s2[a]) != key(
            #[trigger] s2[b],
        ) by {
            if a != i && b != i {
                assert(s2[a] == s[a] && s2[b] == s[b]);
            } else if a == i {
                assert(s2[b] == s[b]);
            } else {
                assert(s2[a] == s[a]);
            }
        }
    }
    lemma_lookup_at(s2, key, i);
    assert forall|k: K| k != key(v) implies #[trigger] lookup(s2, key, k) == lookup(s, key, k) by {
        if has_key(s, key, k) {
            let j = choose|j: int| 0 <= j < s.len() && key(#[trigger] s[j]) == k;
            assert(s2[j] == s[j]);
            lemma_lookup_at(s, key, j);
            lemma_lookup_at(s2, key, j);
        } else {
            assert forall|j: int| 0 <= j < s2.len() implies key(#[trigger] s2[j]) != k by {
                if j != i {
                    assert(s2[j] == s[j]);
                }
            }
        }
    }
}

/// Appending an element whose key is new.
pub proof fn lemma_lookup_push<T, K>(s: Seq<T>, key: spec_fn(T) -> K, v: T)
    requires
        unique_keys(s, key),
        !has_key(s, key, key(v)),
    ensures
        unique_keys(s.push(v), key),
        lookup(s.push(v), key, key(v)) == Some(v),
        forall|k: K| k != key(v) ==> #[trigger] lookup(s.push(v), key, k) == lookup(s, key, k),
{
    let s2 = s.push(v);
    assert(unique_keys(s2, key)) by {
        assert forall|a: int, b: int|
            0 <= a < s2.len() && 0 <= b < s2.len() && a != b implies key(#[trigger] s2[a]) != key(
            #[trigger] s2[b],
        ) by {
            if a < s.len() && b < s.len() {
                assert(s2[a] == s[a] && s2[b] == s[b]);
            } else if a < s.len() {
                assert(s2[a] == s[a]);
            } else {
                assert(s2[b] == s[b]);
            }
        }
    }
    lemma_lookup_at(s2, key, s.len() as int);
    assert forall|k: K| k != key(v) implies #[trigger] lookup(s2, key, k) == lookup(s, key, k) by {
        if has_key(s, key, k) {
            let j = choose|j: int| 0 <= j < s.len() && key(#[trigger] s[j]) == k;
            assert(s2[j] == s[j]);
            lemma_lookup_at(s, key, j);
            lemma_lookup_at(s2, key, j);
        } else {
            assert forall|j: int| 0 <= j < s2.len() implies key(#[trigger] s2[j]) != k by {
                if j < s.len() {
                    assert(s2[j] == s[j]);
                }
            }
        }
    }
}

} // verus!
