//! Finding the first of a sequence of keys.

use vstd::prelude::*;

verus! {

/// `i` is the position of the first of `keys` that equals `key`.
pub open spec fn first_at<K>(keys: Seq<K>, key: K, i: int) -> bool {
    &&& 0 <= i < keys.len()
    &&& keys[i] == key
    &&& forall|j: int| 0 <= j < i ==> keys[j] != key
}

/// `key` is among `keys`.
pub open spec fn has_key<K>(keys: Seq<K>, key: K) -> bool {
    exists|i: int| 0 <= i < keys.len() && keys[i] == key
}

/// The position of the first of `keys` that equals `key`.
pub open spec fn index_of<K>(keys: Seq<K>, key: K) -> int {
    choose|i: int| first_at(keys, key, i)
}

/// There is one first position, and [`index_of`] names it.
pub proof fn lemma_first_at<K>(keys: Seq<K>, key: K, i: int)
    requires
        first_at(keys, key, i),
    ensures
        has_key(keys, key),
        index_of(keys, key) == i,
{
    let j = index_of(keys, key);
    assert(first_at(keys, key, j));
    if j < i {
        assert(keys[j] != key);
    }
    if i < j {
        assert(keys[i] != key);
    }
}

/// A key that is present has a first position.
pub proof fn lemma_has_key<K>(keys: Seq<K>, key: K)
    requires
        has_key(keys, key),
    ensures
        first_at(keys, key, index_of(keys, key)),
    decreases keys.len(),
{
    let w = choose|i: int| 0 <= i < keys.len() && keys[i] == key;
    lemma_least(keys, key, w);
}

proof fn lemma_least<K>(keys: Seq<K>, key: K, w: int)
    requires
        0 <= w < keys.len(),
        keys[w] == key,
    ensures
        exists|i: int| first_at(keys, key, i),
    decreases w,
{
    if forall|j: int| 0 <= j < w ==> keys[j] != key {
        assert(first_at(keys, key, w));
    } else {
        let j = choose|j: int| 0 <= j < w && keys[j] == key;
        lemma_least(keys, key, j);
    }
}

/// A key that is present stays present when another is added at the end,
/// and the added one is present too.
pub proof fn lemma_has_key_push<K>(keys: Seq<K>, added: K, key: K)
    ensures
        has_key(keys.push(added), key) == (has_key(keys, key) || added == key),
{
    if has_key(keys, key) {
        let i = choose|i: int| 0 <= i < keys.len() && keys[i] == key;
        assert(keys.push(added)[i] == key);
    }
    if added == key {
        assert(keys.push(added)[keys.len() as int] == key);
    }
    if has_key(keys.push(added), key) {
        let i = choose|i: int| 0 <= i < keys.push(added).len() && keys.push(added)[i] == key;
        if i < keys.len() {
            assert(keys[i] == key);
        }
    }
}

/// Where every key occurs once, each position is the first of its key.
pub open spec fn distinct<K>(keys: Seq<K>) -> bool {
    forall|i: int, j: int| 0 <= i < j < keys.len() ==> keys[i] != keys[j]
}

/// Among distinct keys, a key is found where it stands.
pub proof fn lemma_distinct_index<K>(keys: Seq<K>, i: int)
    requires
        distinct(keys),
        0 <= i < keys.len(),
    ensures
        has_key(keys, keys[i]),
        index_of(keys, keys[i]) == i,
{
    assert(first_at(keys, keys[i], i));
    lemma_first_at(keys, keys[i], i);
}

/// A key is among two joined lists exactly when it is among one of them.
pub proof fn lemma_has_key_joined<K>(a: Seq<K>, b: Seq<K>, key: K)
    ensures
        has_key(a + b, key) == (has_key(a, key) || has_key(b, key)),
{
    let all = a + b;
    if has_key(a, key) {
        let i = choose|i: int| 0 <= i < a.len() && a[i] == key;
        assert(all[i] == key);
    }
    if has_key(b, key) {
        let i = choose|i: int| 0 <= i < b.len() && b[i] == key;
        assert(all[a.len() + i] == key);
    }
    if has_key(all, key) {
        let i = choose|i: int| 0 <= i < all.len() && all[i] == key;
        if i < a.len() {
            assert(a[i] == key);
        } else {
            assert(b[i - a.len()] == key);
        }
    }
}

} // verus!
