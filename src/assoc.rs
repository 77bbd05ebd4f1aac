//! Association lists: a sequence of entries read as a finite map from the
//! key of each entry to its value.
use vstd::prelude::*;

verus! {

/// The map that a sequence of entries stands for; a later entry overrides an
/// earlier one with the same key.
pub open spec fn to_map<T, K, V>(s: Seq<T>, key: spec_fn(T) -> K, val: spec_fn(T) -> V) -> Map<K, V>
    decreases s.len(),
{
    if s.len() == 0 {
        Map::empty()
    } else {
        to_map(s.drop_last(), key, val).insert(key(s.last()), val(s.last()))
    }
}

/// No two entries share a key.
pub open spec fn unique_keys<T, K>(s: Seq<T>, key: spec_fn(T) -> K) -> bool {
    forall|i: int, j: int|
        0 <= i < s.len() && 0 <= j < s.len() && i != j ==> #[trigger] key(s[i]) != #[trigger] key(s[j])
}

/// A key is in the map exactly when some entry carries it.
pub proof fn lemma_to_map_dom<T, K, V>(s: Seq<T>, key: spec_fn(T) -> K, val: spec_fn(T) -> V, k: K)
    ensures
        to_map(s, key, val).contains_key(k) <==> exists|i: int| 0 <= i < s.len() && key(s[i]) == k,
    decreases s.len(),
{
    if s.len() > 0 {
        lemma_to_map_dom(s.drop_last(), key, val, k);
        if to_map(s, key, val).contains_key(k) {
            if key(s.last()) != k {
                let i = choose|i: int| 0 <= i < s.len() - 1 && key(s.drop_last()[i]) == k;
                assert(key(s[i]) == k);
            }
        } else {
            assert forall|i: int| 0 <= i < s.len() implies key(s[i]) != k by {
                if i < s.len() - 1 {
                    assert(s[i] == s.drop_last()[i]);
                }
            }
        }
    }
}

/// With unique keys, the map sends the key of each entry to that entry's value.
pub proof fn lemma_to_map_index<T, K, V>(s: Seq<T>, key: spec_fn(T) -> K, val: spec_fn(T) -> V, i: int)
    requires
        unique_keys(s, key),
        0 <= i < s.len(),
    ensures
        to_map(s, key, val).contains_key(key(s[i])),
        to_map(s, key, val)[key(s[i])] == val(s[i]),
    decreases s.len(),
{
    if i < s.len() - 1 {
        let d = s.drop_last();
        assert(unique_keys(d, key)) by {
            assert forall|a: int, b: int| 0 <= a < d.len() && 0 <= b < d.len() && a != b implies key(d[a]) != key(d[b]) by {
                assert(d[a] == s[a] && d[b] == s[b]);
            }
        }
        assert(d[i] == s[i]);
        lemma_to_map_index(d, key, val, i);
        assert(key(s[i]) != key(s[s.len() - 1]));
    }
}

/// Replacing an entry by one with the same key updates that key in the map.
pub proof fn lemma_to_map_update<T, K, V>(s: Seq<T>, key: spec_fn(T) -> K, val: spec_fn(T) -> V, i: int, x: T)
    requires
        unique_keys(s, key),
        0 <= i < s.len(),
        key(x) == key(s[i]),
    ensures
        to_map(s.update(i, x), key, val) == to_map(s, key, val).insert(key(x), val(x)),
        unique_keys(s.update(i, x), key),
    decreases s.len(),
{
    let u = s.update(i, x);
    let d = s.drop_last();
    assert forall|a: int, b: int| 0 <= a < u.len() && 0 <= b < u.len() && a != b implies key(u[a]) != key(u[b]) by {
        assert(key(u[a]) == key(s[a]));
        assert(key(u[b]) == key(s[b]));
    }
    if i == s.len() - 1 {
        assert(u.drop_last() =~= d);
        assert(to_map(u, key, val) =~= to_map(s, key, val).insert(key(x), val(x)));
    } else {
        assert(u.drop_last() =~= d.update(i, x));
        assert(unique_keys(d, key)) by {
            assert forall|a: int, b: int| 0 <= a < d.len() && 0 <= b < d.len() && a != b implies key(d[a]) != key(d[b]) by {
                assert(d[a] == s[a] && d[b] == s[b]);
            }
        }
        assert(d[i] == s[i]);
        lemma_to_map_update(d, key, val, i, x);
        assert(key(s[i]) != key(s.last()));
        assert(u.last() == s.last());
        assert(to_map(u, key, val) =~= to_map(s, key, val).insert(key(x), val(x)));
    }
}

/// With unique keys, two entries with one key are one entry.
pub proof fn lemma_unique_index<T, K>(s: Seq<T>, key: spec_fn(T) -> K, i: int, j: int)
    requires
        unique_keys(s, key),
        0 <= i < s.len(),
        0 <= j < s.len(),
        key(s[i]) == key(s[j]),
    ensures
        i == j,
{
}

/// Appending an entry whose key is new keeps the keys unique.
pub proof fn lemma_push_unique<T, K>(s: Seq<T>, key: spec_fn(T) -> K, x: T)
    requires
        unique_keys(s, key),
        forall|i: int| 0 <= i < s.len() ==> key(#[trigger] s[i]) != key(x),
    ensures
        unique_keys(s.push(x), key),
{
    let p = s.push(x);
    assert forall|a: int, b: int| 0 <= a < p.len() && 0 <= b < p.len() && a != b implies key(p[a]) != key(p[b]) by {
        if a < s.len() {
            assert(p[a] == s[a]);
        }
        if b < s.len() {
            assert(p[b] == s[b]);
        }
    }
}

} // verus!
