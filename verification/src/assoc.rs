use vstd::prelude::*;

verus! {

/// The index of the first occurrence of `k` in `keys`, or `-1`.
pub open spec fn first_index<K>(keys: Seq<K>, k: K) -> int
    decreases keys.len(),
{
    if keys.len() == 0 {
        -1
    } else {
        let i = first_index(keys.drop_last(), k);
        if i >= 0 {
            i
        } else if keys.last() == k {
            keys.len() - 1
        } else {
            -1
        }
    }
}

/// Characterizes `first_index` by the keys before the index and at it.
pub proof fn lemma_first_index_is<K>(keys: Seq<K>, k: K, i: int)
    requires
        -1 <= i < keys.len(),
        forall|j: int| 0 <= j < keys.len() && (i < 0 || j < i) ==> keys[j] != k,
        i >= 0 ==> keys[i] == k,
    ensures
        first_index(keys, k) == i,
    decreases keys.len(),
{
    if keys.len() > 0 {
        if i == keys.len() - 1 {
            lemma_first_index_is(keys.drop_last(), k, -1);
        } else {
            lemma_first_index_is(keys.drop_last(), k, i);
        }
    }
}

/// What `first_index` gives: an index holding `k` with no `k` before it, or
/// `-1` when `k` occurs nowhere.
pub proof fn lemma_first_index<K>(keys: Seq<K>, k: K)
    ensures
        -1 <= first_index(keys, k) < keys.len(),
        first_index(keys, k) >= 0 ==> keys[first_index(keys, k)] == k,
        forall|j: int|
            0 <= j < keys.len() && (first_index(keys, k) < 0 || j < first_index(keys, k))
                ==> keys[j] != k,
    decreases keys.len(),
{
    if keys.len() > 0 {
        let d = keys.drop_last();
        lemma_first_index(d, k);
        assert forall|j: int| 0 <= j < d.len() implies d[j] == keys[j] by {}
    }
}

/// The keys of an association list.
pub open spec fn keys<K, V>(s: Seq<(K, V)>) -> Seq<K> {
    s.map_values(|e: (K, V)| e.0)
}

/// The index of the entry for `k`, or `-1`.
pub open spec fn index_of<K, V>(s: Seq<(K, V)>, k: K) -> int {
    first_index(keys(s), k)
}

/// The value stored for `k`, if any.
pub open spec fn lookup<K, V>(s: Seq<(K, V)>, k: K) -> Option<V> {
    let i = index_of(s, k);
    if i >= 0 {
        Some(s[i].1)
    } else {
        None
    }
}

/// The list with the entry for `k` replaced by `v`, or with `(k, v)` appended
/// when there is no such entry.
pub open spec fn upsert<K, V>(s: Seq<(K, V)>, k: K, v: V) -> Seq<(K, V)> {
    let i = index_of(s, k);
    if i >= 0 {
        s.update(i, (k, v))
    } else {
        s.push((k, v))
    }
}

/// No key occurs twice.
pub open spec fn unique_keys<K, V>(s: Seq<(K, V)>) -> bool {
    forall|i: int, j: int| 0 <= i < j < s.len() ==> s[i].0 != s[j].0
}

/// `upsert` keeps the keys unique and stores the value.
pub proof fn lemma_upsert<K, V>(s: Seq<(K, V)>, k: K, v: V)
    requires
        unique_keys(s),
    ensures
        unique_keys(upsert(s, k, v)),
        lookup(upsert(s, k, v), k) == Some(v),
        forall|k2: K| k2 != k ==> lookup(upsert(s, k, v), k2) == lookup(s, k2),
{
    lemma_first_index(keys(s), k);
    let t = upsert(s, k, v);
    let i = index_of(s, k);
    if i >= 0 {
        assert(keys(t) =~= keys(s));
        assert forall|j: int| 0 <= j < t.len() implies t[j].0 == s[j].0 by {
            assert(keys(t)[j] == keys(s)[j]);
        }
    } else {
        assert(keys(t) =~= keys(s).push(k));
        assert(keys(t).drop_last() =~= keys(s));
        assert forall|j: int| 0 <= j < s.len() implies t[j].0 == s[j].0 && s[j].0 != k by {
            assert(keys(s)[j] == s[j].0);
        }
    }
    assert forall|k2: K| k2 != k implies lookup(t, k2) == lookup(s, k2) by {
        lemma_first_index(keys(s), k2);
        if i < 0 {
            assert(first_index(keys(t), k2) == first_index(keys(s), k2));
        }
    }
    lemma_first_index(keys(t), k);
    if i < 0 {
        assert(keys(t)[s.len() as int] == k);
        lemma_first_index_is(keys(t), k, s.len() as int);
    }
}

/// Whatever keys the list holds, after an upsert the key gives the value
/// stored, and every other key gives what it gave before.
pub proof fn lemma_lookup_upsert<K, V>(s: Seq<(K, V)>, k: K, v: V, k2: K)
    ensures
        lookup(upsert(s, k, v), k) == Some(v),
        k2 != k ==> lookup(upsert(s, k, v), k2) == lookup(s, k2),
{
    lemma_first_index(keys(s), k);
    lemma_first_index(keys(s), k2);
    let t = upsert(s, k, v);
    let i = index_of(s, k);
    if i >= 0 {
        assert(keys(t) =~= keys(s));
    } else {
        assert(keys(t) =~= keys(s).push(k));
        assert(keys(t).drop_last() =~= keys(s));
        assert(keys(t)[s.len() as int] == k);
        lemma_first_index_is(keys(t), k, s.len() as int);
        if k2 != k {
            assert(first_index(keys(t), k2) == first_index(keys(s), k2));
        }
    }
    lemma_first_index(keys(t), k);
}

/// Every entry of an upserted list is the new entry or an entry of the list
/// before, and a value that a key gives is the value of one of the entries.
pub proof fn lemma_upsert_entries<K, V>(s: Seq<(K, V)>, k: K, v: V)
    ensures
        forall|i: int|
            0 <= i < upsert(s, k, v).len() ==> upsert(s, k, v)[i] == (k, v) || exists|j: int|
                0 <= j < s.len() && #[trigger] s[j] == upsert(s, k, v)[i],
        forall|k2: K|
            lookup(s, k2) is Some ==> exists|j: int|
                0 <= j < s.len() && #[trigger] s[j] == (k2, lookup(s, k2)->Some_0),
{
    let t = upsert(s, k, v);
    lemma_first_index(keys(s), k);
    assert(keys(s).len() == s.len());
    assert forall|i: int| 0 <= i < t.len() implies t[i] == (k, v) || exists|j: int|
        0 <= j < s.len() && #[trigger] s[j] == t[i] by {
        if t[i] != (k, v) {
            let idx = index_of(s, k);
            if idx >= 0 {
                assert(t == s.update(idx, (k, v)));
                assert(i != idx);
                assert(t[i] == s[i]);
            } else {
                assert(t == s.push((k, v)));
                assert(i < s.len());
                assert(t[i] == s[i]);
            }
        }
    }
    assert forall|k2: K| lookup(s, k2) is Some implies exists|j: int|
        0 <= j < s.len() && #[trigger] s[j] == (k2, lookup(s, k2)->Some_0) by {
        lemma_first_index(keys(s), k2);
        let j = index_of(s, k2);
        assert(keys(s)[j] == s[j].0);
        assert(s[j] == (k2, lookup(s, k2)->Some_0));
    }
}

/// The keys of a list keyed by byte vectors, as byte sequences.
pub open spec fn byte_keys<V>(s: Seq<(Vec<u8>, V)>) -> Seq<Seq<u8>> {
    s.map_values(|e: (Vec<u8>, V)| e.0@)
}

/// The keys of a list keyed by strings, as character sequences.
pub open spec fn string_keys<V>(s: Seq<(String, V)>) -> Seq<Seq<char>> {
    s.map_values(|e: (String, V)| e.0@)
}

/// Whether two byte slices hold the same bytes.
pub fn bytes_equal(a: &[u8], b: &[u8]) -> (same: bool)
    ensures
        same == (a@ == b@),
{
    if a.len() != b.len() {
        return false;
    }
    let mut i: usize = 0;
    while i < a.len()
        invariant
            a@.len() == b@.len(),
            i <= a@.len(),
            forall|j: int| 0 <= j < i ==> a@[j] == b@[j],
        decreases a@.len() - i,
    {
        if a[i] != b[i] {
            return false;
        }
        i = i + 1;
    }
    assert(a@ =~= b@);
    true
}

/// Finds the entry whose key holds the bytes of `key`.
pub fn find_bytes_key<V>(list: &Vec<(Vec<u8>, V)>, key: &[u8]) -> (index: Option<usize>)
    ensures
        match index {
            Some(i) => i == first_index(byte_keys(list@), key@) && i < list@.len(),
            None => first_index(byte_keys(list@), key@) == -1,
        },
{
    let mut i: usize = 0;
    while i < list.len()
        invariant
            i <= list@.len(),
            forall|j: int| 0 <= j < i ==> byte_keys(list@)[j] != key@,
        decreases list@.len() - i,
    {
        if bytes_equal(list[i].0.as_slice(), key) {
            proof {
                lemma_first_index_is(byte_keys(list@), key@, i as int);
            }
            return Some(i);
        }
        i = i + 1;
    }
    proof {
        lemma_first_index_is(byte_keys(list@), key@, -1);
    }
    None
}

/// Finds the entry whose key holds the characters of `key`.
pub fn find_string_key<V>(list: &Vec<(String, V)>, key: &String) -> (index: Option<usize>)
    ensures
        match index {
            Some(i) => i == first_index(string_keys(list@), key@) && i < list@.len(),
            None => first_index(string_keys(list@), key@) == -1,
        },
{
    let mut i: usize = 0;
    while i < list.len()
        invariant
            i <= list@.len(),
            forall|j: int| 0 <= j < i ==> string_keys(list@)[j] != key@,
        decreases list@.len() - i,
    {
        if list[i].0 == *key {
            proof {
                lemma_first_index_is(string_keys(list@), key@, i as int);
            }
            return Some(i);
        }
        i = i + 1;
    }
    proof {
        lemma_first_index_is(string_keys(list@), key@, -1);
    }
    None
}

/// Finds the entry whose key holds the characters of `key`.
pub fn find_str_key<V>(list: &Vec<(String, V)>, key: &str) -> (index: Option<usize>)
    ensures
        match index {
            Some(i) => i == first_index(string_keys(list@), key@) && i < list@.len(),
            None => first_index(string_keys(list@), key@) == -1,
        },
{
    let mut i: usize = 0;
    while i < list.len()
        invariant
            i <= list@.len(),
            forall|j: int| 0 <= j < i ==> string_keys(list@)[j] != key@,
        decreases list@.len() - i,
    {
        if crate::selection::json::str_equals(list[i].0.as_str(), key) {
            proof {
                lemma_first_index_is(string_keys(list@), key@, i as int);
            }
            return Some(i);
        }
        i = i + 1;
    }
    proof {
        lemma_first_index_is(string_keys(list@), key@, -1);
    }
    None
}

} // verus!
