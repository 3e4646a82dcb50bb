//! String-keyed association lists.
//!
//! The configuration and request maps of the server are kept as ordered lists
//! of entries; a key names the first entry that carries it, and inserting a key
//! that is present replaces that entry's value in place.
use vstd::prelude::*;

verus! {

/// A map from strings to strings, as character sequences, in entry order.
pub type TextMap = Seq<(Seq<char>, Seq<char>)>;

/// The keys of a string-keyed list, as character sequences.
pub open spec fn keys_of<V>(m: Seq<(String, V)>) -> Seq<Seq<char>> {
    m.map_values(|p: (String, V)| p.0@)
}

/// The character view of a list of string pairs.
pub open spec fn pairs(m: Seq<(String, String)>) -> TextMap {
    m.map_values(|p: (String, String)| (p.0@, p.1@))
}

/// The keys of a text map.
pub open spec fn text_keys(m: TextMap) -> Seq<Seq<char>> {
    m.map_values(|p: (Seq<char>, Seq<char>)| p.0)
}

/// The first position at or after `i` where `keys` holds `k`.
pub open spec fn first_from(keys: Seq<Seq<char>>, k: Seq<char>, i: int) -> Option<int>
    decreases keys.len() - i,
{
    if i < 0 || i >= keys.len() {
        None
    } else if keys[i] == k {
        Some(i)
    } else {
        first_from(keys, k, i + 1)
    }
}

/// The first position where `keys` holds `k`.
pub open spec fn first_index(keys: Seq<Seq<char>>, k: Seq<char>) -> Option<int> {
    first_from(keys, k, 0)
}

/// The value that `m` gives `k`.
pub open spec fn map_get(m: TextMap, k: Seq<char>) -> Option<Seq<char>> {
    match first_index(text_keys(m), k) {
        Some(i) => Some(m[i].1),
        None => None,
    }
}

/// `m` with `k` given the value `v`: the entry of `k` is updated in place, or a
/// new entry is appended.
pub open spec fn map_insert(m: TextMap, k: Seq<char>, v: Seq<char>) -> TextMap {
    match first_index(text_keys(m), k) {
        Some(i) => m.update(i, (k, v)),
        None => m.push((k, v)),
    }
}

/// What `first_from` finds.
pub proof fn lemma_first_from(keys: Seq<Seq<char>>, k: Seq<char>, i: int)
    requires
        0 <= i,
    ensures
        first_from(keys, k, i) matches Some(j) ==> i <= j < keys.len() && keys[j] == k && forall|
            l: int,
        | i <= l < j ==> keys[l] != k,
        first_from(keys, k, i) is None ==> forall|l: int| i <= l < keys.len() ==> keys[l] != k,
    decreases keys.len() - i,
{
    if i < keys.len() && keys[i] != k {
        lemma_first_from(keys, k, i + 1);
    }
}

/// `first_from` is determined by the characterization `lemma_first_from` states.
pub proof fn lemma_first_from_unique(keys: Seq<Seq<char>>, k: Seq<char>, i: int, j: int)
    requires
        0 <= i <= j < keys.len(),
        keys[j] == k,
        forall|l: int| i <= l < j ==> keys[l] != k,
    ensures
        first_from(keys, k, i) == Some(j),
    decreases j - i,
{
    if i < j {
        lemma_first_from_unique(keys, k, i + 1, j);
    }
}

/// `first_from` finds nothing when `k` is absent from the rest of `keys`.
pub proof fn lemma_first_from_none(keys: Seq<Seq<char>>, k: Seq<char>, i: int)
    requires
        0 <= i,
        forall|l: int| i <= l < keys.len() ==> keys[l] != k,
    ensures
        first_from(keys, k, i) is None,
    decreases keys.len() - i,
{
    if i < keys.len() {
        lemma_first_from_none(keys, k, i + 1);
    }
}

/// Finds the first entry of `m` with the key `k`.
pub fn find_key<V>(m: &Vec<(String, V)>, k: &String) -> (r: Option<usize>)
    ensures
        match r {
            Some(i) => first_index(keys_of(m@), k@) == Some(i as int) && i < m@.len() && m@[i as int].0@
                == k@,
            None => first_index(keys_of(m@), k@) is None,
        },
{
    let ghost keys = keys_of(m@);
    let mut i: usize = 0;
    while i < m.len()
        invariant
            0 <= i <= m@.len(),
            keys == keys_of(m@),
            forall|l: int| 0 <= l < i ==> keys[l] != k@,
        decreases m.len() - i,
    {
        if m[i].0 == *k {
            proof {
                lemma_first_from_unique(keys, k@, 0, i as int);
            }
            return Some(i);
        }
        i += 1;
    }
    proof {
        lemma_first_from_none(keys, k@, 0);
    }
    None
}

/// The keys of a list of string pairs are the keys of its view.
pub proof fn lemma_pairs_keys(m: Seq<(String, String)>)
    ensures
        text_keys(pairs(m)) == keys_of(m),
{
    assert(text_keys(pairs(m)) =~= keys_of(m));
}

/// Gives `k` the value `v` in `m`, updating the entry of `k` in place or appending one.
pub fn insert_pair(m: &mut Vec<(String, String)>, k: String, v: String)
    ensures
        pairs(final(m)@) == map_insert(pairs(old(m)@), k@, v@),
{
    proof {
        lemma_pairs_keys(m@);
    }
    match find_key(m, &k) {
        Some(i) => {
            let ghost kv = k@;
            let ghost vv = v@;
            m.set(i, (k, v));
            assert(pairs(m@) =~= pairs(old(m)@).update(i as int, (kv, vv)));
        },
        None => {
            let ghost kv = k@;
            let ghost vv = v@;
            m.push((k, v));
            assert(pairs(m@) =~= pairs(old(m)@).push((kv, vv)));
        },
    }
}

/// Looks up the value that `m` gives `k`.
pub fn get_pair(m: &Vec<(String, String)>, k: &String) -> (r: Option<String>)
    ensures
        match r {
            Some(v) => map_get(pairs(m@), k@) == Some(v@),
            None => map_get(pairs(m@), k@) is None,
        },
{
    proof {
        lemma_pairs_keys(m@);
    }
    match find_key(m, k) {
        Some(i) => Some(m[i].1.clone()),
        None => None,
    }
}

/// After `k` is given `v`, `k` reads `v` and every other key reads as before.
pub proof fn lemma_get_insert(m: TextMap, k: Seq<char>, v: Seq<char>, q: Seq<char>)
    ensures
        map_get(map_insert(m, k, v), q) == (if q == k {
            Some(v)
        } else {
            map_get(m, q)
        }),
{
    let keys = text_keys(m);
    let m2 = map_insert(m, k, v);
    let keys2 = text_keys(m2);
    lemma_first_from(keys, k, 0);
    lemma_first_from(keys, q, 0);
    match first_index(keys, k) {
        Some(i) => {
            assert(keys2 =~= keys.update(i, k));
        },
        None => {
            assert(keys2 =~= keys.push(k));
        },
    }
    match first_index(keys, q) {
        Some(j) => {
            if q == k {
                lemma_first_from_unique(keys2, q, 0, j);
            } else {
                assert(keys2[j] == q);
                lemma_first_from_unique(keys2, q, 0, j);
            }
        },
        None => {
            if q == k {
                lemma_first_from_unique(keys2, q, 0, keys.len() as int);
            } else {
                lemma_first_from_none(keys2, q, 0);
            }
        },
    }
}

/// Giving a key a value keeps the keys of an entry list distinct.
pub proof fn lemma_insert_distinct(m: TextMap, k: Seq<char>, v: Seq<char>)
    requires
        text_keys(m).no_duplicates(),
    ensures
        text_keys(map_insert(m, k, v)).no_duplicates(),
{
    let keys = text_keys(m);
    let keys2 = text_keys(map_insert(m, k, v));
    lemma_first_from(keys, k, 0);
    match first_index(keys, k) {
        Some(i) => {
            assert(keys2 =~= keys.update(i, k));
        },
        None => {
            assert(keys2 =~= keys.push(k));
        },
    }
}

/// Where no key occurs twice, as in a map, looking a key up finds the value
/// of its one entry, wherever that entry stands.
pub proof fn lemma_get_unique(m: TextMap, j: int)
    requires
        text_keys(m).no_duplicates(),
        0 <= j < m.len(),
    ensures
        map_get(m, m[j].0) == Some(m[j].1),
{
    let keys = text_keys(m);
    assert(keys[j] == m[j].0);
    assert forall|l: int| 0 <= l < j implies keys[l] != m[j].0 by {
        assert(keys[l] == m[l].0);
    }
    lemma_first_from_unique(keys, m[j].0, 0, j);
}

} // verus!
