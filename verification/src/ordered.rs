//! Insertion-ordered maps from strings to strings, as `indexmap` keeps
//! them: headers and query parameters.
use vstd::prelude::*;
use indexmap::IndexMap;

verus! {

/// `indexmap`'s insertion-ordered hash map.
#[verifier::external_type_specification]
#[verifier::external_body]
#[verifier::reject_recursive_types(K)]
#[verifier::reject_recursive_types(V)]
#[verifier::reject_recursive_types(S)]
pub struct ExIndexMap<K, V, S>(IndexMap<K, V, S>);

/// The key-value pairs that a map holds, in the map's order.
pub uninterp spec fn entries(m: IndexMap<String, String>) -> Seq<(Seq<char>, Seq<char>)>;

/// The position of the first of `pairs[from..]` whose key is `key`.
pub open spec fn position_from<V>(pairs: Seq<(Seq<char>, V)>, key: Seq<char>, from: int) -> Option<
    int,
>
    decreases pairs.len() - from,
{
    if from < 0 || from >= pairs.len() {
        None
    } else if pairs[from].0 == key {
        Some(from)
    } else {
        position_from(pairs, key, from + 1)
    }
}

/// The position of the first pair whose key is `key`.
pub open spec fn position_of<V>(pairs: Seq<(Seq<char>, V)>, key: Seq<char>) -> Option<int> {
    position_from(pairs, key, 0)
}

/// The value that stands under `key`.
pub open spec fn value_of<V>(pairs: Seq<(Seq<char>, V)>, key: Seq<char>) -> Option<V> {
    match position_of(pairs, key) {
        Some(i) => Some(pairs[i].1),
        None => None,
    }
}

/// `pairs` after `key` was given `value`: a key that is there keeps its
/// place and gets the new value, a new key goes to the end.
pub open spec fn inserted<V>(pairs: Seq<(Seq<char>, V)>, key: Seq<char>, value: V) -> Seq<
    (Seq<char>, V),
> {
    match position_of(pairs, key) {
        Some(i) => pairs.update(i, (key, value)),
        None => pairs.push((key, value)),
    }
}

/// No key stands twice.
pub open spec fn distinct_keys<V>(pairs: Seq<(Seq<char>, V)>) -> bool {
    forall|i: int, j: int| 0 <= i < j < pairs.len() ==> pairs[i].0 != pairs[j].0
}

/// `IndexMap`'s `clone`, for a map from strings to strings: a map with
/// the same pairs in the same order.
#[verifier::external_body]
pub(crate) fn map_clone(m: &IndexMap<String, String>) -> (r: IndexMap<String, String>)
    ensures
        entries(r) == entries(*m),
{
    m.clone()
}

/// `IndexMap::new`: a map that holds nothing.
#[verifier::external_body]
pub(crate) fn new_map() -> (m: IndexMap<String, String>)
    ensures
        entries(m) == Seq::<(Seq<char>, Seq<char>)>::empty(),
{
    IndexMap::new()
}

/// `IndexMap::insert`: a key that the map holds keeps its place in the
/// order and gets the new value; a new key goes to the end.
#[verifier::external_body]
pub(crate) fn map_insert(m: &mut IndexMap<String, String>, key: String, value: String)
    ensures
        entries(*final(m)) == inserted(entries(*old(m)), key@, value@),
{
    m.insert(key, value);
}

/// `IndexMap::get`: the value stored for `key`, if the map holds the key.
#[verifier::external_body]
pub(crate) fn map_get<'a>(m: &'a IndexMap<String, String>, key: &str) -> (r: Option<&'a String>)
    ensures
        match r {
            Some(v) => value_of(entries(*m), key@) == Some(v@),
            None => value_of(entries(*m), key@) is None,
        },
{
    m.get(key)
}

/// `IndexMap::len`: the number of pairs in the map.
#[verifier::external_body]
pub(crate) fn map_len(m: &IndexMap<String, String>) -> (n: usize)
    ensures
        n == entries(*m).len(),
{
    m.len()
}

/// `IndexMap::get_index`: the pair at position `index` of the map's order,
/// for an index below the map's length, and nothing else. A map holds
/// each key once, so the key that is handed out stands at no earlier
/// position.
#[verifier::external_body]
pub(crate) fn map_entry<'a>(m: &'a IndexMap<String, String>, index: usize) -> (r: Option<
    (&'a String, &'a String),
>)
    ensures
        match r {
            Some(pair) => index < entries(*m).len() && pair.0@ == entries(*m)[index as int].0
                && pair.1@ == entries(*m)[index as int].1 && position_of(entries(*m), pair.0@)
                == Some(index as int),
            None => index >= entries(*m).len(),
        },
{
    m.get_index(index)
}

/// Each key stands first at its own position.
pub open spec fn keys_stand_first<V>(pairs: Seq<(Seq<char>, V)>, n: int) -> bool {
    forall|k: int| 0 <= k < n ==> position_of(pairs, (#[trigger] pairs[k]).0) == Some(k)
}

/// Where each key stands first at its own position, no key stands twice.
pub proof fn lemma_first_is_distinct<V>(pairs: Seq<(Seq<char>, V)>)
    requires
        keys_stand_first(pairs, pairs.len() as int),
    ensures
        distinct_keys(pairs),
{
    assert forall|i: int, j: int| 0 <= i < j < pairs.len() implies pairs[i].0 != pairs[j].0 by {
        if pairs[i].0 == pairs[j].0 {
            assert(position_of(pairs, pairs[i].0) == Some(i));
            assert(position_of(pairs, pairs[j].0) == Some(j));
        }
    }
}

/// Walks a map to see what `indexmap` gives of every map: no key stands
/// twice.
pub fn confirm_distinct(m: &IndexMap<String, String>)
    ensures
        distinct_keys(entries(*m)),
{
    let n: usize = map_len(m);
    let mut i: usize = 0;
    while i < n
        invariant
            n == entries(*m).len(),
            i <= n,
            keys_stand_first(entries(*m), i as int),
        decreases n - i,
    {
        let _ = map_entry(m, i);
        i += 1;
    }
    proof {
        lemma_first_is_distinct(entries(*m));
    }
}

/// The pairs of a map, in the map's order. No key stands twice.
pub fn map_pairs(m: &IndexMap<String, String>) -> (r: Vec<(String, String)>)
    ensures
        pairs_view(r@) == entries(*m),
        distinct_keys(entries(*m)),
{
    let n: usize = map_len(m);
    let mut out: Vec<(String, String)> = Vec::new();
    let mut i: usize = 0;
    while i < n
        invariant
            n == entries(*m).len(),
            i <= n,
            out.len() == i,
            forall|k: int|
                0 <= k < i ==> out[k].0@ == entries(*m)[k].0 && out[k].1@ == entries(*m)[k].1,
            keys_stand_first(entries(*m), i as int),
        decreases n - i,
    {
        match map_entry(m, i) {
            Some(pair) => {
                out.push((pair.0.clone(), pair.1.clone()));
            },
            None => {},
        }
        i += 1;
    }
    proof {
        lemma_first_is_distinct(entries(*m));
    }
    assert(pairs_view(out@) =~= entries(*m));
    out
}

/// What a list of pairs of strings holds.
pub open spec fn pairs_view(pairs: Seq<(String, String)>) -> Seq<(Seq<char>, Seq<char>)> {
    Seq::new(pairs.len(), |i: int| (pairs[i].0@, pairs[i].1@))
}

/// No pair at or behind `from` has the key exactly when looking for the
/// key from there finds nothing.
pub proof fn lemma_position_none<V>(pairs: Seq<(Seq<char>, V)>, key: Seq<char>, from: int)
    requires
        0 <= from,
    ensures
        position_from(pairs, key, from) is None <==> (forall|i: int|
            from <= i < pairs.len() ==> (#[trigger] pairs[i]).0 != key),
    decreases pairs.len() - from,
{
    if from < pairs.len() {
        lemma_position_none(pairs, key, from + 1);
        if pairs[from].0 != key {
            assert forall|i: int| from <= i < pairs.len() && (forall|k: int|
                from + 1 <= k < pairs.len() ==> (#[trigger] pairs[k]).0 != key) implies (
            #[trigger] pairs[i]).0 != key by {
                if i > from {
                    assert(pairs[i].0 != key);
                }
            }
        }
    }
}

/// A position that is found is at or behind `from`, and the pair there
/// has the key.
pub proof fn lemma_position_found<V>(pairs: Seq<(Seq<char>, V)>, key: Seq<char>, from: int)
    requires
        0 <= from,
        position_from(pairs, key, from) is Some,
    ensures
        from <= position_from(pairs, key, from)->Some_0 < pairs.len(),
        pairs[position_from(pairs, key, from)->Some_0].0 == key,
    decreases pairs.len() - from,
{
    if pairs[from].0 != key {
        lemma_position_found(pairs, key, from + 1);
    }
}

/// Giving a key a value leaves the keys distinct.
pub proof fn lemma_inserted_distinct<V>(pairs: Seq<(Seq<char>, V)>, key: Seq<char>, value: V)
    requires
        distinct_keys(pairs),
    ensures
        distinct_keys(inserted(pairs, key, value)),
{
    let after = inserted(pairs, key, value);
    match position_of(pairs, key) {
        Some(at) => {
            lemma_position_found(pairs, key, 0);
            assert forall|i: int, j: int| 0 <= i < j < after.len() implies after[i].0
                != after[j].0 by {
                assert(after[i].0 == pairs[i].0 && after[j].0 == pairs[j].0);
            }
        },
        None => {
            lemma_position_none(pairs, key, 0);
            assert forall|i: int, j: int| 0 <= i < j < after.len() implies after[i].0
                != after[j].0 by {
                assert(after[i] == pairs[i]);
                if j < pairs.len() {
                    assert(after[j] == pairs[j]);
                }
            }
        },
    }
}

} // verus!
