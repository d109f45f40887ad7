//! Insertion-ordered maps of `indexmap`, as the converters fill and read them.

use indexmap::IndexMap;
use vstd::prelude::*;
use crate::dtcg::YamlValue;

verus! {

#[verifier::external_type_specification]
#[verifier::external_body]
#[verifier::reject_recursive_types(K)]
#[verifier::reject_recursive_types(V)]
#[verifier::reject_recursive_types(S)]
pub struct ExIndexMap<K, V, S>(IndexMap<K, V, S>);

/// Index of the entry whose key is `k`.
pub open spec fn key_index<V>(es: Seq<(Seq<char>, V)>, k: Seq<char>) -> Option<int>
    decreases es.len(),
{
    if es.len() == 0 {
        None
    } else if es[0].0 == k {
        Some(0)
    } else {
        match key_index(es.drop_first(), k) {
            Some(i) => Some(i + 1),
            None => None,
        }
    }
}

/// Whether an entry of `es` has key `k`.
pub open spec fn has_key<V>(es: Seq<(Seq<char>, V)>, k: Seq<char>) -> bool {
    key_index(es, k) is Some
}

/// The index found is that of an entry with the key.
pub proof fn lemma_key_index_bounds<V>(es: Seq<(Seq<char>, V)>, k: Seq<char>)
    ensures
        key_index(es, k) matches Some(i) ==> 0 <= i < es.len() && es[i].0 == k,
    decreases es.len(),
{
    if es.len() > 0 && es[0].0 != k {
        lemma_key_index_bounds(es.drop_first(), k);
    }
}

/// A key is found exactly when some entry has it.
pub proof fn lemma_has_key<V>(es: Seq<(Seq<char>, V)>, k: Seq<char>)
    ensures
        has_key(es, k) <==> exists|i: int| 0 <= i < es.len() && (#[trigger] es[i]).0 == k,
    decreases es.len(),
{
    lemma_key_index_bounds(es, k);
    if es.len() > 0 && es[0].0 != k {
        lemma_has_key(es.drop_first(), k);
        if exists|i: int| 0 <= i < es.len() && (#[trigger] es[i]).0 == k {
            let i = choose|i: int| 0 <= i < es.len() && (#[trigger] es[i]).0 == k;
            assert(es.drop_first()[i - 1] == es[i]);
        }
    }
}

/// Inserting `k` adds `k` to the keys and keeps the others.
pub proof fn lemma_insert_keys<V>(es: Seq<(Seq<char>, V)>, k: Seq<char>, v: V, x: Seq<char>)
    ensures
        has_key(entries_insert(es, k, v), x) <==> (has_key(es, x) || x == k),
{
    let r = entries_insert(es, k, v);
    lemma_has_key(es, x);
    lemma_has_key(r, x);
    lemma_key_index_bounds(es, k);
    match key_index(es, k) {
        Some(i) => {
            if has_key(es, x) {
                let j = choose|j: int| 0 <= j < es.len() && (#[trigger] es[j]).0 == x;
                assert(r[j].0 == x);
            }
            if x == k {
                assert(r[i].0 == x);
            }
            if has_key(r, x) {
                let j = choose|j: int| 0 <= j < r.len() && (#[trigger] r[j]).0 == x;
                assert(es[j].0 == x);
            }
        },
        None => {
            if has_key(es, x) {
                let j = choose|j: int| 0 <= j < es.len() && (#[trigger] es[j]).0 == x;
                assert(r[j].0 == x);
            }
            if x == k {
                assert(r[es.len() as int].0 == x);
            }
            if has_key(r, x) {
                let j = choose|j: int| 0 <= j < r.len() && (#[trigger] r[j]).0 == x;
                if j < es.len() {
                    assert(es[j].0 == x);
                }
            }
        },
    }
}

/// The entries after `IndexMap::insert(k, v)`: an entry with key `k` keeps its
/// place and takes the value `v`; otherwise `(k, v)` comes last.
pub open spec fn entries_insert<V>(es: Seq<(Seq<char>, V)>, k: Seq<char>, v: V) -> Seq<(Seq<char>, V)> {
    match key_index(es, k) {
        Some(i) => es.update(i, (es[i].0, v)),
        None => es.push((k, v)),
    }
}

/// The entries after inserting each of `assigns` in turn.
pub open spec fn insert_all<V>(es: Seq<(Seq<char>, V)>, assigns: Seq<(Seq<char>, V)>) -> Seq<(Seq<char>, V)>
    decreases assigns.len(),
{
    if assigns.len() == 0 {
        es
    } else {
        let last = assigns.last();
        entries_insert(insert_all(es, assigns.drop_last()), last.0, last.1)
    }
}

pub proof fn lemma_insert_all_push<V>(es: Seq<(Seq<char>, V)>, assigns: Seq<(Seq<char>, V)>, k: Seq<char>, v: V)
    ensures
        insert_all(es, assigns.push((k, v))) == entries_insert(insert_all(es, assigns), k, v),
{
    assert(assigns.push((k, v)).drop_last() == assigns);
}

pub proof fn lemma_insert_all_single<V>(es: Seq<(Seq<char>, V)>, k: Seq<char>, v: V)
    ensures
        insert_all(es, seq![(k, v)]) == entries_insert(es, k, v),
{
    assert(seq![(k, v)].drop_last() == Seq::<(Seq<char>, V)>::empty());
    assert(insert_all(es, Seq::<(Seq<char>, V)>::empty()) == es);
}

pub proof fn lemma_insert_all_concat<V>(es: Seq<(Seq<char>, V)>, a: Seq<(Seq<char>, V)>, b: Seq<(Seq<char>, V)>)
    ensures
        insert_all(es, a + b) == insert_all(insert_all(es, a), b),
    decreases b.len(),
{
    if b.len() == 0 {
        assert(a + b == a);
    } else {
        assert((a + b).drop_last() == a + b.drop_last());
        lemma_insert_all_concat(es, a, b.drop_last());
    }
}

/// The pairs of `v` as the contracts state them.
pub open spec fn text_pairs(v: Seq<(String, String)>) -> Seq<(Seq<char>, Seq<char>)> {
    v.map_values(|p: (String, String)| (p.0@, p.1@))
}

/// The entries, in order, of a map from strings to strings.
pub uninterp spec fn text_map_entries(m: IndexMap<String, String>) -> Seq<(Seq<char>, Seq<char>)>;

/// `IndexMap::new`: a map with no entries.
#[verifier::external_body]
pub(crate) fn text_map_new() -> (m: IndexMap<String, String>)
    ensures
        text_map_entries(m) == Seq::<(Seq<char>, Seq<char>)>::empty(),
{
    IndexMap::new()
}

/// `IndexMap::insert`: as its documentation and source state, an entry with an
/// equal key keeps its place and takes the new value; otherwise the pair is
/// added last.
#[verifier::external_body]
pub(crate) fn text_map_insert(m: &mut IndexMap<String, String>, k: String, v: String)
    ensures
        text_map_entries(*final(m)) == entries_insert(text_map_entries(*old(m)), k@, v@),
{
    m.insert(k, v);
}

/// `IndexMap::is_empty`: whether the map has no entries.
#[verifier::external_body]
pub(crate) fn text_map_is_empty(m: &IndexMap<String, String>) -> (r: bool)
    ensures
        r == (text_map_entries(*m).len() == 0),
{
    m.is_empty()
}

/// The entries of the map in order, as `IndexMap::iter` walks them, each key and
/// value copied. The keys of a map are distinct.
#[verifier::external_body]
pub(crate) fn text_map_to_vec(m: &IndexMap<String, String>) -> (r: Vec<(String, String)>)
    ensures
        r@.len() == text_map_entries(*m).len(),
        forall|i: int| 0 <= i < r@.len() ==> (#[trigger] r@[i]).0@ == text_map_entries(*m)[i].0 && r@[i].1@ == text_map_entries(*m)[i].1,
        forall|i: int, j: int| 0 <= i < j < r@.len() ==> (#[trigger] r@[i]).0@ != (#[trigger] r@[j]).0@,
{
    m.iter().map(|(k, v)| (k.clone(), v.clone())).collect()
}

/// `IndexMap::contains_key`: whether an entry has key `k`.
#[verifier::external_body]
pub(crate) fn text_map_contains_key(m: &IndexMap<String, String>, k: &str) -> (r: bool)
    ensures
        r == (key_index(text_map_entries(*m), k@) is Some),
{
    m.contains_key(k)
}

/// `IndexMap::get`: the value of the entry with key `k`.
#[verifier::external_body]
pub(crate) fn text_map_get<'a>(m: &'a IndexMap<String, String>, k: &str) -> (r: Option<&'a String>)
    ensures
        match r {
            Some(v) => key_index(text_map_entries(*m), k@) matches Some(i) && v@ == text_map_entries(*m)[i].1,
            None => key_index(text_map_entries(*m), k@) is None,
        },
{
    m.get(k)
}

/// The entries, in order, of a map from names to YAML values.
pub uninterp spec fn yaml_map_entries(m: IndexMap<String, YamlValue>) -> Seq<(Seq<char>, YamlValue)>;

/// `IndexMap::get`: the value of the entry with key `k`.
#[verifier::external_body]
pub(crate) fn yaml_map_get<'a>(m: &'a IndexMap<String, YamlValue>, k: &str) -> (r: Option<&'a YamlValue>)
    ensures
        match r {
            Some(v) => key_index(yaml_map_entries(*m), k@) matches Some(i) && *v == yaml_map_entries(*m)[i].1,
            None => key_index(yaml_map_entries(*m), k@) is None,
        },
{
    m.get(k)
}

/// `IndexMap::new`: a map with no entries.
#[verifier::external_body]
pub(crate) fn yaml_map_new() -> (m: IndexMap<String, YamlValue>)
    ensures
        yaml_map_entries(m) == Seq::<(Seq<char>, YamlValue)>::empty(),
{
    IndexMap::new()
}

/// `IndexMap::len`: the number of entries.
#[verifier::external_body]
pub(crate) fn yaml_map_len(m: &IndexMap<String, YamlValue>) -> (r: usize)
    ensures
        r == yaml_map_entries(*m).len(),
{
    m.len()
}

/// `IndexMap::get_index`: the entry at position `i`, if there is one.
#[verifier::external_body]
pub(crate) fn yaml_map_get_index<'a>(m: &'a IndexMap<String, YamlValue>, i: usize) -> (r: Option<(&'a String, &'a YamlValue)>)
    ensures
        match r {
            Some(e) => i < yaml_map_entries(*m).len() && e.0@ == yaml_map_entries(*m)[i as int].0 && *e.1 == yaml_map_entries(*m)[i as int].1,
            None => i >= yaml_map_entries(*m).len(),
        },
{
    m.get_index(i)
}

/// The entries, in order, of a map from names to maps of YAML values.
pub uninterp spec fn nested_map_entries(m: IndexMap<String, IndexMap<String, YamlValue>>) -> Seq<(Seq<char>, IndexMap<String, YamlValue>)>;

/// `IndexMap::new`: a map with no entries.
#[verifier::external_body]
pub(crate) fn nested_map_new() -> (m: IndexMap<String, IndexMap<String, YamlValue>>)
    ensures
        nested_map_entries(m) == Seq::<(Seq<char>, IndexMap<String, YamlValue>)>::empty(),
{
    IndexMap::new()
}

/// `IndexMap::len`: the number of entries.
#[verifier::external_body]
pub(crate) fn nested_map_len(m: &IndexMap<String, IndexMap<String, YamlValue>>) -> (r: usize)
    ensures
        r == nested_map_entries(*m).len(),
{
    m.len()
}

/// `IndexMap::get_index`: the entry at position `i`, if there is one.
#[verifier::external_body]
pub(crate) fn nested_map_get_index<'a>(m: &'a IndexMap<String, IndexMap<String, YamlValue>>, i: usize) -> (r: Option<(&'a String, &'a IndexMap<String, YamlValue>)>)
    ensures
        match r {
            Some(e) => i < nested_map_entries(*m).len() && e.0@ == nested_map_entries(*m)[i as int].0 && *e.1 == nested_map_entries(*m)[i as int].1,
            None => i >= nested_map_entries(*m).len(),
        },
{
    m.get_index(i)
}

} // verus!
