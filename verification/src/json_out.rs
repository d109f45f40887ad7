//! JSON values that the converters write.

use vstd::prelude::*;
use crate::ordered_map::{entries_insert, insert_all, key_index, lemma_insert_all_push};
use crate::text::str_eq;

verus! {

/// A JSON number as written: an integer, or the `f64` nearest to a decimal literal.
#[derive(Debug)]
pub enum OutNumber {
    Int(i64),
    UInt(u64),
    /// The `f64` that `str::parse` gives for this decimal literal.
    Float(String),
}

/// A JSON value as written. An object keeps its members in order.
#[derive(Debug)]
pub enum JsonOut {
    Number(OutNumber),
    Str(String),
    Array(Vec<JsonOut>),
    Object(Vec<(String, JsonOut)>),
}

/// A written number, as the contracts state it.
pub enum NumberView {
    Int(int),
    /// The `f64` nearest to this decimal literal.
    Float(Seq<char>),
}

/// A written JSON value, as the contracts state it.
pub enum JsonView {
    Number(NumberView),
    Str(Seq<char>),
    Array(Seq<JsonView>),
    Object(Seq<(Seq<char>, JsonView)>),
}

impl JsonOut {
    /// The value this JSON stands for.
    pub open spec fn view_json(self) -> JsonView
        decreases self,
    {
        match self {
            JsonOut::Number(OutNumber::Int(i)) => JsonView::Number(NumberView::Int(i as int)),
            JsonOut::Number(OutNumber::UInt(i)) => JsonView::Number(NumberView::Int(i as int)),
            JsonOut::Number(OutNumber::Float(s)) => JsonView::Number(NumberView::Float(s@)),
            JsonOut::Str(s) => JsonView::Str(s@),
            JsonOut::Array(items) => JsonView::Array(
                Seq::new(
                    items@.len(),
                    |i: int|
                        if 0 <= i < items@.len() {
                            items@[i].view_json()
                        } else {
                            JsonView::Str(Seq::empty())
                        },
                ),
            ),
            JsonOut::Object(members) => JsonView::Object(
                Seq::new(
                    members@.len(),
                    |i: int|
                        if 0 <= i < members@.len() {
                            (members@[i].0@, members@[i].1.view_json())
                        } else {
                            (Seq::empty(), JsonView::Str(Seq::empty()))
                        },
                ),
            ),
        }
    }
}

/// The members of an object, as the contracts state them.
pub open spec fn members_view(members: Seq<(String, JsonOut)>) -> Seq<(Seq<char>, JsonView)> {
    members.map_values(|m: (String, JsonOut)| (m.0@, m.1.view_json()))
}

/// The items of an array, as the contracts state them.
pub open spec fn items_view(items: Seq<JsonOut>) -> Seq<JsonView> {
    items.map_values(|j: JsonOut| j.view_json())
}

pub proof fn lemma_object_view(members: Vec<(String, JsonOut)>)
    ensures
        JsonOut::Object(members).view_json() == JsonView::Object(members_view(members@)),
{
    match JsonOut::Object(members).view_json() {
        JsonView::Object(s) => assert(s =~= members_view(members@)),
        _ => {},
    }
}

pub proof fn lemma_array_view(items: Vec<JsonOut>)
    ensures
        JsonOut::Array(items).view_json() == JsonView::Array(items_view(items@)),
{
    match JsonOut::Array(items).view_json() {
        JsonView::Array(s) => assert(s =~= items_view(items@)),
        _ => {},
    }
}

/// Sets member `key` of an object, as `serde_json::Map::insert` does with
/// ordered maps: a member with that key keeps its place and takes the value,
/// otherwise the member is added last.
pub fn object_insert(members: &mut Vec<(String, JsonOut)>, key: String, value: JsonOut)
    ensures
        members_view(final(members)@) == entries_insert(members_view(old(members)@), key@, value.view_json()),
{
    let ghost es = members_view(members@);
    let mut i: usize = 0;
    assert(es.skip(0) == es);
    while i < members.len()
        invariant
            i <= members@.len(),
            members@ == old(members)@,
            es == members_view(members@),
            key_index(es, key@) == match key_index(es.skip(i as int), key@) {
                Some(j) => Some(j + i),
                None => None,
            },
        decreases members@.len() - i,
    {
        assert(es.skip(i as int)[0] == es[i as int]);
        assert(es.skip(i as int).drop_first() == es.skip(i + 1int));
        if str_eq(members[i].0.as_str(), key.as_str()) {
            let (k, _old) = members.remove(i);
            members.insert(i, (k, value));
            proof {
                assert(key_index(es, key@) == Some(i as int));
                assert(members_view(members@) =~= es.update(i as int, (es[i as int].0, value.view_json())));
            }
            return;
        }
        i = i + 1;
    }
    members.push((key, value));
    proof {
        assert(key_index(es.skip(i as int), key@) is None);
        assert(members_view(members@) =~= es.push((key@, value.view_json())));
    }
}


/// An object with `members`, in order.
pub fn object_of(members: Vec<(String, JsonOut)>) -> (r: JsonOut)
    ensures
        r.view_json() == JsonView::Object(members_view(members@)),
{
    proof {
        lemma_object_view(members);
    }
    JsonOut::Object(members)
}

/// An array of `items`, in order.
pub fn array_of(items: Vec<JsonOut>) -> (r: JsonOut)
    ensures
        r.view_json() == JsonView::Array(items_view(items@)),
{
    proof {
        lemma_array_view(items);
    }
    JsonOut::Array(items)
}

/// The object `{ key: value }`.
pub fn object_with(key: &str, value: JsonOut) -> (r: JsonOut)
    ensures
        r.view_json() == JsonView::Object(seq![(key@, value.view_json())]),
{
    let ghost v = value.view_json();
    let mut members: Vec<(String, JsonOut)> = Vec::new();
    members.push((crate::text::string_of(key), value));
    let r = object_of(members);
    proof {
        assert(members_view(members@) =~= seq![(key@, v)]);
    }
    r
}


/// Each value `v` of `es` as the object `{ "$value": v }`.
pub open spec fn value_wrapped(es: Seq<(Seq<char>, JsonView)>) -> Seq<(Seq<char>, JsonView)> {
    es.map_values(|e: (Seq<char>, JsonView)| (e.0, JsonView::Object(seq![("$value"@, e.1)])))
}

/// The file `{ group: { members } }`.
pub open spec fn group_file_view(group: Seq<char>, members: Seq<(Seq<char>, JsonView)>) -> JsonView {
    JsonView::Object(seq![(group, JsonView::Object(members))])
}

/// Sets each member of `tokens` in turn, as `object_insert` does.
pub fn insert_each(group: &mut Vec<(String, JsonOut)>, tokens: Vec<(String, JsonOut)>)
    ensures
        members_view(final(group)@) == insert_all(members_view(old(group)@), members_view(tokens@)),
{
    let ghost start = members_view(group@);
    let ghost all = members_view(tokens@);
    let mut rest = tokens;
    let mut i: usize = 0;
    let n = rest.len();
    assert(all.take(0) =~= Seq::<(Seq<char>, JsonView)>::empty());
    while i < n
        invariant
            i <= n == all.len(),
            members_view(rest@) == all.skip(i as int),
            members_view(group@) == insert_all(start, all.take(i as int)),
        decreases n - i,
    {
        assert(rest@.len() > 0) by {
            assert(members_view(rest@).len() == all.len() - i);
        }
        let ghost old_rest = rest@;
        let (name, value) = rest.remove(0);
        proof {
            assert(all.take(i + 1int) == all.take(i as int).push(all[i as int]));
            assert(members_view(old_rest)[0] == all[i as int]);
            assert(name@ == all[i as int].0 && value.view_json() == all[i as int].1);
            lemma_insert_all_push(start, all.take(i as int), all[i as int].0, all[i as int].1);
            assert(rest@ =~= old_rest.subrange(1, old_rest.len() as int));
            assert(members_view(old_rest).len() == old_rest.len());
            assert(members_view(rest@).len() == rest@.len());
            assert(all.skip(i + 1int).len() == rest@.len());
            assert forall|j: int| 0 <= j < rest@.len() implies #[trigger] members_view(rest@)[j] == all.skip(i + 1int)[j] by {
                assert(rest@[j] == old_rest[j + 1]);
                assert(members_view(old_rest)[j + 1] == all.skip(i as int)[j + 1]);
            }
            assert(members_view(rest@) =~= all.skip(i + 1int));
        }
        object_insert(group, name, value);
        i = i + 1;
    }
    proof {
        assert(all.take(n as int) == all);
    }
}

/// Each value `v` of `tokens` as the object `{ "$value": v }`.
pub fn wrap_each(tokens: Vec<(String, JsonOut)>) -> (r: Vec<(String, JsonOut)>)
    ensures
        members_view(r@) == value_wrapped(members_view(tokens@)),
{
    let ghost all = members_view(tokens@);
    let mut rest = tokens;
    let mut out: Vec<(String, JsonOut)> = Vec::new();
    let mut i: usize = 0;
    let n = rest.len();
    while i < n
        invariant
            i <= n == all.len(),
            members_view(rest@) == all.skip(i as int),
            members_view(out@) == value_wrapped(all.take(i as int)),
        decreases n - i,
    {
        assert(rest@.len() > 0) by {
            assert(members_view(rest@).len() == all.len() - i);
        }
        let ghost old_rest = rest@;
        let (name, value) = rest.remove(0);
        proof {
            assert(members_view(old_rest)[0] == all[i as int]);
            assert(name@ == all[i as int].0 && value.view_json() == all[i as int].1);
            assert(rest@ =~= old_rest.subrange(1, old_rest.len() as int));
            assert(members_view(old_rest).len() == old_rest.len());
            assert(members_view(rest@).len() == rest@.len());
            assert(all.skip(i + 1int).len() == rest@.len());
            assert forall|j: int| 0 <= j < rest@.len() implies #[trigger] members_view(rest@)[j] == all.skip(i + 1int)[j] by {
                assert(rest@[j] == old_rest[j + 1]);
                assert(members_view(old_rest)[j + 1] == all.skip(i as int)[j + 1]);
            }
            assert(members_view(rest@) =~= all.skip(i + 1int));
        }
        let wrapped = object_with("$value", value);
        let ghost before = out@;
        out.push((name, wrapped));
        proof {
            assert(members_view(before).len() == before.len());
            assert(value_wrapped(all.take(i as int)).len() == i);
            assert(before.len() == i);
            assert(out@ == before.push((name, wrapped)));
            assert forall|j: int| 0 <= j < out@.len() implies #[trigger] members_view(out@)[j] == value_wrapped(all.take(i + 1int))[j] by {
                if j < i {
                    assert(out@[j] == before[j]);
                    assert(members_view(before)[j] == value_wrapped(all.take(i as int))[j]);
                }
            }
            assert(members_view(out@) =~= value_wrapped(all.take(i + 1int)));
        }
        i = i + 1;
    }
    proof {
        assert(all.take(n as int) == all);
    }
    out
}

} // verus!
