//! JSON values as the converters read them.

use vstd::prelude::*;
use crate::text::str_eq;

verus! {

/// A JSON number, held as what the converters read of it. The reader of the
/// JSON text fills these from the number as `serde_json` gives it.
#[derive(Debug)]
pub struct JsonNumber {
    /// The number as `serde_json` prints it.
    pub text: String,
    /// The number as an `i64`, where it is one.
    pub integer: Option<i64>,
    /// The number read as `f64`, printed for CSS: without a fractional part
    /// when it is integral, and otherwise in Rust's shortest form.
    pub css: String,
    /// The number times 100, printed for CSS in the same way.
    pub css_percent: String,
    /// The number times 255 rounded to an integer, printed for CSS.
    pub css_channel: String,
    /// Whether the number is at least 1.
    pub at_least_one: bool,
}

/// A JSON value. An object keeps its members in the order of the text.
#[derive(Debug)]
pub enum Json {
    Null,
    Bool(bool),
    Number(JsonNumber),
    Str(String),
    Array(Vec<Json>),
    Object(Vec<(String, Json)>),
}

/// The value of the first member of `members` named `key`.
pub open spec fn field_of(members: Seq<(String, Json)>, key: Seq<char>) -> Option<Json>
    decreases members.len(),
{
    if members.len() == 0 {
        None
    } else if members[0].0@ == key {
        Some(members[0].1)
    } else {
        field_of(members.drop_first(), key)
    }
}

/// `value[key]` where `value` is an object, as `Value::get` gives it.
pub open spec fn json_get(value: Json, key: Seq<char>) -> Option<Json> {
    match value {
        Json::Object(members) => field_of(members@, key),
        _ => None,
    }
}

/// The string that `value` is, if it is one.
pub open spec fn json_as_str(value: Option<Json>) -> Option<Seq<char>> {
    match value {
        Some(Json::Str(s)) => Some(s@),
        _ => None,
    }
}

/// The value of the first member named `key`.
pub fn field<'a>(members: &'a [(String, Json)], key: &str) -> (r: Option<&'a Json>)
    ensures
        match r {
            Some(v) => field_of(members@, key@) == Some(*v),
            None => field_of(members@, key@) is None,
        },
{
    let mut i: usize = 0;
    assert(members@.skip(0) == members@);
    while i < members.len()
        invariant
            i <= members@.len(),
            field_of(members@, key@) == field_of(members@.skip(i as int), key@),
        decreases members@.len() - i,
    {
        assert(members@.skip(i as int).drop_first() == members@.skip(i + 1int));
        if str_eq(members[i].0.as_str(), key) {
            return Some(&members[i].1);
        }
        i = i + 1;
    }
    None
}

/// `value[key]` where `value` is an object.
pub fn get<'a>(value: &'a Json, key: &str) -> (r: Option<&'a Json>)
    ensures
        match r {
            Some(v) => json_get(*value, key@) == Some(*v),
            None => json_get(*value, key@) is None,
        },
{
    match value {
        Json::Object(members) => field(members.as_slice(), key),
        _ => None,
    }
}

/// `value[key]` as a string, where it is one.
pub fn get_str<'a>(value: &'a Json, key: &str) -> (r: Option<&'a String>)
    ensures
        match r {
            Some(s) => json_as_str(json_get(*value, key@)) == Some(s@),
            None => json_as_str(json_get(*value, key@)) is None,
        },
{
    match get(value, key) {
        Some(Json::Str(s)) => Some(s),
        _ => None,
    }
}


/// A JSON value as the contracts state it: a number by its text, an object by
/// its members in order.
pub enum JView {
    Null,
    Bool(bool),
    Number(Seq<char>),
    Str(Seq<char>),
    Array(Seq<JView>),
    Object(Seq<(Seq<char>, JView)>),
}

impl Json {
    /// The value this JSON stands for.
    pub open spec fn jview(self) -> JView
        decreases self,
    {
        match self {
            Json::Null => JView::Null,
            Json::Bool(b) => JView::Bool(b),
            Json::Number(n) => JView::Number(n.text@),
            Json::Str(s) => JView::Str(s@),
            Json::Array(items) => JView::Array(
                Seq::new(
                    items@.len(),
                    |i: int|
                        if 0 <= i < items@.len() {
                            items@[i].jview()
                        } else {
                            JView::Null
                        },
                ),
            ),
            Json::Object(members) => JView::Object(
                Seq::new(
                    members@.len(),
                    |i: int|
                        if 0 <= i < members@.len() {
                            (members@[i].0@, members@[i].1.jview())
                        } else {
                            (Seq::empty(), JView::Null)
                        },
                ),
            ),
        }
    }
}

/// The members of an object, as the contracts state them.
pub open spec fn jmembers(members: Seq<(String, Json)>) -> Seq<(Seq<char>, JView)> {
    members.map_values(|m: (String, Json)| (m.0@, m.1.jview()))
}

/// The items of an array, as the contracts state them.
pub open spec fn jitems(items: Seq<Json>) -> Seq<JView> {
    items.map_values(|j: Json| j.jview())
}

pub proof fn lemma_jobject(members: Vec<(String, Json)>)
    ensures
        Json::Object(members).jview() == JView::Object(jmembers(members@)),
{
    match Json::Object(members).jview() {
        JView::Object(s) => assert(s =~= jmembers(members@)),
        _ => {},
    }
}

pub proof fn lemma_jarray(items: Vec<Json>)
    ensures
        Json::Array(items).jview() == JView::Array(jitems(items@)),
{
    match Json::Array(items).jview() {
        JView::Array(s) => assert(s =~= jitems(items@)),
        _ => {},
    }
}

/// The value of the member named `key`, as `Map::get` finds it.
pub open spec fn jfield(members: Seq<(Seq<char>, JView)>, key: Seq<char>) -> Option<JView> {
    match crate::ordered_map::key_index(members, key) {
        Some(i) => Some(members[i].1),
        None => None,
    }
}

/// The string that an optional value is, if it is one.
pub open spec fn jstr(value: Option<JView>) -> Option<Seq<char>> {
    match value {
        Some(JView::Str(s)) => Some(s),
        _ => None,
    }
}

/// A copy of a number.
pub fn clone_number(n: &JsonNumber) -> (r: JsonNumber)
    ensures
        r.text@ == n.text@,
{
    JsonNumber {
        text: n.text.clone(),
        integer: n.integer,
        css: n.css.clone(),
        css_percent: n.css_percent.clone(),
        css_channel: n.css_channel.clone(),
        at_least_one: n.at_least_one,
    }
}

/// A copy of a JSON value.
pub fn clone_json(value: &Json) -> (r: Json)
    ensures
        r.jview() == value.jview(),
    decreases value,
{
    match value {
        Json::Null => Json::Null,
        Json::Bool(b) => Json::Bool(*b),
        Json::Number(n) => Json::Number(clone_number(n)),
        Json::Str(s) => Json::Str(s.clone()),
        Json::Array(items) => {
            let mut out: Vec<Json> = Vec::new();
            let mut i: usize = 0;
            while i < items.len()
                invariant
                    i <= items@.len(),
                    *value == Json::Array(*items),
                    out@.len() == i,
                    forall|j: int| 0 <= j < i ==> (#[trigger] out@[j]).jview() == items@[j].jview(),
                decreases items@.len() - i,
            {
                proof {
                    let v = *value;
                    assert(v->Array_0 == *items);
                    assert(decreases_to!(v => v->Array_0));
                    assert(decreases_to!(v->Array_0 => v->Array_0@));
                    assert(decreases_to!(v->Array_0@ => v->Array_0@[i as int]));
                }
                let c = clone_json(&items[i]);
                out.push(c);
                i = i + 1;
            }
            proof {
                lemma_jarray(out);
                lemma_jarray(*items);
                assert(jitems(out@) =~= jitems(items@));
            }
            Json::Array(out)
        },
        Json::Object(members) => {
            let mut out: Vec<(String, Json)> = Vec::new();
            let mut i: usize = 0;
            while i < members.len()
                invariant
                    i <= members@.len(),
                    *value == Json::Object(*members),
                    out@.len() == i,
                    forall|j: int| 0 <= j < i ==> (#[trigger] out@[j]).0@ == members@[j].0@
                        && out@[j].1.jview() == members@[j].1.jview(),
                decreases members@.len() - i,
            {
                proof {
                    let v = *value;
                    assert(v->Object_0 == *members);
                    assert(decreases_to!(v => v->Object_0));
                    assert(decreases_to!(v->Object_0 => v->Object_0@));
                    assert(decreases_to!(v->Object_0@ => v->Object_0@[i as int]));
                    assert(decreases_to!(v->Object_0@[i as int] => v->Object_0@[i as int].1));
                }
                let c = clone_json(&members[i].1);
                out.push((members[i].0.clone(), c));
                i = i + 1;
            }
            proof {
                lemma_jobject(out);
                lemma_jobject(*members);
                assert(jmembers(out@) =~= jmembers(members@));
            }
            Json::Object(out)
        },
    }
}

/// Sets member `key`: an existing member keeps its place and takes the value,
/// otherwise the member is added last.
pub fn json_insert(members: &mut Vec<(String, Json)>, key: String, value: Json)
    ensures
        jmembers(final(members)@) == crate::ordered_map::entries_insert(jmembers(old(members)@), key@, value.jview()),
{
    let ghost es = jmembers(members@);
    let mut i: usize = 0;
    assert(es.skip(0) == es);
    while i < members.len()
        invariant
            i <= members@.len(),
            members@ == old(members)@,
            es == jmembers(members@),
            crate::ordered_map::key_index(es, key@) == match crate::ordered_map::key_index(es.skip(i as int), key@) {
                Some(j) => Some(j + i),
                None => None,
            },
        decreases members@.len() - i,
    {
        assert(es.skip(i as int)[0] == es[i as int]);
        assert(es.skip(i as int).drop_first() == es.skip(i + 1int));
        if str_eq(members[i].0.as_str(), key.as_str()) {
            let (k, _old) = members.remove(i);
            members.insert(i, (k, value));
            proof {
                assert(crate::ordered_map::key_index(es, key@) == Some(i as int));
                assert(jmembers(members@) =~= es.update(i as int, (es[i as int].0, value.jview())));
            }
            return;
        }
        i = i + 1;
    }
    members.push((key, value));
    proof {
        assert(crate::ordered_map::key_index(es.skip(i as int), key@) is None);
        assert(jmembers(members@) =~= es.push((key@, value.jview())));
    }
}

/// `value[key]` where `value` is an object.
pub open spec fn jget(value: JView, key: Seq<char>) -> Option<JView> {
    match value {
        JView::Object(members) => jfield(members, key),
        _ => None,
    }
}

/// The member found by `field_of` is the one `jfield` finds.
pub proof fn lemma_jfield(members: Seq<(String, Json)>, key: Seq<char>)
    ensures
        jfield(jmembers(members), key) == match field_of(members, key) {
            Some(v) => Some(v.jview()),
            None => None::<JView>,
        },
    decreases members.len(),
{
    let ms = jmembers(members);
    if members.len() > 0 {
        assert(ms[0] == (members[0].0@, members[0].1.jview()));
        if members[0].0@ != key {
            assert(ms.drop_first() =~= jmembers(members.drop_first()));
            lemma_jfield(members.drop_first(), key);
            match crate::ordered_map::key_index(ms.drop_first(), key) {
                Some(i) => {
                    crate::ordered_map::lemma_key_index_bounds(ms.drop_first(), key);
                    assert(ms[i + 1] == ms.drop_first()[i]);
                },
                None => {},
            }
        }
    }
}

} // verus!
