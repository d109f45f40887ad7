//! Aliases between Figma collections: each alias is resolved to a token of
//! some mode file, and one that crosses collections carries Figma's alias data.

use vstd::prelude::*;
use crate::text::{push_str, str_eq, string_of};
use crate::tailwind_v4::token::{is_metadata_key, is_metadata_key_spec, join_with, opt_view};
use crate::tailwind_v4::resolver::views;
use crate::ordered_map::{entries_insert, key_index};
use crate::tailwind_v4::alias::alias_reference_spec;
use crate::json::{field, jfield, jitems, jmembers, jstr, lemma_jarray, lemma_jfield, lemma_jobject, JView, Json};

verus! {

/// A number text that `serde_json` writes for zero as a float.
pub open spec fn zero_text(t: Seq<char>) -> bool {
    t == "0.0"@ || t == "-0.0"@
}

/// Whether two JSON values are equal as `serde_json::Value`s: numbers by
/// value (written alike, or both zero), objects as maps whatever the order
/// of their members.
pub open spec fn jsame(a: JView, b: JView) -> bool
    decreases a,
{
    match a {
        JView::Null => b is Null,
        JView::Bool(x) => b matches JView::Bool(y) && x == y,
        JView::Number(x) => b matches JView::Number(y) && (x == y || (zero_text(x) && zero_text(y))),
        JView::Str(x) => b matches JView::Str(y) && x == y,
        JView::Array(xs) => match b {
            JView::Array(ys) => xs.len() == ys.len() && forall|i: int| 0 <= i < xs.len() ==> jsame(#[trigger] xs[i], ys[i]),
            _ => false,
        },
        JView::Object(xs) => match b {
            JView::Object(ys) => xs.len() == ys.len() && forall|i: int| 0 <= i < xs.len() ==> match jfield(ys, (#[trigger] xs[i]).0) {
                Some(v) => jsame(xs[i].1, v),
                None => false,
            },
            _ => false,
        },
    }
}

fn is_zero_text(t: &str) -> (r: bool)
    ensures
        r == zero_text(t@),
{
    str_eq(t, "0.0") || str_eq(t, "-0.0")
}

/// Whether two JSON values are equal as `serde_json::Value`s.
pub fn json_equal(a: &Json, b: &Json) -> (r: bool)
    ensures
        r == jsame(a.jview(), b.jview()),
    decreases a,
{
    match a {
        Json::Null => match b {
            Json::Null => true,
            _ => false,
        },
        Json::Bool(x) => match b {
            Json::Bool(y) => *x == *y,
            _ => false,
        },
        Json::Number(x) => match b {
            Json::Number(y) => str_eq(x.text.as_str(), y.text.as_str())
                || (is_zero_text(x.text.as_str()) && is_zero_text(y.text.as_str())),
            _ => false,
        },
        Json::Str(x) => match b {
            Json::Str(y) => str_eq(x.as_str(), y.as_str()),
            _ => false,
        },
        Json::Array(xs) => {
            proof {
                lemma_jarray(*xs);
                if b is Array {
                    lemma_jarray(b->Array_0);
                }
                if b is Object {
                    lemma_jobject(b->Object_0);
                }
            }
            let ys = match b {
                Json::Array(ys) => ys,
                _ => return false,
            };
            if xs.len() != ys.len() {
                return false;
            }
            let mut i: usize = 0;
            while i < xs.len()
                invariant
                    i <= xs@.len() == ys@.len(),
                    *a == Json::Array(*xs),
                    a.jview() == JView::Array(jitems(xs@)),
                    b.jview() == JView::Array(jitems(ys@)),
                    forall|j: int| 0 <= j < i ==> jsame(#[trigger] jitems(xs@)[j], jitems(ys@)[j]),
                decreases xs@.len() - i,
            {
                proof {
                    let v = *a;
                    assert(decreases_to!(v => v->Array_0));
                    assert(decreases_to!(v->Array_0 => v->Array_0@));
                    assert(decreases_to!(v->Array_0@ => v->Array_0@[i as int]));
                }
                if !json_equal(&xs[i], &ys[i]) {
                    proof {
                        assert(jitems(xs@)[i as int] == xs@[i as int].jview());
                        assert(jitems(ys@)[i as int] == ys@[i as int].jview());
                    }
                    return false;
                }
                i = i + 1;
            }
            true
        },
        Json::Object(xs) => {
            proof {
                lemma_jobject(*xs);
                if b is Array {
                    lemma_jarray(b->Array_0);
                }
                if b is Object {
                    lemma_jobject(b->Object_0);
                }
            }
            let ys = match b {
                Json::Object(ys) => ys,
                _ => return false,
            };
            if xs.len() != ys.len() {
                return false;
            }
            let mut i: usize = 0;
            while i < xs.len()
                invariant
                    i <= xs@.len() == ys@.len(),
                    *a == Json::Object(*xs),
                    a.jview() == JView::Object(jmembers(xs@)),
                    b.jview() == JView::Object(jmembers(ys@)),
                    forall|j: int| 0 <= j < i ==> match jfield(jmembers(ys@), (#[trigger] jmembers(xs@)[j]).0) {
                        Some(v) => jsame(jmembers(xs@)[j].1, v),
                        None => false,
                    },
                decreases xs@.len() - i,
            {
                let ghost key = xs@[i as int].0@;
                assert(jmembers(xs@)[i as int] == (key, xs@[i as int].1.jview()));
                proof {
                    lemma_jfield(ys@, key);
                }
                let other = match field(ys.as_slice(), xs[i].0.as_str()) {
                    Some(v) => v,
                    None => return false,
                };
                proof {
                    let v = *a;
                    assert(decreases_to!(v => v->Object_0));
                    assert(decreases_to!(v->Object_0 => v->Object_0@));
                    assert(decreases_to!(v->Object_0@ => v->Object_0@[i as int]));
                    assert(decreases_to!(v->Object_0@[i as int] => v->Object_0@[i as int].1));
                }
                if !json_equal(&xs[i].1, other) {
                    return false;
                }
                i = i + 1;
            }
            true
        },
    }
}

/// A token an alias can refer to: where it is, what type it has and its value.
pub struct TargetView {
    pub collection: Seq<char>,
    pub name: Seq<char>,
    pub token_type: Seq<char>,
    pub value: JView,
}

/// Whether two targets are equal, their values as `serde_json::Value`s.
pub open spec fn target_same(a: TargetView, b: TargetView) -> bool {
    a.collection == b.collection && a.name == b.name && a.token_type == b.token_type && jsame(a.value, b.value)
}

/// The targets found under each member of a group, member by member.
pub open spec fn child_events(
    members: Seq<(Seq<char>, JView)>,
    collection: Seq<char>,
    path: Seq<Seq<char>>,
    node_type: Option<Seq<char>>,
) -> Seq<Result<Seq<(Seq<char>, TargetView)>, Seq<char>>>
    decreases members, 0nat,
{
    Seq::new(
        members.len(),
        |i: int|
            if 0 <= i < members.len() {
                if is_metadata_key_spec(members[i].0) {
                    Ok(Seq::empty())
                } else {
                    target_events(members[i].1, collection, path.push(members[i].0), node_type)
                }
            } else {
                Ok(Seq::empty())
            },
    )
}

/// The first `n` results joined in order; the first failure is the error.
pub open spec fn concat_events(results: Seq<Result<Seq<(Seq<char>, TargetView)>, Seq<char>>>, n: int) -> Result<Seq<(Seq<char>, TargetView)>, Seq<char>>
    decreases n,
{
    if n <= 0 {
        Ok(Seq::empty())
    } else {
        match concat_events(results, n - 1) {
            Err(e) => Err(e),
            Ok(done) => match results[n - 1] {
                Err(e) => Err(e),
                Ok(more) => Ok(done + more),
            },
        }
    }
}

/// The tokens under `value`, in order, each with its dotted path as the key
/// an alias names it by; a token needs a type, its own or inherited.
pub open spec fn target_events(
    value: JView,
    collection: Seq<char>,
    path: Seq<Seq<char>>,
    inherited: Option<Seq<char>>,
) -> Result<Seq<(Seq<char>, TargetView)>, Seq<char>>
    decreases value, 1nat,
{
    match value {
        JView::Object(members) => {
            let node_type = match jstr(jfield(members, "$type"@)) {
                Some(t) => Some(t),
                None => inherited,
            };
            match jfield(members, "$value"@) {
                Some(v) => match node_type {
                    None => Err("missing `$type` for Figma token `"@ + join_with(path, "."@) + "`"@),
                    Some(t) => Ok(seq![(join_with(path, "."@), TargetView {
                        collection,
                        name: join_with(path, "/"@),
                        token_type: t,
                        value: v,
                    })]),
                },
                None => concat_events(child_events(members, collection, path, node_type), members.len() as int),
            }
        },
        _ => Ok(Seq::empty()),
    }
}

/// What precedes the first `/` of `path` (all of it when there is none).
pub open spec fn first_segment(path: Seq<char>) -> Seq<char>
    decreases path.len(),
{
    if path.len() == 0 {
        path
    } else if path[0] == '/' {
        Seq::empty()
    } else {
        seq![path[0]] + first_segment(path.drop_first())
    }
}

/// The targets of the first `n` mode files, in order; the collection of a
/// file is the first segment of its path.
pub open spec fn files_events(files: Seq<(Seq<char>, JView)>, n: int) -> Result<Seq<(Seq<char>, TargetView)>, Seq<char>>
    decreases n,
{
    if n <= 0 {
        Ok(Seq::empty())
    } else {
        match files_events(files, n - 1) {
            Err(e) => Err(e),
            Ok(done) => match target_events(files[n - 1].1, first_segment(files[n - 1].0), Seq::empty(), None) {
                Err(e) => Err(e),
                Ok(more) => Ok(done + more),
            },
        }
    }
}

/// Whether some target of `targets` equals `t`.
pub open spec fn holds_target(targets: Seq<TargetView>, t: TargetView) -> bool {
    exists|j: int| 0 <= j < targets.len() && target_same(#[trigger] targets[j], t)
}

/// The index after adding target `t` under `key`: a target equal to one
/// already there is not added again.
pub open spec fn index_add(index: Seq<(Seq<char>, Seq<TargetView>)>, key: Seq<char>, t: TargetView) -> Seq<(Seq<char>, Seq<TargetView>)> {
    match crate::ordered_map::key_index(index, key) {
        Some(i) => if holds_target(index[i].1, t) {
            index
        } else {
            index.update(i, (key, index[i].1.push(t)))
        },
        None => index.push((key, seq![t])),
    }
}

/// The index after adding the first `n` targets in turn.
pub open spec fn index_upto(index: Seq<(Seq<char>, Seq<TargetView>)>, events: Seq<(Seq<char>, TargetView)>, n: int) -> Seq<(Seq<char>, Seq<TargetView>)>
    decreases n,
{
    if n <= 0 {
        index
    } else {
        let done = index_upto(index, events, n - 1);
        index_add(done, events[n - 1].0, events[n - 1].1)
    }
}

/// The targets an alias can refer to, by the dotted path of their tokens.
pub struct TokenTarget {
    pub collection: String,
    pub name: String,
    pub token_type: String,
    pub value: Json,
}

impl TokenTarget {
    pub open spec fn target_view(&self) -> TargetView {
        TargetView {
            collection: self.collection@,
            name: self.name@,
            token_type: self.token_type@,
            value: self.value.jview(),
        }
    }
}

pub open spec fn targets_view(targets: Seq<TokenTarget>) -> Seq<TargetView> {
    targets.map_values(|t: TokenTarget| t.target_view())
}

pub open spec fn index_view(index: Seq<(String, Vec<TokenTarget>)>) -> Seq<(Seq<char>, Seq<TargetView>)> {
    index.map_values(|e: (String, Vec<TokenTarget>)| (e.0@, targets_view(e.1@)))
}

/// `parts` joined by `sep`.
pub fn join_strings(parts: &Vec<String>, sep: &str) -> (r: String)
    ensures
        r@ == join_with(views(parts@), sep@),
{
    let ghost ps = views(parts@);
    let mut out = String::new();
    let mut i: usize = 0;
    while i < parts.len()
        invariant
            i <= parts@.len(),
            ps == views(parts@),
            out@ == join_with(ps.take(i as int), sep@),
        decreases parts@.len() - i,
    {
        proof {
            assert(ps.take(i + 1int).drop_last() == ps.take(i as int));
            assert(ps[i as int] == parts@[i as int]@);
        }
        if i > 0 {
            push_str(&mut out, sep);
        }
        push_str(&mut out, parts[i].as_str());
        proof {
            if i == 0 {
                assert(ps.take(1).len() == 1);
                assert(out@ =~= join_with(ps.take(1), sep@));
            } else {
                assert(out@ =~= join_with(ps.take(i + 1int), sep@));
            }
        }
        i = i + 1;
    }
    proof {
        assert(ps.take(ps.len() as int) == ps);
    }
    out
}

/// Whether two targets are equal.
fn target_equal(a: &TokenTarget, b: &TokenTarget) -> (r: bool)
    ensures
        r == target_same(a.target_view(), b.target_view()),
{
    str_eq(a.collection.as_str(), b.collection.as_str()) && str_eq(a.name.as_str(), b.name.as_str())
        && str_eq(a.token_type.as_str(), b.token_type.as_str()) && json_equal(&a.value, &b.value)
}

/// Whether `targets` holds a target equal to `t`.
fn holds_equal(targets: &Vec<TokenTarget>, t: &TokenTarget) -> (r: bool)
    ensures
        r == holds_target(targets_view(targets@), t.target_view()),
{
    let ghost ts = targets_view(targets@);
    let mut j: usize = 0;
    while j < targets.len()
        invariant
            j <= targets@.len(),
            ts == targets_view(targets@),
            forall|k: int| 0 <= k < j ==> !target_same(#[trigger] ts[k], t.target_view()),
        decreases targets@.len() - j,
    {
        if target_equal(&targets[j], t) {
            proof {
                assert(target_same(ts[j as int], t.target_view()));
            }
            return true;
        }
        j = j + 1;
    }
    false
}

/// Adds target `t` under `key`, unless an equal target is there already.
fn index_insert(index: &mut Vec<(String, Vec<TokenTarget>)>, key: String, t: TokenTarget)
    ensures
        index_view(final(index)@) == index_add(index_view(old(index)@), key@, t.target_view()),
{
    let ghost ix = index_view(index@);
    let mut i: usize = 0;
    assert(ix.skip(0) == ix);
    while i < index.len()
        invariant
            i <= index@.len(),
            index@ == old(index)@,
            ix == index_view(index@),
            crate::ordered_map::key_index(ix, key@) == match crate::ordered_map::key_index(ix.skip(i as int), key@) {
                Some(j) => Some(j + i),
                None => None,
            },
        decreases index@.len() - i,
    {
        assert(ix.skip(i as int)[0] == ix[i as int]);
        assert(ix.skip(i as int).drop_first() == ix.skip(i + 1int));
        if str_eq(index[i].0.as_str(), key.as_str()) {
            let ghost ts = targets_view(index@[i as int].1@);
            assert(ix[i as int].1 == ts);
            proof {
                assert(crate::ordered_map::key_index(ix, key@) == Some(i as int));
            }
            if holds_equal(&index[i].1, &t) {
                return;
            }
            let (k, mut targets) = index.remove(i);
            let ghost tv = t.target_view();
            targets.push(t);
            index.insert(i, (k, targets));
            proof {
                assert(!holds_target(ts, tv));
                assert(targets_view(targets@) =~= ts.push(tv));
                assert(index_view(index@) =~= ix.update(i as int, (key@, ts.push(tv))));
            }
            return;
        }
        i = i + 1;
    }
    let ghost tv = t.target_view();
    let mut targets: Vec<TokenTarget> = Vec::new();
    targets.push(t);
    index.push((key, targets));
    proof {
        assert(crate::ordered_map::key_index(ix.skip(i as int), key@) is None);
        assert(targets_view(targets@) =~= seq![tv]);
        assert(index_view(index@) =~= ix.push((key@, seq![tv])));
    }
}

/// Adding `a` then `b` is adding `a + b`.
pub proof fn lemma_index_concat(
    index: Seq<(Seq<char>, Seq<TargetView>)>,
    a: Seq<(Seq<char>, TargetView)>,
    b: Seq<(Seq<char>, TargetView)>,
)
    ensures
        index_upto(index, a + b, (a + b).len() as int) == index_upto(index_upto(index, a, a.len() as int), b, b.len() as int),
    decreases b.len(),
{
    if b.len() == 0 {
        assert(a + b =~= a);
    } else {
        let b1 = b.drop_last();
        lemma_index_concat(index, a, b1);
        assert((a + b).drop_last() =~= a + b1);
        lemma_index_prefix(index, a + b, (a + b).len() - 1);
        lemma_index_prefix(index_upto(index, a, a.len() as int), b, b.len() - 1);
        lemma_index_same(index, a + b1, a + b, (a + b1).len() as int);
        lemma_index_same(index_upto(index, a, a.len() as int), b1, b, b1.len() as int);
    }
}

/// Only the first `n` events matter to `index_upto(.., n)`.
proof fn lemma_index_same(
    index: Seq<(Seq<char>, Seq<TargetView>)>,
    x: Seq<(Seq<char>, TargetView)>,
    y: Seq<(Seq<char>, TargetView)>,
    n: int,
)
    requires
        0 <= n <= x.len(),
        n <= y.len(),
        forall|i: int| 0 <= i < n ==> x[i] == y[i],
    ensures
        index_upto(index, x, n) == index_upto(index, y, n),
    decreases n,
{
    if n > 0 {
        lemma_index_same(index, x, y, n - 1);
    }
}

proof fn lemma_index_prefix(index: Seq<(Seq<char>, Seq<TargetView>)>, x: Seq<(Seq<char>, TargetView)>, n: int)
    requires
        0 <= n < x.len(),
    ensures
        index_upto(index, x, n + 1) == index_add(index_upto(index, x, n), x[n].0, x[n].1),
{
}

/// A failure among the first `n` results is the failure of all.
proof fn lemma_concat_stops(results: Seq<Result<Seq<(Seq<char>, TargetView)>, Seq<char>>>, n: int, total: int)
    requires
        0 <= n <= total,
        concat_events(results, n) is Err,
    ensures
        concat_events(results, total) == concat_events(results, n),
    decreases total - n,
{
    if n < total {
        lemma_concat_stops(results, n + 1, total);
    }
}

/// A copy of `path` with `key` added.
fn path_with(path: &Vec<String>, key: &String) -> (r: Vec<String>)
    ensures
        views(r@) == views(path@).push(key@),
{
    let mut out: Vec<String> = Vec::new();
    let mut i: usize = 0;
    while i < path.len()
        invariant
            i <= path@.len(),
            views(out@) == views(path@).take(i as int),
        decreases path@.len() - i,
    {
        let ghost before = out@;
        out.push(path[i].clone());
        proof {
            assert(views(before).len() == before.len());
            assert(views(path@).take(i as int).len() == i);
            assert(before.len() == i);
            assert(out@ == before.push(out@[i as int]));
            assert forall|j: int| 0 <= j < i + 1 implies #[trigger] views(out@)[j] == views(path@).take(i + 1int)[j] by {
                if j < i {
                    assert(out@[j] == before[j]);
                    assert(views(before)[j] == views(path@).take(i as int)[j]);
                }
            }
            assert(views(out@) =~= views(path@).take(i + 1int));
        }
        i = i + 1;
    }
    let ghost before = out@;
    out.push(key.clone());
    proof {
        assert(views(path@).take(path@.len() as int) =~= views(path@));
        assert(views(before).len() == before.len());
        assert(before.len() == path@.len());
        assert(out@ == before.push(out@[path@.len() as int]));
        assert forall|j: int| 0 <= j < path@.len() + 1 implies #[trigger] views(out@)[j] == views(path@).push(key@)[j] by {
            if j < path@.len() {
                assert(out@[j] == before[j]);
                assert(views(before)[j] == views(path@)[j]);
            }
        }
        assert(views(out@) =~= views(path@).push(key@));
    }
    out
}

/// Adds to `index` the tokens under `value`, found at `path`.
fn collect_targets(
    value: &Json,
    collection: &str,
    path: &Vec<String>,
    inherited: Option<&String>,
    index: &mut Vec<(String, Vec<TokenTarget>)>,
) -> (r: Result<(), String>)
    ensures
        match r {
            Ok(()) => target_events(value.jview(), collection@, views(path@), opt_view(inherited)) matches Ok(ev)
                && index_view(final(index)@) == index_upto(index_view(old(index)@), ev, ev.len() as int),
            Err(e) => target_events(value.jview(), collection@, views(path@), opt_view(inherited)) == Err::<Seq<(Seq<char>, TargetView)>, Seq<char>>(e@),
        },
    decreases value,
{
    let members = match value {
        Json::Object(members) => members,
        _ => {
            proof {
                if value is Array {
                    lemma_jarray(value->Array_0);
                }
            }
            return Ok(());
        },
    };
    proof {
        lemma_jobject(*members);
        lemma_jfield(members@, "$type"@);
        lemma_jfield(members@, "$value"@);
    }
    let node_type: Option<&String> = match field(members.as_slice(), "$type") {
        Some(Json::Str(t)) => Some(t),
        _ => inherited,
    };
    if let Some(v) = field(members.as_slice(), "$value") {
        let t = match node_type {
            Some(t) => t,
            None => {
                let mut e = string_of("missing `$type` for Figma token `");
                let key = join_strings(path, ".");
                push_str(&mut e, key.as_str());
                push_str(&mut e, "`");
                return Err(e);
            },
        };
        let key = join_strings(path, ".");
        let target = TokenTarget {
            collection: string_of(collection),
            name: join_strings(path, "/"),
            token_type: t.clone(),
            value: crate::json::clone_json(v),
        };
        let ghost tv = target.target_view();
        index_insert(index, key, target);
        proof {
            let ev = seq![(key@, tv)];
            assert(index_upto(index_view(old(index)@), ev, 0) == index_view(old(index)@));
        }
        return Ok(());
    }
    let ghost start = index_view(index@);
    let ghost jms = jmembers(members@);
    let ghost results = child_events(jms, collection@, views(path@), opt_view(node_type));
    let mut i: usize = 0;
    assert(index_upto(start, Seq::<(Seq<char>, TargetView)>::empty(), 0) == start);
    while i < members.len()
        invariant
            i <= members@.len(),
            *value == Json::Object(*members),
            jms == jmembers(members@),
            value.jview() == JView::Object(jms),
            jfield(jms, "$value"@) is None,
            opt_view(node_type) == match jstr(jfield(jms, "$type"@)) {
                Some(t) => Some(t),
                None => opt_view(inherited),
            },
            start == index_view(old(index)@),
            results == child_events(jms, collection@, views(path@), opt_view(node_type)),
            concat_events(results, i as int) matches Ok(done) && index_view(index@) == index_upto(start, done, done.len() as int),
        decreases members@.len() - i,
    {
        assert(jms[i as int] == (members@[i as int].0@, members@[i as int].1.jview()));
        let ghost done = concat_events(results, i as int)->Ok_0;
        let key = &members[i].0;
        if !is_metadata_key(key.as_str()) {
            let child_path = path_with(path, key);
            proof {
                let v = *value;
                assert(decreases_to!(v => v->Object_0));
                assert(decreases_to!(v->Object_0 => v->Object_0@));
                assert(decreases_to!(v->Object_0@ => v->Object_0@[i as int]));
                assert(decreases_to!(v->Object_0@[i as int] => v->Object_0@[i as int].1));
            }
            match collect_targets(&members[i].1, collection, &child_path, node_type, index) {
                Ok(()) => {
                    proof {
                        let more = results[i as int]->Ok_0;
                        lemma_index_concat(start, done, more);
                    }
                },
                Err(e) => {
                    proof {
                        lemma_concat_stops(results, i as int + 1, jms.len() as int);
                    }
                    return Err(e);
                },
            }
        } else {
            proof {
                assert(results[i as int] == Ok::<Seq<(Seq<char>, TargetView)>, Seq<char>>(Seq::empty()));
                assert(done + Seq::<(Seq<char>, TargetView)>::empty() =~= done);
            }
        }
        i = i + 1;
    }
    Ok(())
}

/// The first target of type `token_type` (in `collection`, when one is given).
pub open spec fn first_target(targets: Seq<TargetView>, collection: Option<Seq<char>>, token_type: Seq<char>) -> Option<TargetView>
    decreases targets.len(),
{
    if targets.len() == 0 {
        None
    } else if (match collection {
        Some(c) => targets[0].collection == c,
        None => true,
    }) && targets[0].token_type == token_type {
        Some(targets[0])
    } else {
        first_target(targets.drop_first(), collection, token_type)
    }
}

/// How many targets have type `token_type`.
pub open spec fn count_type(targets: Seq<TargetView>, token_type: Seq<char>) -> nat
    decreases targets.len(),
{
    if targets.len() == 0 {
        0
    } else {
        (if targets[0].token_type == token_type { 1nat } else { 0nat }) + count_type(targets.drop_first(), token_type)
    }
}

/// The token alias `alias` refers to from collection `current`, for a token of
/// type `token_type`: one of that type in the same collection, else one in
/// `Foundation`, else the only one of that type anywhere.
pub open spec fn resolve_spec(
    index: Seq<(Seq<char>, Seq<TargetView>)>,
    alias: Seq<char>,
    current: Seq<char>,
    token_type: Seq<char>,
) -> Option<TargetView> {
    match key_index(index, alias) {
        None => None,
        Some(i) => {
            let targets = index[i].1;
            match first_target(targets, Some(current), token_type) {
                Some(t) => Some(t),
                None => match first_target(targets, Some("Foundation"@), token_type) {
                    Some(t) => Some(t),
                    None => if count_type(targets, token_type) == 1 {
                        first_target(targets, None, token_type)
                    } else {
                        None
                    },
                },
            }
        },
    }
}

/// The first target of the given collection and type is the one the search
/// in that collection finds.
proof fn lemma_first_in_collection(targets: Seq<TargetView>, collection: Seq<char>, token_type: Seq<char>, j: int)
    requires
        0 <= j < targets.len(),
        targets[j].collection == collection,
        targets[j].token_type == token_type,
    ensures
        exists|k: int| #![trigger targets[k]]
            0 <= k <= j
            && first_target(targets, Some(collection), token_type) == Some(targets[k])
            && targets[k].collection == collection
            && targets[k].token_type == token_type
            && forall|m: int| 0 <= m < k ==> !(targets[m].collection == collection && #[trigger] targets[m].token_type == token_type),
    decreases targets.len(),
{
    if targets[0].collection == collection && targets[0].token_type == token_type {
        assert(targets[0] == targets[0]);
    } else {
        let rest = targets.drop_first();
        assert(rest[j - 1] == targets[j]);
        lemma_first_in_collection(rest, collection, token_type, j - 1);
        let k = choose|k: int| #![trigger rest[k]]
            0 <= k <= j - 1
            && first_target(rest, Some(collection), token_type) == Some(rest[k])
            && rest[k].collection == collection
            && rest[k].token_type == token_type
            && forall|m: int| 0 <= m < k ==> !(rest[m].collection == collection && #[trigger] rest[m].token_type == token_type);
        assert(targets[k + 1] == rest[k]);
        assert forall|m: int| 0 <= m < k + 1 implies !(targets[m].collection == collection && #[trigger] targets[m].token_type == token_type) by {
            if m > 0 {
                assert(targets[m] == rest[m - 1]);
            }
        }
    }
}

/// An alias resolves within its own collection first: when the entry of the
/// alias holds a target of the alias's token type in the collection the alias
/// is written in, the alias resolves to the first such target, before any
/// `Foundation` target or any single target elsewhere. So an alias to a token
/// of the same collection always resolves.
pub proof fn law_alias_prefers_own_collection(
    index: Seq<(Seq<char>, Seq<TargetView>)>,
    alias: Seq<char>,
    current: Seq<char>,
    token_type: Seq<char>,
    i: int,
    j: int,
)
    requires
        key_index(index, alias) == Some(i),
        0 <= j < index[i].1.len(),
        index[i].1[j].collection == current,
        index[i].1[j].token_type == token_type,
    ensures
        exists|k: int| #![trigger index[i].1[k]]
            0 <= k <= j
            && resolve_spec(index, alias, current, token_type) == Some(index[i].1[k])
            && index[i].1[k].collection == current
            && index[i].1[k].token_type == token_type
            && forall|m: int| 0 <= m < k ==> !(index[i].1[m].collection == current && #[trigger] index[i].1[m].token_type == token_type),
{
    let targets = index[i].1;
    lemma_first_in_collection(targets, current, token_type, j);
}

/// The object under `key` of `members`: nothing when there is none yet, and
/// no object at all when the member is something else.
pub open spec fn object_member(members: Seq<(Seq<char>, JView)>, key: Seq<char>) -> Option<Seq<(Seq<char>, JView)>> {
    match jfield(members, key) {
        None => Some(Seq::empty()),
        Some(JView::Object(m)) => Some(m),
        Some(_) => None,
    }
}

/// A token with Figma's alias data for `target` under
/// `$extensions."com.figma.aliasData"`; where a member on that path is no
/// object, the token is left as it is (an empty `$extensions` aside).
pub open spec fn alias_data_spec(token: Seq<(Seq<char>, JView)>, target: TargetView) -> Seq<(Seq<char>, JView)> {
    match object_member(token, "$extensions"@) {
        None => token,
        Some(extensions) => {
            let with_extensions = if jfield(token, "$extensions"@) is None {
                entries_insert(token, "$extensions"@, JView::Object(Seq::empty()))
            } else {
                token
            };
            match object_member(extensions, "com.figma.aliasData"@) {
                None => with_extensions,
                Some(figma) => {
                    let data = entries_insert(
                        entries_insert(figma, "targetVariableSetName"@, JView::Str(target.collection)),
                        "targetVariableName"@,
                        JView::Str(target.name),
                    );
                    entries_insert(
                        with_extensions,
                        "$extensions"@,
                        JView::Object(entries_insert(extensions, "com.figma.aliasData"@, JView::Object(data))),
                    )
                },
            }
        },
    }
}

/// The results of rebuilding the members of a group, one by one.
pub open spec fn ext_results(
    file_path: Seq<char>,
    current: Seq<char>,
    members: Seq<(Seq<char>, JView)>,
    path: Seq<Seq<char>>,
    node_type: Option<Seq<char>>,
    index: Seq<(Seq<char>, Seq<TargetView>)>,
) -> Seq<Result<JView, Seq<char>>>
    decreases members, 0nat,
{
    Seq::new(
        members.len(),
        |i: int|
            if 0 <= i < members.len() {
                if is_metadata_key_spec(members[i].0) {
                    Ok(members[i].1)
                } else {
                    ext_node_spec(file_path, current, members[i].1, path.push(members[i].0), node_type, index)
                }
            } else {
                Ok(JView::Null)
            },
    )
}

/// The members with their values replaced by the first `n` results in
/// place; the first failure is the error.
pub open spec fn replace_upto(members: Seq<(Seq<char>, JView)>, results: Seq<Result<JView, Seq<char>>>, n: int) -> Result<Seq<(Seq<char>, JView)>, Seq<char>>
    decreases n,
{
    if n <= 0 {
        Ok(Seq::empty())
    } else {
        match replace_upto(members, results, n - 1) {
            Err(e) => Err(e),
            Ok(done) => match results[n - 1] {
                Err(e) => Err(e),
                Ok(v) => Ok(done.push((members[n - 1].0, v))),
            },
        }
    }
}

/// The tokens under `value`, in mode file `file_path` of collection `current`,
/// with each alias to a token of another collection replaced by that token's
/// value and given Figma's alias data; an alias that resolves to nothing is
/// refused.
pub open spec fn ext_node_spec(
    file_path: Seq<char>,
    current: Seq<char>,
    value: JView,
    path: Seq<Seq<char>>,
    inherited: Option<Seq<char>>,
    index: Seq<(Seq<char>, Seq<TargetView>)>,
) -> Result<JView, Seq<char>>
    decreases value, 1nat,
{
    match value {
        JView::Object(members) => {
            let node_type = match jstr(jfield(members, "$type"@)) {
                Some(t) => Some(t),
                None => inherited,
            };
            if jfield(members, "$value"@) is Some {
                match jstr(jfield(members, "$value"@)) {
                    None => Ok(value),
                    Some(s) => match alias_reference_spec(s) {
                        None => Ok(value),
                        Some(alias) => match node_type {
                            None => Err("missing `$type` for alias token `"@ + join_with(path, "."@) + "` in `"@ + file_path + "`"@),
                            Some(t) => match resolve_spec(index, alias, current, t) {
                                None => Err("unresolved alias `{"@ + alias + "}` for `"@ + join_with(path, "."@) + "` in `"@ + file_path + "`"@),
                                Some(target) => if target.collection != current {
                                    Ok(JView::Object(alias_data_spec(entries_insert(members, "$value"@, target.value), target)))
                                } else {
                                    Ok(value)
                                },
                            },
                        },
                    },
                }
            } else {
                match replace_upto(members, ext_results(file_path, current, members, path, node_type, index), members.len() as int) {
                    Err(e) => Err(e),
                    Ok(out) => Ok(JView::Object(out)),
                }
            }
        },
        _ => Ok(value),
    }
}

/// The first target of type `token_type` (in `collection`, when one is given).
fn find_target<'a>(targets: &'a Vec<TokenTarget>, collection: Option<&str>, token_type: &str) -> (r: Option<&'a TokenTarget>)
    ensures
        match r {
            Some(t) => first_target(targets_view(targets@), match collection { Some(c) => Some(c@), None => None }, token_type@) == Some(t.target_view()),
            None => first_target(targets_view(targets@), match collection { Some(c) => Some(c@), None => None }, token_type@) is None,
        },
{
    let ghost ts = targets_view(targets@);
    let ghost c = match collection { Some(c) => Some(c@), None => None::<Seq<char>> };
    let mut i: usize = 0;
    assert(ts.skip(0) == ts);
    while i < targets.len()
        invariant
            i <= targets@.len() == ts.len(),
            ts == targets_view(targets@),
            c == match collection { Some(c) => Some(c@), None => None::<Seq<char>> },
            first_target(ts, c, token_type@) == first_target(ts.skip(i as int), c, token_type@),
        decreases targets@.len() - i,
    {
        assert(ts.skip(i as int)[0] == ts[i as int]);
        assert(ts.skip(i as int).drop_first() == ts.skip(i + 1int));
        let in_collection = match collection {
            Some(name) => str_eq(targets[i].collection.as_str(), name),
            None => true,
        };
        if in_collection && str_eq(targets[i].token_type.as_str(), token_type) {
            return Some(&targets[i]);
        }
        i = i + 1;
    }
    None
}

/// Whether exactly one target has type `token_type`.
fn single_of_type(targets: &Vec<TokenTarget>, token_type: &str) -> (r: bool)
    ensures
        r == (count_type(targets_view(targets@), token_type@) == 1),
{
    let ghost ts = targets_view(targets@);
    let mut count: usize = 0;
    let mut i: usize = 0;
    assert(ts.skip(0) == ts);
    while i < targets.len()
        invariant
            i <= targets@.len() == ts.len(),
            ts == targets_view(targets@),
            count <= 1,
            count_type(ts, token_type@) == count + count_type(ts.skip(i as int), token_type@),
        decreases targets@.len() - i,
    {
        assert(ts.skip(i as int)[0] == ts[i as int]);
        assert(ts.skip(i as int).drop_first() == ts.skip(i + 1int));
        if str_eq(targets[i].token_type.as_str(), token_type) {
            count = count + 1;
            if count == 2 {
                return false;
            }
        }
        i = i + 1;
    }
    proof {
        assert(ts.skip(i as int).len() == 0);
    }
    count == 1
}

/// The target an alias refers to.
fn resolve_alias_target<'a>(
    alias: &str,
    current: &str,
    token_type: &str,
    index: &'a Vec<(String, Vec<TokenTarget>)>,
) -> (r: Option<&'a TokenTarget>)
    ensures
        match r {
            Some(t) => resolve_spec(index_view(index@), alias@, current@, token_type@) == Some(t.target_view()),
            None => resolve_spec(index_view(index@), alias@, current@, token_type@) is None,
        },
{
    let ghost ix = index_view(index@);
    let mut i: usize = 0;
    assert(ix.skip(0) == ix);
    while i < index.len()
        invariant
            i <= index@.len() == ix.len(),
            ix == index_view(index@),
            key_index(ix, alias@) == match key_index(ix.skip(i as int), alias@) {
                Some(j) => Some(j + i),
                None => None,
            },
        decreases index@.len() - i,
    {
        assert(ix.skip(i as int)[0] == ix[i as int]);
        assert(ix.skip(i as int).drop_first() == ix.skip(i + 1int));
        if str_eq(index[i].0.as_str(), alias) {
            assert(key_index(ix, alias@) == Some(i as int));
            let targets = &index[i].1;
            assert(ix[i as int].1 == targets_view(targets@));
            if let Some(t) = find_target(targets, Some(current), token_type) {
                return Some(t);
            }
            if let Some(t) = find_target(targets, Some("Foundation"), token_type) {
                return Some(t);
            }
            if single_of_type(targets, token_type) {
                return find_target(targets, None, token_type);
            }
            return None;
        }
        i = i + 1;
    }
    None
}

/// Setting a key twice keeps the second value.
proof fn lemma_insert_twice<V>(es: Seq<(Seq<char>, V)>, k: Seq<char>, v1: V, v2: V)
    ensures
        entries_insert(entries_insert(es, k, v1), k, v2) == entries_insert(es, k, v2),
{
    crate::ordered_map::lemma_key_index_bounds(es, k);
    match key_index(es, k) {
        Some(i) => {
            lemma_key_index_update(es, k, i, (es[i].0, v1));
            assert(es.update(i, (es[i].0, v1)).update(i, (es.update(i, (es[i].0, v1))[i].0, v2)) =~= es.update(i, (es[i].0, v2)));
        },
        None => {
            lemma_key_index_push_absent(es, k, v1);
            assert(es.push((k, v1)).update(es.len() as int, (k, v2)) =~= es.push((k, v2)));
        },
    }
}

proof fn lemma_key_index_update<V>(es: Seq<(Seq<char>, V)>, k: Seq<char>, i: int, e: (Seq<char>, V))
    requires
        key_index(es, k) == Some(i),
        0 <= i < es.len(),
        e.0 == es[i].0,
    ensures
        key_index(es.update(i, e), k) == Some(i),
    decreases es.len(),
{
    crate::ordered_map::lemma_key_index_bounds(es, k);
    if i > 0 {
        assert(es[0].0 != k);
        assert(es.update(i, e)[0] == es[0]);
        assert(es.update(i, e).drop_first() =~= es.drop_first().update(i - 1, e));
        lemma_key_index_update(es.drop_first(), k, i - 1, e);
    } else {
        assert(es.update(i, e)[0] == e);
    }
}

proof fn lemma_key_index_push_absent<V>(es: Seq<(Seq<char>, V)>, k: Seq<char>, v: V)
    requires
        key_index(es, k) is None,
    ensures
        key_index(es.push((k, v)), k) == Some(es.len() as int),
    decreases es.len(),
{
    if es.len() > 0 {
        assert(es.push((k, v)).drop_first() =~= es.drop_first().push((k, v)));
        lemma_key_index_push_absent(es.drop_first(), k, v);
    }
}

/// The members of an object value, copied; none when it is no object.
fn object_members_of(value: &Json) -> (r: Option<Vec<(String, Json)>>)
    ensures
        match r {
            Some(m) => value.jview() == JView::Object(jmembers(m@)),
            None => !(value.jview() is Object),
        },
{
    proof {
        if value is Object {
            lemma_jobject(value->Object_0);
        }
        if value is Array {
            lemma_jarray(value->Array_0);
        }
    }
    match crate::json::clone_json(value) {
        Json::Object(m) => {
            proof {
                lemma_jobject(m);
            }
            Some(m)
        },
        other => {
            proof {
                if other is Array {
                    lemma_jarray(other->Array_0);
                }
            }
            None
        },
    }
}

/// Adds Figma's alias data for `target` to a token.
fn insert_alias_data(token: &mut Vec<(String, Json)>, target: &TokenTarget)
    ensures
        jmembers(final(token)@) == alias_data_spec(jmembers(old(token)@), target.target_view()),
{
    let ghost start = jmembers(token@);
    proof {
        crate::ordered_map::lemma_key_index_bounds(start, "$extensions"@);
    }
    let mut extensions: Vec<(String, Json)> = match crate::figma::token_file::member_index(token, "$extensions") {
        None => Vec::new(),
        Some(i) => match object_members_of(&token[i].1) {
            Some(m) => m,
            None => {
                proof {
                    assert(start[i as int].1 == token@[i as int].1.jview());
                }
                return;
            },
        },
    };
    let ghost had_extensions = jfield(start, "$extensions"@) is Some;
    assert(object_member(start, "$extensions"@) == Some(jmembers(extensions@))) by {
        if !had_extensions {
            assert(jmembers(extensions@) =~= Seq::<(Seq<char>, JView)>::empty());
        }
    }
    let ghost ext0 = jmembers(extensions@);
    proof {
        crate::ordered_map::lemma_key_index_bounds(ext0, "com.figma.aliasData"@);
    }
    let mut figma: Vec<(String, Json)> = match crate::figma::token_file::member_index(&extensions, "com.figma.aliasData") {
        None => Vec::new(),
        Some(j) => match object_members_of(&extensions[j].1) {
            Some(m) => m,
            None => {
                proof {
                    assert(ext0[j as int].1 == extensions@[j as int].1.jview());
                }
                proof {
                    if !had_extensions {
                        assert(ext0.len() == 0);
                    }
                }
                return;
            },
        },
    };
    assert(object_member(ext0, "com.figma.aliasData"@) == Some(jmembers(figma@))) by {
        if jfield(ext0, "com.figma.aliasData"@) is None {
            assert(jmembers(figma@) =~= Seq::<(Seq<char>, JView)>::empty());
        }
    }
    json_insert_str(&mut figma, "targetVariableSetName", &target.collection);
    json_insert_str(&mut figma, "targetVariableName", &target.name);
    let ghost data = jmembers(figma@);
    crate::json::json_insert(&mut extensions, string_of("com.figma.aliasData"), Json::Object(figma));
    proof {
        lemma_jobject(figma);
    }
    let ghost ext1 = jmembers(extensions@);
    crate::json::json_insert(token, string_of("$extensions"), Json::Object(extensions));
    proof {
        lemma_jobject(extensions);
        if !had_extensions {
            lemma_insert_twice(start, "$extensions"@, JView::Object(Seq::empty()), JView::Object(ext1));
        }
    }
}

/// Sets member `key` to the string `value`.
fn json_insert_str(members: &mut Vec<(String, Json)>, key: &str, value: &String)
    ensures
        jmembers(final(members)@) == entries_insert(jmembers(old(members)@), key@, JView::Str(value@)),
{
    crate::json::json_insert(members, string_of(key), Json::Str(value.clone()));
}

/// A failure among the first `n` results is the failure of all.
proof fn lemma_replace_stops(members: Seq<(Seq<char>, JView)>, results: Seq<Result<JView, Seq<char>>>, n: int, total: int)
    requires
        0 <= n <= total,
        replace_upto(members, results, n) is Err,
    ensures
        replace_upto(members, results, total) == replace_upto(members, results, n),
    decreases total - n,
{
    if n < total {
        lemma_replace_stops(members, results, n + 1, total);
    }
}

/// The tokens under `value` with aliases to other collections replaced and
/// marked for Figma.
fn add_alias_extensions_in_node(
    file_path: &str,
    current: &str,
    value: &Json,
    path: &Vec<String>,
    inherited: Option<&String>,
    index: &Vec<(String, Vec<TokenTarget>)>,
) -> (r: Result<Json, String>)
    ensures
        match r {
            Ok(v) => ext_node_spec(file_path@, current@, value.jview(), views(path@), opt_view(inherited), index_view(index@))
                == Ok::<JView, Seq<char>>(v.jview()),
            Err(e) => ext_node_spec(file_path@, current@, value.jview(), views(path@), opt_view(inherited), index_view(index@))
                == Err::<JView, Seq<char>>(e@),
        },
    decreases value,
{
    let members = match value {
        Json::Object(members) => members,
        _ => return Ok(crate::json::clone_json(value)),
    };
    proof {
        lemma_jobject(*members);
        lemma_jfield(members@, "$type"@);
        lemma_jfield(members@, "$value"@);
    }
    let node_type: Option<&String> = match field(members.as_slice(), "$type") {
        Some(Json::Str(t)) => Some(t),
        _ => inherited,
    };
    if let Some(v) = field(members.as_slice(), "$value") {
        let text = match v {
            Json::Str(s) => s,
            _ => return Ok(crate::json::clone_json(value)),
        };
        let cs = crate::text::chars_of(text.as_str());
        let alias = match crate::tailwind_v4::alias::alias_reference(cs.as_slice()) {
            Some(a) => crate::text::string_from_chars(a.as_slice()),
            None => return Ok(crate::json::clone_json(value)),
        };
        let current_type = match node_type {
            Some(t) => t,
            None => {
                let mut e = string_of("missing `$type` for alias token `");
                let key = join_strings(path, ".");
                push_str(&mut e, key.as_str());
                push_str(&mut e, "` in `");
                push_str(&mut e, file_path);
                push_str(&mut e, "`");
                return Err(e);
            },
        };
        let target = match resolve_alias_target(alias.as_str(), current, current_type.as_str(), index) {
            Some(t) => t,
            None => {
                let mut e = string_of("unresolved alias `{");
                push_str(&mut e, alias.as_str());
                push_str(&mut e, "}` for `");
                let key = join_strings(path, ".");
                push_str(&mut e, key.as_str());
                push_str(&mut e, "` in `");
                push_str(&mut e, file_path);
                push_str(&mut e, "`");
                return Err(e);
            },
        };
        if str_eq(target.collection.as_str(), current) {
            return Ok(crate::json::clone_json(value));
        }
        let mut token = match object_members_of(value) {
            Some(m) => m,
            None => return Ok(crate::json::clone_json(value)),
        };
        crate::json::json_insert(&mut token, string_of("$value"), crate::json::clone_json(&target.value));
        insert_alias_data(&mut token, target);
        proof {
            lemma_jobject(token);
        }
        return Ok(Json::Object(token));
    }
    let ghost jms = jmembers(members@);
    let ghost results = ext_results(file_path@, current@, jms, views(path@), opt_view(node_type), index_view(index@));
    let mut out: Vec<(String, Json)> = Vec::new();
    let mut i: usize = 0;
    assert(jmembers(out@) =~= Seq::<(Seq<char>, JView)>::empty());
    while i < members.len()
        invariant
            i <= members@.len(),
            *value == Json::Object(*members),
            jms == jmembers(members@),
            value.jview() == JView::Object(jms),
            jfield(jms, "$value"@) is None,
            opt_view(node_type) == match jstr(jfield(jms, "$type"@)) {
                Some(t) => Some(t),
                None => opt_view(inherited),
            },
            results == ext_results(file_path@, current@, jms, views(path@), opt_view(node_type), index_view(index@)),
            replace_upto(jms, results, i as int) == Ok::<Seq<(Seq<char>, JView)>, Seq<char>>(jmembers(out@)),
        decreases members@.len() - i,
    {
        assert(jms[i as int] == (members@[i as int].0@, members@[i as int].1.jview()));
        let key = &members[i].0;
        let child = if is_metadata_key(key.as_str()) {
            crate::json::clone_json(&members[i].1)
        } else {
            let child_path = path_with(path, key);
            proof {
                let v = *value;
                assert(decreases_to!(v => v->Object_0));
                assert(decreases_to!(v->Object_0 => v->Object_0@));
                assert(decreases_to!(v->Object_0@ => v->Object_0@[i as int]));
                assert(decreases_to!(v->Object_0@[i as int] => v->Object_0@[i as int].1));
            }
            match add_alias_extensions_in_node(file_path, current, &members[i].1, &child_path, node_type, index) {
                Ok(c) => c,
                Err(e) => {
                    proof {
                        lemma_replace_stops(jms, results, i as int + 1, jms.len() as int);
                    }
                    return Err(e);
                },
            }
        };
        let ghost before = out@;
        out.push((key.clone(), child));
        proof {
            assert(jmembers(out@) =~= jmembers(before).push((key@, child.jview())));
        }
        i = i + 1;
    }
    proof {
        lemma_jobject(out);
    }
    Ok(Json::Object(out))
}

/// What precedes the first `/` of `path`.
pub fn first_segment_of(path: &str) -> (r: String)
    ensures
        r@ == first_segment(path@),
{
    let cs = crate::text::chars_of(path);
    let mut out = String::new();
    let mut i: usize = 0;
    assert(cs@.skip(0) == cs@);
    while i < cs.len()
        invariant
            i <= cs@.len(),
            cs@ == path@,
            first_segment(path@) == out@ + first_segment(cs@.skip(i as int)),
        decreases cs@.len() - i,
    {
        assert(cs@.skip(i as int)[0] == cs@[i as int]);
        assert(cs@.skip(i as int).drop_first() == cs@.skip(i + 1int));
        if cs[i] == '/' {
            assert(out@ + Seq::<char>::empty() =~= out@);
            return out;
        }
        let ghost before = out@;
        crate::text::push_char(&mut out, cs[i]);
        proof {
            assert(before + (seq![cs@[i as int]] + first_segment(cs@.skip(i + 1int))) =~= out@ + first_segment(cs@.skip(i + 1int)));
        }
        i = i + 1;
    }
    proof {
        assert(cs@.skip(i as int).len() == 0);
        assert(out@ + first_segment(cs@.skip(i as int)) =~= out@);
    }
    out
}

proof fn lemma_files_events_stop(files: Seq<(Seq<char>, JView)>, n: int)
    requires
        0 <= n <= files.len(),
        files_events(files, n) is Err,
    ensures
        files_events(files, files.len() as int) == files_events(files, n),
    decreases files.len() - n,
{
    if n < files.len() {
        lemma_files_events_stop(files, n + 1);
    }
}

/// The index of the tokens of all mode files, by dotted path.
pub fn build_alias_index(files: &Vec<crate::figma::GeneratedFigmaFile>) -> (r: Result<Vec<(String, Vec<TokenTarget>)>, String>)
    ensures
        match r {
            Ok(ix) => files_events(crate::figma::figma_files_view(files@), files@.len() as int) matches Ok(ev)
                && index_view(ix@) == index_upto(Seq::empty(), ev, ev.len() as int),
            Err(e) => files_events(crate::figma::figma_files_view(files@), files@.len() as int)
                == Err::<Seq<(Seq<char>, TargetView)>, Seq<char>>(e@),
        },
{
    let ghost fs = crate::figma::figma_files_view(files@);
    let mut index: Vec<(String, Vec<TokenTarget>)> = Vec::new();
    let no_path: Vec<String> = Vec::new();
    let mut i: usize = 0;
    assert(index_view(index@) =~= Seq::<(Seq<char>, Seq<TargetView>)>::empty());
    assert(views(no_path@) =~= Seq::<Seq<char>>::empty());
    while i < files.len()
        invariant
            i <= files@.len(),
            fs == crate::figma::figma_files_view(files@),
            views(no_path@) == Seq::<Seq<char>>::empty(),
            files_events(fs, i as int) matches Ok(done) && index_view(index@) == index_upto(Seq::empty(), done, done.len() as int),
        decreases files@.len() - i,
    {
        assert(fs[i as int] == (files@[i as int].path@, files@[i as int].json.jview()));
        let ghost done = files_events(fs, i as int)->Ok_0;
        let collection = first_segment_of(files[i].path.as_str());
        match collect_targets(&files[i].json, collection.as_str(), &no_path, None, &mut index) {
            Ok(()) => {
                proof {
                    let more = target_events(fs[i as int].1, first_segment(fs[i as int].0), Seq::empty(), None)->Ok_0;
                    lemma_index_concat(Seq::empty(), done, more);
                }
            },
            Err(e) => {
                proof {
                    lemma_files_events_stop(fs, i as int + 1);
                }
                return Err(e);
            },
        }
        i = i + 1;
    }
    Ok(index)
}

/// A mode file with every alias resolved: one to a token of another
/// collection takes that token's value and Figma's alias data.
pub fn add_alias_extensions(file_path: &str, value: &Json, index: &Vec<(String, Vec<TokenTarget>)>) -> (r: Result<Json, String>)
    ensures
        match r {
            Ok(v) => ext_node_spec(file_path@, first_segment(file_path@), value.jview(), Seq::empty(), None, index_view(index@))
                == Ok::<JView, Seq<char>>(v.jview()),
            Err(e) => ext_node_spec(file_path@, first_segment(file_path@), value.jview(), Seq::empty(), None, index_view(index@))
                == Err::<JView, Seq<char>>(e@),
        },
{
    let current = first_segment_of(file_path);
    let no_path: Vec<String> = Vec::new();
    assert(views(no_path@) =~= Seq::<Seq<char>>::empty());
    add_alias_extensions_in_node(file_path, current.as_str(), value, &no_path, None, index)
}

} // verus!
