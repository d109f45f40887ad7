//! Token files merged into the JSON of a Figma mode.

use vstd::prelude::*;
use crate::figma::values::{validate_token_value, value_check};
use crate::figma::typography::{convert_typography_group, typography_group_spec};
use crate::json::{
    clone_json, field, jfield, jmembers, json_insert, jstr, lemma_jfield, lemma_jobject, JView, Json,
};
use crate::ordered_map::{entries_insert, insert_all, key_index};
use crate::tailwind_v4::token::{ensure_token_type, ensure_type_spec, is_metadata_key, is_metadata_key_spec, opt_view};
use crate::text::{cat3, push_str, str_eq};

verus! {

/// The results of converting the members of a group, one by one.
pub open spec fn regular_results(
    reference: Seq<char>,
    path: Seq<char>,
    members: Seq<(Seq<char>, JView)>,
    node_type: Option<Seq<char>>,
    expected: Seq<Seq<char>>,
) -> Seq<Result<JView, Seq<char>>>
    decreases members, 0nat,
{
    Seq::new(
        members.len(),
        |i: int|
            if 0 <= i < members.len() {
                if is_metadata_key_spec(members[i].0) {
                    Ok(members[i].1)
                } else {
                    regular_node_spec(reference, path + "."@ + members[i].0, members[i].1, node_type, expected)
                }
            } else {
                Ok(JView::Null)
            },
    )
}

/// The members after setting the first `n` results in turn; the first failure is the error.
pub open spec fn fold_results(members: Seq<(Seq<char>, JView)>, results: Seq<Result<JView, Seq<char>>>, n: int) -> Result<Seq<(Seq<char>, JView)>, Seq<char>>
    decreases n,
{
    if n <= 0 {
        Ok(Seq::empty())
    } else {
        match fold_results(members, results, n - 1) {
            Err(e) => Err(e),
            Ok(done) => match results[n - 1] {
                Err(e) => Err(e),
                Ok(v) => Ok(entries_insert(done, members[n - 1].0, v)),
            },
        }
    }
}

/// A group or token of a regular token group, checked for Figma: a token
/// (a node with `$value`) needs one of the `expected` types, its own or
/// inherited, and a value fit for it; a group has its members checked in turn.
pub open spec fn regular_node_spec(
    reference: Seq<char>,
    path: Seq<char>,
    value: JView,
    inherited: Option<Seq<char>>,
    expected: Seq<Seq<char>>,
) -> Result<JView, Seq<char>>
    decreases value, 1nat,
{
    match value {
        JView::Object(members) => {
            let node_type = match jstr(jfield(members, "$type"@)) {
                Some(t) => Some(t),
                None => inherited,
            };
            if jfield(members, "$value"@) is Some {
                match ensure_type_spec(reference, path, node_type, expected) {
                    Err(e) => Err(e),
                    Ok(_) => match value_check(reference, path, node_type, value) {
                        Err(e) => Err(e),
                        Ok(_) => Ok(value),
                    },
                }
            } else {
                match fold_results(
                    members,
                    regular_results(reference, path, members, node_type, expected),
                    members.len() as int,
                ) {
                    Err(e) => Err(e),
                    Ok(out) => Ok(JView::Object(out)),
                }
            }
        },
        _ => Err("invalid token group `"@ + path + "` in `"@ + reference + "`: expected object"@),
    }
}

pub open spec fn str_views(v: Seq<&str>) -> Seq<Seq<char>> {
    v.map_values(|s: &str| s@)
}

/// A failure among the first `n` results is the failure of all.
pub proof fn lemma_fold_stops(members: Seq<(Seq<char>, JView)>, results: Seq<Result<JView, Seq<char>>>, n: int, total: int)
    requires
        0 <= n <= total,
        fold_results(members, results, n) is Err,
    ensures
        fold_results(members, results, total) == fold_results(members, results, n),
    decreases total - n,
{
    if n < total {
        lemma_fold_stops(members, results, n + 1, total);
    }
}

/// Checks a group or token of a regular token group and copies it.
fn convert_regular_node(
    reference: &str,
    token_path: &str,
    value: &Json,
    inherited: Option<&String>,
    expected: &[&str],
) -> (r: Result<Json, String>)
    ensures
        match r {
            Ok(v) => regular_node_spec(reference@, token_path@, value.jview(), opt_view(inherited), str_views(expected@))
                == Ok::<JView, Seq<char>>(v.jview()),
            Err(e) => regular_node_spec(reference@, token_path@, value.jview(), opt_view(inherited), str_views(expected@))
                == Err::<JView, Seq<char>>(e@),
        },
    decreases value,
{
    let members = match value {
        Json::Object(members) => members,
        _ => return Err(crate::text::cat5("invalid token group `", token_path, "` in `", reference, "`: expected object")),
    };
    proof {
        lemma_jobject(*members);
        lemma_jfield(members@, "$type"@);
        lemma_jfield(members@, "$value"@);
    }
    let node_type: Option<&String> = match field(members.as_slice(), "$type") {
        Some(Json::Str(t)) => Some(t),
        _ => inherited,
    };
    if field(members.as_slice(), "$value").is_some() {
        proof {
            assert(expected@.map_values(|s: &str| s@) == str_views(expected@));
        }
        match ensure_token_type(reference, token_path, node_type, expected) {
            Ok(()) => {},
            Err(e) => return Err(e),
        }
        match validate_token_value(reference, token_path, node_type, value) {
            Ok(()) => {},
            Err(e) => return Err(e),
        }
        return Ok(clone_json(value));
    }
    let ghost jms = jmembers(members@);
    let ghost results = regular_results(reference@, token_path@, jms, opt_view(node_type), str_views(expected@));
    let mut out: Vec<(String, Json)> = Vec::new();
    let mut i: usize = 0;
    assert(jmembers(out@) =~= Seq::<(Seq<char>, JView)>::empty());
    while i < members.len()
        invariant
            i <= members@.len(),
            *value == Json::Object(*members),
            jms == jmembers(members@),
            value.jview() == JView::Object(jms),
            jfield(jms, "$value"@) is None,
            opt_view(node_type) == match jstr(jfield(jms, "$type"@)) {
                Some(t) => Some(t),
                None => opt_view(inherited),
            },
            results == regular_results(reference@, token_path@, jms, opt_view(node_type), str_views(expected@)),
            fold_results(jms, results, i as int) == Ok::<Seq<(Seq<char>, JView)>, Seq<char>>(jmembers(out@)),
        decreases members@.len() - i,
    {
        assert(jms[i as int] == (members@[i as int].0@, members@[i as int].1.jview()));
        assert(results[i as int] == if is_metadata_key_spec(jms[i as int].0) {
            Ok::<JView, Seq<char>>(jms[i as int].1)
        } else {
            regular_node_spec(reference@, token_path@ + "."@ + jms[i as int].0, jms[i as int].1, opt_view(node_type), str_views(expected@))
        });
        let key = &members[i].0;
        let child = if is_metadata_key(key.as_str()) {
            clone_json(&members[i].1)
        } else {
            let child_path = cat3(token_path, ".", key.as_str());
            proof {
                let v = *value;
                assert(decreases_to!(v => v->Object_0));
                assert(decreases_to!(v->Object_0 => v->Object_0@));
                assert(decreases_to!(v->Object_0@ => v->Object_0@[i as int]));
                assert(decreases_to!(v->Object_0@[i as int] => v->Object_0@[i as int].1));
            }
            match convert_regular_node(reference, child_path.as_str(), &members[i].1, node_type, expected) {
                Ok(c) => c,
                Err(e) => {
                    proof {
                        lemma_fold_stops(jms, results, i as int + 1, jms.len() as int);
                    }
                    return Err(e);
                },
            }
        };
        json_insert(&mut out, key.clone(), child);
        i = i + 1;
    }
    proof {
        lemma_jobject(out);
    }
    Ok(Json::Object(out))
}

/// A group of a token file as Figma imports it: colors, spacing and radius
/// are checked and kept; typography is split into scalar fields.
pub open spec fn group_spec(reference: Seq<char>, group: Seq<char>, value: JView) -> Result<JView, Seq<char>> {
    if group == "colors"@ {
        regular_node_spec(reference, group, value, None, seq!["color"@])
    } else if group == "spacing"@ || group == "radius"@ {
        regular_node_spec(reference, group, value, None, seq!["dimension"@, "number"@])
    } else if group == "typography"@ {
        typography_group_spec(reference, group, value)
    } else {
        Err("unsupported token group `"@ + group + "` in token source `"@ + reference + "`"@)
    }
}

/// Adds group `group` to the mode's members: a new group is added, and an
/// existing one takes the members of the new one in turn.
pub open spec fn merge_group_spec(root: Seq<(Seq<char>, JView)>, group: Seq<char>, value: JView) -> Result<Seq<(Seq<char>, JView)>, Seq<char>> {
    match jfield(root, group) {
        None => Ok(entries_insert(root, group, value)),
        Some(JView::Object(existing)) => match value {
            JView::Object(incoming) => Ok(entries_insert(root, group, JView::Object(insert_all(existing, incoming)))),
            _ => Err("invalid merged token group `"@ + group + "`: expected JSON objects"@),
        },
        Some(_) => Err("invalid merged token group `"@ + group + "`: expected JSON objects"@),
    }
}

/// The mode's members after the first `n` groups of a token file.
pub open spec fn groups_upto(
    reference: Seq<char>,
    groups: Seq<(Seq<char>, JView)>,
    n: int,
    root: Seq<(Seq<char>, JView)>,
) -> Result<Seq<(Seq<char>, JView)>, Seq<char>>
    decreases n,
{
    if n <= 0 {
        Ok(root)
    } else {
        match groups_upto(reference, groups, n - 1, root) {
            Err(e) => Err(e),
            Ok(done) => if is_metadata_key_spec(groups[n - 1].0) {
                Ok(done)
            } else {
                match group_spec(reference, groups[n - 1].0, groups[n - 1].1) {
                    Err(e) => Err(e),
                    Ok(converted) => merge_group_spec(done, groups[n - 1].0, converted),
                }
            },
        }
    }
}

/// The mode's members after merging token file `reference`, whose content is `file`.
pub open spec fn merge_token_file_spec(reference: Seq<char>, file: JView, root: Seq<(Seq<char>, JView)>) -> Result<Seq<(Seq<char>, JView)>, Seq<char>> {
    match file {
        JView::Object(groups) => groups_upto(reference, groups, groups.len() as int, root),
        _ => Err("invalid token source `"@ + reference + "`: expected a JSON object"@),
    }
}

/// Converts one group of a token file.
fn convert_group(reference: &str, group: &str, value: &Json) -> (r: Result<Json, String>)
    ensures
        match r {
            Ok(v) => group_spec(reference@, group@, value.jview()) == Ok::<JView, Seq<char>>(v.jview()),
            Err(e) => group_spec(reference@, group@, value.jview()) == Err::<JView, Seq<char>>(e@),
        },
{
    if str_eq(group, "colors") {
        let expected: [&str; 1] = ["color"];
        assert(str_views(expected@) =~= seq!["color"@]);
        convert_regular_node(reference, group, value, None, &expected)
    } else if str_eq(group, "spacing") || str_eq(group, "radius") {
        let expected: [&str; 2] = ["dimension", "number"];
        assert(str_views(expected@) =~= seq!["dimension"@, "number"@]);
        convert_regular_node(reference, group, value, None, &expected)
    } else if str_eq(group, "typography") {
        convert_typography_group(reference, group, value)
    } else {
        Err(crate::text::cat5("unsupported token group `", group, "` in token source `", reference, "`"))
    }
}

/// Inserts each member of `incoming` in turn.
fn insert_members(existing: &mut Vec<(String, Json)>, incoming: Vec<(String, Json)>)
    ensures
        jmembers(final(existing)@) == insert_all(jmembers(old(existing)@), jmembers(incoming@)),
{
    let ghost start = jmembers(existing@);
    let ghost all = jmembers(incoming@);
    let mut rest = incoming;
    let n = rest.len();
    let mut i: usize = 0;
    assert(all.take(0) =~= Seq::<(Seq<char>, JView)>::empty());
    while i < n
        invariant
            i <= n == all.len(),
            jmembers(rest@) == all.skip(i as int),
            jmembers(existing@) == insert_all(start, all.take(i as int)),
        decreases n - i,
    {
        assert(rest@.len() > 0) by {
            assert(jmembers(rest@).len() == all.len() - i);
        }
        let ghost old_rest = rest@;
        let (key, value) = rest.remove(0);
        proof {
            assert(all.take(i + 1int) == all.take(i as int).push(all[i as int]));
            assert(jmembers(old_rest)[0] == all[i as int]);
            crate::ordered_map::lemma_insert_all_push(start, all.take(i as int), all[i as int].0, all[i as int].1);
            assert(rest@ =~= old_rest.subrange(1, old_rest.len() as int));
            assert(jmembers(old_rest).len() == old_rest.len());
            assert(jmembers(rest@).len() == rest@.len());
            assert(all.skip(i + 1int).len() == rest@.len());
            assert forall|j: int| 0 <= j < rest@.len() implies #[trigger] jmembers(rest@)[j] == all.skip(i + 1int)[j] by {
                assert(rest@[j] == old_rest[j + 1]);
                assert(jmembers(old_rest)[j + 1] == all.skip(i as int)[j + 1]);
            }
            assert(jmembers(rest@) =~= all.skip(i + 1int));
        }
        json_insert(existing, key, value);
        i = i + 1;
    }
    proof {
        assert(all.take(n as int) == all);
    }
}

/// The index of the member named `key`.
pub fn member_index(members: &Vec<(String, Json)>, key: &str) -> (r: Option<usize>)
    ensures
        match r {
            Some(i) => key_index(jmembers(members@), key@) == Some(i as int),
            None => key_index(jmembers(members@), key@) is None,
        },
{
    let ghost ms = jmembers(members@);
    let mut i: usize = 0;
    assert(ms.skip(0) == ms);
    while i < members.len()
        invariant
            i <= members@.len() == ms.len(),
            ms == jmembers(members@),
            key_index(ms, key@) == match key_index(ms.skip(i as int), key@) {
                Some(j) => Some(j + i),
                None => None,
            },
        decreases members@.len() - i,
    {
        assert(ms.skip(i as int)[0] == ms[i as int]);
        assert(ms.skip(i as int).drop_first() == ms.skip(i + 1int));
        if str_eq(members[i].0.as_str(), key) {
            return Some(i);
        }
        i = i + 1;
    }
    None
}

/// Adds a converted group to the mode's members.
fn merge_group(root: &mut Vec<(String, Json)>, group: &str, value: Json) -> (r: Result<(), String>)
    ensures
        match r {
            Ok(()) => merge_group_spec(jmembers(old(root)@), group@, value.jview())
                == Ok::<Seq<(Seq<char>, JView)>, Seq<char>>(jmembers(final(root)@)),
            Err(e) => merge_group_spec(jmembers(old(root)@), group@, value.jview())
                == Err::<Seq<(Seq<char>, JView)>, Seq<char>>(e@),
        },
{
    let ghost before = jmembers(root@);
    match member_index(root, group) {
        None => {
            json_insert(root, crate::text::string_of(group), value);
            Ok(())
        },
        Some(i) => {
            proof {
                crate::ordered_map::lemma_key_index_bounds(before, group@);
            }
            let incoming = match value {
                Json::Object(incoming) => incoming,
                _ => {
                    proof {
                        lemma_jobject_of(value);
                    }
                    return Err(cat3("invalid merged token group `", group, "`: expected JSON objects"));
                },
            };
            let (key, existing_value) = root.remove(i);
            let mut existing = match existing_value {
                Json::Object(existing) => existing,
                other => {
                    proof {
                        assert(before[i as int] == (key@, other.jview()));
                        lemma_jobject_of(other);
                    }
                    root.insert(i, (key, other));
                    proof {
                        assert(jmembers(root@) =~= before);
                    }
                    return Err(cat3("invalid merged token group `", group, "`: expected JSON objects"));
                },
            };
            proof {
                assert(before[i as int] == (key@, Json::Object(existing).jview()));
                lemma_jobject(existing);
                lemma_jobject(incoming);
            }
            insert_members(&mut existing, incoming);
            let merged = Json::Object(existing);
            proof {
                lemma_jobject(existing);
            }
            root.insert(i, (key, merged));
            proof {
                assert(jmembers(root@) =~= before.update(i as int, (before[i as int].0, merged.jview())));
            }
            Ok(())
        },
    }
}

/// An object's view is an object, and any other value's is not.
proof fn lemma_jobject_of(value: Json)
    ensures
        (value.jview() is Object) == (value is Object),
{
    if let Json::Object(ms) = value {
        lemma_jobject(ms);
    }
}

proof fn lemma_groups_stop(reference: Seq<char>, groups: Seq<(Seq<char>, JView)>, n: int, root: Seq<(Seq<char>, JView)>)
    requires
        0 <= n <= groups.len(),
        groups_upto(reference, groups, n, root) is Err,
    ensures
        groups_upto(reference, groups, groups.len() as int, root) == groups_upto(reference, groups, n, root),
    decreases groups.len() - n,
{
    if n < groups.len() {
        lemma_groups_stop(reference, groups, n + 1, root);
    }
}

/// Merges the groups of token file `reference` into the mode's members.
pub fn merge_token_file(reference: &str, token_file: &Json, root: &mut Vec<(String, Json)>) -> (r: Result<(), String>)
    ensures
        match r {
            Ok(()) => merge_token_file_spec(reference@, token_file.jview(), jmembers(old(root)@))
                == Ok::<Seq<(Seq<char>, JView)>, Seq<char>>(jmembers(final(root)@)),
            Err(e) => merge_token_file_spec(reference@, token_file.jview(), jmembers(old(root)@))
                == Err::<Seq<(Seq<char>, JView)>, Seq<char>>(e@),
        },
{
    let groups = match token_file {
        Json::Object(groups) => groups,
        _ => {
            proof {
                lemma_jobject_of(*token_file);
            }
            return Err(cat3("invalid token source `", reference, "`: expected a JSON object"));
        },
    };
    proof {
        lemma_jobject(*groups);
    }
    let ghost start = jmembers(root@);
    let ghost gs = jmembers(groups@);
    let mut i: usize = 0;
    while i < groups.len()
        invariant
            i <= groups@.len(),
            gs == jmembers(groups@),
            token_file.jview() == JView::Object(gs),
            start == jmembers(old(root)@),
            groups_upto(reference@, gs, i as int, start) == Ok::<Seq<(Seq<char>, JView)>, Seq<char>>(jmembers(root@)),
        decreases groups@.len() - i,
    {
        assert(gs[i as int] == (groups@[i as int].0@, groups@[i as int].1.jview()));
        let group = groups[i].0.as_str();
        if !is_metadata_key(group) {
            let converted = match convert_group(reference, group, &groups[i].1) {
                Ok(c) => c,
                Err(e) => {
                    proof {
                        lemma_groups_stop(reference@, gs, i as int + 1, start);
                    }
                    return Err(e);
                },
            };
            match merge_group(root, group, converted) {
                Ok(()) => {},
                Err(e) => {
                    proof {
                        lemma_groups_stop(reference@, gs, i as int + 1, start);
                    }
                    return Err(e);
                },
            }
        }
        i = i + 1;
    }
    Ok(())
}

} // verus!
