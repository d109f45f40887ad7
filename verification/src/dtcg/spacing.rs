//! Spacing and radius tokens.

use indexmap::IndexMap;
use vstd::prelude::*;
use crate::dtcg::alias::{foundation_alias_spec, is_alias, is_alias_value, normalize_alias_for_foundation};
use crate::dtcg::dimension::{dimension_spec, parse_dimension, yaml_number_spec, yaml_number_to_json_value};
use crate::dtcg::{YamlNumber, YamlValue};
use crate::json_out::{
    group_file_view, members_view, object_insert, object_of, object_with, JsonOut, JsonView,
};
use crate::ordered_map::{
    entries_insert, key_index, text_map_entries, text_map_get, text_map_insert, text_map_new,
    yaml_map_entries, yaml_map_get, yaml_map_get_index, yaml_map_len,
};
use crate::text::{cat3, chars_of, contains_char, push_str, slice_chars, spec_contains_char, starts_with, string_from_chars, string_of};

verus! {

/// The token name in `{spacing.name}`: not empty and without `.`.
pub open spec fn spacing_target_spec(alias: Seq<char>) -> Option<Seq<char>> {
    if alias.len() >= 10 && alias.take(9) == "{spacing."@ && alias.last() == '}' {
        let target = alias.subrange(9, alias.len() - 1);
        if target.len() > 0 && !spec_contains_char(target, '.') {
            Some(target)
        } else {
            None
        }
    } else {
        None
    }
}

pub open spec fn msg_spacing_alias(name: Seq<char>, what: Seq<char>) -> Seq<char> {
    "invalid spacing alias for `"@ + name + "`: "@ + what
}

pub open spec fn msg_spacing_value(name: Seq<char>) -> Seq<char> {
    "invalid spacing value for `"@ + name + "`: expected number, px/rem dimension, or alias"@
}

/// The DTCG type of spacing token `name` with value `value`: `number` for a
/// number, `dimension` for other text, and for an alias the type its target
/// in `entries` would get (a target that is itself an alias is refused).
pub open spec fn spacing_type_spec(entries: Seq<(Seq<char>, YamlValue)>, name: Seq<char>, value: YamlValue) -> Result<Seq<char>, Seq<char>> {
    match value {
        YamlValue::Number(_) => Ok("number"@),
        YamlValue::Str(s) => if is_alias_value(s@) {
            match spacing_target_spec(s@) {
                None => Err(msg_spacing_alias(name, "expected reference to `{spacing.xxx}`"@)),
                Some(target) => match key_index(entries, target) {
                    None => Err(msg_spacing_alias(name, "unknown spacing token `"@ + target + "`"@)),
                    Some(j) => match entries[j].1 {
                        YamlValue::Number(_) => Ok("number"@),
                        YamlValue::Str(t) => if !is_alias_value(t@) {
                            Ok("dimension"@)
                        } else {
                            Err(msg_spacing_alias(name, "chained spacing aliases are not supported"@))
                        },
                        YamlValue::Other => Err(msg_spacing_alias(name, "target `"@ + target + "` has unsupported value"@)),
                    },
                },
            }
        } else {
            Ok("dimension"@)
        },
        YamlValue::Other => Err(msg_spacing_value(name)),
    }
}

/// A spacing alias takes the type of the token it refers to: when the type of
/// an alias to `{spacing.target}` can be inferred, it is the type the target
/// itself gets.
pub proof fn law_spacing_alias_takes_target_type(
    entries: Seq<(Seq<char>, YamlValue)>,
    name: Seq<char>,
    alias: String,
    target: Seq<char>,
)
    requires
        spacing_type_spec(entries, name, YamlValue::Str(alias)) is Ok,
        is_alias_value(alias@),
        spacing_target_spec(alias@) == Some(target),
    ensures
        key_index(entries, target) matches Some(j)
            && spacing_type_spec(entries, entries[j].0, entries[j].1) == spacing_type_spec(entries, name, YamlValue::Str(alias)),
{
    crate::ordered_map::lemma_key_index_bounds(entries, target);
}

/// The types of the first `n` spacing tokens, as `IndexMap::insert` puts them.
pub open spec fn spacing_types_upto(entries: Seq<(Seq<char>, YamlValue)>, n: int) -> Result<Seq<(Seq<char>, Seq<char>)>, Seq<char>>
    decreases n,
{
    if n <= 0 {
        Ok(Seq::empty())
    } else {
        match spacing_types_upto(entries, n - 1) {
            Err(e) => Err(e),
            Ok(done) => match spacing_type_spec(entries, entries[n - 1].0, entries[n - 1].1) {
                Err(e) => Err(e),
                Ok(t) => Ok(entries_insert(done, entries[n - 1].0, t)),
            },
        }
    }
}

/// The spacing token of `name` with value `value`, given the inferred `types`.
pub open spec fn spacing_token_spec(types: Seq<(Seq<char>, Seq<char>)>, name: Seq<char>, value: YamlValue) -> Result<JsonView, Seq<char>> {
    match value {
        YamlValue::Number(n) => match yaml_number_spec(name, n) {
            Err(e) => Err(e),
            Ok(v) => Ok(JsonView::Object(seq![
                ("$type"@, JsonView::Str("number"@)),
                ("$value"@, JsonView::Number(v)),
            ])),
        },
        YamlValue::Str(s) => if is_alias_value(s@) {
            match key_index(types, name) {
                None => Err("failed to infer spacing alias type for `"@ + name + "`"@),
                Some(j) => match foundation_alias_spec(name, s@) {
                    Err(e) => Err(e),
                    Ok(a) => Ok(JsonView::Object(seq![
                        ("$type"@, JsonView::Str(types[j].1)),
                        ("$value"@, JsonView::Str(a)),
                    ])),
                },
            }
        } else {
            match dimension_spec(name, s@) {
                Err(e) => Err(e),
                Ok(d) => Ok(JsonView::Object(seq![
                    ("$type"@, JsonView::Str("dimension"@)),
                    ("$value"@, d),
                ])),
            }
        },
        YamlValue::Other => Err(msg_spacing_value(name)),
    }
}

/// The members of the spacing group after the first `n` tokens.
pub open spec fn spacing_group_upto(
    types: Seq<(Seq<char>, Seq<char>)>,
    entries: Seq<(Seq<char>, YamlValue)>,
    n: int,
) -> Result<Seq<(Seq<char>, JsonView)>, Seq<char>>
    decreases n,
{
    if n <= 0 {
        Ok(Seq::empty())
    } else {
        match spacing_group_upto(types, entries, n - 1) {
            Err(e) => Err(e),
            Ok(done) => match spacing_token_spec(types, entries[n - 1].0, entries[n - 1].1) {
                Err(e) => Err(e),
                Ok(token) => Ok(entries_insert(done, entries[n - 1].0, token)),
            },
        }
    }
}

/// The spacing token file: `{ "spacing": { name: token, ... } }`. The types
/// of all tokens are inferred first, then each token is built in turn.
pub open spec fn spacing_file_spec(entries: Seq<(Seq<char>, YamlValue)>) -> Result<JsonView, Seq<char>> {
    match spacing_types_upto(entries, entries.len() as int) {
        Err(e) => Err(e),
        Ok(types) => match spacing_group_upto(types, entries, entries.len() as int) {
            Err(e) => Err(e),
            Ok(group) => Ok(group_file_view("spacing"@, group)),
        },
    }
}

/// The token name that a `{spacing.name}` alias refers to.
fn spacing_alias_target_name(alias: &str) -> (r: Option<String>)
    ensures
        match r {
            Some(t) => spacing_target_spec(alias@) == Some(t@),
            None => spacing_target_spec(alias@) is None,
        },
{
    let cs = chars_of(alias);
    let prefix = chars_of("{spacing.");
    let n = cs.len();
    if n < 10 || !starts_with(cs.as_slice(), prefix.as_slice()) || cs[n - 1] != '}' {
        proof {
            reveal_strlit("{spacing.");
        }
        return None;
    }
    proof {
        reveal_strlit("{spacing.");
    }
    let target = slice_chars(cs.as_slice(), 9, n - 1);
    if target.len() == 0 || contains_char(target.as_slice(), '.') {
        return None;
    }
    Some(string_from_chars(target.as_slice()))
}

/// `invalid spacing alias for `name`: ` followed by `what`.
fn spacing_alias_error(name: &str, what: &str) -> (r: String)
    ensures
        r@ == msg_spacing_alias(name@, what@),
{
    let mut message = cat3("invalid spacing alias for `", name, "`: ");
    push_str(&mut message, what);
    message
}

/// The DTCG type of one spacing token.
fn spacing_type(spacing: &IndexMap<String, YamlValue>, name: &str, value: &YamlValue) -> (r: Result<String, String>)
    ensures
        crate::text::result_view(r) == spacing_type_spec(yaml_map_entries(*spacing), name@, *value),
{
    match value {
        YamlValue::Number(_) => Ok(string_of("number")),
        YamlValue::Str(s) => {
            if !is_alias(s.as_str()) {
                return Ok(string_of("dimension"));
            }
            let target = match spacing_alias_target_name(s.as_str()) {
                Some(t) => t,
                None => return Err(spacing_alias_error(name, "expected reference to `{spacing.xxx}`")),
            };
            match yaml_map_get(spacing, target.as_str()) {
                None => Err(spacing_alias_error(name, cat3("unknown spacing token `", target.as_str(), "`").as_str())),
                Some(YamlValue::Number(_)) => Ok(string_of("number")),
                Some(YamlValue::Str(t)) => {
                    if !is_alias(t.as_str()) {
                        Ok(string_of("dimension"))
                    } else {
                        Err(spacing_alias_error(name, "chained spacing aliases are not supported"))
                    }
                },
                Some(YamlValue::Other) => Err(spacing_alias_error(
                    name,
                    cat3("target `", target.as_str(), "` has unsupported value").as_str(),
                )),
            }
        },
        YamlValue::Other => Err(cat3(
            "invalid spacing value for `",
            name,
            "`: expected number, px/rem dimension, or alias",
        )),
    }
}

/// Infers the DTCG type of every spacing token; an alias takes the type of its target.
fn infer_spacing_types(spacing: &IndexMap<String, YamlValue>) -> (r: Result<IndexMap<String, String>, String>)
    ensures
        match r {
            Ok(m) => spacing_types_upto(yaml_map_entries(*spacing), yaml_map_entries(*spacing).len() as int)
                == Ok::<Seq<(Seq<char>, Seq<char>)>, Seq<char>>(text_map_entries(m)),
            Err(e) => spacing_types_upto(yaml_map_entries(*spacing), yaml_map_entries(*spacing).len() as int)
                == Err::<Seq<(Seq<char>, Seq<char>)>, Seq<char>>(e@),
        },
{
    let ghost es = yaml_map_entries(*spacing);
    let n = yaml_map_len(spacing);
    let mut types = text_map_new();
    let mut i: usize = 0;
    while i < n
        invariant
            i <= n == es.len(),
            es == yaml_map_entries(*spacing),
            spacing_types_upto(es, i as int) == Ok::<Seq<(Seq<char>, Seq<char>)>, Seq<char>>(text_map_entries(types)),
        decreases n - i,
    {
        let (name, value) = match yaml_map_get_index(spacing, i) {
            Some(e) => e,
            None => return Err(String::new()),
        };
        let token_type = match spacing_type(spacing, name.as_str(), value) {
            Ok(t) => t,
            Err(e) => {
                proof { lemma_types_stop(es, i as int + 1); }
                return Err(e);
            },
        };
        text_map_insert(&mut types, name.clone(), token_type);
        i = i + 1;
    }
    Ok(types)
}

/// A failure among the first `n` types is the failure of all.
proof fn lemma_types_stop(es: Seq<(Seq<char>, YamlValue)>, n: int)
    requires
        0 <= n <= es.len(),
        spacing_types_upto(es, n) is Err,
    ensures
        spacing_types_upto(es, es.len() as int) == spacing_types_upto(es, n),
    decreases es.len() - n,
{
    if n < es.len() {
        lemma_types_stop(es, n + 1);
    }
}

/// A failure among the first `n` spacing tokens is the failure of all.
proof fn lemma_spacing_stops(types: Seq<(Seq<char>, Seq<char>)>, es: Seq<(Seq<char>, YamlValue)>, n: int)
    requires
        0 <= n <= es.len(),
        spacing_group_upto(types, es, n) is Err,
    ensures
        spacing_group_upto(types, es, es.len() as int) == spacing_group_upto(types, es, n),
    decreases es.len() - n,
{
    if n < es.len() {
        lemma_spacing_stops(types, es, n + 1);
    }
}

/// `{ "$type": token_type, "$value": value }`.
fn typed_token(token_type: &str, value: JsonOut) -> (r: JsonOut)
    ensures
        r.view_json() == JsonView::Object(seq![
            ("$type"@, JsonView::Str(token_type@)),
            ("$value"@, value.view_json()),
        ]),
{
    let ghost v = value.view_json();
    let mut members: Vec<(String, JsonOut)> = Vec::new();
    members.push((string_of("$type"), JsonOut::Str(string_of(token_type))));
    members.push((string_of("$value"), value));
    let ghost mv = members@;
    let r = object_of(members);
    proof {
        assert(members_view(mv) =~= seq![("$type"@, JsonView::Str(token_type@)), ("$value"@, v)]);
    }
    r
}

/// One spacing token.
fn spacing_token(types: &IndexMap<String, String>, name: &str, value: &YamlValue) -> (r: Result<JsonOut, String>)
    ensures
        match r {
            Ok(v) => spacing_token_spec(text_map_entries(*types), name@, *value) == Ok::<JsonView, Seq<char>>(v.view_json()),
            Err(e) => spacing_token_spec(text_map_entries(*types), name@, *value) == Err::<JsonView, Seq<char>>(e@),
        },
{
    match value {
        YamlValue::Number(number) => {
            let v = match yaml_number_to_json_value(name, number) {
                Ok(v) => v,
                Err(e) => return Err(e),
            };
            Ok(typed_token("number", JsonOut::Number(v)))
        },
        YamlValue::Str(s) => {
            if is_alias(s.as_str()) {
                let token_type = match text_map_get(types, name) {
                    Some(t) => t,
                    None => return Err(cat3("failed to infer spacing alias type for `", name, "`")),
                };
                let alias = match normalize_alias_for_foundation(name, s.as_str()) {
                    Ok(a) => a,
                    Err(e) => return Err(e),
                };
                Ok(typed_token(token_type.as_str(), JsonOut::Str(alias)))
            } else {
                let d = match parse_dimension(name, s.as_str()) {
                    Ok(d) => d,
                    Err(e) => return Err(e),
                };
                Ok(typed_token("dimension", d))
            }
        },
        YamlValue::Other => Err(cat3(
            "invalid spacing value for `",
            name,
            "`: expected number, px/rem dimension, or alias",
        )),
    }
}

/// The spacing token file.
pub fn build_spacing_tokens(spacing: &IndexMap<String, YamlValue>) -> (r: Result<JsonOut, String>)
    ensures
        match r {
            Ok(v) => spacing_file_spec(yaml_map_entries(*spacing)) == Ok::<JsonView, Seq<char>>(v.view_json()),
            Err(e) => spacing_file_spec(yaml_map_entries(*spacing)) == Err::<JsonView, Seq<char>>(e@),
        },
{
    let ghost es = yaml_map_entries(*spacing);
    let types = match infer_spacing_types(spacing) {
        Ok(t) => t,
        Err(e) => return Err(e),
    };
    let ghost ts = text_map_entries(types);
    let n = yaml_map_len(spacing);
    let mut group: Vec<(String, JsonOut)> = Vec::new();
    let mut i: usize = 0;
    assert(members_view(group@) =~= Seq::<(Seq<char>, JsonView)>::empty());
    while i < n
        invariant
            i <= n == es.len(),
            es == yaml_map_entries(*spacing),
            ts == text_map_entries(types),
            spacing_types_upto(es, es.len() as int) == Ok::<Seq<(Seq<char>, Seq<char>)>, Seq<char>>(ts),
            spacing_group_upto(ts, es, i as int) == Ok::<Seq<(Seq<char>, JsonView)>, Seq<char>>(members_view(group@)),
        decreases n - i,
    {
        let (name, value) = match yaml_map_get_index(spacing, i) {
            Some(e) => e,
            None => return Err(String::new()),
        };
        let token = match spacing_token(&types, name.as_str(), value) {
            Ok(t) => t,
            Err(e) => {
                proof { lemma_spacing_stops(ts, es, i as int + 1); }
                return Err(e);
            },
        };
        object_insert(&mut group, name.clone(), token);
        i = i + 1;
    }
    Ok(object_with("spacing", object_of(group)))
}

/// The value of radius token `name`: an alias (to no themed token) or a dimension.
pub open spec fn radius_value_spec(name: Seq<char>, value: YamlValue) -> Result<JsonView, Seq<char>> {
    match value {
        YamlValue::Str(s) => if is_alias_value(s@) {
            match foundation_alias_spec(name, s@) {
                Err(e) => Err(e),
                Ok(a) => Ok(JsonView::Str(a)),
            }
        } else {
            dimension_spec(name, s@)
        },
        _ => Err("invalid rounded value for `"@ + name + "`: expected px/rem dimension or alias"@),
    }
}

/// The members of the radius group after the first `n` tokens.
pub open spec fn radius_group_upto(entries: Seq<(Seq<char>, YamlValue)>, n: int) -> Result<Seq<(Seq<char>, JsonView)>, Seq<char>>
    decreases n,
{
    if n <= 0 {
        Ok(seq![("$type"@, JsonView::Str("dimension"@))])
    } else {
        match radius_group_upto(entries, n - 1) {
            Err(e) => Err(e),
            Ok(done) => match radius_value_spec(entries[n - 1].0, entries[n - 1].1) {
                Err(e) => Err(e),
                Ok(v) => Ok(entries_insert(done, entries[n - 1].0, JsonView::Object(seq![("$value"@, v)]))),
            },
        }
    }
}

/// The radius token file: `{ "radius": { "$type": "dimension", name: { "$value": value }, ... } }`.
pub open spec fn radius_file_spec(entries: Seq<(Seq<char>, YamlValue)>) -> Result<JsonView, Seq<char>> {
    match radius_group_upto(entries, entries.len() as int) {
        Err(e) => Err(e),
        Ok(group) => Ok(group_file_view("radius"@, group)),
    }
}

/// A failure among the first `n` radius tokens is the failure of all.
proof fn lemma_radius_stops(es: Seq<(Seq<char>, YamlValue)>, n: int)
    requires
        0 <= n <= es.len(),
        radius_group_upto(es, n) is Err,
    ensures
        radius_group_upto(es, es.len() as int) == radius_group_upto(es, n),
    decreases es.len() - n,
{
    if n < es.len() {
        lemma_radius_stops(es, n + 1);
    }
}

/// The value of one radius token.
fn radius_value(name: &str, value: &YamlValue) -> (r: Result<JsonOut, String>)
    ensures
        match r {
            Ok(v) => radius_value_spec(name@, *value) == Ok::<JsonView, Seq<char>>(v.view_json()),
            Err(e) => radius_value_spec(name@, *value) == Err::<JsonView, Seq<char>>(e@),
        },
{
    match value {
        YamlValue::Str(s) => {
            if is_alias(s.as_str()) {
                match normalize_alias_for_foundation(name, s.as_str()) {
                    Ok(a) => Ok(JsonOut::Str(a)),
                    Err(e) => Err(e),
                }
            } else {
                parse_dimension(name, s.as_str())
            }
        },
        _ => Err(cat3("invalid rounded value for `", name, "`: expected px/rem dimension or alias")),
    }
}

/// The radius token file.
pub fn build_radius_tokens(rounded: &IndexMap<String, YamlValue>) -> (r: Result<JsonOut, String>)
    ensures
        match r {
            Ok(v) => radius_file_spec(yaml_map_entries(*rounded)) == Ok::<JsonView, Seq<char>>(v.view_json()),
            Err(e) => radius_file_spec(yaml_map_entries(*rounded)) == Err::<JsonView, Seq<char>>(e@),
        },
{
    let ghost es = yaml_map_entries(*rounded);
    let n = yaml_map_len(rounded);
    let mut group: Vec<(String, JsonOut)> = Vec::new();
    group.push((string_of("$type"), JsonOut::Str(string_of("dimension"))));
    assert(members_view(group@) =~= seq![("$type"@, JsonView::Str("dimension"@))]);
    let mut i: usize = 0;
    while i < n
        invariant
            i <= n == es.len(),
            es == yaml_map_entries(*rounded),
            radius_group_upto(es, i as int) == Ok::<Seq<(Seq<char>, JsonView)>, Seq<char>>(members_view(group@)),
        decreases n - i,
    {
        let (name, value) = match yaml_map_get_index(rounded, i) {
            Some(e) => e,
            None => return Err(String::new()),
        };
        let v = match radius_value(name.as_str(), value) {
            Ok(v) => v,
            Err(e) => {
                proof { lemma_radius_stops(es, i as int + 1); }
                return Err(e);
            },
        };
        object_insert(&mut group, name.clone(), object_with("$value", v));
        i = i + 1;
    }
    Ok(object_with("radius", object_of(group)))
}

} // verus!
