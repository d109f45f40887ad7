//! Typography tokens split into the scalar fields Figma imports.

use vstd::prelude::*;
use crate::figma::values::{dimension_check, validate_dimension_or_alias};
use crate::json::{
    clone_json, field, jfield, jmembers, json_insert, jstr, lemma_jfield, lemma_jobject, JView, Json,
};
use crate::ordered_map::entries_insert;
use crate::tailwind_v4::alias::{is_alias, is_alias_spec};
use crate::tailwind_v4::token::{ensure_token_type, ensure_type_spec, is_metadata_key, is_metadata_key_spec, opt_view};
use crate::text::{cat2, cat3, cat5, for_in, push_str, string_of, with_place, with_place_then};

verus! {

/// `{ "$type": token_type, "$value": value }`.
pub open spec fn typed(token_type: Seq<char>, value: JView) -> JView {
    JView::Object(seq![("$type"@, JView::Str(token_type)), ("$value"@, value)])
}

/// Adds `fontFamily` when the typography value has one; it must be a string.
pub open spec fn font_family_step(reference: Seq<char>, path: Seq<char>, value: Seq<(Seq<char>, JView)>, out: Seq<(Seq<char>, JView)>) -> Result<Seq<(Seq<char>, JView)>, Seq<char>> {
    match jfield(value, "fontFamily"@) {
        None => Ok(out),
        Some(JView::Str(s)) => Ok(entries_insert(out, "fontFamily"@, typed("fontFamily"@, JView::Str(s)))),
        Some(_) => Err("invalid fontFamily value"@ + for_in(path, reference) + ": expected string or alias"@),
    }
}

/// Adds dimension field `name` when the typography value has one (a
/// `required` field must be there).
pub open spec fn dimension_step(
    reference: Seq<char>,
    path: Seq<char>,
    value: Seq<(Seq<char>, JView)>,
    name: Seq<char>,
    out: Seq<(Seq<char>, JView)>,
    required: bool,
) -> Result<Seq<(Seq<char>, JView)>, Seq<char>> {
    match jfield(value, name) {
        None => if required {
            Err("missing `"@ + name + "`"@ + for_in(path, reference))
        } else {
            Ok(out)
        },
        Some(f) => match dimension_check(reference, path + "."@ + name, f) {
            Err(e) => Err(e),
            Ok(_) => Ok(entries_insert(out, name, typed("dimension"@, f))),
        },
    }
}

/// Adds `lineHeight` when the typography value has one: a number or a pixel
/// dimension; an alias is refused.
pub open spec fn line_height_step(reference: Seq<char>, path: Seq<char>, value: Seq<(Seq<char>, JView)>, out: Seq<(Seq<char>, JView)>) -> Result<Seq<(Seq<char>, JView)>, Seq<char>> {
    match jfield(value, "lineHeight"@) {
        None => Ok(out),
        Some(JView::Number(n)) => Ok(entries_insert(out, "lineHeight"@, typed("number"@, JView::Number(n)))),
        Some(JView::Object(d)) => match dimension_check(reference, path + ".lineHeight"@, JView::Object(d)) {
            Err(e) => Err(e),
            Ok(_) => Ok(entries_insert(out, "lineHeight"@, typed("dimension"@, JView::Object(d)))),
        },
        Some(JView::Str(s)) => if is_alias_spec(s) {
            Err("unsupported typography alias for `"@ + path + ".lineHeight` in `"@ + reference
                + "`: aliases must target a Figma-supported scalar token"@)
        } else {
            Err("invalid lineHeight value"@ + for_in(path, reference) + ": expected number or px dimension"@)
        },
        Some(_) => Err("invalid lineHeight value"@ + for_in(path, reference) + ": expected number or px dimension"@),
    }
}

/// Adds `fontWeight` when the typography value has one: a number or a
/// non-empty string.
pub open spec fn font_weight_step(reference: Seq<char>, path: Seq<char>, value: Seq<(Seq<char>, JView)>, out: Seq<(Seq<char>, JView)>) -> Result<Seq<(Seq<char>, JView)>, Seq<char>> {
    match jfield(value, "fontWeight"@) {
        None => Ok(out),
        Some(JView::Number(n)) => Ok(entries_insert(out, "fontWeight"@, typed("number"@, JView::Number(n)))),
        Some(JView::Str(s)) => if s.len() > 0 {
            Ok(entries_insert(out, "fontWeight"@, typed("string"@, JView::Str(s))))
        } else {
            Err("invalid fontWeight value"@ + for_in(path, reference) + ": expected number, string, or alias"@)
        },
        Some(_) => Err("invalid fontWeight value"@ + for_in(path, reference) + ": expected number, string, or alias"@),
    }
}

/// The fields of a typography value as separate typed tokens: font family,
/// font size (required), line height, letter spacing and font weight.
pub open spec fn typography_fields_spec(reference: Seq<char>, path: Seq<char>, value: Seq<(Seq<char>, JView)>) -> Result<Seq<(Seq<char>, JView)>, Seq<char>> {
    match font_family_step(reference, path, value, Seq::empty()) {
        Err(e) => Err(e),
        Ok(a) => match dimension_step(reference, path, value, "fontSize"@, a, true) {
            Err(e) => Err(e),
            Ok(b) => match line_height_step(reference, path, value, b) {
                Err(e) => Err(e),
                Ok(c) => match dimension_step(reference, path, value, "letterSpacing"@, c, false) {
                    Err(e) => Err(e),
                    Ok(d) => font_weight_step(reference, path, value, d),
                },
            },
        },
    }
}

/// One typography token as Figma imports it.
pub open spec fn typography_token_spec(reference: Seq<char>, group_type: Option<Seq<char>>, path: Seq<char>, token: JView) -> Result<JView, Seq<char>> {
    match token {
        JView::Object(members) => {
            let token_type = match jstr(jfield(members, "$type"@)) {
                Some(t) => Some(t),
                None => group_type,
            };
            match ensure_type_spec(reference, path, token_type, seq!["typography"@]) {
                Err(e) => Err(e),
                Ok(_) => match jfield(members, "$value"@) {
                    Some(JView::Object(value)) => match typography_fields_spec(reference, path, value) {
                        Err(e) => Err(e),
                        Ok(out) => Ok(JView::Object(out)),
                    },
                    _ => Err("missing typography `$value`"@ + for_in(path, reference)),
                },
            }
        },
        _ => Err("invalid typography token `"@ + path + "` in `"@ + reference + "`: expected object"@),
    }
}

/// The typography group after its first `n` members.
pub open spec fn typography_members_upto(
    reference: Seq<char>,
    group: Seq<char>,
    group_type: Option<Seq<char>>,
    members: Seq<(Seq<char>, JView)>,
    n: int,
) -> Result<Seq<(Seq<char>, JView)>, Seq<char>>
    decreases n,
{
    if n <= 0 {
        Ok(Seq::empty())
    } else {
        match typography_members_upto(reference, group, group_type, members, n - 1) {
            Err(e) => Err(e),
            Ok(done) => if is_metadata_key_spec(members[n - 1].0) {
                Ok(done)
            } else {
                match typography_token_spec(reference, group_type, group + "."@ + members[n - 1].0, members[n - 1].1) {
                    Err(e) => Err(e),
                    Ok(t) => Ok(entries_insert(done, members[n - 1].0, t)),
                }
            },
        }
    }
}

/// A typography group as Figma imports it; its metadata is dropped.
pub open spec fn typography_group_spec(reference: Seq<char>, group: Seq<char>, value: JView) -> Result<JView, Seq<char>> {
    match value {
        JView::Object(members) => match typography_members_upto(
            reference,
            group,
            jstr(jfield(members, "$type"@)),
            members,
            members.len() as int,
        ) {
            Err(e) => Err(e),
            Ok(out) => Ok(JView::Object(out)),
        },
        _ => Err("invalid token group `"@ + group + "` in `"@ + reference + "`: expected object"@),
    }
}

/// `{ "$type": token_type, "$value": value }`.
pub fn typed_token(token_type: &str, value: Json) -> (r: Json)
    ensures
        r.jview() == typed(token_type@, value.jview()),
{
    let ghost v = value.jview();
    let mut members: Vec<(String, Json)> = Vec::new();
    members.push((string_of("$type"), Json::Str(string_of(token_type))));
    members.push((string_of("$value"), value));
    proof {
        lemma_jobject(members);
        assert(jmembers(members@) =~= seq![("$type"@, JView::Str(token_type@)), ("$value"@, v)]);
    }
    Json::Object(members)
}

fn insert_font_family(reference: &str, path: &str, value: &Vec<(String, Json)>, out: &mut Vec<(String, Json)>) -> (r: Result<(), String>)
    ensures
        match r {
            Ok(()) => font_family_step(reference@, path@, jmembers(value@), jmembers(old(out)@))
                == Ok::<Seq<(Seq<char>, JView)>, Seq<char>>(jmembers(final(out)@)),
            Err(e) => font_family_step(reference@, path@, jmembers(value@), jmembers(old(out)@))
                == Err::<Seq<(Seq<char>, JView)>, Seq<char>>(e@),
        },
{
    proof {
        lemma_jfield(value@, "fontFamily"@);
    }
    match field(value.as_slice(), "fontFamily") {
        None => Ok(()),
        Some(Json::Str(s)) => {
            json_insert(out, string_of("fontFamily"), typed_token("fontFamily", Json::Str(s.clone())));
            Ok(())
        },
        Some(_) => Err(with_place_then("invalid fontFamily value", path, reference, ": expected string or alias")),
    }
}

fn insert_dimension_field(
    reference: &str,
    path: &str,
    value: &Vec<(String, Json)>,
    name: &str,
    out: &mut Vec<(String, Json)>,
    required: bool,
) -> (r: Result<(), String>)
    ensures
        match r {
            Ok(()) => dimension_step(reference@, path@, jmembers(value@), name@, jmembers(old(out)@), required)
                == Ok::<Seq<(Seq<char>, JView)>, Seq<char>>(jmembers(final(out)@)),
            Err(e) => dimension_step(reference@, path@, jmembers(value@), name@, jmembers(old(out)@), required)
                == Err::<Seq<(Seq<char>, JView)>, Seq<char>>(e@),
        },
{
    proof {
        lemma_jfield(value@, name@);
    }
    match field(value.as_slice(), name) {
        None => {
            if required {
                let mut e = cat3("missing `", name, "`");
                let place = crate::text::for_in_text(path, reference);
                push_str(&mut e, place.as_str());
                Err(e)
            } else {
                Ok(())
            }
        },
        Some(f) => {
            let place = cat3(path, ".", name);
            match validate_dimension_or_alias(reference, place.as_str(), f) {
                Ok(()) => {},
                Err(e) => return Err(e),
            }
            json_insert(out, string_of(name), typed_token("dimension", clone_json(f)));
            Ok(())
        },
    }
}

fn insert_line_height(reference: &str, path: &str, value: &Vec<(String, Json)>, out: &mut Vec<(String, Json)>) -> (r: Result<(), String>)
    ensures
        match r {
            Ok(()) => line_height_step(reference@, path@, jmembers(value@), jmembers(old(out)@))
                == Ok::<Seq<(Seq<char>, JView)>, Seq<char>>(jmembers(final(out)@)),
            Err(e) => line_height_step(reference@, path@, jmembers(value@), jmembers(old(out)@))
                == Err::<Seq<(Seq<char>, JView)>, Seq<char>>(e@),
        },
{
    proof {
        lemma_jfield(value@, "lineHeight"@);
    }
    match field(value.as_slice(), "lineHeight") {
        None => Ok(()),
        Some(f) => match f {
            Json::Number(_) => {
                json_insert(out, string_of("lineHeight"), typed_token("number", clone_json(f)));
                Ok(())
            },
            Json::Object(_) => {
                let place = cat2(path, ".lineHeight");
                match validate_dimension_or_alias(reference, place.as_str(), f) {
                    Ok(()) => {},
                    Err(e) => return Err(e),
                }
                json_insert(out, string_of("lineHeight"), typed_token("dimension", clone_json(f)));
                Ok(())
            },
            Json::Str(s) => {
                if is_alias(s.as_str()) {
                    Err(cat5(
                        "unsupported typography alias for `",
                        path,
                        ".lineHeight` in `",
                        reference,
                        "`: aliases must target a Figma-supported scalar token",
                    ))
                } else {
                    Err(with_place_then("invalid lineHeight value", path, reference, ": expected number or px dimension"))
                }
            },
            _ => Err(with_place_then("invalid lineHeight value", path, reference, ": expected number or px dimension")),
        },
    }
}

fn insert_font_weight(reference: &str, path: &str, value: &Vec<(String, Json)>, out: &mut Vec<(String, Json)>) -> (r: Result<(), String>)
    ensures
        match r {
            Ok(()) => font_weight_step(reference@, path@, jmembers(value@), jmembers(old(out)@))
                == Ok::<Seq<(Seq<char>, JView)>, Seq<char>>(jmembers(final(out)@)),
            Err(e) => font_weight_step(reference@, path@, jmembers(value@), jmembers(old(out)@))
                == Err::<Seq<(Seq<char>, JView)>, Seq<char>>(e@),
        },
{
    proof {
        lemma_jfield(value@, "fontWeight"@);
    }
    match field(value.as_slice(), "fontWeight") {
        None => Ok(()),
        Some(f) => match f {
            Json::Number(_) => {
                json_insert(out, string_of("fontWeight"), typed_token("number", clone_json(f)));
                Ok(())
            },
            Json::Str(s) => {
                if !s.as_str().is_empty() {
                    json_insert(out, string_of("fontWeight"), typed_token("string", clone_json(f)));
                    Ok(())
                } else {
                    Err(with_place_then("invalid fontWeight value", path, reference, ": expected number, string, or alias"))
                }
            },
            _ => Err(with_place_then("invalid fontWeight value", path, reference, ": expected number, string, or alias")),
        },
    }
}

/// One typography token as Figma imports it.
fn convert_typography_token(reference: &str, group_type: Option<&String>, path: &str, token: &Json) -> (r: Result<Json, String>)
    ensures
        match r {
            Ok(v) => typography_token_spec(reference@, opt_view(group_type), path@, token.jview()) == Ok::<JView, Seq<char>>(v.jview()),
            Err(e) => typography_token_spec(reference@, opt_view(group_type), path@, token.jview()) == Err::<JView, Seq<char>>(e@),
        },
{
    let members = match token {
        Json::Object(members) => members,
        _ => return Err(cat5("invalid typography token `", path, "` in `", reference, "`: expected object")),
    };
    proof {
        lemma_jobject(*members);
        lemma_jfield(members@, "$type"@);
        lemma_jfield(members@, "$value"@);
    }
    let token_type: Option<&String> = match field(members.as_slice(), "$type") {
        Some(Json::Str(t)) => Some(t),
        _ => group_type,
    };
    let expected: [&str; 1] = ["typography"];
    proof {
        assert(expected@.map_values(|s: &str| s@) =~= seq!["typography"@]);
    }
    match ensure_token_type(reference, path, token_type, &expected) {
        Ok(()) => {},
        Err(e) => return Err(e),
    }
    let value = match field(members.as_slice(), "$value") {
        Some(Json::Object(value)) => value,
        _ => return Err(with_place("missing typography `$value`", path, reference)),
    };
    proof {
        lemma_jobject(*value);
    }
    let mut out: Vec<(String, Json)> = Vec::new();
    assert(jmembers(out@) =~= Seq::<(Seq<char>, JView)>::empty());
    match insert_font_family(reference, path, value, &mut out) {
        Ok(()) => {},
        Err(e) => return Err(e),
    }
    match insert_dimension_field(reference, path, value, "fontSize", &mut out, true) {
        Ok(()) => {},
        Err(e) => return Err(e),
    }
    match insert_line_height(reference, path, value, &mut out) {
        Ok(()) => {},
        Err(e) => return Err(e),
    }
    match insert_dimension_field(reference, path, value, "letterSpacing", &mut out, false) {
        Ok(()) => {},
        Err(e) => return Err(e),
    }
    match insert_font_weight(reference, path, value, &mut out) {
        Ok(()) => {},
        Err(e) => return Err(e),
    }
    proof {
        lemma_jobject(out);
    }
    Ok(Json::Object(out))
}

proof fn lemma_typography_stops(
    reference: Seq<char>,
    group: Seq<char>,
    group_type: Option<Seq<char>>,
    members: Seq<(Seq<char>, JView)>,
    n: int,
)
    requires
        0 <= n <= members.len(),
        typography_members_upto(reference, group, group_type, members, n) is Err,
    ensures
        typography_members_upto(reference, group, group_type, members, members.len() as int)
            == typography_members_upto(reference, group, group_type, members, n),
    decreases members.len() - n,
{
    if n < members.len() {
        lemma_typography_stops(reference, group, group_type, members, n + 1);
    }
}

/// A typography group as Figma imports it.
pub fn convert_typography_group(reference: &str, group: &str, value: &Json) -> (r: Result<Json, String>)
    ensures
        match r {
            Ok(v) => typography_group_spec(reference@, group@, value.jview()) == Ok::<JView, Seq<char>>(v.jview()),
            Err(e) => typography_group_spec(reference@, group@, value.jview()) == Err::<JView, Seq<char>>(e@),
        },
{
    let members = match value {
        Json::Object(members) => members,
        _ => return Err(cat5("invalid token group `", group, "` in `", reference, "`: expected object")),
    };
    proof {
        lemma_jobject(*members);
        lemma_jfield(members@, "$type"@);
    }
    let group_type: Option<&String> = match field(members.as_slice(), "$type") {
        Some(Json::Str(t)) => Some(t),
        _ => None,
    };
    let ghost jms = jmembers(members@);
    let mut out: Vec<(String, Json)> = Vec::new();
    let mut i: usize = 0;
    assert(jmembers(out@) =~= Seq::<(Seq<char>, JView)>::empty());
    while i < members.len()
        invariant
            i <= members@.len(),
            jms == jmembers(members@),
            value.jview() == JView::Object(jms),
            opt_view(group_type) == jstr(jfield(jms, "$type"@)),
            typography_members_upto(reference@, group@, opt_view(group_type), jms, i as int)
                == Ok::<Seq<(Seq<char>, JView)>, Seq<char>>(jmembers(out@)),
        decreases members@.len() - i,
    {
        assert(jms[i as int] == (members@[i as int].0@, members@[i as int].1.jview()));
        let name = members[i].0.as_str();
        if !is_metadata_key(name) {
            let path = cat3(group, ".", name);
            let token = match convert_typography_token(reference, group_type, path.as_str(), &members[i].1) {
                Ok(t) => t,
                Err(e) => {
                    proof {
                        lemma_typography_stops(reference@, group@, opt_view(group_type), jms, i as int + 1);
                    }
                    return Err(e);
                },
            };
            json_insert(&mut out, members[i].0.clone(), token);
        }
        i = i + 1;
    }
    proof {
        lemma_jobject(out);
    }
    Ok(Json::Object(out))
}

} // verus!
