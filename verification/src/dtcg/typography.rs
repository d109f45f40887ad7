//! Typography tokens.

use indexmap::IndexMap;
use vstd::prelude::*;
use crate::dtcg::alias::{foundation_alias_spec, is_alias, is_alias_value, normalize_alias_for_foundation};
use crate::dtcg::dimension::{dimension_spec, parse_dimension, yaml_number_spec, yaml_number_to_json_value};
use crate::dtcg::{YamlNumber, YamlValue};
use crate::json_out::{
    group_file_view, members_view, object_insert, object_of, object_with, JsonOut, JsonView,
    NumberView, OutNumber,
};
use crate::ordered_map::{
    entries_insert, key_index, nested_map_entries, nested_map_get_index, nested_map_len,
    yaml_map_entries, yaml_map_get_index, yaml_map_len,
};
use crate::text::{cat3, cat5, push_str, str_eq, string_of};

verus! {

/// The DTCG font weight names.
pub open spec fn is_font_weight_name(value: Seq<char>) -> bool {
    value == "thin"@ || value == "hairline"@ || value == "extra-light"@ || value == "ultra-light"@
        || value == "light"@ || value == "normal"@ || value == "regular"@ || value == "book"@
        || value == "medium"@ || value == "semi-bold"@ || value == "demi-bold"@ || value == "bold"@
        || value == "extra-bold"@ || value == "ultra-bold"@ || value == "black"@ || value == "heavy"@
        || value == "extra-black"@ || value == "ultra-black"@
}

pub open spec fn msg_field(token: Seq<char>, property: Seq<char>, expected: Seq<char>) -> Seq<char> {
    "invalid typography field `"@ + property + "` for `"@ + token + "`: expected "@ + expected
}

/// A string, kept unless it is an alias to a themed token.
pub open spec fn string_or_alias_spec(token: Seq<char>, property: Seq<char>, value: YamlValue) -> Result<JsonView, Seq<char>> {
    match value {
        YamlValue::Str(s) => match foundation_alias_spec(token, s@) {
            Err(e) => Err(e),
            Ok(a) => Ok(JsonView::Str(a)),
        },
        _ => Err(msg_field(token, property, "string"@)),
    }
}

/// An alias, or a dimension named `typography.token.property` in errors.
pub open spec fn dimension_property_spec(token: Seq<char>, property: Seq<char>, value: YamlValue) -> Result<JsonView, Seq<char>> {
    match value {
        YamlValue::Str(s) => if is_alias_value(s@) {
            match foundation_alias_spec(token, s@) {
                Err(e) => Err(e),
                Ok(a) => Ok(JsonView::Str(a)),
            }
        } else {
            dimension_spec("typography."@ + token + "."@ + property, s@)
        },
        _ => Err(msg_field(token, property, "px/rem dimension or alias"@)),
    }
}

pub open spec fn msg_font_weight(token: Seq<char>, what: Seq<char>) -> Seq<char> {
    "invalid fontWeight for `"@ + token + "`: "@ + what
}

/// A font weight: an integer in 1..=1000, an alias, or a DTCG weight name.
pub open spec fn font_weight_spec(token: Seq<char>, value: YamlValue) -> Result<JsonView, Seq<char>> {
    match value {
        YamlValue::Number(n) => match n {
            YamlNumber::NonFinite => Err("invalid number for `"@ + token + "`"@),
            YamlNumber::Int(w) => if 1 <= w <= 1000 {
                Ok(JsonView::Number(NumberView::Int(w as int)))
            } else {
                Err(msg_font_weight(token, "expected integer 1..=1000"@))
            },
            _ => Err(msg_font_weight(token, "expected integer 1..=1000"@)),
        },
        YamlValue::Str(s) => if is_alias_value(s@) {
            match foundation_alias_spec(token, s@) {
                Err(e) => Err(e),
                Ok(a) => Ok(JsonView::Str(a)),
            }
        } else if is_font_weight_name(s@) {
            Ok(JsonView::Str(s@))
        } else {
            Err(msg_font_weight(token, "`"@ + s@ + "` is not a DTCG fontWeight value"@))
        },
        YamlValue::Other => Err(msg_font_weight(token, "expected number, fontWeight string, or alias"@)),
    }
}

/// A line height: a number or an alias.
pub open spec fn line_height_spec(token: Seq<char>, value: YamlValue) -> Result<JsonView, Seq<char>> {
    match value {
        YamlValue::Number(n) => match yaml_number_spec(token, n) {
            Err(e) => Err(e),
            Ok(v) => Ok(JsonView::Number(v)),
        },
        YamlValue::Str(s) => if is_alias_value(s@) {
            match foundation_alias_spec(token, s@) {
                Err(e) => Err(e),
                Ok(a) => Ok(JsonView::Str(a)),
            }
        } else {
            Err("invalid lineHeight for `"@ + token + "`: expected number or alias"@)
        },
        YamlValue::Other => Err("invalid lineHeight for `"@ + token + "`: expected number or alias"@),
    }
}

/// One field of a typography token.
pub open spec fn typography_field_spec(token: Seq<char>, property: Seq<char>, value: YamlValue) -> Result<JsonView, Seq<char>> {
    if property == "fontFamily"@ || property == "fontFeature"@ || property == "fontVariation"@ {
        string_or_alias_spec(token, property, value)
    } else if property == "fontSize"@ || property == "letterSpacing"@ {
        dimension_property_spec(token, property, value)
    } else if property == "fontWeight"@ {
        font_weight_spec(token, value)
    } else if property == "lineHeight"@ {
        line_height_spec(token, value)
    } else {
        Err("unsupported typography field `"@ + property + "` for `"@ + token + "`"@)
    }
}

/// The fields of typography token `token` after its first `n` properties.
pub open spec fn typography_value_upto(token: Seq<char>, props: Seq<(Seq<char>, YamlValue)>, n: int) -> Result<Seq<(Seq<char>, JsonView)>, Seq<char>>
    decreases n,
{
    if n <= 0 {
        Ok(Seq::empty())
    } else {
        match typography_value_upto(token, props, n - 1) {
            Err(e) => Err(e),
            Ok(done) => match typography_field_spec(token, props[n - 1].0, props[n - 1].1) {
                Err(e) => Err(e),
                Ok(v) => Ok(entries_insert(done, props[n - 1].0, v)),
            },
        }
    }
}

/// The fields every typography token must have, in the order they are checked.
pub open spec fn required_fields() -> Seq<Seq<char>> {
    seq!["fontFamily"@, "fontSize"@, "fontWeight"@, "letterSpacing"@, "lineHeight"@]
}

/// The first of `fields` that is not a key of `value`.
pub open spec fn first_missing_field(value: Seq<(Seq<char>, JsonView)>, fields: Seq<Seq<char>>) -> Option<Seq<char>>
    decreases fields.len(),
{
    if fields.len() == 0 {
        None
    } else if key_index(value, fields[0]) is None {
        Some(fields[0])
    } else {
        first_missing_field(value, fields.drop_first())
    }
}

/// The value of typography token `token`: its fields, each converted in turn,
/// and all required fields present.
pub open spec fn typography_token_spec(token: Seq<char>, props: Seq<(Seq<char>, YamlValue)>) -> Result<JsonView, Seq<char>> {
    match typography_value_upto(token, props, props.len() as int) {
        Err(e) => Err(e),
        Ok(value) => match first_missing_field(value, required_fields()) {
            Some(f) => Err("missing required typography field `"@ + f + "` for `"@ + token + "`"@),
            None => Ok(JsonView::Object(value)),
        },
    }
}

/// The members of the typography group after the first `n` tokens.
pub open spec fn typography_group_upto(entries: Seq<(Seq<char>, IndexMap<String, YamlValue>)>, n: int) -> Result<Seq<(Seq<char>, JsonView)>, Seq<char>>
    decreases n,
{
    if n <= 0 {
        Ok(seq![("$type"@, JsonView::Str("typography"@))])
    } else {
        match typography_group_upto(entries, n - 1) {
            Err(e) => Err(e),
            Ok(done) => match typography_token_spec(entries[n - 1].0, yaml_map_entries(entries[n - 1].1)) {
                Err(e) => Err(e),
                Ok(v) => Ok(entries_insert(done, entries[n - 1].0, JsonView::Object(seq![("$value"@, v)]))),
            },
        }
    }
}

/// The typography token file:
/// `{ "typography": { "$type": "typography", name: { "$value": { field: value, ... } }, ... } }`.
pub open spec fn typography_file_spec(entries: Seq<(Seq<char>, IndexMap<String, YamlValue>)>) -> Result<JsonView, Seq<char>> {
    match typography_group_upto(entries, entries.len() as int) {
        Err(e) => Err(e),
        Ok(group) => Ok(group_file_view("typography"@, group)),
    }
}

fn field_error(token: &str, property: &str, expected: &str) -> (r: String)
    ensures
        r@ == msg_field(token@, property@, expected@),
{
    let mut message = cat5("invalid typography field `", property, "` for `", token, "`: expected ");
    push_str(&mut message, expected);
    message
}

fn font_weight_error(token: &str, what: &str) -> (r: String)
    ensures
        r@ == msg_font_weight(token@, what@),
{
    let mut message = cat3("invalid fontWeight for `", token, "`: ");
    push_str(&mut message, what);
    message
}

/// An alias kept as a string, unless it refers to a themed token.
fn foundation_alias_value(token: &str, s: &str) -> (r: Result<JsonOut, String>)
    ensures
        match r {
            Ok(v) => foundation_alias_spec(token@, s@) matches Ok(a) && v.view_json() == JsonView::Str(a),
            Err(e) => foundation_alias_spec(token@, s@) == Err::<Seq<char>, Seq<char>>(e@),
        },
{
    match normalize_alias_for_foundation(token, s) {
        Ok(a) => Ok(JsonOut::Str(a)),
        Err(e) => Err(e),
    }
}

/// Whether `value` is one of the DTCG font weight names.
fn is_valid_font_weight_alias(value: &str) -> (r: bool)
    ensures
        r == is_font_weight_name(value@),
{
    str_eq(value, "thin") || str_eq(value, "hairline") || str_eq(value, "extra-light")
        || str_eq(value, "ultra-light") || str_eq(value, "light") || str_eq(value, "normal")
        || str_eq(value, "regular") || str_eq(value, "book") || str_eq(value, "medium")
        || str_eq(value, "semi-bold") || str_eq(value, "demi-bold") || str_eq(value, "bold")
        || str_eq(value, "extra-bold") || str_eq(value, "ultra-bold") || str_eq(value, "black")
        || str_eq(value, "heavy") || str_eq(value, "extra-black") || str_eq(value, "ultra-black")
}

fn parse_string_or_alias(token: &str, property: &str, value: &YamlValue) -> (r: Result<JsonOut, String>)
    ensures
        match r {
            Ok(v) => string_or_alias_spec(token@, property@, *value) == Ok::<JsonView, Seq<char>>(v.view_json()),
            Err(e) => string_or_alias_spec(token@, property@, *value) == Err::<JsonView, Seq<char>>(e@),
        },
{
    match value {
        YamlValue::Str(s) => foundation_alias_value(token, s.as_str()),
        _ => Err(field_error(token, property, "string")),
    }
}

fn parse_dimension_property(token: &str, property: &str, value: &YamlValue) -> (r: Result<JsonOut, String>)
    ensures
        match r {
            Ok(v) => dimension_property_spec(token@, property@, *value) == Ok::<JsonView, Seq<char>>(v.view_json()),
            Err(e) => dimension_property_spec(token@, property@, *value) == Err::<JsonView, Seq<char>>(e@),
        },
{
    match value {
        YamlValue::Str(s) => {
            if is_alias(s.as_str()) {
                foundation_alias_value(token, s.as_str())
            } else {
                let mut place = cat3("typography.", token, ".");
                push_str(&mut place, property);
                parse_dimension(place.as_str(), s.as_str())
            }
        },
        _ => Err(field_error(token, property, "px/rem dimension or alias")),
    }
}

fn parse_font_weight(token: &str, value: &YamlValue) -> (r: Result<JsonOut, String>)
    ensures
        match r {
            Ok(v) => font_weight_spec(token@, *value) == Ok::<JsonView, Seq<char>>(v.view_json()),
            Err(e) => font_weight_spec(token@, *value) == Err::<JsonView, Seq<char>>(e@),
        },
{
    match value {
        YamlValue::Number(n) => {
            match n {
                YamlNumber::NonFinite => Err(cat3("invalid number for `", token, "`")),
                YamlNumber::Int(w) => {
                    if 1 <= *w && *w <= 1000 {
                        Ok(JsonOut::Number(OutNumber::Int(*w)))
                    } else {
                        Err(font_weight_error(token, "expected integer 1..=1000"))
                    }
                },
                _ => Err(font_weight_error(token, "expected integer 1..=1000")),
            }
        },
        YamlValue::Str(s) => {
            if is_alias(s.as_str()) {
                foundation_alias_value(token, s.as_str())
            } else if is_valid_font_weight_alias(s.as_str()) {
                Ok(JsonOut::Str(s.clone()))
            } else {
                Err(font_weight_error(token, cat3("`", s.as_str(), "` is not a DTCG fontWeight value").as_str()))
            }
        },
        YamlValue::Other => Err(font_weight_error(token, "expected number, fontWeight string, or alias")),
    }
}

fn parse_line_height(token: &str, value: &YamlValue) -> (r: Result<JsonOut, String>)
    ensures
        match r {
            Ok(v) => line_height_spec(token@, *value) == Ok::<JsonView, Seq<char>>(v.view_json()),
            Err(e) => line_height_spec(token@, *value) == Err::<JsonView, Seq<char>>(e@),
        },
{
    match value {
        YamlValue::Number(n) => {
            match yaml_number_to_json_value(token, n) {
                Ok(v) => Ok(JsonOut::Number(v)),
                Err(e) => Err(e),
            }
        },
        YamlValue::Str(s) => {
            if is_alias(s.as_str()) {
                foundation_alias_value(token, s.as_str())
            } else {
                Err(cat3("invalid lineHeight for `", token, "`: expected number or alias"))
            }
        },
        YamlValue::Other => Err(cat3("invalid lineHeight for `", token, "`: expected number or alias")),
    }
}

/// One field of a typography token.
fn typography_field(token: &str, property: &str, value: &YamlValue) -> (r: Result<JsonOut, String>)
    ensures
        match r {
            Ok(v) => typography_field_spec(token@, property@, *value) == Ok::<JsonView, Seq<char>>(v.view_json()),
            Err(e) => typography_field_spec(token@, property@, *value) == Err::<JsonView, Seq<char>>(e@),
        },
{
    if str_eq(property, "fontFamily") || str_eq(property, "fontFeature") || str_eq(property, "fontVariation") {
        parse_string_or_alias(token, property, value)
    } else if str_eq(property, "fontSize") || str_eq(property, "letterSpacing") {
        parse_dimension_property(token, property, value)
    } else if str_eq(property, "fontWeight") {
        parse_font_weight(token, value)
    } else if str_eq(property, "lineHeight") {
        parse_line_height(token, value)
    } else {
        Err(cat5("unsupported typography field `", property, "` for `", token, "`"))
    }
}

/// Whether a member of `members` has key `key`.
fn has_member(members: &Vec<(String, JsonOut)>, key: &str) -> (r: bool)
    ensures
        r == (key_index(members_view(members@), key@) is Some),
{
    let ghost ms = members_view(members@);
    let mut i: usize = 0;
    assert(ms.skip(0) == ms);
    while i < members.len()
        invariant
            i <= members@.len() == ms.len(),
            ms == members_view(members@),
            (key_index(ms, key@) is Some) == (key_index(ms.skip(i as int), key@) is Some),
        decreases members@.len() - i,
    {
        assert(ms.skip(i as int).drop_first() == ms.skip(i + 1int));
        assert(ms.skip(i as int)[0] == ms[i as int]);
        if str_eq(members[i].0.as_str(), key) {
            return true;
        }
        i = i + 1;
    }
    false
}

/// Checks that the token has every required field.
fn validate_required_typography_fields(token: &str, value: &Vec<(String, JsonOut)>) -> (r: Result<(), String>)
    ensures
        match r {
            Ok(()) => first_missing_field(members_view(value@), required_fields()) is None,
            Err(e) => first_missing_field(members_view(value@), required_fields()) matches Some(f)
                && e@ == "missing required typography field `"@ + f + "` for `"@ + token@ + "`"@,
        },
{
    let fields: [&str; 5] = ["fontFamily", "fontSize", "fontWeight", "letterSpacing", "lineHeight"];
    let ghost fs = required_fields();
    let mut i: usize = 0;
    assert(fs.skip(0) == fs);
    while i < 5
        invariant
            i <= 5,
            fs == required_fields(),
            forall|j: int| 0 <= j < 5 ==> (#[trigger] fields@[j])@ == fs[j],
            first_missing_field(members_view(value@), fs) == first_missing_field(members_view(value@), fs.skip(i as int)),
        decreases 5 - i,
    {
        assert(fs.skip(i as int).drop_first() == fs.skip(i + 1int));
        assert(fs.skip(i as int)[0] == fs[i as int]);
        let field = fields[i];
        if !has_member(value, field) {
            return Err(cat5("missing required typography field `", field, "` for `", token, "`"));
        }
        i = i + 1;
    }
    Ok(())
}

/// A failure among the first `n` fields is the failure of all.
proof fn lemma_fields_stop(token: Seq<char>, props: Seq<(Seq<char>, YamlValue)>, n: int)
    requires
        0 <= n <= props.len(),
        typography_value_upto(token, props, n) is Err,
    ensures
        typography_value_upto(token, props, props.len() as int) == typography_value_upto(token, props, n),
    decreases props.len() - n,
{
    if n < props.len() {
        lemma_fields_stop(token, props, n + 1);
    }
}

/// A failure among the first `n` tokens is the failure of all.
proof fn lemma_tokens_stop(es: Seq<(Seq<char>, IndexMap<String, YamlValue>)>, n: int)
    requires
        0 <= n <= es.len(),
        typography_group_upto(es, n) is Err,
    ensures
        typography_group_upto(es, es.len() as int) == typography_group_upto(es, n),
    decreases es.len() - n,
{
    if n < es.len() {
        lemma_tokens_stop(es, n + 1);
    }
}

/// The value of one typography token.
fn typography_token(token: &str, properties: &IndexMap<String, YamlValue>) -> (r: Result<JsonOut, String>)
    ensures
        match r {
            Ok(v) => typography_token_spec(token@, yaml_map_entries(*properties)) == Ok::<JsonView, Seq<char>>(v.view_json()),
            Err(e) => typography_token_spec(token@, yaml_map_entries(*properties)) == Err::<JsonView, Seq<char>>(e@),
        },
{
    let ghost ps = yaml_map_entries(*properties);
    let n = yaml_map_len(properties);
    let mut value: Vec<(String, JsonOut)> = Vec::new();
    let mut i: usize = 0;
    assert(members_view(value@) =~= Seq::<(Seq<char>, JsonView)>::empty());
    while i < n
        invariant
            i <= n == ps.len(),
            ps == yaml_map_entries(*properties),
            typography_value_upto(token@, ps, i as int) == Ok::<Seq<(Seq<char>, JsonView)>, Seq<char>>(members_view(value@)),
        decreases n - i,
    {
        let (property, raw) = match yaml_map_get_index(properties, i) {
            Some(e) => e,
            None => return Err(String::new()),
        };
        let converted = match typography_field(token, property.as_str(), raw) {
            Ok(v) => v,
            Err(e) => {
                proof { lemma_fields_stop(token@, ps, i as int + 1); }
                return Err(e);
            },
        };
        object_insert(&mut value, property.clone(), converted);
        i = i + 1;
    }
    match validate_required_typography_fields(token, &value) {
        Ok(()) => Ok(object_of(value)),
        Err(e) => Err(e),
    }
}

/// The typography token file.
pub fn build_typography_tokens(typography: &IndexMap<String, IndexMap<String, YamlValue>>) -> (r: Result<JsonOut, String>)
    ensures
        match r {
            Ok(v) => typography_file_spec(nested_map_entries(*typography)) == Ok::<JsonView, Seq<char>>(v.view_json()),
            Err(e) => typography_file_spec(nested_map_entries(*typography)) == Err::<JsonView, Seq<char>>(e@),
        },
{
    let ghost es = nested_map_entries(*typography);
    let n = nested_map_len(typography);
    let mut group: Vec<(String, JsonOut)> = Vec::new();
    group.push((string_of("$type"), JsonOut::Str(string_of("typography"))));
    assert(members_view(group@) =~= seq![("$type"@, JsonView::Str("typography"@))]);
    let mut i: usize = 0;
    while i < n
        invariant
            i <= n == es.len(),
            es == nested_map_entries(*typography),
            typography_group_upto(es, i as int) == Ok::<Seq<(Seq<char>, JsonView)>, Seq<char>>(members_view(group@)),
        decreases n - i,
    {
        let (name, properties) = match nested_map_get_index(typography, i) {
            Some(e) => e,
            None => return Err(String::new()),
        };
        let value = match typography_token(name.as_str(), properties) {
            Ok(v) => v,
            Err(e) => {
                proof { lemma_tokens_stop(es, i as int + 1); }
                return Err(e);
            },
        };
        object_insert(&mut group, name.clone(), object_with("$value", value));
        i = i + 1;
    }
    Ok(object_with("typography", object_of(group)))
}

} // verus!
