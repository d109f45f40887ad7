//! CSS text for token values that may be aliases.

use vstd::prelude::*;
use crate::json::{Json, JsonNumber};
use crate::tailwind_v4::alias::{alias_to_css_var, alias_to_css_var_spec, is_alias, is_alias_spec};
use crate::tailwind_v4::value_format::{css_value_spec, dimension_css_spec, dimension_css_value, validate_css_value};
use crate::text::{cat2, for_in, result_view, string_of, with_place};

verus! {

pub open spec fn msg_value(kind: Seq<char>, path: Seq<char>, reference: Seq<char>, expected: Seq<char>) -> Seq<char> {
    "invalid "@ + kind + " value"@ + for_in(path, reference) + ": expected "@ + expected
}

/// A dimension object or an alias.
pub open spec fn dimension_or_alias_spec(reference: Seq<char>, path: Seq<char>, value: Json) -> Result<Seq<char>, Seq<char>> {
    match value {
        Json::Str(s) if is_alias_spec(s@) => alias_to_css_var_spec(reference, path, s@),
        Json::Object(members) => dimension_css_spec(reference, path, members@),
        _ => Err(msg_value("dimension"@, path, reference, "DTCG dimension object or alias"@)),
    }
}

/// A number (as printed) or an alias.
pub open spec fn number_or_alias_spec(reference: Seq<char>, path: Seq<char>, value: Json) -> Result<Seq<char>, Seq<char>> {
    match value {
        Json::Str(s) if is_alias_spec(s@) => alias_to_css_var_spec(reference, path, s@),
        Json::Number(n) => Ok(n.text@),
        _ => Err(msg_value("number"@, path, reference, "number or alias"@)),
    }
}

/// A string that can stand as a CSS value, or an alias.
pub open spec fn string_or_alias_spec(reference: Seq<char>, path: Seq<char>, value: Json) -> Result<Seq<char>, Seq<char>> {
    match value {
        Json::Str(s) if is_alias_spec(s@) => alias_to_css_var_spec(reference, path, s@),
        Json::Str(s) => css_value_spec(reference, path, s@),
        _ => Err(msg_value("string"@, path, reference, "string or alias"@)),
    }
}

/// A line height: a number, a dimension object or an alias.
pub open spec fn line_height_spec(reference: Seq<char>, path: Seq<char>, value: Json) -> Result<Seq<char>, Seq<char>> {
    match value {
        Json::Str(s) if is_alias_spec(s@) => alias_to_css_var_spec(reference, path, s@),
        Json::Number(n) => Ok(n.text@),
        Json::Object(members) => dimension_css_spec(reference, path, members@),
        _ => Err(msg_value("lineHeight"@, path, reference, "number, dimension, or alias"@)),
    }
}

/// A font weight: 400 reads `normal`, 700 reads `bold`, other numbers are
/// printed; a string is a CSS value; or an alias.
pub open spec fn font_weight_spec(reference: Seq<char>, path: Seq<char>, value: Json) -> Result<Seq<char>, Seq<char>> {
    match value {
        Json::Str(s) if is_alias_spec(s@) => alias_to_css_var_spec(reference, path, s@),
        Json::Str(s) => css_value_spec(reference, path, s@),
        Json::Number(n) => if n.integer == Some(400i64) {
            Ok("normal"@)
        } else if n.integer == Some(700i64) {
            Ok("bold"@)
        } else {
            Ok(n.text@)
        },
        _ => Err(msg_value("fontWeight"@, path, reference, "number, string, or alias"@)),
    }
}

/// A numeric font weight always converts, to a CSS weight equal to it: 400 is
/// `normal`, 700 is `bold`, any other number is written as it reads. Weights
/// 400 and 700 never share a CSS value, and only 400 becomes `normal`.
pub proof fn law_numeric_font_weight(reference: Seq<char>, path: Seq<char>, n: JsonNumber)
    ensures
        font_weight_spec(reference, path, Json::Number(n)) is Ok,
        n.integer == Some(400i64) ==> font_weight_spec(reference, path, Json::Number(n)) == Ok::<Seq<char>, Seq<char>>("normal"@),
        n.integer == Some(700i64) ==> font_weight_spec(reference, path, Json::Number(n)) == Ok::<Seq<char>, Seq<char>>("bold"@),
        n.integer != Some(400i64) && n.integer != Some(700i64)
            ==> font_weight_spec(reference, path, Json::Number(n)) == Ok::<Seq<char>, Seq<char>>(n.text@),
        font_weight_spec(reference, path, Json::Number(n)) == Ok::<Seq<char>, Seq<char>>("normal"@)
            ==> n.integer == Some(400i64) || n.text@ == "normal"@,
{
    reveal_strlit("normal");
    reveal_strlit("bold");
    assert("normal"@ != "bold"@) by {
        assert("normal"@[0] != "bold"@[0]);
    }
}

fn value_error(kind: &str, reference: &str, token_path: &str, expected: &str) -> (r: String)
    ensures
        r@ == msg_value(kind@, token_path@, reference@, expected@),
{
    let head = cat2("invalid ", kind);
    let head = cat2(head.as_str(), " value");
    let e = with_place(head.as_str(), token_path, reference);
    let e = cat2(e.as_str(), ": expected ");
    let e = cat2(e.as_str(), expected);
    assert(e@ =~= msg_value(kind@, token_path@, reference@, expected@));
    e
}

pub fn dimension_or_alias_css_value(reference: &str, token_path: &str, value: &Json) -> (r: Result<String, String>)
    ensures
        result_view(r) == dimension_or_alias_spec(reference@, token_path@, *value),
{
    match value {
        Json::Str(s) if is_alias(s.as_str()) => alias_to_css_var(reference, token_path, s.as_str()),
        Json::Object(members) => dimension_css_value(reference, token_path, members.as_slice()),
        _ => Err(value_error("dimension", reference, token_path, "DTCG dimension object or alias")),
    }
}

pub fn number_or_alias_css_value(reference: &str, token_path: &str, value: &Json) -> (r: Result<String, String>)
    ensures
        result_view(r) == number_or_alias_spec(reference@, token_path@, *value),
{
    match value {
        Json::Str(s) if is_alias(s.as_str()) => alias_to_css_var(reference, token_path, s.as_str()),
        Json::Number(n) => Ok(n.text.clone()),
        _ => Err(value_error("number", reference, token_path, "number or alias")),
    }
}

pub fn string_or_alias_css_value(reference: &str, token_path: &str, value: &Json) -> (r: Result<String, String>)
    ensures
        result_view(r) == string_or_alias_spec(reference@, token_path@, *value),
{
    match value {
        Json::Str(s) if is_alias(s.as_str()) => alias_to_css_var(reference, token_path, s.as_str()),
        Json::Str(s) => validate_css_value(reference, token_path, s.as_str()),
        _ => Err(value_error("string", reference, token_path, "string or alias")),
    }
}

pub fn line_height_css_value(reference: &str, token_path: &str, value: &Json) -> (r: Result<String, String>)
    ensures
        result_view(r) == line_height_spec(reference@, token_path@, *value),
{
    match value {
        Json::Str(s) if is_alias(s.as_str()) => alias_to_css_var(reference, token_path, s.as_str()),
        Json::Number(n) => Ok(n.text.clone()),
        Json::Object(members) => dimension_css_value(reference, token_path, members.as_slice()),
        _ => Err(value_error("lineHeight", reference, token_path, "number, dimension, or alias")),
    }
}

pub fn font_weight_css_value(reference: &str, token_path: &str, value: &Json) -> (r: Result<String, String>)
    ensures
        result_view(r) == font_weight_spec(reference@, token_path@, *value),
{
    match value {
        Json::Str(s) if is_alias(s.as_str()) => alias_to_css_var(reference, token_path, s.as_str()),
        Json::Str(s) => validate_css_value(reference, token_path, s.as_str()),
        Json::Number(n) => {
            if n.integer == Some(400i64) {
                Ok(string_of("normal"))
            } else if n.integer == Some(700i64) {
                Ok(string_of("bold"))
            } else {
                Ok(n.text.clone())
            }
        },
        _ => Err(value_error("fontWeight", reference, token_path, "number, string, or alias")),
    }
}

} // verus!
