//! The token values Figma can import.

use vstd::prelude::*;
use crate::json::{field, get, get_str, jfield, jget, jmembers, jstr, lemma_jfield, lemma_jobject, JView, Json};
use crate::tailwind_v4::alias::{is_alias, is_alias_spec};
use crate::text::{for_in, push_str, str_eq, unit_view, with_place, with_place_then};

verus! {

/// A dimension: an alias, or a `{ value, unit }` object in pixels.
pub open spec fn dimension_check(reference: Seq<char>, path: Seq<char>, value: JView) -> Result<(), Seq<char>> {
    let head = "invalid dimension value"@ + for_in(path, reference);
    match value {
        JView::Str(s) => if is_alias_spec(s) {
            Ok(())
        } else {
            Err(head + ": expected px dimension object or alias"@)
        },
        JView::Object(d) => match jstr(jfield(d, "unit"@)) {
            None => Err(head + ": missing unit"@),
            Some(unit) => if !(jfield(d, "value"@) matches Some(JView::Number(_))) {
                Err(head + ": missing value"@)
            } else if unit != "px"@ {
                Err(head + ": Figma import supports px only, got "@ + unit)
            } else {
                Ok(())
            },
        },
        _ => Err(head + ": expected px dimension object or alias"@),
    }
}

/// A color: an alias, or an object in the `srgb` or `hsl` color space.
pub open spec fn color_check(reference: Seq<char>, path: Seq<char>, value: JView) -> Result<(), Seq<char>> {
    let head = "invalid color value"@ + for_in(path, reference);
    match value {
        JView::Str(s) => if is_alias_spec(s) {
            Ok(())
        } else {
            Err(head + ": expected DTCG color object or alias"@)
        },
        JView::Object(c) => match jstr(jfield(c, "colorSpace"@)) {
            None => Err(head + ": missing colorSpace"@),
            Some(space) => if space != "srgb"@ && space != "hsl"@ {
                Err(head + ": expected srgb or hsl"@)
            } else {
                Ok(())
            },
        },
        _ => Err(head + ": expected DTCG color object or alias"@),
    }
}

/// A number or an alias.
pub open spec fn number_check(reference: Seq<char>, path: Seq<char>, value: JView) -> Result<(), Seq<char>> {
    match value {
        JView::Str(s) => if is_alias_spec(s) {
            Ok(())
        } else {
            Err("invalid number value"@ + for_in(path, reference) + ": expected number or alias"@)
        },
        JView::Number(_) => Ok(()),
        _ => Err("invalid number value"@ + for_in(path, reference) + ": expected number or alias"@),
    }
}

/// The `$value` of a token checked against the token's type.
pub open spec fn value_check(reference: Seq<char>, path: Seq<char>, token_type: Option<Seq<char>>, token: JView) -> Result<(), Seq<char>> {
    match jget(token, "$value"@) {
        None => Err("missing `$value`"@ + for_in(path, reference)),
        Some(value) => match token_type {
            Some(t) => if t == "color"@ {
                color_check(reference, path, value)
            } else if t == "dimension"@ {
                dimension_check(reference, path, value)
            } else if t == "number"@ {
                number_check(reference, path, value)
            } else {
                Err("unsupported token type"@ + for_in(path, reference) + ": "@ + t)
            },
            None => Err("unsupported token type"@ + for_in(path, reference)
                + ": expected a Figma-supported token type, got <missing>"@),
        },
    }
}

/// Checks a dimension value.
pub fn validate_dimension_or_alias(reference: &str, token_path: &str, value: &Json) -> (r: Result<(), String>)
    ensures
        unit_view(r) == dimension_check(reference@, token_path@, value.jview()),
{
    match value {
        Json::Str(s) => {
            if is_alias(s.as_str()) {
                Ok(())
            } else {
                Err(with_place_then("invalid dimension value", token_path, reference, ": expected px dimension object or alias"))
            }
        },
        Json::Object(d) => {
            proof {
                lemma_jobject(*d);
                lemma_jfield(d@, "unit"@);
                lemma_jfield(d@, "value"@);
            }
            let unit = match field(d.as_slice(), "unit") {
                Some(Json::Str(u)) => u,
                _ => return Err(with_place_then("invalid dimension value", token_path, reference, ": missing unit")),
            };
            match field(d.as_slice(), "value") {
                Some(Json::Number(_)) => {},
                _ => return Err(with_place_then("invalid dimension value", token_path, reference, ": missing value")),
            }
            if !str_eq(unit.as_str(), "px") {
                let mut e = with_place_then("invalid dimension value", token_path, reference, ": Figma import supports px only, got ");
                push_str(&mut e, unit.as_str());
                return Err(e);
            }
            Ok(())
        },
        _ => Err(with_place_then("invalid dimension value", token_path, reference, ": expected px dimension object or alias")),
    }
}

/// Checks a color value.
fn validate_color_or_alias(reference: &str, token_path: &str, value: &Json) -> (r: Result<(), String>)
    ensures
        unit_view(r) == color_check(reference@, token_path@, value.jview()),
{
    match value {
        Json::Str(s) => {
            if is_alias(s.as_str()) {
                Ok(())
            } else {
                Err(with_place_then("invalid color value", token_path, reference, ": expected DTCG color object or alias"))
            }
        },
        Json::Object(c) => {
            proof {
                lemma_jobject(*c);
                lemma_jfield(c@, "colorSpace"@);
            }
            let space = match field(c.as_slice(), "colorSpace") {
                Some(Json::Str(s)) => s,
                _ => return Err(with_place_then("invalid color value", token_path, reference, ": missing colorSpace")),
            };
            if !str_eq(space.as_str(), "srgb") && !str_eq(space.as_str(), "hsl") {
                return Err(with_place_then("invalid color value", token_path, reference, ": expected srgb or hsl"));
            }
            Ok(())
        },
        _ => Err(with_place_then("invalid color value", token_path, reference, ": expected DTCG color object or alias")),
    }
}

/// Checks a number value.
fn validate_number_or_alias(reference: &str, token_path: &str, value: &Json) -> (r: Result<(), String>)
    ensures
        unit_view(r) == number_check(reference@, token_path@, value.jview()),
{
    match value {
        Json::Str(s) => {
            if is_alias(s.as_str()) {
                Ok(())
            } else {
                Err(with_place_then("invalid number value", token_path, reference, ": expected number or alias"))
            }
        },
        Json::Number(_) => Ok(()),
        _ => Err(with_place_then("invalid number value", token_path, reference, ": expected number or alias")),
    }
}

/// Checks the `$value` of a token against its type.
pub fn validate_token_value(reference: &str, token_path: &str, token_type: Option<&String>, token: &Json) -> (r: Result<(), String>)
    ensures
        unit_view(r) == value_check(reference@, token_path@, crate::tailwind_v4::token::opt_view(token_type), token.jview()),
{
    proof {
        if token is Object {
            lemma_jobject(token->Object_0);
            lemma_jfield(token->Object_0@, "$value"@);
        }
    }
    let value = match get(token, "$value") {
        Some(v) => v,
        None => return Err(with_place("missing `$value`", token_path, reference)),
    };
    match token_type {
        Some(t) => {
            if str_eq(t.as_str(), "color") {
                validate_color_or_alias(reference, token_path, value)
            } else if str_eq(t.as_str(), "dimension") {
                validate_dimension_or_alias(reference, token_path, value)
            } else if str_eq(t.as_str(), "number") {
                validate_number_or_alias(reference, token_path, value)
            } else {
                let mut e = with_place_then("unsupported token type", token_path, reference, ": ");
                push_str(&mut e, t.as_str());
                Err(e)
            }
        },
        None => Err(with_place_then(
            "unsupported token type",
            token_path,
            reference,
            ": expected a Figma-supported token type, got <missing>",
        )),
    }
}

} // verus!
