//! CSS text for dimension objects and plain values.

use vstd::prelude::*;
use crate::json::{field, field_of, json_as_str, Json};
use crate::text::{cat2, chars_of, for_in, result_view, str_eq, string_of, with_place};

verus! {

pub open spec fn msg_dimension(path: Seq<char>, reference: Seq<char>, what: Seq<char>) -> Seq<char> {
    "invalid dimension value"@ + for_in(path, reference) + what
}

/// The CSS text of a DTCG dimension object `{ "value": ..., "unit": ... }`:
/// the value as CSS prints it, followed by the unit, which is `px` or `rem`.
pub open spec fn dimension_css_spec(reference: Seq<char>, path: Seq<char>, members: Seq<(String, Json)>) -> Result<Seq<char>, Seq<char>> {
    match field_of(members, "value"@) {
        Some(Json::Number(n)) => match json_as_str(field_of(members, "unit"@)) {
            None => Err(msg_dimension(path, reference, ": missing unit"@)),
            Some(unit) => if unit == "px"@ || unit == "rem"@ {
                Ok(n.css@ + unit)
            } else {
                Err(msg_dimension(path, reference, ": expected px or rem"@))
            },
        },
        _ => Err(msg_dimension(path, reference, ": missing value"@)),
    }
}

/// A character that a CSS value may not hold.
pub open spec fn is_forbidden_css_char(c: char) -> bool {
    c == ';' || c == '{' || c == '}' || c == '\n' || c == '\r'
}

/// A string is a CSS value when it is not empty and holds none of `;`, `{`,
/// `}`, line feed and carriage return.
pub open spec fn css_value_spec(reference: Seq<char>, path: Seq<char>, value: Seq<char>) -> Result<Seq<char>, Seq<char>> {
    if value.len() == 0 || exists|i: int| 0 <= i < value.len() && is_forbidden_css_char(#[trigger] value[i]) {
        Err("invalid CSS value"@ + for_in(path, reference))
    } else {
        Ok(value)
    }
}

/// The CSS text of a DTCG dimension object.
pub fn dimension_css_value(reference: &str, token_path: &str, dimension: &[(String, Json)]) -> (r: Result<String, String>)
    ensures
        result_view(r) == dimension_css_spec(reference@, token_path@, dimension@),
{
    let number = match field(dimension, "value") {
        Some(Json::Number(n)) => n,
        _ => {
            let e = with_place("invalid dimension value", token_path, reference);
            let e = cat2(e.as_str(), ": missing value");
            assert(e@ =~= msg_dimension(token_path@, reference@, ": missing value"@));
            return Err(e);
        },
    };
    let unit = match field(dimension, "unit") {
        Some(Json::Str(u)) => u,
        _ => {
            let e = with_place("invalid dimension value", token_path, reference);
            let e = cat2(e.as_str(), ": missing unit");
            assert(e@ =~= msg_dimension(token_path@, reference@, ": missing unit"@));
            return Err(e);
        },
    };
    if !str_eq(unit.as_str(), "px") && !str_eq(unit.as_str(), "rem") {
        let e = with_place("invalid dimension value", token_path, reference);
        let e = cat2(e.as_str(), ": expected px or rem");
        assert(e@ =~= msg_dimension(token_path@, reference@, ": expected px or rem"@));
        return Err(e);
    }
    Ok(cat2(number.css.as_str(), unit.as_str()))
}

/// Checks that `value` can stand as a CSS value.
pub fn validate_css_value(reference: &str, token_path: &str, value: &str) -> (r: Result<String, String>)
    ensures
        result_view(r) == css_value_spec(reference@, token_path@, value@),
{
    let cs = chars_of(value);
    let mut bad = cs.len() == 0;
    let mut i: usize = 0;
    while i < cs.len() && !bad
        invariant
            i <= cs@.len(),
            cs@ == value@,
            bad == (cs@.len() == 0 || exists|j: int| 0 <= j < i && is_forbidden_css_char(#[trigger] cs@[j])),
        decreases cs@.len() - i,
    {
        let c = cs[i];
        if c == ';' || c == '{' || c == '}' || c == '\n' || c == '\r' {
            bad = true;
        }
        i = i + 1;
    }
    if bad {
        return Err(with_place("invalid CSS value", token_path, reference));
    }
    Ok(string_of(value))
}

} // verus!
