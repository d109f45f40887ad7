//! The fields a typography token may have.

use vstd::prelude::*;
use crate::json::Json;
use crate::text::{cat5, push_str, str_eq, unit_view};

verus! {

/// The fields a typography token may have.
pub open spec fn is_supported_typography_field_spec(name: Seq<char>) -> bool {
    name == "fontFamily"@ || name == "fontSize"@ || name == "fontWeight"@ || name == "letterSpacing"@
        || name == "lineHeight"@ || name == "fontFeature"@ || name == "fontVariation"@
}

/// The first field, in order, that a typography token may not have.
pub open spec fn first_unsupported_field(members: Seq<(String, Json)>) -> Option<Seq<char>>
    decreases members.len(),
{
    if members.len() == 0 {
        None
    } else if !is_supported_typography_field_spec(members[0].0@) {
        Some(members[0].0@)
    } else {
        first_unsupported_field(members.drop_first())
    }
}

/// Every field of a typography value must be supported.
pub open spec fn validate_fields_spec(reference: Seq<char>, path: Seq<char>, members: Seq<(String, Json)>) -> Result<(), Seq<char>> {
    match first_unsupported_field(members) {
        None => Ok(()),
        Some(name) => Err("unsupported typography field `"@ + name + "` for token `"@ + path + "` in `"@ + reference
            + "`"@),
    }
}

pub fn is_supported_typography_field(name: &str) -> (r: bool)
    ensures
        r == is_supported_typography_field_spec(name@),
{
    str_eq(name, "fontFamily") || str_eq(name, "fontSize") || str_eq(name, "fontWeight") || str_eq(name, "letterSpacing")
        || str_eq(name, "lineHeight") || str_eq(name, "fontFeature") || str_eq(name, "fontVariation")
}

/// Checks that every field of a typography value is supported.
pub fn validate_fields(reference: &str, token_path: &str, value: &[(String, Json)]) -> (r: Result<(), String>)
    ensures
        unit_view(r) == validate_fields_spec(reference@, token_path@, value@),
{
    let mut i: usize = 0;
    assert(value@.skip(0) == value@);
    while i < value.len()
        invariant
            i <= value@.len(),
            first_unsupported_field(value@) == first_unsupported_field(value@.skip(i as int)),
        decreases value@.len() - i,
    {
        assert(value@.skip(i as int).drop_first() == value@.skip(i + 1int));
        if !is_supported_typography_field(value[i].0.as_str()) {
            let mut e = cat5("unsupported typography field `", value[i].0.as_str(), "` for token `", token_path, "` in `");
            push_str(&mut e, reference);
            push_str(&mut e, "`");
            return Err(e);
        }
        i = i + 1;
    }
    Ok(())
}

} // verus!
