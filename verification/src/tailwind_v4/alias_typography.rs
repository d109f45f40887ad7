//! CSS variables that a typography alias points at.

use vstd::prelude::*;
use crate::tailwind_v4::names::{css_name_for_token_spec, css_name_suffix_for_token, NameMode};
use crate::text::{cat2, cat3, cat5, chars_eq_str, for_in, result_view, string_from_chars, with_place_then, with_place};

verus! {

/// The CSS variable for field `field` of typography token `name`.
pub open spec fn typography_field_var(name: Seq<char>, field: Seq<char>) -> Option<Seq<char>> {
    if field == "fontFamily"@ {
        Some("--font-"@ + name)
    } else if field == "fontSize"@ {
        Some("--text-"@ + name)
    } else if field == "lineHeight"@ {
        Some("--text-"@ + name + "--line-height"@)
    } else if field == "letterSpacing"@ {
        Some("--text-"@ + name + "--letter-spacing"@)
    } else if field == "fontWeight"@ {
        Some("--text-"@ + name + "--font-weight"@)
    } else {
        None
    }
}

/// The CSS variable that `{namespace.name.field}` stands for, given the
/// segments after the namespace.
pub open spec fn typography_alias_var_spec(
    reference: Seq<char>,
    path: Seq<char>,
    namespace: Seq<char>,
    segments: Seq<Seq<char>>,
) -> Result<Seq<char>, Seq<char>> {
    if segments.len() != 2 {
        Err("unsupported typography alias"@ + for_in(path, reference) + ": expected {"@ + namespace
            + ".name.field}"@)
    } else {
        match css_name_for_token_spec(reference, path, segments[0], NameMode::Typography) {
            Err(e) => Err(e),
            Ok(name) => match typography_field_var(name, segments[1]) {
                Some(v) => Ok(v),
                None => Err("unsupported typography alias field `"@ + segments[1] + "`"@ + for_in(
                    path,
                    reference,
                )),
            },
        }
    }
}

/// The CSS variable that a typography alias stands for.
pub fn typography_alias_css_var(
    reference: &str,
    token_path: &str,
    namespace: &str,
    segments: &[Vec<char>],
) -> (r: Result<String, String>)
    ensures
        result_view(r) == typography_alias_var_spec(
            reference@,
            token_path@,
            namespace@,
            segments@.map_values(|s: Vec<char>| s@),
        ),
{
    let ghost segs = segments@.map_values(|s: Vec<char>| s@);
    if segments.len() != 2 {
        let head = with_place("unsupported typography alias", token_path, reference);
        let tail = cat3(": expected {", namespace, ".name.field}");
        let e = cat2(head.as_str(), tail.as_str());
        assert(e@ =~= "unsupported typography alias"@ + for_in(token_path@, reference@) + ": expected {"@
            + namespace@ + ".name.field}"@);
        return Err(e);
    }
    assert(segs[0] == segments@[0]@ && segs[1] == segments@[1]@);
    let first = string_from_chars(segments[0].as_slice());
    let name = match css_name_suffix_for_token(reference, token_path, first.as_str(), NameMode::Typography) {
        Ok(n) => n,
        Err(e) => return Err(e),
    };
    let field = &segments[1];
    if chars_eq_str(field.as_slice(), "fontFamily") {
        Ok(cat2("--font-", name.as_str()))
    } else if chars_eq_str(field.as_slice(), "fontSize") {
        Ok(cat2("--text-", name.as_str()))
    } else if chars_eq_str(field.as_slice(), "lineHeight") {
        Ok(cat3("--text-", name.as_str(), "--line-height"))
    } else if chars_eq_str(field.as_slice(), "letterSpacing") {
        Ok(cat3("--text-", name.as_str(), "--letter-spacing"))
    } else if chars_eq_str(field.as_slice(), "fontWeight") {
        Ok(cat3("--text-", name.as_str(), "--font-weight"))
    } else {
        let f = string_from_chars(field.as_slice());
        let head = cat3("unsupported typography alias field `", f.as_str(), "`");
        Err(with_place(head.as_str(), token_path, reference))
    }
}

} // verus!
