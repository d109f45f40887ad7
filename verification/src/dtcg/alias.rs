//! Aliases `{path.to.token}` in DTCG values, and how each output file may use them.

use vstd::prelude::*;
use crate::dtcg::{theme_label, theme_suffix, Theme};
use crate::text::{
    cat5, cat7, chars_of, contains_char, ends_with, push_char, push_chars, push_str, spec_contains_char,
    spec_ends_with, split_chars, split_on, string_from_chars, string_of,
};

verus! {

/// What lies between a leading `{` and a trailing `}`, as `strip_prefix('{')`
/// followed by `strip_suffix('}')` gives it.
pub open spec fn braced_reference(value: Seq<char>) -> Option<Seq<char>> {
    if value.len() >= 2 && value[0] == '{' && value.last() == '}' {
        Some(value.subrange(1, value.len() - 1))
    } else {
        None
    }
}

/// Every segment is non-empty and does not start with `$`.
pub open spec fn segments_ok(segments: Seq<Seq<char>>) -> bool {
    forall|i: int| 0 <= i < segments.len() ==> (#[trigger] segments[i]).len() > 0 && segments[i][0] != '$'
}

/// Whether `value` is an alias `{a.b.c}`: a non-empty reference without braces
/// whose dot-separated segments are non-empty and do not start with `$`.
pub open spec fn is_alias_value(value: Seq<char>) -> bool {
    match braced_reference(value) {
        Some(reference) => reference.len() > 0
            && !spec_contains_char(reference, '{')
            && !spec_contains_char(reference, '}')
            && segments_ok(split_on(reference, '.')),
        None => false,
    }
}

/// The theme whose suffix ends the last segment of `reference`. The suffixes
/// hold no `.`, so ending the last segment with one is ending `reference` with it.
pub open spec fn theme_of_reference(reference: Seq<char>) -> Option<Theme> {
    if spec_ends_with(reference, "-light"@) {
        Some(Theme::Light)
    } else if spec_ends_with(reference, "-dark"@) {
        Some(Theme::Dark)
    } else {
        None
    }
}

/// A value of a foundation token: an alias to a themed token is refused, and
/// anything else is kept as it is.
pub open spec fn foundation_alias_spec(token_name: Seq<char>, raw: Seq<char>) -> Result<Seq<char>, Seq<char>> {
    match braced_reference(raw) {
        Some(reference) => if theme_of_reference(reference) is Some {
            Err("foundation token `"@ + token_name + "` must not reference themed token `"@ + reference + "`"@)
        } else {
            Ok(raw)
        },
        None => Ok(raw),
    }
}

/// A value of a token of `theme`: an alias to a token of the same theme loses
/// the theme suffix, one to the other theme is refused, and anything else is
/// kept as it is.
pub open spec fn theme_alias_spec(token_name: Seq<char>, raw: Seq<char>, theme: Theme) -> Result<Seq<char>, Seq<char>> {
    match braced_reference(raw) {
        Some(reference) => match theme_of_reference(reference) {
            Some(alias_theme) => if alias_theme == theme {
                Ok("{"@ + reference.subrange(0, reference.len() - theme_suffix(theme).len()) + "}"@)
            } else {
                Err(theme_label(theme) + " theme token `"@ + token_name + "` must not reference "@
                    + theme_label(alias_theme) + " theme token `"@ + reference + "`"@)
            },
            None => Ok(raw),
        },
        None => Ok(raw),
    }
}

/// The reference inside `{...}`.
fn alias_reference(value: &[char]) -> (r: Option<Vec<char>>)
    ensures
        match r {
            Some(inner) => braced_reference(value@) == Some(inner@),
            None => braced_reference(value@) is None,
        },
{
    let n = value.len();
    if n >= 2 && value[0] == '{' && value[n - 1] == '}' {
        Some(crate::text::slice_chars(value, 1, n - 1))
    } else {
        None
    }
}

/// The theme whose suffix ends `reference`.
fn reference_has_theme_suffix(reference: &[char]) -> (r: Option<Theme>)
    ensures
        r == theme_of_reference(reference@),
{
    let light = chars_of(Theme::Light.suffix());
    let dark = chars_of(Theme::Dark.suffix());
    if ends_with(reference, light.as_slice()) {
        Some(Theme::Light)
    } else if ends_with(reference, dark.as_slice()) {
        Some(Theme::Dark)
    } else {
        None
    }
}

/// Whether `value` is an alias `{a.b.c}`.
pub fn is_alias(value: &str) -> (r: bool)
    ensures
        r == is_alias_value(value@),
{
    let cs = chars_of(value);
    let reference = match alias_reference(cs.as_slice()) {
        Some(reference) => reference,
        None => return false,
    };
    if reference.len() == 0 || contains_char(reference.as_slice(), '{') || contains_char(reference.as_slice(), '}') {
        return false;
    }
    let segments = split_chars(reference.as_slice(), '.');
    let mut i: usize = 0;
    while i < segments.len()
        invariant
            i <= segments@.len(),
            braced_reference(value@) == Some(reference@),
            reference@.len() > 0,
            !spec_contains_char(reference@, '{'),
            !spec_contains_char(reference@, '}'),
            segments@.len() == split_on(reference@, '.').len(),
            forall|j: int| 0 <= j < segments@.len() ==> #[trigger] segments@[j]@ == split_on(reference@, '.')[j],
            forall|j: int| 0 <= j < i ==> (#[trigger] split_on(reference@, '.')[j]).len() > 0 && split_on(reference@, '.')[j][0] != '$',
        decreases segments@.len() - i,
    {
        assert(segments@[i as int]@ == split_on(reference@, '.')[i as int]);
        if segments[i].len() == 0 || segments[i][0] == '$' {
            proof {
                let segs = split_on(reference@, '.');
                assert(!(segs[i as int].len() > 0 && segs[i as int][0] != '$'));
            }
            return false;
        }
        i = i + 1;
    }
    true
}

/// The value a foundation token keeps: aliases to themed tokens are refused.
pub fn normalize_alias_for_foundation(token_name: &str, raw_value: &str) -> (r: Result<String, String>)
    ensures
        crate::text::result_view(r) == foundation_alias_spec(token_name@, raw_value@),
{
    let cs = chars_of(raw_value);
    let reference = match alias_reference(cs.as_slice()) {
        Some(reference) => reference,
        None => return Ok(string_of(raw_value)),
    };
    if reference_has_theme_suffix(reference.as_slice()).is_some() {
        let reference_text = string_from_chars(reference.as_slice());
        return Err(cat5(
            "foundation token `",
            token_name,
            "` must not reference themed token `",
            reference_text.as_str(),
            "`",
        ));
    }
    Ok(string_of(raw_value))
}

/// The value a token of `theme` keeps: an alias to the same theme loses the
/// theme suffix; one to the other theme is refused.
pub fn normalize_alias_for_theme(token_name: &str, raw_value: &str, theme: Theme) -> (r: Result<String, String>)
    ensures
        crate::text::result_view(r) == theme_alias_spec(token_name@, raw_value@, theme),
{
    let cs = chars_of(raw_value);
    let reference = match alias_reference(cs.as_slice()) {
        Some(reference) => reference,
        None => return Ok(string_of(raw_value)),
    };
    match reference_has_theme_suffix(reference.as_slice()) {
        Some(alias_theme) => {
            if alias_theme == theme {
                let suffix_len = chars_of(theme.suffix()).len();
                let kept = crate::text::slice_chars(reference.as_slice(), 0, reference.len() - suffix_len);
                let mut out = String::new();
                push_char(&mut out, '{');
                push_chars(&mut out, kept.as_slice());
                push_char(&mut out, '}');
                proof {
                    reveal_strlit("{");
                    reveal_strlit("}");
                    assert(out@ =~= "{"@ + reference@.subrange(0, reference@.len() - theme_suffix(theme).len()) + "}"@);
                }
                Ok(out)
            } else {
                let reference_text = string_from_chars(reference.as_slice());
                let mut message = cat7(
                    theme.label(),
                    " theme token `",
                    token_name,
                    "` must not reference ",
                    alias_theme.label(),
                    " theme token `",
                    reference_text.as_str(),
                );
                push_str(&mut message, "`");
                Err(message)
            }
        },
        None => Ok(string_of(raw_value)),
    }
}

} // verus!
