//! CSS variable names for token names.

use vstd::prelude::*;
use crate::text::{
    chars_of, for_in, is_ascii_alphanumeric, push_char, push_str, result_view,
    spec_is_ascii_alphanumeric, string_of,
};

verus! {

/// How a token name becomes part of a CSS variable name.
#[derive(Clone, Copy)]
pub enum NameMode {
    /// Kept as it is.
    Preserve,
    /// Hyphens become underscores.
    Typography,
}

pub open spec fn mapped_name_char(c: char, mode: NameMode) -> char {
    match mode {
        NameMode::Typography => if c == '-' { '_' } else { c },
        NameMode::Preserve => c,
    }
}

pub open spec fn is_css_name_char(c: char) -> bool {
    spec_is_ascii_alphanumeric(c) || c == '-' || c == '_'
}

pub open spec fn msg_empty_token_name() -> Seq<char> {
    "invalid token name: expected a non-empty name"@
}

pub open spec fn msg_invalid_token_name(name: Seq<char>) -> Seq<char> {
    "invalid token name `"@ + name + "`: expected ASCII letters, numbers, `_`, or `-`"@
}

/// The CSS name part for a token name: each character mapped by `mode`, when
/// every mapped character is an ASCII letter or digit, `-` or `_`.
pub open spec fn css_name_suffix_spec(name: Seq<char>, mode: NameMode) -> Result<Seq<char>, Seq<char>> {
    if name.len() == 0 {
        Err(msg_empty_token_name())
    } else if forall|i: int| 0 <= i < name.len() ==> is_css_name_char(#[trigger] mapped_name_char(name[i], mode)) {
        Ok(name.map_values(|c: char| mapped_name_char(c, mode)))
    } else {
        Err(msg_invalid_token_name(name))
    }
}

/// `css_name_suffix_spec`, with the token's place added to an error.
pub open spec fn css_name_for_token_spec(
    reference: Seq<char>,
    path: Seq<char>,
    name: Seq<char>,
    mode: NameMode,
) -> Result<Seq<char>, Seq<char>> {
    match css_name_suffix_spec(name, mode) {
        Ok(s) => Ok(s),
        Err(e) => Err(e + for_in(path, reference)),
    }
}

/// The CSS name part for a token name.
pub fn css_name_suffix(name: &str, mode: NameMode) -> (r: Result<String, String>)
    ensures
        result_view(r) == css_name_suffix_spec(name@, mode),
{
    let cs = chars_of(name);
    if cs.len() == 0 {
        return Err(string_of("invalid token name: expected a non-empty name"));
    }
    let mut suffix = String::new();
    let mut i: usize = 0;
    while i < cs.len()
        invariant
            i <= cs@.len(),
            cs@ == name@,
            suffix@ == cs@.take(i as int).map_values(|c: char| mapped_name_char(c, mode)),
            forall|j: int| 0 <= j < i ==> is_css_name_char(#[trigger] mapped_name_char(cs@[j], mode)),
        decreases cs@.len() - i,
    {
        let c = cs[i];
        let mapped = match mode {
            NameMode::Preserve => c,
            NameMode::Typography => if c == '-' { '_' } else { c },
        };
        if !is_ascii_alphanumeric(mapped) && mapped != '-' && mapped != '_' {
            let mut e = string_of("invalid token name `");
            push_str(&mut e, name);
            push_str(&mut e, "`: expected ASCII letters, numbers, `_`, or `-`");
            assert(!is_css_name_char(mapped_name_char(name@[i as int], mode)));
            return Err(e);
        }
        proof {
            assert(cs@.take(i + 1int).map_values(|c: char| mapped_name_char(c, mode)) =~= cs@.take(
                i as int,
            ).map_values(|c: char| mapped_name_char(c, mode)).push(mapped));
        }
        push_char(&mut suffix, mapped);
        i = i + 1;
    }
    proof {
        assert(cs@.take(cs@.len() as int) == cs@);
    }
    Ok(suffix)
}

/// The CSS name part for a token name; an error names the token's place.
pub fn css_name_suffix_for_token(
    reference: &str,
    token_path: &str,
    name: &str,
    mode: NameMode,
) -> (r: Result<String, String>)
    ensures
        result_view(r) == css_name_for_token_spec(reference@, token_path@, name@, mode),
{
    match css_name_suffix(name, mode) {
        Ok(s) => Ok(s),
        Err(e) => {
            let mut e = e;
            let place = crate::text::for_in_text(token_path, reference);
            push_str(&mut e, place.as_str());
            Err(e)
        },
    }
}

/// In typography mode no hyphen is left in a name part, and every other
/// character is kept.
pub proof fn law_typography_names_have_no_hyphen(name: Seq<char>)
    requires
        css_name_suffix_spec(name, NameMode::Typography) is Ok,
    ensures
        ({
            let s = css_name_suffix_spec(name, NameMode::Typography)->Ok_0;
            &&& s.len() == name.len()
            &&& forall|i: int| 0 <= i < s.len() ==> s[i] != '-'
            &&& forall|i: int| 0 <= i < s.len() && name[i] != '-' ==> s[i] == name[i]
        }),
{
}

} // verus!
