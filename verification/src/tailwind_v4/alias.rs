//! CSS `var(...)` references for DTCG aliases.

use vstd::prelude::*;
use crate::tailwind_v4::alias_typography::{typography_alias_css_var, typography_alias_var_spec};
use crate::tailwind_v4::names::{css_name_for_token_spec, css_name_suffix_for_token, NameMode};
use crate::text::{
    cat2, cat3, chars_eq_str, chars_of, for_in, push_str, result_view, slice_chars, split_chars,
    split_on, string_from_chars, string_of, with_place, with_place_then,
};

verus! {

/// The reference inside `{...}`: what lies between a leading `{` and a
/// trailing `}`, when that is not empty.
pub open spec fn alias_reference_spec(value: Seq<char>) -> Option<Seq<char>> {
    if value.len() >= 3 && value[0] == '{' && value.last() == '}' {
        Some(value.subrange(1, value.len() - 1))
    } else {
        None
    }
}

/// Whether `value` is an alias `{...}`.
pub open spec fn is_alias_spec(value: Seq<char>) -> bool {
    alias_reference_spec(value) is Some
}

/// The reference inside `{...}`.
pub fn alias_reference(value: &[char]) -> (r: Option<Vec<char>>)
    ensures
        match r {
            Some(inner) => alias_reference_spec(value@) == Some(inner@),
            None => alias_reference_spec(value@) is None,
        },
{
    let n = value.len();
    if n >= 3 && value[0] == '{' && value[n - 1] == '}' {
        Some(slice_chars(value, 1, n - 1))
    } else {
        None
    }
}

/// Whether `value` is an alias `{...}`.
pub fn is_alias(value: &str) -> (r: bool)
    ensures
        r == is_alias_spec(value@),
{
    let cs = chars_of(value);
    alias_reference(cs.as_slice()).is_some()
}

/// The CSS name parts of `segments`, joined by `-`; the first failing segment
/// gives the error.
pub open spec fn joined_names_spec(
    reference: Seq<char>,
    path: Seq<char>,
    segments: Seq<Seq<char>>,
    mode: NameMode,
) -> Result<Seq<char>, Seq<char>>
    decreases segments.len(),
{
    if segments.len() <= 1 {
        css_name_for_token_spec(reference, path, segments[0], mode)
    } else {
        match css_name_for_token_spec(reference, path, segments[0], mode) {
            Err(e) => Err(e),
            Ok(first) => match joined_names_spec(reference, path, segments.drop_first(), mode) {
                Err(e) => Err(e),
                Ok(rest) => Ok(first + "-"@ + rest),
            },
        }
    }
}

/// `out`, a hyphen and the rest, where the rest succeeds.
pub open spec fn joined_after(out: Seq<char>, r: Result<Seq<char>, Seq<char>>) -> Result<Seq<char>, Seq<char>> {
    match r {
        Ok(rest) => Ok(out + "-"@ + rest),
        Err(e) => Err(e),
    }
}

/// The CSS name part that the segments after an alias namespace make.
pub open spec fn alias_suffix_spec(
    reference: Seq<char>,
    path: Seq<char>,
    namespace: Seq<char>,
    segments: Seq<Seq<char>>,
    mode: NameMode,
) -> Result<Seq<char>, Seq<char>> {
    if segments.len() == 0 {
        Err("invalid alias"@ + for_in(path, reference) + ": `"@ + namespace
            + "` alias is missing a token name"@)
    } else {
        joined_names_spec(reference, path, segments, mode)
    }
}

/// `prefix` before a successful name part.
pub open spec fn prefixed(prefix: Seq<char>, r: Result<Seq<char>, Seq<char>>) -> Result<Seq<char>, Seq<char>> {
    match r {
        Ok(s) => Ok(prefix + s),
        Err(e) => Err(e),
    }
}

/// The CSS variable (without `var(...)`) for the segments of an alias.
pub open spec fn alias_var_spec(reference: Seq<char>, path: Seq<char>, segments: Seq<Seq<char>>) -> Result<Seq<char>, Seq<char>> {
    let namespace = segments[0];
    let rest = segments.drop_first();
    if namespace == "colors"@ {
        prefixed("--color-"@, alias_suffix_spec(reference, path, namespace, rest, NameMode::Preserve))
    } else if namespace == "spacing"@ {
        prefixed("--spacing-"@, alias_suffix_spec(reference, path, namespace, rest, NameMode::Preserve))
    } else if namespace == "radius"@ {
        prefixed("--radius-"@, alias_suffix_spec(reference, path, namespace, rest, NameMode::Preserve))
    } else if namespace == "typography"@ {
        typography_alias_var_spec(reference, path, namespace, rest)
    } else {
        Err("unsupported alias namespace `"@ + namespace + "`"@ + for_in(path, reference))
    }
}

/// The CSS `var(...)` that the alias `{namespace.name...}` stands for.
pub open spec fn alias_to_css_var_spec(reference: Seq<char>, path: Seq<char>, alias: Seq<char>) -> Result<Seq<char>, Seq<char>> {
    match alias_reference_spec(alias) {
        None => Err("invalid alias"@ + for_in(path, reference) + ": expected {path.to.token}"@),
        Some(inner) => match alias_var_spec(reference, path, split_on(inner, '.')) {
            Ok(v) => Ok("var("@ + v + ")"@),
            Err(e) => Err(e),
        },
    }
}

/// Joins the CSS name parts of `segments` with `-`.
fn joined_names(reference: &str, token_path: &str, segments: &[Vec<char>], mode: NameMode) -> (r: Result<String, String>)
    requires
        segments@.len() >= 1,
    ensures
        result_view(r) == joined_names_spec(
            reference@,
            token_path@,
            segments@.map_values(|s: Vec<char>| s@),
            mode,
        ),
{
    let ghost segs = segments@.map_values(|s: Vec<char>| s@);
    let first = string_from_chars(segments[0].as_slice());
    let mut out = match css_name_suffix_for_token(reference, token_path, first.as_str(), mode) {
        Ok(n) => n,
        Err(e) => return Err(e),
    };
    let mut i: usize = 1;
    while i < segments.len()
        invariant
            1 <= i <= segments@.len(),
            segs == segments@.map_values(|s: Vec<char>| s@),
            i == segments@.len() ==> joined_names_spec(reference@, token_path@, segs, mode) == Ok::<
                Seq<char>,
                Seq<char>,
            >(out@),
            i < segments@.len() ==> joined_names_spec(reference@, token_path@, segs, mode)
                == joined_after(out@, joined_names_spec(reference@, token_path@, segs.skip(i as int), mode)),
        decreases segments@.len() - i,
    {
        assert(segs.skip(i as int)[0] == segments@[i as int]@);
        assert(segs.skip(i as int).drop_first() == segs.skip(i + 1int));
        let name = string_from_chars(segments[i].as_slice());
        let part = match css_name_suffix_for_token(reference, token_path, name.as_str(), mode) {
            Ok(n) => n,
            Err(e) => return Err(e),
        };
        let ghost old_out = out@;
        push_str(&mut out, "-");
        push_str(&mut out, part.as_str());
        proof {
            assert(out@ =~= old_out + "-"@ + part@);
            if i + 1 < segments@.len() {
                match joined_names_spec(reference@, token_path@, segs.skip(i + 1int), mode) {
                    Ok(rest) => {
                        assert(old_out + "-"@ + (part@ + "-"@ + rest) =~= out@ + "-"@ + rest);
                    },
                    Err(e) => {},
                }
            }
        }
        i = i + 1;
    }
    Ok(out)
}

/// The CSS name part for the segments after an alias namespace.
pub fn alias_suffix(
    reference: &str,
    token_path: &str,
    namespace: &str,
    segments: &[Vec<char>],
    mode: NameMode,
) -> (r: Result<String, String>)
    ensures
        result_view(r) == alias_suffix_spec(
            reference@,
            token_path@,
            namespace@,
            segments@.map_values(|s: Vec<char>| s@),
            mode,
        ),
{
    if segments.len() == 0 {
        let tail = cat3(": `", namespace, "` alias is missing a token name");
        let e = with_place_then("invalid alias", token_path, reference, tail.as_str());
        assert(e@ =~= "invalid alias"@ + for_in(token_path@, reference@) + ": `"@ + namespace@
            + "` alias is missing a token name"@);
        return Err(e);
    }
    joined_names(reference, token_path, segments, mode)
}

/// The CSS `var(...)` for an alias `{namespace.name...}`.
pub fn alias_to_css_var(reference: &str, token_path: &str, alias: &str) -> (r: Result<String, String>)
    ensures
        result_view(r) == alias_to_css_var_spec(reference@, token_path@, alias@),
{
    let cs = chars_of(alias);
    let inner = match alias_reference(cs.as_slice()) {
        Some(inner) => inner,
        None => {
            return Err(with_place_then("invalid alias", token_path, reference, ": expected {path.to.token}"));
        },
    };
    let segments = split_chars(inner.as_slice(), '.');
    let ghost segs = segments@.map_values(|s: Vec<char>| s@);
    assert(segs =~= split_on(inner@, '.'));
    let namespace = string_from_chars(segments[0].as_slice());
    let rest = slice_vecs(segments.as_slice(), 1);
    assert(rest@.map_values(|s: Vec<char>| s@) =~= segs.drop_first());
    let var = if chars_eq_str(segments[0].as_slice(), "colors") {
        match alias_suffix(reference, token_path, namespace.as_str(), rest.as_slice(), NameMode::Preserve) {
            Ok(s) => cat2("--color-", s.as_str()),
            Err(e) => return Err(e),
        }
    } else if chars_eq_str(segments[0].as_slice(), "spacing") {
        match alias_suffix(reference, token_path, namespace.as_str(), rest.as_slice(), NameMode::Preserve) {
            Ok(s) => cat2("--spacing-", s.as_str()),
            Err(e) => return Err(e),
        }
    } else if chars_eq_str(segments[0].as_slice(), "radius") {
        match alias_suffix(reference, token_path, namespace.as_str(), rest.as_slice(), NameMode::Preserve) {
            Ok(s) => cat2("--radius-", s.as_str()),
            Err(e) => return Err(e),
        }
    } else if chars_eq_str(segments[0].as_slice(), "typography") {
        match typography_alias_css_var(reference, token_path, namespace.as_str(), rest.as_slice()) {
            Ok(s) => s,
            Err(e) => return Err(e),
        }
    } else {
        let head = cat3("unsupported alias namespace `", namespace.as_str(), "`");
        return Err(with_place(head.as_str(), token_path, reference));
    };
    Ok(cat3("var(", var.as_str(), ")"))
}

/// The elements of `v` from `from` on.
fn slice_vecs(v: &[Vec<char>], from: usize) -> (r: Vec<Vec<char>>)
    requires
        from <= v@.len(),
    ensures
        r@.len() == v@.len() - from,
        forall|i: int| 0 <= i < r@.len() ==> #[trigger] r@[i]@ == v@[i + from]@,
{
    let mut out: Vec<Vec<char>> = Vec::new();
    let mut i: usize = from;
    while i < v.len()
        invariant
            from <= i <= v@.len(),
            out@.len() == i - from,
            forall|j: int| 0 <= j < out@.len() ==> #[trigger] out@[j]@ == v@[j + from]@,
        decreases v@.len() - i,
    {
        out.push(slice_chars(v[i].as_slice(), 0, v[i].len()));
        assert(v@[i as int]@.subrange(0, v@[i as int]@.len() as int) == v@[i as int]@);
        i = i + 1;
    }
    out
}

} // verus!
