//! Reading tokens out of a DTCG token group.

use vstd::prelude::*;
use crate::json::{field_of, get, get_str, json_as_str, json_get, Json};
use crate::text::{cat2, cat3, cat5, for_in, push_str, string_of, str_eq, unit_view, with_place};

verus! {

/// A member name that starts with `$` holds metadata, not a token.
pub open spec fn is_metadata_key_spec(key: Seq<char>) -> bool {
    key.len() > 0 && key[0] == '$'
}

/// Whether a member name holds metadata.
pub fn is_metadata_key(key: &str) -> (r: bool)
    ensures
        r == is_metadata_key_spec(key@),
{
    let cs = crate::text::chars_of(key);
    cs.len() > 0 && cs[0] == '$'
}

/// The characters of an optional borrowed string.
pub open spec fn opt_view(o: Option<&String>) -> Option<Seq<char>> {
    match o {
        Some(s) => Some(s@),
        None => None,
    }
}

/// The type a token declares, or else the type of its group.
pub open spec fn token_type_spec(token: Json, group_type: Option<Seq<char>>) -> Option<Seq<char>> {
    match json_as_str(json_get(token, "$type"@)) {
        Some(t) => Some(t),
        None => group_type,
    }
}

/// The `$type` a group declares for its tokens.
pub open spec fn group_type_spec(group: Seq<(String, Json)>) -> Option<Seq<char>> {
    json_as_str(field_of(group, "$type"@))
}

/// The path of a token: the group name, a dot and the token name.
pub open spec fn token_path_spec(group: Seq<char>, name: Seq<char>) -> Seq<char> {
    group + "."@ + name
}

/// `parts` joined by `sep`.
pub open spec fn join_with(parts: Seq<Seq<char>>, sep: Seq<char>) -> Seq<char>
    decreases parts.len(),
{
    if parts.len() == 0 {
        Seq::empty()
    } else if parts.len() == 1 {
        parts[0]
    } else {
        join_with(parts.drop_last(), sep) + sep + parts.last()
    }
}

/// A token's type must be one of `expected`.
pub open spec fn ensure_type_spec(
    reference: Seq<char>,
    path: Seq<char>,
    actual: Option<Seq<char>>,
    expected: Seq<Seq<char>>,
) -> Result<(), Seq<char>> {
    if actual matches Some(t) && expected.contains(t) {
        Ok(())
    } else {
        Err("unsupported token type"@ + for_in(path, reference) + ": expected "@ + join_with(expected, " or "@)
            + ", got "@ + match actual {
            Some(t) => t,
            None => "<missing>"@,
        })
    }
}

/// The `$value` of a token.
pub open spec fn token_value_spec(reference: Seq<char>, path: Seq<char>, token: Json) -> Result<Json, Seq<char>> {
    match json_get(token, "$value"@) {
        Some(v) => Ok(v),
        None => Err("missing `$value`"@ + for_in(path, reference)),
    }
}

/// The error for a token group that is not an object.
pub open spec fn msg_group_not_object(reference: Seq<char>, group: Seq<char>) -> Seq<char> {
    "invalid token group `"@ + group + "` in `"@ + reference + "`: expected object"@
}

/// The type a token declares, or else the type of its group.
pub fn token_type<'a>(token: &'a Json, group_type: Option<&'a String>) -> (r: Option<&'a String>)
    ensures
        opt_view(r) == token_type_spec(*token, opt_view(group_type)),
{
    match get_str(token, "$type") {
        Some(t) => Some(t),
        None => group_type,
    }
}

/// The path of a token.
pub fn token_path(group: &str, name: &str) -> (r: String)
    ensures
        r@ == token_path_spec(group@, name@),
{
    cat3(group, ".", name)
}

/// Checks that a token's type is one of `expected`.
pub fn ensure_token_type(
    reference: &str,
    token_path: &str,
    actual: Option<&String>,
    expected: &[&str],
) -> (r: Result<(), String>)
    ensures
        unit_view(r) == ensure_type_spec(
            reference@,
            token_path@,
            opt_view(actual),
            expected@.map_values(|s: &str| s@),
        ),
{
    let ghost exp = expected@.map_values(|s: &str| s@);
    if let Some(t) = actual {
        let mut i: usize = 0;
        while i < expected.len()
            invariant
                i <= expected@.len(),
                exp == expected@.map_values(|s: &str| s@),
                opt_view(actual) == Some(t@),
                forall|j: int| 0 <= j < i ==> exp[j] != t@,
            decreases expected@.len() - i,
        {
            if str_eq(t.as_str(), expected[i]) {
                assert(exp[i as int] == t@);
                assert(exp.contains(t@));
                return Ok(());
            }
            i = i + 1;
        }
        assert(!exp.contains(t@));
    }
    let mut e = with_place("unsupported token type", token_path, reference);
    push_str(&mut e, ": expected ");
    let ghost before = e@;
    let mut i: usize = 0;
    while i < expected.len()
        invariant
            i <= expected@.len(),
            exp == expected@.map_values(|s: &str| s@),
            e@ == before + join_with(exp.take(i as int), " or "@),
        decreases expected@.len() - i,
    {
        proof {
            assert(exp.take(i + 1int).drop_last() == exp.take(i as int));
        }
        if i > 0 {
            push_str(&mut e, " or ");
        }
        push_str(&mut e, expected[i]);
        proof {
            if i == 0 {
                assert(exp.take(1).len() == 1);
            }
            assert(e@ =~= before + join_with(exp.take(i + 1int), " or "@));
        }
        i = i + 1;
    }
    proof {
        assert(exp.take(exp.len() as int) == exp);
    }
    push_str(&mut e, ", got ");
    match actual {
        Some(t) => push_str(&mut e, t.as_str()),
        None => push_str(&mut e, "<missing>"),
    }
    proof {
        assert(e@ =~= "unsupported token type"@ + for_in(token_path@, reference@) + ": expected "@ + join_with(exp, " or "@)
            + ", got "@ + match opt_view(actual) {
            Some(t) => t,
            None => "<missing>"@,
        });
    }
    Err(e)
}

/// The `$value` of a token.
pub fn token_value<'a>(reference: &str, token_path: &str, token: &'a Json) -> (r: Result<&'a Json, String>)
    ensures
        match r {
            Ok(v) => token_value_spec(reference@, token_path@, *token) == Ok::<Json, Seq<char>>(*v),
            Err(e) => token_value_spec(reference@, token_path@, *token) == Err::<Json, Seq<char>>(e@),
        },
{
    match get(token, "$value") {
        Some(v) => Ok(v),
        None => Err(with_place("missing `$value`", token_path, reference)),
    }
}

/// The error for a token group that is not an object.
pub fn group_not_object(reference: &str, group: &str) -> (r: String)
    ensures
        r@ == msg_group_not_object(reference@, group@),
{
    let e = cat5("invalid token group `", group, "` in `", reference, "`: expected object");
    assert(e@ =~= msg_group_not_object(reference@, group@));
    e
}


/// The assignments of `first` then those of `second`; the first error wins.
pub open spec fn chain(
    first: Result<Seq<(Seq<char>, Seq<char>)>, Seq<char>>,
    second: Result<Seq<(Seq<char>, Seq<char>)>, Seq<char>>,
) -> Result<Seq<(Seq<char>, Seq<char>)>, Seq<char>> {
    match first {
        Err(e) => Err(e),
        Ok(a) => match second {
            Err(e) => Err(e),
            Ok(b) => Ok(a + b),
        },
    }
}

} // verus!
