//! The token files a DTCG resolver names.

use vstd::prelude::*;
use crate::json::{get, get_str, json_as_str, json_get, Json};
use crate::tailwind_v4::token::join_with;
use crate::text::{cat2, cat3, decimal, decimal_text, push_str, string_of};

verus! {

/// The value at the end of `path` (a chain of object members).
pub open spec fn lookup_path(value: Json, path: Seq<Seq<char>>) -> Option<Json>
    decreases path.len(),
{
    if path.len() == 0 {
        Some(value)
    } else {
        match json_get(value, path[0]) {
            Some(child) => lookup_path(child, path.drop_first()),
            None => None,
        }
    }
}

/// The non-empty `$ref` string of an item.
pub open spec fn ref_of(item: Json) -> Option<Seq<char>> {
    match json_as_str(json_get(item, "$ref"@)) {
        Some(r) => if r.len() > 0 {
            Some(r)
        } else {
            None
        },
        None => None,
    }
}

/// The first item without a non-empty `$ref` string.
pub open spec fn first_missing_ref(items: Seq<Json>) -> Option<int>
    decreases items.len(),
{
    if items.len() == 0 {
        None
    } else if ref_of(items[0]) is None {
        Some(0)
    } else {
        match first_missing_ref(items.drop_first()) {
            Some(i) => Some(i + 1),
            None => None,
        }
    }
}

/// The `$ref` strings of the items of `value`, an array of `$ref` objects
/// named `label` in errors.
pub open spec fn ref_items_spec(value: Json, label: Seq<char>) -> Result<Seq<Seq<char>>, Seq<char>> {
    match value {
        Json::Array(items) => match first_missing_ref(items@) {
            Some(i) => Err("missing resolver $ref at "@ + label + "["@ + decimal(i as nat) + "]"@),
            None => Ok(items@.map_values(|item: Json| ref_of(item)->Some_0)),
        },
        _ => Err("invalid resolver `"@ + label + "`: expected an array of $ref objects"@),
    }
}

/// The `$ref` strings of the items of the array at `path`, in order.
pub open spec fn ref_array_spec(resolver: Json, path: Seq<Seq<char>>) -> Result<Seq<Seq<char>>, Seq<char>> {
    let label = join_with(path, "."@);
    match lookup_path(resolver, path) {
        None => Err("missing resolver `"@ + label + "`"@),
        Some(value) => ref_items_spec(value, label),
    }
}

pub open spec fn foundation_path() -> Seq<Seq<char>> {
    seq!["sets"@, "foundation"@, "sources"@]
}

pub open spec fn theme_path(context: Seq<char>) -> Seq<Seq<char>> {
    seq!["modifiers"@, "theme"@, "contexts"@, context]
}

/// The token files of the foundation set and of the light and dark theme
/// contexts, in that order of checking.
pub open spec fn resolver_refs_spec(resolver: Json) -> Result<(Seq<Seq<char>>, Seq<Seq<char>>, Seq<Seq<char>>), Seq<char>> {
    match ref_array_spec(resolver, foundation_path()) {
        Err(e) => Err(e),
        Ok(f) => match ref_array_spec(resolver, theme_path("light"@)) {
            Err(e) => Err(e),
            Ok(l) => match ref_array_spec(resolver, theme_path("dark"@)) {
                Err(e) => Err(e),
                Ok(d) => Ok((f, l, d)),
            },
        },
    }
}

/// The token files a resolver names.
pub struct ResolverRefs {
    pub foundation: Vec<String>,
    pub light: Vec<String>,
    pub dark: Vec<String>,
}

/// The characters of each string.
pub open spec fn views(v: Seq<String>) -> Seq<Seq<char>> {
    v.map_values(|s: String| s@)
}

/// `parts` joined by `sep`.
pub fn join_strs(parts: &[&str], sep: &str) -> (r: String)
    ensures
        r@ == join_with(parts@.map_values(|s: &str| s@), sep@),
{
    let ghost ps = parts@.map_values(|s: &str| s@);
    let mut out = String::new();
    let mut i: usize = 0;
    while i < parts.len()
        invariant
            i <= parts@.len(),
            ps == parts@.map_values(|s: &str| s@),
            out@ == join_with(ps.take(i as int), sep@),
        decreases parts@.len() - i,
    {
        proof {
            assert(ps.take(i + 1int).drop_last() == ps.take(i as int));
        }
        if i > 0 {
            push_str(&mut out, sep);
        }
        push_str(&mut out, parts[i]);
        proof {
            if i == 0 {
                assert(ps.take(1).len() == 1);
                assert(out@ =~= join_with(ps.take(1), sep@));
            } else {
                assert(out@ =~= join_with(ps.take(i + 1int), sep@));
            }
        }
        i = i + 1;
    }
    proof {
        assert(ps.take(ps.len() as int) == ps);
    }
    out
}

/// The `$ref` strings of the items of `value`, an array of `$ref` objects.
pub fn collect_ref_array_from_value(value: &Json, label: &str) -> (r: Result<Vec<String>, String>)
    ensures
        match ref_items_spec(*value, label@) {
            Ok(refs) => r matches Ok(v) && views(v@) == refs,
            Err(e) => r matches Err(m) && m@ == e,
        },
{
    let items = match value {
        Json::Array(items) => items,
        _ => {
            let e = cat3("invalid resolver `", label, "`: expected an array of $ref objects");
            return Err(e);
        },
    };
    let mut refs: Vec<String> = Vec::new();
    let mut k: usize = 0;
    assert(items@.skip(0) == items@);
    while k < items.len()
        invariant
            k <= items@.len(),
            *value == Json::Array(*items),
            first_missing_ref(items@) == match first_missing_ref(items@.skip(k as int)) {
                Some(j) => Some(j + k),
                None => None,
            },
            refs@.len() == k,
            forall|j: int| 0 <= j < k ==> ref_of(items@[j]) == Some(#[trigger] refs@[j]@),
        decreases items@.len() - k,
    {
        assert(items@.skip(k as int)[0] == items@[k as int]);
        assert(items@.skip(k as int).drop_first() == items@.skip(k + 1int));
        let item_ref = match get_str(&items[k], "$ref") {
            Some(s) if !s.as_str().is_empty() => s,
            _ => {
                let mut e = cat2("missing resolver $ref at ", label);
                push_str(&mut e, "[");
                let digits = decimal_text(k);
                push_str(&mut e, digits.as_str());
                push_str(&mut e, "]");
                assert(e@ =~= "missing resolver $ref at "@ + label@ + "["@ + decimal(k as nat) + "]"@);
                return Err(e);
            },
        };
        refs.push(item_ref.clone());
        k = k + 1;
    }
    proof {
        assert(items@.skip(items@.len() as int).len() == 0);
        assert(views(refs@) =~= items@.map_values(|item: Json| ref_of(item)->Some_0));
    }
    Ok(refs)
}

/// The `$ref` strings of the array at `path`.
pub fn collect_ref_array(resolver: &Json, path: &[&str]) -> (r: Result<Vec<String>, String>)
    ensures
        match ref_array_spec(*resolver, path@.map_values(|s: &str| s@)) {
            Ok(refs) => r matches Ok(v) && views(v@) == refs,
            Err(e) => r matches Err(m) && m@ == e,
        },
{
    let ghost ps = path@.map_values(|s: &str| s@);
    let label = join_strs(path, ".");
    let mut value = resolver;
    let mut i: usize = 0;
    assert(ps.skip(0) == ps);
    while i < path.len()
        invariant
            i <= path@.len(),
            ps == path@.map_values(|s: &str| s@),
            label@ == join_with(ps, "."@),
            lookup_path(*resolver, ps) == lookup_path(*value, ps.skip(i as int)),
        decreases path@.len() - i,
    {
        assert(ps.skip(i as int)[0] == path@[i as int]@);
        assert(ps.skip(i as int).drop_first() == ps.skip(i + 1int));
        value = match get(value, path[i]) {
            Some(child) => child,
            None => {
                let e = cat3("missing resolver `", label.as_str(), "`");
                return Err(e);
            },
        };
        i = i + 1;
    }
    assert(ps.skip(path@.len() as int).len() == 0);
    assert(lookup_path(*value, ps.skip(path@.len() as int)) == Some(*value));
    collect_ref_array_from_value(value, label.as_str())
}

/// The token files the resolver names for the foundation set and the light and
/// dark theme contexts.
pub fn collect_resolver_refs(resolver: &Json) -> (r: Result<ResolverRefs, String>)
    ensures
        match resolver_refs_spec(*resolver) {
            Ok((f, l, d)) => r matches Ok(refs) && views(refs.foundation@) == f && views(refs.light@) == l
                && views(refs.dark@) == d,
            Err(e) => r matches Err(m) && m@ == e,
        },
{
    let fp: [&str; 3] = ["sets", "foundation", "sources"];
    let lp: [&str; 4] = ["modifiers", "theme", "contexts", "light"];
    let dp: [&str; 4] = ["modifiers", "theme", "contexts", "dark"];
    proof {
        assert(fp@.map_values(|s: &str| s@) =~= foundation_path());
        assert(lp@.map_values(|s: &str| s@) =~= theme_path("light"@));
        assert(dp@.map_values(|s: &str| s@) =~= theme_path("dark"@));
    }
    let foundation = match collect_ref_array(resolver, &fp) {
        Ok(v) => v,
        Err(e) => return Err(e),
    };
    let light = match collect_ref_array(resolver, &lp) {
        Ok(v) => v,
        Err(e) => return Err(e),
    };
    let dark = match collect_ref_array(resolver, &dp) {
        Ok(v) => v,
        Err(e) => return Err(e),
    };
    Ok(ResolverRefs { foundation, light, dark })
}

} // verus!
