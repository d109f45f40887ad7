//! Spacing tokens as CSS `--spacing-*` variables.

use vstd::prelude::*;
use crate::json::Json;
use crate::ordered_map::{insert_all, lemma_insert_all_single};
use crate::tailwind_v4::css::CssVariables;
use crate::tailwind_v4::names::{css_name_for_token_spec, css_name_suffix_for_token, NameMode};
use crate::tailwind_v4::token::{
    ensure_token_type, ensure_type_spec, opt_view, token_path, token_path_spec, token_type,
    token_type_spec, token_value, token_value_spec,
};
use crate::tailwind_v4::values::{
    dimension_or_alias_css_value, dimension_or_alias_spec, number_or_alias_css_value, number_or_alias_spec,
};
use crate::text::{cat2, str_eq};

verus! {

/// The variable a spacing token sets: `--spacing-{name}`; a `number` token gives
/// a number or an alias, a `dimension` token a dimension or an alias.
pub open spec fn spacing_token_spec(
    reference: Seq<char>,
    group: Seq<char>,
    name: Seq<char>,
    token: Json,
    group_type: Option<Seq<char>>,
) -> Result<Seq<(Seq<char>, Seq<char>)>, Seq<char>> {
    let path = token_path_spec(group, name);
    let ty = token_type_spec(token, group_type);
    match ensure_type_spec(reference, path, ty, seq!["dimension"@, "number"@]) {
        Err(e) => Err(e),
        Ok(_) => match css_name_for_token_spec(reference, path, name, NameMode::Preserve) {
            Err(e) => Err(e),
            Ok(n) => match token_value_spec(reference, path, token) {
                Err(e) => Err(e),
                Ok(v) => match (if ty == Some("number"@) {
                    number_or_alias_spec(reference, path, v)
                } else {
                    dimension_or_alias_spec(reference, path, v)
                }) {
                    Err(e) => Err(e),
                    Ok(c) => Ok(seq![("--spacing-"@ + n, c)]),
                },
            },
        },
    }
}

/// Sets the variable of one spacing token.
pub fn collect_spacing_token(
    reference: &str,
    group: &str,
    name: &str,
    token: &Json,
    group_type: Option<&String>,
    variables: &mut CssVariables,
) -> (r: Result<(), String>)
    ensures
        match spacing_token_spec(reference@, group@, name@, *token, opt_view(group_type)) {
            Ok(a) => r is Ok && final(variables).entries() == insert_all(old(variables).entries(), a),
            Err(e) => r matches Err(m) && m@ == e,
        },
{
    let path = token_path(group, name);
    let expected: [&str; 2] = ["dimension", "number"];
    proof {
        assert(expected@.map_values(|s: &str| s@) =~= seq!["dimension"@, "number"@]);
    }
    let ty = token_type(token, group_type);
    match ensure_token_type(reference, path.as_str(), ty, &expected) {
        Ok(()) => {},
        Err(e) => return Err(e),
    }
    let suffix = match css_name_suffix_for_token(reference, path.as_str(), name, NameMode::Preserve) {
        Ok(s) => s,
        Err(e) => return Err(e),
    };
    let value = match token_value(reference, path.as_str(), token) {
        Ok(v) => v,
        Err(e) => return Err(e),
    };
    let is_number = match ty {
        Some(t) => str_eq(t.as_str(), "number"),
        None => false,
    };
    let css = if is_number {
        number_or_alias_css_value(reference, path.as_str(), value)
    } else {
        dimension_or_alias_css_value(reference, path.as_str(), value)
    };
    let css = match css {
        Ok(c) => c,
        Err(e) => return Err(e),
    };
    let css_name = cat2("--spacing-", suffix.as_str());
    proof {
        lemma_insert_all_single(variables.entries(), css_name@, css@);
    }
    variables.insert(css_name, css);
    Ok(())
}

} // verus!
