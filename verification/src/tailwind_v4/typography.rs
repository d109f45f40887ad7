//! Typography tokens as Tailwind `--font-*` and `--text-*` variables.

use vstd::prelude::*;
use crate::json::Json;
use crate::ordered_map::{insert_all, lemma_insert_all_concat};
use crate::tailwind_v4::css::CssVariables;
use crate::tailwind_v4::names::{css_name_for_token_spec, css_name_suffix_for_token, NameMode};
use crate::tailwind_v4::token::{
    chain, ensure_token_type, ensure_type_spec, opt_view, token_path, token_path_spec, token_type,
    token_type_spec,
};
use crate::tailwind_v4::typography_fields::{
    font_size_spec, insert_field, insert_required_font_size, optional_field_spec, typography_value,
    typography_value_spec, FieldFormat,
};
use crate::tailwind_v4::typography_validate::{validate_fields, validate_fields_spec};
use crate::text::{cat2, cat3};

verus! {

/// The variables the fields of a typography value set, in order: font family,
/// font size (required), line height, letter spacing, font weight, font feature
/// settings and font variation settings.
pub open spec fn typography_fields_spec(
    reference: Seq<char>,
    path: Seq<char>,
    members: Seq<(String, Json)>,
    name: Seq<char>,
) -> Result<Seq<(Seq<char>, Seq<char>)>, Seq<char>> {
    chain(
        chain(
            chain(
                chain(
                    chain(
                        chain(
                            optional_field_spec(reference, path, members, "fontFamily"@, "--font-"@ + name, FieldFormat::StringOrAlias),
                            font_size_spec(reference, path, members, "--text-"@ + name),
                        ),
                        optional_field_spec(reference, path, members, "lineHeight"@, "--text-"@ + name + "--line-height"@, FieldFormat::LineHeight),
                    ),
                    optional_field_spec(reference, path, members, "letterSpacing"@, "--text-"@ + name + "--letter-spacing"@, FieldFormat::DimensionOrAlias),
                ),
                optional_field_spec(reference, path, members, "fontWeight"@, "--text-"@ + name + "--font-weight"@, FieldFormat::FontWeight),
            ),
            optional_field_spec(reference, path, members, "fontFeature"@, "--font-"@ + name + "--font-feature-settings"@, FieldFormat::StringOrAlias),
        ),
        optional_field_spec(reference, path, members, "fontVariation"@, "--font-"@ + name + "--font-variation-settings"@, FieldFormat::StringOrAlias),
    )
}

/// The variables a typography token sets; its name part turns hyphens into
/// underscores, and every field it has must be supported.
pub open spec fn typography_token_spec(
    reference: Seq<char>,
    group: Seq<char>,
    name: Seq<char>,
    token: Json,
    group_type: Option<Seq<char>>,
) -> Result<Seq<(Seq<char>, Seq<char>)>, Seq<char>> {
    let path = token_path_spec(group, name);
    match ensure_type_spec(reference, path, token_type_spec(token, group_type), seq!["typography"@]) {
        Err(e) => Err(e),
        Ok(_) => match css_name_for_token_spec(reference, path, name, NameMode::Typography) {
            Err(e) => Err(e),
            Ok(n) => match typography_value_spec(reference, path, token) {
                Err(e) => Err(e),
                Ok(members) => match typography_fields_spec(reference, path, members, n) {
                    Err(e) => Err(e),
                    Ok(a) => match validate_fields_spec(reference, path, members) {
                        Err(e) => Err(e),
                        Ok(_) => Ok(a),
                    },
                },
            },
        },
    }
}

/// Sets the variables of one typography token.
pub fn collect_typography_token(
    reference: &str,
    group: &str,
    name: &str,
    token: &Json,
    group_type: Option<&String>,
    variables: &mut CssVariables,
) -> (r: Result<(), String>)
    ensures
        match typography_token_spec(reference@, group@, name@, *token, opt_view(group_type)) {
            Ok(a) => r is Ok && final(variables).entries() == insert_all(old(variables).entries(), a),
            Err(e) => r matches Err(m) && m@ == e,
        },
{
    let path = token_path(group, name);
    let p = path.as_str();
    let expected: [&str; 1] = ["typography"];
    proof {
        assert(expected@.map_values(|s: &str| s@) =~= seq!["typography"@]);
    }
    match ensure_token_type(reference, p, token_type(token, group_type), &expected) {
        Ok(()) => {},
        Err(e) => return Err(e),
    }
    let tn = match css_name_suffix_for_token(reference, p, name, NameMode::Typography) {
        Ok(s) => s,
        Err(e) => return Err(e),
    };
    let value = match typography_value(reference, p, token) {
        Ok(v) => v,
        Err(e) => return Err(e),
    };
    let v = value.as_slice();
    let n = tn.as_str();
    let ghost e0 = variables.entries();
    let ghost m = value@;
    let ghost r1 = optional_field_spec(reference@, path@, m, "fontFamily"@, "--font-"@ + n@, FieldFormat::StringOrAlias);
    let ghost r2 = font_size_spec(reference@, path@, m, "--text-"@ + n@);
    let ghost r3 = optional_field_spec(reference@, path@, m, "lineHeight"@, "--text-"@ + n@ + "--line-height"@, FieldFormat::LineHeight);
    let ghost r4 = optional_field_spec(reference@, path@, m, "letterSpacing"@, "--text-"@ + n@ + "--letter-spacing"@, FieldFormat::DimensionOrAlias);
    let ghost r5 = optional_field_spec(reference@, path@, m, "fontWeight"@, "--text-"@ + n@ + "--font-weight"@, FieldFormat::FontWeight);
    let ghost r6 = optional_field_spec(reference@, path@, m, "fontFeature"@, "--font-"@ + n@ + "--font-feature-settings"@, FieldFormat::StringOrAlias);
    let ghost r7 = optional_field_spec(reference@, path@, m, "fontVariation"@, "--font-"@ + n@ + "--font-variation-settings"@, FieldFormat::StringOrAlias);

    match insert_field(v, "fontFamily", FieldFormat::StringOrAlias, reference, p, cat2("--font-", n), variables) {
        Ok(()) => {},
        Err(e) => return Err(e),
    }
    let ghost d1 = r1->Ok_0;
    match insert_required_font_size(v, reference, p, cat2("--text-", n), variables) {
        Ok(()) => {},
        Err(e) => return Err(e),
    }
    proof { lemma_insert_all_concat(e0, d1, r2->Ok_0); }
    let ghost d2 = d1 + r2->Ok_0;
    match insert_field(v, "lineHeight", FieldFormat::LineHeight, reference, p, cat3("--text-", n, "--line-height"), variables) {
        Ok(()) => {},
        Err(e) => return Err(e),
    }
    proof { lemma_insert_all_concat(e0, d2, r3->Ok_0); }
    let ghost d3 = d2 + r3->Ok_0;
    match insert_field(v, "letterSpacing", FieldFormat::DimensionOrAlias, reference, p, cat3("--text-", n, "--letter-spacing"), variables) {
        Ok(()) => {},
        Err(e) => return Err(e),
    }
    proof { lemma_insert_all_concat(e0, d3, r4->Ok_0); }
    let ghost d4 = d3 + r4->Ok_0;
    match insert_field(v, "fontWeight", FieldFormat::FontWeight, reference, p, cat3("--text-", n, "--font-weight"), variables) {
        Ok(()) => {},
        Err(e) => return Err(e),
    }
    proof { lemma_insert_all_concat(e0, d4, r5->Ok_0); }
    let ghost d5 = d4 + r5->Ok_0;
    match insert_field(v, "fontFeature", FieldFormat::StringOrAlias, reference, p, cat3("--font-", n, "--font-feature-settings"), variables) {
        Ok(()) => {},
        Err(e) => return Err(e),
    }
    proof { lemma_insert_all_concat(e0, d5, r6->Ok_0); }
    let ghost d6 = d5 + r6->Ok_0;
    match insert_field(v, "fontVariation", FieldFormat::StringOrAlias, reference, p, cat3("--font-", n, "--font-variation-settings"), variables) {
        Ok(()) => {},
        Err(e) => return Err(e),
    }
    proof { lemma_insert_all_concat(e0, d6, r7->Ok_0); }
    validate_fields(reference, p, v)
}

} // verus!
