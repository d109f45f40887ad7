//! The fields of a typography token and the variables they set.

use vstd::prelude::*;
use crate::json::{field, field_of, Json};
use crate::ordered_map::{insert_all, lemma_insert_all_single};
use crate::tailwind_v4::css::CssVariables;
use crate::tailwind_v4::token::{token_value, token_value_spec};
use crate::tailwind_v4::values::{
    dimension_or_alias_css_value, dimension_or_alias_spec, font_weight_css_value, font_weight_spec,
    line_height_css_value, line_height_spec, string_or_alias_css_value, string_or_alias_spec,
};
use crate::text::{cat3, cat5, for_in};

verus! {

/// How the value of a typography field becomes CSS.
#[derive(Clone, Copy)]
pub enum FieldFormat {
    StringOrAlias,
    DimensionOrAlias,
    LineHeight,
    FontWeight,
}

/// The CSS text of a field value in the given format.
pub open spec fn field_css_spec(reference: Seq<char>, path: Seq<char>, value: Json, format: FieldFormat) -> Result<Seq<char>, Seq<char>> {
    match format {
        FieldFormat::StringOrAlias => string_or_alias_spec(reference, path, value),
        FieldFormat::DimensionOrAlias => dimension_or_alias_spec(reference, path, value),
        FieldFormat::LineHeight => line_height_spec(reference, path, value),
        FieldFormat::FontWeight => font_weight_spec(reference, path, value),
    }
}

/// The variable an optional field sets: none when the field is absent.
pub open spec fn optional_field_spec(
    reference: Seq<char>,
    path: Seq<char>,
    members: Seq<(String, Json)>,
    field_name: Seq<char>,
    var_name: Seq<char>,
    format: FieldFormat,
) -> Result<Seq<(Seq<char>, Seq<char>)>, Seq<char>> {
    match field_of(members, field_name) {
        None => Ok(Seq::empty()),
        Some(raw) => match field_css_spec(reference, path + "."@ + field_name, raw, format) {
            Ok(v) => Ok(seq![(var_name, v)]),
            Err(e) => Err(e),
        },
    }
}

/// The variable the required `fontSize` field sets.
pub open spec fn font_size_spec(
    reference: Seq<char>,
    path: Seq<char>,
    members: Seq<(String, Json)>,
    var_name: Seq<char>,
) -> Result<Seq<(Seq<char>, Seq<char>)>, Seq<char>> {
    match field_of(members, "fontSize"@) {
        None => Err("missing typography field `fontSize` for token `"@ + path + "` in `"@ + reference + "`"@),
        Some(_) => optional_field_spec(reference, path, members, "fontSize"@, var_name, FieldFormat::DimensionOrAlias),
    }
}

/// The `$value` of a typography token, which must be an object.
pub open spec fn typography_value_spec(reference: Seq<char>, path: Seq<char>, token: Json) -> Result<Seq<(String, Json)>, Seq<char>> {
    match token_value_spec(reference, path, token) {
        Err(e) => Err(e),
        Ok(Json::Object(members)) => Ok(members@),
        Ok(_) => Err("invalid token `"@ + path + "` in `"@ + reference + "`: expected typography object"@),
    }
}

/// The `$value` of a typography token, as an object.
pub fn typography_value<'a>(reference: &str, token_path: &str, token: &'a Json) -> (r: Result<&'a Vec<(String, Json)>, String>)
    ensures
        match r {
            Ok(m) => typography_value_spec(reference@, token_path@, *token) == Ok::<_, Seq<char>>(m@),
            Err(e) => typography_value_spec(reference@, token_path@, *token) == Err::<Seq<(String, Json)>, _>(e@),
        },
{
    match token_value(reference, token_path, token) {
        Err(e) => Err(e),
        Ok(Json::Object(members)) => Ok(members),
        Ok(_) => {
            let e = cat5("invalid token `", token_path, "` in `", reference, "`: expected typography object");
            assert(e@ =~= "invalid token `"@ + token_path@ + "` in `"@ + reference@ + "`: expected typography object"@);
            Err(e)
        },
    }
}

/// Sets the variable of an optional typography field, if the field is there.
pub fn insert_field(
    value: &[(String, Json)],
    field_name: &str,
    format: FieldFormat,
    reference: &str,
    token_path: &str,
    var_name: String,
    variables: &mut CssVariables,
) -> (r: Result<(), String>)
    ensures
        match optional_field_spec(reference@, token_path@, value@, field_name@, var_name@, format) {
            Ok(a) => r is Ok && final(variables).entries() == insert_all(old(variables).entries(), a),
            Err(e) => r matches Err(m) && m@ == e,
        },
{
    let raw = match field(value, field_name) {
        None => {
            assert(insert_all(variables.entries(), Seq::<(Seq<char>, Seq<char>)>::empty()) == variables.entries());
            return Ok(());
        },
        Some(raw) => raw,
    };
    let path = cat3(token_path, ".", field_name);
    let css = match format {
        FieldFormat::StringOrAlias => string_or_alias_css_value(reference, path.as_str(), raw),
        FieldFormat::DimensionOrAlias => dimension_or_alias_css_value(reference, path.as_str(), raw),
        FieldFormat::LineHeight => line_height_css_value(reference, path.as_str(), raw),
        FieldFormat::FontWeight => font_weight_css_value(reference, path.as_str(), raw),
    };
    let css = match css {
        Ok(c) => c,
        Err(e) => return Err(e),
    };
    proof {
        lemma_insert_all_single(variables.entries(), var_name@, css@);
    }
    variables.insert(var_name, css);
    Ok(())
}

/// Sets the variable of the required `fontSize` field.
pub fn insert_required_font_size(
    value: &[(String, Json)],
    reference: &str,
    token_path: &str,
    var_name: String,
    variables: &mut CssVariables,
) -> (r: Result<(), String>)
    ensures
        match font_size_spec(reference@, token_path@, value@, var_name@) {
            Ok(a) => r is Ok && final(variables).entries() == insert_all(old(variables).entries(), a),
            Err(e) => r matches Err(m) && m@ == e,
        },
{
    if field(value, "fontSize").is_none() {
        let e = cat5("missing typography field `fontSize` for token `", token_path, "` in `", reference, "`");
        return Err(e);
    }
    insert_field(value, "fontSize", FieldFormat::DimensionOrAlias, reference, token_path, var_name, variables)
}

} // verus!
