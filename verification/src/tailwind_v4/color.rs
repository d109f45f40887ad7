//! Color tokens as CSS `--color-*` variables.

use vstd::prelude::*;
use crate::json::{field, field_of, json_as_str, Json, JsonNumber};
use crate::ordered_map::insert_all;
use crate::tailwind_v4::alias::{alias_to_css_var, alias_to_css_var_spec, is_alias, is_alias_spec};
use crate::tailwind_v4::css::CssVariables;
use crate::tailwind_v4::names::{css_name_for_token_spec, css_name_suffix_for_token, NameMode};
use crate::tailwind_v4::token::{
    ensure_token_type, ensure_type_spec, opt_view, token_path, token_path_spec, token_type,
    token_type_spec, token_value, token_value_spec,
};
use crate::text::{
    cat2, cat3, chars_of, for_in, push_char, push_str, result_view, spec_to_ascii_lowercase, str_eq,
    string_of, with_place,
};

verus! {

/// `s` with ASCII capitals made small, as `str::to_ascii_lowercase` gives it.
pub open spec fn ascii_lowercase(s: Seq<char>) -> Seq<char> {
    s.map_values(|c: char| spec_to_ascii_lowercase(c))
}

pub open spec fn msg_color(path: Seq<char>, reference: Seq<char>, what: Seq<char>) -> Seq<char> {
    "invalid color value"@ + for_in(path, reference) + what
}

/// The first three elements of `items`, when it has exactly three and all are numbers.
pub open spec fn three_numbers(items: Seq<Json>) -> Option<(JsonNumber, JsonNumber, JsonNumber)> {
    if items.len() == 3 && items[0] is Number && items[1] is Number && items[2] is Number {
        Some((items[0]->Number_0, items[1]->Number_0, items[2]->Number_0))
    } else {
        None
    }
}

/// The `components` of a color object: an array of three numbers.
pub open spec fn components_spec(reference: Seq<char>, path: Seq<char>, members: Seq<(String, Json)>) -> Result<(JsonNumber, JsonNumber, JsonNumber), Seq<char>> {
    match field_of(members, "components"@) {
        Some(Json::Array(items)) => if items@.len() != 3 {
            Err(msg_color(path, reference, ": expected 3 components"@))
        } else {
            match three_numbers(items@) {
                Some(t) => Ok(t),
                None => Err(msg_color(path, reference, ": component is not a number"@)),
            }
        },
        _ => Err(msg_color(path, reference, ": missing components"@)),
    }
}

/// An sRGB color object: its `hex` when alpha is at least 1, and otherwise
/// `rgb(r g b / alpha)` with each channel scaled to 0..=255.
pub open spec fn srgb_spec(reference: Seq<char>, path: Seq<char>, members: Seq<(String, Json)>) -> Result<Seq<char>, Seq<char>> {
    match field_of(members, "alpha"@) {
        Some(Json::Number(alpha)) => if alpha.at_least_one {
            match json_as_str(field_of(members, "hex"@)) {
                Some(hex) => Ok(ascii_lowercase(hex)),
                None => Err(msg_color(path, reference, ": missing hex"@)),
            }
        } else {
            match components_spec(reference, path, members) {
                Err(e) => Err(e),
                Ok((r, g, b)) => Ok("rgb("@ + r.css_channel@ + " "@ + g.css_channel@ + " "@ + b.css_channel@ + " / "@
                    + alpha.css@ + ")"@),
            }
        },
        _ => Err(msg_color(path, reference, ": missing alpha"@)),
    }
}

/// An OKLCH color object: `oklch(L% C Hdeg)`, with ` / alpha` when alpha is below 1.
pub open spec fn oklch_spec(reference: Seq<char>, path: Seq<char>, members: Seq<(String, Json)>) -> Result<Seq<char>, Seq<char>> {
    match field_of(members, "alpha"@) {
        Some(Json::Number(alpha)) => match components_spec(reference, path, members) {
            Err(e) => Err(e),
            Ok((l, c, h)) => {
                let head = "oklch("@ + l.css_percent@ + "% "@ + c.css@ + " "@ + h.css@ + "deg"@;
                if alpha.at_least_one {
                    Ok(head + ")"@)
                } else {
                    Ok(head + " / "@ + alpha.css@ + ")"@)
                }
            },
        },
        _ => Err(msg_color(path, reference, ": missing alpha"@)),
    }
}

/// An OKLCH color written for CSS starts `oklch(` and ends with `)`; when its
/// alpha is below 1 the alpha, as CSS prints it, comes just before the `)`
/// after ` / `, so the transparency of a translucent color is never lost.
pub proof fn law_translucent_oklch_keeps_alpha(reference: Seq<char>, path: Seq<char>, members: Seq<(String, Json)>)
    requires
        oklch_spec(reference, path, members) is Ok,
    ensures
        field_of(members, "alpha"@) matches Some(Json::Number(alpha)) && ({
            let css = oklch_spec(reference, path, members)->Ok_0;
            let tail = " / "@ + alpha.css@ + ")"@;
            &&& css.len() > 6
            &&& css.take(6) == "oklch("@
            &&& css.last() == ')'
            &&& !alpha.at_least_one ==> css.len() >= tail.len() && css.skip(css.len() - tail.len()) == tail
        }),
{
    let alpha = field_of(members, "alpha"@)->Some_0->Number_0;
    let css = oklch_spec(reference, path, members)->Ok_0;
    let (l, c, h) = components_spec(reference, path, members)->Ok_0;
    let head = "oklch("@ + l.css_percent@ + "% "@ + c.css@ + " "@ + h.css@ + "deg"@;
    reveal_strlit("oklch(");
    reveal_strlit(")");
    assert(head.take(6) =~= "oklch("@);
    if alpha.at_least_one {
        assert(css == head + ")"@);
        assert(css.take(6) =~= head.take(6));
    } else {
        let tail = " / "@ + alpha.css@ + ")"@;
        assert(css == head + tail);
        assert(css.take(6) =~= head.take(6));
        assert(css.skip(css.len() - tail.len()) =~= tail);
    }
}

/// A color object, by its color space.
pub open spec fn color_object_spec(reference: Seq<char>, path: Seq<char>, members: Seq<(String, Json)>) -> Result<Seq<char>, Seq<char>> {
    match json_as_str(field_of(members, "colorSpace"@)) {
        None => Err(msg_color(path, reference, ": missing colorSpace"@)),
        Some(space) => if space == "srgb"@ {
            srgb_spec(reference, path, members)
        } else if space == "oklch"@ {
            oklch_spec(reference, path, members)
        } else {
            Err("unsupported color space `"@ + space + "`"@ + for_in(path, reference))
        },
    }
}

/// A color value: an alias, a `#` hex string (lowercased), or a color object.
pub open spec fn color_css_spec(reference: Seq<char>, path: Seq<char>, value: Json) -> Result<Seq<char>, Seq<char>> {
    match value {
        Json::Str(s) if is_alias_spec(s@) => alias_to_css_var_spec(reference, path, s@),
        Json::Str(s) if s@.len() > 0 && s@[0] == '#' => Ok(ascii_lowercase(s@)),
        Json::Object(members) => color_object_spec(reference, path, members@),
        _ => Err(msg_color(path, reference, ": expected DTCG color object or alias"@)),
    }
}

/// The variable a color token sets: `--color-{name}`.
pub open spec fn color_token_spec(
    reference: Seq<char>,
    group: Seq<char>,
    name: Seq<char>,
    token: Json,
    group_type: Option<Seq<char>>,
) -> Result<Seq<(Seq<char>, Seq<char>)>, Seq<char>> {
    let path = token_path_spec(group, name);
    match ensure_type_spec(reference, path, token_type_spec(token, group_type), seq!["color"@]) {
        Err(e) => Err(e),
        Ok(_) => match css_name_for_token_spec(reference, path, name, NameMode::Preserve) {
            Err(e) => Err(e),
            Ok(n) => match token_value_spec(reference, path, token) {
                Err(e) => Err(e),
                Ok(v) => match color_css_spec(reference, path, v) {
                    Err(e) => Err(e),
                    Ok(c) => Ok(seq![("--color-"@ + n, c)]),
                },
            },
        },
    }
}

fn color_error(reference: &str, token_path: &str, what: &str) -> (r: String)
    ensures
        r@ == msg_color(token_path@, reference@, what@),
{
    let e = with_place("invalid color value", token_path, reference);
    let e = cat2(e.as_str(), what);
    assert(e@ =~= msg_color(token_path@, reference@, what@));
    e
}

fn ascii_lowercase_of(s: &str) -> (r: String)
    ensures
        r@ == ascii_lowercase(s@),
{
    let cs = chars_of(s);
    let mut out = String::new();
    let mut i: usize = 0;
    while i < cs.len()
        invariant
            i <= cs@.len(),
            cs@ == s@,
            out@ == ascii_lowercase(cs@.take(i as int)),
        decreases cs@.len() - i,
    {
        let c = cs[i];
        let lower = crate::text::to_ascii_lowercase(c);
        proof {
            assert(ascii_lowercase(cs@.take(i + 1int)) =~= ascii_lowercase(cs@.take(i as int)).push(lower));
        }
        push_char(&mut out, lower);
        i = i + 1;
    }
    proof {
        assert(cs@.take(cs@.len() as int) == cs@);
    }
    out
}

fn components<'a>(reference: &str, token_path: &str, color: &'a [(String, Json)]) -> (r: Result<(&'a JsonNumber, &'a JsonNumber, &'a JsonNumber), String>)
    ensures
        match r {
            Ok((a, b, c)) => components_spec(reference@, token_path@, color@) == Ok::<_, Seq<char>>((*a, *b, *c)),
            Err(e) => components_spec(reference@, token_path@, color@) == Err::<(JsonNumber, JsonNumber, JsonNumber), _>(e@),
        },
{
    match field(color, "components") {
        Some(Json::Array(items)) => {
            if items.len() != 3 {
                return Err(color_error(reference, token_path, ": expected 3 components"));
            }
            match (&items[0], &items[1], &items[2]) {
                (Json::Number(a), Json::Number(b), Json::Number(c)) => Ok((a, b, c)),
                _ => Err(color_error(reference, token_path, ": component is not a number")),
            }
        },
        _ => Err(color_error(reference, token_path, ": missing components")),
    }
}

fn srgb_color_object_css_value(reference: &str, token_path: &str, color: &[(String, Json)]) -> (r: Result<String, String>)
    ensures
        result_view(r) == srgb_spec(reference@, token_path@, color@),
{
    let alpha = match field(color, "alpha") {
        Some(Json::Number(a)) => a,
        _ => return Err(color_error(reference, token_path, ": missing alpha")),
    };
    if alpha.at_least_one {
        return match field(color, "hex") {
            Some(Json::Str(hex)) => Ok(ascii_lowercase_of(hex.as_str())),
            _ => Err(color_error(reference, token_path, ": missing hex")),
        };
    }
    let (r, g, b) = match components(reference, token_path, color) {
        Ok(t) => t,
        Err(e) => return Err(e),
    };
    let mut s = string_of("rgb(");
    push_str(&mut s, r.css_channel.as_str());
    push_str(&mut s, " ");
    push_str(&mut s, g.css_channel.as_str());
    push_str(&mut s, " ");
    push_str(&mut s, b.css_channel.as_str());
    push_str(&mut s, " / ");
    push_str(&mut s, alpha.css.as_str());
    push_str(&mut s, ")");
    assert(s@ =~= "rgb("@ + r.css_channel@ + " "@ + g.css_channel@ + " "@ + b.css_channel@ + " / "@ + alpha.css@ + ")"@);
    Ok(s)
}

fn oklch_color_object_css_value(reference: &str, token_path: &str, color: &[(String, Json)]) -> (r: Result<String, String>)
    ensures
        result_view(r) == oklch_spec(reference@, token_path@, color@),
{
    let alpha = match field(color, "alpha") {
        Some(Json::Number(a)) => a,
        _ => return Err(color_error(reference, token_path, ": missing alpha")),
    };
    let (l, c, h) = match components(reference, token_path, color) {
        Ok(t) => t,
        Err(e) => return Err(e),
    };
    let mut s = string_of("oklch(");
    push_str(&mut s, l.css_percent.as_str());
    push_str(&mut s, "% ");
    push_str(&mut s, c.css.as_str());
    push_str(&mut s, " ");
    push_str(&mut s, h.css.as_str());
    push_str(&mut s, "deg");
    let ghost head = s@;
    assert(head =~= "oklch("@ + l.css_percent@ + "% "@ + c.css@ + " "@ + h.css@ + "deg"@);
    if alpha.at_least_one {
        push_str(&mut s, ")");
    } else {
        push_str(&mut s, " / ");
        push_str(&mut s, alpha.css.as_str());
        push_str(&mut s, ")");
        assert(s@ =~= head + " / "@ + alpha.css@ + ")"@);
    }
    Ok(s)
}

fn color_object_css_value(reference: &str, token_path: &str, color: &[(String, Json)]) -> (r: Result<String, String>)
    ensures
        result_view(r) == color_object_spec(reference@, token_path@, color@),
{
    let space = match field(color, "colorSpace") {
        Some(Json::Str(s)) => s,
        _ => return Err(color_error(reference, token_path, ": missing colorSpace")),
    };
    if str_eq(space.as_str(), "srgb") {
        srgb_color_object_css_value(reference, token_path, color)
    } else if str_eq(space.as_str(), "oklch") {
        oklch_color_object_css_value(reference, token_path, color)
    } else {
        let head = cat3("unsupported color space `", space.as_str(), "`");
        Err(with_place(head.as_str(), token_path, reference))
    }
}

fn color_css_value(reference: &str, token_path: &str, value: &Json) -> (r: Result<String, String>)
    ensures
        result_view(r) == color_css_spec(reference@, token_path@, *value),
{
    match value {
        Json::Str(s) if is_alias(s.as_str()) => alias_to_css_var(reference, token_path, s.as_str()),
        Json::Str(s) if starts_with_hash(s.as_str()) => Ok(ascii_lowercase_of(s.as_str())),
        Json::Object(members) => color_object_css_value(reference, token_path, members.as_slice()),
        _ => Err(color_error(reference, token_path, ": expected DTCG color object or alias")),
    }
}

fn starts_with_hash(s: &str) -> (r: bool)
    ensures
        r == (s@.len() > 0 && s@[0] == '#'),
{
    let cs = chars_of(s);
    cs.len() > 0 && cs[0] == '#'
}

/// Sets the variable of one color token.
pub fn collect_color_token(
    reference: &str,
    group: &str,
    name: &str,
    token: &Json,
    group_type: Option<&String>,
    variables: &mut CssVariables,
) -> (r: Result<(), String>)
    ensures
        match color_token_spec(reference@, group@, name@, *token, opt_view(group_type)) {
            Ok(a) => r is Ok && final(variables).entries() == insert_all(old(variables).entries(), a),
            Err(e) => r matches Err(m) && m@ == e,
        },
{
    let path = token_path(group, name);
    let expected: [&str; 1] = ["color"];
    proof {
        assert(expected@.map_values(|s: &str| s@) =~= seq!["color"@]);
    }
    match ensure_token_type(reference, path.as_str(), token_type(token, group_type), &expected) {
        Ok(()) => {},
        Err(e) => return Err(e),
    }
    let suffix = match css_name_suffix_for_token(reference, path.as_str(), name, NameMode::Preserve) {
        Ok(s) => s,
        Err(e) => return Err(e),
    };
    let value = match token_value(reference, path.as_str(), token) {
        Ok(v) => v,
        Err(e) => return Err(e),
    };
    let css = match color_css_value(reference, path.as_str(), value) {
        Ok(c) => c,
        Err(e) => return Err(e),
    };
    let css_name = cat2("--color-", suffix.as_str());
    proof {
        crate::ordered_map::lemma_insert_all_single(variables.entries(), css_name@, css@);
    }
    variables.insert(css_name, css);
    Ok(())
}

} // verus!
