//! DTCG dimensions `{ value, unit }` and numbers from YAML.

use vstd::prelude::*;
use crate::dtcg::YamlNumber;
use crate::json_out::{members_view, object_of, JsonOut, JsonView, NumberView, OutNumber};
use crate::text::{
    cat3, chars_eq_str, chars_of, is_ascii_alphabetic, is_ascii_digit, push_str, slice_chars,
    spec_is_ascii_alphabetic, spec_is_ascii_digit, string_from_chars, string_of,
};

verus! {

/// The index of the first ASCII letter of `s`.
pub open spec fn first_letter(s: Seq<char>) -> Option<int>
    decreases s.len(),
{
    if s.len() == 0 {
        None
    } else if spec_is_ascii_alphabetic(s[0]) {
        Some(0)
    } else {
        match first_letter(s.drop_first()) {
            Some(i) => Some(i + 1),
            None => None,
        }
    }
}

/// The index of the first `.` of `s`.
pub open spec fn first_dot(s: Seq<char>) -> Option<int>
    decreases s.len(),
{
    if s.len() == 0 {
        None
    } else if s[0] == '.' {
        Some(0)
    } else {
        match first_dot(s.drop_first()) {
            Some(i) => Some(i + 1),
            None => None,
        }
    }
}

pub open spec fn all_digits(s: Seq<char>) -> bool {
    forall|i: int| 0 <= i < s.len() ==> spec_is_ascii_digit(#[trigger] s[i])
}

/// Digits with at most one `.` among them, and at least one digit.
pub open spec fn is_decimal_body(b: Seq<char>) -> bool {
    match first_dot(b) {
        None => b.len() > 0 && all_digits(b),
        Some(k) => b.len() >= 2 && all_digits(b.take(k)) && all_digits(b.skip(k + 1)),
    }
}

/// What `str::parse::<f64>` says of a text without letters: nothing when it
/// is a decimal number with an optional sign, and otherwise its error.
pub open spec fn float_text_error(s: Seq<char>) -> Option<Seq<char>> {
    if s.len() == 0 {
        Some("cannot parse float from empty string"@)
    } else {
        let body = if s[0] == '+' || s[0] == '-' { s.drop_first() } else { s };
        if is_decimal_body(body) {
            None
        } else {
            Some("invalid float literal"@)
        }
    }
}

pub open spec fn msg_dimension(name: Seq<char>, what: Seq<char>) -> Seq<char> {
    "invalid dimension for `"@ + name + "`: "@ + what
}

/// A dimension `raw` of token `name`: a number followed by `px` or `rem`, the
/// unit starting at the first ASCII letter.
pub open spec fn dimension_spec(name: Seq<char>, raw: Seq<char>) -> Result<JsonView, Seq<char>> {
    match first_letter(raw) {
        None => Err(msg_dimension(name, "expected a number followed by px or rem"@)),
        Some(k) => {
            let value = raw.take(k);
            let unit = raw.skip(k);
            if unit != "px"@ && unit != "rem"@ {
                Err(msg_dimension(name, "DTCG 2025.10 supports only px and rem"@))
            } else {
                match float_text_error(value) {
                    Some(e) => Err(msg_dimension(name, e)),
                    None => Ok(JsonView::Object(seq![
                        ("value"@, JsonView::Number(NumberView::Float(value))),
                        ("unit"@, JsonView::Str(unit)),
                    ])),
                }
            }
        },
    }
}

proof fn lemma_first_letter_found(s: Seq<char>)
    requires
        first_letter(s) is Some,
    ensures
        0 <= first_letter(s)->Some_0 < s.len(),
        spec_is_ascii_alphabetic(s[first_letter(s)->Some_0]),
        forall|j: int| 0 <= j < first_letter(s)->Some_0 ==> !spec_is_ascii_alphabetic(#[trigger] s[j]),
    decreases s.len(),
{
    if !spec_is_ascii_alphabetic(s[0]) {
        lemma_first_letter_found(s.drop_first());
        assert forall|j: int| 0 <= j < first_letter(s)->Some_0 implies !spec_is_ascii_alphabetic(#[trigger] s[j]) by {
            if j > 0 {
                assert(s[j] == s.drop_first()[j - 1]);
            }
        }
    }
}

/// A parsed dimension spells its input back: its value text followed by its
/// unit is the raw text, the unit is `px` or `rem`, and the value holds no
/// letter, so the unit is exactly the text from the first letter on.
pub proof fn law_dimension_spells_its_input(name: Seq<char>, raw: Seq<char>)
    requires
        dimension_spec(name, raw) is Ok,
    ensures
        exists|number_text: Seq<char>, unit_text: Seq<char>|
            #![trigger number_text + unit_text]
            dimension_spec(name, raw)->Ok_0 == JsonView::Object(seq![
                ("value"@, JsonView::Number(NumberView::Float(number_text))),
                ("unit"@, JsonView::Str(unit_text)),
            ])
            && number_text + unit_text == raw
            && (unit_text == "px"@ || unit_text == "rem"@)
            && forall|j: int| 0 <= j < number_text.len() ==> !spec_is_ascii_alphabetic(#[trigger] number_text[j]),
{
    lemma_first_letter_found(raw);
    let k = first_letter(raw)->Some_0;
    let value = raw.take(k);
    let unit = raw.skip(k);
    assert(value + unit =~= raw);
    assert forall|j: int| 0 <= j < value.len() implies !spec_is_ascii_alphabetic(#[trigger] value[j]) by {
        assert(value[j] == raw[j]);
    }
}

/// A YAML number as a JSON number; one that is not finite is refused.
pub open spec fn yaml_number_spec(name: Seq<char>, number: YamlNumber) -> Result<NumberView, Seq<char>> {
    match number {
        YamlNumber::Int(i) => Ok(NumberView::Int(i as int)),
        YamlNumber::UInt(u) => Ok(NumberView::Int(u as int)),
        YamlNumber::Float(text) => Ok(NumberView::Float(text@)),
        YamlNumber::NonFinite => Err("invalid number for `"@ + name + "`"@),
    }
}

/// The index of the first ASCII letter.
fn find_letter(s: &[char]) -> (r: Option<usize>)
    ensures
        match r {
            Some(k) => first_letter(s@) == Some(k as int) && k < s@.len(),
            None => first_letter(s@) is None,
        },
{
    let mut i: usize = 0;
    assert(s@.skip(0) == s@);
    while i < s.len()
        invariant
            i <= s@.len(),
            first_letter(s@) == match first_letter(s@.skip(i as int)) {
                Some(j) => Some(j + i),
                None => None,
            },
        decreases s@.len() - i,
    {
        assert(s@.skip(i as int).drop_first() == s@.skip(i + 1int));
        if is_ascii_alphabetic(s[i]) {
            return Some(i);
        }
        i = i + 1;
    }
    None
}

/// The index of the first `.`.
fn find_dot(s: &[char]) -> (r: Option<usize>)
    ensures
        match r {
            Some(k) => first_dot(s@) == Some(k as int) && k < s@.len(),
            None => first_dot(s@) is None,
        },
{
    let mut i: usize = 0;
    assert(s@.skip(0) == s@);
    while i < s.len()
        invariant
            i <= s@.len(),
            first_dot(s@) == match first_dot(s@.skip(i as int)) {
                Some(j) => Some(j + i),
                None => None,
            },
        decreases s@.len() - i,
    {
        assert(s@.skip(i as int).drop_first() == s@.skip(i + 1int));
        if s[i] == '.' {
            return Some(i);
        }
        i = i + 1;
    }
    None
}

/// Whether `s[from..to]` holds only ASCII digits.
fn digits_between(s: &[char], from: usize, to: usize) -> (r: bool)
    requires
        from <= to <= s@.len(),
    ensures
        r == all_digits(s@.subrange(from as int, to as int)),
{
    let mut i: usize = from;
    while i < to
        invariant
            from <= i <= to <= s@.len(),
            forall|j: int| from <= j < i ==> spec_is_ascii_digit(#[trigger] s@[j]),
        decreases to - i,
    {
        if !is_ascii_digit(s[i]) {
            proof {
                assert(s@.subrange(from as int, to as int)[i - from] == s@[i as int]);
            }
            return false;
        }
        i = i + 1;
    }
    proof {
        assert forall|j: int| 0 <= j < s@.subrange(from as int, to as int).len() implies spec_is_ascii_digit(
            #[trigger] s@.subrange(from as int, to as int)[j],
        ) by {
            assert(s@.subrange(from as int, to as int)[j] == s@[from + j]);
        }
    }
    true
}

/// The error `str::parse::<f64>` gives for a text without letters.
fn float_text_check(s: &[char]) -> (r: Option<&'static str>)
    ensures
        match r {
            Some(e) => float_text_error(s@) == Some(e@),
            None => float_text_error(s@) is None,
        },
{
    if s.len() == 0 {
        return Some("cannot parse float from empty string");
    }
    let start: usize = if s[0] == '+' || s[0] == '-' { 1 } else { 0 };
    let body = slice_chars(s, start, s.len());
    assert(body@ == if s@[0] == '+' || s@[0] == '-' { s@.drop_first() } else { s@ });
    let ok = match find_dot(body.as_slice()) {
        None => body.len() > 0 && digits_between(body.as_slice(), 0, body.len()),
        Some(k) => body.len() >= 2 && digits_between(body.as_slice(), 0, k)
            && digits_between(body.as_slice(), k + 1, body.len()),
    };
    proof {
        assert(body@.subrange(0, body@.len() as int) == body@);
        if let Some(k) = first_dot(body@) {
            assert(body@.subrange(0, k) == body@.take(k));
            assert(body@.subrange(k + 1, body@.len() as int) == body@.skip(k + 1));
        }
    }
    if ok {
        None
    } else {
        Some("invalid float literal")
    }
}

/// `invalid dimension for `name`: ` followed by `what`.
fn dimension_error(name: &str, what: &str) -> (r: String)
    ensures
        r@ == msg_dimension(name@, what@),
{
    let mut message = cat3("invalid dimension for `", name, "`: ");
    push_str(&mut message, what);
    message
}

/// Parses a dimension such as `16px` or `1.5rem` into a DTCG dimension object.
pub fn parse_dimension(name: &str, raw_value: &str) -> (r: Result<JsonOut, String>)
    ensures
        match r {
            Ok(v) => dimension_spec(name@, raw_value@) == Ok::<JsonView, Seq<char>>(v.view_json()),
            Err(e) => dimension_spec(name@, raw_value@) == Err::<JsonView, Seq<char>>(e@),
        },
{
    let cs = chars_of(raw_value);
    let unit_start = match find_letter(cs.as_slice()) {
        Some(k) => k,
        None => return Err(dimension_error(name, "expected a number followed by px or rem")),
    };
    let value = slice_chars(cs.as_slice(), 0, unit_start);
    let unit = slice_chars(cs.as_slice(), unit_start, cs.len());
    assert(value@ == raw_value@.take(unit_start as int));
    assert(unit@ == raw_value@.skip(unit_start as int));
    if !chars_eq_str(unit.as_slice(), "px") && !chars_eq_str(unit.as_slice(), "rem") {
        return Err(dimension_error(name, "DTCG 2025.10 supports only px and rem"));
    }
    if let Some(e) = float_text_check(value.as_slice()) {
        return Err(dimension_error(name, e));
    }
    let mut members: Vec<(String, JsonOut)> = Vec::new();
    members.push((string_of("value"), JsonOut::Number(OutNumber::Float(string_from_chars(value.as_slice())))));
    members.push((string_of("unit"), JsonOut::Str(string_from_chars(unit.as_slice()))));
    let ghost mv = members@;
    let r = object_of(members);
    proof {
        assert(members_view(mv) =~= dimension_spec(name@, raw_value@)->Ok_0->Object_0);
    }
    Ok(r)
}

/// A YAML number as a JSON number.
pub fn yaml_number_to_json_value(name: &str, number: &YamlNumber) -> (r: Result<OutNumber, String>)
    ensures
        match r {
            Ok(v) => yaml_number_spec(name@, *number) == Ok::<NumberView, Seq<char>>(
                JsonOut::Number(v).view_json()->Number_0,
            ),
            Err(e) => yaml_number_spec(name@, *number) == Err::<NumberView, Seq<char>>(e@),
        },
{
    match number {
        YamlNumber::Int(i) => Ok(OutNumber::Int(*i)),
        YamlNumber::UInt(u) => Ok(OutNumber::UInt(*u)),
        YamlNumber::Float(text) => Ok(OutNumber::Float(text.clone())),
        YamlNumber::NonFinite => Err(cat3("invalid number for `", name, "`")),
    }
}

} // verus!
