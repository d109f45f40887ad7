//! Color values of tokens: hexadecimal sRGB, OKLCH and aliases, as DTCG color objects.

use vstd::prelude::*;
use crate::dtcg::alias::is_alias_value;
use crate::text::{lemma_utf8_bytes_push, lemma_utf8_bytes_take_increasing, utf8_bytes, utf8_len_of};
use crate::json_out::{array_of, members_view, items_view, object_of, JsonOut, JsonView, NumberView, OutNumber};
use crate::tailwind_v4::color::ascii_lowercase;
use crate::text::{
    cat3, cat5, char_for_digit, chars_of, decimal, decimal_text, is_ascii_hexdigit, push_char,
    push_str, spec_is_ascii_hexdigit, spec_starts_with, str_eq, string_from_chars, string_of,
    to_ascii_lowercase,
};

verus! {

/// An OKLCH color as the reader of the front matter parsed it. Each part is a
/// decimal text whose `f64` is the part's value: lightness in 0..=1, chroma,
/// hue in degrees, and alpha in 0..=1.
pub struct OklchColor {
    pub lightness: String,
    pub chroma: String,
    pub hue: String,
    pub alpha: String,
}

/// The parsed OKLCH color of the first entry of `table` whose text is `raw`.
pub open spec fn oklch_entry(table: Seq<(String, Result<OklchColor, String>)>, raw: Seq<char>) -> Option<Result<OklchColor, String>>
    decreases table.len(),
{
    if table.len() == 0 {
        None
    } else if table[0].0@ == raw {
        Some(table[0].1)
    } else {
        oklch_entry(table.drop_first(), raw)
    }
}

/// Whether `raw` is written as an OKLCH color, in any case.
pub open spec fn is_oklch_text(raw: Seq<char>) -> bool {
    spec_starts_with(ascii_lowercase(raw), "oklch("@)
}

/// The value of a hexadecimal digit.
pub open spec fn hex_digit_value(c: char) -> int {
    if '0' <= c && c <= '9' {
        c as int - '0' as int
    } else if 'a' <= c && c <= 'f' {
        c as int - 'a' as int + 10
    } else if 'A' <= c && c <= 'F' {
        c as int - 'A' as int + 10
    } else {
        0
    }
}

/// The number that `digits` spell in base 16 after `acc`, failing as
/// `u8::from_str_radix` does on a bad digit or past 255.
pub open spec fn hex_digits_value(digits: Seq<char>, acc: int) -> Result<int, Seq<char>>
    decreases digits.len(),
{
    if digits.len() == 0 {
        Ok(acc)
    } else if !spec_is_ascii_hexdigit(digits[0]) {
        Err("invalid digit found in string"@)
    } else if acc * 16 + hex_digit_value(digits[0]) > 255 {
        Err("number too large to fit in target type"@)
    } else {
        hex_digits_value(digits.drop_first(), acc * 16 + hex_digit_value(digits[0]))
    }
}

/// `u8::from_str_radix(input, 16)`: an optional `+`, then base-16 digits.
pub open spec fn hex_byte_value(input: Seq<char>) -> Result<int, Seq<char>> {
    if input.len() == 0 {
        Err("cannot parse integer from empty string"@)
    } else if input.len() == 1 && (input[0] == '+' || input[0] == '-') {
        Err("invalid digit found in string"@)
    } else if input[0] == '+' {
        hex_digits_value(input.drop_first(), 0)
    } else {
        hex_digits_value(input, 0)
    }
}

/// What `parse_hex_byte` gives for `input`.
pub open spec fn hex_byte_spec(input: Seq<char>) -> Result<int, Seq<char>> {
    match hex_byte_value(input) {
        Ok(v) => Ok(v),
        Err(e) => Err("failed to parse hex byte `"@ + input + "`: "@ + e),
    }
}

/// The byte that the two digits from `hex[2 * i]` spell.
pub open spec fn byte_at(hex: Seq<char>, i: int) -> int {
    16 * hex_digit_value(hex[2 * i]) + hex_digit_value(hex[2 * i + 1])
}

/// `byte / 255` in hundredths, rounded to the nearest (it is never halfway).
pub open spec fn hundredths(byte: int) -> int {
    (100 * byte + 127) / 255
}

/// The hundredths of a channel are `byte / 255` rounded to the nearest
/// hundredth: they lie in 0..=100 and within half a hundredth of it.
pub proof fn law_channel_is_nearest_hundredth(byte: int)
    requires
        0 <= byte <= 255,
    ensures
        0 <= hundredths(byte) <= 100,
        -127 <= 255 * hundredths(byte) - 100 * byte <= 127,
{
    let k = hundredths(byte);
    let n = 100 * byte + 127;
    assert(n == 255 * k + n % 255 && 0 <= n % 255 < 255) by (nonlinear_arith)
        requires
            k == n / 255,
            n >= 0,
    ;
    assert(0 <= k <= 100) by (nonlinear_arith)
        requires
            n == 255 * k + n % 255,
            0 <= n % 255 < 255,
            127 <= n <= 25627,
    ;
}

pub open spec fn digit_char(d: int) -> char {
    (('0' as u32) + d) as char
}

/// `k / 100` written with two decimals.
pub open spec fn hundredths_literal(k: int) -> Seq<char> {
    decimal((k / 100) as nat) + seq!['.', digit_char(k % 100 / 10), digit_char(k % 10)]
}

/// `byte / 255` rounded to two decimals, as a JSON number.
pub open spec fn channel_view(byte: int) -> JsonView {
    JsonView::Number(NumberView::Float(hundredths_literal(hundredths(byte))))
}

/// Every character is a hexadecimal digit.
pub open spec fn all_hex_digits(s: Seq<char>) -> bool {
    forall|i: int| 0 <= i < s.len() ==> spec_is_ascii_hexdigit(#[trigger] s[i])
}

/// A `#rrggbb` or `#rrggbbaa` color as a DTCG sRGB color object: each channel
/// over 255 rounded to two decimals, alpha 1 when absent, and the `hex` of the
/// first six digits in lower case. The length counts the UTF-8 bytes.
pub open spec fn hex_color_spec(input: Seq<char>) -> Result<JsonView, Seq<char>> {
    if input.len() == 0 || input[0] != '#' {
        Err("value must start with `#`"@)
    } else {
        let hex = input.drop_first();
        if utf8_bytes(hex) != 6 && utf8_bytes(hex) != 8 {
            Err("expected 6 or 8 hexadecimal digits after `#`"@)
        } else if !all_hex_digits(hex) {
            Err("contains non-hexadecimal characters"@)
        } else {
            Ok(JsonView::Object(seq![
                ("colorSpace"@, JsonView::Str("srgb"@)),
                ("components"@, JsonView::Array(seq![
                    channel_view(byte_at(hex, 0)),
                    channel_view(byte_at(hex, 1)),
                    channel_view(byte_at(hex, 2)),
                ])),
                ("alpha"@, channel_view(if hex.len() == 8 { byte_at(hex, 3) } else { 255 })),
                ("hex"@, JsonView::Str("#"@ + ascii_lowercase(hex.take(6)))),
            ]))
        }
    }
}

/// Lowering the case of a hexadecimal digit keeps its value.
proof fn lemma_lowercase_digit_value(c: char)
    requires
        spec_is_ascii_hexdigit(c),
    ensures
        hex_digit_value(crate::text::spec_to_ascii_lowercase(c)) == hex_digit_value(c),
        !('A' <= crate::text::spec_to_ascii_lowercase(c) && crate::text::spec_to_ascii_lowercase(c) <= 'Z'),
{
}

/// The nearest hundredth of `byte / 255` as a JSON number, for some `k`.
pub open spec fn is_channel_of(v: JsonView, byte: int) -> bool {
    exists|k: int| #![trigger hundredths_literal(k)]
        0 <= k <= 100
        && -127 <= 255 * k - 100 * byte <= 127
        && v == JsonView::Number(NumberView::Float(hundredths_literal(k)))
}

proof fn lemma_channel_is_channel_of(byte: int)
    requires
        0 <= byte <= 255,
    ensures
        is_channel_of(channel_view(byte), byte),
{
    law_channel_is_nearest_hundredth(byte);
    let k = hundredths(byte);
    assert(channel_view(byte) == JsonView::Number(NumberView::Float(hundredths_literal(k))));
}

/// The byte spelled by the two hexadecimal digits at `input[i]`, `input[i + 1]`.
pub open spec fn digit_pair(input: Seq<char>, i: int) -> int {
    16 * hex_digit_value(input[i]) + hex_digit_value(input[i + 1])
}

/// A parsed hex color reads its input pair by pair: component `i` is the byte
/// spelled by the `i`-th pair of digits after `#` (red, green, blue), over 255
/// and rounded to the nearest hundredth; the alpha is the fourth pair read the
/// same way, or 1 when there are only six digits; and `hex` is `#` with the
/// first six digits, each of the same value and in lower case.
pub proof fn law_hex_color_reads_digit_pairs(input: Seq<char>)
    requires
        hex_color_spec(input) is Ok,
    ensures
        input.len() == 7 || input.len() == 9,
        ({
            let v = hex_color_spec(input)->Ok_0;
            &&& v is Object
            &&& v->Object_0.len() == 4
            &&& v->Object_0[1].0 == "components"@
            &&& v->Object_0[1].1 is Array
            &&& v->Object_0[1].1->Array_0.len() == 3
            &&& is_channel_of(v->Object_0[1].1->Array_0[0], digit_pair(input, 1))
            &&& is_channel_of(v->Object_0[1].1->Array_0[1], digit_pair(input, 3))
            &&& is_channel_of(v->Object_0[1].1->Array_0[2], digit_pair(input, 5))
            &&& v->Object_0[2].0 == "alpha"@
            &&& is_channel_of(v->Object_0[2].1, if input.len() == 9 { digit_pair(input, 7) } else { 255 })
            &&& v->Object_0[3].0 == "hex"@
            &&& v->Object_0[3].1 is Str
            &&& v->Object_0[3].1->Str_0.len() == 7
            &&& v->Object_0[3].1->Str_0[0] == '#'
            &&& forall|i: int| 1 <= i < 7 ==> hex_digit_value(#[trigger] v->Object_0[3].1->Str_0[i]) == hex_digit_value(input[i])
                && !('A' <= v->Object_0[3].1->Str_0[i] && v->Object_0[3].1->Str_0[i] <= 'Z')
        }),
{
    let hex = input.drop_first();
    lemma_ascii_bytes(hex);
    assert(hex.len() == 6 || hex.len() == 8);
    let v = hex_color_spec(input)->Ok_0;
    let ms = v->Object_0;
    let cs = ms[1].1->Array_0;
    assert forall|i: int| 0 <= i < 4 && 2 * i + 1 < hex.len() implies byte_at(hex, i) == digit_pair(input, 1 + 2 * i)
        && 0 <= #[trigger] byte_at(hex, i) <= 255 by {
        assert(hex[2 * i] == input[1 + 2 * i]);
        assert(hex[2 * i + 1] == input[2 + 2 * i]);
        assert(0 <= hex_digit_value(hex[2 * i]) <= 15 && 0 <= hex_digit_value(hex[2 * i + 1]) <= 15);
    }
    assert(byte_at(hex, 0) == digit_pair(input, 1));
    assert(byte_at(hex, 1) == digit_pair(input, 3));
    assert(byte_at(hex, 2) == digit_pair(input, 5));
    lemma_channel_is_channel_of(byte_at(hex, 0));
    lemma_channel_is_channel_of(byte_at(hex, 1));
    lemma_channel_is_channel_of(byte_at(hex, 2));
    if hex.len() == 8 {
        assert(byte_at(hex, 3) == digit_pair(input, 7));
        lemma_channel_is_channel_of(byte_at(hex, 3));
    } else {
        lemma_channel_is_channel_of(255);
    }
    reveal_strlit("#");
    let h = ms[3].1->Str_0;
    assert(h == "#"@ + ascii_lowercase(hex.take(6)));
    assert forall|i: int| 1 <= i < 7 implies hex_digit_value(#[trigger] h[i]) == hex_digit_value(input[i])
        && !('A' <= h[i] && h[i] <= 'Z') by {
        assert(h[i] == crate::text::spec_to_ascii_lowercase(hex[i - 1]));
        assert(hex[i - 1] == input[i]);
        lemma_lowercase_digit_value(hex[i - 1]);
    }
}

/// An OKLCH color as a DTCG color object.
pub open spec fn oklch_view(color: OklchColor) -> JsonView {
    JsonView::Object(seq![
        ("colorSpace"@, JsonView::Str("oklch"@)),
        ("components"@, JsonView::Array(seq![
            JsonView::Number(NumberView::Float(color.lightness@)),
            JsonView::Number(NumberView::Float(color.chroma@)),
            JsonView::Number(NumberView::Float(color.hue@)),
        ])),
        ("alpha"@, JsonView::Number(NumberView::Float(color.alpha@))),
    ])
}

/// A color token value `raw` of token `name`: a hexadecimal color, an OKLCH
/// color as `oklch` holds its parse, or an alias kept as a string.
#[verifier::opaque]
pub open spec fn color_value_spec(
    name: Seq<char>,
    raw: Seq<char>,
    oklch: Seq<(String, Result<OklchColor, String>)>,
) -> Result<JsonView, Seq<char>> {
    if raw.len() > 0 && raw[0] == '#' {
        match hex_color_spec(raw) {
            Ok(v) => Ok(v),
            Err(e) => Err("invalid hex color for `"@ + name + "`: "@ + e),
        }
    } else if is_oklch_text(raw) {
        match oklch_entry(oklch, raw) {
            Some(Ok(color)) => Ok(oklch_view(color)),
            Some(Err(e)) => Err("invalid oklch color for `"@ + name + "`: "@ + e@),
            // left out by the callers' requirement
            None => Err(Seq::empty()),
        }
    } else if is_alias_value(raw) {
        Ok(JsonView::Str(raw))
    } else {
        Err("invalid color value for `"@ + name
            + "`: expected #rrggbb, #rrggbbaa, oklch(...), or {path.to.token}"@)
    }
}

/// A hexadecimal digit's value.
fn hex_digit(c: char) -> (r: u32)
    requires
        spec_is_ascii_hexdigit(c),
    ensures
        r == hex_digit_value(c),
        r < 16,
{
    if '0' <= c && c <= '9' {
        (c as u32) - ('0' as u32)
    } else if 'a' <= c && c <= 'f' {
        (c as u32) - ('a' as u32) + 10
    } else {
        (c as u32) - ('A' as u32) + 10
    }
}

/// Parses a hexadecimal byte, as `u8::from_str_radix(input, 16)` does.
fn parse_hex_byte(input: &str) -> (r: Result<u8, String>)
    ensures
        match r {
            Ok(v) => hex_byte_spec(input@) == Ok::<int, Seq<char>>(v as int),
            Err(e) => hex_byte_spec(input@) == Err::<int, Seq<char>>(e@),
        },
{
    let cs = chars_of(input);
    let n = cs.len();
    let failure: &str;
    if n == 0 {
        failure = "cannot parse integer from empty string";
    } else if n == 1 && (cs[0] == '+' || cs[0] == '-') {
        failure = "invalid digit found in string";
    } else {
        let mut i: usize = if cs[0] == '+' { 1 } else { 0 };
        let ghost start = i as int;
        let mut acc: u32 = 0;
        assert(cs@.skip(start) == if cs@[0] == '+' { cs@.drop_first() } else { cs@ });
        loop
            invariant
                cs@ == input@,
                n == cs@.len(),
                start <= i <= n,
                acc <= 255,
                hex_byte_value(input@) == hex_digits_value(cs@.skip(i as int), acc as int),
            decreases n - i,
        {
            if i == n {
                return Ok(acc as u8);
            }
            assert(cs@.skip(i as int).drop_first() == cs@.skip(i + 1int));
            let c = cs[i];
            if !is_ascii_hexdigit(c) {
                let mut e = cat3("failed to parse hex byte `", input, "`: ");
                push_str(&mut e, "invalid digit found in string");
                return Err(e);
            }
            let next = acc * 16 + hex_digit(c);
            if next > 255 {
                let mut e = cat3("failed to parse hex byte `", input, "`: ");
                push_str(&mut e, "number too large to fit in target type");
                return Err(e);
            }
            acc = next;
            i = i + 1;
        }
    }
    let mut e = cat3("failed to parse hex byte `", input, "`: ");
    push_str(&mut e, failure);
    Err(e)
}

/// Whether `hex` takes 6 or 8 bytes in UTF-8.
fn has_hex_length(hex: &[char]) -> (r: bool)
    ensures
        r == (utf8_bytes(hex@) == 6 || utf8_bytes(hex@) == 8),
{
    let mut total: usize = 0;
    let mut i: usize = 0;
    while i < hex.len()
        invariant
            i <= hex@.len(),
            total <= 8,
            total == utf8_bytes(hex@.take(i as int)),
        decreases hex@.len() - i,
    {
        proof {
            assert(hex@.take(i + 1int) == hex@.take(i as int).push(hex@[i as int]));
            lemma_utf8_bytes_push(hex@.take(i as int), hex@[i as int]);
        }
        let next = total + utf8_len_of(hex[i]);
        if next > 8 {
            proof {
                assert(hex@.take(hex@.len() as int) == hex@);
                if i + 1 < hex@.len() {
                    lemma_utf8_bytes_take_increasing(hex@, i + 1, hex@.len() as int);
                }
            }
            return false;
        }
        total = next;
        i = i + 1;
    }
    proof {
        assert(hex@.take(hex@.len() as int) == hex@);
    }
    total == 6 || total == 8
}

/// Whether every character of `s` is a hexadecimal digit.
fn all_hex(s: &[char]) -> (r: bool)
    ensures
        r == all_hex_digits(s@),
{
    let mut i: usize = 0;
    while i < s.len()
        invariant
            i <= s@.len(),
            forall|j: int| 0 <= j < i ==> spec_is_ascii_hexdigit(#[trigger] s@[j]),
        decreases s@.len() - i,
    {
        if !is_ascii_hexdigit(s[i]) {
            return false;
        }
        i = i + 1;
    }
    true
}

/// `byte / 255` rounded to two decimals, as a JSON number.
fn channel(byte: u8) -> (r: JsonOut)
    ensures
        r.view_json() == channel_view(byte as int),
{
    let k: u32 = (100 * (byte as u32) + 127) / 255;
    let mut text = decimal_text((k / 100) as usize);
    push_char(&mut text, '.');
    push_char(&mut text, char_for_digit((k % 100 / 10) as usize));
    push_char(&mut text, char_for_digit((k % 10) as usize));
    proof {
        assert(text@ =~= hundredths_literal(hundredths(byte as int)));
    }
    JsonOut::Number(OutNumber::Float(text))
}

/// The byte that `hex[from..from + 2]` spells.
fn byte_of(hex: &[char], from: usize) -> (r: Result<u8, String>)
    requires
        from + 2 <= hex@.len() <= 8,
        all_hex_digits(hex@),
    ensures
        r matches Ok(v) && v == 16 * hex_digit_value(hex@[from as int]) + hex_digit_value(hex@[from + 1]),
{
    let pair = crate::text::slice_chars(hex, from, from + 2);
    let text = string_from_chars(pair.as_slice());
    proof {
        let d = text@;
        assert(d.len() == 2);
        assert(spec_is_ascii_hexdigit(hex@[from as int]));
        assert(spec_is_ascii_hexdigit(hex@[from + 1]));
        assert(d[0] != '+' && d[0] != '-');
        assert(d.drop_first().drop_first().len() == 0);
        assert(d.drop_first()[0] == d[1]);
        reveal_with_fuel(hex_digits_value, 3);
    }
    parse_hex_byte(text.as_str())
}

/// Parses a six- or eight-digit hexadecimal color into a DTCG sRGB color object.
pub fn parse_hex_color(input: &str) -> (r: Result<JsonOut, String>)
    ensures
        match r {
            Ok(v) => hex_color_spec(input@) == Ok::<JsonView, Seq<char>>(v.view_json()),
            Err(e) => hex_color_spec(input@) == Err::<JsonView, Seq<char>>(e@),
        },
{
    let cs = chars_of(input);
    if cs.len() == 0 || cs[0] != '#' {
        return Err(string_of("value must start with `#`"));
    }
    let hex = crate::text::slice_chars(cs.as_slice(), 1, cs.len());
    assert(hex@ == input@.drop_first());
    if !has_hex_length(hex.as_slice()) {
        return Err(string_of("expected 6 or 8 hexadecimal digits after `#`"));
    }
    if !all_hex(hex.as_slice()) {
        return Err(string_of("contains non-hexadecimal characters"));
    }
    proof {
        lemma_ascii_bytes(hex@);
    }
    let red = match byte_of(hex.as_slice(), 0) { Ok(v) => v, Err(e) => return Err(e) };
    let green = match byte_of(hex.as_slice(), 2) { Ok(v) => v, Err(e) => return Err(e) };
    let blue = match byte_of(hex.as_slice(), 4) { Ok(v) => v, Err(e) => return Err(e) };
    let alpha: u8 = if hex.len() == 8 {
        match byte_of(hex.as_slice(), 6) { Ok(v) => v, Err(e) => return Err(e) }
    } else {
        255
    };
    let mut lowered = string_of("#");
    let mut i: usize = 0;
    while i < 6
        invariant
            i <= 6 <= hex@.len(),
            lowered@ == "#"@ + ascii_lowercase(hex@.take(i as int)),
        decreases 6 - i,
    {
        proof {
            assert(ascii_lowercase(hex@.take(i + 1int)) == ascii_lowercase(hex@.take(i as int)).push(
                crate::text::spec_to_ascii_lowercase(hex@[i as int]),
            ));
        }
        push_char(&mut lowered, to_ascii_lowercase(hex[i]));
        i = i + 1;
    }
    let mut components: Vec<JsonOut> = Vec::new();
    components.push(channel(red));
    components.push(channel(green));
    components.push(channel(blue));
    let ghost cv = components@;
    let components = array_of(components);
    let mut members: Vec<(String, JsonOut)> = Vec::new();
    members.push((string_of("colorSpace"), JsonOut::Str(string_of("srgb"))));
    members.push((string_of("components"), components));
    members.push((string_of("alpha"), channel(alpha)));
    members.push((string_of("hex"), JsonOut::Str(lowered)));
    let ghost mv = members@;
    let r = object_of(members);
    proof {
        assert(items_view(cv) =~= seq![
            channel_view(byte_at(hex@, 0)),
            channel_view(byte_at(hex@, 1)),
            channel_view(byte_at(hex@, 2)),
        ]);
        assert(members_view(mv) =~= hex_color_spec(input@)->Ok_0->Object_0);
    }
    Ok(r)
}

/// ASCII characters take one byte each.
proof fn lemma_ascii_bytes(s: Seq<char>)
    requires
        all_hex_digits(s),
    ensures
        utf8_bytes(s) == s.len(),
    decreases s.len(),
{
    if s.len() > 0 {
        assert(all_hex_digits(s.drop_last())) by {
            assert forall|i: int| 0 <= i < s.drop_last().len() implies spec_is_ascii_hexdigit(#[trigger] s.drop_last()[i]) by {
                assert(s.drop_last()[i] == s[i]);
            }
        }
        lemma_ascii_bytes(s.drop_last());
        assert(spec_is_ascii_hexdigit(s[s.len() - 1]));
    }
}

/// The parse of `raw` that `table` holds.
fn oklch_lookup<'a>(table: &'a [(String, Result<OklchColor, String>)], raw: &str) -> (r: Option<&'a Result<OklchColor, String>>)
    ensures
        match r {
            Some(v) => oklch_entry(table@, raw@) == Some(*v),
            None => oklch_entry(table@, raw@) is None,
        },
{
    let mut i: usize = 0;
    assert(table@.skip(0) == table@);
    while i < table.len()
        invariant
            i <= table@.len(),
            oklch_entry(table@, raw@) == oklch_entry(table@.skip(i as int), raw@),
        decreases table@.len() - i,
    {
        assert(table@.skip(i as int).drop_first() == table@.skip(i + 1int));
        if str_eq(table[i].0.as_str(), raw) {
            return Some(&table[i].1);
        }
        i = i + 1;
    }
    None
}

/// Whether `cs` starts with `oklch(` in any case.
fn starts_with_oklch(cs: &[char]) -> (r: bool)
    ensures
        r == is_oklch_text(cs@),
{
    let prefix = chars_of("oklch(");
    if cs.len() < prefix.len() {
        return false;
    }
    let mut i: usize = 0;
    while i < prefix.len()
        invariant
            i <= prefix@.len() <= cs@.len(),
            prefix@ == "oklch("@,
            forall|j: int| 0 <= j < i ==> crate::text::spec_to_ascii_lowercase(#[trigger] cs@[j]) == prefix@[j],
        decreases prefix@.len() - i,
    {
        if to_ascii_lowercase(cs[i]) != prefix[i] {
            proof {
                assert(ascii_lowercase(cs@).take(prefix@.len() as int)[i as int] != prefix@[i as int]);
            }
            return false;
        }
        i = i + 1;
    }
    proof {
        assert(ascii_lowercase(cs@).take(prefix@.len() as int) =~= prefix@);
    }
    true
}

/// Whether `raw` is written as an OKLCH color (`oklch(` in any case), and so
/// needs its parse in the table `parse_color_token_value` is given.
pub fn is_oklch_color_text(raw: &str) -> (r: bool)
    ensures
        r == is_oklch_text(raw@),
{
    let cs = chars_of(raw);
    starts_with_oklch(cs.as_slice())
}

/// The DTCG value of color token `name` written as `raw`: a hexadecimal color
/// as an sRGB object, an OKLCH color (as `oklch` holds its parse) as an OKLCH
/// object, or an alias as the string itself.
pub fn parse_color_token_value(
    name: &str,
    raw_value: &str,
    oklch: &[(String, Result<OklchColor, String>)],
) -> (r: Result<JsonOut, String>)
    requires
        is_oklch_text(raw_value@) ==> oklch_entry(oklch@, raw_value@) is Some,
    ensures
        match r {
            Ok(v) => color_value_spec(name@, raw_value@, oklch@) == Ok::<JsonView, Seq<char>>(v.view_json()),
            Err(e) => color_value_spec(name@, raw_value@, oklch@) == Err::<JsonView, Seq<char>>(e@),
        },
{
    reveal(color_value_spec);
    let cs = chars_of(raw_value);
    if cs.len() > 0 && cs[0] == '#' {
        return match parse_hex_color(raw_value) {
            Ok(v) => Ok(v),
            Err(e) => {
                let mut message = cat3("invalid hex color for `", name, "`: ");
                push_str(&mut message, e.as_str());
                Err(message)
            },
        };
    }
    if starts_with_oklch(cs.as_slice()) {
        return match oklch_lookup(oklch, raw_value) {
            Some(Ok(color)) => {
                let mut components: Vec<JsonOut> = Vec::new();
                components.push(JsonOut::Number(OutNumber::Float(color.lightness.clone())));
                components.push(JsonOut::Number(OutNumber::Float(color.chroma.clone())));
                components.push(JsonOut::Number(OutNumber::Float(color.hue.clone())));
                let ghost cv = components@;
                let components = array_of(components);
                let mut members: Vec<(String, JsonOut)> = Vec::new();
                members.push((string_of("colorSpace"), JsonOut::Str(string_of("oklch"))));
                members.push((string_of("components"), components));
                members.push((string_of("alpha"), JsonOut::Number(OutNumber::Float(color.alpha.clone()))));
                let ghost mv = members@;
                let r = object_of(members);
                proof {
                    assert(items_view(cv) =~= oklch_view(*color)->Object_0[1].1->Array_0);
                    assert(members_view(mv) =~= oklch_view(*color)->Object_0);
                }
                Ok(r)
            },
            Some(Err(e)) => {
                let mut message = cat3("invalid oklch color for `", name, "`: ");
                push_str(&mut message, e.as_str());
                Err(message)
            },
            None => Err(String::new()),
        };
    }
    if crate::dtcg::alias::is_alias(raw_value) {
        return Ok(JsonOut::Str(string_of(raw_value)));
    }
    Err(cat3(
        "invalid color value for `",
        name,
        "`: expected #rrggbb, #rrggbbaa, oklch(...), or {path.to.token}",
    ))
}

} // verus!
