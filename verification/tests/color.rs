use design_token_tool::color::{parse_color_token_value, parse_hex_color, OklchColor};
use design_token_tool::json_out::{JsonOut, OutNumber};

fn number(value: &JsonOut) -> f64 {
    match value {
        JsonOut::Number(OutNumber::Float(text)) => text.parse::<f64>().expect("decimal text"),
        JsonOut::Number(OutNumber::Int(i)) => *i as f64,
        JsonOut::Number(OutNumber::UInt(u)) => *u as f64,
        other => panic!("not a number: {other:?}"),
    }
}

fn member<'a>(value: &'a JsonOut, key: &str) -> &'a JsonOut {
    match value {
        JsonOut::Object(members) => {
            &members.iter().find(|(k, _)| k == key).expect("member should exist").1
        }
        other => panic!("not an object: {other:?}"),
    }
}

fn text(value: &JsonOut) -> &str {
    match value {
        JsonOut::Str(s) => s.as_str(),
        other => panic!("not a string: {other:?}"),
    }
}

fn components(value: &JsonOut) -> Vec<f64> {
    match member(value, "components") {
        JsonOut::Array(items) => items.iter().map(number).collect(),
        other => panic!("not an array: {other:?}"),
    }
}

fn keys(value: &JsonOut) -> Vec<&str> {
    match value {
        JsonOut::Object(members) => members.iter().map(|(k, _)| k.as_str()).collect(),
        other => panic!("not an object: {other:?}"),
    }
}

#[test]
fn parses_six_digit_hex_color() {
    let color = parse_hex_color("#ffffff").expect("hex color should parse");

    assert_eq!(components(&color), vec![1.0, 1.0, 1.0]);
    assert_eq!(number(member(&color, "alpha")), 1.0);
    assert_eq!(text(member(&color, "hex")), "#ffffff");
}

#[test]
fn parses_eight_digit_hex_color_with_alpha() {
    let color = parse_hex_color("#00000005").expect("hex color should parse");

    assert_eq!(components(&color), vec![0.0, 0.0, 0.0]);
    assert_eq!(number(member(&color, "alpha")), 0.02);
    assert_eq!(text(member(&color, "hex")), "#000000");
}

#[test]
fn rounds_channels_to_two_decimals() {
    let color = parse_hex_color("#fafafa0a").expect("hex color should parse");

    assert_eq!(components(&color), vec![0.98, 0.98, 0.98]);
    assert_eq!(number(member(&color, "alpha")), 0.04);
    assert_eq!(text(member(&color, "hex")), "#fafafa");
}

#[test]
fn rejects_hex_colors_with_invalid_length() {
    let error = parse_hex_color("#fff").expect_err("short hex should be rejected");

    assert!(error.contains("expected 6 or 8"));
}

#[test]
fn rejects_hex_colors_with_invalid_characters() {
    let error = parse_hex_color("#fffffg").expect_err("invalid hex should be rejected");

    assert!(error.contains("non-hexadecimal"));
}

#[test]
fn hex_color_object_has_members_in_order() {
    let color = parse_hex_color("#FaFaFa").expect("hex color should parse");
    assert_eq!(keys(&color), vec!["colorSpace", "components", "alpha", "hex"]);
    assert_eq!(text(member(&color, "colorSpace")), "srgb");
    assert_eq!(text(member(&color, "hex")), "#fafafa");
}

#[test]
fn every_channel_matches_float_rounding() {
    for byte in 0u32..=255 {
        let input = format!("#{byte:02x}{byte:02x}{byte:02x}{byte:02x}");
        let color = parse_hex_color(&input).expect("hex color should parse");
        let expected = ((byte as f64 / 255.0) * 100.0).round() / 100.0;
        assert_eq!(components(&color), vec![expected, expected, expected], "byte {byte}");
        assert_eq!(number(member(&color, "alpha")), expected, "byte {byte}");
    }
}

#[test]
fn hex_length_counts_bytes() {
    // Six characters, seven bytes: refused for its length.
    let error = parse_hex_color("#fffffé").expect_err("multi-byte digit");
    assert_eq!(error, "expected 6 or 8 hexadecimal digits after `#`");
    // Five characters, six bytes: refused for its characters.
    let error = parse_hex_color("#ffffé").expect_err("multi-byte digit");
    assert_eq!(error, "contains non-hexadecimal characters");
}

#[test]
fn hex_color_must_start_with_hash() {
    let error = parse_hex_color("ffffff").expect_err("no hash");
    assert_eq!(error, "value must start with `#`");
}

#[test]
fn color_token_errors_name_the_token() {
    let table: Vec<(String, Result<OklchColor, String>)> = Vec::new();
    let error = parse_color_token_value("brand", "#fff", &table).expect_err("short hex");
    assert_eq!(error, "invalid hex color for `brand`: expected 6 or 8 hexadecimal digits after `#`");

    let error = parse_color_token_value("brand", "red", &table).expect_err("named color");
    assert_eq!(
        error,
        "invalid color value for `brand`: expected #rrggbb, #rrggbbaa, oklch(...), or {path.to.token}"
    );
}

#[test]
fn color_aliases_are_kept() {
    let table: Vec<(String, Result<OklchColor, String>)> = Vec::new();
    let value = parse_color_token_value("bg", "{colors.neutral-10}", &table).expect("alias");
    assert_eq!(text(&value), "{colors.neutral-10}");

    let error = parse_color_token_value("bg", "{colors.$x}", &table).expect_err("bad alias");
    assert!(error.starts_with("invalid color value for `bg`"));
    let error = parse_color_token_value("bg", "{colors..x}", &table).expect_err("empty segment");
    assert!(error.starts_with("invalid color value for `bg`"));
}

#[test]
fn oklch_values_come_from_the_table() {
    let table = vec![
        (
            "OKLCH(50% 0.1 250DEG)".to_string(),
            Ok(OklchColor {
                lightness: "0.5".to_string(),
                chroma: "0.1".to_string(),
                hue: "250".to_string(),
                alpha: "1".to_string(),
            }),
        ),
        ("oklch(50% 0.1)".to_string(), Err("expected 3 components, got 2".to_string())),
    ];
    let value = parse_color_token_value("brand", "OKLCH(50% 0.1 250DEG)", &table).expect("oklch");
    assert_eq!(keys(&value), vec!["colorSpace", "components", "alpha"]);
    assert_eq!(text(member(&value, "colorSpace")), "oklch");
    assert_eq!(components(&value), vec![0.5, 0.1, 250.0]);
    assert_eq!(number(member(&value, "alpha")), 1.0);

    let error = parse_color_token_value("brand", "oklch(50% 0.1)", &table).expect_err("short oklch");
    assert_eq!(error, "invalid oklch color for `brand`: expected 3 components, got 2");
}
