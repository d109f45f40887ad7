use design_token_tool::convert_resolver_to_tailwind_v4;
use design_token_tool::json::{Json, JsonNumber};
use design_token_tool::tailwind_v4::{next_tailwind_ref, resolver_parse_error, SourceError, TokenSource, TAILWIND_V4_THEME_FILE};
use serde_json::Value;

const RESOLVER: &str = r#"{
  "sets": { "foundation": { "sources": [{ "$ref": "foundation.tokens.json" }] } },
  "modifiers": {
    "theme": {
      "contexts": {
        "light": [{ "$ref": "light.tokens.json" }],
        "dark": [{ "$ref": "dark.tokens.json" }]
      }
    }
  }
}"#;

fn format_number(value: f64) -> String {
    if value.fract() == 0.0 {
        return format!("{value:.0}");
    }
    value.to_string()
}

fn json_from(value: &Value) -> Json {
    match value {
        Value::Null => Json::Null,
        Value::Bool(b) => Json::Bool(*b),
        Value::Number(n) => {
            let f = n.as_f64().expect("a JSON number reads as f64");
            Json::Number(JsonNumber {
                text: n.to_string(),
                integer: n.as_i64(),
                css: format_number(f),
                css_percent: format_number(f * 100.0),
                css_channel: format_number((f * 255.0).round()),
                at_least_one: f >= 1.0,
            })
        }
        Value::String(s) => Json::Str(s.clone()),
        Value::Array(items) => Json::Array(items.iter().map(json_from).collect()),
        Value::Object(members) => {
            Json::Object(members.iter().map(|(k, v)| (k.clone(), json_from(v))).collect())
        }
    }
}

fn parse(source: &str) -> Result<Json, String> {
    serde_json::from_str::<Value>(source)
        .map(|v| json_from(&v))
        .map_err(|error| error.to_string())
}

fn convert_with<F>(resolver_source: &str, mut load_ref: F) -> Result<String, String>
where
    F: FnMut(&str) -> Result<String, String>,
{
    let resolver = parse(resolver_source).map_err(|e| resolver_parse_error(&e))?;
    let mut sources = Vec::new();
    while let Some(reference) = next_tailwind_ref(&resolver, &sources) {
        let content = match load_ref(&reference) {
            Ok(text) => parse(&text).map_err(SourceError::Parse),
            Err(e) => Err(SourceError::Load(e)),
        };
        sources.push(content);
    }
    convert_resolver_to_tailwind_v4(&resolver, &sources)
}

fn convert(files: &[(&str, &str)]) -> Result<String, String> {
    convert_with(RESOLVER, |reference| {
        files
            .iter()
            .find(|(path, _)| path == &reference)
            .map(|(_, source)| source.to_string())
            .ok_or_else(|| format!("missing test file {reference}"))
    })
}

#[test]
fn rejects_missing_resolver_ref() {
    let resolver = r#"{
      "sets": { "foundation": { "sources": [{}] } },
      "modifiers": { "theme": { "contexts": { "light": [], "dark": [] } } }
    }"#;

    let error = convert_with(resolver, |_| Ok("{}".to_string())).expect_err("missing ref should fail");

    assert!(error.contains("$ref"));
    assert!(error.contains("sets.foundation.sources[0]"));
}

#[test]
fn rejects_unsupported_token_group() {
    let error = convert(&[
        ("foundation.tokens.json", r#"{ "shadow": {} }"#),
        ("light.tokens.json", "{}"),
        ("dark.tokens.json", "{}"),
    ])
    .expect_err("unsupported group should fail");

    assert!(error.contains("unsupported token group `shadow`"));
    assert!(error.contains("foundation.tokens.json"));
}

#[test]
fn rejects_invalid_token_name() {
    let error = convert(&[
        (
            "foundation.tokens.json",
            r##"{
              "colors": {
                "$type": "color",
                "brand/primary": {
                  "$value": {
                    "colorSpace": "srgb",
                    "components": [1.0, 1.0, 1.0],
                    "alpha": 1.0,
                    "hex": "#ffffff"
                  }
                }
              }
            }"##,
        ),
        ("light.tokens.json", "{}"),
        ("dark.tokens.json", "{}"),
    ])
    .expect_err("invalid name should fail");

    assert!(error.contains("invalid token name `brand/primary`"));
}

#[test]
fn maps_typography_to_tailwind_text_variables() {
    let css = convert(&[
        (
            "foundation.tokens.json",
            r#"{
              "typography": {
                "$type": "typography",
                "body-md": {
                  "$value": {
                    "fontFamily": "Public Sans",
                    "fontSize": { "value": 16.0, "unit": "px" },
                    "fontWeight": 400,
                    "lineHeight": 1.6,
                    "letterSpacing": { "value": 0.0, "unit": "px" }
                  }
                }
              }
            }"#,
        ),
        ("light.tokens.json", "{}"),
        ("dark.tokens.json", "{}"),
    ])
    .expect("tailwind CSS should generate");

    assert!(css.contains("--font-body_md: Public Sans;"));
    assert!(css.contains("--text-body_md: 16px;"));
    assert!(css.contains("--text-body_md--line-height: 1.6;"));
    assert!(css.contains("--text-body_md--letter-spacing: 0px;"));
    assert!(css.contains("--text-body_md--font-weight: normal;"));
}

#[test]
fn maps_aliases_and_dark_overrides() {
    let css = convert(&[
        (
            "foundation.tokens.json",
            r##"{
              "colors": {
                "$type": "color",
                "neutral-0": {
                  "$value": {
                    "colorSpace": "srgb",
                    "components": [1.0, 1.0, 1.0],
                    "alpha": 1.0,
                    "hex": "#ffffff"
                  }
                }
              }
            }"##,
        ),
        (
            "light.tokens.json",
            r##"{
              "colors": {
                "$type": "color",
                "background": { "$value": "{colors.neutral-0}" }
              }
            }"##,
        ),
        (
            "dark.tokens.json",
            r##"{
              "colors": {
                "$type": "color",
                "background": {
                  "$value": {
                    "colorSpace": "srgb",
                    "components": [0.0, 0.0, 0.0],
                    "alpha": 0.5,
                    "hex": "#000000"
                  }
                }
              }
            }"##,
        ),
    ])
    .expect("tailwind CSS should generate");

    assert!(css.contains("--color-background: var(--color-neutral-0);"));
    assert!(css.contains(".dark,\n[data-theme=\"dark\"] {"));
    assert!(css.contains("--color-background: rgb(0 0 0 / 0.5);"));
}

#[test]
fn renders_the_whole_stylesheet() {
    let css = convert(&[
        (
            "foundation.tokens.json",
            r##"{
              "spacing": {
                "xs": { "$type": "dimension", "$value": { "value": 4.0, "unit": "px" } },
                "columns": { "$type": "number", "$value": 12 }
              },
              "radius": { "$type": "dimension", "md": { "$value": { "value": 0.5, "unit": "rem" } } }
            }"##,
        ),
        ("light.tokens.json", "{}"),
        ("dark.tokens.json", "{}"),
    ])
    .expect("tailwind CSS should generate");
    assert!(css.starts_with("@custom-variant dark"));
    assert!(css.contains("@theme {\n  --spacing-xs: 4px;\n  --spacing-columns: 12;\n  --radius-md: 0.5rem;\n}\n"));
    assert!(!css.contains("[data-theme=\"dark\"] {"));
}

#[test]
fn later_files_override_earlier_values_in_place() {
    let css = convert(&[
        (
            "foundation.tokens.json",
            r##"{ "colors": { "$type": "color", "a": { "$value": "#AAAAAA" }, "b": { "$value": "#bbbbbb" } } }"##,
        ),
        ("light.tokens.json", r##"{ "colors": { "$type": "color", "a": { "$value": "#cccccc" } } }"##),
        ("dark.tokens.json", "{}"),
    ])
    .expect("tailwind CSS should generate");
    let a = css.find("--color-a: #cccccc;").expect("a keeps its place with the last value");
    let b = css.find("--color-b: #bbbbbb;").expect("b follows");
    assert!(a < b);
    assert!(!css.contains("#AAAAAA") && !css.contains("#aaaaaa"));
}

#[test]
fn reports_load_and_parse_errors() {
    let error = convert(&[("foundation.tokens.json", "{}"), ("light.tokens.json", "{}")])
        .expect_err("missing dark file");
    assert_eq!(error, "failed to load resolver $ref `dark.tokens.json`: missing test file dark.tokens.json");
    let error = convert(&[
        ("foundation.tokens.json", "{"),
        ("light.tokens.json", "{}"),
        ("dark.tokens.json", "{}"),
    ])
    .expect_err("bad json");
    assert!(error.starts_with("failed to parse token source `foundation.tokens.json`: "));
    let error = convert_with("{", |_| Ok("{}".to_string())).expect_err("bad resolver");
    assert!(error.starts_with("failed to parse tokens resolver JSON: "));
}

#[test]
fn theme_file_name() {
    assert_eq!(TAILWIND_V4_THEME_FILE, "theme.css");
}

#[test]
fn reads_token_files_in_resolver_order() {
    let mut read = Vec::new();
    convert_with(RESOLVER, |reference| {
        read.push(reference.to_string());
        Ok("{}".to_string())
    })
    .expect("empty token files convert");
    assert_eq!(read, vec!["foundation.tokens.json", "light.tokens.json", "dark.tokens.json"]);
}

#[test]
fn stops_reading_after_a_file_that_cannot_be_read() {
    let mut read = Vec::new();
    let error = convert_with(RESOLVER, |reference| {
        read.push(reference.to_string());
        if reference == "light.tokens.json" { Err("gone".to_string()) } else { Ok("{}".to_string()) }
    })
    .expect_err("the light file cannot be read");
    assert_eq!(read, vec!["foundation.tokens.json", "light.tokens.json"]);
    assert_eq!(error, "failed to load resolver $ref `light.tokens.json`: gone");
}

#[test]
fn stops_reading_after_a_file_that_does_not_convert() {
    let mut read = Vec::new();
    let error = convert_with(RESOLVER, |reference| {
        read.push(reference.to_string());
        Ok(r#"{ "shadow": {} }"#.to_string())
    })
    .expect_err("an unsupported group stops the conversion");
    assert_eq!(read, vec!["foundation.tokens.json"]);
    assert!(error.contains("unsupported token group `shadow`"));
}

#[test]
fn reads_a_theme_file_named_twice_twice() {
    let resolver = r#"{
      "sets": { "foundation": { "sources": [{ "$ref": "shared.tokens.json" }] } },
      "modifiers": {
        "theme": {
          "contexts": {
            "light": [{ "$ref": "shared.tokens.json" }],
            "dark": []
          }
        }
      }
    }"#;
    let mut read = Vec::new();
    convert_with(resolver, |reference| {
        read.push(reference.to_string());
        Ok("{}".to_string())
    })
    .expect("empty token files convert");
    assert_eq!(read, vec!["shared.tokens.json", "shared.tokens.json"]);
}
