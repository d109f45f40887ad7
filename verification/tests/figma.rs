use design_token_tool::figma::{convert_resolver_to_figma, next_figma_ref, GeneratedFigmaTokens};
use design_token_tool::json::{Json, JsonNumber};
use design_token_tool::tailwind_v4::{resolver_parse_error, SourceError, TokenSource};
use serde_json::Value;

const RESOLVER: &str = r##"{
  "sets": {
    "foundation": {
      "sources": [
        { "$ref": "foundation/spacing.tokens.json" },
        { "$ref": "foundation/typography.tokens.json" },
        { "$ref": "foundation/colors.tokens.json" }
      ]
    }
  },
  "modifiers": {
    "theme": {
      "contexts": {
        "light": [{ "$ref": "theme/light.tokens.json" }],
        "dark": [{ "$ref": "theme/dark.tokens.json" }]
      }
    },
    "page": {
      "contexts": {
        "compact": [{ "$ref": "page/compact.tokens.json" }]
      }
    }
  }
}"##;

fn json_from(value: &Value) -> Json {
    match value {
        Value::Null => Json::Null,
        Value::Bool(b) => Json::Bool(*b),
        Value::Number(n) => Json::Number(JsonNumber {
            text: n.to_string(),
            integer: n.as_i64(),
            css: String::new(),
            css_percent: String::new(),
            css_channel: String::new(),
            at_least_one: n.as_f64().map_or(false, |f| f >= 1.0),
        }),
        Value::String(s) => Json::Str(s.clone()),
        Value::Array(items) => Json::Array(items.iter().map(json_from).collect()),
        Value::Object(members) => Json::Object(members.iter().map(|(k, v)| (k.clone(), json_from(v))).collect()),
    }
}

fn to_value(json: &Json) -> Value {
    match json {
        Json::Null => Value::Null,
        Json::Bool(b) => Value::Bool(*b),
        Json::Number(n) => serde_json::from_str::<Value>(&n.text).expect("number text"),
        Json::Str(s) => Value::String(s.clone()),
        Json::Array(items) => Value::Array(items.iter().map(to_value).collect()),
        Json::Object(members) => {
            let mut map = serde_json::Map::new();
            for (k, v) in members {
                map.insert(k.clone(), to_value(v));
            }
            Value::Object(map)
        }
    }
}

fn parse(source: &str) -> Result<Json, String> {
    serde_json::from_str::<Value>(source).map(|v| json_from(&v)).map_err(|e| e.to_string())
}

fn convert<F>(resolver_source: &str, mut load_ref: F) -> Result<GeneratedFigmaTokens, String>
where
    F: FnMut(&str) -> Result<String, String>,
{
    let resolver_value: Value = serde_json::from_str(resolver_source).map_err(|e| resolver_parse_error(&e.to_string()))?;
    let resolver = json_from(&resolver_value);
    let mut sources: Vec<TokenSource> = Vec::new();
    while let Some(reference) = next_figma_ref(&resolver, &sources) {
        let content = match load_ref(&reference) {
            Ok(text) => parse(&text).map_err(SourceError::Parse),
            Err(e) => Err(SourceError::Load(e)),
        };
        sources.push(content);
    }
    convert_resolver_to_figma(&resolver, &sources)
}

fn load_ref(reference: &str) -> Result<String, String> {
    match reference {
        "foundation/spacing.tokens.json" => Ok(r#"{
          "spacing": {
            "$type": "dimension",
            "sm": { "$value": { "value": 8, "unit": "px" } }
          }
        }"#
        .to_string()),
        "foundation/typography.tokens.json" => Ok(r#"{
          "typography": {
            "$type": "typography",
            "body-md": {
              "$value": {
                "fontFamily": "Public Sans",
                "fontSize": { "value": 16, "unit": "px" },
                "lineHeight": 1.6,
                "letterSpacing": { "value": 0, "unit": "px" },
                "fontWeight": 400
              }
            }
          }
        }"#
        .to_string()),
        "foundation/colors.tokens.json" => Ok(r##"{
          "colors": {
            "$type": "color",
            "neutral-10": {
              "$value": {
                "colorSpace": "srgb",
                "components": [0.98, 0.98, 0.98],
                "alpha": 1,
                "hex": "#fafafa"
              }
            }
          }
        }"##
        .to_string()),
        "theme/light.tokens.json" => Ok(r#"{
          "colors": {
            "$type": "color",
            "background": { "$value": "{colors.neutral-10}" }
          }
        }"#
        .to_string()),
        "theme/dark.tokens.json" => Ok(r##"{
          "colors": {
            "$type": "color",
            "background": {
              "$value": {
                "colorSpace": "srgb",
                "components": [0.07, 0.07, 0.07],
                "alpha": 1,
                "hex": "#111111"
              }
            }
          }
        }"##
        .to_string()),
        "page/compact.tokens.json" => Ok(r#"{
          "spacing": {
            "$type": "dimension",
            "page-padding": { "$value": { "value": 16, "unit": "px" } }
          }
        }"#
        .to_string()),
        _ => Err("missing ref".to_string()),
    }
}

#[test]
fn outputs_collections_and_modes() {
    let output = convert(RESOLVER, load_ref).expect("conversion should work");

    let paths = output.files.iter().map(|file| file.path.as_str()).collect::<Vec<_>>();
    assert_eq!(
        paths,
        [
            "Foundation/default.tokens.json",
            "Theme/light.tokens.json",
            "Theme/dark.tokens.json",
            "Page/compact.tokens.json"
        ]
    );

    let foundation = to_value(&output.files[0].json);
    assert_eq!(
        foundation.pointer("/typography/body-md/fontFamily/$type").and_then(|value| value.as_str()),
        Some("fontFamily")
    );
    assert_eq!(
        foundation.pointer("/typography/body-md/fontSize/$type").and_then(|value| value.as_str()),
        Some("dimension")
    );

    let light = to_value(&output.files[1].json);
    assert_eq!(light.pointer("/colors/background/$value/hex").and_then(|value| value.as_str()), Some("#fafafa"));
    assert_eq!(
        light
            .pointer("/colors/background/$extensions/com.figma.aliasData/targetVariableSetName")
            .and_then(|value| value.as_str()),
        Some("Foundation")
    );
    assert_eq!(
        light
            .pointer("/colors/background/$extensions/com.figma.aliasData/targetVariableName")
            .and_then(|value| value.as_str()),
        Some("colors/neutral-10")
    );
}

#[test]
fn rejects_rem_dimensions() {
    let resolver = r#"{
      "sets": { "foundation": { "sources": [{ "$ref": "foundation/spacing.tokens.json" }] } },
      "modifiers": {}
    }"#;
    let error = convert(resolver, |_| {
        Ok(r#"{
          "spacing": {
            "$type": "dimension",
            "md": { "$value": { "value": 1, "unit": "rem" } }
          }
        }"#
        .to_string())
    })
    .expect_err("rem should fail");

    assert!(error.contains("spacing.md"));
    assert!(error.contains("foundation/spacing.tokens.json"));
    assert!(error.contains("px only"));
}

#[test]
fn typography_fields_become_typed_tokens() {
    let output = convert(RESOLVER, load_ref).expect("conversion should work");
    let foundation = to_value(&output.files[0].json);
    let body = &foundation["typography"]["body-md"];
    let keys: Vec<&String> = body.as_object().expect("object").keys().collect();
    assert_eq!(keys, vec!["fontFamily", "fontSize", "lineHeight", "letterSpacing", "fontWeight"]);
    assert_eq!(body["lineHeight"]["$type"], "number");
    assert_eq!(body["fontWeight"]["$type"], "number");
    assert_eq!(body["fontWeight"]["$value"], 400);
    assert!(foundation["typography"].get("$type").is_none());
    assert_eq!(foundation["spacing"]["$type"], "dimension");
}

#[test]
fn aliases_within_a_collection_stay_aliases() {
    let resolver = r#"{
      "sets": { "foundation": { "sources": [{ "$ref": "a.json" }] } },
      "modifiers": {}
    }"#;
    let output = convert(resolver, |_| {
        Ok(r##"{ "colors": { "$type": "color",
            "base": { "$value": { "colorSpace": "srgb", "hex": "#000000" } },
            "copy": { "$value": "{colors.base}" } } }"##
            .to_string())
    })
    .expect("conversion should work");
    let file = to_value(&output.files[0].json);
    assert_eq!(file["colors"]["copy"]["$value"], "{colors.base}");
    assert!(file["colors"]["copy"].get("$extensions").is_none());
}

#[test]
fn reports_unresolved_aliases() {
    let resolver = r#"{
      "sets": { "foundation": { "sources": [{ "$ref": "a.json" }] } },
      "modifiers": {}
    }"#;
    let error = convert(resolver, |_| {
        Ok(r##"{ "colors": { "$type": "color", "copy": { "$value": "{colors.none}" } } }"##.to_string())
    })
    .expect_err("unresolved alias");
    assert_eq!(error, "unresolved alias `{colors.none}` for `colors.copy` in `Foundation/default.tokens.json`");
}

#[test]
fn reports_resolver_and_group_errors() {
    let error = convert(r#"{ "sets": { "foundation": { "sources": [] } } }"#, load_ref).expect_err("no modifiers");
    assert_eq!(error, "missing resolver `modifiers`");
    let error = convert(
        r#"{ "sets": { "foundation": { "sources": [] } }, "modifiers": { "--": { "contexts": {} } } }"#,
        load_ref,
    )
    .expect_err("bad modifier name");
    assert_eq!(error, "invalid modifier name `--`: expected ASCII letters or numbers");
    let error = convert(
        r#"{ "sets": { "foundation": { "sources": [{ "$ref": "x.json" }] } }, "modifiers": {} }"#,
        |_| Ok(r#"{ "shadow": {} }"#.to_string()),
    )
    .expect_err("unsupported group");
    assert_eq!(error, "unsupported token group `shadow` in token source `x.json`");
    let error = convert(
        r#"{ "sets": { "foundation": { "sources": [{ "$ref": "x.json" }] } }, "modifiers": {} }"#,
        |_| Ok(r#"{ "radius": { "sm": { "$value": 4 } } }"#.to_string()),
    )
    .expect_err("missing type");
    assert_eq!(error, "unsupported token type for `radius.sm` in `x.json`: expected dimension or number, got <missing>");
}

#[test]
fn names_collections_after_modifiers() {
    let output = convert(
        r#"{ "sets": { "foundation": { "sources": [] } },
             "modifiers": { "color-scheme_2": { "contexts": { "high": [] } } } }"#,
        load_ref,
    )
    .expect("conversion should work");
    let paths = output.files.iter().map(|file| file.path.as_str()).collect::<Vec<_>>();
    assert_eq!(paths, ["Foundation/default.tokens.json", "ColorScheme2/high.tokens.json"]);
}

#[test]
fn reads_mode_files_in_order_and_stops_at_a_failure() {
    let mut read = Vec::new();
    let result = convert(RESOLVER, |reference| {
        read.push(reference.to_string());
        if reference == "foundation/typography.tokens.json" {
            Err("unreadable".to_string())
        } else {
            load_ref(reference)
        }
    });
    assert_eq!(read, vec!["foundation/spacing.tokens.json", "foundation/typography.tokens.json"]);
    let error = result.expect_err("a file that cannot be read stops the export");
    assert_eq!(error, "failed to load resolver $ref `foundation/typography.tokens.json`: unreadable");
}

#[test]
fn reads_every_mode_file_once_in_order() {
    let mut read = Vec::new();
    convert(RESOLVER, |reference| {
        read.push(reference.to_string());
        load_ref(reference)
    })
    .expect("export succeeds");
    assert_eq!(read.first().map(String::as_str), Some("foundation/spacing.tokens.json"));
    let mut unique = read.clone();
    unique.sort();
    unique.dedup();
    assert_eq!(unique.len(), read.len());
}

#[test]
fn reads_a_mode_file_named_twice_twice() {
    let resolver = RESOLVER.replace(
        r#""light": [{ "$ref": "theme/light.tokens.json" }]"#,
        r#""light": [{ "$ref": "theme/light.tokens.json" }, { "$ref": "theme/light.tokens.json" }]"#,
    );
    assert_ne!(resolver, RESOLVER);
    let mut read = Vec::new();
    let _ = convert(&resolver, |reference| {
        read.push(reference.to_string());
        load_ref(reference)
    });
    let light: Vec<&String> = read.iter().filter(|r| r.as_str() == "theme/light.tokens.json").collect();
    assert_eq!(light.len(), 2);
}
