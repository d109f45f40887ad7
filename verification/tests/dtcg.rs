use design_token_tool::dtcg::{
    convert_front_matter_to_dtcg, front_matter_parse_error, DesignFrontMatter, GeneratedTokens,
    YamlNumber, YamlValue,
};
use design_token_tool::extract_front_matter;
use design_token_tool::json_out::{JsonOut, OutNumber};
use indexmap::IndexMap;
use serde_json::Value;

fn yaml_value(value: &serde_yaml::Value) -> YamlValue {
    match value {
        serde_yaml::Value::Number(n) => YamlValue::Number(if let Some(i) = n.as_i64() {
            YamlNumber::Int(i)
        } else if let Some(u) = n.as_u64() {
            YamlNumber::UInt(u)
        } else {
            let f = n.as_f64().expect("a YAML number is a float when not an integer");
            if f.is_finite() {
                YamlNumber::Float(format!("{f}"))
            } else {
                YamlNumber::NonFinite
            }
        }),
        serde_yaml::Value::String(s) => YamlValue::Str(s.clone()),
        _ => YamlValue::Other,
    }
}

fn yaml_map(value: &serde_yaml::Value) -> IndexMap<String, YamlValue> {
    value
        .as_mapping()
        .expect("a mapping")
        .iter()
        .map(|(k, v)| (k.as_str().expect("a string key").to_string(), yaml_value(v)))
        .collect()
}

fn design(markdown: &str) -> Result<DesignFrontMatter, String> {
    let front_matter = extract_front_matter(markdown)?;
    let doc: serde_yaml::Value = serde_yaml::from_str(front_matter)
        .map_err(|error| front_matter_parse_error(&error.to_string()))?;
    let text = |key: &str| doc.get(key).and_then(|v| v.as_str()).map(|s| s.to_string());
    Ok(DesignFrontMatter {
        name: text("name"),
        description: text("description"),
        colors: doc.get("colors").map(|v| {
            v.as_mapping()
                .expect("a mapping")
                .iter()
                .map(|(k, v)| {
                    (k.as_str().expect("a string key").to_string(), v.as_str().expect("a string").to_string())
                })
                .collect()
        }),
        spacing: doc.get("spacing").map(yaml_map),
        rounded: doc.get("rounded").map(yaml_map),
        typography: doc.get("typography").map(|v| {
            v.as_mapping()
                .expect("a mapping")
                .iter()
                .map(|(k, v)| (k.as_str().expect("a string key").to_string(), yaml_map(v)))
                .collect()
        }),
        oklch: Vec::new(),
    })
}

fn convert_markdown_to_dtcg(markdown: &str) -> Result<GeneratedTokens, String> {
    convert_front_matter_to_dtcg(design(markdown)?)
}

fn to_value(json: &JsonOut) -> Value {
    match json {
        JsonOut::Number(OutNumber::Int(i)) => Value::from(*i),
        JsonOut::Number(OutNumber::UInt(u)) => Value::from(*u),
        JsonOut::Number(OutNumber::Float(text)) => Value::from(text.parse::<f64>().expect("decimal text")),
        JsonOut::Str(s) => Value::String(s.clone()),
        JsonOut::Array(items) => Value::Array(items.iter().map(to_value).collect()),
        JsonOut::Object(members) => {
            let mut map = serde_json::Map::new();
            for (k, v) in members {
                map.insert(k.clone(), to_value(v));
            }
            Value::Object(map)
        }
    }
}

struct Output {
    files: Vec<(&'static str, Value)>,
}

fn convert(markdown: &str) -> Result<Output, String> {
    let tokens = convert_markdown_to_dtcg(markdown)?;
    Ok(Output { files: tokens.files.iter().map(|f| (f.path, to_value(&f.json))).collect() })
}

#[test]
fn rejects_missing_theme_color_pair() {
    let error = convert_markdown_to_dtcg("---\ncolors:\n  background-light: \"#ffffff\"\n---\n")
        .expect_err("missing dark pair should fail");

    assert!(error.contains("background-light"));
}

#[test]
fn rejects_foundation_color_conflict_with_themed_color() {
    let error = convert_markdown_to_dtcg(
        "---\ncolors:\n  background: \"#ffffff\"\n  background-light: \"#ffffff\"\n  background-dark: \"#000000\"\n---\n",
    )
    .expect_err("conflicting foundation and theme colors should fail");

    assert!(error.contains("background"));
}

#[test]
fn rejects_em_dimension() {
    let error =
        convert_markdown_to_dtcg("---\nspacing:\n  sm: 1em\n---\n").expect_err("em should fail");

    assert!(error.contains("px and rem"));
}

#[test]
fn rejects_typography_line_height_dimension() {
    let error = convert_markdown_to_dtcg(
        "---\ntypography:\n  body:\n    fontFamily: Public Sans\n    fontSize: 16px\n    fontWeight: 400\n    lineHeight: 24px\n    letterSpacing: 0px\n---\n",
    )
    .expect_err("dimension lineHeight should fail");

    assert!(error.contains("lineHeight"));
    assert!(error.contains("number or alias"));
}

#[test]
fn rejects_typography_missing_required_field() {
    let error = convert_markdown_to_dtcg(
        "---\ntypography:\n  body:\n    fontFamily: Public Sans\n    fontSize: 16px\n    fontWeight: 400\n    lineHeight: 1.5\n---\n",
    )
    .expect_err("missing typography field should fail");

    assert!(error.contains("letterSpacing"));
    assert!(error.contains("body"));
}

#[test]
fn infers_spacing_alias_type_from_target() {
    let output = convert(
        "---\nspacing:\n  columns: 12\n  columns-copy: \"{spacing.columns}\"\n  sm: 8px\n  sm-copy: \"{spacing.sm}\"\n---\n",
    )
    .expect("spacing aliases should work");

    let spacing = &output.files[0].1["spacing"];
    assert_eq!(spacing["columns-copy"]["$type"], "number");
    assert_eq!(spacing["sm-copy"]["$type"], "dimension");
}

#[test]
fn rejects_spacing_alias_when_type_cannot_be_inferred() {
    let error = convert_markdown_to_dtcg("---\nspacing:\n  sm: \"{sizes.sm}\"\n---\n")
        .expect_err("untyped spacing alias should fail");

    assert!(error.contains("spacing alias"));
    assert!(error.contains("sm"));
}

#[test]
fn normalizes_same_theme_alias_and_rejects_cross_theme_alias() {
    let output = convert(
        "---\ncolors:\n  text-light: \"#000000\"\n  text-dark: \"#ffffff\"\n  background-light: \"{colors.text-light}\"\n  background-dark: \"{colors.text-dark}\"\n---\n",
    )
    .expect("same-theme aliases should work");

    assert_eq!(output.files[4].1["colors"]["background"]["$value"], "{colors.text}");
    assert_eq!(output.files[5].1["colors"]["background"]["$value"], "{colors.text}");

    let error = convert_markdown_to_dtcg(
        "---\ncolors:\n  text-light: \"#000000\"\n  text-dark: \"#ffffff\"\n  background-light: \"{colors.text-dark}\"\n  background-dark: \"{colors.text-dark}\"\n---\n",
    )
    .expect_err("cross-theme aliases should fail");

    assert!(error.contains("background-light"));
}

const FIXTURE: &str = "---\nversion: alpha\nname: Example UI\ndescription: Design tokens for Example UI.\ncolors:\n  neutral-0: \"#ffffff\"\n  neutral-10: \"#fafafa\"\n  background-light: \"{colors.neutral-10}\"\n  background-dark: \"#111111\"\nspacing:\n  xs: 4px\n  sm: 8px\n  columns: 12\nrounded:\n  sm: 4px\n  md: 8px\ntypography:\n  body-md:\n    fontFamily: Public Sans\n    fontSize: 16px\n    fontWeight: 400\n    lineHeight: 1.6\n    letterSpacing: 0px\n---\n\n# Design notes\n";

#[test]
fn writes_the_files_in_order() {
    let output = convert(FIXTURE).expect("fixture should convert");
    let paths: Vec<&str> = output.files.iter().map(|(p, _)| *p).collect();
    assert_eq!(
        paths,
        vec![
            "foundation/spacing.tokens.json",
            "foundation/radius.tokens.json",
            "foundation/typography.tokens.json",
            "foundation/colors.tokens.json",
            "theme/light.tokens.json",
            "theme/dark.tokens.json",
            "tokens.resolver.json",
        ]
    );
}

#[test]
fn resolver_refers_to_the_written_files() {
    let output = convert(FIXTURE).expect("fixture should convert");
    let resolver = &output.files[6].1;
    let sources: Vec<&str> = resolver["sets"]["foundation"]["sources"]
        .as_array()
        .expect("sources")
        .iter()
        .map(|r| r["$ref"].as_str().expect("ref"))
        .collect();
    let paths: Vec<&str> = output.files.iter().map(|(p, _)| *p).collect();
    assert_eq!(sources, paths[0..4].to_vec());
    assert_eq!(resolver["modifiers"]["theme"]["contexts"]["light"][0]["$ref"], paths[4]);
    assert_eq!(resolver["modifiers"]["theme"]["contexts"]["dark"][0]["$ref"], paths[5]);
    assert_eq!(resolver["modifiers"]["theme"]["default"], "light");
    assert_eq!(resolver["name"], "Example UI");
    assert_eq!(resolver["description"], "Design tokens for Example UI.");
    assert_eq!(resolver["version"], "2025.10");
    assert_eq!(resolver["$schema"], "https://www.designtokens.org/schemas/2025.10/resolver.json");
    let keys: Vec<&String> = resolver.as_object().expect("object").keys().collect();
    assert_eq!(keys, vec!["$schema", "name", "version", "description", "sets", "modifiers", "resolutionOrder"]);
    assert_eq!(resolver["resolutionOrder"][0]["$ref"], "#/sets/foundation");
    assert_eq!(resolver["resolutionOrder"][1]["$ref"], "#/modifiers/theme");
}

#[test]
fn resolver_without_name_or_description() {
    let output = convert("---\nspacing:\n  xs: 4px\n---\n").expect("should convert");
    let keys: Vec<&String> = output.files[6].1.as_object().expect("object").keys().collect();
    assert_eq!(keys, vec!["$schema", "version", "sets", "modifiers", "resolutionOrder"]);
}

#[test]
fn converts_the_fixture_tokens() {
    let output = convert(FIXTURE).expect("fixture should convert");
    let spacing = &output.files[0].1["spacing"];
    assert_eq!(spacing["xs"]["$type"], "dimension");
    assert_eq!(spacing["xs"]["$value"]["value"], 4.0);
    assert_eq!(spacing["xs"]["$value"]["unit"], "px");
    assert_eq!(spacing["columns"]["$type"], "number");
    assert_eq!(spacing["columns"]["$value"], 12);

    let radius = &output.files[1].1["radius"];
    assert_eq!(radius["$type"], "dimension");
    assert_eq!(radius["md"]["$value"]["value"], 8.0);

    let typography = &output.files[2].1["typography"];
    assert_eq!(typography["$type"], "typography");
    let body = &typography["body-md"]["$value"];
    assert_eq!(body["fontFamily"], "Public Sans");
    assert_eq!(body["fontSize"]["value"], 16.0);
    assert_eq!(body["fontWeight"], 400);
    assert_eq!(body["lineHeight"], 1.6);

    let colors = &output.files[3].1["colors"];
    assert_eq!(colors["$type"], "color");
    assert_eq!(colors["neutral-10"]["$value"]["hex"], "#fafafa");
    assert_eq!(colors["neutral-10"]["$value"]["components"][0], 0.98);
    assert!(colors.get("background").is_none());

    assert_eq!(output.files[4].1["colors"]["background"]["$value"], "{colors.neutral-10}");
    assert_eq!(output.files[5].1["colors"]["background"]["$value"]["hex"], "#111111");
}

#[test]
fn light_and_dark_files_hold_the_same_names() {
    let output = convert(
        "---\ncolors:\n  a-light: \"#000000\"\n  b-dark: \"#111111\"\n  b-light: \"#222222\"\n  a-dark: \"#333333\"\n  c: \"#444444\"\n---\n",
    )
    .expect("pairs should convert");
    let names = |i: usize| -> Vec<String> {
        let mut n: Vec<String> = output.files[i].1["colors"].as_object().expect("object").keys().cloned().collect();
        n.sort();
        n
    };
    assert_eq!(names(4), vec!["$type", "a", "b"]);
    assert_eq!(names(4), names(5));
    assert_eq!(names(3), vec!["$type", "c"]);
}

#[test]
fn rejects_missing_light_pair() {
    let error = convert_markdown_to_dtcg("---\ncolors:\n  bg-dark: \"#000000\"\n---\n").expect_err("no light pair");
    assert_eq!(error, "missing light theme color pair for `bg-dark`");
    let error = convert_markdown_to_dtcg("---\ncolors:\n  bg-light: \"#000000\"\n---\n").expect_err("no dark pair");
    assert_eq!(error, "missing dark theme color pair for `bg-light`");
    let error = convert_markdown_to_dtcg(
        "---\ncolors:\n  bg: \"#000000\"\n  bg-light: \"#000000\"\n  bg-dark: \"#000000\"\n---\n",
    )
    .expect_err("conflict");
    assert_eq!(error, "foundation color `bg` conflicts with themed color `bg-light`");
}

#[test]
fn rejects_themed_reference_from_foundation() {
    let error = convert_markdown_to_dtcg(
        "---\ncolors:\n  text-light: \"#000000\"\n  text-dark: \"#ffffff\"\n  link: \"{colors.text-light}\"\n---\n",
    )
    .expect_err("foundation to theme alias");
    assert_eq!(error, "foundation token `link` must not reference themed token `colors.text-light`");
}

#[test]
fn rejects_cross_theme_reference_exactly() {
    let error = convert_markdown_to_dtcg(
        "---\ncolors:\n  text-light: \"#000000\"\n  text-dark: \"#ffffff\"\n  bg-light: \"{colors.text-dark}\"\n  bg-dark: \"#000000\"\n---\n",
    )
    .expect_err("cross-theme alias");
    assert_eq!(error, "light theme token `bg-light` must not reference dark theme token `colors.text-dark`");
}

#[test]
fn reports_spacing_alias_errors() {
    let error = convert_markdown_to_dtcg("---\nspacing:\n  a: \"{spacing.b}\"\n---\n").expect_err("unknown");
    assert_eq!(error, "invalid spacing alias for `a`: unknown spacing token `b`");
    let error = convert_markdown_to_dtcg("---\nspacing:\n  a: \"{spacing.b}\"\n  b: \"{spacing.a}\"\n---\n")
        .expect_err("chained");
    assert_eq!(error, "invalid spacing alias for `a`: chained spacing aliases are not supported");
    let error = convert_markdown_to_dtcg("---\nspacing:\n  a: \"{spacing.b}\"\n  b: true\n---\n")
        .expect_err("unsupported target");
    assert_eq!(error, "invalid spacing alias for `a`: target `b` has unsupported value");
    let error = convert_markdown_to_dtcg("---\nspacing:\n  a: true\n---\n").expect_err("bad value");
    assert_eq!(error, "invalid spacing value for `a`: expected number, px/rem dimension, or alias");
    let error = convert_markdown_to_dtcg("---\nspacing:\n  a: \"{sizes.sm}\"\n---\n").expect_err("not spacing");
    assert_eq!(error, "invalid spacing alias for `a`: expected reference to `{spacing.xxx}`");
}

#[test]
fn reports_dimension_errors() {
    let error = convert_markdown_to_dtcg("---\nspacing:\n  a: \"16\"\n---\n").expect_err("no unit");
    assert_eq!(error, "invalid dimension for `a`: expected a number followed by px or rem");
    let error = convert_markdown_to_dtcg("---\nspacing:\n  a: px\n---\n").expect_err("no number");
    assert_eq!(error, "invalid dimension for `a`: cannot parse float from empty string");
    let error = convert_markdown_to_dtcg("---\nspacing:\n  a: 1.2.3px\n---\n").expect_err("bad number");
    assert_eq!(error, "invalid dimension for `a`: invalid float literal");
    let output = convert("---\nspacing:\n  a: .5rem\n  b: \"-2px\"\n  c: 1.px\n---\n").expect("decimal forms");
    assert_eq!(output.files[0].1["spacing"]["a"]["$value"]["value"], 0.5);
    assert_eq!(output.files[0].1["spacing"]["b"]["$value"]["value"], -2.0);
    assert_eq!(output.files[0].1["spacing"]["c"]["$value"]["value"], 1.0);
}

#[test]
fn reports_radius_and_number_errors() {
    let error = convert_markdown_to_dtcg("---\nrounded:\n  sm: 4\n---\n").expect_err("number radius");
    assert_eq!(error, "invalid rounded value for `sm`: expected px/rem dimension or alias");
    let error = convert_markdown_to_dtcg("---\nspacing:\n  a: .inf\n---\n").expect_err("infinite");
    assert_eq!(error, "invalid number for `a`");
    let output = convert("---\nrounded:\n  sm: 4px\n  md: \"{radius.sm}\"\n---\n").expect("alias radius");
    assert_eq!(output.files[1].1["radius"]["md"]["$value"], "{radius.sm}");
}

#[test]
fn reports_typography_field_errors() {
    let base = "fontFamily: A\n    fontSize: 1rem\n    letterSpacing: 0px\n    lineHeight: 1\n";
    let with = |extra: &str| format!("---\ntypography:\n  t:\n    {base}    {extra}\n---\n");
    let error = convert_markdown_to_dtcg(&with("fontWeight: 1001")).expect_err("heavy");
    assert_eq!(error, "invalid fontWeight for `t`: expected integer 1..=1000");
    let error = convert_markdown_to_dtcg(&with("fontWeight: 1.5")).expect_err("fraction");
    assert_eq!(error, "invalid fontWeight for `t`: expected integer 1..=1000");
    let error = convert_markdown_to_dtcg(&with("fontWeight: fat")).expect_err("unknown name");
    assert_eq!(error, "invalid fontWeight for `t`: `fat` is not a DTCG fontWeight value");
    let error = convert_markdown_to_dtcg(&with("fontWeight: [1]")).expect_err("sequence");
    assert_eq!(error, "invalid fontWeight for `t`: expected number, fontWeight string, or alias");
    let output = convert(&with("fontWeight: semi-bold")).expect("weight name");
    assert_eq!(output.files[2].1["typography"]["t"]["$value"]["fontWeight"], "semi-bold");
    let error = convert_markdown_to_dtcg(&with("fontWeight: 400\n    color: red")).expect_err("unknown field");
    assert_eq!(error, "unsupported typography field `color` for `t`");
    let error = convert_markdown_to_dtcg("---\ntypography:\n  t:\n    fontSize: 12\n---\n").expect_err("number size");
    assert_eq!(error, "invalid typography field `fontSize` for `t`: expected px/rem dimension or alias");
    let error = convert_markdown_to_dtcg("---\ntypography:\n  t:\n    fontFamily: 3\n---\n").expect_err("number family");
    assert_eq!(error, "invalid typography field `fontFamily` for `t`: expected string");
    let error = convert_markdown_to_dtcg("---\ntypography:\n  t:\n    fontSize: 12em\n---\n").expect_err("em size");
    assert_eq!(error, "invalid dimension for `typography.t.fontSize`: DTCG 2025.10 supports only px and rem");
    let error = convert_markdown_to_dtcg("---\ntypography:\n  t:\n    fontFamily: A\n---\n").expect_err("missing");
    assert_eq!(error, "missing required typography field `fontSize` for `t`");
}

#[test]
fn reports_yaml_errors() {
    let error = convert_markdown_to_dtcg("---\ncolors: [\n---\n").expect_err("bad yaml");
    assert!(error.starts_with("failed to parse YAML front matter: "));
}
