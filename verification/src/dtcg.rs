//! DESIGN.md front matter as DTCG 2025.10 token files and a resolver.

pub mod alias;
pub mod dimension;
pub mod colors;
pub mod spacing;
pub mod typography;
pub mod resolver;
pub mod properties;

use indexmap::IndexMap;
use crate::color::OklchColor;
use crate::json_out::{JsonOut, JsonView};
use crate::text::{cat2, opt_string_view};
use crate::ordered_map::{
    nested_map_entries, nested_map_new, text_map_entries, text_map_new, yaml_map_entries, yaml_map_new,
};
use colors::{build_color_tokens, color_file_view, oklch_covers, split_colors, split_colors_spec};
use resolver::{build_resolver, resolver_view};
use spacing::{build_radius_tokens, build_spacing_tokens, radius_file_spec, spacing_file_spec};
use typography::{build_typography_tokens, typography_file_spec};

use vstd::prelude::*;

verus! {

/// A YAML number, as the front matter's reader gives it.
pub enum YamlNumber {
    /// A number that fits `i64`.
    Int(i64),
    /// A positive integer above `i64::MAX`.
    UInt(u64),
    /// A finite float, as a decimal text whose `f64` it is.
    Float(String),
    /// A float that is infinite or not a number.
    NonFinite,
}

/// A YAML value of the front matter, as far as the converter reads it.
pub enum YamlValue {
    Number(YamlNumber),
    Str(String),
    /// A null, boolean, sequence, mapping or tagged value.
    Other,
}

/// The two color themes.
#[derive(Clone, Copy, PartialEq, Eq, Structural)]
pub enum Theme {
    Light,
    Dark,
}

/// The suffix that marks a color name as belonging to `theme`.
pub open spec fn theme_suffix(theme: Theme) -> Seq<char> {
    match theme {
        Theme::Light => "-light"@,
        Theme::Dark => "-dark"@,
    }
}

/// The name of `theme` in messages.
pub open spec fn theme_label(theme: Theme) -> Seq<char> {
    match theme {
        Theme::Light => "light"@,
        Theme::Dark => "dark"@,
    }
}

impl Theme {
    /// The suffix that marks a color name as belonging to this theme.
    pub fn suffix(self) -> (r: &'static str)
        ensures
            r@ == theme_suffix(self),
    {
        match self {
            Theme::Light => "-light",
            Theme::Dark => "-dark",
        }
    }

    /// The name of this theme in messages.
    pub fn label(self) -> (r: &'static str)
        ensures
            r@ == theme_label(self),
    {
        match self {
            Theme::Light => "light",
            Theme::Dark => "dark",
        }
    }
}

/// The front matter of a DESIGN.md document, as its YAML reader gives it.
pub struct DesignFrontMatter {
    pub name: Option<String>,
    pub description: Option<String>,
    pub colors: Option<IndexMap<String, String>>,
    pub spacing: Option<IndexMap<String, YamlValue>>,
    pub rounded: Option<IndexMap<String, YamlValue>>,
    pub typography: Option<IndexMap<String, IndexMap<String, YamlValue>>>,
    /// The parse of each color value written as OKLCH, by the value's text.
    pub oklch: Vec<(String, Result<OklchColor, String>)>,
}

/// A generated token file: where it goes under the output directory, and its JSON.
#[derive(Debug)]
pub struct GeneratedTokenFile {
    pub path: &'static str,
    pub json: JsonOut,
}

/// The generated token files, in the order they are written.
#[derive(Debug)]
pub struct GeneratedTokens {
    pub files: Vec<GeneratedTokenFile>,
}

/// The colors of the front matter; none when it has no `colors`.
pub open spec fn color_entries(design: DesignFrontMatter) -> Seq<(Seq<char>, Seq<char>)> {
    match design.colors {
        Some(m) => text_map_entries(m),
        None => Seq::empty(),
    }
}

/// The entries of an optional map of YAML values; none when it is absent.
pub open spec fn yaml_entries(m: Option<IndexMap<String, YamlValue>>) -> Seq<(Seq<char>, YamlValue)> {
    match m {
        Some(m) => yaml_map_entries(m),
        None => Seq::empty(),
    }
}

/// The typography tokens of the front matter; none when it has no `typography`.
pub open spec fn typography_entries(design: DesignFrontMatter) -> Seq<(Seq<char>, IndexMap<String, YamlValue>)> {
    match design.typography {
        Some(m) => nested_map_entries(m),
        None => Seq::empty(),
    }
}

/// The DTCG files of the front matter, as (path, JSON): the colors are split
/// first, then the spacing, radius and typography files are built in that
/// order; the first failure is the error.
pub open spec fn design_files_spec(design: DesignFrontMatter) -> Result<Seq<(Seq<char>, JsonView)>, Seq<char>> {
    match split_colors_spec(color_entries(design), design.oklch@) {
        Err(e) => Err(e),
        Ok(split) => match spacing_file_spec(yaml_entries(design.spacing)) {
            Err(e) => Err(e),
            Ok(spacing) => match radius_file_spec(yaml_entries(design.rounded)) {
                Err(e) => Err(e),
                Ok(radius) => match typography_file_spec(typography_entries(design)) {
                    Err(e) => Err(e),
                    Ok(typography) => Ok(seq![
                        ("foundation/spacing.tokens.json"@, spacing),
                        ("foundation/radius.tokens.json"@, radius),
                        ("foundation/typography.tokens.json"@, typography),
                        ("foundation/colors.tokens.json"@, color_file_view(split.0)),
                        ("theme/light.tokens.json"@, color_file_view(split.1)),
                        ("theme/dark.tokens.json"@, color_file_view(split.2)),
                        ("tokens.resolver.json"@, resolver_view(opt_string_view(design.name), opt_string_view(design.description))),
                    ]),
                },
            },
        },
    }
}

/// The generated files as (path, JSON).
pub open spec fn files_view(files: Seq<GeneratedTokenFile>) -> Seq<(Seq<char>, JsonView)> {
    files.map_values(|f: GeneratedTokenFile| (f.path@, f.json.view_json()))
}

/// The message for front matter that is not valid YAML for the converter.
pub fn front_matter_parse_error(detail: &str) -> (r: String)
    ensures
        r@ == "failed to parse YAML front matter: "@ + detail@,
{
    cat2("failed to parse YAML front matter: ", detail)
}

/// Converts DESIGN.md front matter into DTCG token files and a resolver.
pub fn convert_front_matter_to_dtcg(design: DesignFrontMatter) -> (r: Result<GeneratedTokens, String>)
    requires
        oklch_covers(design.oklch@, color_entries(design)),
    ensures
        match r {
            Ok(tokens) => design_files_spec(design) == Ok::<Seq<(Seq<char>, JsonView)>, Seq<char>>(files_view(tokens.files@)),
            Err(e) => design_files_spec(design) == Err::<Seq<(Seq<char>, JsonView)>, Seq<char>>(e@),
        },
{
    let ghost d = design;
    let colors = match design.colors {
        Some(m) => m,
        None => text_map_new(),
    };
    let split = match split_colors(&colors, design.oklch.as_slice()) {
        Ok(s) => s,
        Err(e) => return Err(e),
    };
    let spacing_map = match design.spacing {
        Some(m) => m,
        None => yaml_map_new(),
    };
    let spacing = match build_spacing_tokens(&spacing_map) {
        Ok(v) => v,
        Err(e) => return Err(e),
    };
    let rounded_map = match design.rounded {
        Some(m) => m,
        None => yaml_map_new(),
    };
    let radius = match build_radius_tokens(&rounded_map) {
        Ok(v) => v,
        Err(e) => return Err(e),
    };
    let typography_map = match design.typography {
        Some(m) => m,
        None => nested_map_new(),
    };
    let typography = match build_typography_tokens(&typography_map) {
        Ok(v) => v,
        Err(e) => return Err(e),
    };
    let mut files: Vec<GeneratedTokenFile> = Vec::new();
    files.push(GeneratedTokenFile { path: "foundation/spacing.tokens.json", json: spacing });
    files.push(GeneratedTokenFile { path: "foundation/radius.tokens.json", json: radius });
    files.push(GeneratedTokenFile { path: "foundation/typography.tokens.json", json: typography });
    files.push(GeneratedTokenFile { path: "foundation/colors.tokens.json", json: build_color_tokens(split.foundation) });
    files.push(GeneratedTokenFile { path: "theme/light.tokens.json", json: build_color_tokens(split.light) });
    files.push(GeneratedTokenFile { path: "theme/dark.tokens.json", json: build_color_tokens(split.dark) });
    files.push(GeneratedTokenFile { path: "tokens.resolver.json", json: build_resolver(design.name, design.description) });
    let ghost fs = files@;
    proof {
        assert(files_view(fs) =~= design_files_spec(d)->Ok_0);
    }
    Ok(GeneratedTokens { files })
}

} // verus!
