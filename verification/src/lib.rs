//! Converts DESIGN.md-compatible front matter into DTCG resolver token files and
//! DTCG token files into Tailwind CSS v4 theme variables.

pub mod text;
pub mod color;
pub mod front_matter;
pub mod ordered_map;
pub mod json;
pub mod json_out;
pub mod dtcg;
pub mod tailwind_v4;
pub mod figma;

pub use dtcg::{convert_front_matter_to_dtcg, GeneratedTokenFile, GeneratedTokens};
pub use front_matter::extract_front_matter;
pub use tailwind_v4::{convert_resolver_to_tailwind_v4, TAILWIND_V4_THEME_FILE};
