//! The DTCG resolver file that ties the token files together.

use vstd::prelude::*;
use crate::json_out::{array_of, items_view, members_view, object_of, object_with, JsonOut, JsonView};
use crate::text::{opt_string_view, string_of};

verus! {

/// The schema the resolver file declares.
pub const RESOLVER_SCHEMA: &'static str = "https://www.designtokens.org/schemas/2025.10/resolver.json";

/// `{ "$ref": reference }`.
pub open spec fn ref_view(reference: Seq<char>) -> JsonView {
    JsonView::Object(seq![("$ref"@, JsonView::Str(reference))])
}

/// `(key, value)` as a member, when there is a value.
pub open spec fn optional_member(key: Seq<char>, value: Option<Seq<char>>) -> Seq<(Seq<char>, JsonView)> {
    match value {
        Some(v) => seq![(key, JsonView::Str(v))],
        None => Seq::empty(),
    }
}

/// The resolver file: the schema, the name and description where given, the
/// foundation set of four token files, the theme modifier with a light and a
/// dark context (light by default), and the resolution order.
pub open spec fn resolver_view(name: Option<Seq<char>>, description: Option<Seq<char>>) -> JsonView {
    JsonView::Object(
        seq![("$schema"@, JsonView::Str(RESOLVER_SCHEMA@))]
            + optional_member("name"@, name)
            + seq![("version"@, JsonView::Str("2025.10"@))]
            + optional_member("description"@, description)
            + seq![
                ("sets"@, JsonView::Object(seq![("foundation"@, JsonView::Object(seq![("sources"@, JsonView::Array(seq![
                    ref_view("foundation/spacing.tokens.json"@),
                    ref_view("foundation/radius.tokens.json"@),
                    ref_view("foundation/typography.tokens.json"@),
                    ref_view("foundation/colors.tokens.json"@),
                ]))]))])),
                ("modifiers"@, JsonView::Object(seq![("theme"@, JsonView::Object(seq![
                    ("contexts"@, JsonView::Object(seq![
                        ("light"@, JsonView::Array(seq![ref_view("theme/light.tokens.json"@)])),
                        ("dark"@, JsonView::Array(seq![ref_view("theme/dark.tokens.json"@)])),
                    ])),
                    ("default"@, JsonView::Str("light"@)),
                ]))])),
                ("resolutionOrder"@, JsonView::Array(seq![
                    ref_view("#/sets/foundation"@),
                    ref_view("#/modifiers/theme"@),
                ])),
            ],
    )
}

/// `{ "$ref": reference }`.
fn ref_object(reference: &str) -> (r: JsonOut)
    ensures
        r.view_json() == ref_view(reference@),
{
    object_with("$ref", JsonOut::Str(string_of(reference)))
}

/// Appends `{ "$ref": reference }` to `items`.
fn push_ref(items: &mut Vec<JsonOut>, reference: &str)
    ensures
        items_view(final(items)@) == items_view(old(items)@).push(ref_view(reference@)),
{
    let ghost before = items@;
    items.push(ref_object(reference));
    proof {
        assert(items_view(items@) =~= items_view(before).push(ref_view(reference@)));
    }
}

/// Builds the resolver file for a design system with an optional name and description.
pub fn build_resolver(name: Option<String>, description: Option<String>) -> (r: JsonOut)
    ensures
        r.view_json() == resolver_view(opt_string_view(name), opt_string_view(description)),
{
    let ghost name_view = opt_string_view(name);
    let ghost description_view = opt_string_view(description);
    let mut root: Vec<(String, JsonOut)> = Vec::new();
    root.push((string_of("$schema"), JsonOut::Str(string_of(RESOLVER_SCHEMA))));
    if let Some(n) = name {
        root.push((string_of("name"), JsonOut::Str(n)));
    }
    root.push((string_of("version"), JsonOut::Str(string_of("2025.10"))));
    if let Some(d) = description {
        root.push((string_of("description"), JsonOut::Str(d)));
    }
    let mut sources: Vec<JsonOut> = Vec::new();
    assert(items_view(sources@) =~= Seq::<JsonView>::empty());
    push_ref(&mut sources, "foundation/spacing.tokens.json");
    push_ref(&mut sources, "foundation/radius.tokens.json");
    push_ref(&mut sources, "foundation/typography.tokens.json");
    push_ref(&mut sources, "foundation/colors.tokens.json");
    let ghost sources_items = sources@;
    let sets = object_with("foundation", object_with("sources", array_of(sources)));
    let mut light: Vec<JsonOut> = Vec::new();
    assert(items_view(light@) =~= Seq::<JsonView>::empty());
    push_ref(&mut light, "theme/light.tokens.json");
    let ghost light_items = light@;
    let light = array_of(light);
    let mut dark: Vec<JsonOut> = Vec::new();
    assert(items_view(dark@) =~= Seq::<JsonView>::empty());
    push_ref(&mut dark, "theme/dark.tokens.json");
    let ghost dark_items = dark@;
    let dark = array_of(dark);
    let mut contexts: Vec<(String, JsonOut)> = Vec::new();
    contexts.push((string_of("light"), light));
    contexts.push((string_of("dark"), dark));
    let ghost contexts_members = contexts@;
    let contexts = object_of(contexts);
    let mut theme: Vec<(String, JsonOut)> = Vec::new();
    theme.push((string_of("contexts"), contexts));
    theme.push((string_of("default"), JsonOut::Str(string_of("light"))));
    let ghost theme_members = theme@;
    let theme = object_of(theme);
    let modifiers = object_with("theme", theme);
    let mut order: Vec<JsonOut> = Vec::new();
    assert(items_view(order@) =~= Seq::<JsonView>::empty());
    push_ref(&mut order, "#/sets/foundation");
    push_ref(&mut order, "#/modifiers/theme");
    let ghost order_items = order@;
    let order = array_of(order);
    root.push((string_of("sets"), sets));
    root.push((string_of("modifiers"), modifiers));
    root.push((string_of("resolutionOrder"), order));
    let ghost root_members = root@;
    let r = object_of(root);
    proof {
        assert(items_view(sources_items) =~= seq![
            ref_view("foundation/spacing.tokens.json"@),
            ref_view("foundation/radius.tokens.json"@),
            ref_view("foundation/typography.tokens.json"@),
            ref_view("foundation/colors.tokens.json"@),
        ]);
        assert(items_view(light_items) =~= seq![ref_view("theme/light.tokens.json"@)]);
        assert(items_view(dark_items) =~= seq![ref_view("theme/dark.tokens.json"@)]);
        assert(items_view(order_items) =~= seq![ref_view("#/sets/foundation"@), ref_view("#/modifiers/theme"@)]);
        assert(members_view(contexts_members) =~= seq![
            ("light"@, JsonView::Array(seq![ref_view("theme/light.tokens.json"@)])),
            ("dark"@, JsonView::Array(seq![ref_view("theme/dark.tokens.json"@)])),
        ]);
        assert(members_view(theme_members) =~= seq![
            ("contexts"@, JsonView::Object(members_view(contexts_members))),
            ("default"@, JsonView::Str("light"@)),
        ]);
        assert(members_view(root_members) =~= resolver_view(name_view, description_view)->Object_0);
    }
    r
}

} // verus!
