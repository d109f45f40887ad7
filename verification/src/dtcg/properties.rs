//! What the DTCG conversion guarantees as a whole.

use vstd::prelude::*;
use crate::color::OklchColor;
use crate::dtcg::alias::theme_of_reference;
use crate::dtcg::colors::{
    base_name, first_key_with, foundation_colors_spec, foundation_raw, split_colors_spec,
    theme_colors_spec, themed_raw,
};
use crate::dtcg::{design_files_spec, theme_suffix, DesignFrontMatter, Theme};
use crate::json_out::JsonView;
use crate::dtcg::resolver::{optional_member, RESOLVER_SCHEMA};
use crate::text::opt_string_view;
use crate::ordered_map::{has_key, lemma_has_key, lemma_insert_keys};
use crate::text::spec_ends_with;

verus! {

/// A name carries the suffix of `theme` and has base `x` exactly when it is `x`
/// followed by the suffix.
proof fn lemma_theme_name(n: Seq<char>, x: Seq<char>, theme: Theme)
    ensures
        (theme_of_reference(n) == Some(theme) && base_name(n, theme) == x) <==> n == x + theme_suffix(theme),
{
    reveal_strlit("-light");
    reveal_strlit("-dark");
    let sfx = theme_suffix(theme);
    if n == x + sfx {
        assert(n.skip(n.len() - sfx.len()) =~= sfx);
        assert(n.subrange(0, n.len() - sfx.len()) =~= x);
        if theme == Theme::Dark {
            assert(n[n.len() - 1] == 'k');
            if spec_ends_with(n, "-light"@) {
                assert(n.skip(n.len() - 6)[5] == 't');
            }
        }
    }
    if theme_of_reference(n) == Some(theme) && base_name(n, theme) == x {
        if theme == Theme::Light {
            assert(spec_ends_with(n, "-light"@));
        } else {
            assert(spec_ends_with(n, "-dark"@));
        }
        assert(n =~= n.subrange(0, n.len() - sfx.len()) + n.skip(n.len() - sfx.len()));
    }
}

/// The keys of the colors of `theme` are the base names of its colors.
proof fn lemma_themed_keys(es: Seq<(Seq<char>, Seq<char>)>, theme: Theme, x: Seq<char>)
    ensures
        has_key(themed_raw(es, theme), x) <==> exists|i: int| 0 <= i < es.len() && (#[trigger] es[i]).0 == x + theme_suffix(theme),
    decreases es.len(),
{
    if es.len() > 0 {
        let rest = es.drop_last();
        lemma_themed_keys(rest, theme, x);
        lemma_theme_name(es.last().0, x, theme);
        if theme_of_reference(es.last().0) == Some(theme) {
            lemma_insert_keys(themed_raw(rest, theme), base_name(es.last().0, theme), es.last().1, x);
        }
        if exists|i: int| 0 <= i < es.len() && (#[trigger] es[i]).0 == x + theme_suffix(theme) {
            let i = choose|i: int| 0 <= i < es.len() && (#[trigger] es[i]).0 == x + theme_suffix(theme);
            if i < es.len() - 1 {
                assert(rest[i] == es[i]);
            }
        }
        if exists|i: int| 0 <= i < rest.len() && (#[trigger] rest[i]).0 == x + theme_suffix(theme) {
            let i = choose|i: int| 0 <= i < rest.len() && (#[trigger] rest[i]).0 == x + theme_suffix(theme);
            assert(es[i] == rest[i]);
        }
    }
}

/// The keys of the foundation colors are the names without a theme suffix.
proof fn lemma_foundation_keys(es: Seq<(Seq<char>, Seq<char>)>, x: Seq<char>)
    ensures
        has_key(foundation_raw(es), x) <==> exists|i: int| 0 <= i < es.len() && (#[trigger] es[i]).0 == x && theme_of_reference(x) is None,
    decreases es.len(),
{
    if es.len() > 0 {
        let rest = es.drop_last();
        lemma_foundation_keys(rest, x);
        if theme_of_reference(es.last().0) is None {
            lemma_insert_keys(foundation_raw(rest), es.last().0, es.last().1, x);
        }
        if exists|i: int| 0 <= i < es.len() && (#[trigger] es[i]).0 == x && theme_of_reference(x) is None {
            let i = choose|i: int| 0 <= i < es.len() && (#[trigger] es[i]).0 == x && theme_of_reference(x) is None;
            if i < es.len() - 1 {
                assert(rest[i] == es[i]);
            }
        }
        if exists|i: int| 0 <= i < rest.len() && (#[trigger] rest[i]).0 == x && theme_of_reference(x) is None {
            let i = choose|i: int| 0 <= i < rest.len() && (#[trigger] rest[i]).0 == x && theme_of_reference(x) is None;
            assert(es[i] == rest[i]);
        }
    }
}

/// Converting the colors of a theme keeps their keys.
proof fn lemma_theme_colors_keys(
    ts: Seq<(Seq<char>, Seq<char>)>,
    theme: Theme,
    table: Seq<(String, Result<OklchColor, String>)>,
    x: Seq<char>,
)
    requires
        theme_colors_spec(ts, theme, table) is Ok,
    ensures
        has_key(theme_colors_spec(ts, theme, table)->Ok_0, x) <==> has_key(ts, x),
    decreases ts.len(),
{
    if ts.len() > 0 {
        let rest = ts.drop_last();
        lemma_theme_colors_keys(rest, theme, table, x);
        let done = theme_colors_spec(rest, theme, table)->Ok_0;
        let color = choose|c: JsonView| theme_colors_spec(ts, theme, table)->Ok_0 == crate::ordered_map::entries_insert(done, ts.last().0, c);
        lemma_insert_keys(done, ts.last().0, color, x);
        lemma_ts_rebuilt(ts);
        lemma_insert_keys(rest, ts.last().0, ts.last().1, x);
    }
}

/// Converting the foundation colors keeps their keys.
proof fn lemma_foundation_colors_keys(
    fs: Seq<(Seq<char>, Seq<char>)>,
    table: Seq<(String, Result<OklchColor, String>)>,
    x: Seq<char>,
)
    requires
        foundation_colors_spec(fs, table) is Ok,
    ensures
        has_key(foundation_colors_spec(fs, table)->Ok_0, x) <==> has_key(fs, x),
    decreases fs.len(),
{
    if fs.len() > 0 {
        let rest = fs.drop_last();
        lemma_foundation_colors_keys(rest, table, x);
        let done = foundation_colors_spec(rest, table)->Ok_0;
        let color = choose|c: JsonView| foundation_colors_spec(fs, table)->Ok_0 == crate::ordered_map::entries_insert(done, fs.last().0, c);
        lemma_insert_keys(done, fs.last().0, color, x);
        lemma_ts_rebuilt(fs);
        lemma_insert_keys(rest, fs.last().0, fs.last().1, x);
    }
}

/// The keys of a sequence are those of its front and its last entry.
proof fn lemma_ts_rebuilt(ts: Seq<(Seq<char>, Seq<char>)>)
    requires
        ts.len() > 0,
    ensures
        forall|x: Seq<char>| has_key(ts, x) <==> (has_key(ts.drop_last(), x) || x == ts.last().0),
{
    assert forall|x: Seq<char>| has_key(ts, x) <==> (has_key(ts.drop_last(), x) || x == ts.last().0) by {
        lemma_has_key(ts, x);
        lemma_has_key(ts.drop_last(), x);
        if has_key(ts, x) && x != ts.last().0 {
            let i = choose|i: int| 0 <= i < ts.len() && (#[trigger] ts[i]).0 == x;
            assert(ts.drop_last()[i] == ts[i]);
        }
        if has_key(ts.drop_last(), x) {
            let i = choose|i: int| 0 <= i < ts.drop_last().len() && (#[trigger] ts.drop_last()[i]).0 == x;
            assert(ts[i] == ts.drop_last()[i]);
        }
        if x == ts.last().0 {
            assert(ts[ts.len() - 1].0 == x);
        }
    }
}

/// No key of `xs` is missing from `ys` (or, with `present`, found in it).
proof fn lemma_no_first_key<A, B>(xs: Seq<(Seq<char>, A)>, ys: Seq<(Seq<char>, B)>, present: bool, x: Seq<char>)
    requires
        first_key_with(xs, ys, present) is None,
        has_key(xs, x),
    ensures
        has_key(ys, x) != present,
    decreases xs.len(),
{
    lemma_has_key(xs, x);
    if xs[0].0 != x {
        lemma_has_key(xs.drop_first(), x);
        let i = choose|i: int| 0 <= i < xs.len() && (#[trigger] xs[i]).0 == x;
        assert(xs.drop_first()[i - 1] == xs[i]);
        lemma_no_first_key(xs.drop_first(), ys, present, x);
    }
}

/// Theme colors come in pairs. When the colors convert, the light file holds a
/// token `x` exactly when the front matter has a color `x-light`, the dark
/// file holds one exactly when it has `x-dark`, so both files hold the same
/// names; and no foundation color shares a name with a themed one.
pub proof fn law_theme_colors_pair_up(es: Seq<(Seq<char>, Seq<char>)>, table: Seq<(String, Result<OklchColor, String>)>)
    requires
        split_colors_spec(es, table) is Ok,
    ensures
        forall|x: Seq<char>| #[trigger] has_key(split_colors_spec(es, table)->Ok_0.1, x)
            <==> exists|i: int| 0 <= i < es.len() && (#[trigger] es[i]).0 == x + "-light"@,
        forall|x: Seq<char>| #[trigger] has_key(split_colors_spec(es, table)->Ok_0.2, x)
            <==> exists|i: int| 0 <= i < es.len() && (#[trigger] es[i]).0 == x + "-dark"@,
        forall|x: Seq<char>| #[trigger] has_key(split_colors_spec(es, table)->Ok_0.1, x)
            <==> has_key(split_colors_spec(es, table)->Ok_0.2, x),
        forall|x: Seq<char>| #[trigger] has_key(split_colors_spec(es, table)->Ok_0.0, x)
            ==> !has_key(split_colors_spec(es, table)->Ok_0.1, x),
{
    let fs = foundation_raw(es);
    let ls = themed_raw(es, Theme::Light);
    let ds = themed_raw(es, Theme::Dark);
    let (f, l, d) = split_colors_spec(es, table)->Ok_0;
    assert forall|x: Seq<char>| #[trigger] has_key(l, x) <==> has_key(ls, x) by {
        lemma_theme_colors_keys(ls, Theme::Light, table, x);
    }
    assert forall|x: Seq<char>| #[trigger] has_key(d, x) <==> has_key(ds, x) by {
        lemma_theme_colors_keys(ds, Theme::Dark, table, x);
    }
    assert forall|x: Seq<char>| #[trigger] has_key(f, x) <==> has_key(fs, x) by {
        lemma_foundation_colors_keys(fs, table, x);
    }
    assert forall|x: Seq<char>| #[trigger] has_key(l, x)
        <==> exists|i: int| 0 <= i < es.len() && (#[trigger] es[i]).0 == x + "-light"@ by {
        lemma_themed_keys(es, Theme::Light, x);
    }
    assert forall|x: Seq<char>| #[trigger] has_key(d, x)
        <==> exists|i: int| 0 <= i < es.len() && (#[trigger] es[i]).0 == x + "-dark"@ by {
        lemma_themed_keys(es, Theme::Dark, x);
    }
    assert forall|x: Seq<char>| #[trigger] has_key(l, x) <==> has_key(d, x) by {
        if has_key(ls, x) {
            lemma_no_first_key(ls, ds, false, x);
        }
        if has_key(ds, x) {
            lemma_no_first_key(ds, ls, false, x);
        }
    }
    assert forall|x: Seq<char>| #[trigger] has_key(f, x) implies !has_key(l, x) by {
        if has_key(ls, x) {
            lemma_no_first_key(ls, fs, true, x);
        }
    }
}

/// The value of the first member named `key`.
pub open spec fn view_field(members: Seq<(Seq<char>, JsonView)>, key: Seq<char>) -> Option<JsonView>
    decreases members.len(),
{
    if members.len() == 0 {
        None
    } else if members[0].0 == key {
        Some(members[0].1)
    } else {
        view_field(members.drop_first(), key)
    }
}

/// The value at `path` of nested objects.
pub open spec fn view_path(value: JsonView, path: Seq<Seq<char>>) -> Option<JsonView>
    decreases path.len(),
{
    if path.len() == 0 {
        Some(value)
    } else {
        match value {
            JsonView::Object(members) => match view_field(members, path[0]) {
                Some(inner) => view_path(inner, path.drop_first()),
                None => None,
            },
            _ => None,
        }
    }
}

/// The `$ref` of each item of an array of references.
pub open spec fn ref_paths(value: Option<JsonView>) -> Option<Seq<Seq<char>>> {
    match value {
        Some(JsonView::Array(items)) => Some(items.map_values(|item: JsonView| match item {
            JsonView::Object(members) => match view_field(members, "$ref"@) {
                Some(JsonView::Str(p)) => p,
                _ => Seq::empty(),
            },
            _ => Seq::empty(),
        })),
        _ => None,
    }
}

/// A field found past members that lack its key.
proof fn lemma_view_field_skip(pre: Seq<(Seq<char>, JsonView)>, tail: Seq<(Seq<char>, JsonView)>, key: Seq<char>)
    requires
        forall|i: int| 0 <= i < pre.len() ==> (#[trigger] pre[i]).0 != key,
    ensures
        view_field(pre + tail, key) == view_field(tail, key),
    decreases pre.len(),
{
    if pre.len() > 0 {
        assert((pre + tail)[0] == pre[0]);
        assert((pre + tail).drop_first() == pre.drop_first() + tail);
        assert forall|i: int| 0 <= i < pre.drop_first().len() implies (#[trigger] pre.drop_first()[i]).0 != key by {
            assert(pre.drop_first()[i] == pre[i + 1]);
        }
        lemma_view_field_skip(pre.drop_first(), tail, key);
    } else {
        assert(pre + tail == tail);
    }
}

/// The resolver names exactly the token files written beside it: its
/// foundation set lists the spacing, radius, typography and foundation color
/// files, and its light and dark contexts the light and dark theme files.
pub proof fn law_resolver_refers_to_written_files(design: DesignFrontMatter)
    requires
        design_files_spec(design) is Ok,
    ensures
        design_files_spec(design)->Ok_0.len() == 7,
        design_files_spec(design)->Ok_0[6].0 == "tokens.resolver.json"@,
        ref_paths(view_path(design_files_spec(design)->Ok_0[6].1, seq!["sets"@, "foundation"@, "sources"@]))
            == Some(seq![
                design_files_spec(design)->Ok_0[0].0,
                design_files_spec(design)->Ok_0[1].0,
                design_files_spec(design)->Ok_0[2].0,
                design_files_spec(design)->Ok_0[3].0,
            ]),
        ref_paths(view_path(design_files_spec(design)->Ok_0[6].1, seq!["modifiers"@, "theme"@, "contexts"@, "light"@]))
            == Some(seq![design_files_spec(design)->Ok_0[4].0]),
        ref_paths(view_path(design_files_spec(design)->Ok_0[6].1, seq!["modifiers"@, "theme"@, "contexts"@, "dark"@]))
            == Some(seq![design_files_spec(design)->Ok_0[5].0]),
{
    reveal_strlit("$schema");
    reveal_strlit("name");
    reveal_strlit("version");
    reveal_strlit("description");
    reveal_strlit("sets");
    reveal_strlit("modifiers");
    reveal_strlit("foundation");
    reveal_strlit("sources");
    reveal_strlit("theme");
    reveal_strlit("contexts");
    reveal_strlit("light");
    reveal_strlit("dark");
    reveal_strlit("$ref");
    let files = design_files_spec(design)->Ok_0;
    let resolver = files[6].1;
    let members = resolver->Object_0;
    let pre = seq![("$schema"@, JsonView::Str(RESOLVER_SCHEMA@))]
        + optional_member("name"@, opt_string_view(design.name))
        + seq![("version"@, JsonView::Str("2025.10"@))]
        + optional_member("description"@, opt_string_view(design.description));
    let tail = members.skip(pre.len() as int);
    assert(members =~= pre + tail);
    assert("$schema"@ != "sets"@ && "$schema"@ != "modifiers"@) by {
        assert("$schema"@.len() != "sets"@.len() && "$schema"@.len() != "modifiers"@.len());
    }
    assert("name"@ != "sets"@ && "name"@ != "modifiers"@) by {
        assert("name"@[0] != "sets"@[0] && "name"@.len() != "modifiers"@.len());
    }
    assert("version"@ != "sets"@ && "version"@ != "modifiers"@) by {
        assert("version"@.len() != "sets"@.len() && "version"@.len() != "modifiers"@.len());
    }
    assert("description"@ != "sets"@ && "description"@ != "modifiers"@) by {
        assert("description"@.len() != "sets"@.len() && "description"@.len() != "modifiers"@.len());
    }
    let opt_name = optional_member("name"@, opt_string_view(design.name));
    let opt_description = optional_member("description"@, opt_string_view(design.description));
    let a = seq![("$schema"@, JsonView::Str(RESOLVER_SCHEMA@))] + opt_name;
    let b = a + seq![("version"@, JsonView::Str("2025.10"@))];
    assert(pre == b + opt_description);
    assert forall|i: int| 0 <= i < pre.len() implies (#[trigger] pre[i]).0 != "sets"@ && pre[i].0 != "modifiers"@ by {
        if i < a.len() {
            assert(pre[i] == a[i]);
            if i >= 1 {
                assert(a[i] == opt_name[i - 1]);
                assert(opt_name[i - 1].0 == "name"@);
            } else {
                assert(a[0].0 == "$schema"@);
            }
        } else if i < b.len() {
            assert(pre[i] == b[i]);
            assert(b[i].0 == "version"@);
        } else {
            assert(pre[i] == opt_description[i - b.len()]);
            assert(opt_description[i - b.len()].0 == "description"@);
        }
    }
    lemma_view_field_skip(pre, tail, "sets"@);
    lemma_view_field_skip(pre, tail, "modifiers"@);
    reveal_with_fuel(view_field, 3);
    reveal_with_fuel(view_path, 5);
    let sources_path = seq!["sets"@, "foundation"@, "sources"@];
    assert(sources_path.drop_first() =~= seq!["foundation"@, "sources"@]);
    assert(sources_path.drop_first().drop_first() =~= seq!["sources"@]);
    assert(sources_path.drop_first().drop_first().drop_first() =~= Seq::<Seq<char>>::empty());
    let light_path = seq!["modifiers"@, "theme"@, "contexts"@, "light"@];
    assert(light_path.drop_first() =~= seq!["theme"@, "contexts"@, "light"@]);
    assert(light_path.drop_first().drop_first() =~= seq!["contexts"@, "light"@]);
    assert(light_path.drop_first().drop_first().drop_first() =~= seq!["light"@]);
    assert(light_path.drop_first().drop_first().drop_first().drop_first() =~= Seq::<Seq<char>>::empty());
    let dark_path = seq!["modifiers"@, "theme"@, "contexts"@, "dark"@];
    assert(dark_path.drop_first() =~= seq!["theme"@, "contexts"@, "dark"@]);
    assert(dark_path.drop_first().drop_first() =~= seq!["contexts"@, "dark"@]);
    assert(dark_path.drop_first().drop_first().drop_first() =~= seq!["dark"@]);
    assert(dark_path.drop_first().drop_first().drop_first().drop_first() =~= Seq::<Seq<char>>::empty());
    let sv = tail[0].1;
    assert(view_field(members, "sets"@) == Some(sv));
    let fv = view_field(sv->Object_0, "foundation"@)->Some_0;
    let srcv = view_field(fv->Object_0, "sources"@)->Some_0;
    assert(view_path(resolver, sources_path) == view_path(sv, sources_path.drop_first()));
    assert(view_path(sv, sources_path.drop_first()) == view_path(fv, sources_path.drop_first().drop_first()));
    assert(view_path(fv, sources_path.drop_first().drop_first()) == Some(srcv));
    assert(ref_paths(Some(srcv))->Some_0 =~= seq![files[0].0, files[1].0, files[2].0, files[3].0]);
    let mv = tail[1].1;
    assert(view_field(members, "modifiers"@) == Some(mv));
    let tv = view_field(mv->Object_0, "theme"@)->Some_0;
    let cv = view_field(tv->Object_0, "contexts"@)->Some_0;
    let lv = view_field(cv->Object_0, "light"@)->Some_0;
    assert("light"@ != "dark"@) by {
        assert("light"@.len() != "dark"@.len());
    }
    let dv = view_field(cv->Object_0, "dark"@)->Some_0;
    assert(view_path(resolver, light_path) == view_path(mv, light_path.drop_first()));
    assert(view_path(mv, light_path.drop_first()) == view_path(tv, light_path.drop_first().drop_first()));
    assert(view_path(tv, light_path.drop_first().drop_first()) == view_path(cv, light_path.drop_first().drop_first().drop_first()));
    assert(view_path(cv, light_path.drop_first().drop_first().drop_first()) == Some(lv));
    assert(ref_paths(Some(lv))->Some_0 =~= seq![files[4].0]);
    assert(view_path(resolver, dark_path) == view_path(mv, dark_path.drop_first()));
    assert(view_path(mv, dark_path.drop_first()) == view_path(tv, dark_path.drop_first().drop_first()));
    assert(view_path(tv, dark_path.drop_first().drop_first()) == view_path(cv, dark_path.drop_first().drop_first().drop_first()));
    assert(view_path(cv, dark_path.drop_first().drop_first().drop_first()) == Some(dv));
    assert(ref_paths(Some(dv))->Some_0 =~= seq![files[5].0]);
}

} // verus!
