//! Colors of the front matter split into foundation and theme tokens.

use indexmap::IndexMap;
use vstd::prelude::*;
use crate::color::{color_value_spec, is_oklch_text, oklch_entry, parse_color_token_value, OklchColor};
use crate::dtcg::alias::{
    foundation_alias_spec, normalize_alias_for_foundation, normalize_alias_for_theme,
    theme_alias_spec, theme_of_reference,
};
use crate::dtcg::{theme_suffix, Theme};
use crate::json_out::{
    group_file_view, insert_each, members_view, object_insert, object_of, object_with, value_wrapped,
    wrap_each, JsonOut, JsonView,
};
use crate::ordered_map::{
    entries_insert, insert_all, key_index, lemma_insert_all_push, lemma_key_index_bounds, text_map_contains_key,
    text_map_entries, text_map_insert, text_map_new, text_map_to_vec, text_pairs,
};
use crate::text::{
    cat3, chars_of, ends_with, push_str, slice_chars, spec_ends_with, string_from_chars, string_of,
};

verus! {

/// `raw`, when written as an OKLCH color, has a parse in `table`.
pub open spec fn oklch_covered(table: Seq<(String, Result<OklchColor, String>)>, raw: Seq<char>) -> bool {
    is_oklch_text(raw) ==> oklch_entry(table, raw) is Some
}

/// Every value of `es` written as an OKLCH color has a parse in `table`.
pub open spec fn oklch_covers(table: Seq<(String, Result<OklchColor, String>)>, es: Seq<(Seq<char>, Seq<char>)>) -> bool {
    forall|i: int| 0 <= i < es.len() ==> oklch_covered(table, #[trigger] es[i].1)
}

/// The name of a color of `theme` without the theme suffix.
pub open spec fn base_name(name: Seq<char>, theme: Theme) -> Seq<char> {
    name.subrange(0, name.len() - theme_suffix(theme).len())
}

/// The colors of `theme` under their base names, as `IndexMap::insert` puts
/// them in turn.
pub open spec fn themed_raw(es: Seq<(Seq<char>, Seq<char>)>, theme: Theme) -> Seq<(Seq<char>, Seq<char>)>
    decreases es.len(),
{
    if es.len() == 0 {
        Seq::empty()
    } else {
        let rest = themed_raw(es.drop_last(), theme);
        if theme_of_reference(es.last().0) == Some(theme) {
            entries_insert(rest, base_name(es.last().0, theme), es.last().1)
        } else {
            rest
        }
    }
}

/// The colors without a theme suffix, as `IndexMap::insert` puts them in turn.
pub open spec fn foundation_raw(es: Seq<(Seq<char>, Seq<char>)>) -> Seq<(Seq<char>, Seq<char>)>
    decreases es.len(),
{
    if es.len() == 0 {
        Seq::empty()
    } else {
        let rest = foundation_raw(es.drop_last());
        if theme_of_reference(es.last().0) is None {
            entries_insert(rest, es.last().0, es.last().1)
        } else {
            rest
        }
    }
}

/// The first key of `xs` whose presence among the keys of `ys` is `present`.
pub open spec fn first_key_with<A, B>(xs: Seq<(Seq<char>, A)>, ys: Seq<(Seq<char>, B)>, present: bool) -> Option<Seq<char>>
    decreases xs.len(),
{
    if xs.len() == 0 {
        None
    } else if (key_index(ys, xs[0].0) is Some) == present {
        Some(xs[0].0)
    } else {
        first_key_with(xs.drop_first(), ys, present)
    }
}

/// The foundation colors converted in turn; the first failure is the error.
pub open spec fn foundation_colors_spec(
    fs: Seq<(Seq<char>, Seq<char>)>,
    table: Seq<(String, Result<OklchColor, String>)>,
) -> Result<Seq<(Seq<char>, JsonView)>, Seq<char>>
    decreases fs.len(),
{
    if fs.len() == 0 {
        Ok(Seq::empty())
    } else {
        match foundation_colors_spec(fs.drop_last(), table) {
            Err(e) => Err(e),
            Ok(done) => {
                let name = fs.last().0;
                match foundation_alias_spec(name, fs.last().1) {
                    Err(e) => Err(e),
                    Ok(value) => match color_value_spec(name, value, table) {
                        Err(e) => Err(e),
                        Ok(color) => Ok(entries_insert(done, name, color)),
                    },
                }
            },
        }
    }
}

/// The colors of `theme` converted in turn; the first failure is the error.
pub open spec fn theme_colors_spec(
    ts: Seq<(Seq<char>, Seq<char>)>,
    theme: Theme,
    table: Seq<(String, Result<OklchColor, String>)>,
) -> Result<Seq<(Seq<char>, JsonView)>, Seq<char>>
    decreases ts.len(),
{
    if ts.len() == 0 {
        Ok(Seq::empty())
    } else {
        match theme_colors_spec(ts.drop_last(), theme, table) {
            Err(e) => Err(e),
            Ok(done) => {
                let base = ts.last().0;
                let source = base + theme_suffix(theme);
                match theme_alias_spec(source, ts.last().1, theme) {
                    Err(e) => Err(e),
                    Ok(value) => match color_value_spec(source, value, table) {
                        Err(e) => Err(e),
                        Ok(color) => Ok(entries_insert(done, base, color)),
                    },
                }
            },
        }
    }
}

/// The colors of the front matter as foundation, light and dark tokens: every
/// color of one theme needs its pair in the other, and no foundation color
/// may share the base name of a themed one.
pub open spec fn split_colors_spec(
    es: Seq<(Seq<char>, Seq<char>)>,
    table: Seq<(String, Result<OklchColor, String>)>,
) -> Result<(Seq<(Seq<char>, JsonView)>, Seq<(Seq<char>, JsonView)>, Seq<(Seq<char>, JsonView)>), Seq<char>> {
    let fs = foundation_raw(es);
    let ls = themed_raw(es, Theme::Light);
    let ds = themed_raw(es, Theme::Dark);
    match first_key_with(ls, ds, false) {
        Some(b) => Err("missing dark theme color pair for `"@ + b + "-light`"@),
        None => match first_key_with(ds, ls, false) {
            Some(b) => Err("missing light theme color pair for `"@ + b + "-dark`"@),
            None => match first_key_with(ls, fs, true) {
                Some(b) => Err("foundation color `"@ + b + "` conflicts with themed color `"@ + b + "-light`"@),
                None => match foundation_colors_spec(fs, table) {
                    Err(e) => Err(e),
                    Ok(f) => match theme_colors_spec(ls, Theme::Light, table) {
                        Err(e) => Err(e),
                        Ok(l) => match theme_colors_spec(ds, Theme::Dark, table) {
                            Err(e) => Err(e),
                            Ok(d) => Ok((f, l, d)),
                        },
                    },
                },
            },
        },
    }
}

pub proof fn lemma_covers_insert(
    table: Seq<(String, Result<OklchColor, String>)>,
    es: Seq<(Seq<char>, Seq<char>)>,
    k: Seq<char>,
    v: Seq<char>,
)
    requires
        oklch_covers(table, es),
        oklch_covered(table, v),
    ensures
        oklch_covers(table, entries_insert(es, k, v)),
{
    let r = entries_insert(es, k, v);
    assert forall|i: int| 0 <= i < r.len() implies oklch_covered(table, #[trigger] r[i].1) by {
        match key_index(es, k) {
            Some(j) => {
                lemma_key_index_bounds(es, k);
                if i != j {
                    assert(r[i] == es[i]);
                }
            },
            None => {
                if i < es.len() {
                    assert(r[i] == es[i]);
                }
            },
        }
    }
}

proof fn lemma_covers_take(table: Seq<(String, Result<OklchColor, String>)>, es: Seq<(Seq<char>, Seq<char>)>, n: int)
    requires
        oklch_covers(table, es),
        0 <= n <= es.len(),
    ensures
        oklch_covers(table, es.take(n)),
{
    assert forall|i: int| 0 <= i < es.take(n).len() implies oklch_covered(table, #[trigger] es.take(n)[i].1) by {
        assert(es.take(n)[i] == es[i]);
    }
}

/// Every value of the themed and foundation colors comes from the front matter.
pub proof fn lemma_raw_covered(table: Seq<(String, Result<OklchColor, String>)>, es: Seq<(Seq<char>, Seq<char>)>)
    requires
        oklch_covers(table, es),
    ensures
        oklch_covers(table, foundation_raw(es)),
        oklch_covers(table, themed_raw(es, Theme::Light)),
        oklch_covers(table, themed_raw(es, Theme::Dark)),
    decreases es.len(),
{
    if es.len() > 0 {
        lemma_covers_take(table, es, es.len() - 1);
        assert(es.drop_last() == es.take(es.len() - 1));
        lemma_raw_covered(table, es.drop_last());
        assert(oklch_covered(table, es[es.len() - 1].1));
        lemma_covers_insert(table, foundation_raw(es.drop_last()), es.last().0, es.last().1);
        lemma_covers_insert(table, themed_raw(es.drop_last(), Theme::Light), base_name(es.last().0, Theme::Light), es.last().1);
        lemma_covers_insert(table, themed_raw(es.drop_last(), Theme::Dark), base_name(es.last().0, Theme::Dark), es.last().1);
    }
}

/// A value that an alias became is never written as an OKLCH color.
pub proof fn lemma_braced_not_oklch(x: Seq<char>)
    ensures
        !is_oklch_text("{"@ + x),
{
    reveal_strlit("{");
    reveal_strlit("oklch(");
    let s = "{"@ + x;
    assert(s[0] == '{');
    if is_oklch_text(s) {
        assert(crate::tailwind_v4::color::ascii_lowercase(s).take(6)[0] == "oklch("@[0]);
    }
}

/// The colors of the front matter, split.
pub struct SplitColors {
    pub foundation: Vec<(String, JsonOut)>,
    pub light: Vec<(String, JsonOut)>,
    pub dark: Vec<(String, JsonOut)>,
}

/// The first key of `xs` whose presence among the keys of `ys` is `present`.
fn find_key_with(xs: &Vec<(String, String)>, ys: &IndexMap<String, String>, present: bool) -> (r: Option<String>)
    ensures
        match r {
            Some(k) => first_key_with(text_pairs(xs@), text_map_entries(*ys), present) == Some(k@),
            None => first_key_with(text_pairs(xs@), text_map_entries(*ys), present) is None,
        },
{
    let ghost ps = text_pairs(xs@);
    let mut i: usize = 0;
    assert(ps.skip(0) == ps);
    while i < xs.len()
        invariant
            i <= xs@.len(),
            ps == text_pairs(xs@),
            first_key_with(ps, text_map_entries(*ys), present) == first_key_with(ps.skip(i as int), text_map_entries(*ys), present),
        decreases xs@.len() - i,
    {
        assert(ps.skip(i as int).drop_first() == ps.skip(i + 1int));
        assert(ps.skip(i as int)[0] == ps[i as int]);
        if text_map_contains_key(ys, xs[i].0.as_str()) == present {
            return Some(xs[i].0.clone());
        }
        i = i + 1;
    }
    None
}

/// Splits the colors by theme suffix into three maps of raw values.
fn partition_colors(
    colors: &IndexMap<String, String>,
) -> (r: (IndexMap<String, String>, IndexMap<String, String>, IndexMap<String, String>))
    ensures
        text_map_entries(r.0) == foundation_raw(text_map_entries(*colors)),
        text_map_entries(r.1) == themed_raw(text_map_entries(*colors), Theme::Light),
        text_map_entries(r.2) == themed_raw(text_map_entries(*colors), Theme::Dark),
{
    let ghost es = text_map_entries(*colors);
    let entries = text_map_to_vec(colors);
    assert(text_pairs(entries@) =~= es);
    let mut foundation_raw_map = text_map_new();
    let mut light_raw = text_map_new();
    let mut dark_raw = text_map_new();
    let light_suffix = chars_of(Theme::Light.suffix());
    let dark_suffix = chars_of(Theme::Dark.suffix());
    let mut i: usize = 0;
    while i < entries.len()
        invariant
            i <= entries@.len() == es.len(),
            es == text_map_entries(*colors),
            forall|j: int| 0 <= j < entries@.len() ==> (#[trigger] entries@[j]).0@ == es[j].0 && entries@[j].1@ == es[j].1,
            light_suffix@ == "-light"@,
            dark_suffix@ == "-dark"@,
            text_map_entries(foundation_raw_map) == foundation_raw(es.take(i as int)),
            text_map_entries(light_raw) == themed_raw(es.take(i as int), Theme::Light),
            text_map_entries(dark_raw) == themed_raw(es.take(i as int), Theme::Dark),
        decreases entries@.len() - i,
    {
        proof {
            assert(es.take(i + 1int).drop_last() == es.take(i as int));
            assert(es.take(i + 1int).last() == es[i as int]);
        }
        let name_chars = chars_of(entries[i].0.as_str());
        let raw = entries[i].1.clone();
        if ends_with(name_chars.as_slice(), light_suffix.as_slice()) {
            let base = string_from_chars(slice_chars(name_chars.as_slice(), 0, name_chars.len() - light_suffix.len()).as_slice());
            text_map_insert(&mut light_raw, base, raw);
        } else if ends_with(name_chars.as_slice(), dark_suffix.as_slice()) {
            let base = string_from_chars(slice_chars(name_chars.as_slice(), 0, name_chars.len() - dark_suffix.len()).as_slice());
            text_map_insert(&mut dark_raw, base, raw);
        } else {
            text_map_insert(&mut foundation_raw_map, entries[i].0.clone(), raw);
        }
        i = i + 1;
    }
    proof {
        assert(es.take(es.len() as int) == es);
    }
    (foundation_raw_map, light_raw, dark_raw)
}

/// The foundation colors as color tokens.
fn build_foundation_colors(
    raw_colors: &IndexMap<String, String>,
    oklch: &[(String, Result<OklchColor, String>)],
) -> (r: Result<Vec<(String, JsonOut)>, String>)
    requires
        oklch_covers(oklch@, text_map_entries(*raw_colors)),
    ensures
        match r {
            Ok(v) => foundation_colors_spec(text_map_entries(*raw_colors), oklch@) == Ok::<Seq<(Seq<char>, JsonView)>, Seq<char>>(members_view(v@)),
            Err(e) => foundation_colors_spec(text_map_entries(*raw_colors), oklch@) is Err
                && foundation_colors_spec(text_map_entries(*raw_colors), oklch@)->Err_0 == e@,
        },
{
    let ghost fs = text_map_entries(*raw_colors);
    let entries = text_map_to_vec(raw_colors);
    assert(text_pairs(entries@) =~= fs);
    let mut colors: Vec<(String, JsonOut)> = Vec::new();
    let mut i: usize = 0;
    assert(members_view(colors@) =~= Seq::<(Seq<char>, JsonView)>::empty());
    while i < entries.len()
        invariant
            i <= entries@.len() == fs.len(),
            fs == text_map_entries(*raw_colors),
            oklch_covers(oklch@, fs),
            forall|j: int| 0 <= j < entries@.len() ==> (#[trigger] entries@[j]).0@ == fs[j].0 && entries@[j].1@ == fs[j].1,
            foundation_colors_spec(fs.take(i as int), oklch@) == Ok::<Seq<(Seq<char>, JsonView)>, Seq<char>>(members_view(colors@)),
        decreases entries@.len() - i,
    {
        proof {
            assert(fs.take(i + 1int).drop_last() == fs.take(i as int));
            assert(fs.take(i + 1int).last() == fs[i as int]);
            assert(oklch_covered(oklch@, fs[i as int].1));
        }
        let name = entries[i].0.as_str();
        let value = match normalize_alias_for_foundation(name, entries[i].1.as_str()) {
            Ok(v) => v,
            Err(e) => {
                proof { lemma_foundation_stops(fs, oklch@, i as int + 1); }
                return Err(e);
            },
        };
        proof {
            if value@ != fs[i as int].1 {
                lemma_braced_not_oklch(fs[i as int].1.subrange(1, fs[i as int].1.len() as int));
                assert(value@ == fs[i as int].1);
            }
        }
        let color = match parse_color_token_value(name, value.as_str(), oklch) {
            Ok(c) => c,
            Err(e) => {
                proof { lemma_foundation_stops(fs, oklch@, i as int + 1); }
                return Err(e);
            },
        };
        object_insert(&mut colors, entries[i].0.clone(), color);
        i = i + 1;
    }
    proof {
        assert(fs.take(fs.len() as int) == fs);
    }
    Ok(colors)
}

/// A failure among the first `n` foundation colors is the failure of all.
proof fn lemma_foundation_stops(fs: Seq<(Seq<char>, Seq<char>)>, table: Seq<(String, Result<OklchColor, String>)>, n: int)
    requires
        0 <= n <= fs.len(),
        foundation_colors_spec(fs.take(n), table) is Err,
    ensures
        foundation_colors_spec(fs, table) == foundation_colors_spec(fs.take(n), table),
    decreases fs.len() - n,
{
    if n < fs.len() {
        assert(fs.take(n + 1).drop_last() == fs.take(n));
        lemma_foundation_stops(fs, table, n + 1);
    } else {
        assert(fs.take(n) == fs);
    }
}

/// A failure among the first `n` colors of a theme is the failure of all.
proof fn lemma_theme_stops(ts: Seq<(Seq<char>, Seq<char>)>, theme: Theme, table: Seq<(String, Result<OklchColor, String>)>, n: int)
    requires
        0 <= n <= ts.len(),
        theme_colors_spec(ts.take(n), theme, table) is Err,
    ensures
        theme_colors_spec(ts, theme, table) == theme_colors_spec(ts.take(n), theme, table),
    decreases ts.len() - n,
{
    if n < ts.len() {
        assert(ts.take(n + 1).drop_last() == ts.take(n));
        lemma_theme_stops(ts, theme, table, n + 1);
    } else {
        assert(ts.take(n) == ts);
    }
}

/// The colors of `theme` as color tokens under their base names.
fn build_theme_colors(
    raw_colors: &IndexMap<String, String>,
    theme: Theme,
    oklch: &[(String, Result<OklchColor, String>)],
) -> (r: Result<Vec<(String, JsonOut)>, String>)
    requires
        oklch_covers(oklch@, text_map_entries(*raw_colors)),
    ensures
        match r {
            Ok(v) => theme_colors_spec(text_map_entries(*raw_colors), theme, oklch@) == Ok::<Seq<(Seq<char>, JsonView)>, Seq<char>>(members_view(v@)),
            Err(e) => theme_colors_spec(text_map_entries(*raw_colors), theme, oklch@) is Err
                && theme_colors_spec(text_map_entries(*raw_colors), theme, oklch@)->Err_0 == e@,
        },
{
    let ghost ts = text_map_entries(*raw_colors);
    let entries = text_map_to_vec(raw_colors);
    assert(text_pairs(entries@) =~= ts);
    let mut colors: Vec<(String, JsonOut)> = Vec::new();
    let mut i: usize = 0;
    assert(members_view(colors@) =~= Seq::<(Seq<char>, JsonView)>::empty());
    while i < entries.len()
        invariant
            i <= entries@.len() == ts.len(),
            ts == text_map_entries(*raw_colors),
            oklch_covers(oklch@, ts),
            forall|j: int| 0 <= j < entries@.len() ==> (#[trigger] entries@[j]).0@ == ts[j].0 && entries@[j].1@ == ts[j].1,
            theme_colors_spec(ts.take(i as int), theme, oklch@) == Ok::<Seq<(Seq<char>, JsonView)>, Seq<char>>(members_view(colors@)),
        decreases entries@.len() - i,
    {
        proof {
            assert(ts.take(i + 1int).drop_last() == ts.take(i as int));
            assert(ts.take(i + 1int).last() == ts[i as int]);
            assert(oklch_covered(oklch@, ts[i as int].1));
        }
        let mut source_name = entries[i].0.clone();
        push_str(&mut source_name, theme.suffix());
        let value = match normalize_alias_for_theme(source_name.as_str(), entries[i].1.as_str(), theme) {
            Ok(v) => v,
            Err(e) => {
                proof { lemma_theme_stops(ts, theme, oklch@, i as int + 1); }
                return Err(e);
            },
        };
        proof {
            let raw = ts[i as int].1;
            if value@ != raw {
                let reference = raw.subrange(1, raw.len() - 1);
                lemma_braced_not_oklch(reference.subrange(0, reference.len() - theme_suffix(theme).len()) + "}"@);
                assert(value@ =~= "{"@ + (reference.subrange(0, reference.len() - theme_suffix(theme).len()) + "}"@));
            }
        }
        let color = match parse_color_token_value(source_name.as_str(), value.as_str(), oklch) {
            Ok(c) => c,
            Err(e) => {
                proof { lemma_theme_stops(ts, theme, oklch@, i as int + 1); }
                return Err(e);
            },
        };
        object_insert(&mut colors, entries[i].0.clone(), color);
        i = i + 1;
    }
    proof {
        assert(ts.take(ts.len() as int) == ts);
    }
    Ok(colors)
}

/// Splits the colors into foundation, light and dark tokens.
pub fn split_colors(
    colors: &IndexMap<String, String>,
    oklch: &[(String, Result<OklchColor, String>)],
) -> (r: Result<SplitColors, String>)
    requires
        oklch_covers(oklch@, text_map_entries(*colors)),
    ensures
        match r {
            Ok(split) => split_colors_spec(text_map_entries(*colors), oklch@) == Ok::<
                (Seq<(Seq<char>, JsonView)>, Seq<(Seq<char>, JsonView)>, Seq<(Seq<char>, JsonView)>),
                Seq<char>,
            >((members_view(split.foundation@), members_view(split.light@), members_view(split.dark@))),
            Err(e) => split_colors_spec(text_map_entries(*colors), oklch@) is Err
                && split_colors_spec(text_map_entries(*colors), oklch@)->Err_0 == e@,
        },
{
    let (foundation_raw_map, light_raw, dark_raw) = partition_colors(colors);
    let light_entries = text_map_to_vec(&light_raw);
    let dark_entries = text_map_to_vec(&dark_raw);
    assert(text_pairs(light_entries@) =~= text_map_entries(light_raw));
    assert(text_pairs(dark_entries@) =~= text_map_entries(dark_raw));
    if let Some(base) = find_key_with(&light_entries, &dark_raw, false) {
        return Err(cat3("missing dark theme color pair for `", base.as_str(), "-light`"));
    }
    if let Some(base) = find_key_with(&dark_entries, &light_raw, false) {
        return Err(cat3("missing light theme color pair for `", base.as_str(), "-dark`"));
    }
    if let Some(base) = find_key_with(&light_entries, &foundation_raw_map, true) {
        let mut message = cat3("foundation color `", base.as_str(), "` conflicts with themed color `");
        push_str(&mut message, base.as_str());
        push_str(&mut message, "-light`");
        return Err(message);
    }
    proof {
        lemma_raw_covered(oklch@, text_map_entries(*colors));
    }
    let foundation = match build_foundation_colors(&foundation_raw_map, oklch) {
        Ok(v) => v,
        Err(e) => return Err(e),
    };
    let light = match build_theme_colors(&light_raw, Theme::Light, oklch) {
        Ok(v) => v,
        Err(e) => return Err(e),
    };
    let dark = match build_theme_colors(&dark_raw, Theme::Dark, oklch) {
        Ok(v) => v,
        Err(e) => return Err(e),
    };
    Ok(SplitColors { foundation, light, dark })
}

/// A color token file: `{ "colors": { "$type": "color", name: { "$value": color }, ... } }`,
/// each color set in turn.
pub open spec fn color_file_view(colors: Seq<(Seq<char>, JsonView)>) -> JsonView {
    group_file_view("colors"@, insert_all(seq![("$type"@, JsonView::Str("color"@))], value_wrapped(colors)))
}

/// The color token file of `colors`.
pub fn build_color_tokens(colors: Vec<(String, JsonOut)>) -> (r: JsonOut)
    ensures
        r.view_json() == color_file_view(members_view(colors@)),
{
    let mut group: Vec<(String, JsonOut)> = Vec::new();
    group.push((string_of("$type"), JsonOut::Str(string_of("color"))));
    assert(members_view(group@) =~= seq![("$type"@, JsonView::Str("color"@))]);
    insert_each(&mut group, wrap_each(colors));
    object_with("colors", object_of(group))
}

} // verus!
