//! The CSS variables collected from token files, and the stylesheet they make.

use indexmap::IndexMap;
use vstd::prelude::*;
use crate::ordered_map::{
    entries_insert, text_map_entries, text_map_insert, text_map_is_empty, text_map_new, text_map_to_vec,
};
use crate::text::{push_str, string_of};

verus! {

/// CSS variables by name, in the order they were first set.
pub struct CssVariables {
    values: IndexMap<String, String>,
}

impl CssVariables {
    /// The variables, in order.
    pub closed spec fn entries(&self) -> Seq<(Seq<char>, Seq<char>)> {
        text_map_entries(self.values)
    }

    /// No variables yet.
    pub fn new() -> (r: CssVariables)
        ensures
            r.entries() == Seq::<(Seq<char>, Seq<char>)>::empty(),
    {
        CssVariables { values: text_map_new() }
    }

    /// Sets variable `name`: a variable set before keeps its place.
    pub fn insert(&mut self, name: String, value: String)
        ensures
            final(self).entries() == entries_insert(old(self).entries(), name@, value@),
    {
        text_map_insert(&mut self.values, name, value);
    }

    /// Whether no variable is set.
    pub fn is_empty(&self) -> (r: bool)
        ensures
            r == (self.entries().len() == 0),
    {
        text_map_is_empty(&self.values)
    }
}

/// The `@custom-variant` line that makes `dark:` follow `.dark` and
/// `[data-theme="dark"]`.
pub open spec fn dark_variant() -> Seq<char> {
    "@custom-variant dark (&:where(.dark, .dark *, [data-theme=\"dark\"], [data-theme=\"dark\"] *));"@
}

/// One line per variable: `  name: value;`.
pub open spec fn variables_text(es: Seq<(Seq<char>, Seq<char>)>) -> Seq<char>
    decreases es.len(),
{
    if es.len() == 0 {
        Seq::empty()
    } else {
        variables_text(es.drop_last()) + "  "@ + es.last().0 + ": "@ + es.last().1 + ";\n"@
    }
}

/// The stylesheet: the dark variant, an `@theme` block with the base variables,
/// and, when there are dark variables, a block for `.dark` and
/// `[data-theme="dark"]` that holds them.
pub open spec fn render_css_spec(base: Seq<(Seq<char>, Seq<char>)>, dark: Seq<(Seq<char>, Seq<char>)>) -> Seq<char> {
    dark_variant() + "\n\n@theme {\n"@ + variables_text(base) + "}"@ + (if dark.len() == 0 {
        Seq::empty()
    } else {
        "\n\n.dark,\n[data-theme=\"dark\"] {\n"@ + variables_text(dark) + "}"@
    }) + "\n"@
}

fn append_variable(css: &mut String, name: &str, value: &str)
    ensures
        final(css)@ == old(css)@ + "  "@ + name@ + ": "@ + value@ + ";\n"@,
{
    push_str(css, "  ");
    push_str(css, name);
    push_str(css, ": ");
    push_str(css, value);
    push_str(css, ";\n");
}

fn append_variables(css: &mut String, vars: &CssVariables)
    ensures
        final(css)@ == old(css)@ + variables_text(vars.entries()),
{
    let es = text_map_to_vec(&vars.values);
    let ghost all = vars.entries();
    let mut i: usize = 0;
    while i < es.len()
        invariant
            i <= es@.len() == all.len(),
            all == vars.entries(),
            forall|j: int| 0 <= j < es@.len() ==> (#[trigger] es@[j]).0@ == all[j].0 && es@[j].1@ == all[j].1,
            css@ == old(css)@ + variables_text(all.take(i as int)),
        decreases es@.len() - i,
    {
        proof {
            assert(all.take(i + 1int).drop_last() == all.take(i as int));
        }
        append_variable(css, es[i].0.as_str(), es[i].1.as_str());
        i = i + 1;
    }
    proof {
        assert(all.take(all.len() as int) == all);
    }
}

/// Renders the stylesheet.
pub fn render_css(base: &CssVariables, dark: &CssVariables) -> (r: String)
    ensures
        r@ == render_css_spec(base.entries(), dark.entries()),
{
    let mut css = string_of("@custom-variant dark (&:where(.dark, .dark *, [data-theme=\"dark\"], [data-theme=\"dark\"] *));");
    push_str(&mut css, "\n\n@theme {\n");
    append_variables(&mut css, base);
    push_str(&mut css, "}");
    let ghost before_dark = css@;
    if !dark.is_empty() {
        push_str(&mut css, "\n\n.dark,\n[data-theme=\"dark\"] {\n");
        append_variables(&mut css, dark);
        push_str(&mut css, "}");
    }
    push_str(&mut css, "\n");
    proof {
        if dark.entries().len() == 0 {
            assert(css@ =~= render_css_spec(base.entries(), dark.entries()));
        } else {
            assert(css@ =~= render_css_spec(base.entries(), dark.entries()));
        }
    }
    css
}

} // verus!
