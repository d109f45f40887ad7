//! The collections and modes a DTCG resolver describes, for Figma.

use vstd::prelude::*;
use crate::json::{field, field_of, json_get, Json};
use crate::tailwind_v4::resolver::{
    collect_ref_array, collect_ref_array_from_value, foundation_path, ref_array_spec, ref_items_spec,
    views,
};
use crate::text::{
    cat3, cat5, chars_of, is_ascii_alphanumeric, push_char, push_str, spec_is_ascii_alphanumeric,
    spec_to_ascii_uppercase, string_of, to_ascii_uppercase,
};

verus! {

/// The ASCII letters and digits of `s`, each run starting with a capital:
/// other characters only separate the runs.
pub open spec fn collection_chars(s: Seq<char>, at_start: bool) -> Seq<char>
    decreases s.len(),
{
    if s.len() == 0 {
        Seq::empty()
    } else if spec_is_ascii_alphanumeric(s[0]) {
        seq![if at_start { spec_to_ascii_uppercase(s[0]) } else { s[0] }] + collection_chars(s.drop_first(), false)
    } else {
        collection_chars(s.drop_first(), true)
    }
}

/// The Figma collection name of modifier `name`, such as `Theme` for `theme`.
pub open spec fn collection_name_spec(name: Seq<char>) -> Result<Seq<char>, Seq<char>> {
    let c = collection_chars(name, true);
    if c.len() == 0 {
        Err("invalid modifier name `"@ + name + "`: expected ASCII letters or numbers"@)
    } else {
        Ok(c)
    }
}

/// The modes of the first `n` contexts of modifier `modifier`.
pub open spec fn contexts_upto(modifier: Seq<char>, contexts: Seq<(String, Json)>, n: int) -> Result<Seq<(Seq<char>, Seq<Seq<char>>)>, Seq<char>>
    decreases n,
{
    if n <= 0 {
        Ok(Seq::empty())
    } else {
        match contexts_upto(modifier, contexts, n - 1) {
            Err(e) => Err(e),
            Ok(done) => {
                let name = contexts[n - 1].0@;
                match ref_items_spec(contexts[n - 1].1, "modifiers."@ + modifier + ".contexts."@ + name) {
                    Err(e) => Err(e),
                    Ok(refs) => Ok(done.push((name, refs))),
                }
            },
        }
    }
}

/// The collections of the first `n` modifiers.
pub open spec fn modifiers_upto(modifiers: Seq<(String, Json)>, n: int) -> Result<Seq<(Seq<char>, Seq<(Seq<char>, Seq<Seq<char>>)>)>, Seq<char>>
    decreases n,
{
    if n <= 0 {
        Ok(Seq::empty())
    } else {
        match modifiers_upto(modifiers, n - 1) {
            Err(e) => Err(e),
            Ok(done) => {
                let name = modifiers[n - 1].0@;
                match json_get(modifiers[n - 1].1, "contexts"@) {
                    Some(Json::Object(contexts)) => match contexts_upto(name, contexts@, contexts@.len() as int) {
                        Err(e) => Err(e),
                        Ok(modes) => match collection_name_spec(name) {
                            Err(e) => Err(e),
                            Ok(collection) => Ok(done.push((collection, modes))),
                        },
                    },
                    _ => Err("missing resolver `modifiers."@ + name + ".contexts`"@),
                }
            },
        }
    }
}

/// The collections of a resolver: `Foundation` with the one mode `default`
/// holding the foundation set, then one per modifier with a mode per context.
pub open spec fn collections_spec(resolver: Json) -> Result<Seq<(Seq<char>, Seq<(Seq<char>, Seq<Seq<char>>)>)>, Seq<char>> {
    match ref_array_spec(resolver, foundation_path()) {
        Err(e) => Err(e),
        Ok(foundation) => match json_get(resolver, "modifiers"@) {
            Some(Json::Object(modifiers)) => match modifiers_upto(modifiers@, modifiers@.len() as int) {
                Err(e) => Err(e),
                Ok(rest) => Ok(seq![("Foundation"@, seq![("default"@, foundation)])] + rest),
            },
            _ => Err("missing resolver `modifiers`"@),
        },
    }
}

/// A mode of a collection and the token files it merges.
pub struct ResolverMode {
    pub name: String,
    pub refs: Vec<String>,
}

/// A Figma collection and its modes.
pub struct ResolverCollection {
    pub name: String,
    pub modes: Vec<ResolverMode>,
}

pub open spec fn modes_view(modes: Seq<ResolverMode>) -> Seq<(Seq<char>, Seq<Seq<char>>)> {
    modes.map_values(|m: ResolverMode| (m.name@, views(m.refs@)))
}

pub open spec fn collections_view(collections: Seq<ResolverCollection>) -> Seq<(Seq<char>, Seq<(Seq<char>, Seq<Seq<char>>)>)> {
    collections.map_values(|c: ResolverCollection| (c.name@, modes_view(c.modes@)))
}

/// The Figma collection name of a modifier.
pub fn collection_name(name: &str) -> (r: Result<String, String>)
    ensures
        crate::text::result_view(r) == collection_name_spec(name@),
{
    let cs = chars_of(name);
    let mut out = String::new();
    let mut at_start = true;
    let mut i: usize = 0;
    assert(cs@.skip(0) == cs@);
    while i < cs.len()
        invariant
            i <= cs@.len(),
            cs@ == name@,
            collection_chars(cs@, true) == out@ + collection_chars(cs@.skip(i as int), at_start),
        decreases cs@.len() - i,
    {
        assert(cs@.skip(i as int)[0] == cs@[i as int]);
        assert(cs@.skip(i as int).drop_first() == cs@.skip(i + 1int));
        let c = cs[i];
        if is_ascii_alphanumeric(c) {
            let d = if at_start { to_ascii_uppercase(c) } else { c };
            let ghost before = out@;
            push_char(&mut out, d);
            proof {
                assert(before + (seq![d] + collection_chars(cs@.skip(i + 1int), false)) =~= out@ + collection_chars(cs@.skip(i + 1int), false));
            }
            at_start = false;
        } else {
            at_start = true;
        }
        i = i + 1;
    }
    proof {
        assert(cs@.skip(i as int).len() == 0);
        assert(out@ + collection_chars(cs@.skip(i as int), at_start) =~= out@);
    }
    if out.as_str().is_empty() {
        return Err(cat3("invalid modifier name `", name, "`: expected ASCII letters or numbers"));
    }
    Ok(out)
}

/// The modes of a modifier's contexts.
fn collect_modes(modifier: &str, contexts: &Vec<(String, Json)>) -> (r: Result<Vec<ResolverMode>, String>)
    ensures
        match contexts_upto(modifier@, contexts@, contexts@.len() as int) {
            Ok(m) => r matches Ok(v) && modes_view(v@) == m,
            Err(e) => r matches Err(m) && m@ == e,
        },
{
    let mut modes: Vec<ResolverMode> = Vec::new();
    let mut i: usize = 0;
    assert(modes_view(modes@) =~= Seq::<(Seq<char>, Seq<Seq<char>>)>::empty());
    while i < contexts.len()
        invariant
            i <= contexts@.len(),
            contexts_upto(modifier@, contexts@, i as int) == Ok::<Seq<(Seq<char>, Seq<Seq<char>>)>, Seq<char>>(modes_view(modes@)),
        decreases contexts@.len() - i,
    {
        let mut label = cat3("modifiers.", modifier, ".contexts.");
        push_str(&mut label, contexts[i].0.as_str());
        let refs = match collect_ref_array_from_value(&contexts[i].1, label.as_str()) {
            Ok(refs) => refs,
            Err(e) => {
                proof { lemma_contexts_stop(modifier@, contexts@, i as int + 1); }
                return Err(e);
            },
        };
        let ghost before = modes@;
        modes.push(ResolverMode { name: contexts[i].0.clone(), refs });
        proof {
            assert(modes_view(modes@) =~= modes_view(before).push((contexts@[i as int].0@, views(refs@))));
        }
        i = i + 1;
    }
    Ok(modes)
}

proof fn lemma_contexts_stop(modifier: Seq<char>, contexts: Seq<(String, Json)>, n: int)
    requires
        0 <= n <= contexts.len(),
        contexts_upto(modifier, contexts, n) is Err,
    ensures
        contexts_upto(modifier, contexts, contexts.len() as int) == contexts_upto(modifier, contexts, n),
    decreases contexts.len() - n,
{
    if n < contexts.len() {
        lemma_contexts_stop(modifier, contexts, n + 1);
    }
}

proof fn lemma_modifiers_stop(modifiers: Seq<(String, Json)>, n: int)
    requires
        0 <= n <= modifiers.len(),
        modifiers_upto(modifiers, n) is Err,
    ensures
        modifiers_upto(modifiers, modifiers.len() as int) == modifiers_upto(modifiers, n),
    decreases modifiers.len() - n,
{
    if n < modifiers.len() {
        lemma_modifiers_stop(modifiers, n + 1);
    }
}

/// The collections and modes a resolver describes.
pub fn collect_resolver_collections(resolver: &Json) -> (r: Result<Vec<ResolverCollection>, String>)
    ensures
        match collections_spec(*resolver) {
            Ok(c) => r matches Ok(v) && collections_view(v@) == c,
            Err(e) => r matches Err(m) && m@ == e,
        },
{
    let fp: [&str; 3] = ["sets", "foundation", "sources"];
    proof {
        assert(fp@.map_values(|s: &str| s@) =~= foundation_path());
    }
    let foundation = match collect_ref_array(resolver, &fp) {
        Ok(v) => v,
        Err(e) => return Err(e),
    };
    let ghost foundation_refs = views(foundation@);
    let mut collections: Vec<ResolverCollection> = Vec::new();
    let mut default_modes: Vec<ResolverMode> = Vec::new();
    default_modes.push(ResolverMode { name: string_of("default"), refs: foundation });
    collections.push(ResolverCollection { name: string_of("Foundation"), modes: default_modes });
    let ghost first = collections_view(collections@);
    proof {
        assert(modes_view(default_modes@) =~= seq![("default"@, views(foundation@))]);
        assert(first =~= seq![("Foundation"@, seq![("default"@, views(foundation@))])]);
    }
    let modifiers = match crate::json::get(resolver, "modifiers") {
        Some(Json::Object(modifiers)) => modifiers,
        _ => return Err(string_of("missing resolver `modifiers`")),
    };
    let mut i: usize = 0;
    assert(modifiers_upto(modifiers@, 0) == Ok::<Seq<(Seq<char>, Seq<(Seq<char>, Seq<Seq<char>>)>)>, Seq<char>>(Seq::empty()));
    while i < modifiers.len()
        invariant
            i <= modifiers@.len(),
            ref_array_spec(*resolver, foundation_path()) == Ok::<Seq<Seq<char>>, Seq<char>>(foundation_refs),
            first == seq![("Foundation"@, seq![("default"@, foundation_refs)])],
            json_get(*resolver, "modifiers"@) == Some(Json::Object(*modifiers)),
            modifiers_upto(modifiers@, i as int) matches Ok(done) && collections_view(collections@) == first + done,
        decreases modifiers@.len() - i,
    {
        let name = modifiers[i].0.as_str();
        let contexts = match crate::json::get(&modifiers[i].1, "contexts") {
            Some(Json::Object(contexts)) => contexts,
            _ => {
                proof { lemma_modifiers_stop(modifiers@, i as int + 1); }
                return Err(cat3("missing resolver `modifiers.", name, ".contexts`"));
            },
        };
        let modes = match collect_modes(name, contexts) {
            Ok(m) => m,
            Err(e) => {
                proof { lemma_modifiers_stop(modifiers@, i as int + 1); }
                return Err(e);
            },
        };
        let collection = match collection_name(name) {
            Ok(c) => c,
            Err(e) => {
                proof { lemma_modifiers_stop(modifiers@, i as int + 1); }
                return Err(e);
            },
        };
        let ghost before = collections@;
        let ghost done = modifiers_upto(modifiers@, i as int)->Ok_0;
        collections.push(ResolverCollection { name: collection, modes });
        proof {
            assert(collections_view(collections@) =~= collections_view(before).push((collection@, modes_view(modes@))));
            assert(first + done.push((collection@, modes_view(modes@))) =~= (first + done).push((collection@, modes_view(modes@))));
        }
        i = i + 1;
    }
    Ok(collections)
}

} // verus!
