//! Tailwind CSS v4 theme variables from DTCG token files.

pub mod names;
pub mod alias;
pub mod alias_typography;
pub mod value_format;
pub mod values;
pub mod css;
pub mod token;
pub mod color;
pub mod radius;
pub mod spacing;
pub mod typography_fields;
pub mod typography_validate;
pub mod typography;
pub mod token_file;
pub mod resolver;

use vstd::prelude::*;
use crate::json::Json;
use crate::ordered_map::{insert_all, lemma_insert_all_concat};
use css::{render_css, render_css_spec, CssVariables};
use resolver::{collect_resolver_refs, resolver_refs_spec, views};
use token::chain;
use token_file::{collect_token_file_variables, token_file_spec};
use crate::text::{cat3, push_str, result_view};

verus! {

/// The file the generated stylesheet is written to.
pub const TAILWIND_V4_THEME_FILE: &'static str = "theme.css";

/// Why a token file named by the resolver could not be had.
pub enum SourceError {
    /// The file could not be read; the message says why.
    Load(String),
    /// The file is not JSON; the message is the parser's.
    Parse(String),
}

/// A token file named by the resolver, as it was read and parsed. The files
/// are given in the order the resolver names them: the `k`-th source answers
/// the `k`-th `$ref` of the foundation, then light, then dark arrays, so a
/// file named twice is read twice.
pub type TokenSource = Result<Json, SourceError>;

/// The source at position `k`, if it has been read.
pub open spec fn source_at(sources: Seq<TokenSource>, k: int) -> Option<TokenSource> {
    if 0 <= k < sources.len() {
        Some(sources[k])
    } else {
        None
    }
}

/// A token file, or the error its reading gave.
pub open spec fn loaded_spec(reference: Seq<char>, content: Result<Json, SourceError>) -> Result<Json, Seq<char>> {
    match content {
        Ok(file) => Ok(file),
        Err(SourceError::Load(e)) => Err("failed to load resolver $ref `"@ + reference + "`: "@ + e@),
        Err(SourceError::Parse(e)) => Err("failed to parse token source `"@ + reference + "`: "@ + e@),
    }
}

/// The variables the files `refs` set, file after file, `refs[i]` being read
/// as source `k + i`; the first error wins.
pub open spec fn refs_spec(refs: Seq<Seq<char>>, sources: Seq<TokenSource>, k: int) -> Result<Seq<(Seq<char>, Seq<char>)>, Seq<char>>
    decreases refs.len(),
{
    if refs.len() == 0 {
        Ok(Seq::empty())
    } else {
        match source_at(sources, k) {
            // a file not read yet: ruled out by requiring that nothing is pending
            None => Err(Seq::empty()),
            Some(content) => match loaded_spec(refs[0], content) {
                Err(e) => Err(e),
                Ok(file) => chain(token_file_spec(refs[0], file), refs_spec(refs.drop_first(), sources, k + 1)),
            },
        }
    }
}

/// The next token file the conversion of `refs` (read from source `k` on)
/// would read: the first not read yet, provided every file before it loads
/// and converts without error. `None` once every file has been read or
/// one of them failed.
pub open spec fn pending_ref(refs: Seq<Seq<char>>, sources: Seq<TokenSource>, k: int) -> Option<Seq<char>>
    decreases refs.len(),
{
    if refs.len() == 0 {
        None
    } else {
        match source_at(sources, k) {
            None => Some(refs[0]),
            Some(content) => match loaded_spec(refs[0], content) {
                Err(_) => None,
                Ok(file) => match token_file_spec(refs[0], file) {
                    Err(_) => None,
                    Ok(_) => pending_ref(refs.drop_first(), sources, k + 1),
                },
            },
        }
    }
}

/// The next token file the conversion of a resolver would read: the
/// foundation files, then the light, then the dark theme files, in order,
/// one read per `$ref`.
pub open spec fn tailwind_pending(resolver: Json, sources: Seq<TokenSource>) -> Option<Seq<char>> {
    match resolver_refs_spec(resolver) {
        Err(_) => None,
        Ok((f, l, d)) => pending_ref(f + l + d, sources, 0),
    }
}

/// A conversion of files `a` then `b` has nothing pending only if `a` has
/// nothing pending, and `b` has nothing pending once `a` converted.
proof fn lemma_pending_concat(a: Seq<Seq<char>>, b: Seq<Seq<char>>, sources: Seq<TokenSource>, k: int)
    requires
        pending_ref(a + b, sources, k) is None,
    ensures
        pending_ref(a, sources, k) is None,
        refs_spec(a, sources, k) is Ok ==> pending_ref(b, sources, k + a.len()) is None,
    decreases a.len(),
{
    if a.len() == 0 {
        assert(a + b == b);
    } else {
        assert((a + b)[0] == a[0]);
        assert((a + b).drop_first() == a.drop_first() + b);
        match source_at(sources, k) {
            None => {},
            Some(content) => match loaded_spec(a[0], content) {
                Err(_) => {},
                Ok(file) => match token_file_spec(a[0], file) {
                    Err(_) => {},
                    Ok(_) => lemma_pending_concat(a.drop_first(), b, sources, k + 1),
                },
            },
        }
    }
}

/// Files that converted were all read.
proof fn lemma_refs_read(refs: Seq<Seq<char>>, sources: Seq<TokenSource>, k: int)
    requires
        0 <= k,
        refs_spec(refs, sources, k) is Ok,
    ensures
        k + refs.len() <= sources.len() || refs.len() == 0,
    decreases refs.len(),
{
    if refs.len() > 0 {
        lemma_refs_read(refs.drop_first(), sources, k + 1);
    }
}

/// The files are read one per `$ref`, in order, and none after one that
/// failed: what is pending is the `$ref` at the position of the next source
/// to be read, and every file before it was read and converted.
pub proof fn law_pending_is_next_in_order(refs: Seq<Seq<char>>, sources: Seq<TokenSource>)
    requires
        pending_ref(refs, sources, 0) is Some,
    ensures
        sources.len() < refs.len(),
        pending_ref(refs, sources, 0) == Some(refs[sources.len() as int]),
        refs_spec(refs.take(sources.len() as int), sources, 0) is Ok,
{
    lemma_pending_position(refs, sources, 0);
}

proof fn lemma_pending_position(refs: Seq<Seq<char>>, sources: Seq<TokenSource>, k: int)
    requires
        0 <= k <= sources.len(),
        pending_ref(refs, sources, k) is Some,
    ensures
        sources.len() < k + refs.len(),
        pending_ref(refs, sources, k) == Some(refs[sources.len() - k]),
        refs_spec(refs.take(sources.len() - k), sources, k) is Ok,
    decreases refs.len(),
{
    if k == sources.len() {
        assert(refs.take(0) =~= Seq::<Seq<char>>::empty());
    } else {
        let rest = refs.drop_first();
        lemma_pending_position(rest, sources, k + 1);
        let n = sources.len() - k;
        assert(refs.take(n).drop_first() =~= rest.take(n - 1));
        assert(refs.take(n)[0] == refs[0]);
        assert(rest[n - 1] == refs[n]);
    }
}

/// The stylesheet for a resolver: the foundation and light theme files give the
/// `@theme` variables, the dark theme files the dark overrides; a variable set
/// twice keeps its first place and takes its last value.
pub open spec fn tailwind_spec(resolver: Json, sources: Seq<TokenSource>) -> Result<Seq<char>, Seq<char>> {
    match resolver_refs_spec(resolver) {
        Err(e) => Err(e),
        Ok((f, l, d)) => match chain(refs_spec(f, sources, 0), refs_spec(l, sources, f.len() as int)) {
            Err(e) => Err(e),
            Ok(base) => match refs_spec(d, sources, (f.len() + l.len()) as int) {
                Err(e) => Err(e),
                Ok(dark) => Ok(render_css_spec(insert_all(Seq::empty(), base), insert_all(Seq::empty(), dark))),
            },
        },
    }
}

/// The message for a resolver that is not JSON.
pub fn resolver_parse_error(detail: &str) -> (r: String)
    ensures
        r@ == "failed to parse tokens resolver JSON: "@ + detail@,
{
    crate::text::cat2("failed to parse tokens resolver JSON: ", detail)
}

/// Sets the variables of the files `refs`, in order, `refs[i]` being read as
/// source `k + i`.
fn collect_refs(refs: &[String], sources: &[TokenSource], k: usize, variables: &mut CssVariables) -> (r: Result<(), String>)
    requires
        pending_ref(views(refs@), sources@, k as int) is None,
    ensures
        match refs_spec(views(refs@), sources@, k as int) {
            Ok(a) => r is Ok && final(variables).entries() == insert_all(old(variables).entries(), a),
            Err(e) => r matches Err(m) && m@ == e,
        },
{
    let ghost rs = views(refs@);
    let ghost e0 = variables.entries();
    let ghost mut done: Seq<(Seq<char>, Seq<char>)> = Seq::empty();
    let mut i: usize = 0;
    assert(rs.skip(0) == rs);
    assert(insert_all(e0, done) == e0);
    while i < refs.len()
        invariant
            i <= refs@.len(),
            rs == views(refs@),
            i == 0 || k + i <= sources@.len(),
            pending_ref(rs.skip(i as int), sources@, k + i) is None,
            variables.entries() == insert_all(e0, done),
            refs_spec(rs, sources@, k as int) == chain(Ok(done), refs_spec(rs.skip(i as int), sources@, k + i)),
        decreases refs@.len() - i,
    {
        assert(rs.skip(i as int)[0] == refs@[i as int]@);
        assert(rs.skip(i as int).drop_first() == rs.skip(i + 1int));
        let reference = refs[i].as_str();
        if k >= sources.len() || i >= sources.len() - k {
            assert(pending_ref(rs.skip(i as int), sources@, k + i) is Some);
            return Err(String::new());
        }
        let file = match &sources[k + i] {
            Ok(file) => file,
            Err(SourceError::Load(e)) => {
                let mut m = cat3("failed to load resolver $ref `", reference, "`: ");
                push_str(&mut m, e.as_str());
                return Err(m);
            },
            Err(SourceError::Parse(e)) => {
                let mut m = cat3("failed to parse token source `", reference, "`: ");
                push_str(&mut m, e.as_str());
                return Err(m);
            },
        };
        let ghost fr = token_file_spec(reference@, *file);
        match collect_token_file_variables(reference, file, variables) {
            Ok(()) => {},
            Err(e) => return Err(e),
        }
        proof {
            lemma_insert_all_concat(e0, done, fr->Ok_0);
            match refs_spec(rs.skip(i + 1int), sources@, k + i + 1) {
                Ok(b) => {
                    assert(done + fr->Ok_0 + b =~= done + (fr->Ok_0 + b));
                },
                Err(_) => {},
            }
            done = done + fr->Ok_0;
        }
        i = i + 1;
    }
    proof {
        assert(done + Seq::<(Seq<char>, Seq<char>)>::empty() =~= done);
    }
    Ok(())
}

/// Appends copies of `more` to `all`.
fn append_refs(all: &mut Vec<String>, more: &[String])
    ensures
        views(final(all)@) == views(old(all)@) + views(more@),
{
    let ghost a0 = views(all@);
    let mut i: usize = 0;
    while i < more.len()
        invariant
            i <= more@.len(),
            views(all@) == a0 + views(more@).take(i as int),
        decreases more@.len() - i,
    {
        let ghost before = views(all@);
        all.push(more[i].clone());
        proof {
            assert(views(all@) =~= before.push(more@[i as int]@));
            assert(views(more@).take(i + 1int) =~= views(more@).take(i as int).push(more@[i as int]@));
        }
        i = i + 1;
    }
    assert(views(more@).take(more@.len() as int) =~= views(more@));
}

/// The next file the conversion of `refs` would read, as `pending_ref` gives it.
fn pending_in(refs: &[String], sources: &[TokenSource]) -> (r: Option<String>)
    ensures
        match pending_ref(views(refs@), sources@, 0) {
            Some(p) => r matches Some(s) && s@ == p,
            None => r is None,
        },
{
    let ghost rs = views(refs@);
    let mut scratch = CssVariables::new();
    let mut i: usize = 0;
    assert(rs.skip(0) == rs);
    while i < refs.len()
        invariant
            i <= refs@.len(),
            rs == views(refs@),
            pending_ref(rs, sources@, 0) == pending_ref(rs.skip(i as int), sources@, i as int),
        decreases refs@.len() - i,
    {
        assert(rs.skip(i as int)[0] == refs@[i as int]@);
        assert(rs.skip(i as int).drop_first() == rs.skip(i + 1int));
        if i >= sources.len() {
            return Some(refs[i].clone());
        }
        let file = match &sources[i] {
            Ok(file) => file,
            Err(_) => return None,
        };
        match collect_token_file_variables(refs[i].as_str(), file, &mut scratch) {
            Ok(()) => {},
            Err(_) => return None,
        }
        i = i + 1;
    }
    assert(rs.skip(i as int).len() == 0);
    None
}

/// The next token file to read for `convert_resolver_to_tailwind_v4`, given the
/// files read so far, one per `$ref` in the resolver's order (foundation, then
/// light, then dark theme files): the `$ref` at the position of the next
/// source, as long as every earlier file loaded and converted. `None` when the
/// conversion can run: every file has been read, one of them failed, or the
/// resolver itself is invalid.
pub fn next_tailwind_ref(resolver: &Json, sources: &[TokenSource]) -> (r: Option<String>)
    ensures
        match tailwind_pending(*resolver, sources@) {
            Some(p) => r matches Some(s) && s@ == p,
            None => r is None,
        },
{
    let refs = match collect_resolver_refs(resolver) {
        Ok(refs) => refs,
        Err(_) => return None,
    };
    let mut all: Vec<String> = Vec::new();
    assert(views(all@) =~= Seq::<Seq<char>>::empty());
    append_refs(&mut all, refs.foundation.as_slice());
    append_refs(&mut all, refs.light.as_slice());
    append_refs(&mut all, refs.dark.as_slice());
    proof {
        assert(Seq::<Seq<char>>::empty() + views(refs.foundation@) =~= views(refs.foundation@));
    }
    pending_in(all.as_slice(), sources)
}

/// Converts a DTCG resolver and its token files into Tailwind CSS v4 theme
/// variables. `sources` holds the token files the resolver names, one per
/// `$ref` in order, as read and parsed, up to the first that failed (see
/// `next_tailwind_ref`); the first error stops the conversion.
pub fn convert_resolver_to_tailwind_v4(resolver: &Json, sources: &[TokenSource]) -> (r: Result<String, String>)
    requires
        tailwind_pending(*resolver, sources@) is None,
    ensures
        result_view(r) == tailwind_spec(*resolver, sources@),
{
    let refs = match collect_resolver_refs(resolver) {
        Ok(refs) => refs,
        Err(e) => return Err(e),
    };
    let ghost f = views(refs.foundation@);
    let ghost l = views(refs.light@);
    let ghost d = views(refs.dark@);
    proof {
        assert(f + l + d == f + (l + d));
        lemma_pending_concat(f, l + d, sources@, 0);
        if refs_spec(f, sources@, 0) is Ok {
            lemma_pending_concat(l, d, sources@, f.len() as int);
        }
    }
    let mut base = CssVariables::new();
    let mut dark = CssVariables::new();
    match collect_refs(refs.foundation.as_slice(), sources, 0, &mut base) {
        Ok(()) => {},
        Err(e) => return Err(e),
    }
    proof {
        lemma_refs_read(f, sources@, 0);
        assert(f.len() == refs.foundation@.len());
    }
    let nf = refs.foundation.len();
    let ghost fa = refs_spec(f, sources@, 0)->Ok_0;
    match collect_refs(refs.light.as_slice(), sources, nf, &mut base) {
        Ok(()) => {},
        Err(e) => return Err(e),
    }
    proof {
        lemma_insert_all_concat(Seq::empty(), fa, refs_spec(l, sources@, f.len() as int)->Ok_0);
        lemma_refs_read(l, sources@, f.len() as int);
        assert(f.len() == nf && l.len() == refs.light@.len());
    }
    let total = sources.len();
    let nd: usize = if refs.light.len() == 0 {
        nf
    } else {
        assert(nf + refs.light.len() <= total);
        nf + refs.light.len()
    };
    match collect_refs(refs.dark.as_slice(), sources, nd, &mut dark) {
        Ok(()) => {},
        Err(e) => return Err(e),
    }
    Ok(render_css(&base, &dark))
}

} // verus!
