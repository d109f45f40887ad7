//! Figma Variables import files from a DTCG resolver and its token files.

pub mod resolver;
pub mod values;
pub mod token_file;
pub mod typography;
pub mod alias;

use vstd::prelude::*;
use crate::json::{jmembers, lemma_jobject, JView, Json};
use crate::tailwind_v4::resolver::views;
use crate::tailwind_v4::{loaded_spec, source_at, SourceError, TokenSource};
use crate::text::{cat3, push_str, string_of};
use alias::{
    add_alias_extensions, build_alias_index, ext_node_spec, files_events, first_segment, index_upto,
    index_view, TargetView, TokenTarget,
};
use resolver::{collect_resolver_collections, collections_spec, collections_view, ResolverCollection};
use token_file::{merge_token_file, merge_token_file_spec};

verus! {

/// A generated Figma mode file: `Collection/mode.tokens.json` and its JSON.
#[derive(Debug)]
pub struct GeneratedFigmaFile {
    pub path: String,
    pub json: Json,
}

/// The generated Figma mode files, in the order they are written.
#[derive(Debug)]
pub struct GeneratedFigmaTokens {
    pub files: Vec<GeneratedFigmaFile>,
}

/// The modes of one collection, each with the collection's name.
pub open spec fn collection_modes(c: (Seq<char>, Seq<(Seq<char>, Seq<Seq<char>>)>)) -> Seq<(Seq<char>, Seq<char>, Seq<Seq<char>>)> {
    c.1.map_values(|m: (Seq<char>, Seq<Seq<char>>)| (c.0, m.0, m.1))
}

/// The modes of all collections, in order.
pub open spec fn mode_list(collections: Seq<(Seq<char>, Seq<(Seq<char>, Seq<Seq<char>>)>)>) -> Seq<(Seq<char>, Seq<char>, Seq<Seq<char>>)>
    decreases collections.len(),
{
    if collections.len() == 0 {
        Seq::empty()
    } else {
        mode_list(collections.drop_last()) + collection_modes(collections.last())
    }
}

/// The members of a mode after merging its first `n` token files, its file
/// `j` being read as source `base + j`.
pub open spec fn mode_refs_spec(refs: Seq<Seq<char>>, sources: Seq<TokenSource>, base: int, n: int) -> Result<Seq<(Seq<char>, JView)>, Seq<char>>
    decreases n,
{
    if n <= 0 {
        Ok(Seq::empty())
    } else {
        match mode_refs_spec(refs, sources, base, n - 1) {
            Err(e) => Err(e),
            Ok(done) => match source_at(sources, base + n - 1) {
                // a file not read yet: ruled out by requiring that nothing is pending
                None => Err(Seq::empty()),
                Some(content) => match loaded_spec(refs[n - 1], content) {
                    Err(e) => Err(e),
                    Ok(file) => merge_token_file_spec(refs[n - 1], file.jview(), done),
                },
            },
        }
    }
}

/// The path of the file of a mode.
pub open spec fn mode_path(collection: Seq<char>, mode: Seq<char>) -> Seq<char> {
    collection + "/"@ + mode + ".tokens.json"@
}

/// The files of the first `n` modes, in order.
pub open spec fn mode_files_upto(modes: Seq<(Seq<char>, Seq<char>, Seq<Seq<char>>)>, sources: Seq<TokenSource>, n: int) -> Result<Seq<(Seq<char>, JView)>, Seq<char>>
    decreases n,
{
    if n <= 0 {
        Ok(Seq::empty())
    } else {
        match mode_files_upto(modes, sources, n - 1) {
            Err(e) => Err(e),
            Ok(done) => match mode_refs_spec(modes[n - 1].2, sources, refs_before(modes, n - 1), modes[n - 1].2.len() as int) {
                Err(e) => Err(e),
                Ok(root) => Ok(done.push((mode_path(modes[n - 1].0, modes[n - 1].1), JView::Object(root)))),
            },
        }
    }
}

/// How many token files the first `n` modes name: the position of the first
/// source of mode `n`.
#[verifier::opaque]
pub open spec fn refs_before(modes: Seq<(Seq<char>, Seq<char>, Seq<Seq<char>>)>, n: int) -> int
    decreases n,
{
    if n <= 0 {
        0
    } else {
        refs_before(modes, n - 1) + modes[n - 1].2.len()
    }
}

/// The first `n` files with their aliases resolved.
pub open spec fn resolved_files_upto(files: Seq<(Seq<char>, JView)>, index: Seq<(Seq<char>, Seq<TargetView>)>, n: int) -> Result<Seq<(Seq<char>, JView)>, Seq<char>>
    decreases n,
{
    if n <= 0 {
        Ok(Seq::empty())
    } else {
        match resolved_files_upto(files, index, n - 1) {
            Err(e) => Err(e),
            Ok(done) => match ext_node_spec(files[n - 1].0, first_segment(files[n - 1].0), files[n - 1].1, Seq::empty(), None, index) {
                Err(e) => Err(e),
                Ok(v) => Ok(done.push((files[n - 1].0, v))),
            },
        }
    }
}

/// The next token file the merge of a mode's first `n` files (read from source
/// `base` on) would read: the first not read yet, provided every file before it
/// loaded and merged.
pub open spec fn mode_pending_upto(refs: Seq<Seq<char>>, sources: Seq<TokenSource>, base: int, n: int) -> Option<Seq<char>>
    decreases n,
{
    if n <= 0 {
        None
    } else {
        match mode_pending_upto(refs, sources, base, n - 1) {
            Some(p) => Some(p),
            None => match mode_refs_spec(refs, sources, base, n - 1) {
                Err(_) => None,
                Ok(_) => match source_at(sources, base + n - 1) {
                    None => Some(refs[n - 1]),
                    Some(_) => None,
                },
            },
        }
    }
}

/// The next token file the first `n` modes would read, mode after mode.
#[verifier::opaque]
pub open spec fn files_pending_upto(modes: Seq<(Seq<char>, Seq<char>, Seq<Seq<char>>)>, sources: Seq<TokenSource>, n: int) -> Option<Seq<char>>
    decreases n,
{
    if n <= 0 {
        None
    } else {
        match files_pending_upto(modes, sources, n - 1) {
            Some(p) => Some(p),
            None => match mode_files_upto(modes, sources, n - 1) {
                Err(_) => None,
                Ok(_) => mode_pending_upto(modes[n - 1].2, sources, refs_before(modes, n - 1), modes[n - 1].2.len() as int),
            },
        }
    }
}

/// The next token file the Figma export of a resolver would read: files are
/// read mode after mode, one per `$ref` of each mode in order, and none after
/// one that failed to load or merge.
pub open spec fn figma_pending(resolver: Json, sources: Seq<TokenSource>) -> Option<Seq<char>> {
    match collections_spec(resolver) {
        Err(_) => None,
        Ok(c) => files_pending_upto(mode_list(c), sources, mode_list(c).len() as int),
    }
}

/// The Figma files of a resolver: one per mode of each collection, merging
/// the mode's token files in order, then with every alias resolved across
/// all of them.
pub open spec fn figma_spec(resolver: Json, sources: Seq<TokenSource>) -> Result<Seq<(Seq<char>, JView)>, Seq<char>> {
    match collections_spec(resolver) {
        Err(e) => Err(e),
        Ok(collections) => {
            let modes = mode_list(collections);
            match mode_files_upto(modes, sources, modes.len() as int) {
                Err(e) => Err(e),
                Ok(files) => match files_events(files, files.len() as int) {
                    Err(e) => Err(e),
                    Ok(events) => resolved_files_upto(files, index_upto(Seq::empty(), events, events.len() as int), files.len() as int),
                },
            }
        },
    }
}

pub open spec fn figma_files_view(files: Seq<GeneratedFigmaFile>) -> Seq<(Seq<char>, JView)> {
    files.map_values(|f: GeneratedFigmaFile| (f.path@, f.json.jview()))
}

/// A mode to write: its collection, its name and its token files.
pub struct ModeEntry {
    pub collection: String,
    pub mode: String,
    pub refs: Vec<String>,
}

pub open spec fn entries_view(entries: Seq<ModeEntry>) -> Seq<(Seq<char>, Seq<char>, Seq<Seq<char>>)> {
    entries.map_values(|e: ModeEntry| (e.collection@, e.mode@, views(e.refs@)))
}

/// A copy of a list of strings.
fn copy_strings(v: &Vec<String>) -> (r: Vec<String>)
    ensures
        views(r@) == views(v@),
{
    let mut out: Vec<String> = Vec::new();
    let mut i: usize = 0;
    while i < v.len()
        invariant
            i <= v@.len(),
            views(out@) == views(v@).take(i as int),
        decreases v@.len() - i,
    {
        let ghost before = out@;
        out.push(v[i].clone());
        proof {
            assert(views(before).len() == before.len());
            assert(views(v@).take(i as int).len() == i);
            assert(out@ == before.push(out@[i as int]));
            assert forall|j: int| 0 <= j < i + 1 implies #[trigger] views(out@)[j] == views(v@).take(i + 1int)[j] by {
                if j < i {
                    assert(out@[j] == before[j]);
                    assert(views(before)[j] == views(v@).take(i as int)[j]);
                }
            }
            assert(views(out@) =~= views(v@).take(i + 1int));
        }
        i = i + 1;
    }
    proof {
        assert(views(v@).take(v@.len() as int) =~= views(v@));
    }
    out
}

/// The modes of all collections, in order.
fn flatten_modes(collections: &Vec<ResolverCollection>) -> (r: Vec<ModeEntry>)
    ensures
        entries_view(r@) == mode_list(collections_view(collections@)),
{
    let ghost cs = collections_view(collections@);
    let mut out: Vec<ModeEntry> = Vec::new();
    let mut ci: usize = 0;
    assert(cs.take(0) =~= Seq::<(Seq<char>, Seq<(Seq<char>, Seq<Seq<char>>)>)>::empty());
    assert(entries_view(out@) =~= Seq::<(Seq<char>, Seq<char>, Seq<Seq<char>>)>::empty());
    while ci < collections.len()
        invariant
            ci <= collections@.len(),
            cs == collections_view(collections@),
            entries_view(out@) == mode_list(cs.take(ci as int)),
        decreases collections@.len() - ci,
    {
        let ghost base = entries_view(out@);
        let ghost cm = collection_modes(cs[ci as int]);
        assert(cs[ci as int] == (collections@[ci as int].name@, resolver::modes_view(collections@[ci as int].modes@)));
        let modes = &collections[ci].modes;
        let mut mi: usize = 0;
        assert(base + cm.take(0) =~= base);
        while mi < modes.len()
            invariant
                ci < collections@.len(),
                mi <= modes@.len(),
                *modes == collections@[ci as int].modes,
                cm == collection_modes(cs[ci as int]),
                cs[ci as int] == (collections@[ci as int].name@, resolver::modes_view(collections@[ci as int].modes@)),
                entries_view(out@) == base + cm.take(mi as int),
            decreases modes@.len() - mi,
        {
            let ghost before = out@;
            let entry = ModeEntry {
                collection: collections[ci].name.clone(),
                mode: modes[mi].name.clone(),
                refs: copy_strings(&modes[mi].refs),
            };
            out.push(entry);
            proof {
                assert(cm[mi as int] == (collections@[ci as int].name@, modes@[mi as int].name@, views(modes@[mi as int].refs@)));
                assert(entries_view(before).len() == before.len());
                assert(entries_view(out@) =~= entries_view(before).push(cm[mi as int]));
                assert(base + cm.take(mi + 1int) =~= (base + cm.take(mi as int)).push(cm[mi as int]));
            }
            mi = mi + 1;
        }
        proof {
            assert(cm.take(modes@.len() as int) =~= cm);
            assert(cs.take(ci + 1int).drop_last() =~= cs.take(ci as int));
            assert(cs.take(ci + 1int).last() == cs[ci as int]);
        }
        ci = ci + 1;
    }
    proof {
        assert(cs.take(collections@.len() as int) =~= cs);
    }
    out
}

proof fn lemma_mode_refs_stop(refs: Seq<Seq<char>>, sources: Seq<TokenSource>, base: int, n: int)
    requires
        0 <= n <= refs.len(),
        mode_refs_spec(refs, sources, base, n) is Err,
    ensures
        mode_refs_spec(refs, sources, base, refs.len() as int) == mode_refs_spec(refs, sources, base, n),
    decreases refs.len() - n,
{
    if n < refs.len() {
        lemma_mode_refs_stop(refs, sources, base, n + 1);
    }
}

/// What gathering the token files of a mode, or of all modes, came to.
enum Gathered<T> {
    /// Every file was read and merged.
    Done(T),
    /// A file failed to load or to merge; the message says why.
    Failed(String),
    /// This file has not been read yet.
    Missing(String),
}

/// Once a mode's merge has a pending file or has failed, later files change
/// neither.
proof fn lemma_mode_pending_keep(refs: Seq<Seq<char>>, sources: Seq<TokenSource>, base: int, n: int, m: int)
    requires
        0 <= n <= m,
        mode_pending_upto(refs, sources, base, n) is Some || mode_refs_spec(refs, sources, base, n) is Err,
    ensures
        mode_pending_upto(refs, sources, base, m) == mode_pending_upto(refs, sources, base, n),
        mode_refs_spec(refs, sources, base, n) is Err ==> mode_refs_spec(refs, sources, base, m) is Err,
    decreases m - n,
{
    if m > n {
        lemma_mode_pending_keep(refs, sources, base, n, m - 1);
    }
}

/// The members of a mode: its token files merged in order, file `j` being
/// read as source `base + j`.
fn build_mode(refs: &Vec<String>, sources: &[TokenSource], base: usize) -> (r: Gathered<Vec<(String, Json)>>)
    ensures
        match r {
            Gathered::Done(v) => mode_refs_spec(views(refs@), sources@, base as int, refs@.len() as int) == Ok::<Seq<(Seq<char>, JView)>, Seq<char>>(jmembers(v@))
                && mode_pending_upto(views(refs@), sources@, base as int, refs@.len() as int) is None
                && (refs@.len() == 0 || base + refs@.len() <= sources@.len()),
            Gathered::Failed(e) => mode_refs_spec(views(refs@), sources@, base as int, refs@.len() as int) == Err::<Seq<(Seq<char>, JView)>, Seq<char>>(e@)
                && mode_pending_upto(views(refs@), sources@, base as int, refs@.len() as int) is None,
            Gathered::Missing(p) => mode_pending_upto(views(refs@), sources@, base as int, refs@.len() as int) == Some(p@),
        },
{
    let ghost rs = views(refs@);
    let ghost n = refs@.len() as int;
    let mut root: Vec<(String, Json)> = Vec::new();
    let mut i: usize = 0;
    assert(jmembers(root@) =~= Seq::<(Seq<char>, JView)>::empty());
    while i < refs.len()
        invariant
            i <= refs@.len(),
            rs == views(refs@),
            n == refs@.len(),
            i == 0 || base + i <= sources@.len(),
            mode_refs_spec(rs, sources@, base as int, i as int) == Ok::<Seq<(Seq<char>, JView)>, Seq<char>>(jmembers(root@)),
            mode_pending_upto(rs, sources@, base as int, i as int) is None,
        decreases refs@.len() - i,
    {
        assert(rs[i as int] == refs@[i as int]@);
        let reference = refs[i].as_str();
        if base >= sources.len() || i >= sources.len() - base {
            proof { lemma_mode_pending_keep(rs, sources@, base as int, i as int + 1, n); }
            return Gathered::Missing(refs[i].clone());
        }
        let file = match &sources[base + i] {
            Ok(file) => file,
            Err(SourceError::Load(e)) => {
                let mut m = cat3("failed to load resolver $ref `", reference, "`: ");
                push_str(&mut m, e.as_str());
                proof {
                    lemma_mode_refs_stop(rs, sources@, base as int, i as int + 1);
                    lemma_mode_pending_keep(rs, sources@, base as int, i as int + 1, n);
                }
                return Gathered::Failed(m);
            },
            Err(SourceError::Parse(e)) => {
                let mut m = cat3("failed to parse token source `", reference, "`: ");
                push_str(&mut m, e.as_str());
                proof {
                    lemma_mode_refs_stop(rs, sources@, base as int, i as int + 1);
                    lemma_mode_pending_keep(rs, sources@, base as int, i as int + 1, n);
                }
                return Gathered::Failed(m);
            },
        };
        match merge_token_file(reference, file, &mut root) {
            Ok(()) => {},
            Err(e) => {
                proof {
                    lemma_mode_refs_stop(rs, sources@, base as int, i as int + 1);
                    lemma_mode_pending_keep(rs, sources@, base as int, i as int + 1, n);
                }
                return Gathered::Failed(e);
            },
        }
        i = i + 1;
    }
    Gathered::Done(root)
}

/// Once the modes have a pending file or have failed, later modes change
/// neither.
proof fn lemma_files_pending_keep(modes: Seq<(Seq<char>, Seq<char>, Seq<Seq<char>>)>, sources: Seq<TokenSource>, n: int, m: int)
    requires
        0 <= n <= m,
        files_pending_upto(modes, sources, n) is Some || mode_files_upto(modes, sources, n) is Err,
    ensures
        files_pending_upto(modes, sources, m) == files_pending_upto(modes, sources, n),
        mode_files_upto(modes, sources, n) is Err ==> mode_files_upto(modes, sources, m) is Err,
    decreases m - n,
{
    reveal(files_pending_upto);
    if m > n {
        lemma_files_pending_keep(modes, sources, n, m - 1);
    }
}

/// One more mode: its file is added, or its error or pending file is the
/// outcome.
proof fn lemma_files_step(ms: Seq<(Seq<char>, Seq<char>, Seq<Seq<char>>)>, sources: Seq<TokenSource>, i: int)
    requires
        0 <= i < ms.len(),
        mode_files_upto(ms, sources, i) is Ok,
        files_pending_upto(ms, sources, i) is None,
    ensures
        mode_files_upto(ms, sources, i + 1) == match mode_refs_spec(ms[i].2, sources, refs_before(ms, i), ms[i].2.len() as int) {
            Err(e) => Err(e),
            Ok(root) => Ok::<Seq<(Seq<char>, JView)>, Seq<char>>(mode_files_upto(ms, sources, i)->Ok_0.push((mode_path(ms[i].0, ms[i].1), JView::Object(root)))),
        },
        files_pending_upto(ms, sources, i + 1) == mode_pending_upto(ms[i].2, sources, refs_before(ms, i), ms[i].2.len() as int),
{
    reveal(files_pending_upto);
}

/// The file of each mode, its token files merged in order.
fn build_mode_files(modes: &Vec<ModeEntry>, sources: &[TokenSource]) -> (r: Gathered<Vec<GeneratedFigmaFile>>)
    ensures
        match r {
            Gathered::Done(v) => mode_files_upto(entries_view(modes@), sources@, modes@.len() as int) == Ok::<Seq<(Seq<char>, JView)>, Seq<char>>(figma_files_view(v@))
                && files_pending_upto(entries_view(modes@), sources@, modes@.len() as int) is None,
            Gathered::Failed(e) => mode_files_upto(entries_view(modes@), sources@, modes@.len() as int) == Err::<Seq<(Seq<char>, JView)>, Seq<char>>(e@)
                && files_pending_upto(entries_view(modes@), sources@, modes@.len() as int) is None,
            Gathered::Missing(p) => files_pending_upto(entries_view(modes@), sources@, modes@.len() as int) == Some(p@),
        },
{
    let ghost ms = entries_view(modes@);
    let ghost n = modes@.len() as int;
    let mut files: Vec<GeneratedFigmaFile> = Vec::new();
    let mut i: usize = 0;
    let mut base: usize = 0;
    let total = sources.len();
    assert(refs_before(ms, 0) == 0) by {
        reveal(refs_before);
    }
    assert(files_pending_upto(ms, sources@, 0) is None) by {
        reveal(files_pending_upto);
    }
    assert(figma_files_view(files@) =~= Seq::<(Seq<char>, JView)>::empty());
    while i < modes.len()
        invariant
            i <= modes@.len(),
            ms == entries_view(modes@),
            n == modes@.len(),
            base == refs_before(ms, i as int),
            base <= total == sources@.len(),
            mode_files_upto(ms, sources@, i as int) == Ok::<Seq<(Seq<char>, JView)>, Seq<char>>(figma_files_view(files@)),
            files_pending_upto(ms, sources@, i as int) is None,
        decreases modes@.len() - i,
    {
        assert(ms[i as int] == (modes@[i as int].collection@, modes@[i as int].mode@, views(modes@[i as int].refs@)));
        let ghost rs = views(modes@[i as int].refs@);
        let ghost len = modes@[i as int].refs@.len() as int;
        assert(ms[i as int].2 == rs && rs.len() == len);
        proof {
            lemma_files_step(ms, sources@, i as int);
        }
        let gathered = build_mode(&modes[i].refs, sources, base);
        let root = match gathered {
            Gathered::Done(root) => root,
            Gathered::Failed(e) => {
                proof {
                    assert(mode_refs_spec(rs, sources@, base as int, len) is Err);
                    assert(mode_files_upto(ms, sources@, i + 1int) is Err);
                    assert(mode_pending_upto(rs, sources@, base as int, len) is None);
                    lemma_mode_files_stop(ms, sources@, i as int + 1);
                    lemma_files_pending_keep(ms, sources@, i as int + 1, n);
                }
                return Gathered::Failed(e);
            },
            Gathered::Missing(p) => {
                proof {
                    assert(files_pending_upto(ms, sources@, i + 1int) == Some(p@));
                    lemma_files_pending_keep(ms, sources@, i as int + 1, n);
                }
                return Gathered::Missing(p);
            },
        };
        let mut path = cat3(modes[i].collection.as_str(), "/", modes[i].mode.as_str());
        push_str(&mut path, ".tokens.json");
        let ghost before = files@;
        proof {
            lemma_jobject(root);
        }
        files.push(GeneratedFigmaFile { path, json: Json::Object(root) });
        proof {
            assert(figma_files_view(files@) =~= figma_files_view(before).push((path@, JView::Object(jmembers(root@)))));
        }
        proof {
            assert(ms[i as int].2.len() == modes@[i as int].refs@.len());
            assert(refs_before(ms, i + 1int) == base + modes@[i as int].refs@.len()) by {
                reveal(refs_before);
            }
        }
        base = base + modes[i].refs.len();
        i = i + 1;
    }
    Gathered::Done(files)
}

/// The next token file to read for `convert_resolver_to_figma`, given the
/// files read so far, one per `$ref` of each mode, mode after mode: the
/// `$ref` at the position of the next source, as long as every earlier file
/// loaded and merged. `None` when the export can run: every file has been
/// read, one failed, or the resolver is invalid.
pub fn next_figma_ref(resolver: &Json, sources: &[TokenSource]) -> (r: Option<String>)
    ensures
        match figma_pending(*resolver, sources@) {
            Some(p) => r matches Some(s) && s@ == p,
            None => r is None,
        },
{
    let collections = match collect_resolver_collections(resolver) {
        Ok(c) => c,
        Err(_) => return None,
    };
    let modes = flatten_modes(&collections);
    match build_mode_files(&modes, sources) {
        Gathered::Missing(p) => Some(p),
        _ => None,
    }
}

proof fn lemma_mode_files_stop(modes: Seq<(Seq<char>, Seq<char>, Seq<Seq<char>>)>, sources: Seq<TokenSource>, n: int)
    requires
        0 <= n <= modes.len(),
        mode_files_upto(modes, sources, n) is Err,
    ensures
        mode_files_upto(modes, sources, modes.len() as int) == mode_files_upto(modes, sources, n),
    decreases modes.len() - n,
{
    if n < modes.len() {
        lemma_mode_files_stop(modes, sources, n + 1);
    }
}

proof fn lemma_resolved_stop(files: Seq<(Seq<char>, JView)>, index: Seq<(Seq<char>, Seq<TargetView>)>, n: int)
    requires
        0 <= n <= files.len(),
        resolved_files_upto(files, index, n) is Err,
    ensures
        resolved_files_upto(files, index, files.len() as int) == resolved_files_upto(files, index, n),
    decreases files.len() - n,
{
    if n < files.len() {
        lemma_resolved_stop(files, index, n + 1);
    }
}

/// Converts a DTCG resolver and its token files into Figma-importable mode
/// files. `sources` holds the token files the resolver names, as read and
/// parsed, up to the first that failed (see `next_figma_ref`).
pub fn convert_resolver_to_figma(resolver: &Json, sources: &[TokenSource]) -> (r: Result<GeneratedFigmaTokens, String>)
    requires
        figma_pending(*resolver, sources@) is None,
    ensures
        match r {
            Ok(out) => figma_spec(*resolver, sources@) == Ok::<Seq<(Seq<char>, JView)>, Seq<char>>(figma_files_view(out.files@)),
            Err(e) => figma_spec(*resolver, sources@) == Err::<Seq<(Seq<char>, JView)>, Seq<char>>(e@),
        },
{
    let collections = match collect_resolver_collections(resolver) {
        Ok(c) => c,
        Err(e) => return Err(e),
    };
    let modes = flatten_modes(&collections);
    let ghost ms = entries_view(modes@);
    let files = match build_mode_files(&modes, sources) {
        Gathered::Done(files) => files,
        Gathered::Failed(e) => return Err(e),
        Gathered::Missing(_) => {
            assert(figma_pending(*resolver, sources@) is Some);
            return Err(String::new());
        },
    };
    let ghost fs = figma_files_view(files@);
    let index = match build_alias_index(&files) {
        Ok(index) => index,
        Err(e) => return Err(e),
    };
    let mut resolved: Vec<GeneratedFigmaFile> = Vec::new();
    let mut k: usize = 0;
    assert(figma_files_view(resolved@) =~= Seq::<(Seq<char>, JView)>::empty());
    while k < files.len()
        invariant
            k <= files@.len(),
            fs == figma_files_view(files@),
            ms == mode_list(collections_view(collections@)),
            collections_spec(*resolver) == Ok::<Seq<(Seq<char>, Seq<(Seq<char>, Seq<Seq<char>>)>)>, Seq<char>>(collections_view(collections@)),
            mode_files_upto(ms, sources@, ms.len() as int) == Ok::<Seq<(Seq<char>, JView)>, Seq<char>>(fs),
            files_events(fs, fs.len() as int) matches Ok(ev) && index_view(index@) == index_upto(Seq::empty(), ev, ev.len() as int),
            resolved_files_upto(fs, index_view(index@), k as int) == Ok::<Seq<(Seq<char>, JView)>, Seq<char>>(figma_files_view(resolved@)),
        decreases files@.len() - k,
    {
        assert(fs[k as int] == (files@[k as int].path@, files@[k as int].json.jview()));
        let json = match add_alias_extensions(files[k].path.as_str(), &files[k].json, &index) {
            Ok(j) => j,
            Err(e) => {
                proof { lemma_resolved_stop(fs, index_view(index@), k as int + 1); }
                return Err(e);
            },
        };
        let ghost before = resolved@;
        resolved.push(GeneratedFigmaFile { path: files[k].path.clone(), json });
        proof {
            assert(figma_files_view(resolved@) =~= figma_files_view(before).push((fs[k as int].0, json.jview())));
        }
        k = k + 1;
    }
    Ok(GeneratedFigmaTokens { files: resolved })
}

proof fn lemma_mode_files_paths(modes: Seq<(Seq<char>, Seq<char>, Seq<Seq<char>>)>, sources: Seq<TokenSource>, n: int)
    requires
        0 <= n <= modes.len(),
        mode_files_upto(modes, sources, n) is Ok,
    ensures
        mode_files_upto(modes, sources, n)->Ok_0.len() == n,
        forall|i: int| 0 <= i < n ==> #[trigger] mode_files_upto(modes, sources, n)->Ok_0[i].0 == mode_path(modes[i].0, modes[i].1),
    decreases n,
{
    if n > 0 {
        lemma_mode_files_paths(modes, sources, n - 1);
    }
}

proof fn lemma_resolved_paths(files: Seq<(Seq<char>, JView)>, index: Seq<(Seq<char>, Seq<TargetView>)>, n: int)
    requires
        0 <= n <= files.len(),
        resolved_files_upto(files, index, n) is Ok,
    ensures
        resolved_files_upto(files, index, n)->Ok_0.len() == n,
        forall|i: int| 0 <= i < n ==> #[trigger] resolved_files_upto(files, index, n)->Ok_0[i].0 == files[i].0,
    decreases n,
{
    if n > 0 {
        lemma_resolved_paths(files, index, n - 1);
    }
}

/// The Figma export writes one file per mode of each resolver collection, in
/// the order of the collections and of their modes, each at
/// `<collection>/<mode>.tokens.json`.
pub proof fn law_one_file_per_mode(resolver: Json, sources: Seq<TokenSource>)
    requires
        figma_spec(resolver, sources) is Ok,
    ensures
        collections_spec(resolver) matches Ok(c) && {
            let files = figma_spec(resolver, sources)->Ok_0;
            let modes = mode_list(c);
            &&& files.len() == modes.len()
            &&& forall|i: int| 0 <= i < modes.len() ==> #[trigger] files[i].0 == mode_path(modes[i].0, modes[i].1)
        },
{
    let c = collections_spec(resolver)->Ok_0;
    let modes = mode_list(c);
    lemma_mode_files_paths(modes, sources, modes.len() as int);
    let files = mode_files_upto(modes, sources, modes.len() as int)->Ok_0;
    let events = files_events(files, files.len() as int)->Ok_0;
    lemma_resolved_paths(files, index_upto(Seq::empty(), events, events.len() as int), files.len() as int);
}

} // verus!
