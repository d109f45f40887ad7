//! Finds the YAML front matter block at the start of a Markdown document.

use vstd::prelude::*;
use vstd::string::StrSliceExecFns;
use crate::text::{chars_of, is_whitespace, slice_chars, spec_is_whitespace, string_of};

verus! {

broadcast use vstd::string::group_string_axioms;

/// `line` without the one carriage return that may end it.
pub open spec fn strip_cr(line: Seq<char>) -> Seq<char> {
    if line.len() > 0 && line.last() == '\r' {
        line.drop_last()
    } else {
        line
    }
}

pub open spec fn trim_start(s: Seq<char>) -> Seq<char>
    decreases s.len(),
{
    if s.len() > 0 && spec_is_whitespace(s[0]) {
        trim_start(s.drop_first())
    } else {
        s
    }
}

pub open spec fn trim_end(s: Seq<char>) -> Seq<char>
    decreases s.len(),
{
    if s.len() > 0 && spec_is_whitespace(s.last()) {
        trim_end(s.drop_last())
    } else {
        s
    }
}

/// `s` without the whitespace at both ends, as `str::trim` gives it.
pub open spec fn trim(s: Seq<char>) -> Seq<char> {
    trim_end(trim_start(s))
}

/// A line that reads `---` once whitespace is trimmed from both ends.
pub open spec fn is_marker_line(line: Seq<char>) -> bool {
    trim(line) == seq!['-', '-', '-']
}

/// Index of the first line feed in `s`.
pub open spec fn first_newline(s: Seq<char>) -> Option<int>
    decreases s.len(),
{
    if s.len() == 0 {
        None
    } else if s[0] == '\n' {
        Some(0)
    } else {
        match first_newline(s.drop_first()) {
            Some(i) => Some(i + 1),
            None => None,
        }
    }
}

/// The first line of `md`, as `str::lines` gives it (a line ended by `\r\n` loses
/// both characters; a last line without a line feed is kept whole).
pub open spec fn first_line(md: Seq<char>) -> Seq<char> {
    match first_newline(md) {
        Some(i) => strip_cr(md.take(i)),
        None => md,
    }
}

/// What follows the first line feed of `md` (nothing if there is none).
pub open spec fn after_first_line(md: Seq<char>) -> Seq<char> {
    match first_newline(md) {
        Some(i) => md.skip(i + 1),
        None => Seq::empty(),
    }
}

/// Walks the lines of `s` (the current, unfinished line being `cur`, and `end`
/// the characters of the earlier lines, each counted with its terminator) and
/// gives the count at the first line that reads `---`: the character offset
/// at which that closing line starts.
pub open spec fn closing_offset_from(s: Seq<char>, cur: Seq<char>, end: int) -> Option<int>
    decreases s.len(),
{
    if s.len() == 0 {
        if cur.len() > 0 && is_marker_line(cur) {
            Some(end)
        } else {
            None
        }
    } else if s[0] == '\n' {
        if is_marker_line(strip_cr(cur)) {
            Some(end)
        } else {
            closing_offset_from(s.drop_first(), Seq::empty(), end + cur.len() + 1)
        }
    } else {
        closing_offset_from(s.drop_first(), cur.push(s[0]), end)
    }
}

pub open spec fn msg_empty() -> Seq<char> {
    "missing YAML front matter: file is empty"@
}

pub open spec fn msg_no_opening() -> Seq<char> {
    "missing YAML front matter: file must start with `---`"@
}

pub open spec fn msg_no_closing() -> Seq<char> {
    "missing YAML front matter closing `---`"@
}

/// The outcome of reading the front matter of `md`: the number of characters
/// of the block that follows the opening `---` line, or the error message.
pub open spec fn front_matter_extent(md: Seq<char>) -> Result<int, Seq<char>> {
    if md.len() == 0 {
        Err(msg_empty())
    } else if !is_marker_line(first_line(md)) {
        Err(msg_no_opening())
    } else {
        match closing_offset_from(after_first_line(md), Seq::empty(), 0) {
            Some(end) => Ok(end),
            None => Err(msg_no_closing()),
        }
    }
}

/// The front matter block of `md`: every line after the opening `---` line,
/// each with its own line ending, up to where the closing `---` line starts;
/// or the error message.
pub open spec fn front_matter_block(md: Seq<char>) -> Result<Seq<char>, Seq<char>> {
    match front_matter_extent(md) {
        Ok(end) => Ok(after_first_line(md).take(end)),
        Err(e) => Err(e),
    }
}

proof fn lemma_first_newline_append(s: Seq<char>, t: Seq<char>)
    requires
        first_newline(s) is Some,
    ensures
        first_newline(s + t) == first_newline(s),
    decreases s.len(),
{
    if s[0] != '\n' {
        assert((s + t).drop_first() == s.drop_first() + t);
        lemma_first_newline_append(s.drop_first(), t);
    }
}

proof fn lemma_first_newline_found(s: Seq<char>, k: int)
    requires
        0 <= k < s.len(),
        s[k] == '\n',
    ensures
        first_newline(s) matches Some(i) && 0 <= i <= k && s[i] == '\n',
    decreases k,
{
    if s[0] != '\n' {
        lemma_first_newline_found(s.drop_first(), k - 1);
    }
}

proof fn lemma_closing_append(s: Seq<char>, t: Seq<char>, cur: Seq<char>, end: int)
    requires
        s.len() > 0,
        s.last() == '\n',
        closing_offset_from(s, cur, end) is Some,
    ensures
        closing_offset_from(s + t, cur, end) == closing_offset_from(s, cur, end),
    decreases s.len(),
{
    assert((s + t)[0] == s[0]);
    assert((s + t).drop_first() == s.drop_first() + t);
    if s[0] == '\n' {
        if !is_marker_line(strip_cr(cur)) {
            if s.len() == 1 {
                assert(s.drop_first().len() == 0);
            } else {
                lemma_closing_append(s.drop_first(), t, Seq::empty(), end + cur.len() + 1);
            }
        }
    } else {
        lemma_closing_append(s.drop_first(), t, cur.push(s[0]), end);
    }
}

proof fn lemma_closing_bound(s: Seq<char>, cur: Seq<char>, end: int)
    requires
        closing_offset_from(s, cur, end) is Some,
    ensures
        end <= closing_offset_from(s, cur, end)->Some_0 <= end + cur.len() + s.len(),
    decreases s.len(),
{
    if s.len() > 0 {
        if s[0] == '\n' {
            if !is_marker_line(strip_cr(cur)) {
                lemma_closing_bound(s.drop_first(), Seq::empty(), end + cur.len() + 1);
            }
        } else {
            lemma_closing_bound(s.drop_first(), cur.push(s[0]), end);
        }
    }
}

/// The block found lies within the text after the opening line.
pub proof fn lemma_block_within(md: Seq<char>)
    requires
        front_matter_extent(md) is Ok,
    ensures
        0 <= front_matter_extent(md)->Ok_0 <= after_first_line(md).len(),
{
    lemma_closing_bound(after_first_line(md), Seq::empty(), 0);
}

/// Only the leading block is read: once the front matter of a document that
/// ends with a line feed has been found, any text appended after the document
/// leaves the block unchanged.
pub proof fn law_body_is_ignored(md: Seq<char>, body: Seq<char>)
    requires
        md.len() > 0,
        md.last() == '\n',
        front_matter_block(md) is Ok,
    ensures
        front_matter_block(md + body) == front_matter_block(md),
{
    lemma_first_newline_found(md, md.len() - 1);
    lemma_first_newline_append(md, body);
    let i = first_newline(md)->Some_0;
    assert((md + body).take(i) == md.take(i));
    assert((md + body).skip(i + 1) == md.skip(i + 1) + body);
    let rest = after_first_line(md);
    if rest.len() == 0 {
        assert(closing_offset_from(rest, Seq::empty(), 0) is None);
    } else {
        assert(rest.last() == md.last());
        lemma_closing_append(rest, body, Seq::empty(), 0);
    }
    lemma_block_within(md);
    let end = front_matter_extent(md)->Ok_0;
    assert((rest + body).take(end) == rest.take(end));
}

/// `line` without a trailing carriage return.
fn strip_cr_of(line: &[char]) -> (r: Vec<char>)
    ensures
        r@ == strip_cr(line@),
{
    if line.len() > 0 && line[line.len() - 1] == '\r' {
        slice_chars(line, 0, line.len() - 1)
    } else {
        slice_chars(line, 0, line.len())
    }
}

/// Whether the line reads `---` once whitespace is trimmed from both ends.
fn is_marker(line: &[char]) -> (r: bool)
    ensures
        r == is_marker_line(line@),
{
    let n = line.len();
    let mut a: usize = 0;
    assert(line@.subrange(0, n as int) == line@);
    while a < n && is_whitespace(line[a])
        invariant
            a <= n == line@.len(),
            trim_start(line@) == trim_start(line@.subrange(a as int, n as int)),
        decreases n - a,
    {
        proof {
            assert(line@.subrange(a as int, n as int).drop_first() == line@.subrange(a + 1int, n as int));
        }
        a = a + 1;
    }
    assert(trim_start(line@) == line@.subrange(a as int, n as int));
    let mut b: usize = n;
    while b > a && is_whitespace(line[b - 1])
        invariant
            a <= b <= n == line@.len(),
            trim_start(line@) == line@.subrange(a as int, n as int),
            trim(line@) == trim_end(line@.subrange(a as int, b as int)),
        decreases b - a,
    {
        proof {
            assert(line@.subrange(a as int, b as int).drop_last() == line@.subrange(a as int, b - 1int));
        }
        b = b - 1;
    }
    assert(trim(line@) == line@.subrange(a as int, b as int));
    if b - a != 3 {
        return false;
    }
    let r = line[a] == '-' && line[a + 1] == '-' && line[a + 2] == '-';
    proof {
        if r {
            assert(line@.subrange(a as int, b as int) =~= seq!['-', '-', '-']);
        } else {
            let t = line@.subrange(a as int, b as int);
            assert(t[0] != '-' || t[1] != '-' || t[2] != '-');
        }
    }
    r
}

/// Where the front matter of `markdown` (whose characters are `md`) starts,
/// and how many characters it takes.
fn measure_front_matter(markdown: &str, md: &Vec<char>) -> (r: Result<(usize, usize), String>)
    requires
        md@ == markdown@,
    ensures
        match front_matter_extent(markdown@) {
            Ok(end) => r matches Ok((start, e)) && e == end && start <= md@.len()
                && after_first_line(markdown@) == md@.skip(start as int),
            Err(message) => r matches Err(e) && e@ == message,
        },
{
    let n = md.len();
    if n == 0 {
        return Err(string_of("missing YAML front matter: file is empty"));
    }
    let mut p: usize = 0;
    assert(md@.skip(0) == md@);
    while p < n && md[p] != '\n'
        invariant
            p <= n == md@.len(),
            first_newline(md@) == match first_newline(md@.skip(p as int)) {
                Some(i) => Some(i + p),
                None => None,
            },
        decreases n - p,
    {
        proof {
            assert(md@.skip(p as int).drop_first() == md@.skip(p + 1int));
        }
        p = p + 1;
    }
    let first = if p < n {
        strip_cr_of(&md.as_slice()[0..p])
    } else {
        slice_chars(md.as_slice(), 0, n)
    };
    proof {
        if p < n {
            assert(md@.skip(p as int)[0] == '\n');
            assert(first_newline(md@) == Some(p as int));
            assert(md@.take(p as int) == md@.subrange(0, p as int));
        } else {
            assert(md@.skip(p as int).len() == 0);
            assert(first_newline(md@) == None::<int>);
            assert(md@.subrange(0, n as int) == md@);
        }
    }
    if !is_marker(first.as_slice()) {
        return Err(string_of("missing YAML front matter: file must start with `---`"));
    }
    let start: usize = if p < n { p + 1 } else { n };
    let ghost rest = after_first_line(md@);
    assert(rest == md@.skip(start as int));

    let mut i: usize = start;
    let mut line_start: usize = start;
    assert(md@.subrange(start as int, start as int) =~= Seq::<char>::empty());
    assert(front_matter_extent(markdown@) == match closing_offset_from(rest, Seq::empty(), 0) {
        Some(e) => Ok(e),
        None => Err(msg_no_closing()),
    });
    while i < n
        invariant
            md@ == markdown@,
            rest == after_first_line(markdown@),
            front_matter_extent(markdown@) == match closing_offset_from(rest, Seq::empty(), 0) {
                Some(e) => Ok(e),
                None => Err(msg_no_closing()),
            },
            start <= line_start <= i <= n == md@.len(),
            rest == md@.skip(start as int),
            closing_offset_from(rest, Seq::empty(), 0) == closing_offset_from(
                md@.skip(i as int),
                md@.subrange(line_start as int, i as int),
                line_start - start,
            ),
        decreases n - i,
    {
        let ghost cur = md@.subrange(line_start as int, i as int);
        assert(md@.skip(i as int).drop_first() == md@.skip(i + 1int));
        if md[i] == '\n' {
            let line = strip_cr_of(&md.as_slice()[line_start..i]);
            assert(md@.subrange(line_start as int, i as int) == cur);
            if is_marker(line.as_slice()) {
                assert(closing_offset_from(rest, Seq::empty(), 0) == Some(line_start - start));
                return Ok((start, line_start - start));
            }
            line_start = i + 1;
            assert(md@.subrange(line_start as int, i + 1int) =~= Seq::<char>::empty());
        } else {
            assert(md@.subrange(line_start as int, i + 1int) == cur.push(md@[i as int]));
        }
        i = i + 1;
    }
    assert(md@.skip(n as int).len() == 0);
    let last = slice_chars(md.as_slice(), line_start, n);
    if last.len() > 0 && is_marker(last.as_slice()) {
        assert(closing_offset_from(rest, Seq::empty(), 0) == Some(line_start - start));
        return Ok((start, line_start - start));
    }
    Err(string_of("missing YAML front matter closing `---`"))
}

/// Extracts the YAML front matter block from the beginning of a Markdown
/// document: the text after an opening line that reads `---` up to the start
/// of the first later line that reads `---` (whitespace around either marker
/// is allowed). Each line of the block keeps its own line ending, `\n` or
/// `\r\n`.
pub fn extract_front_matter(markdown: &str) -> (r: Result<&str, String>)
    ensures
        match front_matter_block(markdown@) {
            Ok(block) => r matches Ok(b) && b@ == block,
            Err(message) => r matches Err(e) && e@ == message,
        },
{
    let md = chars_of(markdown);
    match measure_front_matter(markdown, &md) {
        Ok((start, end)) => {
            proof {
                assert(front_matter_extent(markdown@) == Ok::<int, Seq<char>>(end as int));
                lemma_block_within(markdown@);
                assert(md@.skip(start as int).len() == md@.len() - start);
                assert(start + end <= md@.len());
                assert(md@.skip(start as int).take(end as int) == markdown@.subrange(start as int, start + end));
            }
            let stop: usize = start + end;
            Ok(markdown.substring_char(start, stop))
        },
        Err(e) => Err(e),
    }
}

} // verus!
