//! Style conversion: rewrite a standalone "//" comment run as one "/* */"
//! block, so the reflow pass that follows can lay it out as a block.
//!
//! Comment style is otherwise preserved, always, so this is a separate pass that
//! runs only on request. Trailing "//" comments, doc comments and the SPDX run
//! at the start of a file stay as they are, and so does every run that a block
//! cannot hold.

use vstd::prelude::*;
use vstd::slice::slice_subrange;
use vstd::utf8::*;

use crate::classify;
use crate::classify::Style;
use crate::offsets;
use crate::parse;
use crate::parse::{Comment, Language};
use crate::rewrite;
use crate::rewrite::{Edit, Replacement, RewriteError};
use crate::text;
use crate::text::Class;

verus! {

broadcast use vstd::string::group_string_axioms;

/// Whether a comment stands at the start of the file and its first line carries
/// the SPDX tag. The tag has to stay on line 1, where license tooling looks for
/// it; in a block it would land on line 2.
pub open spec fn file_start_spdx(c: Comment) -> bool {
    c.at_file_start && text::has(
        c.text@.take(text::run_len(c.text@, Class::Not('\n')) as int),
        "SPDX-License-Identifier"@,
    )
}

pub fn holds_file_start_spdx(c: &Comment) -> (r: bool)
    ensures
        r == file_start_spdx(*c),
{
    if !c.at_file_start {
        return false;
    }
    let t = text::chars_of(c.text.as_str());
    let n: usize = text::count_run(t.as_slice(), Class::Not('\n'));
    text::holds_str(slice_subrange(t.as_slice(), 0, n), "SPDX-License-Identifier")
}

/// Whether a comment is a plain "//" comment that may be converted: not
/// trailing, not to be left alone, not the file's SPDX header, and not a doc
/// comment ("///" or "//!").
pub open spec fn plain_line(c: Comment) -> bool {
    &&& !c.is_trailing
    &&& !c.force_passthrough
    &&& !file_start_spdx(c)
    &&& text::starts_with(c.text@, "//"@)
    &&& !text::starts_with(c.text@, "///"@)
    &&& !text::starts_with(c.text@, "//!"@)
}

pub fn is_plain_line(c: &Comment) -> (r: bool)
    ensures
        r == plain_line(*c),
{
    let t = text::chars_of(c.text.as_str());
    let t = t.as_slice();
    !c.is_trailing && !c.force_passthrough && !holds_file_start_spdx(c) && text::begins(t, "//")
        && !text::begins(t, "///") && !text::begins(t, "//!")
}

/// The text of one line of a "//" run: without its line ending, its indentation,
/// its marker with one space, and white space at its end.
pub open spec fn line_text(raw: Seq<char>) -> Seq<char> {
    let s = if raw.len() > 0 && raw.last() == '\r' {
        raw.drop_last()
    } else {
        raw
    };
    let t = s.skip(text::run_len(s, Class::Blank) as int);
    text::trim_end(without_marker(t))
}

/// A line without the marker that it opens with and one space behind it.
pub open spec fn without_marker(t: Seq<char>) -> Seq<char> {
    if !text::starts_with(t, "//"@) {
        t
    } else if t.len() > 2 && t[2] == ' ' {
        t.skip(3)
    } else {
        t.skip(2)
    }
}

fn strip_line(raw: &[char]) -> (out: Vec<char>)
    ensures
        out@ == line_text(raw@),
{
    let s = if raw.len() > 0 && raw[raw.len() - 1] == '\r' {
        slice_subrange(raw, 0, raw.len() - 1)
    } else {
        raw
    };
    assert(raw@.len() > 0 ==> raw@.drop_last() =~= raw@.subrange(0, raw@.len() - 1));
    let n: usize = text::count_run(s, Class::Blank);
    let t = slice_subrange(s, n, s.len());
    proof {
        reveal_strlit("//");
    }
    let body = if !text::begins(t, "//") {
        t
    } else if t.len() > 2 && t[2] == ' ' {
        slice_subrange(t, 3, t.len())
    } else {
        slice_subrange(t, 2, t.len())
    };
    text::slice_to_vec(text::trimmed_end(body))
}

/// The texts of a run's lines.
pub open spec fn run_lines(t: Seq<char>) -> Seq<Seq<char>> {
    text::split(t, '\n').map_values(|raw: Seq<char>| line_text(raw))
}

/// Lines without the empty ones at either end.
pub open spec fn kept(lines: Seq<Seq<char>>) -> Seq<Seq<char>>
    decreases lines.len(),
{
    if lines.len() == 0 {
        lines
    } else if lines[0].len() == 0 {
        kept(lines.drop_first())
    } else if lines.last().len() == 0 {
        kept(lines.drop_last())
    } else {
        lines
    }
}

/// Whether some line holds a block's opener or closer. A closer would end the
/// block early; an opener would nest one in Rust.
pub open spec fn breaks_block(lines: Seq<Seq<char>>) -> bool {
    exists|i: int|
        0 <= i < lines.len() && (text::has(#[trigger] lines[i], "*/"@) || text::has(
            lines[i],
            "/*"@,
        ))
}

/// The line ending for a converted comment: the one that most of its own line
/// breaks have, or, where it has none, the one that follows it.
pub open spec fn ending(c: Comment) -> Seq<char> {
    let breaks = text::occurrences(c.text@, "\n"@, 0);
    let crlf = if breaks == 0 {
        text::ends_with(c.text@, "\r"@) || c.fallback_ending@ == "\r\n"@
    } else {
        text::occurrences(c.text@, "\r\n"@, 0) * 2 >= breaks
    };
    if crlf {
        "\r\n"@
    } else {
        "\n"@
    }
}

/// One line of a block, with the line break in front of it.
pub open spec fn row(line: Seq<char>, indent: Seq<char>, nl: Seq<char>) -> Seq<char> {
    if line.len() == 0 {
        nl + indent + " *"@
    } else {
        nl + indent + " *"@ + " "@ + line
    }
}

/// The lines of a block.
pub open spec fn rows(lines: Seq<Seq<char>>, indent: Seq<char>, nl: Seq<char>) -> Seq<char>
    decreases lines.len(),
{
    if lines.len() == 0 {
        Seq::empty()
    } else {
        rows(lines.drop_last(), indent, nl) + row(lines.last(), indent, nl)
    }
}

/// A block of some lines.
pub open spec fn block(lines: Seq<Seq<char>>, indent: Seq<char>, nl: Seq<char>) -> Seq<char> {
    "/*"@ + rows(lines, indent, nl) + nl + indent + " */"@
}

/// The block that takes a comment's place, unless the comment holds nothing or
/// a block cannot hold it. The carriage return of a line ending that the
/// comment's range cut in two stays outside.
pub open spec fn conversion(c: Comment) -> Option<Edit> {
    let lines = kept(run_lines(c.text@));
    if lines.len() == 0 || breaks_block(lines) {
        None
    } else {
        Some(
            Edit {
                start: c.start_byte,
                end: if text::ends_with(c.text@, "\r"@) {
                    (c.end_byte - 1) as usize
                } else {
                    c.end_byte
                },
                text: block(lines, c.line_indent_bytes@, ending(c)),
            },
        )
    }
}

/// Whether the range of a comment that a block replaces is long enough for the
/// carriage return that stays outside.
pub open spec fn well_ended(c: Comment) -> bool {
    conversion(c) is Some && text::ends_with(c.text@, "\r"@) ==> c.end_byte > 0
}

/// The texts of a run's lines, without the empty ones at either end.
fn kept_lines(t: &[char]) -> (out: Vec<Vec<char>>)
    ensures
        text::views(out@) == kept(run_lines(t@)),
{
    let raw = text::split_at_char(t, '\n');
    let mut lines: Vec<Vec<char>> = Vec::new();
    let mut i: usize = 0;
    while i < raw.len()
        invariant
            i <= raw@.len(),
            lines@.len() == i,
            forall|j: int| 0 <= j < i ==> (#[trigger] lines@[j])@ == line_text(raw@[j]@),
        decreases raw@.len() - i,
    {
        lines.push(strip_line(raw[i].as_slice()));
        i = i + 1;
    }
    let ghost all = text::views(lines@);
    proof {
        assert(text::views(raw@) == text::split(t@, '\n'));
        assert(all =~= run_lines(t@)) by {
            assert forall|j: int| 0 <= j < all.len() implies all[j] == run_lines(t@)[j] by {
                assert(text::views(raw@)[j] == raw@[j]@);
                assert(all[j] == lines@[j]@);
            }
            assert(all.len() == text::views(raw@).len());
        }
    }
    let mut lo: usize = 0;
    let mut hi: usize = lines.len();
    proof {
        assert(all.subrange(0, hi as int) =~= all);
    }
    while lo < hi && lines[lo].len() == 0
        invariant
            lo <= hi == lines@.len(),
            all == text::views(lines@),
            kept(all.subrange(lo as int, hi as int)) == kept(all),
        decreases hi - lo,
    {
        proof {
            let s = all.subrange(lo as int, hi as int);
            assert(s[0] == lines@[lo as int]@);
            assert(s.drop_first() =~= all.subrange(lo + 1, hi as int));
        }
        lo = lo + 1;
    }
    while lo < hi && lines[hi - 1].len() == 0
        invariant
            lo <= hi <= lines@.len(),
            all == text::views(lines@),
            lo < hi ==> lines@[lo as int]@.len() > 0,
            kept(all.subrange(lo as int, hi as int)) == kept(all),
        decreases hi - lo,
    {
        proof {
            let s = all.subrange(lo as int, hi as int);
            assert(s[0] == lines@[lo as int]@);
            assert(s.last() == lines@[hi - 1]@);
            assert(s.drop_last() =~= all.subrange(lo as int, hi - 1));
        }
        hi = hi - 1;
    }
    proof {
        let s = all.subrange(lo as int, hi as int);
        if lo < hi {
            assert(s[0] == lines@[lo as int]@);
            assert(s.last() == lines@[hi - 1]@);
        }
        assert(kept(s) == s);
    }
    let mut out: Vec<Vec<char>> = Vec::new();
    let mut k: usize = lo;
    while k < hi
        invariant
            lo <= k <= hi <= lines@.len(),
            out@.len() == k - lo,
            forall|j: int| 0 <= j < k - lo ==> (#[trigger] out@[j])@ == lines@[lo + j]@,
        decreases hi - k,
    {
        out.push(text::slice_to_vec(lines[k].as_slice()));
        k = k + 1;
    }
    assert(text::views(out@) =~= all.subrange(lo as int, hi as int));
    out
}

/// Decides whether some line holds a block's opener or closer.
fn would_break(lines: &Vec<Vec<char>>) -> (r: bool)
    ensures
        r == breaks_block(text::views(lines@)),
{
    let ghost all = text::views(lines@);
    let mut i: usize = 0;
    while i < lines.len()
        invariant
            i <= lines@.len(),
            all == text::views(lines@),
            forall|j: int|
                0 <= j < i ==> !(text::has(#[trigger] all[j], "*/"@) || text::has(all[j], "/*"@)),
        decreases lines@.len() - i,
    {
        let line = lines[i].as_slice();
        assert(all[i as int] == line@);
        if text::holds_str(line, "*/") || text::holds_str(line, "/*") {
            return true;
        }
        i = i + 1;
    }
    false
}

/// Picks the line ending for a converted comment.
fn pick_ending(c: &Comment) -> (nl: &'static str)
    ensures
        nl@ == ending(*c),
{
    let t = text::chars_of(c.text.as_str());
    let t = t.as_slice();
    proof {
        reveal_strlit("\n");
        reveal_strlit("\r\n");
    }
    let breaks: usize = text::count_str(t, "\n");
    let crlf: bool = if breaks == 0 {
        let follows = text::chars_of(c.fallback_ending.as_str());
        text::ends(t, "\r") || text::same_str(follows.as_slice(), "\r\n")
    } else {
        text::count_str(t, "\r\n") >= breaks - breaks / 2
    };
    if crlf {
        "\r\n"
    } else {
        "\n"
    }
}

/// Writes a block of some lines.
fn write_block(lines: &Vec<Vec<char>>, indent: &str, nl: &str) -> (out: String)
    ensures
        out@ == block(text::views(lines@), indent@, nl@),
{
    let ghost all = text::views(lines@);
    let mut out: String = String::new();
    out.push_str("/*");
    let mut i: usize = 0;
    proof {
        assert(all.take(0) =~= Seq::<Seq<char>>::empty());
        assert(out@ =~= "/*"@ + rows(all.take(0), indent@, nl@));
    }
    while i < lines.len()
        invariant
            i <= lines@.len(),
            all == text::views(lines@),
            out@ == "/*"@ + rows(all.take(i as int), indent@, nl@),
        decreases lines@.len() - i,
    {
        let ghost before = out@;
        let line = lines[i].as_slice();
        out.push_str(nl);
        out.push_str(indent);
        out.push_str(" *");
        if line.len() > 0 {
            out.push_str(" ");
            let body = text::string_of(line);
            out.push_str(body.as_str());
        }
        proof {
            let t = all.take(i + 1);
            assert(t.drop_last() =~= all.take(i as int));
            assert(t.last() == line@);
            assert(out@ =~= before + row(line@, indent@, nl@));
            assert(out@ =~= "/*"@ + rows(t, indent@, nl@));
        }
        i = i + 1;
    }
    assert(all.take(i as int) =~= all);
    out.push_str(nl);
    out.push_str(indent);
    out.push_str(" */");
    out
}

/// Builds the block that takes a plain "//" comment's place. A run and a lone
/// line go the same way; layout is left to the reflow pass.
pub fn build_block(c: &Comment) -> (res: Option<Replacement>)
    requires
        well_ended(*c),
    ensures
        match conversion(*c) {
            Some(e) => res is Some && res->0@ == e,
            None => res is None,
        },
{
    let t = text::chars_of(c.text.as_str());
    let lines = kept_lines(t.as_slice());
    proof {
        assert(lines@.len() == text::views(lines@).len());
    }
    if lines.len() == 0 || would_break(&lines) {
        return None;
    }
    let nl = pick_ending(c);
    let out = write_block(&lines, c.line_indent_bytes.as_str(), nl);
    let end: usize = if text::ends(t.as_slice(), "\r") {
        c.end_byte - 1
    } else {
        c.end_byte
    };
    Some(Replacement { start: c.start_byte, end, text: out })
}

/// The edits that convert every plain "//" comment that can be converted.
pub open spec fn conversions(comments: Seq<Comment>) -> Seq<Edit>
    decreases comments.len(),
{
    if comments.len() == 0 {
        Seq::empty()
    } else {
        let before = conversions(comments.drop_last());
        let c = comments.last();
        match conversion(c) {
            Some(e) => if plain_line(c) {
                before.push(e)
            } else {
                before
            },
            None => before,
        }
    }
}

/// Whether every plain "//" comment's range is long enough to be converted.
pub open spec fn convertible(comments: Seq<Comment>) -> bool {
    forall|i: int|
        0 <= i < comments.len() && plain_line(#[trigger] comments[i]) ==> well_ended(comments[i])
}

/// Whether a language has "//" comments that can be converted. Shell has "#",
/// and assembly claims only "/* */".
pub open spec fn has_line_comments(lang: Language) -> bool {
    lang != Language::Shell && lang != Language::Asm
}

/// Decides whether a language has "//" comments that can be converted.
pub fn converts(lang: Language) -> (r: bool)
    ensures
        r == has_line_comments(lang),
{
    !matches!(lang, Language::Shell | Language::Asm)
}

/// The replacements that turn every plain "//" comment of a source into a block.
/// Nothing is written: the caller applies the plan, or reports it.
pub fn line_run_replacements(source: &str, lang: Language, comments: &[Comment]) -> (res: Result<
    Vec<Replacement>,
    RewriteError,
>)
    requires
        convertible(comments@),
    ensures
        !has_line_comments(lang) ==> res is Ok && res->Ok_0@.len() == 0,
        has_line_comments(lang) ==> match rewrite::plan_fault(
            conversions(comments@),
            source@,
            comments@,
        ) {
            Some(e) => res == Err::<Vec<Replacement>, RewriteError>(e),
            None => res is Ok && rewrite::edits(res->Ok_0@) == conversions(comments@),
        },
{
    if !converts(lang) {
        return Ok(Vec::new());
    }
    let mut reps: Vec<Replacement> = Vec::new();
    let mut i: usize = 0;
    assert(rewrite::edits(reps@) =~= conversions(comments@.take(0)));
    while i < comments.len()
        invariant
            i <= comments@.len(),
            convertible(comments@),
            rewrite::edits(reps@) == conversions(comments@.take(i as int)),
        decreases comments@.len() - i,
    {
        let c: &Comment = &comments[i];
        let ghost before = reps@;
        proof {
            assert(comments@.take(i + 1).drop_last() =~= comments@.take(i as int));
            assert(comments@.take(i + 1).last() == *c);
        }
        if is_plain_line(c) {
            match build_block(c) {
                Some(r) => {
                    reps.push(r);
                    assert(rewrite::edits(reps@) =~= rewrite::edits(before).push(r@));
                },
                None => {},
            }
        }
        i = i + 1;
    }
    assert(comments@.take(i as int) =~= comments@);
    match rewrite::validate(reps.as_slice(), source, comments) {
        Ok(()) => Ok(reps),
        Err(e) => Err(e),
    }
}

/// Whether a text is what a plan makes of a source, from which each of its ranges
/// can be cut.
pub open spec fn made_by(out: Seq<char>, plan: Seq<Edit>, source: Seq<char>) -> bool {
    &&& rewrite::in_source(plan, source)
    &&& encode_utf8(out) == rewrite::splice(encode_utf8(source), rewrite::sorted(plan), 0, 0)
}

/// A source that nothing is done to, with the plan that does nothing.
fn untouched(source: &str) -> (r: (String, Vec<Replacement>))
    ensures
        r.0@ == source@,
        r.1@.len() == 0,
        made_by(r.0@, rewrite::edits(r.1@), source@),
{
    let mut out: String = String::new();
    out.push_str(source);
    let plan: Vec<Replacement> = Vec::new();
    proof {
        assert(out@ =~= source@);
        assert(rewrite::edits(plan@) =~= Seq::<Edit>::empty());
        let b = encode_utf8(source@);
        assert(b.skip(0) =~= b);
    }
    (out, plan)
}

/// Converts every plain "//" comment of a source that can be converted, and
/// hands on the plan that did it.
pub fn to_blocks(source: &str, lang: Language, comments: &[Comment]) -> (res: Result<
    (String, Vec<Replacement>),
    RewriteError,
>)
    requires
        convertible(comments@),
    ensures
        res is Ok ==> made_by((res->Ok_0).0@, rewrite::edits((res->Ok_0).1@), source@),
        !has_line_comments(lang) ==> res is Ok && (res->Ok_0).0@ == source@ && (res->Ok_0).1@.len()
            == 0,
        has_line_comments(lang) ==> match rewrite::plan_fault(
            conversions(comments@),
            source@,
            comments@,
        ) {
            Some(e) => res == Err::<(String, Vec<Replacement>), RewriteError>(e),
            None => res is Ok && rewrite::edits((res->Ok_0).1@) == conversions(comments@),
        },
{
    if !converts(lang) {
        return Ok(untouched(source));
    }
    let plan = match line_run_replacements(source, lang, comments) {
        Ok(plan) => plan,
        Err(e) => {
            return Err(e);
        },
    };
    proof {
        rewrite::law_valid_plan_applies(rewrite::edits(plan@), source@, comments@);
        rewrite::law_valid_plan_is_in_source(rewrite::edits(plan@), source@, comments@);
    }
    let out = rewrite::apply(source, plan.as_slice());
    Ok((out, plan))
}

/// The pass ahead of reflow: conversion where "--to-blocks" asks for it, and
/// nothing otherwise. The comments are looked at in the first case only.
pub fn conversion_pass(
    wanted: bool,
    source: &str,
    lang: Language,
    comments: &[Comment],
) -> (res: Result<(String, Vec<Replacement>), RewriteError>)
    requires
        wanted && has_line_comments(lang) ==> convertible(comments@),
    ensures
        res is Ok ==> made_by((res->Ok_0).0@, rewrite::edits((res->Ok_0).1@), source@),
        !(wanted && has_line_comments(lang)) ==> res is Ok && (res->Ok_0).0@ == source@ && (
        res->Ok_0).1@.len() == 0,
        wanted && has_line_comments(lang) ==> match rewrite::plan_fault(
            conversions(comments@),
            source@,
            comments@,
        ) {
            Some(e) => res == Err::<(String, Vec<Replacement>), RewriteError>(e),
            None => res is Ok && rewrite::edits((res->Ok_0).1@) == conversions(comments@),
        },
{
    if wanted && converts(lang) {
        to_blocks(source, lang, comments)
    } else {
        Ok(untouched(source))
    }
}

/// Whether two characters nowhere follow each other.
pub open spec fn no_pair(s: Seq<char>, x: char, y: char) -> bool {
    forall|i: int| 0 <= i && i + 1 < s.len() ==> !(#[trigger] s[i] == x && s[i + 1] == y)
}

proof fn lemma_no_pair_concat(a: Seq<char>, b: Seq<char>, x: char, y: char)
    requires
        no_pair(a, x, y),
        no_pair(b, x, y),
        a.len() > 0 && b.len() > 0 ==> !(a.last() == x && b[0] == y),
    ensures
        no_pair(a + b, x, y),
{
    let s = a + b;
    assert forall|i: int| 0 <= i && i + 1 < s.len() implies !(#[trigger] s[i] == x && s[i + 1]
        == y) by {
        if i + 1 < a.len() {
            assert(s[i] == a[i] && s[i + 1] == a[i + 1]);
        } else if i >= a.len() {
            assert(s[i] == b[i - a.len()] && s[i + 1] == b[i - a.len() + 1]);
        }
    }
}

proof fn lemma_no_pair_without(s: Seq<char>, x: char, y: char)
    requires
        !text::has(s, seq![x, y]),
    ensures
        no_pair(s, x, y),
{
    assert forall|i: int| 0 <= i && i + 1 < s.len() implies !(#[trigger] s[i] == x && s[i + 1]
        == y) by {
        text::lemma_pair_at(s, x, y, i);
        assert(!text::stands_at(s, seq![x, y], i));
    }
}

/// Whether a text is a line break.
pub open spec fn is_line_break(nl: Seq<char>) -> bool {
    nl == "\n"@ || nl == "\r\n"@
}

proof fn lemma_row_is_clean(line: Seq<char>, indent: Seq<char>, nl: Seq<char>)
    requires
        is_line_break(nl),
        text::all_of(indent, Class::Blank),
        !text::has(line, "*/"@),
        !text::has(line, "/*"@),
    ensures
        no_pair(row(line, indent, nl), '*', '/'),
        no_pair(row(line, indent, nl), '/', '*'),
        row(line, indent, nl).len() > 0,
        row(line, indent, nl)[0] == '\r' || row(line, indent, nl)[0] == '\n',
{
    reveal_strlit("\n");
    reveal_strlit("\r\n");
    reveal_strlit(" *");
    reveal_strlit(" ");
    reveal_strlit("*/");
    reveal_strlit("/*");
    assert("*/"@ =~= seq!['*', '/']);
    assert("/*"@ =~= seq!['/', '*']);
    lemma_no_pair_without(line, '*', '/');
    lemma_no_pair_without(line, '/', '*');
    assert forall|i: int| 0 <= i < indent.len() implies indent[i] == ' ' || indent[i] == '\t' by {
        assert(Class::Blank.holds(indent[i]));
    }
    let a = nl + indent;
    lemma_no_pair_concat(nl, indent, '*', '/');
    lemma_no_pair_concat(nl, indent, '/', '*');
    let b = a + " *"@;
    lemma_no_pair_concat(a, " *"@, '*', '/');
    lemma_no_pair_concat(a, " *"@, '/', '*');
    let c = b + " "@;
    lemma_no_pair_concat(b, " "@, '*', '/');
    lemma_no_pair_concat(b, " "@, '/', '*');
    lemma_no_pair_concat(c, line, '*', '/');
    lemma_no_pair_concat(c, line, '/', '*');
}

proof fn lemma_rows_are_clean(lines: Seq<Seq<char>>, indent: Seq<char>, nl: Seq<char>)
    requires
        is_line_break(nl),
        text::all_of(indent, Class::Blank),
        !breaks_block(lines),
    ensures
        no_pair(rows(lines, indent, nl), '*', '/'),
        no_pair(rows(lines, indent, nl), '/', '*'),
        rows(lines, indent, nl).len() > 0 ==> rows(lines, indent, nl)[0] == '\r' || rows(
            lines,
            indent,
            nl,
        )[0] == '\n',
    decreases lines.len(),
{
    if lines.len() > 0 {
        let t = lines.drop_last();
        assert(!breaks_block(t)) by {
            assert forall|i: int| 0 <= i < t.len() implies !(text::has(#[trigger] t[i], "*/"@)
                || text::has(t[i], "/*"@)) by {
                assert(t[i] == lines[i]);
            }
        }
        lemma_rows_are_clean(t, indent, nl);
        assert(!(text::has(lines[lines.len() - 1], "*/"@) || text::has(
            lines[lines.len() - 1],
            "/*"@,
        )));
        lemma_row_is_clean(lines.last(), indent, nl);
        lemma_no_pair_concat(rows(t, indent, nl), row(lines.last(), indent, nl), '*', '/');
        lemma_no_pair_concat(rows(t, indent, nl), row(lines.last(), indent, nl), '/', '*');
    }
}

/// A block opens at its first character and nowhere else, and closes at its last
/// two and nowhere else, whatever stands in it; and it is a plain block, not a
/// doc comment.
pub proof fn law_block_is_one_comment(lines: Seq<Seq<char>>, indent: Seq<char>, nl: Seq<char>)
    requires
        is_line_break(nl),
        text::all_of(indent, Class::Blank),
        !breaks_block(lines),
    ensures
        forall|i: int| #[trigger]
            text::stands_at(block(lines, indent, nl), "/*"@, i) <==> i == 0,
        forall|i: int| #[trigger]
            text::stands_at(block(lines, indent, nl), "*/"@, i) <==> i == block(
                lines,
                indent,
                nl,
            ).len() - 2,
        classify::style_of(block(lines, indent, nl)) == Style::Block,
{
    reveal_strlit("\n");
    reveal_strlit("\r\n");
    reveal_strlit(" */");
    reveal_strlit("*/");
    reveal_strlit("/*");
    reveal_strlit("/**");
    reveal_strlit("/*!");
    reveal_strlit("///");
    reveal_strlit("//!");
    reveal_strlit("//");
    assert("*/"@ =~= seq!['*', '/']);
    assert("/*"@ =~= seq!['/', '*']);
    lemma_rows_are_clean(lines, indent, nl);
    assert forall|i: int| 0 <= i < indent.len() implies indent[i] == ' ' || indent[i] == '\t' by {
        assert(Class::Blank.holds(indent[i]));
    }
    let r = rows(lines, indent, nl);
    let full = block(lines, indent, nl);
    let n = full.len() as int;
    // Everything between the opener's slash and the closer's slash.
    let inner = seq!['*'] + r + nl + indent + seq![' ', '*'];
    lemma_no_pair_concat(seq!['*'], r, '*', '/');
    lemma_no_pair_concat(seq!['*'], r, '/', '*');
    let a = seq!['*'] + r;
    assert(a[0] == '*');
    lemma_no_pair_concat(a, nl, '*', '/');
    lemma_no_pair_concat(a, nl, '/', '*');
    lemma_no_pair_concat(a + nl, indent, '*', '/');
    lemma_no_pair_concat(a + nl, indent, '/', '*');
    lemma_no_pair_concat(a + nl + indent, seq![' ', '*'], '*', '/');
    lemma_no_pair_concat(a + nl + indent, seq![' ', '*'], '/', '*');
    assert(full =~= seq!['/'] + inner + seq!['/']);
    assert(inner.len() >= 3);
    assert(inner[0] == '*');
    assert(inner.last() == '*');
    assert(full[0] == '/' && full[1] == '*' && full[n - 2] == '*' && full[n - 1] == '/');
    assert(full[2] == inner[1]);
    assert(inner[1] == '\r' || inner[1] == '\n') by {
        if r.len() > 0 {
            assert(inner[1] == r[0]);
        } else {
            assert(inner[1] == nl[0]);
        }
    }
    assert forall|i: int| #[trigger] text::stands_at(full, "/*"@, i) <==> i == 0 by {
        text::lemma_pair_at(full, '/', '*', i);
        if 0 < i && i + 1 < n {
            assert(full[i] == inner[i - 1]);
            if i + 1 < n - 1 {
                assert(full[i + 1] == inner[i]);
            }
        }
    }
    assert forall|i: int| #[trigger] text::stands_at(full, "*/"@, i) <==> i == n - 2 by {
        text::lemma_pair_at(full, '*', '/', i);
        if 0 < i && i + 1 < n - 1 {
            assert(full[i] == inner[i - 1]);
            assert(full[i + 1] == inner[i]);
        }
    }
    text::lemma_pair_at(full, '/', '*', 0);
    let h2 = full.subrange(0, 2);
    assert(h2[1] == full[1]);
    let h3 = full.subrange(0, 3);
    assert(h3[1] == full[1] && h3[2] == full[2]);
    assert(!text::starts_with(full, "//"@));
    assert(!text::starts_with(full, "///"@));
    assert(!text::starts_with(full, "//!"@));
    assert(!text::starts_with(full, "/**"@));
    assert(!text::starts_with(full, "/*!"@));
}

proof fn lemma_pieces_hold_no_break(s: Seq<char>, c: char)
    ensures
        forall|i: int, j: int|
            0 <= i < text::split(s, c).len() && 0 <= j < text::split(s, c)[i].len()
                ==> #[trigger] text::split(s, c)[i][j] != c,
    decreases s.len(),
{
    text::lemma_run_len(s, Class::Not(c));
    let n = text::run_len(s, Class::Not(c)) as int;
    let all = text::split(s, c);
    if n >= s.len() {
        assert forall|i: int, j: int| 0 <= i < all.len() && 0 <= j < all[i].len() implies #[trigger]
        all[i][j] != c by {
            assert(Class::Not(c).holds(s[j]));
        }
    } else {
        let rest = text::split(s.skip(n + 1), c);
        lemma_pieces_hold_no_break(s.skip(n + 1), c);
        assert forall|i: int, j: int| 0 <= i < all.len() && 0 <= j < all[i].len() implies #[trigger]
        all[i][j] != c by {
            if i == 0 {
                assert(all[0] == s.take(n));
                assert(Class::Not(c).holds(s[j]));
            } else {
                assert(all[i] == rest[i - 1]);
                assert(rest[i - 1][j] != c);
            }
        }
    }
}

/// Whether no line holds a line break.
pub open spec fn unbroken(lines: Seq<Seq<char>>) -> bool {
    forall|i: int, j: int|
        0 <= i < lines.len() && 0 <= j < lines[i].len() ==> #[trigger] lines[i][j] != '\n'
}

proof fn lemma_kept_unbroken(lines: Seq<Seq<char>>)
    requires
        unbroken(lines),
    ensures
        unbroken(kept(lines)),
    decreases lines.len(),
{
    if lines.len() > 0 {
        if lines[0].len() == 0 {
            let t = lines.drop_first();
            assert forall|i: int, j: int|
                0 <= i < t.len() && 0 <= j < t[i].len() implies #[trigger] t[i][j] != '\n' by {
                assert(lines[i + 1][j] != '\n');
            }
            lemma_kept_unbroken(t);
        } else if lines.last().len() == 0 {
            let t = lines.drop_last();
            assert forall|i: int, j: int|
                0 <= i < t.len() && 0 <= j < t[i].len() implies #[trigger] t[i][j] != '\n' by {
                assert(lines[i][j] != '\n');
            }
            lemma_kept_unbroken(t);
        }
    }
}

proof fn lemma_run_lines_unbroken(t: Seq<char>)
    ensures
        unbroken(run_lines(t)),
{
    lemma_pieces_hold_no_break(t, '\n');
    let raw = text::split(t, '\n');
    let lines = run_lines(t);
    assert forall|i: int, j: int| 0 <= i < lines.len() && 0 <= j < lines[i].len() implies #[trigger]
    lines[i][j] != '\n' by {
        let r = raw[i];
        reveal_strlit("//");
        let s = if r.len() > 0 && r.last() == '\r' {
            r.drop_last()
        } else {
            r
        };
        text::lemma_run_len(s, Class::Blank);
        let n = text::run_len(s, Class::Blank) as int;
        let u = s.skip(n);
        let w = without_marker(u);
        text::lemma_tail_len(w, Class::White);
        assert(lines[i] == text::trim_end(w));
        let shift = n + (u.len() - w.len());
        assert(lines[i][j] == w[j]);
        assert(w[j] == r[j + shift]);
        assert(raw[i][j + shift] != '\n');
    }
}

/// Whether every newline has a carriage return in front of it.
pub open spec fn all_crlf(s: Seq<char>) -> bool {
    forall|i: int| 0 <= i < s.len() && #[trigger] s[i] == '\n' ==> i > 0 && s[i - 1] == '\r'
}

proof fn lemma_all_crlf_concat(a: Seq<char>, b: Seq<char>)
    requires
        all_crlf(a),
        all_crlf(b),
    ensures
        all_crlf(a + b),
{
    let s = a + b;
    assert forall|i: int| 0 <= i < s.len() && #[trigger] s[i] == '\n' implies i > 0 && s[i - 1]
        == '\r' by {
        if i < a.len() {
            assert(a[i] == '\n');
        } else {
            assert(b[i - a.len()] == '\n');
        }
    }
}

proof fn lemma_rows_crlf(lines: Seq<Seq<char>>, indent: Seq<char>)
    requires
        unbroken(lines),
        text::all_of(indent, Class::Blank),
    ensures
        all_crlf(rows(lines, indent, "\r\n"@)),
    decreases lines.len(),
{
    reveal_strlit("\r\n");
    reveal_strlit(" *");
    reveal_strlit(" ");
    if lines.len() > 0 {
        let t = lines.drop_last();
        assert forall|i: int, j: int| 0 <= i < t.len() && 0 <= j < t[i].len() implies #[trigger]
        t[i][j] != '\n' by {
            assert(lines[i][j] != '\n');
        }
        lemma_rows_crlf(t, indent);
        let line = lines.last();
        let nl = "\r\n"@;
        assert forall|j: int| 0 <= j < line.len() implies line[j] != '\n' by {
            assert(lines[lines.len() - 1][j] != '\n');
        }
        assert forall|i: int| 0 <= i < indent.len() implies indent[i] != '\n' by {
            assert(Class::Blank.holds(indent[i]));
        }
        lemma_all_crlf_concat(nl, indent);
        lemma_all_crlf_concat(nl + indent, " *"@);
        lemma_all_crlf_concat(nl + indent + " *"@, " "@);
        lemma_all_crlf_concat(nl + indent + " *"@ + " "@, line);
        lemma_all_crlf_concat(rows(t, indent, nl), row(line, indent, nl));
    }
}

/// A block with CRLF line endings has no bare newline in it.
pub proof fn law_crlf_block_has_no_bare_newline(c: Comment)
    requires
        ending(c) == "\r\n"@,
        text::all_of(c.line_indent_bytes@, Class::Blank),
        conversion(c) is Some,
    ensures
        all_crlf((conversion(c)->0).text),
{
    reveal_strlit("\r\n");
    reveal_strlit("/*");
    reveal_strlit(" */");
    let indent = c.line_indent_bytes@;
    let lines = kept(run_lines(c.text@));
    lemma_run_lines_unbroken(c.text@);
    lemma_kept_unbroken(run_lines(c.text@));
    lemma_rows_crlf(lines, indent);
    assert forall|i: int| 0 <= i < indent.len() implies indent[i] != '\n' by {
        assert(Class::Blank.holds(indent[i]));
    }
    let nl = "\r\n"@;
    let r = rows(lines, indent, nl);
    lemma_all_crlf_concat("/*"@, r);
    lemma_all_crlf_concat("/*"@ + r, nl);
    lemma_all_crlf_concat("/*"@ + r + nl, indent);
    lemma_all_crlf_concat("/*"@ + r + nl + indent, " */"@);
}

/// Whether no line ends in white space.
pub open spec fn all_trimmed(lines: Seq<Seq<char>>) -> bool {
    forall|i: int|
        0 <= i < lines.len() && (#[trigger] lines[i]).len() > 0 ==> !text::is_white(lines[i].last())
}

proof fn lemma_kept_trimmed(lines: Seq<Seq<char>>)
    requires
        all_trimmed(lines),
    ensures
        all_trimmed(kept(lines)),
    decreases lines.len(),
{
    if lines.len() > 0 {
        if lines[0].len() == 0 {
            let t = lines.drop_first();
            assert forall|i: int| 0 <= i < t.len() && (#[trigger] t[i]).len() > 0 implies !text::is_white(
                t[i].last(),
            ) by {
                assert(t[i] == lines[i + 1]);
            }
            lemma_kept_trimmed(t);
        } else if lines.last().len() == 0 {
            let t = lines.drop_last();
            assert forall|i: int| 0 <= i < t.len() && (#[trigger] t[i]).len() > 0 implies !text::is_white(
                t[i].last(),
            ) by {
                assert(t[i] == lines[i]);
            }
            lemma_kept_trimmed(t);
        }
    }
}

proof fn lemma_run_lines_trimmed(t: Seq<char>)
    ensures
        all_trimmed(run_lines(t)),
{
    let raw = text::split(t, '\n');
    let lines = run_lines(t);
    assert forall|i: int|
        0 <= i < lines.len() && (#[trigger] lines[i]).len() > 0 implies !text::is_white(
        lines[i].last(),
    ) by {
        let r = raw[i];
        let s = if r.len() > 0 && r.last() == '\r' {
            r.drop_last()
        } else {
            r
        };
        let w = without_marker(s.skip(text::run_len(s, Class::Blank) as int));
        text::lemma_tail_len(w, Class::White);
        assert(lines[i] == text::trim_end(w));
        assert(lines[i].last() == w[lines[i].len() - 1]);
        assert(!Class::White.holds(w[w.len() - text::tail_len(w, Class::White) - 1]));
    }
}

proof fn lemma_unbroken_pair_free(line: Seq<char>)
    requires
        forall|j: int| 0 <= j < line.len() ==> line[j] != '\n',
    ensures
        no_pair(line, '\r', '\n'),
{
}

proof fn lemma_rows_lf(lines: Seq<Seq<char>>, indent: Seq<char>)
    requires
        unbroken(lines),
        all_trimmed(lines),
        text::all_of(indent, Class::Blank),
    ensures
        no_pair(rows(lines, indent, "\n"@), '\r', '\n'),
        rows(lines, indent, "\n"@).len() > 0 ==> rows(lines, indent, "\n"@).last() != '\r',
    decreases lines.len(),
{
    reveal_strlit("\n");
    reveal_strlit(" *");
    reveal_strlit(" ");
    if lines.len() > 0 {
        let t = lines.drop_last();
        assert forall|i: int, j: int| 0 <= i < t.len() && 0 <= j < t[i].len() implies #[trigger]
        t[i][j] != '\n' by {
            assert(lines[i][j] != '\n');
        }
        assert forall|i: int| 0 <= i < t.len() && (#[trigger] t[i]).len() > 0 implies !text::is_white(
            t[i].last(),
        ) by {
            assert(t[i] == lines[i]);
        }
        lemma_rows_lf(t, indent);
        let line = lines.last();
        let nl = "\n"@;
        assert(line == lines[lines.len() - 1]);
        assert forall|j: int| 0 <= j < line.len() implies line[j] != '\n' by {
            assert(lines[lines.len() - 1][j] != '\n');
        }
        lemma_unbroken_pair_free(line);
        assert forall|i: int| 0 <= i < indent.len() implies indent[i] == ' ' || indent[i] == '\t' by {
            assert(Class::Blank.holds(indent[i]));
        }
        lemma_no_pair_concat(nl, indent, '\r', '\n');
        lemma_no_pair_concat(nl + indent, " *"@, '\r', '\n');
        lemma_no_pair_concat(nl + indent + " *"@, " "@, '\r', '\n');
        lemma_no_pair_concat(nl + indent + " *"@ + " "@, line, '\r', '\n');
        lemma_no_pair_concat(rows(t, indent, nl), row(line, indent, nl), '\r', '\n');
        assert(line.len() > 0 ==> line.last() != '\r');
    }
}

/// A block with bare newlines has no CRLF line ending in it.
pub proof fn law_lf_block_has_no_crlf(c: Comment)
    requires
        ending(c) == "\n"@,
        text::all_of(c.line_indent_bytes@, Class::Blank),
        conversion(c) is Some,
    ensures
        !text::has((conversion(c)->0).text, "\r\n"@),
{
    reveal_strlit("\n");
    reveal_strlit("\r\n");
    reveal_strlit("/*");
    reveal_strlit(" */");
    let indent = c.line_indent_bytes@;
    let lines = kept(run_lines(c.text@));
    lemma_run_lines_unbroken(c.text@);
    lemma_kept_unbroken(run_lines(c.text@));
    lemma_run_lines_trimmed(c.text@);
    lemma_kept_trimmed(run_lines(c.text@));
    lemma_rows_lf(lines, indent);
    assert forall|i: int| 0 <= i < indent.len() implies indent[i] == ' ' || indent[i] == '\t' by {
        assert(Class::Blank.holds(indent[i]));
    }
    let nl = "\n"@;
    let r = rows(lines, indent, nl);
    lemma_no_pair_concat("/*"@, r, '\r', '\n');
    lemma_no_pair_concat("/*"@ + r, nl, '\r', '\n');
    lemma_no_pair_concat("/*"@ + r + nl, indent, '\r', '\n');
    lemma_no_pair_concat("/*"@ + r + nl + indent, " */"@, '\r', '\n');
    let full = (conversion(c)->0).text;
    assert("\r\n"@ =~= seq!['\r', '\n']);
    assert forall|i: int| !#[trigger] text::stands_at(full, "\r\n"@, i) by {
        text::lemma_pair_at(full, '\r', '\n', i);
    }
}

/// A comment whose line breaks are all alike is converted with that line break.
pub proof fn law_block_keeps_the_line_ending(c: Comment)
    requires
        text::occurrences(c.text@, "\n"@, 0) > 0,
    ensures
        text::occurrences(c.text@, "\r\n"@, 0) == text::occurrences(c.text@, "\n"@, 0) ==> ending(c)
            == "\r\n"@,
        text::occurrences(c.text@, "\r\n"@, 0) == 0 ==> ending(c) == "\n"@,
{
}

/// Every edit of a conversion replaces a plain "//" comment: it begins where the
/// comment does and ends where it does, but for a carriage return.
pub proof fn law_only_plain_comments_convert(comments: Seq<Comment>, k: int)
    requires
        0 <= k < conversions(comments).len(),
    ensures
        exists|i: int|
            0 <= i < comments.len() && plain_line(#[trigger] comments[i]) && conversion(comments[i])
                == Some(conversions(comments)[k]),
    decreases comments.len(),
{
    let t = comments.drop_last();
    let c = comments.last();
    if k < conversions(t).len() {
        law_only_plain_comments_convert(t, k);
        let i = choose|i: int|
            0 <= i < t.len() && plain_line(#[trigger] t[i]) && conversion(t[i]) == Some(
                conversions(t)[k],
            );
        assert(comments[i] == t[i]);
        assert(conversions(comments)[k] == conversions(t)[k]);
    } else {
        assert(comments[comments.len() - 1] == c);
    }
}

proof fn lemma_last_byte_of_cr(t: Seq<char>)
    requires
        text::ends_with(t, "\r"@),
    ensures
        encode_utf8(t).len() > 0,
        encode_utf8(t).last() == 0x0d,
        encode_utf8(t).len() >= t.len(),
{
    reveal_strlit("\r");
    assert("\r"@ =~= seq!['\r']);
    text::lemma_one_at(t, '\r', t.len() - 1);
    let head = t.drop_last();
    assert(t =~= head + seq!['\r']);
    offsets::lemma_encode_concat(head, seq!['\r']);
    is_ascii_chars_encode_utf8(seq!['\r']);
    lemma_bytes_at_least_chars(t);
}

proof fn lemma_bytes_at_least_chars(t: Seq<char>)
    ensures
        encode_utf8(t).len() >= t.len(),
    decreases t.len(),
{
    if t.len() > 0 {
        lemma_bytes_at_least_chars(t.drop_first());
    }
}

/// The range that a conversion replaces lies in its comment, is not empty and is
/// cut at character boundaries.
proof fn lemma_conversion_range(comments: Seq<Comment>, source: Seq<char>, i: int)
    requires
        parse::extracted(comments, source),
        0 <= i < comments.len(),
        plain_line(comments[i]),
        conversion(comments[i]) is Some,
    ensures
        ({
            let e = conversion(comments[i])->0;
            &&& e.start == comments[i].start_byte
            &&& e.start < e.end <= comments[i].end_byte
            &&& offsets::sliceable(encode_utf8(source), e.start as int, e.end as int)
        }),
{
    let c = comments[i];
    let b = encode_utf8(source);
    encode_utf8_valid_utf8(source);
    if text::ends_with(c.text@, "\r"@) {
        lemma_last_byte_of_cr(c.text@);
        offsets::lemma_slice_bytes(source, c.start_byte as int, c.end_byte as int);
        let own = b.subrange(c.start_byte as int, c.end_byte as int);
        assert(own.last() == b[c.end_byte - 1]);
        reveal_strlit("//");
        reveal_strlit("\r");
        assert(c.text@.len() >= 2);
        is_char_boundary_iff_is_leading_byte(b, c.end_byte - 1);
        assert(is_char_boundary(b, c.end_byte - 1));
    }
}

/// Where a comment stands among those whose conversions make up a plan.
pub open spec fn from_comment(e: Edit, comments: Seq<Comment>, i: int) -> bool {
    0 <= i < comments.len() && plain_line(comments[i]) && conversion(comments[i]) == Some(e)
}

/// Whether an edit converts one of the first "n" comments.
pub open spec fn converts_one_of(e: Edit, comments: Seq<Comment>, n: int) -> bool {
    exists|i: int| i < n && #[trigger] from_comment(e, comments, i)
}

proof fn lemma_conversions_in_order(comments: Seq<Comment>, source: Seq<char>, n: int)
    requires
        parse::extracted(comments, source),
        0 <= n <= comments.len(),
    ensures
        forall|k: int|
            0 <= k < conversions(comments.take(n)).len() ==> converts_one_of(
                #[trigger] conversions(comments.take(n))[k],
                comments,
                n,
            ),
        forall|k: int, m: int|
            #![trigger conversions(comments.take(n))[k], conversions(comments.take(n))[m]]
            0 <= k < m < conversions(comments.take(n)).len() ==> conversions(comments.take(n))[k].end
                <= conversions(comments.take(n))[m].start,
    decreases n,
{
    if n > 0 {
        lemma_conversions_in_order(comments, source, n - 1);
        let all = conversions(comments.take(n));
        let before = conversions(comments.take(n - 1));
        let c = comments[n - 1];
        assert(comments.take(n).drop_last() =~= comments.take(n - 1));
        assert(comments.take(n).last() == c);
        assert forall|k: int| 0 <= k < all.len() implies converts_one_of(
            #[trigger] all[k],
            comments,
            n,
        ) by {
            if k < before.len() {
                assert(all[k] == before[k]);
                assert(converts_one_of(before[k], comments, n - 1));
                let i = choose|i: int| i < n - 1 && #[trigger] from_comment(before[k], comments, i);
                assert(from_comment(all[k], comments, i));
            } else {
                assert(from_comment(all[k], comments, n - 1));
            }
        }
        assert forall|k: int, m: int|
            #![trigger all[k], all[m]]
            0 <= k < m < all.len() implies all[k].end <= all[m].start by {
            assert(all[k] == before[k]);
            if m < before.len() {
                assert(all[m] == before[m]);
            } else {
                assert(converts_one_of(before[k], comments, n - 1));
                let i = choose|i: int| i < n - 1 && #[trigger] from_comment(before[k], comments, i);
                lemma_conversion_range(comments, source, i);
                lemma_conversion_range(comments, source, n - 1);
                assert(comments[i].end_byte <= comments[n - 1].start_byte);
            }
        }
    }
}

proof fn lemma_sorted_stays(plan: Seq<Edit>)
    requires
        forall|k: int, m: int|
            #![trigger plan[k], plan[m]]
            0 <= k < m < plan.len() ==> rewrite::key_le(plan[k], plan[m]),
    ensures
        rewrite::sorted(plan) == plan,
    decreases plan.len(),
{
    if plan.len() > 0 {
        let t = plan.drop_last();
        assert forall|k: int, m: int|
            #![trigger t[k], t[m]]
            0 <= k < m < t.len() implies rewrite::key_le(t[k], t[m]) by {
            assert(rewrite::key_le(plan[k], plan[m]));
        }
        lemma_sorted_stays(t);
        if t.len() > 0 {
            assert(rewrite::key_le(plan[plan.len() - 2], plan[plan.len() - 1]));
            assert(t.last() == plan[plan.len() - 2]);
        }
        assert(t.push(plan.last()) =~= plan);
    }
}

proof fn lemma_ordered_plan_is_valid(
    plan: Seq<Edit>,
    k: int,
    last_end: int,
    source: Seq<char>,
    comments: Seq<Comment>,
)
    requires
        parse::extracted(comments, source),
        0 <= k <= plan.len(),
        k < plan.len() ==> last_end <= plan[k].start,
        forall|m: int|
            0 <= m < plan.len() ==> converts_one_of(
                #[trigger] plan[m],
                comments,
                comments.len() as int,
            ),
        forall|m: int, n: int|
            #![trigger plan[m], plan[n]]
            0 <= m < n < plan.len() ==> plan[m].end <= plan[n].start,
    ensures
        rewrite::first_fault(plan, k, last_end, encode_utf8(source), comments) is None,
    decreases plan.len() - k,
{
    if k < plan.len() {
        let b = encode_utf8(source);
        let r = plan[k];
        assert(converts_one_of(plan[k], comments, comments.len() as int));
        let i = choose|i: int|
            i < comments.len() && #[trigger] from_comment(plan[k], comments, i);
        lemma_conversion_range(comments, source, i);
        assert(r.start == comments[i].start_byte);
        assert forall|j: int|
            0 <= j < comments.len() implies (#[trigger] comments[j]).start_byte
            <= comments[j].end_byte by {}
        assert(rewrite::in_order(comments));
        assert forall|j: int|
            #![trigger b[j]]
            rewrite::covers(r, j) implies rewrite::is_space_byte(b[j]) || rewrite::in_comment(
            comments,
            j,
        ) by {
            assert(comments[i].start_byte <= j < comments[i].end_byte);
        }
        rewrite::law_coverage_rule(r, last_end, b, comments);
        if k + 1 < plan.len() {
            assert(plan[k].end <= plan[k + 1].start);
        }
        lemma_ordered_plan_is_valid(plan, k + 1, r.end as int, source, comments);
    }
}

/// The conversion plan for the comments extracted from a source always passes
/// validation, and every comment of it can be converted.
pub proof fn law_conversion_plan_is_valid(source: Seq<char>, comments: Seq<Comment>)
    requires
        parse::extracted(comments, source),
    ensures
        rewrite::plan_fault(conversions(comments), source, comments) is None,
        convertible(comments),
{
    lemma_conversions_in_order(comments, source, comments.len() as int);
    assert(comments.take(comments.len() as int) =~= comments);
    let plan = conversions(comments);
    assert forall|m: int, n: int|
        #![trigger plan[m], plan[n]]
        0 <= m < n < plan.len() implies rewrite::key_le(plan[m], plan[n]) by {
        assert(converts_one_of(plan[m], comments, comments.len() as int));
        let i = choose|i: int| i < comments.len() && #[trigger] from_comment(plan[m], comments, i);
        lemma_conversion_range(comments, source, i);
        assert(plan[m].end <= plan[n].start);
    }
    lemma_sorted_stays(plan);
    lemma_ordered_plan_is_valid(plan, 0, 0, source, comments);
}

} // verus!
