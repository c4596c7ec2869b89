//! Laws of the conversion from line comments to block comments.

use vstd::prelude::*;

use crate::convert;
use crate::laws::characters;
use crate::parse::Comment;
use crate::rewrite::Edit;
use crate::text;
use crate::text::Class;

verus! {

broadcast use vstd::string::group_string_axioms;

/// What is kept of the lines: everything from the first one with text in it to
/// the last such line, whatever stands between them and however many they are.
pub proof fn law_kept_lines(lines: Seq<Seq<char>>, first: int, last: int)
    requires
        0 <= first <= last < lines.len(),
        lines[first].len() > 0,
        lines[last].len() > 0,
        forall|j: int| 0 <= j < first ==> (#[trigger] lines[j]).len() == 0,
        forall|j: int| last < j < lines.len() ==> (#[trigger] lines[j]).len() == 0,
    ensures
        convert::kept(lines) == lines.subrange(first, last + 1),
    decreases lines.len(),
{
    if first > 0 {
        let rest = lines.drop_first();
        assert forall|j: int| 0 <= j < first - 1 implies (#[trigger] rest[j]).len() == 0 by {
            assert(rest[j] == lines[j + 1]);
        }
        assert forall|j: int| last - 1 < j < rest.len() implies (#[trigger] rest[j]).len() == 0 by {
            assert(rest[j] == lines[j + 1]);
        }
        law_kept_lines(rest, first - 1, last - 1);
        assert(rest.subrange(first - 1, last) =~= lines.subrange(first, last + 1));
    } else if last < lines.len() - 1 {
        let rest = lines.drop_last();
        assert forall|j: int| last < j < rest.len() implies (#[trigger] rest[j]).len() == 0 by {
            assert(rest[j] == lines[j]);
        }
        law_kept_lines(rest, first, last);
        assert(rest.subrange(first, last + 1) =~= lines.subrange(first, last + 1));
    } else {
        assert(lines.subrange(0, lines.len() as int) =~= lines);
    }
}

/// Where no line has text in it, nothing is kept.
pub proof fn law_empty_lines_leave_nothing(lines: Seq<Seq<char>>)
    requires
        forall|j: int| 0 <= j < lines.len() ==> (#[trigger] lines[j]).len() == 0,
    ensures
        convert::kept(lines) == Seq::<Seq<char>>::empty(),
    decreases lines.len(),
{
    if lines.len() > 0 {
        let rest = lines.drop_first();
        assert forall|j: int| 0 <= j < rest.len() implies (#[trigger] rest[j]).len() == 0 by {
            assert(rest[j] == lines[j + 1]);
        }
        law_empty_lines_leave_nothing(rest);
    }
}

/// The text of a line: what stands behind its indentation, its marker and one
/// space, up to its last character that is no white space.
pub proof fn law_line_text(pad: Seq<char>, t: Seq<char>, u: Seq<char>)
    requires
        forall|j: int| 0 <= j < pad.len() ==> #[trigger] pad[j] == ' ' || pad[j] == '\t',
        t == seq!['/', '/', ' '] + u || (t == seq!['/', '/'] + u && (u.len() > 0 ==> u[0] != ' '))
            || (t == u && (u.len() > 0 ==> u[0] != ' ' && u[0] != '\t') && (u.len() > 1 ==> !(u[0]
            == '/' && u[1] == '/'))),
        t.len() > 0 ==> t.last() != '\r',
    ensures
        convert::line_text(pad + t) == text::trim_end(u),
        convert::line_text((pad + t).push('\r')) == text::trim_end(u),
{
    let s = pad + t;
    let n = pad.len() as int;
    assert(s.len() > 0 ==> s.last() != '\r');
    assert forall|j: int| 0 <= j < n implies Class::Blank.holds(#[trigger] s[j]) by {
        assert(s[j] == pad[j]);
    }
    if t.len() > 0 {
        assert(s[n] == t[0]);
    }
    text::lemma_run_len_is(s, Class::Blank, n);
    assert(s.skip(n) =~= t);
    reveal_strlit("//");
    assert("//"@ =~= seq!['/', '/']);
    text::lemma_pair_at(t, '/', '/', 0);
    if t == seq!['/', '/', ' '] + u {
        assert(t.skip(3) =~= u);
    } else if t == seq!['/', '/'] + u && (u.len() > 0 ==> u[0] != ' ') {
        assert(t.skip(2) =~= u);
        if u.len() > 0 {
            assert(t[2] == u[0]);
        }
    }
    assert(s.push('\r').drop_last() =~= s);
}

/// The lines of a run are the texts of what its newlines separate.
pub proof fn law_run_lines(a: Seq<char>, rest: Seq<char>)
    requires
        forall|k: int| 0 <= k < a.len() ==> #[trigger] a[k] != '\n',
    ensures
        convert::run_lines(a) == seq![convert::line_text(a)],
        convert::run_lines(a.push('\n') + rest) == seq![convert::line_text(a)]
            + convert::run_lines(rest),
{
    characters::law_cutting(a, '\n', rest);
    let f = |raw: Seq<char>| convert::line_text(raw);
    assert(seq![a].map_values(f) =~= seq![convert::line_text(a)]);
    assert((seq![a] + text::split(rest, '\n')).map_values(f) =~= seq![convert::line_text(a)]
        + text::split(rest, '\n').map_values(f));
}

/// A line is a row of the block: a line ending, the indentation, " *" and, where
/// it has text, a space and the text.
pub proof fn law_rows(
    before: Seq<Seq<char>>,
    line: Seq<char>,
    indent: Seq<char>,
    nl: Seq<char>,
)
    ensures
        line.len() > 0 ==> convert::row(line, indent, nl) == nl + indent + seq![' ', '*', ' ']
            + line,
        convert::row(Seq::empty(), indent, nl) == nl + indent + seq![' ', '*'],
        convert::rows(Seq::empty(), indent, nl) == Seq::<char>::empty(),
        convert::rows(before.push(line), indent, nl) == convert::rows(before, indent, nl)
            + convert::row(line, indent, nl),
{
    reveal_strlit(" *");
    reveal_strlit(" ");
    assert(" *"@ =~= seq![' ', '*']);
    assert(" "@ =~= seq![' ']);
    assert(nl + indent + " *"@ + " "@ + line =~= nl + indent + seq![' ', '*', ' '] + line);
    assert(before.push(line).drop_last() =~= before);
}

/// A block is an opener, its rows and a closer in the column of the opener.
pub proof fn law_block_layout(lines: Seq<Seq<char>>, indent: Seq<char>, nl: Seq<char>)
    ensures
        convert::block(lines, indent, nl) == seq!['/', '*'] + convert::rows(lines, indent, nl) + nl
            + indent + seq![' ', '*', '/'],
{
    reveal_strlit("/*");
    reveal_strlit(" */");
    assert("/*"@ =~= seq!['/', '*']);
    assert(" */"@ =~= seq![' ', '*', '/']);
}

/// Every line of the run with text in it appears in the block, as a row of its
/// own: in front of it stand the rows of the lines above it, and behind it those
/// of the lines below it.
pub proof fn law_every_line_is_in_the_block(
    lines: Seq<Seq<char>>,
    i: int,
    indent: Seq<char>,
    nl: Seq<char>,
)
    requires
        0 <= i < lines.len(),
    ensures
        convert::rows(lines, indent, nl) == convert::rows(lines.take(i), indent, nl) + convert::row(
            lines[i],
            indent,
            nl,
        ) + convert::rows(lines.skip(i + 1), indent, nl),
    decreases lines.len(),
{
    let above = lines.take(i);
    let below = lines.skip(i + 1);
    if i == lines.len() - 1 {
        assert(lines.drop_last() =~= above);
        assert(below.len() == 0);
    } else {
        let rest = lines.drop_last();
        law_every_line_is_in_the_block(rest, i, indent, nl);
        assert(rest.take(i) =~= above);
        assert(rest.skip(i + 1) =~= below.drop_last());
        assert(below.last() == lines.last());
    }
}

/// What a comment is converted to: nothing where no line has text or where one
/// holds an end or a beginning of a block comment, and otherwise the block of the
/// lines from the first with text to the last, over the whole comment without a
/// carriage return at its end.
pub proof fn law_conversion(c: Comment, first: int, last: int)
    requires
        ({
            let lines = convert::run_lines(c.text@);
            &&& 0 <= first <= last < lines.len()
            &&& lines[first].len() > 0
            &&& lines[last].len() > 0
            &&& forall|j: int| 0 <= j < first ==> (#[trigger] lines[j]).len() == 0
            &&& forall|j: int| last < j < lines.len() ==> (#[trigger] lines[j]).len() == 0
        }),
    ensures
        ({
            let lines = convert::run_lines(c.text@);
            let text = c.text@;
            &&& convert::conversion(c) is None <==> exists|j: int|
                first <= j <= last && (text::has(#[trigger] lines[j], seq!['*', '/']) || text::has(
                    lines[j],
                    seq!['/', '*'],
                ))
            &&& convert::conversion(c) matches Some(e) ==> {
                &&& e.start == c.start_byte
                &&& text.len() > 0 && text.last() == '\r' && c.end_byte > 0 ==> e.end + 1
                    == c.end_byte
                &&& text.len() == 0 || text.last() != '\r' ==> e.end == c.end_byte
                &&& e.text == convert::block(
                    lines.subrange(first, last + 1),
                    c.line_indent_bytes@,
                    convert::ending(c),
                )
            }
        }),
{
    let lines = convert::run_lines(c.text@);
    law_kept_lines(lines, first, last);
    let kept = lines.subrange(first, last + 1);
    reveal_strlit("*/");
    reveal_strlit("/*");
    reveal_strlit("\r");
    assert("*/"@ =~= seq!['*', '/']);
    assert("/*"@ =~= seq!['/', '*']);
    assert("\r"@ =~= seq!['\r']);
    text::lemma_one_at(c.text@, '\r', c.text@.len() - 1);
    assert forall|j: int| 0 <= j < kept.len() implies #[trigger] kept[j] == lines[first + j] by {}
    if convert::breaks_block(kept) {
        let j = choose|j: int|
            0 <= j < kept.len() && (text::has(#[trigger] kept[j], "*/"@) || text::has(
                kept[j],
                "/*"@,
            ));
        assert(kept[j] == lines[first + j]);
    }
    if exists|j: int|
        first <= j <= last && (text::has(#[trigger] lines[j], seq!['*', '/']) || text::has(
            lines[j],
            seq!['/', '*'],
        )) {
        let j = choose|j: int|
            first <= j <= last && (text::has(#[trigger] lines[j], seq!['*', '/']) || text::has(
                lines[j],
                seq!['/', '*'],
            ));
        assert(kept[j - first] == lines[j]);
    }
}

/// A comment without text is not converted.
pub proof fn law_no_text_no_conversion(c: Comment)
    requires
        ({
            let lines = convert::run_lines(c.text@);
            forall|j: int| 0 <= j < lines.len() ==> (#[trigger] lines[j]).len() == 0
        }),
    ensures
        convert::conversion(c) is None,
{
    law_empty_lines_leave_nothing(convert::run_lines(c.text@));
}

/// A comment can be converted unless it ends in a carriage return and its range
/// leaves none to drop.
pub proof fn law_well_ended(c: Comment, comments: Seq<Comment>)
    ensures
        c.end_byte > 0 ==> convert::well_ended(c),
        c.text@.len() == 0 || c.text@.last() != '\r' ==> convert::well_ended(c),
        (forall|i: int| 0 <= i < comments.len() ==> (#[trigger] comments[i]).end_byte > 0)
            ==> convert::convertible(comments),
{
    reveal_strlit("\r");
    assert("\r"@ =~= seq!['\r']);
    text::lemma_one_at(c.text@, '\r', c.text@.len() - 1);
}

/// The line ending of the block: the one that at least half of the comment's
/// breaks have, and the one at its end or of its file where it has no break.
pub proof fn law_ending(c: Comment)
    ensures
        ({
            let t = c.text@;
            let breaks = text::occurrences(t, seq!['\n'], 0);
            let pairs = text::occurrences(t, seq!['\r', '\n'], 0);
            let windows = if breaks > 0 {
                pairs + pairs >= breaks
            } else {
                (t.len() > 0 && t.last() == '\r') || c.fallback_ending@ == seq!['\r', '\n']
            };
            &&& windows ==> convert::ending(c) == seq!['\r', '\n']
            &&& !windows ==> convert::ending(c) == seq!['\n']
        }),
{
    reveal_strlit("\n");
    reveal_strlit("\r");
    reveal_strlit("\r\n");
    assert("\n"@ =~= seq!['\n']);
    assert("\r"@ =~= seq!['\r']);
    assert("\r\n"@ =~= seq!['\r', '\n']);
    text::lemma_one_at(c.text@, '\r', c.text@.len() - 1);
}

/// Exactly the plain line comments are converted: two slashes, no third one and
/// no exclamation mark, alone on their lines, and neither protected nor the
/// license line of the file. "n" is where the first line ends.
pub proof fn law_plain_lines(c: Comment, n: int)
    requires
        characters::run_ends(c.text@, 0, n, Class::Not('\n')),
    ensures
        ({
            let t = c.text@;
            let license = c.at_file_start && text::has(t.take(n), "SPDX-License-Identifier"@);
            &&& convert::file_start_spdx(c) <==> license
            &&& convert::plain_line(c) <==> {
                &&& t.len() >= 2 && t[0] == '/' && t[1] == '/'
                &&& t.len() > 2 ==> t[2] != '/' && t[2] != '!'
                &&& !c.is_trailing
                &&& !c.force_passthrough
                &&& !license
            }
        }),
{
    let t = c.text@;
    characters::law_runs(t, 0, n, Class::Not('\n'));
    reveal_strlit("//");
    reveal_strlit("///");
    reveal_strlit("//!");
    assert("//"@ =~= seq!['/', '/']);
    assert("///"@ =~= seq!['/', '/', '/']);
    assert("//!"@ =~= seq!['/', '/', '!']);
    characters::law_stands_at(t, seq!['/', '/'], 0);
    characters::law_stands_at(t, seq!['/', '/', '/'], 0);
    characters::law_stands_at(t, seq!['/', '/', '!'], 0);
    text::lemma_pair_at(t, '/', '/', 0);
    let a = seq!['/', '/', '/'];
    let b = seq!['/', '/', '!'];
    if text::stands_at(t, a, 0) {
        assert(a[2] == t[2]);
    }
    if text::stands_at(t, b, 0) {
        assert(b[2] == t[2]);
    }
}

/// Each comment stands for itself: the plan of a list is the plans of its parts,
/// and a comment by itself is planned exactly when it is plain and has a
/// conversion.
pub proof fn law_conversions_are_one_by_one(a: Seq<Comment>, c: Comment)
    ensures
        convert::conversions(Seq::empty()) == Seq::<Edit>::empty(),
        convert::plain_line(c) && convert::conversion(c) is Some ==> convert::conversions(a.push(c))
            == convert::conversions(a).push(convert::conversion(c)->0),
        !(convert::plain_line(c) && convert::conversion(c) is Some) ==> convert::conversions(
            a.push(c),
        ) == convert::conversions(a),
{
    assert(a.push(c).drop_last() =~= a);
}

} // verus!
