//! Laws of the diffs.

use vstd::prelude::*;

use crate::diff;
use crate::diff::{PartView, Sign};
use crate::text;
use crate::text::Class;

verus! {

broadcast use vstd::string::group_string_axioms;

/// The lines that are compared: each ends behind its newline, its carriage return
/// or both, and the last one with the text.
pub proof fn law_compared_lines(a: Seq<char>, rest: Seq<char>)
    requires
        forall|j: int| 0 <= j < a.len() ==> #[trigger] a[j] != '\n' && a[j] != '\r',
    ensures
        diff::diff_lines(Seq::empty()) == Seq::<Seq<char>>::empty(),
        a.len() > 0 ==> diff::diff_lines(a) == seq![a],
        diff::diff_lines(a.push('\n') + rest) == seq![a.push('\n')] + diff::diff_lines(rest),
        diff::diff_lines(a.push('\r').push('\n') + rest) == seq![a.push('\r').push('\n')]
            + diff::diff_lines(rest),
        rest.len() == 0 || rest[0] != '\n' ==> diff::diff_lines(a.push('\r') + rest) == seq![
            a.push('\r'),
        ] + diff::diff_lines(rest),
{
    let n = a.len() as int;
    text::lemma_run_len_is(a, Class::Unbroken, n);
    if n > 0 {
        assert(a.take(n) =~= a);
        assert(a.skip(n) =~= Seq::<char>::empty());
    }
    lemma_line(a, seq!['\n'], rest);
    lemma_line(a, seq!['\r', '\n'], rest);
    if rest.len() == 0 || rest[0] != '\n' {
        lemma_line(a, seq!['\r'], rest);
    }
    assert(a + seq!['\n'] =~= a.push('\n'));
    assert(a + seq!['\r'] =~= a.push('\r'));
    assert(a + seq!['\r', '\n'] =~= a.push('\r').push('\n'));
}

proof fn lemma_line(a: Seq<char>, end: Seq<char>, rest: Seq<char>)
    requires
        forall|j: int| 0 <= j < a.len() ==> #[trigger] a[j] != '\n' && a[j] != '\r',
        end == seq!['\n'] || end == seq!['\r', '\n'] || (end == seq!['\r'] && (rest.len() == 0
            || rest[0] != '\n')),
    ensures
        diff::diff_lines(a + end + rest) == seq![a + end] + diff::diff_lines(rest),
{
    let s = a + end + rest;
    let n = a.len() as int;
    assert forall|j: int| 0 <= j < n implies Class::Unbroken.holds(#[trigger] s[j]) by {
        assert(s[j] == a[j]);
    }
    assert(s[n] == end[0]);
    text::lemma_run_len_is(s, Class::Unbroken, n);
    if end.len() == 2 {
        assert(s[n + 1] == '\n');
    } else if n + 1 < s.len() {
        assert(s[n + 1] == rest[0]);
    }
    assert(diff::first_line_len(s) == n + end.len());
    assert(s.take(n + end.len()) =~= a + end);
    assert(s.skip(n + end.len()) =~= rest);
}

/// A shown line ends with a line ending, its own or a newline.
pub proof fn law_shown_lines_end(line: Seq<char>)
    ensures
        line.len() > 0 && (line.last() == '\n' || line.last() == '\r') ==> diff::ended(line) == line,
        !(line.len() > 0 && (line.last() == '\n' || line.last() == '\r')) ==> diff::ended(line)
            == line + seq!['\n'],
{
}

/// The two sides of the lines of a step: those of the old text are the equal and
/// the deleted ones, those of the new text the equal and the inserted ones.
pub proof fn law_sides(lines: Seq<(Sign, Seq<char>)>, l: Seq<char>)
    ensures
        diff::side(Seq::empty(), Sign::Insert) == Seq::<Seq<char>>::empty(),
        diff::side(Seq::empty(), Sign::Delete) == Seq::<Seq<char>>::empty(),
        diff::side(lines.push((Sign::Equal, l)), Sign::Insert) == diff::side(
            lines,
            Sign::Insert,
        ).push(l),
        diff::side(lines.push((Sign::Equal, l)), Sign::Delete) == diff::side(
            lines,
            Sign::Delete,
        ).push(l),
        diff::side(lines.push((Sign::Delete, l)), Sign::Insert) == diff::side(
            lines,
            Sign::Insert,
        ).push(l),
        diff::side(lines.push((Sign::Delete, l)), Sign::Delete) == diff::side(lines, Sign::Delete),
        diff::side(lines.push((Sign::Insert, l)), Sign::Insert) == diff::side(lines, Sign::Insert),
        diff::side(lines.push((Sign::Insert, l)), Sign::Delete) == diff::side(
            lines,
            Sign::Delete,
        ).push(l),
{
    assert(lines.push((Sign::Equal, l)).drop_last() =~= lines);
    assert(lines.push((Sign::Delete, l)).drop_last() =~= lines);
    assert(lines.push((Sign::Insert, l)).drop_last() =~= lines);
}

/// The lines of a step are shown one after the other, each behind a hyphen, a plus
/// sign or a space.
pub proof fn law_marked_lines(lines: Seq<(Sign, Seq<char>)>, l: Seq<char>)
    ensures
        diff::shown_lines(Seq::empty()) == Seq::<char>::empty(),
        diff::shown_lines(lines.push((Sign::Delete, l))) == diff::shown_lines(lines) + seq!['-'] + l,
        diff::shown_lines(lines.push((Sign::Insert, l))) == diff::shown_lines(lines) + seq!['+'] + l,
        diff::shown_lines(lines.push((Sign::Equal, l))) == diff::shown_lines(lines) + seq![' '] + l,
{
    assert(lines.push((Sign::Equal, l)).drop_last() =~= lines);
    assert(lines.push((Sign::Delete, l)).drop_last() =~= lines);
    assert(lines.push((Sign::Insert, l)).drop_last() =~= lines);
    assert(diff::shown_lines(lines) + (seq!['-'] + l) =~= diff::shown_lines(lines) + seq!['-'] + l);
    assert(diff::shown_lines(lines) + (seq!['+'] + l) =~= diff::shown_lines(lines) + seq!['+'] + l);
    assert(diff::shown_lines(lines) + (seq![' '] + l) =~= diff::shown_lines(lines) + seq![' '] + l);
}

/// The steps of a hunk are shown one after the other, and so are the hunks.
pub proof fn law_hunks_follow_each_other(
    parts: Seq<PartView>,
    p: PartView,
    groups: Seq<Seq<PartView>>,
    g: Seq<PartView>,
)
    ensures
        diff::shown_parts(Seq::empty()) == Seq::<char>::empty(),
        diff::shown_parts(parts.push(p)) == diff::shown_parts(parts) + diff::shown_lines(p.lines),
        diff::hunk(Seq::empty()) == Seq::<char>::empty(),
        g.len() > 0 ==> diff::hunk(g) == diff::hunk_header(g) + diff::shown_parts(g),
        diff::hunks(Seq::empty()) == Seq::<char>::empty(),
        diff::hunks(groups.push(g)) == diff::hunks(groups) + diff::hunk(g),
{
    assert(parts.push(p).drop_last() =~= parts);
    assert(groups.push(g).drop_last() =~= groups);
}

/// The head of a hunk names its first line and its number of lines, on both sides;
/// that of a diff names the file on both sides.
pub proof fn law_headers(group: Seq<PartView>, a: nat, m: nat, b: nat, n: nat, name: Seq<char>)
    requires
        group.len() > 0,
        a == group[0].old_start + 1,
        m == group[group.len() - 1].old_end - group[0].old_start,
        b == group[0].new_start + 1,
        n == group[group.len() - 1].new_end - group[0].new_start,
    ensures
        diff::hunk_header(group) == "@@ -"@ + text::decimal(a) + ","@ + text::decimal(m) + " +"@
            + text::decimal(b) + ","@ + text::decimal(n) + " @@\n"@,
        diff::file_header(name) == "--- "@ + name + "\n"@ + "+++ "@ + name + "\n"@,
{
}

/// A diff is its head and its hunks, with three lines of context; it is there
/// exactly when the lines can be numbered and the hunks' heads can be written.
pub proof fn law_diffs(old_text: Seq<char>, new_text: Seq<char>, name: Seq<char>)
    ensures
        ({
            let groups = diff::line_changes(old_text, new_text, 3);
            let numbered = (diff::diff_lines(old_text) + diff::diff_lines(new_text)).to_set().len()
                <= u32::MAX;
            let written = forall|i: int|
                0 <= i < groups.len() && (#[trigger] groups[i]).len() > 0 ==> {
                    let first = groups[i][0];
                    let last = groups[i][groups[i].len() - 1];
                    &&& first.old_start <= last.old_end && first.old_start + 1 <= usize::MAX
                    &&& first.new_start <= last.new_end && first.new_start + 1 <= usize::MAX
                };
            &&& numbered && written ==> diff::unified_text(old_text, new_text, name) == Some(
                diff::file_header(name) + diff::hunks(groups),
            )
            &&& !(numbered && written) ==> diff::unified_text(old_text, new_text, name) is None
        }),
{
    let groups = diff::line_changes(old_text, new_text, 3);
    if diff::printable(groups) {
        assert forall|i: int| 0 <= i < groups.len() && (#[trigger] groups[i]).len() > 0 implies {
            let first = groups[i][0];
            let last = groups[i][groups[i].len() - 1];
            &&& first.old_start <= last.old_end && first.old_start + 1 <= usize::MAX
            &&& first.new_start <= last.new_end && first.new_start + 1 <= usize::MAX
        } by {
            assert(diff::well_ordered(groups[i]));
        }
    } else {
        let i = choose|i: int| 0 <= i < groups.len() && !diff::well_ordered(#[trigger] groups[i]);
        assert(groups[i].len() > 0);
    }
}

} // verus!
