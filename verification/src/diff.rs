//! Unified diffs: what is printed of two versions of a source.
//!
//! Which lines changed is for the "similar" crate to find; how that is written
//! down is decided here.

use similar::{ChangeTag, DiffOp, TextDiff};
use vstd::prelude::*;
use vstd::slice::slice_subrange;

use crate::text;
use crate::text::Class;

verus! {

broadcast use vstd::string::group_string_axioms;

/// The number of unchanged lines shown around a change.
pub const CONTEXT: usize = 3;

/// What happened to a line.
#[derive(Debug, Clone, Copy, PartialEq, Eq, Structural)]
pub enum Sign {
    Delete,
    Insert,
    Equal,
}

impl Sign {
    /// The character in front of the line.
    pub open spec fn mark(self) -> char {
        match self {
            Sign::Delete => '-',
            Sign::Insert => '+',
            Sign::Equal => ' ',
        }
    }

    fn sigil(self) -> (c: char)
        ensures
            c == self.mark(),
    {
        match self {
            Sign::Delete => '-',
            Sign::Insert => '+',
            Sign::Equal => ' ',
        }
    }
}

/// One step of a change: a range of old lines, the range of new lines that takes
/// its place, and the lines to show for it.
pub struct Part {
    pub old_start: usize,
    pub old_end: usize,
    pub new_start: usize,
    pub new_end: usize,
    pub lines: Vec<(Sign, String)>,
}

/// A step of a change as plain data.
#[verifier::ext_equal]
pub struct PartView {
    pub old_start: usize,
    pub old_end: usize,
    pub new_start: usize,
    pub new_end: usize,
    pub lines: Seq<(Sign, Seq<char>)>,
}

impl View for Part {
    type V = PartView;

    open spec fn view(&self) -> PartView {
        PartView {
            old_start: self.old_start,
            old_end: self.old_end,
            new_start: self.new_start,
            new_end: self.new_end,
            lines: self.lines@.map_values(|l: (Sign, String)| (l.0, l.1@)),
        }
    }
}

/// The groups of steps as plain data.
pub open spec fn group_views(groups: Seq<Vec<Part>>) -> Seq<Seq<PartView>> {
    groups.map_values(|g: Vec<Part>| g@.map_values(|p: Part| p@))
}

/// The length of the first line of a text, with its ending: a newline, a carriage
/// return, or the two together.
pub open spec fn first_line_len(s: Seq<char>) -> int {
    let n = text::run_len(s, Class::Unbroken) as int;
    if n >= s.len() {
        s.len() as int
    } else if s[n] == '\r' && n + 1 < s.len() && s[n + 1] == '\n' {
        n + 2
    } else {
        n + 1
    }
}

/// The lines that a comparison goes by, with their endings.
pub open spec fn diff_lines(s: Seq<char>) -> Seq<Seq<char>>
    decreases s.len(),
{
    if s.len() == 0 {
        Seq::empty()
    } else {
        proof {
            text::lemma_run_len(s, Class::Unbroken);
        }
        seq![s.take(first_line_len(s))] + diff_lines(s.skip(first_line_len(s)))
    }
}

/// The different lines of two texts.
pub open spec fn distinct_lines(old_text: Seq<char>, new_text: Seq<char>) -> Set<Seq<char>> {
    (diff_lines(old_text) + diff_lines(new_text)).to_set()
}

/// Whether two texts can be compared: "similar" numbers their different lines in
/// 32 bits.
pub open spec fn comparable(old_text: Seq<char>, new_text: Seq<char>) -> bool {
    distinct_lines(old_text, new_text).len() <= u32::MAX
}

/// A line as it is shown: with a newline, where it has no ending of its own.
pub open spec fn ended(line: Seq<char>) -> Seq<char> {
    if line.len() > 0 && (line.last() == '\n' || line.last() == '\r') {
        line
    } else {
        line.push('\n')
    }
}

/// The texts of some shown lines, but for those with one sign: without the
/// insertions they are the old side, without the deletions the new one.
pub open spec fn side(lines: Seq<(Sign, Seq<char>)>, left_out: Sign) -> Seq<Seq<char>>
    decreases lines.len(),
{
    if lines.len() == 0 {
        Seq::empty()
    } else if lines.last().0 == left_out {
        side(lines.drop_last(), left_out)
    } else {
        side(lines.drop_last(), left_out).push(lines.last().1)
    }
}

/// Whether some shown lines are the lines "start .. end" of a text.
pub open spec fn are_lines_of(shown: Seq<Seq<char>>, s: Seq<char>, start: usize, end: usize) -> bool {
    &&& start <= end
    &&& shown.len() == end - start
    &&& start < end ==> end <= diff_lines(s).len()
    &&& forall|k: int|
        0 <= k < shown.len() ==> #[trigger] shown[k] == ended(diff_lines(s)[start + k])
}

/// Whether a step shows, on either side, the lines of that text that its range
/// names.
pub open spec fn drawn_from(p: PartView, old_text: Seq<char>, new_text: Seq<char>) -> bool {
    &&& are_lines_of(side(p.lines, Sign::Insert), old_text, p.old_start, p.old_end)
    &&& are_lines_of(side(p.lines, Sign::Delete), new_text, p.new_start, p.new_end)
}

/// Whether every step does.
pub open spec fn all_drawn_from(
    groups: Seq<Seq<PartView>>,
    old_text: Seq<char>,
    new_text: Seq<char>,
) -> bool {
    forall|i: int, j: int|
        0 <= i < groups.len() && 0 <= j < groups[i].len() ==> drawn_from(
            #[trigger] groups[i][j],
            old_text,
            new_text,
        )
}

/// The groups of changes that "similar" finds between two texts, with so many
/// unchanged lines around each.
pub uninterp spec fn line_changes(old_text: Seq<char>, new_text: Seq<char>, context: usize) -> Seq<
    Seq<PartView>,
>;

/// Compares two texts line by line. The work is done by "TextDiff::from_lines"
/// and "TextDiff::grouped_ops" of "similar", the ranges come from
/// "DiffOp::as_tag_tuple" and the lines from "TextDiff::iter_changes", each
/// written as "Change" displays itself, which adds a newline where a last line
/// lacks one. Claimed is that the two texts and the number of context lines decide
/// the result, and that each step shows the lines that its ranges name: the lines
/// signed equal or delete are those of the old text, the lines signed equal or
/// insert those of the new one. That a step's ranges begin where those of the step
/// before it end is not claimed: where a step only deletes or only inserts, the
/// empty range on the other side may lie elsewhere. The limit is that of the 32-bit numbers that "similar"
/// gives the different lines of both texts.
#[verifier::external_body]
fn grouped_changes(old_text: &str, new_text: &str, context: usize) -> (groups: Vec<Vec<Part>>)
    requires
        comparable(old_text@, new_text@),
        context <= 0xffff,
    ensures
        group_views(groups@) == line_changes(old_text@, new_text@, context),
        all_drawn_from(group_views(groups@), old_text@, new_text@),
{
    let diff = TextDiff::from_lines(old_text, new_text);
    let sign = |tag: ChangeTag| match tag {
        ChangeTag::Equal => Sign::Equal,
        ChangeTag::Delete => Sign::Delete,
        ChangeTag::Insert => Sign::Insert,
    };
    let part = |op: &DiffOp| {
        let (_, o, n) = op.as_tag_tuple();
        let lines = diff.iter_changes(op).map(|c| (sign(c.tag()), c.to_string())).collect();
        Part { old_start: o.start, old_end: o.end, new_start: n.start, new_end: n.end, lines }
    };
    diff.grouped_ops(context).iter().map(|g| g.iter().map(part).collect()).collect()
}

/// Whether a group covers ranges that a hunk header can name: they do not run
/// backwards, and their first line has a number.
pub open spec fn well_ordered(group: Seq<PartView>) -> bool {
    group.len() > 0 ==> {
        &&& group[0].old_start <= group.last().old_end
        &&& group[0].new_start <= group.last().new_end
        &&& group[0].old_start < usize::MAX
        &&& group[0].new_start < usize::MAX
    }
}

/// Whether every group does.
pub open spec fn printable(groups: Seq<Seq<PartView>>) -> bool {
    forall|i: int| 0 <= i < groups.len() ==> well_ordered(#[trigger] groups[i])
}

/// A line with the character that tells what happened to it.
pub open spec fn shown_line(l: (Sign, Seq<char>)) -> Seq<char> {
    seq![l.0.mark()] + l.1
}

/// The lines of one step.
pub open spec fn shown_lines(lines: Seq<(Sign, Seq<char>)>) -> Seq<char>
    decreases lines.len(),
{
    if lines.len() == 0 {
        Seq::empty()
    } else {
        shown_lines(lines.drop_last()) + shown_line(lines.last())
    }
}

/// The lines of some steps.
pub open spec fn shown_parts(parts: Seq<PartView>) -> Seq<char>
    decreases parts.len(),
{
    if parts.len() == 0 {
        Seq::empty()
    } else {
        shown_parts(parts.drop_last()) + shown_lines(parts.last().lines)
    }
}

/// The line in front of a hunk: where it begins and how long it is, before and
/// after.
pub open spec fn hunk_header(group: Seq<PartView>) -> Seq<char> {
    let first = group[0];
    let last = group.last();
    "@@ -"@ + text::decimal((first.old_start + 1) as nat) + ","@ + text::decimal(
        (last.old_end - first.old_start) as nat,
    ) + " +"@ + text::decimal((first.new_start + 1) as nat) + ","@ + text::decimal(
        (last.new_end - first.new_start) as nat,
    ) + " @@\n"@
}

/// One hunk. A group without steps gives none.
pub open spec fn hunk(group: Seq<PartView>) -> Seq<char> {
    if group.len() == 0 {
        Seq::empty()
    } else {
        hunk_header(group) + shown_parts(group)
    }
}

/// Some hunks.
pub open spec fn hunks(groups: Seq<Seq<PartView>>) -> Seq<char>
    decreases groups.len(),
{
    if groups.len() == 0 {
        Seq::empty()
    } else {
        hunks(groups.drop_last()) + hunk(groups.last())
    }
}

/// The two lines that a diff opens with.
pub open spec fn file_header(name: Seq<char>) -> Seq<char> {
    "--- "@ + name + "\n"@ + "+++ "@ + name + "\n"@
}

/// A whole diff.
pub open spec fn diff_text(groups: Seq<Seq<PartView>>, name: Seq<char>) -> Seq<char> {
    file_header(name) + hunks(groups)
}

fn push_part(out: &mut String, part: &Part)
    ensures
        final(out)@ == old(out)@ + shown_lines(part@.lines),
{
    let ghost all = part@.lines;
    let mut i: usize = 0;
    assert(all.take(0) =~= Seq::<(Sign, Seq<char>)>::empty());
    assert(out@ =~= old(out)@ + shown_lines(all.take(0)));
    while i < part.lines.len()
        invariant
            i <= part.lines@.len(),
            all == part@.lines,
            out@ == old(out)@ + shown_lines(all.take(i as int)),
        decreases part.lines@.len() - i,
    {
        let ghost before = out@;
        let line = &part.lines[i];
        out.push(line.0.sigil());
        out.push_str(line.1.as_str());
        proof {
            assert(all.take(i + 1).drop_last() =~= all.take(i as int));
            assert(all.take(i + 1).last() == (line.0, line.1@));
            assert(out@ =~= before + shown_line((line.0, line.1@)));
            assert(out@ =~= old(out)@ + shown_lines(all.take(i + 1)));
        }
        i = i + 1;
    }
    assert(all.take(i as int) =~= all);
}

fn push_hunk(out: &mut String, group: &Vec<Part>)
    requires
        well_ordered(group@.map_values(|p: Part| p@)),
    ensures
        final(out)@ == old(out)@ + hunk(group@.map_values(|p: Part| p@)),
{
    let ghost all = group@.map_values(|p: Part| p@);
    if group.len() == 0 {
        assert(out@ =~= old(out)@ + hunk(all));
        return ;
    }
    let first = &group[0];
    let last = &group[group.len() - 1];
    assert(all[0] == first@);
    assert(all.last() == last@);
    out.push_str("@@ -");
    text::push_decimal(out, (first.old_start + 1) as u128);
    out.push_str(",");
    text::push_decimal(out, (last.old_end - first.old_start) as u128);
    out.push_str(" +");
    text::push_decimal(out, (first.new_start + 1) as u128);
    out.push_str(",");
    text::push_decimal(out, (last.new_end - first.new_start) as u128);
    out.push_str(" @@\n");
    let ghost head = old(out)@ + hunk_header(all);
    assert(out@ =~= head);
    let mut i: usize = 0;
    assert(all.take(0) =~= Seq::<PartView>::empty());
    assert(out@ =~= head + shown_parts(all.take(0)));
    while i < group.len()
        invariant
            i <= group@.len(),
            all == group@.map_values(|p: Part| p@),
            out@ == head + shown_parts(all.take(i as int)),
        decreases group@.len() - i,
    {
        let ghost before = out@;
        push_part(out, &group[i]);
        proof {
            assert(all.take(i + 1).drop_last() =~= all.take(i as int));
            assert(all.take(i + 1).last() == group@[i as int]@);
            assert(out@ =~= head + shown_parts(all.take(i + 1)));
        }
        i = i + 1;
    }
    assert(all.take(i as int) =~= all);
    assert(out@ =~= old(out)@ + hunk(all));
}

/// Writes down the groups of changes between two versions of a file.
pub fn render(groups: &Vec<Vec<Part>>, name: &str) -> (out: String)
    requires
        printable(group_views(groups@)),
    ensures
        out@ == diff_text(group_views(groups@), name@),
{
    let ghost all = group_views(groups@);
    let mut out: String = String::new();
    out.push_str("--- ");
    out.push_str(name);
    out.push_str("\n");
    out.push_str("+++ ");
    out.push_str(name);
    out.push_str("\n");
    let ghost head = file_header(name@);
    assert(out@ =~= head);
    let mut i: usize = 0;
    assert(all.take(0) =~= Seq::<Seq<PartView>>::empty());
    assert(out@ =~= head + hunks(all.take(0)));
    while i < groups.len()
        invariant
            i <= groups@.len(),
            all == group_views(groups@),
            printable(all),
            out@ == head + hunks(all.take(i as int)),
        decreases groups@.len() - i,
    {
        let ghost before = out@;
        assert(all[i as int] == groups@[i as int]@.map_values(|p: Part| p@));
        assert(well_ordered(all[i as int]));
        push_hunk(&mut out, &groups[i]);
        proof {
            assert(all.take(i + 1).drop_last() =~= all.take(i as int));
            assert(all.take(i + 1).last() == all[i as int]);
            assert(out@ =~= head + hunks(all.take(i + 1)));
        }
        i = i + 1;
    }
    assert(all.take(i as int) =~= all);
    out
}

/// Decides whether every group can be named by a hunk header.
pub fn can_render(groups: &Vec<Vec<Part>>) -> (r: bool)
    ensures
        r == printable(group_views(groups@)),
{
    let ghost all = group_views(groups@);
    let mut i: usize = 0;
    while i < groups.len()
        invariant
            i <= groups@.len(),
            all == group_views(groups@),
            forall|j: int| 0 <= j < i ==> well_ordered(#[trigger] all[j]),
        decreases groups@.len() - i,
    {
        let group = &groups[i];
        let ghost seen = all[i as int];
        assert(seen == group@.map_values(|p: Part| p@));
        if group.len() > 0 {
            let first = &group[0];
            let last = &group[group.len() - 1];
            assert(seen[0] == first@ && seen.last() == last@);
            if first.old_start > last.old_end || first.new_start > last.new_end || first.old_start
                == usize::MAX || first.new_start == usize::MAX {
                assert(!well_ordered(all[i as int]));
                return false;
            }
        }
        i = i + 1;
    }
    true
}

/// A text has no more lines than characters.
proof fn lemma_lines_at_most_chars(s: Seq<char>)
    ensures
        diff_lines(s).len() <= s.len(),
    decreases s.len(),
{
    if s.len() > 0 {
        text::lemma_run_len(s, Class::Unbroken);
        lemma_lines_at_most_chars(s.skip(first_line_len(s)));
    }
}

/// Cuts a text into the lines that a comparison goes by.
fn split_diff_lines(s: &[char]) -> (out: Vec<Vec<char>>)
    ensures
        text::views(out@) == diff_lines(s@),
{
    let mut out: Vec<Vec<char>> = Vec::new();
    let mut from: usize = 0;
    proof {
        assert(s@.skip(0) =~= s@);
        assert(text::views(out@) + diff_lines(s@) =~= diff_lines(s@));
    }
    while from < s.len()
        invariant
            from <= s@.len(),
            text::views(out@) + diff_lines(s@.skip(from as int)) == diff_lines(s@),
        decreases s@.len() - from,
    {
        let rest = slice_subrange(s, from, s.len());
        assert(rest@ =~= s@.skip(from as int));
        let n: usize = text::count_run(rest, Class::Unbroken);
        let len: usize = if n == rest.len() {
            n
        } else if rest[n] == '\r' && n < rest.len() - 1 && rest[n + 1] == '\n' {
            n + 2
        } else {
            n + 1
        };
        proof {
            text::lemma_run_len(rest@, Class::Unbroken);
            assert(len == first_line_len(rest@));
        }
        let ghost before = out@;
        let line = slice_subrange(rest, 0, len);
        out.push(text::slice_to_vec(line));
        from = from + len;
        proof {
            assert(line@ =~= rest@.take(len as int));
            assert(text::views(out@) =~= text::views(before).push(line@));
            let tail = diff_lines(rest@.skip(len as int));
            assert(rest@.skip(len as int) =~= s@.skip(from as int));
            assert(text::views(before) + (seq![line@] + tail) =~= text::views(out@) + tail);
        }
    }
    proof {
        assert(s@.skip(from as int) =~= Seq::<char>::empty());
        assert(text::views(out@) + Seq::<Seq<char>>::empty() =~= text::views(out@));
    }
    out
}

/// The number of different lines among those in a vector.
fn count_distinct(lines: &Vec<Vec<char>>) -> (n: usize)
    ensures
        n == text::views(lines@).to_set().len(),
{
    let ghost all = text::views(lines@);
    let mut n: usize = 0;
    let mut i: usize = 0;
    proof {
        assert(all.take(0).to_set() =~= Set::<Seq<char>>::empty());
    }
    while i < lines.len()
        invariant
            n <= i <= lines@.len(),
            all == text::views(lines@),
            all.take(i as int).to_set().finite(),
            n == all.take(i as int).to_set().len(),
        decreases lines@.len() - i,
    {
        let line = lines[i].as_slice();
        assert(all[i as int] == line@);
        let mut seen: bool = false;
        let mut j: usize = 0;
        while j < i && !seen
            invariant
                j <= i < lines@.len(),
                all == text::views(lines@),
                line@ == all[i as int],
                seen ==> all.take(i as int).contains(line@),
                !seen ==> forall|k: int| 0 <= k < j ==> #[trigger] all[k] != line@,
            decreases i - j,
        {
            assert(all[j as int] == lines@[j as int]@);
            if text::same(lines[j].as_slice(), line) {
                seen = true;
                assert(all.take(i as int)[j as int] == line@);
            }
            j = j + 1;
        }
        proof {
            let before = all.take(i as int);
            let after = all.take(i + 1);
            assert(after =~= before.push(line@));
            assert(after.to_set() =~= before.to_set().insert(line@)) by {
                assert forall|x: Seq<char>|
                    after.to_set().contains(x) == before.to_set().insert(line@).contains(x) by {
                    if before.contains(x) {
                        let k = choose|k: int| 0 <= k < before.len() && before[k] == x;
                        assert(after[k] == x);
                    }
                    if x == line@ {
                        assert(after[i as int] == x);
                    }
                    if after.contains(x) {
                        let k = choose|k: int| 0 <= k < after.len() && after[k] == x;
                        if k < i {
                            assert(before[k] == x);
                        }
                    }
                }
            }
            if !seen && before.contains(line@) {
                let k = choose|k: int| 0 <= k < before.len() && before[k] == line@;
                assert(all[k] == line@);
            }
        }
        if !seen {
            n = n + 1;
        }
        i = i + 1;
    }
    assert(all.take(i as int) =~= all);
    n
}

/// Decides whether two texts can be compared. Only texts of more lines than there
/// are 32-bit numbers have to be looked through.
pub fn can_compare(old_text: &str, new_text: &str) -> (r: bool)
    ensures
        r == comparable(old_text@, new_text@),
{
    let old_len: usize = old_text.unicode_len();
    let new_len: usize = new_text.unicode_len();
    proof {
        lemma_lines_at_most_chars(old_text@);
        lemma_lines_at_most_chars(new_text@);
        (diff_lines(old_text@) + diff_lines(new_text@)).lemma_cardinality_of_set();
    }
    if old_len <= 0xffff_ffff && new_len <= 0xffff_ffff - old_len {
        return true;
    }
    let t = text::chars_of(old_text);
    let mut lines = split_diff_lines(t.as_slice());
    let u = text::chars_of(new_text);
    let mut more = split_diff_lines(u.as_slice());
    let ghost (a, b) = (lines@, more@);
    lines.append(&mut more);
    proof {
        assert(lines@ =~= a + b);
        assert(text::views(lines@) =~= text::views(a) + text::views(b));
        assert(text::views(lines@).len() == lines@.len());
    }
    lines.len() <= 0xffff_ffff || count_distinct(&lines) <= 0xffff_ffff
}

/// The unified diff of two versions of a file, or "None" where the versions
/// cannot be compared or the comparison gives ranges that no hunk header can
/// name.
pub open spec fn unified_text(
    old_text: Seq<char>,
    new_text: Seq<char>,
    name: Seq<char>,
) -> Option<Seq<char>> {
    let groups = line_changes(old_text, new_text, CONTEXT);
    if comparable(old_text, new_text) && printable(groups) {
        Some(diff_text(groups, name))
    } else {
        None
    }
}

/// Writes the unified diff of two versions of a file. What it shows are lines of
/// the two versions.
pub fn unified(old_text: &str, new_text: &str, name: &str) -> (r: Option<String>)
    ensures
        comparable(old_text@, new_text@) ==> all_drawn_from(
            line_changes(old_text@, new_text@, CONTEXT),
            old_text@,
            new_text@,
        ),
        match unified_text(old_text@, new_text@, name@) {
            Some(t) => r is Some && r->0@ == t,
            None => r is None,
        },
{
    if !can_compare(old_text, new_text) {
        return None;
    }
    let groups = grouped_changes(old_text, new_text, CONTEXT);
    if can_render(&groups) {
        Some(render(&groups, name))
    } else {
        None
    }
}

/// One side of what a group shows.
pub open spec fn group_side(group: Seq<PartView>, left_out: Sign) -> Seq<Seq<char>>
    decreases group.len(),
{
    if group.len() == 0 {
        Seq::empty()
    } else {
        group_side(group.drop_last(), left_out) + side(group.last().lines, left_out)
    }
}

/// Whether each step of a group begins where the one before it ends, in both
/// texts.
pub open spec fn gapless(group: Seq<PartView>) -> bool {
    forall|k: int|
        #![trigger group[k]]
        1 <= k < group.len() ==> group[k].old_start == group[k - 1].old_end && group[k].new_start
            == group[k - 1].new_end
}

/// Where the steps of a group follow on one another, the hunk shows exactly the
/// lines that its header names: as many as it counts, from where it begins, on
/// either side.
pub proof fn law_hunk_shows_the_lines_it_names(
    group: Seq<PartView>,
    old_text: Seq<char>,
    new_text: Seq<char>,
)
    requires
        group.len() > 0,
        gapless(group),
        forall|k: int|
            0 <= k < group.len() ==> drawn_from(#[trigger] group[k], old_text, new_text),
    ensures
        well_ordered(group) || group[0].old_start == usize::MAX || group[0].new_start == usize::MAX,
        are_lines_of(
            group_side(group, Sign::Insert),
            old_text,
            group[0].old_start,
            group.last().old_end,
        ),
        are_lines_of(
            group_side(group, Sign::Delete),
            new_text,
            group[0].new_start,
            group.last().new_end,
        ),
    decreases group.len(),
{
    let last = group.last();
    assert(drawn_from(group[group.len() - 1], old_text, new_text));
    let before = group.drop_last();
    if before.len() > 0 {
        assert forall|k: int| 0 <= k < before.len() implies drawn_from(
            #[trigger] before[k],
            old_text,
            new_text,
        ) by {
            assert(drawn_from(group[k], old_text, new_text));
        }
        assert forall|k: int|
            #![trigger before[k]]
            1 <= k < before.len() implies before[k].old_start == before[k - 1].old_end
            && before[k].new_start == before[k - 1].new_end by {
            assert(group[k].old_start == group[k - 1].old_end);
        }
        law_hunk_shows_the_lines_it_names(before, old_text, new_text);
        assert(group[group.len() - 1].old_start == group[group.len() - 2].old_end);
        assert(before.last() == group[group.len() - 2]);
        lemma_lines_in_a_row(
            group_side(before, Sign::Insert),
            side(last.lines, Sign::Insert),
            old_text,
            group[0].old_start,
            last.old_start,
            last.old_end,
        );
        lemma_lines_in_a_row(
            group_side(before, Sign::Delete),
            side(last.lines, Sign::Delete),
            new_text,
            group[0].new_start,
            last.new_start,
            last.new_end,
        );
    } else {
        assert(group_side(before, Sign::Insert) + side(last.lines, Sign::Insert) =~= side(
            last.lines,
            Sign::Insert,
        ));
        assert(group_side(before, Sign::Delete) + side(last.lines, Sign::Delete) =~= side(
            last.lines,
            Sign::Delete,
        ));
    }
}

proof fn lemma_lines_in_a_row(
    a: Seq<Seq<char>>,
    b: Seq<Seq<char>>,
    s: Seq<char>,
    start: usize,
    mid: usize,
    end: usize,
)
    requires
        are_lines_of(a, s, start, mid),
        are_lines_of(b, s, mid, end),
    ensures
        are_lines_of(a + b, s, start, end),
{
    let c = a + b;
    assert forall|k: int| 0 <= k < c.len() implies #[trigger] c[k] == ended(
        diff_lines(s)[start + k],
    ) by {
        if k < a.len() {
            assert(c[k] == a[k]);
        } else {
            assert(c[k] == b[k - a.len()]);
        }
    }
}

/// The lines that a comparison goes by are the text, cut into pieces.
pub proof fn law_lines_make_up_the_text(s: Seq<char>)
    ensures
        diff_lines(s).flatten() == s,
        forall|i: int| 0 <= i < diff_lines(s).len() ==> (#[trigger] diff_lines(s)[i]).len() > 0,
    decreases s.len(),
{
    if s.len() > 0 {
        text::lemma_run_len(s, Class::Unbroken);
        let n = first_line_len(s);
        let all = diff_lines(s);
        let rest = diff_lines(s.skip(n));
        law_lines_make_up_the_text(s.skip(n));
        assert(all.first() == s.take(n));
        assert(all.drop_first() =~= rest);
        assert(s.take(n) + s.skip(n) =~= s);
        assert forall|i: int| 0 <= i < all.len() implies (#[trigger] all[i]).len() > 0 by {
            if i > 0 {
                assert(all[i] == rest[i - 1]);
            }
        }
    }
}

} // verus!
