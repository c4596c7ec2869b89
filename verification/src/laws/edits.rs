//! Laws of single replacements and of plans.

use vstd::prelude::*;

use crate::offsets;
use crate::parse::Comment;
use crate::rewrite;
use crate::rewrite::{Edit, RewriteError};
use crate::text;
use vstd::utf8::*;

verus! {

broadcast use vstd::string::group_string_axioms;

/// The line ending that a text has: both characters, one of them, or none.
pub open spec fn line_ending(s: Seq<char>) -> Seq<char> {
    let n = s.len() as int;
    if n > 1 && s[n - 2] == '\r' && s[n - 1] == '\n' {
        seq!['\r', '\n']
    } else if n > 0 && (s[n - 1] == '\n' || s[n - 1] == '\r') {
        seq![s[n - 1]]
    } else {
        Seq::empty()
    }
}

/// Whether a text ends in some characters.
pub open spec fn ends_in(s: Seq<char>, tail: Seq<char>) -> bool {
    exists|head: Seq<char>| s == #[trigger] (head + tail)
}

proof fn lemma_ends_in(s: Seq<char>, tail: Seq<char>)
    ensures
        text::ends_with(s, tail) <==> ends_in(s, tail),
{
    if text::ends_with(s, tail) {
        let head = s.take(s.len() - tail.len());
        assert(s =~= head + tail);
    }
    if ends_in(s, tail) {
        let head = choose|head: Seq<char>| s == #[trigger] (head + tail);
        assert(s.subrange(s.len() - tail.len(), s.len() as int) =~= tail);
    }
}

/// A rewrite replaces the text exactly when it is not empty and, with the line
/// ending put back, is another text; and that is what is put there.
pub proof fn law_every_change_is_made(old_text: Seq<char>, rewritten: Seq<char>)
    ensures
        ({
            let end = line_ending(old_text);
            let whole = if ends_in(rewritten, end) {
                rewritten
            } else {
                rewritten + end
            };
            &&& rewrite::new_text(old_text, rewritten) is None <==> rewritten.len() == 0 || whole
                == old_text
            &&& rewrite::new_text(old_text, rewritten) is Some ==> rewrite::new_text(
                old_text,
                rewritten,
            ) == Some(whole)
        }),
{
    let end = line_ending(old_text);
    reveal_strlit("\n");
    reveal_strlit("\r");
    reveal_strlit("\r\n");
    assert("\n"@ =~= seq!['\n']);
    assert("\r"@ =~= seq!['\r']);
    assert("\r\n"@ =~= seq!['\r', '\n']);
    let n = old_text.len() as int;
    text::lemma_pair_at(old_text, '\r', '\n', n - 2);
    text::lemma_one_at(old_text, '\n', n - 1);
    text::lemma_one_at(old_text, '\r', n - 1);
    lemma_ends_in(rewritten, end);
    if n > 1 && old_text[n - 2] == '\r' && old_text[n - 1] == '\n' {
        if text::ends_with(rewritten, "\r\n"@) {
            text::lemma_pair_at(rewritten, '\r', '\n', rewritten.len() - 2);
            text::lemma_one_at(rewritten, '\n', rewritten.len() - 1);
        }
    } else if n > 0 && (old_text[n - 1] == '\n' || old_text[n - 1] == '\r') {
        assert(end =~= seq![old_text[n - 1]]);
    } else {
        assert(rewritten =~= rewritten + end);
        assert(ends_in(rewritten, end));
    }
}

/// White space between comments is a space, a tab, a newline, a form feed or a
/// carriage return.
pub proof fn law_space_bytes(x: u8)
    ensures
        rewrite::is_space_byte(x) <==> x == 32 || 9 <= x <= 10 || 12 <= x <= 13,
{
}

/// What is wrong with one edit, behind one that ends at "last_end": the first of
/// these that holds. Its bytes are "law_coverage_rule".
pub proof fn law_faults(r: Edit, last_end: int, b: Seq<u8>, comments: Seq<Comment>)
    ensures
        rewrite::fault(r, last_end, b, comments) == Some(RewriteError::Overlap { at: r.start })
            <==> r.start < last_end,
        rewrite::fault(r, last_end, b, comments) == Some(RewriteError::Inverted { at: r.start })
            <==> last_end <= r.start && r.end < r.start,
        rewrite::fault(r, last_end, b, comments) == Some(RewriteError::PastEnd) <==> last_end
            <= r.start <= r.end && b.len() < r.end,
        rewrite::fault(r, last_end, b, comments) == Some(
            RewriteError::SplitsChar { start: r.start, end: r.end },
        ) <==> last_end <= r.start <= r.end <= b.len() && !(is_char_boundary(b, r.start as int)
            && is_char_boundary(b, r.end as int)),
        last_end <= r.start == r.end <= b.len() && is_char_boundary(b, r.start as int) ==> {
            let wanted = exists|i: int|
                #![trigger comments[i]]
                0 <= i < comments.len() && (comments[i].relocate_before == Some(r.start) || (
                comments[i].param_shift is Some && comments[i].param_shift->0.insert_at == r.start));
            let verdict = rewrite::fault(r, last_end, b, comments);
            &&& r.text.len() == 0 || wanted ==> verdict is None
            &&& r.text.len() > 0 && !wanted ==> verdict == Some(
                RewriteError::Unauthorized { at: r.start },
            )
        },
{
    if exists|i: int|
        #![trigger comments[i]]
        0 <= i < comments.len() && (comments[i].relocate_before == Some(r.start) || (
        comments[i].param_shift is Some && comments[i].param_shift->0.insert_at == r.start)) {
        let i = choose|i: int|
            #![trigger comments[i]]
            0 <= i < comments.len() && (comments[i].relocate_before == Some(r.start) || (
            comments[i].param_shift is Some && comments[i].param_shift->0.insert_at == r.start));
        assert(rewrite::moves_to(comments[i], r.start));
    }
}

/// Where the edit before one ends.
pub open spec fn end_before(plan: Seq<Edit>, k: int) -> int {
    if k <= 0 {
        0
    } else {
        plan[k - 1].end as int
    }
}

/// A plan's fault is that of its first faulty edit, and a plan without a faulty
/// edit has none. Each edit is held against the one in front of it.
pub proof fn law_first_faulty_edit_decides(
    plan: Seq<Edit>,
    k: int,
    m: int,
    b: Seq<u8>,
    comments: Seq<Comment>,
)
    requires
        0 <= k <= m <= plan.len(),
        forall|j: int|
            k <= j < m ==> rewrite::fault(#[trigger] plan[j], end_before(plan, j), b, comments) is None,
    ensures
        m == plan.len() ==> rewrite::first_fault(plan, k, end_before(plan, k), b, comments) is None,
        m < plan.len() && rewrite::fault(plan[m], end_before(plan, m), b, comments) is Some
            ==> rewrite::first_fault(plan, k, end_before(plan, k), b, comments) == rewrite::fault(
            plan[m],
            end_before(plan, m),
            b,
            comments,
        ),
    decreases m - k,
{
    if k < m {
        assert(rewrite::fault(plan[k], end_before(plan, k), b, comments) is None);
        law_first_faulty_edit_decides(plan, k + 1, m, b, comments);
    }
}

/// A plan is checked in the order of its ranges, over the bytes of the source.
pub proof fn law_plans_are_checked_in_order(
    reps: Seq<Edit>,
    source: Seq<char>,
    comments: Seq<Comment>,
    k: int,
)
    requires
        0 <= k <= reps.len(),
        forall|j: int|
            0 <= j < k ==> rewrite::fault(
                #[trigger] rewrite::sorted(reps)[j],
                end_before(rewrite::sorted(reps), j),
                encode_utf8(source),
                comments,
            ) is None,
    ensures
        k == reps.len() ==> rewrite::plan_fault(reps, source, comments) is None,
        k < reps.len() ==> {
            let plan = rewrite::sorted(reps);
            let f = rewrite::fault(plan[k], end_before(plan, k), encode_utf8(source), comments);
            f is Some ==> rewrite::plan_fault(reps, source, comments) == f
        },
{
    rewrite::law_sorted_is_ordered_permutation(reps);
    law_first_faulty_edit_decides(rewrite::sorted(reps), 0, k, encode_utf8(source), comments);
}

proof fn lemma_spaces_before(b: Seq<u8>, lo: int, hi: int)
    ensures
        match rewrite::first_code_byte(b, lo, hi) {
            Some(at) => forall|j: int| lo <= j < at ==> rewrite::is_space_byte(#[trigger] b[j]),
            None => forall|j: int| lo <= j < hi ==> rewrite::is_space_byte(#[trigger] b[j]),
        },
    decreases hi - lo,
{
    if lo < hi && rewrite::is_space_byte(b[lo]) {
        lemma_spaces_before(b, lo + 1, hi);
    }
}

proof fn lemma_first_exposed(b: Seq<u8>, comments: Seq<Comment>, i: int, gap: int, r: Edit)
    requires
        0 <= i <= comments.len(),
        gap <= r.end,
        rewrite::first_exposed(b, comments, i, gap, r) is Some,
    ensures
        forall|j: int|
            #![trigger b[j]]
            gap <= j < rewrite::first_exposed(b, comments, i, gap, r)->0 ==> rewrite::is_space_byte(
                b[j],
            ) || rewrite::in_comment(comments, j),
    decreases comments.len() - i,
{
    if i >= comments.len() || comments[i].start_byte >= r.end {
        lemma_spaces_before(b, gap, r.end as int);
    } else {
        let c = comments[i];
        let stop = rewrite::at_most(c.start_byte as int, r.end as int);
        lemma_spaces_before(b, gap, stop);
        if rewrite::first_code_byte(b, gap, stop) is None {
            let next = rewrite::at_most(rewrite::at_least(gap, c.end_byte as int), r.end as int);
            lemma_first_exposed(b, comments, i + 1, next, r);
            assert forall|j: int|
                #![trigger b[j]]
                gap <= j < rewrite::first_exposed(b, comments, i, gap, r)->0 implies rewrite::is_space_byte(
                b[j],
            ) || rewrite::in_comment(comments, j) by {
                if c.start_byte <= j && j < c.end_byte {
                    assert(comments[i].start_byte <= j < comments[i].end_byte);
                }
            }
        }
    }
}

/// A range that covers code is reported with the first byte of it: one that is
/// neither white space nor in a comment.
pub proof fn law_first_code_byte_is_named(
    r: Edit,
    last_end: int,
    b: Seq<u8>,
    comments: Seq<Comment>,
    at: int,
)
    requires
        rewrite::in_order(comments),
        last_end <= r.start <= at < r.end,
        offsets::sliceable(b, r.start as int, r.end as int),
        !(b[at] == 32 || 9 <= b[at] <= 10 || 12 <= b[at] <= 13),
        forall|i: int|
            0 <= i < comments.len() ==> !((#[trigger] comments[i]).start_byte <= at
                < comments[i].end_byte),
        forall|j: int|
            #![trigger b[j]]
            r.start <= j < at ==> rewrite::is_space_byte(b[j]) || rewrite::in_comment(comments, j),
    ensures
        rewrite::fault(r, last_end, b, comments) == Some(
            RewriteError::CoversCode { start: r.start, end: r.end, at: at as usize },
        ),
{
    rewrite::law_coverage_rule(r, last_end, b, comments);
    assert(!rewrite::in_comment(comments, at));
    assert(rewrite::covers(r, at) && !rewrite::is_space_byte(b[at]));
    let i = rewrite::first_past(comments, r.start as int, 0);
    rewrite::lemma_first_past_bounds(comments, r.start as int, 0);
    rewrite::lemma_exposed_complete(b, comments, i, r.start as int, r);
    lemma_first_exposed(b, comments, i, r.start as int, r);
    let x = rewrite::first_exposed(b, comments, i, r.start as int, r)->0;
    if at < x {
        assert(rewrite::is_space_byte(b[at]) || rewrite::in_comment(comments, at));
    }
    if x < at {
        assert(rewrite::is_space_byte(b[x]) || rewrite::in_comment(comments, x));
    }
}

/// The first byte of code in a gap, where there is one.
pub proof fn law_code_in_a_gap(b: Seq<u8>, lo: int, at: int, hi: int)
    requires
        lo <= at <= hi,
        forall|j: int|
            lo <= j < at ==> (#[trigger] b[j]) == 32 || 9 <= b[j] <= 10 || 12 <= b[j] <= 13,
    ensures
        at == hi ==> rewrite::first_code_byte(b, lo, hi) is None,
        at < hi && !(b[at] == 32 || 9 <= b[at] <= 10 || 12 <= b[at] <= 13)
            ==> rewrite::first_code_byte(b, lo, hi) == Some(at),
    decreases at - lo,
{
    if lo < at {
        assert(rewrite::is_space_byte(b[lo]));
        law_code_in_a_gap(b, lo + 1, at, hi);
    }
}

/// The errors in words.
pub proof fn law_error_messages(at: usize, start: usize, end: usize)
    ensures
        (RewriteError::Overlap { at }).spec_message() == "replacement ranges overlap at byte "@
            + text::decimal(at as nat),
        (RewriteError::Inverted { at }).spec_message() == "replacement range inverted at byte "@
            + text::decimal(at as nat),
        RewriteError::PastEnd.spec_message() == "replacement range past end of source"@,
        (RewriteError::SplitsChar { start, end }).spec_message() == "replacement ["@
            + text::decimal(start as nat) + ".."@ + text::decimal(end as nat) + "]"@
            + " not on UTF-8 char boundaries"@,
        (RewriteError::Unauthorized { at }).spec_message() == "zero-width insertion at "@
            + text::decimal(at as nat) + " is not an authorized relocation target"@,
        (RewriteError::CoversCode { start, end, at }).spec_message() == "replacement ["@
            + text::decimal(start as nat) + ".."@ + text::decimal(end as nat) + "]"@
            + " covers non-comment non-whitespace byte at "@ + text::decimal(at as nat),
{
}

/// The order of two edits: by their beginnings, and by their ends where they
/// begin together. Edits with one range keep the order in which they came.
pub proof fn law_edit_order(a: Edit, b: Edit, reps: Seq<Edit>)
    ensures
        a.start < b.start ==> rewrite::key_le(a, b) && !rewrite::key_le(b, a),
        a.start == b.start ==> (rewrite::key_le(a, b) <==> a.end <= b.end),
        (forall|j: int| 0 <= j < reps.len() ==> rewrite::key_le(#[trigger] reps[j], a))
            ==> rewrite::sorted(reps.push(a)) == rewrite::sorted(reps).push(a),
{
    assert(reps.push(a).drop_last() =~= reps);
    if forall|j: int| 0 <= j < reps.len() ==> rewrite::key_le(#[trigger] reps[j], a) {
        broadcast use vstd::seq_lib::group_to_multiset_ensures;

        rewrite::law_sorted_is_ordered_permutation(reps);
        let s = rewrite::sorted(reps);
        if s.len() > 0 {
            assert(s.to_multiset().contains(s.last()));
            assert(reps.to_multiset().contains(s.last()));
            assert(reps.contains(s.last()));
        }
    }
}

/// Carrying out a plan whose last edit begins no earlier than the others end:
/// what the others make of the source in front of it, its text, and the rest of
/// the source.
pub proof fn law_last_edit(b: Seq<u8>, plan: Seq<Edit>, e: Edit, k: int, cut: int)
    requires
        0 <= k <= plan.len(),
        0 <= cut <= e.start <= e.end <= b.len(),
        forall|j: int|
            k <= j < plan.len() ==> (#[trigger] plan[j]).start <= plan[j].end <= e.start,
    ensures
        rewrite::splice(b, plan.push(e), k, cut) == rewrite::splice(
            b.take(e.start as int),
            plan,
            k,
            cut,
        ) + encode_utf8(e.text) + b.skip(e.end as int),
    decreases plan.len() - k,
{
    let a = b.take(e.start as int);
    let all = plan.push(e);
    if k == plan.len() {
        reveal_with_fuel(rewrite::splice, 2);
        assert(all[k] == e);
        assert(b.subrange(cut, e.start as int) =~= a.skip(cut));
    } else {
        let r = plan[k];
        assert(all[k] == r);
        assert(r.end <= e.start);
        let next = rewrite::at_least(r.end as int, cut);
        law_last_edit(b, plan, e, k + 1, next);
        let here = rewrite::at_least(r.start as int, cut);
        assert(b.subrange(cut, here) =~= a.subrange(cut, here));
        assert(rewrite::splice(b, all, k, cut) =~= a.subrange(cut, here) + encode_utf8(r.text) + (
        rewrite::splice(a, plan, k + 1, next) + encode_utf8(e.text) + b.skip(e.end as int)));
    }
}

/// One edit by itself: the source up to it, its text, and the source behind it.
pub proof fn law_one_edit(b: Seq<u8>, e: Edit)
    requires
        e.start <= e.end <= b.len(),
    ensures
        rewrite::splice(b, seq![e], 0, 0) == b.take(e.start as int) + encode_utf8(e.text) + b.skip(
            e.end as int,
        ),
{
    law_last_edit(b, Seq::empty(), e, 0, 0);
    assert(Seq::<Edit>::empty().push(e) =~= seq![e]);
    assert(rewrite::splice(b.take(e.start as int), Seq::<Edit>::empty(), 0, 0) =~= b.take(
        e.start as int,
    ));
}

/// The name of a temporary file: hidden, next to its file, and marked with the
/// process, the count and the clock.
pub proof fn law_temp_name_layout(file: Seq<char>, pid: nat, seq: nat, nanos: nat)
    ensures
        rewrite::temp_file_name(file, pid, seq, nanos) == "."@ + file + ".commentflow."@
            + text::decimal(pid) + "."@ + text::decimal(seq) + "."@ + text::decimal(nanos)
            + ".tmp"@,
{
    assert(rewrite::temp_file_name(file, pid, seq, nanos) =~= "."@ + file + ".commentflow."@
        + text::decimal(pid) + "."@ + text::decimal(seq) + "."@ + text::decimal(nanos) + ".tmp"@);
}

} // verus!
