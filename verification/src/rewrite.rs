//! Editing a source by replacing byte ranges.
//!
//! The one rule that everything else leans on: a plan may rewrite comments and
//! the white space between them, and may insert text where a comment is to be
//! moved. It never touches any other byte. [`validate`] enforces it, [`apply`]
//! carries a plan out.

use vstd::prelude::*;
use vstd::utf8::*;

use crate::offsets;
use crate::parse::Comment;
use crate::text;

verus! {

broadcast use vstd::string::group_string_axioms;

/// New text for the byte range "start .. end" of a source.
#[derive(Debug, Clone)]
pub struct Replacement {
    pub start: usize,
    pub end: usize,
    pub text: String,
}

/// A replacement as plain data.
#[verifier::ext_equal]
pub struct Edit {
    pub start: usize,
    pub end: usize,
    pub text: Seq<char>,
}

impl View for Replacement {
    type V = Edit;

    open spec fn view(&self) -> Edit {
        Edit { start: self.start, end: self.end, text: self.text@ }
    }
}

/// The edits that a plan makes.
pub open spec fn edits(reps: Seq<Replacement>) -> Seq<Edit> {
    reps.map_values(|r: Replacement| r@)
}

/// Why a plan is refused.
#[derive(Debug, Clone, Copy, PartialEq, Eq, Structural)]
pub enum RewriteError {
    /// A range begins before an earlier one ends.
    Overlap { at: usize },
    /// A range ends before it begins.
    Inverted { at: usize },
    /// A range ends past the source.
    PastEnd,
    /// A range begins or ends inside a character.
    SplitsChar { start: usize, end: usize },
    /// Text would be inserted where no comment is to be moved.
    Unauthorized { at: usize },
    /// A range covers a byte that is neither comment nor white space.
    CoversCode { start: usize, end: usize, at: usize },
}

impl RewriteError {
    /// What the error says.
    pub open spec fn spec_message(self) -> Seq<char> {
        match self {
            RewriteError::Overlap { at } => "replacement ranges overlap at byte "@
                + text::decimal(at as nat),
            RewriteError::Inverted { at } => "replacement range inverted at byte "@
                + text::decimal(at as nat),
            RewriteError::PastEnd => "replacement range past end of source"@,
            RewriteError::SplitsChar { start, end } => range_text(start, end)
                + " not on UTF-8 char boundaries"@,
            RewriteError::Unauthorized { at } => "zero-width insertion at "@ + text::decimal(
                at as nat,
            ) + " is not an authorized relocation target"@,
            RewriteError::CoversCode { start, end, at } => range_text(start, end)
                + " covers non-comment non-whitespace byte at "@ + text::decimal(at as nat),
        }
    }

    /// The error in words.
    pub fn message(&self) -> (m: String)
        ensures
            m@ == self.spec_message(),
    {
        let mut m: String = String::new();
        match *self {
            RewriteError::Overlap { at } => {
                m.push_str("replacement ranges overlap at byte ");
                text::push_decimal(&mut m, at as u128);
            },
            RewriteError::Inverted { at } => {
                m.push_str("replacement range inverted at byte ");
                text::push_decimal(&mut m, at as u128);
            },
            RewriteError::PastEnd => {
                m.push_str("replacement range past end of source");
            },
            RewriteError::SplitsChar { start, end } => {
                push_range(&mut m, start, end);
                m.push_str(" not on UTF-8 char boundaries");
            },
            RewriteError::Unauthorized { at } => {
                m.push_str("zero-width insertion at ");
                text::push_decimal(&mut m, at as u128);
                m.push_str(" is not an authorized relocation target");
            },
            RewriteError::CoversCode { start, end, at } => {
                push_range(&mut m, start, end);
                m.push_str(" covers non-comment non-whitespace byte at ");
                text::push_decimal(&mut m, at as u128);
            },
        }
        assert(m@ =~= self.spec_message());
        m
    }
}

/// How a range is named in a message.
pub open spec fn range_text(start: usize, end: usize) -> Seq<char> {
    "replacement ["@ + text::decimal(start as nat) + ".."@ + text::decimal(end as nat) + "]"@
}

fn push_range(m: &mut String, start: usize, end: usize)
    ensures
        final(m)@ == old(m)@ + range_text(start, end),
{
    m.push_str("replacement [");
    text::push_decimal(m, start as u128);
    m.push_str("..");
    text::push_decimal(m, end as u128);
    m.push_str("]");
    assert(m@ =~= old(m)@ + range_text(start, end));
}

/// The order in which replacements are checked and applied: by start, a
/// zero-width insertion before a range that begins at the same byte.
pub open spec fn key_le(a: Edit, b: Edit) -> bool {
    a.start < b.start || (a.start == b.start && a.end <= b.end)
}

/// A sorted sequence with one more member, behind its equals.
pub open spec fn insert_sorted(s: Seq<Edit>, r: Edit) -> Seq<Edit>
    decreases s.len(),
{
    if s.len() == 0 || key_le(s.last(), r) {
        s.push(r)
    } else {
        insert_sorted(s.drop_last(), r).push(s.last())
    }
}

/// The replacements in order, equals as they came.
pub open spec fn sorted(s: Seq<Edit>) -> Seq<Edit>
    decreases s.len(),
{
    if s.len() == 0 {
        s
    } else {
        insert_sorted(sorted(s.drop_last()), s.last())
    }
}

proof fn lemma_insert_sorted_is(s: Seq<Edit>, r: Edit, pos: int)
    requires
        0 <= pos <= s.len(),
        forall|i: int| pos <= i < s.len() ==> !key_le(#[trigger] s[i], r),
        pos > 0 ==> key_le(s[pos - 1], r),
    ensures
        insert_sorted(s, r) == s.insert(pos, r),
    decreases s.len(),
{
    if pos == s.len() {
        assert(s.insert(pos, r) =~= s.push(r));
    } else {
        let t = s.drop_last();
        assert(!key_le(s[s.len() - 1], r));
        assert forall|i: int| pos <= i < t.len() implies !key_le(#[trigger] t[i], r) by {
            assert(t[i] == s[i]);
        }
        lemma_insert_sorted_is(t, r, pos);
        assert(t.insert(pos, r).push(s.last()) =~= s.insert(pos, r));
    }
}

/// Puts the replacements in order. A plan made in source order is left as it is,
/// in one pass.
pub fn sorted_replacements<'a>(reps: &'a [Replacement]) -> (out: Vec<&'a Replacement>)
    ensures
        edits(out@.unref()) == sorted(edits(reps@)),
{
    let ghost all = edits(reps@);
    let mut out: Vec<&'a Replacement> = Vec::new();
    let mut n: usize = 0;
    assert(edits(out@.unref()) =~= sorted(all.take(0)));
    while n < reps.len()
        invariant
            n <= reps@.len(),
            all == edits(reps@),
            edits(out@.unref()) == sorted(all.take(n as int)),
        decreases reps@.len() - n,
    {
        let r: &'a Replacement = &reps[n];
        let mut pos: usize = out.len();
        while pos > 0 && (r.start < out[pos - 1].start || (r.start == out[pos - 1].start && r.end
            < out[pos - 1].end))
            invariant
                pos <= out@.len(),
                forall|i: int| pos <= i < out@.len() ==> !key_le((#[trigger] out@[i])@, r@),
            decreases pos,
        {
            pos = pos - 1;
        }
        let ghost before = out@;
        out.insert(pos, r);
        proof {
            let s = edits(before.unref());
            assert forall|i: int| pos <= i < s.len() implies !key_le(#[trigger] s[i], r@) by {
                assert(s[i] == before[i]@);
            }
            if pos > 0 {
                assert(s[pos - 1] == before[pos - 1]@);
            }
            lemma_insert_sorted_is(s, r@, pos as int);
            assert(edits(out@.unref()) =~= s.insert(pos as int, r@));
            assert(all.take(n + 1).drop_last() =~= all.take(n as int));
            assert(all.take(n + 1).last() == r@);
        }
        n = n + 1;
    }
    assert(all.take(n as int) =~= all);
    out
}

/// What is left over when a source is cut at a byte: the replacements from
/// "sorted[k]" on carried out on the bytes from "cut" on.
pub open spec fn splice(b: Seq<u8>, sorted: Seq<Edit>, k: int, cut: int) -> Seq<u8>
    decreases sorted.len() - k,
{
    if k >= sorted.len() {
        b.skip(at_most(cut, b.len() as int))
    } else {
        let r = sorted[k];
        b.subrange(cut, at_least(r.start as int, cut)) + encode_utf8(r.text) + splice(
            b,
            sorted,
            k + 1,
            at_least(r.end as int, cut),
        )
    }
}

/// Whether those replacements can be carried out: every piece of source that
/// stays can be cut out of it.
pub open spec fn can_splice(b: Seq<u8>, sorted: Seq<Edit>, k: int, cut: int) -> bool
    decreases sorted.len() - k,
{
    if k >= sorted.len() {
        is_char_boundary(b, at_most(cut, b.len() as int))
    } else {
        let r = sorted[k];
        &&& offsets::sliceable(b, cut, at_least(r.start as int, cut))
        &&& can_splice(b, sorted, k + 1, at_least(r.end as int, cut))
    }
}

pub open spec fn at_least(x: int, lo: int) -> int {
    if x < lo {
        lo
    } else {
        x
    }
}

pub open spec fn at_most(x: int, hi: int) -> int {
    if x > hi {
        hi
    } else {
        x
    }
}

/// Carries out a plan in one forward pass.
pub fn apply(source: &str, reps: &[Replacement]) -> (out: String)
    requires
        can_splice(encode_utf8(source@), sorted(edits(reps@)), 0, 0),
    ensures
        encode_utf8(out@) == splice(encode_utf8(source@), sorted(edits(reps@)), 0, 0),
{
    let ghost b = encode_utf8(source@);
    let order = sorted_replacements(reps);
    let ghost plan = sorted(edits(reps@));
    let mut out: String = String::new();
    let mut cut: usize = 0;
    let mut k: usize = 0;
    proof {
        assert(encode_utf8(out@) =~= Seq::<u8>::empty());
        assert(encode_utf8(out@) + splice(b, plan, 0, 0) =~= splice(b, plan, 0, 0));
        assert(order@.len() == edits(order@.unref()).len());
    }
    while k < order.len()
        invariant
            b == encode_utf8(source@),
            plan == edits(order@.unref()),
            order@.len() == plan.len(),
            k <= order@.len(),
            can_splice(b, plan, k as int, cut as int),
            encode_utf8(out@) + splice(b, plan, k as int, cut as int) == splice(b, plan, 0, 0),
        decreases order@.len() - k,
    {
        let r: &Replacement = order[k];
        assert(plan[k as int] == r@);
        let upto: usize = if r.start < cut { cut } else { r.start };
        let kept: &str = offsets::slice_str(source, cut, upto);
        let ghost so_far = out@;
        let next: usize = if r.end < cut { cut } else { r.end };
        out.push_str(kept);
        out.push_str(r.text.as_str());
        proof {
            offsets::lemma_encode_concat(so_far, kept@);
            offsets::lemma_encode_concat(so_far + kept@, r.text@);
            let rest = splice(b, plan, k + 1, next as int);
            assert(encode_utf8(so_far) + (encode_utf8(kept@) + encode_utf8(r.text@) + rest)
                =~= encode_utf8(out@) + rest);
        }
        cut = next;
        k = k + 1;
    }
    let len: usize = source.as_bytes().len();
    let from: usize = if cut > len { len } else { cut };
    proof {
        encode_utf8_valid_utf8(source@);
        is_char_boundary_start_end_of_seq(b);
    }
    let tail: &str = offsets::slice_str(source, from, len);
    proof {
        offsets::lemma_encode_concat(out@, tail@);
        assert(b.skip(from as int) =~= b.subrange(from as int, b.len() as int));
    }
    out.push_str(tail);
    out
}

/// ASCII white space: space, tab, newline, form feed, carriage return.
pub open spec fn is_space_byte(x: u8) -> bool {
    x == 0x20 || x == 0x09 || x == 0x0a || x == 0x0c || x == 0x0d
}

/// The first byte in "lo .. hi" that is not white space.
pub open spec fn first_code_byte(b: Seq<u8>, lo: int, hi: int) -> Option<int>
    decreases hi - lo,
{
    if lo >= hi {
        None
    } else if !is_space_byte(b[lo]) {
        Some(lo)
    } else {
        first_code_byte(b, lo + 1, hi)
    }
}

/// The index of the first comment that ends past a byte.
pub open spec fn first_past(comments: Seq<Comment>, x: int, i: int) -> int
    decreases comments.len() - i,
{
    if i >= comments.len() || comments[i].end_byte > x {
        i
    } else {
        first_past(comments, x, i + 1)
    }
}

/// The first byte of "gap .. r.end" that is neither white space nor in one of
/// the comments from "comments[i]" on, read in order up to the range's end.
pub open spec fn first_exposed(
    b: Seq<u8>,
    comments: Seq<Comment>,
    i: int,
    gap: int,
    r: Edit,
) -> Option<int>
    decreases comments.len() - i,
{
    if i >= comments.len() || comments[i].start_byte >= r.end {
        first_code_byte(b, gap, r.end as int)
    } else {
        let c = comments[i];
        match first_code_byte(b, gap, at_most(c.start_byte as int, r.end as int)) {
            Some(at) => Some(at),
            None => first_exposed(
                b,
                comments,
                i + 1,
                at_most(at_least(gap, c.end_byte as int), r.end as int),
                r,
            ),
        }
    }
}

/// Whether a comment is to be moved to a byte.
pub open spec fn moves_to(c: Comment, at: usize) -> bool {
    c.relocate_before == Some(at) || (c.param_shift is Some && c.param_shift->0.insert_at == at)
}

/// Whether some comment is to be moved to a byte.
pub open spec fn authorized(comments: Seq<Comment>, at: usize) -> bool {
    exists|i: int| 0 <= i < comments.len() && moves_to(#[trigger] comments[i], at)
}

/// What is wrong with one replacement, given where the one before it ended.
pub open spec fn fault(
    r: Edit,
    last_end: int,
    b: Seq<u8>,
    comments: Seq<Comment>,
) -> Option<RewriteError> {
    if r.start < last_end {
        Some(RewriteError::Overlap { at: r.start })
    } else if r.start > r.end {
        Some(RewriteError::Inverted { at: r.start })
    } else if r.end > b.len() {
        Some(RewriteError::PastEnd)
    } else if !is_char_boundary(b, r.start as int) || !is_char_boundary(b, r.end as int) {
        Some(RewriteError::SplitsChar { start: r.start, end: r.end })
    } else if r.start == r.end {
        if r.text.len() > 0 && !authorized(comments, r.start) {
            Some(RewriteError::Unauthorized { at: r.start })
        } else {
            None
        }
    } else {
        let i = first_past(comments, r.start as int, 0);
        if i < comments.len() && r.start >= comments[i].start_byte && r.end <= comments[i].end_byte {
            None
        } else {
            match first_exposed(b, comments, i, r.start as int, r) {
                Some(at) => Some(
                    RewriteError::CoversCode { start: r.start, end: r.end, at: at as usize },
                ),
                None => None,
            }
        }
    }
}

/// The first thing wrong with a sorted plan, from "sorted[k]" on.
pub open spec fn first_fault(
    sorted: Seq<Edit>,
    k: int,
    last_end: int,
    b: Seq<u8>,
    comments: Seq<Comment>,
) -> Option<RewriteError>
    decreases sorted.len() - k,
{
    if k >= sorted.len() {
        None
    } else {
        match fault(sorted[k], last_end, b, comments) {
            Some(e) => Some(e),
            None => first_fault(sorted, k + 1, sorted[k].end as int, b, comments),
        }
    }
}

/// The first thing wrong with a plan.
pub open spec fn plan_fault(
    reps: Seq<Edit>,
    source: Seq<char>,
    comments: Seq<Comment>,
) -> Option<RewriteError> {
    first_fault(sorted(reps), 0, 0, encode_utf8(source), comments)
}

proof fn lemma_first_code_byte(b: Seq<u8>, lo: int, hi: int)
    ensures
        match first_code_byte(b, lo, hi) {
            Some(at) => lo <= at < hi && !is_space_byte(b[at]),
            None => forall|j: int| lo <= j < hi ==> is_space_byte(#[trigger] b[j]),
        },
    decreases hi - lo,
{
    if lo < hi && is_space_byte(b[lo]) {
        lemma_first_code_byte(b, lo + 1, hi);
    }
}

/// Refuses a gap that holds anything but white space: it lies inside a
/// replacement and outside every comment, so rewriting it is only authorized
/// between two comments of a group.
pub fn check_whitespace_gap(source: &str, start: usize, end: usize, r: &Replacement) -> (res: Result<
    (),
    RewriteError,
>)
    requires
        start < end ==> end <= encode_utf8(source@).len(),
    ensures
        res == match first_code_byte(encode_utf8(source@), start as int, end as int) {
            Some(at) => Err::<(), RewriteError>(
                RewriteError::CoversCode { start: r.start, end: r.end, at: at as usize },
            ),
            None => Ok(()),
        },
{
    let b = source.as_bytes();
    let mut i: usize = start;
    while i < end
        invariant
            b@ == encode_utf8(source@),
            start < end ==> end <= b@.len(),
            start <= i,
            first_code_byte(b@, start as int, end as int) == first_code_byte(
                b@,
                i as int,
                end as int,
            ),
        decreases end - i,
    {
        let x: u8 = b[i];
        if !(x == 0x20 || x == 0x09 || x == 0x0a || x == 0x0c || x == 0x0d) {
            return Err(RewriteError::CoversCode { start: r.start, end: r.end, at: i });
        }
        i = i + 1;
    }
    Ok(())
}

/// Decides whether some comment is to be moved to a byte.
fn is_authorized(comments: &[Comment], at: usize) -> (r: bool)
    ensures
        r == authorized(comments@, at),
{
    let mut i: usize = 0;
    while i < comments.len()
        invariant
            i <= comments@.len(),
            forall|j: int| 0 <= j < i ==> !moves_to(#[trigger] comments@[j], at),
        decreases comments@.len() - i,
    {
        let c: &Comment = &comments[i];
        let before: bool = match c.relocate_before {
            Some(x) => x == at,
            None => false,
        };
        let beside: bool = match c.param_shift {
            Some(x) => x.insert_at == at,
            None => false,
        };
        assert((before || beside) == moves_to(comments@[i as int], at));
        if before || beside {
            return true;
        }
        i = i + 1;
    }
    false
}

/// Checks the gaps between the comments that a range covers.
fn check_gaps(source: &str, comments: &[Comment], from: usize, r: &Replacement) -> (res: Result<
    (),
    RewriteError,
>)
    requires
        from <= comments@.len(),
        r.start <= r.end <= encode_utf8(source@).len(),
    ensures
        res == match first_exposed(
            encode_utf8(source@),
            comments@,
            from as int,
            r.start as int,
            r@,
        ) {
            Some(at) => Err::<(), RewriteError>(
                RewriteError::CoversCode { start: r.start, end: r.end, at: at as usize },
            ),
            None => Ok(()),
        },
{
    let ghost b = encode_utf8(source@);
    let mut gap: usize = r.start;
    let mut i: usize = from;
    while i < comments.len() && comments[i].start_byte < r.end
        invariant
            b == encode_utf8(source@),
            i <= comments@.len(),
            gap <= r.end <= b.len(),
            first_exposed(b, comments@, from as int, r.start as int, r@) == first_exposed(
                b,
                comments@,
                i as int,
                gap as int,
                r@,
            ),
        decreases comments@.len() - i,
    {
        let c: &Comment = &comments[i];
        let stop: usize = if c.start_byte > r.end { r.end } else { c.start_byte };
        match check_whitespace_gap(source, gap, stop, r) {
            Ok(()) => {},
            Err(e) => {
                return Err(e);
            },
        }
        let past: usize = if gap < c.end_byte { c.end_byte } else { gap };
        gap = if past > r.end { r.end } else { past };
        i = i + 1;
    }
    check_whitespace_gap(source, gap, r.end, r)
}

/// Every earlier comment ends at or before "x", so the first one past "x" is at
/// or after "cursor".
proof fn lemma_first_past(comments: Seq<Comment>, x: int, i: int, cursor: int)
    requires
        0 <= i <= cursor <= comments.len(),
        forall|j: int| i <= j < cursor ==> (#[trigger] comments[j]).end_byte <= x,
    ensures
        first_past(comments, x, i) == first_past(comments, x, cursor),
    decreases cursor - i,
{
    if i < cursor {
        lemma_first_past(comments, x, i + 1, cursor);
    }
}

proof fn lemma_sorted_last(s: Seq<Edit>, r: Edit)
    requires
        forall|i: int, j: int|
            #![trigger s[i], s[j]]
            0 <= i <= j < s.len() ==> key_le(s[i], s[j]),
    ensures
        forall|i: int, j: int|
            #![trigger insert_sorted(s, r)[i], insert_sorted(s, r)[j]]
            0 <= i <= j < insert_sorted(s, r).len() ==> key_le(
                insert_sorted(s, r)[i],
                insert_sorted(s, r)[j],
            ),
        insert_sorted(s, r).len() == s.len() + 1,
        s.len() > 0 && !key_le(s.last(), r) ==> insert_sorted(s, r).last() == s.last(),
        s.len() == 0 || key_le(s.last(), r) ==> insert_sorted(s, r).last() == r,
        insert_sorted(s, r).to_multiset() =~= s.to_multiset().insert(r),
    decreases s.len(),
{
    broadcast use vstd::seq_lib::group_to_multiset_ensures;

    if s.len() > 0 && !key_le(s.last(), r) {
        let t = s.drop_last();
        lemma_sorted_last(t, r);
        let u = insert_sorted(t, r);
        assert(u.push(s.last()) == insert_sorted(s, r));
        assert forall|i: int| 0 <= i < u.len() implies key_le(#[trigger] u[i], s.last()) by {
            assert(key_le(u[i], u[u.len() - 1]));
            if t.len() > 0 && !key_le(t.last(), r) {
                assert(s[t.len() - 1] == t.last());
                assert(key_le(s[t.len() - 1], s[s.len() - 1]));
            }
        }
        assert(s =~= t.push(s.last()));
    }
}

/// Sorting puts the replacements in order and loses none of them.
pub proof fn law_sorted_is_ordered_permutation(reps: Seq<Edit>)
    ensures
        forall|i: int, j: int|
            #![trigger sorted(reps)[i], sorted(reps)[j]]
            0 <= i <= j < sorted(reps).len() ==> key_le(sorted(reps)[i], sorted(reps)[j]),
        sorted(reps).to_multiset() =~= reps.to_multiset(),
        sorted(reps).len() == reps.len(),
    decreases reps.len(),
{
    broadcast use vstd::seq_lib::group_to_multiset_ensures;

    if reps.len() > 0 {
        law_sorted_is_ordered_permutation(reps.drop_last());
        lemma_sorted_last(sorted(reps.drop_last()), reps.last());
        assert(reps =~= reps.drop_last().push(reps.last()));
    }
}

/// Checks a plan: ranges in order and within the source, cut at character
/// boundaries, insertions only where a comment is to be moved, and every other
/// byte either comment or white space between comments.
pub fn validate(reps: &[Replacement], source: &str, comments: &[Comment]) -> (res: Result<
    (),
    RewriteError,
>)
    ensures
        res == match plan_fault(edits(reps@), source@, comments@) {
            Some(e) => Err::<(), RewriteError>(e),
            None => Ok(()),
        },
{
    let ghost b = encode_utf8(source@);
    let len: usize = source.as_bytes().len();
    let order = sorted_replacements(reps);
    let ghost plan = sorted(edits(reps@));
    let mut last_end: usize = 0;
    let mut cursor: usize = 0;
    let mut k: usize = 0;
    proof {
        law_sorted_is_ordered_permutation(edits(reps@));
        assert(order@.len() == edits(order@.unref()).len());
    }
    while k < order.len()
        invariant
            b == encode_utf8(source@),
            len == b.len(),
            plan == edits(order@.unref()),
            order@.len() == plan.len(),
            forall|i: int, j: int|
                #![trigger plan[i], plan[j]]
                0 <= i <= j < plan.len() ==> key_le(plan[i], plan[j]),
            k <= order@.len(),
            cursor <= comments@.len(),
            forall|j: int|
                #![trigger comments@[j]]
                0 <= j < cursor ==> k > 0 && comments@[j].end_byte <= plan[k - 1].start,
            plan_fault(edits(reps@), source@, comments@) == first_fault(
                plan,
                k as int,
                last_end as int,
                b,
                comments@,
            ),
        decreases order@.len() - k,
    {
        let r: &Replacement = order[k];
        assert(plan[k as int] == r@);
        proof {
            if k > 0 {
                assert(key_le(plan[k - 1], plan[k as int]));
            }
        }
        if r.start < last_end {
            return Err(RewriteError::Overlap { at: r.start });
        }
        if r.start > r.end {
            return Err(RewriteError::Inverted { at: r.start });
        }
        if r.end > len {
            return Err(RewriteError::PastEnd);
        }
        if !source.is_char_boundary(r.start) || !source.is_char_boundary(r.end) {
            return Err(RewriteError::SplitsChar { start: r.start, end: r.end });
        }
        if r.start == r.end {
            if !r.text.as_str().is_empty() && !is_authorized(comments, r.start) {
                return Err(RewriteError::Unauthorized { at: r.start });
            }
        } else {
            let ghost was = cursor;
            while cursor < comments.len() && comments[cursor].end_byte <= r.start
                invariant
                    was <= cursor <= comments@.len(),
                    forall|j: int|
                        #![trigger comments@[j]]
                        0 <= j < cursor ==> comments@[j].end_byte <= r.start,
                decreases comments@.len() - cursor,
            {
                cursor = cursor + 1;
            }
            proof {
                lemma_first_past(comments@, r.start as int, 0, cursor as int);
            }
            let contained: bool = cursor < comments.len() && r.start >= comments[cursor].start_byte
                && r.end <= comments[cursor].end_byte;
            if !contained {
                match check_gaps(source, comments, cursor, r) {
                    Ok(()) => {},
                    Err(e) => {
                        return Err(e);
                    },
                }
            }
        }
        last_end = r.end;
        k = k + 1;
    }
    Ok(())
}

/// The rewritten text with the line ending that the text it replaces had.
pub open spec fn finished(old_text: Seq<char>, rewritten: Seq<char>) -> Seq<char> {
    if text::ends_with(old_text, "\r\n"@) && !text::ends_with(rewritten, "\r\n"@) {
        rewritten + "\r\n"@
    } else if text::ends_with(old_text, "\n"@) && !text::ends_with(rewritten, "\n"@) {
        rewritten + "\n"@
    } else if text::ends_with(old_text, "\r"@) && !text::ends_with(rewritten, "\r"@) {
        rewritten + "\r"@
    } else {
        rewritten
    }
}

/// What is to stand in place of a text, or "None" when the rewrite produced
/// nothing or the same text again.
pub open spec fn new_text(old_text: Seq<char>, rewritten: Seq<char>) -> Option<Seq<char>> {
    if rewritten.len() == 0 || finished(old_text, rewritten) == old_text {
        None
    } else {
        Some(finished(old_text, rewritten))
    }
}

/// The replacement that swaps a comment's source bytes for its reflowed text,
/// or "None" when the reflow produced nothing or reproduced what was there.
pub fn make_replacement(c: &Comment, rewritten: String, source: &str) -> (res: Option<Replacement>)
    requires
        offsets::sliceable(encode_utf8(source@), c.start_byte as int, c.end_byte as int),
    ensures
        match new_text(
            offsets::slice(source@, c.start_byte as int, c.end_byte as int),
            rewritten@,
        ) {
            Some(t) => res is Some && res->0.start == c.start_byte && res->0.end == c.end_byte
                && res->0.text@ == t,
            None => res is None,
        },
{
    let old_text = text::chars_of(offsets::slice_str(source, c.start_byte, c.end_byte));
    let new = text::chars_of(rewritten.as_str());
    if new.len() == 0 {
        return None;
    }
    let old_text = old_text.as_slice();
    let new = new.as_slice();
    let mut out: String = rewritten;
    if text::ends(old_text, "\r\n") && !text::ends(new, "\r\n") {
        out.push_str("\r\n");
    } else if text::ends(old_text, "\n") && !text::ends(new, "\n") {
        out.push_str("\n");
    } else if text::ends(old_text, "\r") && !text::ends(new, "\r") {
        out.push_str("\r");
    }
    if text::same_str(old_text, out.as_str()) {
        return None;
    }
    Some(Replacement { start: c.start_byte, end: c.end_byte, text: out })
}

/// A replacement keeps the line ending of what it replaces, and what the
/// rewrite produced stands in it unchanged.
pub proof fn law_line_ending_is_kept(old_text: Seq<char>, rewritten: Seq<char>)
    requires
        new_text(old_text, rewritten) is Some,
    ensures
        text::starts_with(new_text(old_text, rewritten)->0, rewritten),
        text::ends_with(old_text, "\r\n"@) ==> text::ends_with(
            new_text(old_text, rewritten)->0,
            "\r\n"@,
        ),
        text::ends_with(old_text, "\n"@) ==> text::ends_with(
            new_text(old_text, rewritten)->0,
            "\n"@,
        ),
        text::ends_with(old_text, "\r"@) ==> text::ends_with(
            new_text(old_text, rewritten)->0,
            "\r"@,
        ),
{
    reveal_strlit("\r\n");
    reveal_strlit("\n");
    reveal_strlit("\r");
    let t = finished(old_text, rewritten);
    assert(t.subrange(0, rewritten.len() as int) =~= rewritten);
    assert("\r\n"@ =~= seq!['\r', '\n']);
    assert("\n"@ =~= seq!['\n']);
    assert("\r"@ =~= seq!['\r']);
    lemma_ends_with_suffix(rewritten, "\r\n"@);
    lemma_ends_with_suffix(rewritten, "\n"@);
    lemma_ends_with_suffix(rewritten, "\r"@);
    text::lemma_pair_at(old_text, '\r', '\n', old_text.len() - 2);
    text::lemma_one_at(old_text, '\n', old_text.len() - 1);
    text::lemma_one_at(old_text, '\r', old_text.len() - 1);
    text::lemma_pair_at(rewritten, '\r', '\n', rewritten.len() - 2);
    text::lemma_one_at(rewritten, '\n', rewritten.len() - 1);
    text::lemma_pair_at(t, '\r', '\n', t.len() - 2);
    text::lemma_one_at(t, '\n', t.len() - 1);
    text::lemma_one_at(t, '\r', t.len() - 1);
}

/// Rewriting what a rewrite produced, with the same result, changes nothing more;
/// but for a rewrite that ends in a carriage return in place of a line that ended
/// in a bare newline, where the two make up another line ending.
pub proof fn law_replacing_again_changes_nothing(old_text: Seq<char>, rewritten: Seq<char>)
    requires
        new_text(old_text, rewritten) is Some,
        !(text::ends_with(rewritten, "\r"@) && text::ends_with(old_text, "\n"@)
            && !text::ends_with(old_text, "\r\n"@)),
    ensures
        new_text(new_text(old_text, rewritten)->0, rewritten) is None,
{
    reveal_strlit("\r\n");
    reveal_strlit("\n");
    reveal_strlit("\r");
    let t = finished(old_text, rewritten);
    assert("\r\n"@ =~= seq!['\r', '\n']);
    assert("\n"@ =~= seq!['\n']);
    assert("\r"@ =~= seq!['\r']);
    lemma_ends_with_suffix(rewritten, "\r\n"@);
    lemma_ends_with_suffix(rewritten, "\n"@);
    lemma_ends_with_suffix(rewritten, "\r"@);
    text::lemma_pair_at(t, '\r', '\n', t.len() - 2);
    text::lemma_one_at(t, '\n', t.len() - 1);
    text::lemma_one_at(t, '\r', t.len() - 1);
    text::lemma_pair_at(rewritten, '\r', '\n', rewritten.len() - 2);
    text::lemma_one_at(rewritten, '\n', rewritten.len() - 1);
    text::lemma_one_at(rewritten, '\r', rewritten.len() - 1);
    text::lemma_pair_at(old_text, '\r', '\n', old_text.len() - 2);
    text::lemma_one_at(old_text, '\n', old_text.len() - 1);
    text::lemma_one_at(old_text, '\r', old_text.len() - 1);
}

proof fn lemma_ends_with_suffix(a: Seq<char>, p: Seq<char>)
    ensures
        text::ends_with(a + p, p),
{
    assert((a + p).subrange(a.len() as int, (a + p).len() as int) =~= p);
}

/// A plan that passes validation can be carried out.
pub proof fn law_valid_plan_applies(
    reps: Seq<Edit>,
    source: Seq<char>,
    comments: Seq<Comment>,
)
    requires
        plan_fault(reps, source, comments) is None,
    ensures
        can_splice(encode_utf8(source), sorted(reps), 0, 0),
{
    let b = encode_utf8(source);
    encode_utf8_valid_utf8(source);
    is_char_boundary_start_end_of_seq(b);
    lemma_valid_plan_applies(sorted(reps), 0, 0, b, comments);
}

proof fn lemma_valid_plan_applies(
    plan: Seq<Edit>,
    k: int,
    cut: int,
    b: Seq<u8>,
    comments: Seq<Comment>,
)
    requires
        0 <= k <= plan.len(),
        0 <= cut <= b.len(),
        is_char_boundary(b, cut),
        first_fault(plan, k, cut, b, comments) is None,
    ensures
        can_splice(b, plan, k, cut),
    decreases plan.len() - k,
{
    if k < plan.len() {
        assert(fault(plan[k], cut, b, comments) is None);
        lemma_valid_plan_applies(plan, k + 1, plan[k].end as int, b, comments);
    }
}

/// Whether a byte lies in some comment.
pub open spec fn in_comment(comments: Seq<Comment>, j: int) -> bool {
    exists|i: int|
        0 <= i < comments.len() && (#[trigger] comments[i]).start_byte <= j < comments[i].end_byte
}

/// Whether a replacement takes a byte out of the source.
pub open spec fn covers(r: Edit, j: int) -> bool {
    r.start <= j < r.end
}

proof fn lemma_exposed_sound(b: Seq<u8>, comments: Seq<Comment>, i: int, gap: int, r: Edit)
    requires
        0 <= i <= comments.len(),
        gap <= r.end,
        first_exposed(b, comments, i, gap, r) is None,
    ensures
        forall|j: int|
            #![trigger b[j]]
            gap <= j < r.end ==> is_space_byte(b[j]) || in_comment(comments, j),
    decreases comments.len() - i,
{
    if i >= comments.len() || comments[i].start_byte >= r.end {
        lemma_first_code_byte(b, gap, r.end as int);
    } else {
        let c = comments[i];
        lemma_first_code_byte(b, gap, at_most(c.start_byte as int, r.end as int));
        let next = at_most(at_least(gap, c.end_byte as int), r.end as int);
        lemma_exposed_sound(b, comments, i + 1, next, r);
        assert forall|j: int|
            #![trigger b[j]]
            gap <= j < r.end implies is_space_byte(b[j]) || in_comment(comments, j) by {
            if c.start_byte <= j && j < c.end_byte {
                assert(comments[i].start_byte <= j < comments[i].end_byte);
            }
        }
    }
}

/// No replacement of a plan that passes validation covers a byte of code: a
/// byte that is not white space and lies in no comment stays where the plan
/// found it.
pub proof fn law_code_is_never_covered(
    reps: Seq<Edit>,
    source: Seq<char>,
    comments: Seq<Comment>,
    r: Edit,
    j: int,
)
    requires
        plan_fault(reps, source, comments) is None,
        reps.contains(r),
        0 <= j < encode_utf8(source).len(),
        !is_space_byte(encode_utf8(source)[j]),
        !in_comment(comments, j),
    ensures
        !covers(r, j),
{
    broadcast use vstd::seq_lib::group_to_multiset_ensures;

    let b = encode_utf8(source);
    let plan = sorted(reps);
    law_sorted_is_ordered_permutation(reps);
    assert(reps.to_multiset().contains(r));
    assert(plan.to_multiset().contains(r));
    assert(plan.contains(r));
    let k = choose|k: int| 0 <= k < plan.len() && plan[k] == r;
    lemma_each_has_no_fault(plan, 0, 0, b, comments, k);
    let last_end = choose|x: int| fault(plan[k], x, b, comments) is None;
    if covers(r, j) {
        let i = first_past(comments, r.start as int, 0);
        lemma_first_past_bounds(comments, r.start as int, 0);
        if i < comments.len() && r.start >= comments[i].start_byte && r.end
            <= comments[i].end_byte {
            assert(comments[i].start_byte <= j < comments[i].end_byte);
        } else {
            lemma_exposed_sound(b, comments, i, r.start as int, r);
            assert(is_space_byte(b[j]) || in_comment(comments, j));
        }
    }
}

pub proof fn lemma_first_past_bounds(comments: Seq<Comment>, x: int, i: int)
    requires
        0 <= i <= comments.len(),
    ensures
        i <= first_past(comments, x, i) <= comments.len(),
        forall|j: int|
            i <= j < first_past(comments, x, i) ==> (#[trigger] comments[j]).end_byte <= x,
        first_past(comments, x, i) < comments.len() ==> comments[first_past(
            comments,
            x,
            i,
        )].end_byte > x,
    decreases comments.len() - i,
{
    if i < comments.len() && comments[i].end_byte <= x {
        lemma_first_past_bounds(comments, x, i + 1);
    }
}

proof fn lemma_each_has_no_fault(
    plan: Seq<Edit>,
    k: int,
    last_end: int,
    b: Seq<u8>,
    comments: Seq<Comment>,
    m: int,
)
    requires
        0 <= k <= m < plan.len(),
        first_fault(plan, k, last_end, b, comments) is None,
    ensures
        exists|x: int| fault(plan[m], x, b, comments) is None && (k < m ==> x == plan[m - 1].end)
            && (k == m ==> x == last_end),
    decreases m - k,
{
    assert(fault(plan[k], last_end, b, comments) is None);
    if k < m {
        lemma_each_has_no_fault(plan, k + 1, plan[k].end as int, b, comments, m);
    }
}

/// How far the replacements from "plan[k]" on that end at or before a byte move
/// it.
pub open spec fn shift(plan: Seq<Edit>, k: int, j: int) -> int
    decreases plan.len() - k,
{
    if k >= plan.len() {
        0
    } else {
        let r = plan[k];
        (if r.end <= j {
            encode_utf8(r.text).len() - (r.end - r.start)
        } else {
            0
        }) + shift(plan, k + 1, j)
    }
}

proof fn lemma_no_shift(plan: Seq<Edit>, k: int, j: int)
    requires
        0 <= k <= plan.len(),
        forall|i: int| k <= i < plan.len() ==> (#[trigger] plan[i]).end > j,
    ensures
        shift(plan, k, j) == 0,
    decreases plan.len() - k,
{
    if k < plan.len() {
        lemma_no_shift(plan, k + 1, j);
    }
}

proof fn lemma_later_start(
    plan: Seq<Edit>,
    k: int,
    cut: int,
    b: Seq<u8>,
    comments: Seq<Comment>,
)
    requires
        0 <= k <= plan.len(),
        first_fault(plan, k, cut, b, comments) is None,
    ensures
        forall|i: int|
            k <= i < plan.len() ==> cut <= (#[trigger] plan[i]).start <= plan[i].end <= b.len(),
    decreases plan.len() - k,
{
    if k < plan.len() {
        assert(fault(plan[k], cut, b, comments) is None);
        lemma_later_start(plan, k + 1, plan[k].end as int, b, comments);
    }
}

proof fn lemma_byte_survives(
    plan: Seq<Edit>,
    k: int,
    cut: int,
    b: Seq<u8>,
    comments: Seq<Comment>,
    j: int,
)
    requires
        0 <= k <= plan.len(),
        0 <= cut <= j < b.len(),
        first_fault(plan, k, cut, b, comments) is None,
        forall|i: int| k <= i < plan.len() ==> !covers(#[trigger] plan[i], j),
    ensures
        0 <= j - cut + shift(plan, k, j) < splice(b, plan, k, cut).len(),
        splice(b, plan, k, cut)[j - cut + shift(plan, k, j)] == b[j],
    decreases plan.len() - k,
{
    if k < plan.len() {
        let r = plan[k];
        assert(fault(r, cut, b, comments) is None);
        assert(!covers(plan[k], j));
        lemma_later_start(plan, k + 1, r.end as int, b, comments);
        let kept = b.subrange(cut, r.start as int);
        let t = encode_utf8(r.text);
        let rest = splice(b, plan, k + 1, r.end as int);
        if j < r.start {
            assert forall|i: int| k <= i < plan.len() implies (#[trigger] plan[i]).end > j by {}
            lemma_no_shift(plan, k, j);
            assert((kept + t + rest)[j - cut] == kept[j - cut]);
        } else {
            lemma_byte_survives(plan, k + 1, r.end as int, b, comments, j);
            let at = j - r.end + shift(plan, k + 1, j);
            assert((kept + t + rest)[kept.len() + t.len() + at] == rest[at]);
        }
    }
}

/// Every byte that no replacement covers is in the result, moved by what the
/// replacements in front of it add and take away.
pub proof fn law_uncovered_byte_survives(
    reps: Seq<Edit>,
    source: Seq<char>,
    comments: Seq<Comment>,
    j: int,
)
    requires
        plan_fault(reps, source, comments) is None,
        0 <= j < encode_utf8(source).len(),
        forall|r: Edit| #[trigger] reps.contains(r) ==> !covers(r, j),
    ensures
        ({
            let b = encode_utf8(source);
            let out = splice(b, sorted(reps), 0, 0);
            let at = j + shift(sorted(reps), 0, j);
            0 <= at < out.len() && out[at] == b[j]
        }),
{
    broadcast use vstd::seq_lib::group_to_multiset_ensures;

    let plan = sorted(reps);
    law_sorted_is_ordered_permutation(reps);
    assert forall|i: int| 0 <= i < plan.len() implies !covers(#[trigger] plan[i], j) by {
        assert(plan.contains(plan[i]));
        assert(plan.to_multiset().contains(plan[i]));
        assert(reps.to_multiset().contains(plan[i]));
        assert(reps.contains(plan[i]));
    }
    lemma_byte_survives(plan, 0, 0, encode_utf8(source), comments, j);
}

/// A plan that passes validation keeps every byte of code.
pub proof fn law_code_survives(
    reps: Seq<Edit>,
    source: Seq<char>,
    comments: Seq<Comment>,
    j: int,
)
    requires
        plan_fault(reps, source, comments) is None,
        0 <= j < encode_utf8(source).len(),
        !is_space_byte(encode_utf8(source)[j]),
        !in_comment(comments, j),
    ensures
        ({
            let b = encode_utf8(source);
            let out = splice(b, sorted(reps), 0, 0);
            let at = j + shift(sorted(reps), 0, j);
            0 <= at < out.len() && out[at] == b[j]
        }),
{
    assert forall|r: Edit| #[trigger] reps.contains(r) implies !covers(r, j) by {
        law_code_is_never_covered(reps, source, comments, r, j);
    }
    law_uncovered_byte_survives(reps, source, comments, j);
}

/// Bytes that stay keep their order.
pub proof fn law_survivors_keep_their_order(
    reps: Seq<Edit>,
    source: Seq<char>,
    comments: Seq<Comment>,
    i: int,
    j: int,
)
    requires
        plan_fault(reps, source, comments) is None,
        0 <= i < j < encode_utf8(source).len(),
        forall|r: Edit| #[trigger] reps.contains(r) ==> !covers(r, i) && !covers(r, j),
    ensures
        i + shift(sorted(reps), 0, i) < j + shift(sorted(reps), 0, j),
{
    broadcast use vstd::seq_lib::group_to_multiset_ensures;

    let plan = sorted(reps);
    law_sorted_is_ordered_permutation(reps);
    assert forall|m: int| 0 <= m < plan.len() implies !covers(#[trigger] plan[m], i) && !covers(
        plan[m],
        j,
    ) by {
        assert(plan.to_multiset().contains(plan[m]));
        assert(reps.to_multiset().contains(plan[m]));
        assert(reps.contains(plan[m]));
    }
    lemma_survivors_in_order(plan, 0, 0, encode_utf8(source), comments, i, j);
}

proof fn lemma_survivors_in_order(
    plan: Seq<Edit>,
    k: int,
    cut: int,
    b: Seq<u8>,
    comments: Seq<Comment>,
    i: int,
    j: int,
)
    requires
        0 <= k <= plan.len(),
        0 <= cut <= b.len(),
        i < j < b.len(),
        first_fault(plan, k, cut, b, comments) is None,
        forall|m: int|
            k <= m < plan.len() ==> !covers(#[trigger] plan[m], i) && !covers(plan[m], j),
    ensures
        i + shift(plan, k, i) < j + shift(plan, k, j),
        cut <= j ==> j + shift(plan, k, j) >= cut,
    decreases plan.len() - k,
{
    if k < plan.len() {
        let r = plan[k];
        assert(fault(r, cut, b, comments) is None);
        lemma_survivors_in_order(plan, k + 1, r.end as int, b, comments, i, j);
        lemma_later_start(plan, k + 1, r.end as int, b, comments);
        assert(!covers(plan[k], i) && !covers(plan[k], j));
        if i < r.start {
            assert forall|m: int| k <= m < plan.len() implies (#[trigger] plan[m]).end > i by {}
            lemma_no_shift(plan, k, i);
            if j < r.start {
                assert forall|m: int| k <= m < plan.len() implies (#[trigger] plan[m]).end > j by {}
                lemma_no_shift(plan, k, j);
            }
        }
    }
}

/// Two plans of the same replacements, no two of which share both ends, are
/// carried out alike, in whatever order they were made.
pub proof fn law_plan_order_is_irrelevant(a: Seq<Edit>, b: Seq<Edit>)
    requires
        a.to_multiset() == b.to_multiset(),
        forall|i: int, j: int|
            #![trigger a[i], a[j]]
            0 <= i < j < a.len() ==> a[i].start != a[j].start || a[i].end != a[j].end,
    ensures
        sorted(a) == sorted(b),
{
    broadcast use vstd::seq_lib::group_to_multiset_ensures;

    law_sorted_is_ordered_permutation(a);
    law_sorted_is_ordered_permutation(b);
    let s = sorted(a);
    let t = sorted(b);
    assert forall|x: Edit, y: Edit| #[trigger]
        s.contains(x) && #[trigger] s.contains(y) && x.start == y.start && x.end == y.end implies x
        == y by {
        assert(s.to_multiset().contains(x));
        assert(s.to_multiset().contains(y));
        assert(a.to_multiset().contains(x));
        assert(a.to_multiset().contains(y));
        assert(a.contains(x) && a.contains(y));
        let i = choose|i: int| 0 <= i < a.len() && a[i] == x;
        let j = choose|j: int| 0 <= j < a.len() && a[j] == y;
        if i < j {
            assert(a[i].start != a[j].start || a[i].end != a[j].end);
        } else if j < i {
            assert(a[j].start != a[i].start || a[j].end != a[i].end);
        }
    }
    lemma_sorted_unique(s, t);
}

proof fn lemma_sorted_unique(s: Seq<Edit>, t: Seq<Edit>)
    requires
        s.to_multiset() == t.to_multiset(),
        forall|i: int, j: int|
            #![trigger s[i], s[j]]
            0 <= i <= j < s.len() ==> key_le(s[i], s[j]),
        forall|i: int, j: int|
            #![trigger t[i], t[j]]
            0 <= i <= j < t.len() ==> key_le(t[i], t[j]),
        forall|x: Edit, y: Edit| #[trigger]
            s.contains(x) && #[trigger] s.contains(y) && x.start == y.start && x.end == y.end ==> x
                == y,
    ensures
        s == t,
    decreases s.len(),
{
    broadcast use vstd::seq_lib::group_to_multiset_ensures;

    assert(s.len() == s.to_multiset().len() && t.len() == t.to_multiset().len());
    if s.len() > 0 {
        let x = s.last();
        let y = t.last();
        assert(s.contains(x) && t.contains(y));
        assert(s.to_multiset().contains(x) && t.to_multiset().contains(y));
        assert(t.contains(x) && s.contains(y));
        let i = choose|i: int| 0 <= i < t.len() && t[i] == x;
        let j = choose|j: int| 0 <= j < s.len() && s[j] == y;
        assert(key_le(t[i], t[t.len() - 1]));
        assert(key_le(s[j], s[s.len() - 1]));
        assert(x == y);
        let s1 = s.drop_last();
        let t1 = t.drop_last();
        assert(s =~= s1.push(x));
        assert(t =~= t1.push(y));
        assert(s1.to_multiset() =~= s.to_multiset().remove(x));
        assert(t1.to_multiset() =~= t.to_multiset().remove(y));
        assert forall|p: Edit, q: Edit| #[trigger]
            s1.contains(p) && #[trigger] s1.contains(q) && p.start == q.start && p.end
            == q.end implies p == q by {
            let m = choose|m: int| 0 <= m < s1.len() && s1[m] == p;
            let n = choose|n: int| 0 <= n < s1.len() && s1[n] == q;
            assert(s[m] == p && s[n] == q);
            assert(s.contains(p) && s.contains(q));
        }
        lemma_sorted_unique(s1, t1);
    } else {
        assert(s =~= t);
    }
}

/// A plan with nothing in it leaves the source as it is.
pub proof fn law_empty_plan_changes_nothing(source: Seq<char>, out: Seq<char>)
    requires
        encode_utf8(out) == splice(encode_utf8(source), sorted(Seq::empty()), 0, 0),
    ensures
        out == source,
{
    assert(encode_utf8(source).skip(0) =~= encode_utf8(source));
    offsets::law_bytes_determine_text(out, source);
}

/// Whether comments come in order without overlap.
pub open spec fn in_order(comments: Seq<Comment>) -> bool {
    &&& forall|i: int|
        0 <= i < comments.len() ==> (#[trigger] comments[i]).start_byte <= comments[i].end_byte
    &&& forall|i: int, j: int|
        #![trigger comments[i], comments[j]]
        0 <= i < j < comments.len() ==> comments[i].end_byte <= comments[j].start_byte
}

pub proof fn lemma_exposed_complete(b: Seq<u8>, comments: Seq<Comment>, i: int, gap: int, r: Edit)
    requires
        in_order(comments),
        0 <= i <= comments.len(),
        gap <= r.end,
        forall|j: int| 0 <= j < i ==> (#[trigger] comments[j]).end_byte <= gap || gap == r.end,
        first_exposed(b, comments, i, gap, r) is Some,
    ensures
        ({
            let at = first_exposed(b, comments, i, gap, r)->0;
            gap <= at < r.end && !is_space_byte(b[at]) && !in_comment(comments, at)
        }),
    decreases comments.len() - i,
{
    let at = first_exposed(b, comments, i, gap, r)->0;
    if i >= comments.len() || comments[i].start_byte >= r.end {
        lemma_first_code_byte(b, gap, r.end as int);
        if in_comment(comments, at) {
            let m = choose|m: int|
                0 <= m < comments.len() && (#[trigger] comments[m]).start_byte <= at
                    < comments[m].end_byte;
            if m < i {
                assert(comments[m].end_byte <= gap);
            } else if m > i {
                assert(comments[i].end_byte <= comments[m].start_byte);
            }
        }
    } else {
        let c = comments[i];
        let stop = at_most(c.start_byte as int, r.end as int);
        lemma_first_code_byte(b, gap, stop);
        match first_code_byte(b, gap, stop) {
            Some(x) => {
                if in_comment(comments, at) {
                    let m = choose|m: int|
                        0 <= m < comments.len() && (#[trigger] comments[m]).start_byte <= at
                            < comments[m].end_byte;
                    if m < i {
                        assert(comments[m].end_byte <= gap);
                    } else if m > i {
                        assert(comments[i].end_byte <= comments[m].start_byte);
                    }
                }
            },
            None => {
                let next = at_most(at_least(gap, c.end_byte as int), r.end as int);
                assert forall|j: int| 0 <= j < i + 1 implies (#[trigger] comments[j]).end_byte
                    <= next || next == r.end by {
                    if j < i {
                        assert(comments[j].end_byte <= gap || gap == r.end);
                    }
                }
                lemma_exposed_complete(b, comments, i + 1, next, r);
            },
        }
    }
}

/// What validation asks of a range that takes bytes out of the source, where the
/// comments come in order: each of its bytes is white space or in a comment.
pub proof fn law_coverage_rule(
    r: Edit,
    last_end: int,
    b: Seq<u8>,
    comments: Seq<Comment>,
)
    requires
        in_order(comments),
        last_end <= r.start < r.end,
        offsets::sliceable(b, r.start as int, r.end as int),
    ensures
        fault(r, last_end, b, comments) is None <==> (forall|j: int|
            #![trigger b[j]]
            covers(r, j) ==> is_space_byte(b[j]) || in_comment(comments, j)),
{
    let i = first_past(comments, r.start as int, 0);
    lemma_first_past_bounds(comments, r.start as int, 0);
    if i < comments.len() && r.start >= comments[i].start_byte && r.end <= comments[i].end_byte {
        assert forall|j: int|
            #![trigger b[j]]
            covers(r, j) implies is_space_byte(b[j]) || in_comment(comments, j) by {
            assert(comments[i].start_byte <= j < comments[i].end_byte);
        }
    } else {
        match first_exposed(b, comments, i, r.start as int, r) {
            Some(at) => {
                lemma_exposed_complete(b, comments, i, r.start as int, r);
                assert(covers(r, at));
                assert(!(is_space_byte(b[at]) || in_comment(comments, at)));
            },
            None => {
                lemma_exposed_sound(b, comments, i, r.start as int, r);
            },
        }
    }
}

/// A replacement for one comment of a source is a plan that passes validation.
pub proof fn law_replacing_a_comment_is_valid(
    r: Edit,
    source: Seq<char>,
    comments: Seq<Comment>,
    i: int,
)
    requires
        crate::parse::extracted(comments, source),
        0 <= i < comments.len(),
        r.start == comments[i].start_byte,
        r.end == comments[i].end_byte,
    ensures
        plan_fault(seq![r], source, comments) is None,
{
    let b = encode_utf8(source);
    let plan = seq![r];
    assert(plan.drop_last() =~= Seq::<Edit>::empty());
    assert(sorted(plan.drop_last()) =~= Seq::<Edit>::empty());
    assert(sorted(plan) =~= plan);
    assert(offsets::sliceable(b, comments[i].start_byte as int, comments[i].end_byte as int));
    assert forall|j: int|
        0 <= j < comments.len() implies (#[trigger] comments[j]).start_byte
        <= comments[j].end_byte by {}
    assert forall|j: int|
        #![trigger b[j]]
        covers(r, j) implies is_space_byte(b[j]) || in_comment(comments, j) by {
        assert(comments[i].start_byte <= j < comments[i].end_byte);
    }
    law_coverage_rule(r, 0, b, comments);
    reveal_with_fuel(first_fault, 2);
}

/// Whether every range of a plan can be cut out of a source.
pub open spec fn in_source(reps: Seq<Edit>, source: Seq<char>) -> bool {
    forall|i: int|
        0 <= i < reps.len() ==> offsets::sliceable(
            encode_utf8(source),
            (#[trigger] reps[i]).start as int,
            reps[i].end as int,
        )
}

/// Every range of a plan that passes validation can be cut out of the source.
pub proof fn law_valid_plan_is_in_source(
    reps: Seq<Edit>,
    source: Seq<char>,
    comments: Seq<Comment>,
)
    requires
        plan_fault(reps, source, comments) is None,
    ensures
        in_source(reps, source),
{
    broadcast use vstd::seq_lib::group_to_multiset_ensures;

    let b = encode_utf8(source);
    let plan = sorted(reps);
    law_sorted_is_ordered_permutation(reps);
    assert forall|i: int| 0 <= i < reps.len() implies offsets::sliceable(
        b,
        (#[trigger] reps[i]).start as int,
        reps[i].end as int,
    ) by {
        let r = reps[i];
        assert(reps.to_multiset().contains(r));
        assert(plan.to_multiset().contains(r));
        assert(plan.contains(r));
        let k = choose|k: int| 0 <= k < plan.len() && plan[k] == r;
        lemma_each_has_no_fault(plan, 0, 0, b, comments, k);
        let last_end = choose|x: int| fault(plan[k], x, b, comments) is None;
        assert(fault(plan[k], last_end, b, comments) is None);
    }
}

/// Carries out a plan that passes validation, and no other.
pub fn apply_checked(source: &str, reps: &[Replacement], comments: &[Comment]) -> (res: Result<
    String,
    RewriteError,
>)
    ensures
        match plan_fault(edits(reps@), source@, comments@) {
            Some(e) => res == Err::<String, RewriteError>(e),
            None => res is Ok && encode_utf8(res->Ok_0@) == splice(
                encode_utf8(source@),
                sorted(edits(reps@)),
                0,
                0,
            ),
        },
{
    match validate(reps, source, comments) {
        Ok(()) => {
            proof {
                law_valid_plan_applies(edits(reps@), source@, comments@);
            }
            Ok(apply(source, reps))
        },
        Err(e) => Err(e),
    }
}

/// What a temporary file's name says behind the name of the file it stands for.
pub open spec fn temp_suffix(pid: nat, seq: nat, nanos: nat) -> Seq<char> {
    text::decimal(pid) + ("."@ + (text::decimal(seq) + ("."@ + (text::decimal(nanos) + ".tmp"@))))
}

/// The name of a temporary file.
pub open spec fn temp_file_name(file: Seq<char>, pid: nat, seq: nat, nanos: nat) -> Seq<char> {
    "."@ + file + ".commentflow."@ + temp_suffix(pid, seq, nanos)
}

/// Names the temporary file that a new version is written to before it takes a
/// file's place: by the process, the number of files it wrote before, and the
/// clock.
pub fn temp_name(file: &str, pid: u32, seq: u64, nanos: u32) -> (name: String)
    ensures
        name@ == temp_file_name(file@, pid as nat, seq as nat, nanos as nat),
{
    let mut name: String = String::new();
    name.push_str(".");
    name.push_str(file);
    name.push_str(".commentflow.");
    text::push_decimal(&mut name, pid as u128);
    name.push_str(".");
    text::push_decimal(&mut name, seq as u128);
    name.push_str(".");
    text::push_decimal(&mut name, nanos as u128);
    name.push_str(".tmp");
    assert(name@ =~= temp_file_name(file@, pid as nat, seq as nat, nanos as nat));
    name
}

proof fn lemma_number_before_dot(a: nat, rest_a: Seq<char>, b: nat, rest_b: Seq<char>)
    requires
        rest_a.len() > 0 && rest_a[0] == '.',
        rest_b.len() > 0 && rest_b[0] == '.',
        text::decimal(a) + rest_a == text::decimal(b) + rest_b,
    ensures
        a == b,
        rest_a == rest_b,
{
    text::lemma_decimal(a);
    text::lemma_decimal(b);
    let s = text::decimal(a) + rest_a;
    let n = text::decimal(a).len() as int;
    let m = text::decimal(b).len() as int;
    assert forall|i: int| 0 <= i < n implies text::Class::Digit.holds(#[trigger] s[i]) by {
        assert(s[i] == text::decimal(a)[i]);
    }
    assert(s[n] == '.');
    text::lemma_run_len_is(s, text::Class::Digit, n);
    assert forall|i: int| 0 <= i < m implies text::Class::Digit.holds(#[trigger] s[i]) by {
        assert(s[i] == text::decimal(b)[i]);
    }
    assert(s[m] == (text::decimal(b) + rest_b)[m]);
    text::lemma_run_len_is(s, text::Class::Digit, m);
    assert(text::decimal(a) =~= s.take(n));
    assert(text::decimal(b) =~= s.take(n));
    assert(rest_a =~= s.skip(n));
    assert(rest_b =~= s.skip(n));
}

/// Two writers never share a temporary file: those that differ in process, in
/// count or in clock give it different names.
pub proof fn law_temp_names_differ(
    file: Seq<char>,
    a: (nat, nat, nat),
    b: (nat, nat, nat),
)
    requires
        temp_file_name(file, a.0, a.1, a.2) == temp_file_name(file, b.0, b.1, b.2),
    ensures
        a == b,
{
    reveal_strlit(".");
    reveal_strlit(".tmp");
    let head = "."@ + file + ".commentflow."@;
    let x = temp_suffix(a.0, a.1, a.2);
    let y = temp_suffix(b.0, b.1, b.2);
    assert(x =~= (head + x).skip(head.len() as int));
    assert(y =~= (head + y).skip(head.len() as int));
    let x2 = text::decimal(a.1) + ("."@ + (text::decimal(a.2) + ".tmp"@));
    let y2 = text::decimal(b.1) + ("."@ + (text::decimal(b.2) + ".tmp"@));
    lemma_number_before_dot(a.0, "."@ + x2, b.0, "."@ + y2);
    assert(x2 =~= ("."@ + x2).skip(1));
    assert(y2 =~= ("."@ + y2).skip(1));
    let x3 = text::decimal(a.2) + ".tmp"@;
    let y3 = text::decimal(b.2) + ".tmp"@;
    lemma_number_before_dot(a.1, "."@ + x3, b.1, "."@ + y3);
    assert(x3 =~= ("."@ + x3).skip(1));
    assert(y3 =~= ("."@ + y3).skip(1));
    lemma_number_before_dot(a.2, ".tmp"@, b.2, ".tmp"@);
}

} // verus!
