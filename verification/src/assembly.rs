//! Comment scanning for assembly (".s" / ".S").
//!
//! Assembly has no single syntax to parse. GAS picks its line-comment character
//! per target, and every candidate is load-bearing syntax on some other target:
//! "#" is a comment on x86 and the immediate prefix on ARM32, "@" is a comment
//! on ARM32 and a relocation suffix on x86-64, ";" separates statements, "!" is
//! ARM writeback. The source file does not state its target, so none of them is
//! decidable here.
//!
//! "/* ... */" is the one form GAS accepts on every target. The scanner finds
//! those and nothing else, as byte spans in source order. A "/*" that a
//! target-specific line comment could have swallowed is skipped rather than
//! guessed at.

use vstd::prelude::*;
use vstd::slice::slice_subrange;
use vstd::utf8::*;

use crate::offsets;
use crate::parse;
use crate::parse::Comment;
use crate::text;
use crate::text::Class;

verus! {

broadcast use vstd::string::group_string_axioms;

/// The bytes "/*".
pub open spec fn opener() -> Seq<u8> {
    seq![0x2fu8, 0x2au8]
}

/// The bytes "*/".
pub open spec fn closer() -> Seq<u8> {
    seq![0x2au8, 0x2fu8]
}

/// Whether a line comment of some target begins at a byte: "#", "@", ";", "!"
/// or "//".
pub open spec fn line_comment_at(b: Seq<u8>, i: int) -> bool {
    ||| b[i] == 0x23 || b[i] == 0x40 || b[i] == 0x3b || b[i] == 0x21
    ||| b[i] == 0x2f && i + 1 < b.len() && b[i + 1] == 0x2f
}

/// The smaller of two positions.
pub open spec fn clip(i: int, n: nat) -> int {
    if i <= n {
        i
    } else {
        n as int
    }
}

/// Where a string literal whose content begins at "i" lets go: past its closing
/// quote, or at the end of its line. A backslash takes the next byte with it,
/// but not a newline.
pub open spec fn string_end(b: Seq<u8>, i: int) -> int
    decreases b.len() + 1 - i,
{
    if i >= b.len() {
        clip(i, b.len())
    } else if b[i] == 0x5c {
        if i + 1 < b.len() && b[i + 1] == 0x0a {
            i
        } else {
            string_end(b, i + 2)
        }
    } else if b[i] == 0x22 {
        i + 1
    } else if b[i] == 0x0a {
        i
    } else {
        string_end(b, i + 1)
    }
}

/// What the scanner does at a byte.
pub enum Step {
    /// A block comment begins here and ends before the given byte.
    Claim(int),
    /// Nothing to claim before the given byte.
    Skip(int),
    /// Nothing to claim in the rest of the file.
    Stop,
}

/// What stands at byte "i", read outside any comment, string or character
/// constant.
pub open spec fn step(b: Seq<u8>, i: int) -> Step {
    if text::stands_at(b, opener(), i) {
        match text::find_from(b, closer(), i + 2) {
            Some(j) => Step::Claim(j + 2),
            None => Step::Stop,
        }
    } else if b[i] == 0x22 {
        Step::Skip(string_end(b, i + 1))
    } else if b[i] == 0x27 {
        // A character constant has no closing quote: "'a", or "'\n".
        let escaped = i + 1 < b.len() && b[i + 1] == 0x5c;
        Step::Skip(clip(if escaped { i + 3 } else { i + 2 }, b.len()))
    } else if line_comment_at(b, i) {
        match text::find_from(b, seq![0x0au8], i) {
            Some(nl) => match text::rfind_in(b, opener(), i, nl) {
                // The last "/*" on the skipped line opens a comment: the scan
                // resumes past its closer, if that is further down.
                Some(open) => match text::find_from(b, closer(), open + 2) {
                    Some(j) => Step::Skip(if j + 2 <= nl + 1 { nl + 1 } else { j + 2 }),
                    None => Step::Stop,
                },
                None => Step::Skip(nl + 1),
            },
            None => Step::Stop,
        }
    } else {
        Step::Skip(i + 1)
    }
}

/// The block comments at or after byte "i", as half-open byte ranges.
pub open spec fn spans(b: Seq<u8>, i: int) -> Seq<(int, int)>
    decreases b.len() - i,
{
    if i < 0 || i >= b.len() {
        Seq::empty()
    } else {
        proof {
            lemma_step_advances(b, i);
        }
        match step(b, i) {
            Step::Claim(end) => seq![(i, end)] + spans(b, end),
            Step::Skip(next) => spans(b, next),
            Step::Stop => Seq::empty(),
        }
    }
}

proof fn lemma_string_end(b: Seq<u8>, i: int)
    requires
        0 <= i <= b.len() + 1,
    ensures
        clip(i, b.len()) <= string_end(b, i) <= b.len(),
    decreases b.len() + 1 - i,
{
    if i < b.len() {
        if b[i] == 0x5c && !(i + 1 < b.len() && b[i + 1] == 0x0a) {
            lemma_string_end(b, i + 2);
        } else if b[i] != 0x5c && b[i] != 0x22 && b[i] != 0x0a {
            lemma_string_end(b, i + 1);
        }
    }
}

/// A step moves on, and stays within the source.
pub proof fn lemma_step_advances(b: Seq<u8>, i: int)
    requires
        0 <= i < b.len(),
    ensures
        match step(b, i) {
            Step::Claim(end) => i < end <= b.len(),
            Step::Skip(next) => i < next <= b.len(),
            Step::Stop => true,
        },
{
    text::lemma_find_from(b, closer(), i + 2);
    lemma_string_end(b, i + 1);
    text::lemma_find_from(b, seq![0x0au8], i);
    if let Some(nl) = text::find_from(b, seq![0x0au8], i) {
        lemma_rfind_in(b, opener(), i, nl);
        if let Some(open) = text::rfind_in(b, opener(), i, nl) {
            text::lemma_find_from(b, closer(), open + 2);
        }
    }
}

proof fn lemma_rfind_in(b: Seq<u8>, p: Seq<u8>, lo: int, hi: int)
    ensures
        match text::rfind_in(b, p, lo, hi) {
            Some(o) => lo <= o < hi && text::stands_at(b, p, o) && forall|k: int|
                o < k < hi ==> !#[trigger] text::stands_at(b, p, k),
            None => forall|k: int| lo <= k < hi ==> !#[trigger] text::stands_at(b, p, k),
        },
    decreases hi - lo,
{
    if hi > lo && !text::stands_at(b, p, hi - 1) {
        lemma_rfind_in(b, p, lo, hi - 1);
    }
}

/// The spans as the caller gets them, read as numbers.
pub open spec fn span_view(v: Seq<(usize, usize)>) -> Seq<(int, int)> {
    Seq::new(v.len(), |k: int| (v[k].0 as int, v[k].1 as int))
}

/// Decides whether a line comment of some target begins at a byte. This only
/// ever suppresses a candidate comment; it never emits one.
pub fn opens_line_comment(bytes: &[u8], i: usize) -> (r: bool)
    requires
        i < bytes@.len(),
    ensures
        r == line_comment_at(bytes@, i as int),
{
    let c: u8 = bytes[i];
    if c == 0x23 || c == 0x40 || c == 0x3b || c == 0x21 {
        return true;
    }
    c == 0x2f && bytes.len() - i > 1 && bytes[i + 1] == 0x2f
}

/// Whether a line starts, past white space, with a character that opens a line
/// comment on some assembler target.
pub open spec fn line_comment_line(line: Seq<char>) -> bool {
    let t = text::trim_start(line);
    ||| t.len() > 0 && (t[0] == '#' || t[0] == '@' || t[0] == ';' || t[0] == '!')
    ||| text::starts_with(t, "//"@)
}

/// True when "line" starts with a character that opens a line comment on some
/// assembler target. [`scan`] never claims those, so a caller that asks whether
/// a line is a comment asks here.
pub fn opens_line_comment_at(line: &str) -> (r: bool)
    ensures
        r == line_comment_line(line@),
{
    let cs = text::chars_of(line);
    let t = text::trimmed_start(cs.as_slice());
    if t.len() > 0 && (t[0] == '#' || t[0] == '@' || t[0] == ';' || t[0] == '!') {
        return true;
    }
    text::begins(t, "//")
}

/// Finds the first pair of bytes at or after "from".
fn find_pair(b: &[u8], x: u8, y: u8, from: usize) -> (r: Option<usize>)
    requires
        from <= b@.len(),
    ensures
        match r {
            Some(j) => text::find_from(b@, seq![x, y], from as int) == Some(j as int) && j + 1 < b@.len(),
            None => text::find_from(b@, seq![x, y], from as int) is None,
        },
{
    let mut i: usize = from;
    while b.len() - i > 1
        invariant
            from <= i <= b@.len(),
            text::find_from(b@, seq![x, y], from as int) == text::find_from(b@, seq![x, y], i as int),
        decreases b@.len() - i,
    {
        proof {
            text::lemma_pair_at(b@, x, y, i as int);
        }
        if b[i] == x && b[i + 1] == y {
            return Some(i);
        }
        i = i + 1;
    }
    None
}

/// Finds the first newline at or after "from".
fn find_newline(b: &[u8], from: usize) -> (r: Option<usize>)
    requires
        from <= b@.len(),
    ensures
        match r {
            Some(j) => text::find_from(b@, seq![0x0au8], from as int) == Some(j as int) && j < b@.len(),
            None => text::find_from(b@, seq![0x0au8], from as int) is None,
        },
{
    let mut i: usize = from;
    while i < b.len()
        invariant
            from <= i <= b@.len(),
            text::find_from(b@, seq![0x0au8], from as int) == text::find_from(b@, seq![0x0au8], i as int),
        decreases b@.len() - i,
    {
        proof {
            text::lemma_one_at(b@, 0x0au8, i as int);
        }
        if b[i] == 0x0a {
            return Some(i);
        }
        i = i + 1;
    }
    None
}

/// Finds the last "/*" that begins in "lo .. hi".
fn rfind_opener(b: &[u8], lo: usize, hi: usize) -> (r: Option<usize>)
    requires
        lo <= hi < b@.len(),
    ensures
        match r {
            Some(o) => text::rfind_in(b@, opener(), lo as int, hi as int) == Some(o as int) && lo <= o
                < hi,
            None => text::rfind_in(b@, opener(), lo as int, hi as int) is None,
        },
{
    let mut k: usize = hi;
    while k > lo
        invariant
            lo <= k <= hi < b@.len(),
            text::rfind_in(b@, opener(), lo as int, hi as int) == text::rfind_in(
                b@,
                opener(),
                lo as int,
                k as int,
            ),
        decreases k,
    {
        proof {
            text::lemma_pair_at(b@, 0x2fu8, 0x2au8, k - 1);
        }
        if b[k - 1] == 0x2f && b[k] == 0x2a {
            return Some(k - 1);
        }
        k = k - 1;
    }
    None
}

/// Finds where a string literal lets go.
fn skip_string(b: &[u8], from: usize) -> (r: usize)
    requires
        from <= b@.len(),
    ensures
        r == string_end(b@, from as int),
        r <= b@.len(),
{
    let mut i: usize = from;
    while i < b.len()
        invariant
            i <= b@.len(),
            string_end(b@, from as int) == string_end(b@, i as int),
        decreases b@.len() - i,
    {
        if b[i] == 0x5c {
            if b.len() - i > 1 && b[i + 1] == 0x0a {
                return i;
            }
            if b.len() - i > 2 {
                i = i + 2;
            } else {
                assert(string_end(b@, i + 2) == b@.len());
                i = b.len();
            }
        } else if b[i] == 0x22 {
            return i + 1;
        } else if b[i] == 0x0a {
            return i;
        } else {
            i = i + 1;
        }
    }
    i
}

/// Finds every block comment of an assembly source, as byte spans in source
/// order.
pub fn scan(source: &str) -> (out: Vec<(usize, usize)>)
    ensures
        span_view(out@) == spans(encode_utf8(source@), 0),
{
    let b = source.as_bytes();
    let mut out: Vec<(usize, usize)> = Vec::new();
    let mut i: usize = 0;
    assert(span_view(out@) + spans(b@, 0) =~= spans(b@, 0));
    while i < b.len()
        invariant_except_break
            i <= b@.len(),
            spans(b@, 0) == span_view(out@) + spans(b@, i as int),
        ensures
            span_view(out@) == spans(b@, 0),
        decreases b@.len() - i,
    {
        proof {
            lemma_step_advances(b@, i as int);
            text::lemma_pair_at(b@, 0x2fu8, 0x2au8, i as int);
        }
        if b[i] == 0x2f && b.len() - i > 1 && b[i + 1] == 0x2a {
            match find_pair(b, 0x2a, 0x2f, i + 2) {
                Some(j) => {
                    let end: usize = j + 2;
                    let ghost seen = span_view(out@);
                    out.push((i, end));
                    assert(span_view(out@) =~= seen + seq![(i as int, end as int)]);
                    assert(seen + (seq![(i as int, end as int)] + spans(b@, end as int))
                        =~= span_view(out@) + spans(b@, end as int));
                    i = end;
                },
                None => {
                    assert(span_view(out@) + Seq::<(int, int)>::empty() =~= span_view(out@));
                    break;
                },
            }
        } else if b[i] == 0x22 {
            i = skip_string(b, i + 1);
        } else if b[i] == 0x27 {
            let escaped: bool = b.len() - i > 1 && b[i + 1] == 0x5c;
            let width: usize = if escaped { 3 } else { 2 };
            i = if b.len() - i > width { i + width } else { b.len() };
        } else if opens_line_comment(b, i) {
            match find_newline(b, i) {
                Some(nl) => {
                    match rfind_opener(b, i, nl) {
                        Some(open) => {
                            match find_pair(b, 0x2a, 0x2f, open + 2) {
                                Some(j) => {
                                    i = if j + 2 <= nl + 1 { nl + 1 } else { j + 2 };
                                },
                                None => {
                                    assert(span_view(out@) + Seq::<(int, int)>::empty()
                                        =~= span_view(out@));
                                    break;
                                },
                            }
                        },
                        None => {
                            i = nl + 1;
                        },
                    }
                },
                None => {
                    assert(span_view(out@) + Seq::<(int, int)>::empty() =~= span_view(out@));
                    break;
                },
            }
        } else {
            i = i + 1;
        }
    }
    assert(span_view(out@) + Seq::<(int, int)>::empty() =~= span_view(out@));
    out
}

/// Every span begins with "/*", ends with "*/", holds no earlier "*/", and lies
/// within the source: a span is one whole block comment.
pub proof fn law_spans_are_block_comments(b: Seq<u8>, i: int)
    requires
        0 <= i <= b.len(),
    ensures
        forall|k: int|
            #![trigger spans(b, i)[k]]
            0 <= k < spans(b, i).len() ==> {
                let (s, e) = spans(b, i)[k];
                &&& i <= s
                &&& s + 4 <= e <= b.len()
                &&& stands_at_opener(b, s)
                &&& text::find_from(b, closer(), s + 2) == Some(e - 2)
            },
    decreases b.len() - i,
{
    if i < b.len() {
        lemma_step_advances(b, i);
        match step(b, i) {
            Step::Claim(end) => {
                law_spans_are_block_comments(b, end);
                text::lemma_find_from(b, closer(), i + 2);
                let rest = spans(b, end);
                assert forall|k: int|
                    #![trigger spans(b, i)[k]]
                    0 <= k < spans(b, i).len() implies {
                    let (s, e) = spans(b, i)[k];
                    &&& i <= s
                    &&& s + 4 <= e <= b.len()
                    &&& stands_at_opener(b, s)
                    &&& text::find_from(b, closer(), s + 2) == Some(e - 2)
                } by {
                    if k > 0 {
                        assert(spans(b, i)[k] == rest[k - 1]);
                    }
                }
            },
            Step::Skip(next) => {
                law_spans_are_block_comments(b, next);
            },
            Step::Stop => {},
        }
    }
}

/// Whether "/*" stands at a byte.
pub open spec fn stands_at_opener(b: Seq<u8>, i: int) -> bool {
    text::stands_at(b, opener(), i)
}

/// Spans come in source order and never overlap.
pub proof fn law_spans_in_order(b: Seq<u8>, i: int)
    requires
        0 <= i <= b.len(),
    ensures
        forall|k: int, l: int|
            #![trigger spans(b, i)[k], spans(b, i)[l]]
            0 <= k < l < spans(b, i).len() ==> spans(b, i)[k].1 <= spans(b, i)[l].0,
    decreases b.len() - i,
{
    if i < b.len() {
        lemma_step_advances(b, i);
        match step(b, i) {
            Step::Claim(end) => {
                law_spans_in_order(b, end);
                law_spans_are_block_comments(b, end);
                let rest = spans(b, end);
                assert forall|k: int, l: int|
                    #![trigger spans(b, i)[k], spans(b, i)[l]]
                    0 <= k < l < spans(b, i).len() implies spans(b, i)[k].1 <= spans(
                    b,
                    i,
                )[l].0 by {
                    assert(spans(b, i)[l] == rest[l - 1]);
                    if k > 0 {
                        assert(spans(b, i)[k] == rest[k - 1]);
                    }
                }
            },
            Step::Skip(next) => {
                law_spans_in_order(b, next);
                assert(spans(b, i) == spans(b, next));
            },
            Step::Stop => {},
        }
    }
}

/// A source that never closes a block comment has none to claim.
pub proof fn law_unterminated_claims_nothing(b: Seq<u8>, i: int)
    requires
        0 <= i <= b.len(),
        !text::has(b.skip(i), closer()),
    ensures
        spans(b, i) == Seq::<(int, int)>::empty(),
{
    law_spans_are_block_comments(b, i);
    if spans(b, i).len() > 0 {
        let (s, e) = spans(b, i)[0];
        text::lemma_find_from(b, closer(), s + 2);
        assert(b.skip(i).subrange(e - 2 - i, e - i) =~= b.subrange(e - 2, e));
        assert(text::stands_at(b.skip(i), closer(), e - 2 - i));
    }
    assert(spans(b, i) =~= Seq::<(int, int)>::empty());
}

/// Where the scan meets a line comment of some target, it claims nothing on the
/// rest of that line.
pub proof fn law_line_comment_hides_its_line(b: Seq<u8>, i: int, k: int)
    requires
        0 <= i < b.len(),
        line_comment_at(b, i),
        0 <= k < spans(b, i).len(),
    ensures
        exists|nl: int| i <= nl < spans(b, i)[k].0 && b[nl] == 0x0a,
{
    lemma_step_advances(b, i);
    text::lemma_pair_at(b, 0x2fu8, 0x2au8, i);
    text::lemma_find_from(b, seq![0x0au8], i);
    let nl = text::find_from(b, seq![0x0au8], i).unwrap();
    text::lemma_one_at(b, 0x0au8, nl);
    match step(b, i) {
        Step::Skip(next) => {
            law_spans_are_block_comments(b, next);
            assert(spans(b, i)[k] == spans(b, next)[k]);
            assert(nl + 1 <= next);
        },
        _ => {},
    }
    assert(b[nl] == 0x0a);
}

/// From anywhere inside a block comment, the first "*/" is that comment's own
/// closer: a "/*" in its prose cannot make a claim reach past it.
pub proof fn law_inner_opener_shares_the_closer(b: Seq<u8>, open: int, close: int, i: int)
    requires
        0 <= open,
        text::find_from(b, closer(), open + 2) == Some(close),
        open + 2 <= i <= close,
    ensures
        text::find_from(b, closer(), i) == Some(close),
{
    text::lemma_find_from(b, closer(), open + 2);
    text::lemma_find_from_is(b, closer(), i, close);
}

/// The spans of a source can be sliced out of it: both ends of each are
/// character boundaries, whatever characters stand around them.
pub proof fn law_spans_on_char_boundaries(source: Seq<char>, k: int)
    requires
        0 <= k < spans(encode_utf8(source), 0).len(),
    ensures
        is_char_boundary(encode_utf8(source), spans(encode_utf8(source), 0)[k].0),
        is_char_boundary(encode_utf8(source), spans(encode_utf8(source), 0)[k].1),
{
    let b = encode_utf8(source);
    encode_utf8_valid_utf8(source);
    law_spans_are_block_comments(b, 0);
    let (s, e) = spans(b, 0)[k];
    text::lemma_pair_at(b, 0x2fu8, 0x2au8, s);
    text::lemma_find_from(b, closer(), s + 2);
    text::lemma_pair_at(b, 0x2au8, 0x2fu8, e - 2);
    is_char_boundary_iff_not_is_continuation_byte(b, s);
    is_char_boundary_iff_not_is_continuation_byte(b, e - 1);
    offsets::lemma_boundary_after_ascii(b, e - 1);
}

/// Comments that stand at the spans of a source, and hold what stands there, are
/// comments as an extractor hands them on: the rules of editing hold of them.
pub proof fn law_spans_make_comments(comments: Seq<Comment>, source: Seq<char>)
    requires
        comments.len() == spans(encode_utf8(source), 0).len(),
        forall|k: int|
            0 <= k < comments.len() ==> {
                let c = #[trigger] comments[k];
                &&& (c.start_byte as int, c.end_byte as int) == spans(encode_utf8(source), 0)[k]
                &&& c.text@ == offsets::slice(source, c.start_byte as int, c.end_byte as int)
            },
    ensures
        parse::extracted(comments, source),
{
    let b = encode_utf8(source);
    let found = spans(b, 0);
    law_spans_are_block_comments(b, 0);
    law_spans_in_order(b, 0);
    assert forall|k: int| 0 <= k < comments.len() implies {
        let c = #[trigger] comments[k];
        &&& offsets::sliceable(b, c.start_byte as int, c.end_byte as int)
        &&& c.start_byte < c.end_byte
        &&& c.text@ == offsets::slice(source, c.start_byte as int, c.end_byte as int)
    } by {
        law_spans_on_char_boundaries(source, k);
        assert(found[k] == (comments[k].start_byte as int, comments[k].end_byte as int));
    }
    assert forall|k: int, l: int|
        #![trigger comments[k], comments[l]]
        0 <= k < l < comments.len() implies comments[k].end_byte <= comments[l].start_byte by {
        assert(found[k].1 <= found[l].0);
    }
}

/// Where the line of a byte begins.
pub open spec fn line_start(b: Seq<u8>, i: int) -> int
    decreases i,
{
    if i <= 0 {
        0
    } else if b[i - 1] == 0x0a {
        i
    } else {
        line_start(b, i - 1)
    }
}

proof fn lemma_line_start(b: Seq<u8>, i: int)
    requires
        valid_utf8(b),
        0 <= i <= b.len(),
    ensures
        0 <= line_start(b, i) <= i,
        is_char_boundary(b, line_start(b, i)),
    decreases i,
{
    if i > 0 && b[i - 1] == 0x0a {
        is_char_boundary_iff_is_leading_byte(b, i - 1);
        offsets::lemma_boundary_after_ascii(b, i - 1);
    } else if i > 0 {
        lemma_line_start(b, i - 1);
    } else {
        is_char_boundary_start_end_of_seq(b);
    }
}

/// What precedes a byte on its line.
pub open spec fn before_on_line(source: Seq<char>, i: int) -> Seq<char> {
    offsets::slice(source, line_start(encode_utf8(source), i), i)
}

/// Whether a comment is the one at a span: it holds what stands there, trails
/// where anything but white space precedes it on its line, is indented like that
/// line, and goes with the line ending that follows it.
pub open spec fn comment_at(c: Comment, source: Seq<char>, start: int, end: int) -> bool {
    let before = before_on_line(source, start);
    &&& c.start_byte == start
    &&& c.end_byte == end
    &&& c.text@ == offsets::slice(source, start, end)
    &&& c.is_trailing == !text::is_blank(before)
    &&& !c.force_passthrough
    &&& c.at_file_start == (start == 0)
    &&& c.line_indent_bytes@ == before.take(text::run_len(before, Class::Blank) as int)
    &&& c.fallback_ending@ == if text::stands_at(encode_utf8(source), seq![0x0du8, 0x0au8], end) {
        "\r\n"@
    } else {
        "\n"@
    }
    &&& c.relocate_before is None
    &&& c.param_shift is None
}

/// Finds where the line of a byte begins.
fn find_line_start(b: &[u8], i: usize) -> (r: usize)
    requires
        i <= b@.len(),
    ensures
        r == line_start(b@, i as int),
{
    let mut j: usize = i;
    while j > 0 && b[j - 1] != 0x0a
        invariant
            j <= i <= b@.len(),
            line_start(b@, i as int) == line_start(b@, j as int),
        decreases j,
    {
        j = j - 1;
    }
    j
}

/// Takes down the comment at a span.
fn take_comment(source: &str, start: usize, end: usize) -> (c: Comment)
    requires
        offsets::sliceable(encode_utf8(source@), start as int, end as int),
    ensures
        comment_at(c, source@, start as int, end as int),
{
    let b = source.as_bytes();
    proof {
        encode_utf8_valid_utf8(source@);
        lemma_line_start(b@, start as int);
        text::lemma_pair_at(b@, 0x0du8, 0x0au8, end as int);
    }
    let from: usize = find_line_start(b, start);
    let before = text::chars_of(offsets::slice_str(source, from, start));
    let before = before.as_slice();
    let indent: usize = text::count_run(before, Class::Blank);
    let own = text::chars_of(offsets::slice_str(source, start, end));
    let mut ending: String = String::new();
    if b.len() - end > 1 && b[end] == 0x0d && b[end + 1] == 0x0a {
        ending.push_str("\r\n");
        assert(ending@ =~= "\r\n"@);
    } else {
        ending.push_str("\n");
        assert(ending@ =~= "\n"@);
    }
    Comment {
        start_byte: start,
        end_byte: end,
        text: text::string_of(own.as_slice()),
        is_trailing: !text::blank(before),
        force_passthrough: false,
        at_file_start: start == 0,
        line_indent_bytes: text::string_of(slice_subrange(before, 0, indent)),
        fallback_ending: ending,
        relocate_before: None,
        param_shift: None,
    }
}

/// The comments of a source, one for each span.
pub fn comments(source: &str) -> (out: Vec<Comment>)
    ensures
        parse::extracted(out@, source@),
        out@.len() == spans(encode_utf8(source@), 0).len(),
        forall|k: int|
            0 <= k < out@.len() ==> comment_at(
                #[trigger] out@[k],
                source@,
                spans(encode_utf8(source@), 0)[k].0,
                spans(encode_utf8(source@), 0)[k].1,
            ),
{
    let found = scan(source);
    let ghost all = spans(encode_utf8(source@), 0);
    let mut out: Vec<Comment> = Vec::new();
    let mut k: usize = 0;
    proof {
        law_spans_are_block_comments(encode_utf8(source@), 0);
        assert(found@.len() == span_view(found@).len());
    }
    while k < found.len()
        invariant
            k <= found@.len(),
            all == spans(encode_utf8(source@), 0),
            span_view(found@) == all,
            found@.len() == all.len(),
            out@.len() == k,
            forall|j: int|
                #![trigger all[j]]
                0 <= j < all.len() ==> 0 <= all[j].0 <= all[j].1 <= encode_utf8(source@).len(),
            forall|j: int|
                0 <= j < k ==> comment_at(#[trigger] out@[j], source@, all[j].0, all[j].1),
        decreases found@.len() - k,
    {
        proof {
            law_spans_on_char_boundaries(source@, k as int);
            assert(span_view(found@)[k as int] == all[k as int]);
        }
        out.push(take_comment(source, found[k].0, found[k].1));
        k = k + 1;
    }
    proof {
        assert forall|j: int| 0 <= j < out@.len() implies {
            let c = #[trigger] out@[j];
            &&& (c.start_byte as int, c.end_byte as int) == spans(encode_utf8(source@), 0)[j]
            &&& c.text@ == offsets::slice(source@, c.start_byte as int, c.end_byte as int)
        } by {
            assert(comment_at(out@[j], source@, all[j].0, all[j].1));
        }
        law_spans_make_comments(out@, source@);
    }
    out
}

} // verus!
