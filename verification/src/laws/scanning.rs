//! Laws of the assembly scanner, on bytes. The scanner stands at a byte outside
//! any comment, string or character constant; each law says where it goes from
//! there and what it finds.

use vstd::prelude::*;

use crate::assembly;
use crate::text;

verus! {

/// Whether a byte means nothing to the scanner: no quote, no character that a
/// line comment of some target begins with, and no slash that a slash or a star
/// follows.
pub open spec fn is_dull(b: Seq<u8>, i: int) -> bool {
    &&& b[i] != 0x22 && b[i] != 0x27
    &&& b[i] != 0x23 && b[i] != 0x40 && b[i] != 0x3b && b[i] != 0x21
    &&& !(b[i] == 0x2f && i + 1 < b.len() && (b[i + 1] == 0x2f || b[i + 1] == 0x2a))
}

/// What means nothing to the scanner is passed over, byte by byte, up to the end.
pub proof fn law_dull_bytes_are_passed_over(b: Seq<u8>, p: int, i: int)
    requires
        0 <= p <= i <= b.len(),
        forall|k: int| p <= k < i ==> #[trigger] is_dull(b, k),
    ensures
        assembly::spans(b, p) == assembly::spans(b, i),
        i == b.len() ==> assembly::spans(b, p) == Seq::<(int, int)>::empty(),
    decreases i - p,
{
    if p < i {
        assert(is_dull(b, p));
        text::lemma_pair_at(b, 0x2fu8, 0x2au8, p);
        law_dull_bytes_are_passed_over(b, p + 1, i);
    }
}

/// A block comment is found: where nothing that hides it stands in front of it,
/// its opener begins a span, which ends with the first closer behind it.
pub proof fn law_block_comment_is_found(b: Seq<u8>, p: int, i: int, e: int)
    requires
        0 <= p <= i,
        i + 2 <= e && e + 1 < b.len(),
        forall|k: int| p <= k < i ==> #[trigger] is_dull(b, k),
        b[i] == 0x2f && b[i + 1] == 0x2a,
        b[e] == 0x2a && b[e + 1] == 0x2f,
        forall|k: int| i + 2 <= k < e ==> !(#[trigger] b[k] == 0x2a && b[k + 1] == 0x2f),
    ensures
        assembly::spans(b, p) == seq![(i, e + 2)] + assembly::spans(b, e + 2),
{
    law_dull_bytes_are_passed_over(b, p, i);
    text::lemma_pair_at(b, 0x2fu8, 0x2au8, i);
    assert forall|k: int| i + 2 <= k < e implies !#[trigger] text::stands_at(
        b,
        assembly::closer(),
        k,
    ) by {
        text::lemma_pair_at(b, 0x2au8, 0x2fu8, k);
    }
    text::lemma_pair_at(b, 0x2au8, 0x2fu8, e);
    text::lemma_find_from_is(b, assembly::closer(), i + 2, e);
    assembly::lemma_step_advances(b, i);
}

/// Whether the scan of a source comes to a place outside every comment, string and
/// character constant, so that what it finds from there on is part of the result.
pub open spec fn comes_to(b: Seq<u8>, p: int) -> bool {
    exists|found: Seq<(int, int)>|
        assembly::spans(b, 0) == #[trigger] (found + assembly::spans(b, p))
}

/// Every block comment is in the result: one that is closed, on a line that the
/// scan comes to, with nothing in front of it that hides it. The scan then comes
/// to what follows the comment.
pub proof fn law_no_block_comment_is_missed(b: Seq<u8>, p: int, i: int, e: int)
    requires
        comes_to(b, p),
        0 <= p <= i,
        i + 2 <= e && e + 1 < b.len(),
        forall|k: int| p <= k < i ==> #[trigger] is_dull(b, k),
        b[i] == 0x2f && b[i + 1] == 0x2a,
        b[e] == 0x2a && b[e + 1] == 0x2f,
        forall|k: int| i + 2 <= k < e ==> !(#[trigger] b[k] == 0x2a && b[k + 1] == 0x2f),
    ensures
        assembly::spans(b, 0).contains((i, e + 2)),
        comes_to(b, e + 2),
        comes_to(b, i),
{
    law_block_comment_is_found(b, p, i, e);
    law_dull_bytes_are_passed_over(b, p, i);
    let found = choose|found: Seq<(int, int)>|
        assembly::spans(b, 0) == #[trigger] (found + assembly::spans(b, p));
    let all = assembly::spans(b, 0);
    assert(all[found.len() as int] == (i, e + 2));
    assert(all =~= found.push((i, e + 2)) + assembly::spans(b, e + 2));
}

/// The scan comes to the beginning of a source, and to whatever place has the
/// comments of one that it comes to.
pub proof fn law_the_scan_goes_on(b: Seq<u8>, p: int, q: int)
    ensures
        comes_to(b, 0),
        comes_to(b, p) && assembly::spans(b, p) == assembly::spans(b, q) ==> comes_to(b, q),
{
    let nothing = Seq::<(int, int)>::empty();
    assert(assembly::spans(b, 0) =~= nothing + assembly::spans(b, 0));
}

/// A comment that nothing closes ends the scan.
pub proof fn law_unclosed_comment_ends_the_scan(b: Seq<u8>, i: int)
    requires
        0 <= i && i + 1 < b.len(),
        b[i] == 0x2f && b[i + 1] == 0x2a,
        forall|k: int| i + 2 <= k && k + 1 < b.len() ==> !(#[trigger] b[k] == 0x2a && b[k + 1] == 0x2f),
    ensures
        assembly::spans(b, i) == Seq::<(int, int)>::empty(),
{
    text::lemma_pair_at(b, 0x2fu8, 0x2au8, i);
    text::lemma_find_from(b, assembly::closer(), i + 2);
    if let Some(j) = text::find_from(b, assembly::closer(), i + 2) {
        text::lemma_pair_at(b, 0x2au8, 0x2fu8, j);
    }
}

/// Whether a byte means nothing inside a string literal.
pub open spec fn is_dull_in_string(b: Seq<u8>, i: int) -> bool {
    b[i] != 0x22 && b[i] != 0x5c && b[i] != 0x0a
}

/// A string literal hides what stands in it: the scan resumes past its closing
/// quote, or at the end of its line, or there is nothing left.
pub proof fn law_string_is_skipped(b: Seq<u8>, i: int, q: int)
    requires
        0 <= i < q <= b.len(),
        b[i] == 0x22,
        forall|k: int| i < k < q ==> #[trigger] is_dull_in_string(b, k),
    ensures
        q < b.len() && b[q] == 0x22 ==> assembly::spans(b, i) == assembly::spans(b, q + 1),
        q < b.len() && b[q] == 0x0a ==> assembly::spans(b, i) == assembly::spans(b, q),
        q == b.len() ==> assembly::spans(b, i) == Seq::<(int, int)>::empty(),
{
    text::lemma_pair_at(b, 0x2fu8, 0x2au8, i);
    lemma_string_passes(b, i + 1, q);
    assembly::lemma_step_advances(b, i);
    assert(assembly::step(b, i) == assembly::Step::Skip(assembly::string_end(b, i + 1)));
    assert(assembly::spans(b, i) == assembly::spans(b, assembly::string_end(b, i + 1)));
}

proof fn lemma_string_passes(b: Seq<u8>, p: int, q: int)
    requires
        0 < p <= q <= b.len(),
        forall|k: int| p <= k < q ==> #[trigger] is_dull_in_string(b, k),
    ensures
        assembly::string_end(b, p) == assembly::string_end(b, q),
    decreases q - p,
{
    if p < q {
        assert(is_dull_in_string(b, p));
        lemma_string_passes(b, p + 1, q);
    }
}

/// In a string a backslash takes the next byte with it, whatever it is, but not a
/// newline.
pub proof fn law_backslash_in_a_string(b: Seq<u8>, i: int, q: int)
    requires
        0 <= i < q < b.len(),
        b[i] == 0x22,
        forall|k: int| i < k < q ==> #[trigger] is_dull_in_string(b, k),
        b[q] == 0x5c,
    ensures
        q + 1 < b.len() && b[q + 1] == 0x0a ==> assembly::spans(b, i) == assembly::spans(b, q),
        q + 1 >= b.len() ==> assembly::spans(b, i) == Seq::<(int, int)>::empty(),
        q + 1 < b.len() && b[q + 1] != 0x0a ==> assembly::spans(b, i) == assembly::spans(
            b,
            assembly::string_end(b, q + 2),
        ),
        assembly::string_end(b, i + 1) == assembly::string_end(b, q),
{
    text::lemma_pair_at(b, 0x2fu8, 0x2au8, i);
    lemma_string_passes(b, i + 1, q);
    assembly::lemma_step_advances(b, i);
    assert(assembly::step(b, i) == assembly::Step::Skip(assembly::string_end(b, i + 1)));
    assert(assembly::spans(b, i) == assembly::spans(b, assembly::string_end(b, i + 1)));
    if q + 1 >= b.len() {
        assert(assembly::string_end(b, q) == assembly::string_end(b, q + 2));
        assert(assembly::string_end(b, q + 2) == b.len());
        assert(assembly::spans(b, b.len() as int) == Seq::<(int, int)>::empty());
    }
}

/// Where a string lets go, from any byte of it.
pub proof fn law_string_lets_go(b: Seq<u8>, i: int)
    requires
        0 <= i < b.len(),
    ensures
        b[i] == 0x22 ==> assembly::string_end(b, i) == i + 1,
        b[i] == 0x0a ==> assembly::string_end(b, i) == i,
        b[i] == 0x5c && i + 1 < b.len() && b[i + 1] == 0x0a ==> assembly::string_end(b, i) == i,
        b[i] == 0x5c && i + 1 < b.len() && b[i + 1] != 0x0a ==> assembly::string_end(b, i)
            == assembly::string_end(b, i + 2),
        is_dull_in_string(b, i) ==> assembly::string_end(b, i) == assembly::string_end(b, i + 1),
        assembly::string_end(b, b.len() as int) == b.len(),
{
}

/// A character constant takes the byte behind its quote with it, and one more
/// where that is a backslash.
pub proof fn law_char_constant_is_skipped(b: Seq<u8>, i: int)
    requires
        0 <= i < b.len(),
        b[i] == 0x27,
    ensures
        i + 1 < b.len() && b[i + 1] != 0x5c ==> assembly::spans(b, i) == assembly::spans(b, i + 2),
        i + 2 < b.len() && b[i + 1] == 0x5c ==> assembly::spans(b, i) == assembly::spans(b, i + 3),
        i + 1 >= b.len() || (i + 2 >= b.len() && b[i + 1] == 0x5c) ==> assembly::spans(b, i)
            == Seq::<(int, int)>::empty(),
{
    text::lemma_pair_at(b, 0x2fu8, 0x2au8, i);
    assembly::lemma_step_advances(b, i);
    assert(assembly::spans(b, b.len() as int) == Seq::<(int, int)>::empty());
}

/// Whether a line comment of some target begins at a byte.
pub open spec fn hides_its_line(b: Seq<u8>, i: int) -> bool {
    ||| b[i] == 0x23
    ||| b[i] == 0x40
    ||| b[i] == 0x3b
    ||| b[i] == 0x21
    ||| b[i] == 0x2f && i + 1 < b.len() && b[i + 1] == 0x2f
}

/// A line comment of some target hides the rest of its line: the scan resumes on
/// the next one, or past the comment that the line leaves open.
pub proof fn law_line_comment_is_skipped(b: Seq<u8>, i: int, nl: int)
    requires
        0 <= i <= nl <= b.len(),
        i < b.len(),
        hides_its_line(b, i),
        forall|k: int| i <= k < nl ==> #[trigger] b[k] != 0x0a,
        nl < b.len() ==> b[nl] == 0x0a,
    ensures
        nl == b.len() ==> assembly::spans(b, i) == Seq::<(int, int)>::empty(),
        nl < b.len() && (forall|k: int|
            i <= k < nl ==> !(#[trigger] b[k] == 0x2f && b[k + 1] == 0x2a)) ==> assembly::spans(b, i)
            == assembly::spans(b, nl + 1),
{
    text::lemma_pair_at(b, 0x2fu8, 0x2au8, i);
    assembly::lemma_step_advances(b, i);
    text::lemma_find_from(b, seq![0x0au8], i);
    if nl < b.len() {
        lemma_newline_found(b, i, nl);
        if forall|k: int| i <= k < nl ==> !(#[trigger] b[k] == 0x2f && b[k + 1] == 0x2a) {
            assert forall|k: int| i <= k < nl implies !#[trigger] text::stands_at(
                b,
                assembly::opener(),
                k,
            ) by {
                text::lemma_pair_at(b, 0x2fu8, 0x2au8, k);
            }
            lemma_no_opener(b, i, nl);
        }
    } else {
        if let Some(j) = text::find_from(b, seq![0x0au8], i) {
            text::lemma_one_at(b, 0x0au8, j);
        }
    }
}

proof fn lemma_newline_found(b: Seq<u8>, i: int, nl: int)
    requires
        0 <= i <= nl < b.len(),
        forall|k: int| i <= k < nl ==> #[trigger] b[k] != 0x0a,
        b[nl] == 0x0a,
    ensures
        text::find_from(b, seq![0x0au8], i) == Some(nl),
{
    assert forall|k: int| i <= k < nl implies !#[trigger] text::stands_at(b, seq![0x0au8], k) by {
        text::lemma_one_at(b, 0x0au8, k);
        assert(b[k] != 0x0a);
    }
    text::lemma_one_at(b, 0x0au8, nl);
    text::lemma_find_from_is(b, seq![0x0au8], i, nl);
}

proof fn lemma_no_opener(b: Seq<u8>, lo: int, hi: int)
    requires
        forall|k: int| lo <= k < hi ==> !#[trigger] text::stands_at(b, assembly::opener(), k),
    ensures
        text::rfind_in(b, assembly::opener(), lo, hi) is None,
    decreases hi - lo,
{
    if lo < hi {
        assert(!text::stands_at(b, assembly::opener(), hi - 1));
        lemma_no_opener(b, lo, hi - 1);
    }
}

proof fn lemma_last_opener(b: Seq<u8>, lo: int, hi: int, open: int)
    requires
        lo <= open < hi,
        text::stands_at(b, assembly::opener(), open),
        forall|k: int| open < k < hi ==> !#[trigger] text::stands_at(b, assembly::opener(), k),
    ensures
        text::rfind_in(b, assembly::opener(), lo, hi) == Some(open),
    decreases hi - lo,
{
    if open < hi - 1 {
        assert(!text::stands_at(b, assembly::opener(), hi - 1));
        lemma_last_opener(b, lo, hi - 1, open);
    }
}

/// Where a hidden line holds comment openers, the last of them counts: the scan
/// resumes past its closer where that stands further down, and on the next line
/// otherwise.
pub proof fn law_hidden_comment_is_consumed_whole(b: Seq<u8>, i: int, nl: int, open: int, e: int)
    requires
        0 <= i <= open < nl < b.len(),
        hides_its_line(b, i),
        forall|k: int| i <= k < nl ==> #[trigger] b[k] != 0x0a,
        b[nl] == 0x0a,
        b[open] == 0x2f && b[open + 1] == 0x2a,
        forall|k: int| open < k < nl ==> !(#[trigger] b[k] == 0x2f && b[k + 1] == 0x2a),
        open + 2 <= e && e + 1 < b.len(),
        b[e] == 0x2a && b[e + 1] == 0x2f,
        forall|k: int| open + 2 <= k < e ==> !(#[trigger] b[k] == 0x2a && b[k + 1] == 0x2f),
        !(b[i] == 0x2f && b[i + 1] == 0x2a),
    ensures
        e < nl ==> assembly::spans(b, i) == assembly::spans(b, nl + 1),
        e > nl ==> assembly::spans(b, i) == assembly::spans(b, e + 2),
{
    text::lemma_pair_at(b, 0x2fu8, 0x2au8, i);
    assembly::lemma_step_advances(b, i);
    lemma_newline_found(b, i, nl);
    text::lemma_pair_at(b, 0x2fu8, 0x2au8, open);
    assert forall|k: int| open < k < nl implies !#[trigger] text::stands_at(
        b,
        assembly::opener(),
        k,
    ) by {
        text::lemma_pair_at(b, 0x2fu8, 0x2au8, k);
    }
    lemma_last_opener(b, i, nl, open);
    assert forall|k: int| open + 2 <= k < e implies !#[trigger] text::stands_at(
        b,
        assembly::closer(),
        k,
    ) by {
        text::lemma_pair_at(b, 0x2au8, 0x2fu8, k);
    }
    text::lemma_pair_at(b, 0x2au8, 0x2fu8, e);
    text::lemma_find_from_is(b, assembly::closer(), open + 2, e);
    if e < nl {
        assert(b[e + 1] != 0x0a);
        assert(e + 1 < nl);
    }
}

/// Exactly "#", "@", ";", "!" and "//" open a line comment of some target, at a
/// byte and, behind white space, on a line.
pub proof fn law_line_comment_openers(b: Seq<u8>, i: int, line: Seq<char>)
    requires
        0 <= i < b.len(),
    ensures
        assembly::line_comment_at(b, i) <==> hides_its_line(b, i),
        assembly::line_comment_line(line) <==> exists|k: int|
            #![trigger line[k]]
            0 <= k < line.len() && (forall|j: int| 0 <= j < k ==> text::is_white(#[trigger] line[j]))
                && (line[k] == '#' || line[k] == '@' || line[k] == ';' || line[k] == '!' || (line[k]
                == '/' && k + 1 < line.len() && line[k + 1] == '/')),
{
    super::characters::law_trimming(line);
    let t = text::trim_start(line);
    let n = line.len() - t.len();
    reveal_strlit("//");
    assert("//"@ =~= seq!['/', '/']);
    text::lemma_pair_at(t, '/', '/', 0);
    if assembly::line_comment_line(line) {
        assert(line[n] == t[0]);
        if t.len() > 1 {
            assert(line[n + 1] == t[1]);
        }
    }
    if exists|k: int|
        #![trigger line[k]]
        0 <= k < line.len() && (forall|j: int| 0 <= j < k ==> text::is_white(#[trigger] line[j])) && (
        line[k] == '#' || line[k] == '@' || line[k] == ';' || line[k] == '!' || (line[k] == '/' && k
            + 1 < line.len() && line[k + 1] == '/')) {
        let k = choose|k: int|
            #![trigger line[k]]
            0 <= k < line.len() && (forall|j: int| 0 <= j < k ==> text::is_white(#[trigger] line[j]))
                && (line[k] == '#' || line[k] == '@' || line[k] == ';' || line[k] == '!' || (line[k]
                == '/' && k + 1 < line.len() && line[k + 1] == '/'));
        assert(!text::is_white(line[k]));
        if k < n {
            assert(text::is_white(line[k]));
        }
        if n < k {
            assert(text::is_white(line[n]));
            assert(t[0] == line[n]);
        }
        assert(t[0] == line[k]);
        if k + 1 < line.len() {
            assert(t[1] == line[k + 1]);
        }
    }
}

/// A line begins behind the last newline, or at the start of the text.
pub proof fn law_line_start(b: Seq<u8>, i: int)
    requires
        0 <= i <= b.len(),
    ensures
        0 <= assembly::line_start(b, i) <= i,
        assembly::line_start(b, i) > 0 ==> b[assembly::line_start(b, i) - 1] == 0x0a,
        forall|k: int| assembly::line_start(b, i) <= k < i ==> #[trigger] b[k] != 0x0a,
    decreases i,
{
    if i > 0 && b[i - 1] != 0x0a {
        law_line_start(b, i - 1);
    }
}

} // verus!
