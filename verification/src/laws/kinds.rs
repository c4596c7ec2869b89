//! Laws of the kinds of lines.

use vstd::prelude::*;

use super::characters::{begins_at, run_ends, trimmed_to};
use crate::classify::DocFlavor;
use crate::laws::characters;
use crate::laws::lines;
use crate::linekind;
use crate::linekind::{LineKind, Mark, Page, TagShape};
use crate::text;
use crate::text::Class;
use crate::textline;

verus! {

broadcast use vstd::string::group_string_axioms;

proof fn lemma_prefix(body: Seq<char>, k: int, p: Seq<char>)
    requires
        begins_at(body, k),
    ensures
        text::starts_with(text::trim_start(body), p) <==> text::stands_at(body, p, k),
{
    characters::law_runs(body, 0, k, Class::White);
    lemma_prefix_at(body, k, p);
}

proof fn lemma_prefix_at(body: Seq<char>, k: int, p: Seq<char>)
    requires
        0 <= k <= body.len(),
    ensures
        text::starts_with(body.skip(k), p) <==> text::stands_at(body, p, k),
{
    let t = body.skip(k);
    if k + p.len() <= body.len() {
        assert(t.subrange(0, p.len() as int) =~= body.subrange(k, k + p.len()));
    }
}

/// Whether some text stands from a character on.
pub open spec fn text_from(body: Seq<char>, k: int) -> bool {
    exists|j: int| k <= j < body.len() && !text::is_white(#[trigger] body[j])
}

proof fn lemma_text_from(body: Seq<char>, k: int)
    requires
        0 <= k <= body.len(),
    ensures
        text_from(body, k) <==> !text::is_blank(body.skip(k)),
{
    let rest = body.skip(k);
    assert forall|j: int| 0 <= j < rest.len() implies #[trigger] rest[j] == body[k + j] by {}
    if text_from(body, k) {
        let j = choose|j: int| k <= j < body.len() && !text::is_white(#[trigger] body[j]);
        assert(!Class::White.holds(rest[j - k]));
    }
    if !text::is_blank(rest) {
        let j = choose|j: int| 0 <= j < rest.len() && !Class::White.holds(#[trigger] rest[j]);
        assert(!text::is_white(body[k + j]));
    }
}

proof fn lemma_keyed(body: Seq<char>, k: int, key: Seq<char>)
    requires
        begins_at(body, k),
    ensures
        linekind::keyed(text::trim_start(body), key) <==> text::stands_at(body, key, k)
            && text_from(body, k + key.len()),
{
    lemma_prefix(body, k, key);
    characters::law_runs(body, 0, k, Class::White);
    if text::stands_at(body, key, k) {
        lemma_text_from(body, k + key.len());
        assert(body.skip(k).skip(key.len() as int) =~= body.skip(k + key.len()));
    }
}

/// A copyright notice names a holder's sign or a year behind "Copyright". "m" is
/// the first character of that.
pub proof fn law_copyright(body: Seq<char>, k: int, m: int)
    requires
        begins_at(body, k),
        text::stands_at(body, "Copyright "@, k),
        run_ends(body, k + 10, m, Class::White),
    ensures
        text::stands_at(body, "(c)"@, m) || text::stands_at(body, "(C)"@, m) || (m < body.len()
            && body[m] == '©') || (m + 4 <= body.len() && forall|j: int|
            m <= j < m + 4 ==> '0' <= #[trigger] body[j] <= '9') <==> linekind::copyright_notice(
            text::trim_start(body),
        ),
{
    reveal_strlit("Copyright ");
    assert("Copyright "@.len() == 10);
    lemma_prefix(body, k, "Copyright "@);
    characters::law_runs(body, 0, k, Class::White);
    let t = body.skip(k);
    assert(t.skip(10) =~= body.skip(k + 10));
    characters::law_runs(body, k + 10, m, Class::White);
    let u = body.skip(k + 10);
    text::lemma_run_len(u, Class::White);
    let r = text::trim_start(u);
    assert(r =~= body.skip(m));
    lemma_prefix_at(body, m, "(c)"@);
    lemma_prefix_at(body, m, "(C)"@);
    if m < body.len() {
        assert(r[0] == body[m]);
    }
    text::lemma_run_len(r, Class::Digit);
    assert forall|j: int| 0 <= j < r.len() implies #[trigger] r[j] == body[m + j] by {}
    if text::run_len(r, Class::Digit) >= 4 {
        assert forall|j: int| m <= j < m + 4 implies '0' <= #[trigger] body[j] <= '9' by {
            assert(r[j - m] == body[j]);
            assert(Class::Digit.holds(r[j - m]));
        }
    }
    if m + 4 <= body.len() && forall|j: int| m <= j < m + 4 ==> '0' <= #[trigger] body[j] <= '9' {
        let n = text::run_len(r, Class::Digit) as int;
        if n < 4 {
            assert(r[n] == body[m + n]);
            assert(Class::Digit.holds(r[n]));
        }
    }
}

/// Metadata is a copyright notice, an SPDX line, a reservation of rights, or one
/// of four keys with a value.
pub proof fn law_metadata(body: Seq<char>, k: int)
    requires
        begins_at(body, k),
    ensures
        linekind::metadata_line(body) <==> {
            ||| linekind::copyright_notice(text::trim_start(body))
            ||| text::stands_at(body, "SPDX-"@, k) && exists|j: int|
                k <= j < body.len() && #[trigger] body[j] == ':'
            ||| text::stands_at(body, "All rights reserved"@, k)
            ||| text::stands_at(body, "Author:"@, k) && text_from(body, k + 7)
            ||| text::stands_at(body, "License:"@, k) && text_from(body, k + 8)
            ||| text::stands_at(body, "Version:"@, k) && text_from(body, k + 8)
            ||| text::stands_at(body, "Permission:"@, k) && text_from(body, k + 11)
        },
        linekind::copyright_notice(text::trim_start(body)) ==> text::stands_at(
            body,
            "Copyright "@,
            k,
        ),
{
    reveal_strlit("Author:");
    reveal_strlit("License:");
    reveal_strlit("Version:");
    reveal_strlit("Permission:");
    assert("Author:"@.len() == 7 && "License:"@.len() == 8 && "Version:"@.len() == 8
        && "Permission:"@.len() == 11);
    lemma_prefix(body, k, "Copyright "@);
    lemma_prefix(body, k, "SPDX-"@);
    lemma_prefix(body, k, "All rights reserved"@);
    lemma_keyed(body, k, "Author:"@);
    lemma_keyed(body, k, "License:"@);
    lemma_keyed(body, k, "Version:"@);
    lemma_keyed(body, k, "Permission:"@);
    characters::law_runs(body, 0, k, Class::White);
    let t = body.skip(k);
    assert forall|j: int| 0 <= j < t.len() implies #[trigger] t[j] == body[k + j] by {}
    if t.contains(':') {
        let j = choose|j: int| 0 <= j < t.len() && t[j] == ':';
        assert(body[k + j] == ':');
    }
    if exists|j: int| k <= j < body.len() && #[trigger] body[j] == ':' {
        let j = choose|j: int| k <= j < body.len() && #[trigger] body[j] == ':';
        assert(t[j - k] == ':');
    }
}

/// A label is a capitalised word of at most 32 letters, numbers, underscores and
/// hyphens, a colon and a value, on a line that fits. "c" is the first colon, and
/// "e" where the word in front of it ends.
pub proof fn law_labels(body: Seq<char>, budget: nat, k: int, c: int, e: int)
    requires
        begins_at(body, k),
        run_ends(body, k, c, Class::Not(':')),
        k <= e <= c,
        forall|j: int| e <= j < c ==> #[trigger] body[j] == ' ' || body[j] == '\t',
        e > k ==> body[e - 1] != ' ' && body[e - 1] != '\t',
    ensures
        linekind::label_line(body, budget) <==> {
            &&& c < body.len()
            &&& 1 <= e - k <= 32
            &&& text::is_uppercase(body[k])
            &&& forall|j: int|
                k <= j < e ==> text::is_alphanumeric(#[trigger] body[j]) || body[j] == '_'
                    || body[j] == '-'
            &&& text_from(body, c + 1)
            &&& textline::width(body, 8) <= budget
        },
{
    characters::law_runs(body, 0, k, Class::White);
    characters::law_runs(body, k, c, Class::Not(':'));
    let t = body.skip(k);
    let head = t.take(c - k);
    assert forall|j: int| 0 <= j < head.len() implies #[trigger] head[j] == body[k + j] by {}
    assert forall|j: int| e - k <= j < head.len() implies Class::Blank.holds(#[trigger] head[j]) by {
        assert(head[j] == body[k + j]);
    }
    text::lemma_tail_len_is(head, Class::Blank, c - e);
    let key = head.take(e - k);
    assert forall|j: int| 0 <= j < key.len() implies #[trigger] key[j] == body[k + j] by {}
    if e > k {
        assert(key[0] == body[k]);
    }
    if text::all_of(key, Class::Key) {
        assert forall|j: int| k <= j < e implies text::is_alphanumeric(#[trigger] body[j])
            || body[j] == '_' || body[j] == '-' by {
            assert(key[j - k] == body[j]);
            assert(Class::Key.holds(key[j - k]));
        }
    }
    if c < body.len() {
        lemma_text_from(body, c + 1);
        assert(t.skip(c - k + 1) =~= body.skip(c + 1));
    }
}

/// A banner of labels: where two or more label lines stand in a row, with a blank
/// line or nothing below them, each of them is a row of it. Where other text
/// follows, the last of them belongs to that text.
pub proof fn law_label_runs(bodies: Seq<Seq<char>>, budget: nat, p: int, q: int, i: int)
    requires
        0 <= p <= i <= q < bodies.len(),
        p < q,
        forall|j: int| p <= j <= q ==> linekind::label_line(#[trigger] bodies[j], budget),
    ensures
        q + 1 == bodies.len() || text::is_blank(bodies[q + 1]) ==> linekind::label_run(
            bodies,
            i,
            budget,
        ),
        i < q && p + 1 < q ==> linekind::label_run(bodies, i, budget),
        q + 1 < bodies.len() && !text::is_blank(bodies[q + 1]) && !linekind::label_line(
            bodies[q + 1],
            budget,
        ) ==> !linekind::label_run(bodies, q, budget),
{
    assert(linekind::label_line(bodies[i], budget));
    if i < q {
        assert(linekind::label_line(bodies[i + 1], budget));
    }
    if i + 1 < q {
        assert(linekind::label_line(bodies[i + 2], budget));
    }
    if i > p {
        assert(linekind::label_line(bodies[i - 1], budget));
    }
}

/// A label can be a row of a banner where nothing but a blank line or another label
/// follows it.
pub proof fn law_rows_end_their_line(bodies: Seq<Seq<char>>, budget: nat, i: int)
    requires
        0 <= i < bodies.len(),
    ensures
        linekind::eligible(bodies, i, budget) <==> linekind::label_line(bodies[i], budget) && (i + 1
            < bodies.len() ==> text::is_blank(bodies[i + 1]) || linekind::label_line(
            bodies[i + 1],
            budget,
        )),
{
}

/// A row of a banner of labels is a label with a label next to it.
pub proof fn law_label_rows_are_labels(bodies: Seq<Seq<char>>, budget: nat, i: int)
    requires
        linekind::label_run(bodies, i, budget),
    ensures
        0 <= i < bodies.len(),
        linekind::label_line(bodies[i], budget),
        (i > 0 && linekind::label_line(bodies[i - 1], budget)) || (i + 1 < bodies.len()
            && linekind::label_line(bodies[i + 1], budget)),
{
}

/// A line is a paragraph by itself when nothing but blank lines is next to it.
pub proof fn law_alone(bodies: Seq<Seq<char>>, i: int)
    requires
        0 <= i < bodies.len(),
    ensures
        linekind::alone(bodies, i) <==> forall|j: int|
            0 <= j < bodies.len() && (j == i - 1 || j == i + 1) ==> text::is_blank(
                #[trigger] bodies[j],
            ),
{
    if linekind::alone(bodies, i) {
    } else {
        if i > 0 && !text::is_blank(bodies[i - 1]) {
            assert(!text::is_blank(bodies[i - 1]));
        }
        if i + 1 < bodies.len() && !text::is_blank(bodies[i + 1]) {
            assert(!text::is_blank(bodies[i + 1]));
        }
    }
}

/// A title between two rules is part of the drawing that it touches.
pub proof fn law_titles_of_drawings(marks: Seq<Mark>, i: int)
    requires
        0 <= i < marks.len(),
    ensures
        linekind::art_adjacent(marks, i) <==> marks[i].bookend && exists|j: int|
            0 <= j < marks.len() && (j == i - 1 || j == i + 1) && (#[trigger] marks[j]).art_only,
{
    if linekind::art_adjacent(marks, i) {
        if i > 0 && marks[i - 1].art_only {
            assert(marks[i - 1].art_only);
        } else {
            assert(marks[i + 1].art_only);
        }
    }
}

/// A fence is closed by a run of its own mark that is at least as long, with
/// nothing else on the line.
pub proof fn law_fence_closers(
    body: Seq<char>,
    lo: int,
    hi: int,
    marker: char,
    run: usize,
)
    requires
        trimmed_to(body, lo, hi),
        marker == '`' || marker == '~',
        hi - lo <= usize::MAX,
    ensures
        linekind::closes_fence(body, linekind::mark_of(body), marker, run) <==> run <= hi - lo
            && forall|j: int| lo <= j < hi ==> #[trigger] body[j] == marker,
{
    characters::law_trimmed_text(body, lo, hi);
    let t = body.subrange(lo, hi);
    let u = body.skip(lo);
    assert forall|j: int| 0 <= j < t.len() implies #[trigger] t[j] == body[lo + j] by {}
    assert(t[0] == body[lo]);
    assert(u[0] == body[lo]);
    if forall|j: int| lo <= j < hi ==> #[trigger] body[j] == marker {
        assert forall|j: int| 0 <= j < hi - lo implies Class::Only(marker).holds(#[trigger] u[j]) by {
            assert(u[j] == body[lo + j]);
        }
        if hi < body.len() {
            assert(Class::White.holds(body[hi]));
            assert(u[hi - lo] == body[hi]);
        }
        text::lemma_run_len_is(u, Class::Only(marker), hi - lo);
    }
    if text::all_of(t, Class::Only(marker)) {
        assert forall|j: int| lo <= j < hi implies #[trigger] body[j] == marker by {
            assert(t[j - lo] == body[j]);
            assert(Class::Only(marker).holds(t[j - lo]));
        }
    }
}

/// The rules for a line outside any region, in the order in which they are tried.
pub open spec fn rule(page: Page, i: int, n: int) -> bool {
    let body = page.bodies[i];
    let mark = page.marks[i];
    ||| n == 0 && text::is_blank(body)
    ||| n == 1 && linekind::art_adjacent(page.marks, i)
    ||| n == 2 && mark.fence is Some && (mark.fence->0).1 >= 3
    ||| n == 3 && linekind::line_tag(body) == Some(TagShape::VerbatimOpen)
    ||| n == 4 && page.flavor == DocFlavor::Doxygen && linekind::opens_tag(body)
    ||| n == 5 && mark.kernel_doc
    ||| n == 6 && linekind::setext_rule(body) && i > 0 && page.kind_at(i - 1) == LineKind::Prose
    ||| n == 7 && linekind::atx_header(body)
    ||| n == 8 && linekind::metadata_line(body)
    ||| n == 9 && linekind::blockquote(body)
    ||| n == 10 && linekind::reference_link(body)
    ||| n == 11 && mark.table_row
    ||| n == 12 && mark.indented
    ||| n == 13 && linekind::label_run(page.bodies, i, page.budget)
    ||| n == 14 && linekind::alone(page.bodies, i) && mark.banner
    ||| n == 15 && mark.art
    ||| n == 16 && linekind::list_item(body)
    ||| n == 17
}

/// What each rule makes of its line.
pub open spec fn verdict(n: int) -> LineKind {
    let kinds = seq![
        LineKind::Blank,
        LineKind::Art,
        LineKind::FenceOpen,
        LineKind::DoxyVerbatimOpen,
        LineKind::DoxygenTag,
        LineKind::DoxygenTag,
        LineKind::SetextUnderline,
        LineKind::AtxHeader,
        LineKind::Metadata,
        LineKind::Blockquote,
        LineKind::ReferenceLink,
        LineKind::TableRow,
        LineKind::IndentedCode,
        LineKind::LabelRow,
        LineKind::Banner,
        LineKind::Art,
        LineKind::ListItem,
        LineKind::Prose,
    ];
    kinds[n]
}

/// Outside any region the first rule that applies decides.
pub proof fn law_first_rule_decides(page: Page, i: int, n: int)
    requires
        page.valid(),
        0 <= i < page.bodies.len(),
        page.region_at(i) is Text,
        0 <= n <= 17,
        rule(page, i, n),
        forall|m: int| 0 <= m < n ==> !#[trigger] rule(page, i, m),
    ensures
        page.kind_at(i) == verdict(n),
{
    assert(rule(page, i, 17));
    assert(n > 0 ==> !rule(page, i, 0));
    assert(n > 1 ==> !rule(page, i, 1));
    assert(n > 2 ==> !rule(page, i, 2));
    assert(n > 3 ==> !rule(page, i, 3));
    assert(n > 4 ==> !rule(page, i, 4));
    assert(n > 5 ==> !rule(page, i, 5));
    assert(n > 6 ==> !rule(page, i, 6));
    assert(n > 7 ==> !rule(page, i, 7));
    assert(n > 8 ==> !rule(page, i, 8));
    assert(n > 9 ==> !rule(page, i, 9));
    assert(n > 10 ==> !rule(page, i, 10));
    assert(n > 11 ==> !rule(page, i, 11));
    assert(n > 12 ==> !rule(page, i, 12));
    assert(n > 13 ==> !rule(page, i, 13));
    assert(n > 14 ==> !rule(page, i, 14));
    assert(n > 15 ==> !rule(page, i, 15));
    assert(n > 16 ==> !rule(page, i, 16));
    if i > 0 {
        assert(page.above(i).0 == Some(page.kind_at(i - 1)));
    }
}

/// A numbered line that no earlier rule claims is a list item, whichever digits
/// it has.
pub proof fn law_numbered_lines_are_list_items(
    page: Page,
    i: int,
    pad: Seq<char>,
    digits: Seq<char>,
    dot: char,
    gap: char,
    rest: Seq<char>,
)
    requires
        page.valid(),
        0 <= i < page.bodies.len(),
        page.region_at(i) is Text,
        page.bodies[i] == pad + digits + seq![dot, gap] + rest,
        forall|j: int| 0 <= j < pad.len() ==> text::is_white(#[trigger] pad[j]),
        digits.len() > 0,
        forall|j: int| 0 <= j < digits.len() ==> '0' <= #[trigger] digits[j] <= '9',
        dot == '.' || dot == ')',
        gap == ' ' || gap == '\t',
        forall|m: int| 0 <= m < 16 ==> !#[trigger] rule(page, i, m),
    ensures
        page.kind_at(i) == LineKind::ListItem,
{
    lines::law_numbered_items(pad, digits, dot, gap, rest);
    assert(rule(page, i, 16));
    law_first_rule_decides(page, i, 16);
}

/// What a line stands in follows from the line above it: a region goes on below
/// its opener and its content, and nowhere else.
pub proof fn law_regions(page: Page, i: int)
    requires
        page.valid(),
        0 <= i < page.bodies.len(),
    ensures
        i == 0 ==> page.region_at(i) is Text,
        i > 0 ==> {
            let above = page.kind_at(i - 1);
            let verbatim = above == LineKind::DoxyVerbatimOpen || above
                == LineKind::DoxyVerbatimContent;
            let fence = above == LineKind::FenceOpen || above == LineKind::FenceContent;
            &&& page.region_at(i) is Verbatim <==> verbatim
            &&& page.region_at(i) is Fence <==> fence
            &&& above == LineKind::FenceOpen ==> Some(
                (page.region_at(i)->marker, page.region_at(i)->run),
            ) == page.marks[i - 1].fence
            &&& above == LineKind::FenceContent ==> page.region_at(i) == page.region_at(i - 1)
        },
        page.region_at(i) is Verbatim ==> page.kind_at(i) == if linekind::closes_verbatim(
            page.bodies[i],
        ) {
            LineKind::DoxyVerbatimClose
        } else {
            LineKind::DoxyVerbatimContent
        },
        page.region_at(i) is Fence ==> page.kind_at(i) == if linekind::closes_fence(
            page.bodies[i],
            page.marks[i],
            page.region_at(i)->marker,
            page.region_at(i)->run,
        ) {
            LineKind::FenceClose
        } else {
            LineKind::FenceContent
        },
{
    if i > 0 {
        let (prev, region) = page.above(i - 1);
        assert(page.kind_at(i - 1) == page.kind_in(i - 1, region, prev));
    }
}

/// A verbatim region is closed by "@endcode" or "@endverbatim", with either marker.
pub proof fn law_verbatim_closers(body: Seq<char>, k: int, n: int)
    requires
        begins_at(body, k),
        run_ends(body, k + 1, n, Class::Letter),
    ensures
        linekind::closes_verbatim(body) <==> (body[k] == '@' || body[k] == '\\') && (body.subrange(
            k + 1,
            n,
        ) == "endcode"@ || body.subrange(k + 1, n) == "endverbatim"@),
{
    lines::law_tag_words(body, k, n);
    lines::law_verbatim_tags(body.subrange(k + 1, n));
}

/// The marks of a page are those of its lines, one by one.
pub proof fn law_marks(bodies: Seq<Seq<char>>, i: int)
    requires
        0 <= i < bodies.len(),
    ensures
        linekind::marks_of(bodies).len() == bodies.len(),
        ({
            let mark = linekind::marks_of(bodies)[i];
            let body = bodies[i];
            &&& mark.bookend == textline::bookend(body)
            &&& mark.art_only == textline::art_only(body)
            &&& mark.kernel_doc == textline::kernel_doc_tag(text::trim_start(body))
            &&& mark.table_row == textline::table_row(body)
            &&& mark.indented == textline::indented_code(body)
            &&& mark.banner == textline::banner(body)
            &&& mark.art == textline::art(body)
            &&& mark.fence is Some <==> textline::fence_run(body) is Some
            &&& body.len() <= usize::MAX && mark.fence is Some ==> (mark.fence->0).0 == (
            textline::fence_run(body)->0).0 && (mark.fence->0).1 as nat == (textline::fence_run(
                body,
            )->0).1
        }),
{
    let t = text::trim_start(bodies[i]);
    text::lemma_run_len(bodies[i], Class::White);
    if t.len() > 0 {
        text::lemma_run_len(t, Class::Only(t[0]));
    }
}

} // verus!
