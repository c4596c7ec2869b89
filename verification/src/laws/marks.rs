//! Laws of the marks that a comment line bears: fences, tables, rules, drawings.

use vstd::prelude::*;

use super::characters::{begins_at, run_ends, trimmed_to};
use crate::laws::characters;
use crate::text;
use crate::text::Class;
use crate::textline;

verus! {

broadcast use vstd::string::group_string_axioms;

/// A fence is the backquotes or tildes that a line opens with, all of them.
pub proof fn law_fences(body: Seq<char>, k: int, n: int)
    requires
        begins_at(body, k),
        run_ends(body, k, n, Class::Only(body[k])),
    ensures
        body[k] == '`' || body[k] == '~' ==> textline::fence_run(body) == Some(
            (body[k], (n - k) as nat),
        ),
        body[k] != '`' && body[k] != '~' ==> textline::fence_run(body) is None,
{
    characters::law_runs(body, 0, k, Class::White);
    characters::law_runs(body, k, n, Class::Only(body[k]));
    assert(body.skip(k)[0] == body[k]);
}

/// A blank line bears no mark but its indentation.
pub proof fn law_blank_line_bears_no_mark(body: Seq<char>)
    requires
        text::is_blank(body),
    ensures
        textline::fence_run(body) is None,
        !textline::table_row(body),
        !textline::kernel_doc_tag(text::trim_start(body)),
        !textline::bookend(body),
        !textline::banner(body),
        !textline::art_only(body),
{
    characters::law_trimming(body);
    assert(text::trim(body).len() == 0);
}

/// A code sample is indented by a tab, or by two spaces or more.
pub proof fn law_code_samples(body: Seq<char>)
    ensures
        textline::indented_code(body) <==> text::stands_at(body, seq!['\t'], 0) || text::stands_at(
            body,
            seq![' ', ' '],
            0,
        ),
{
    text::lemma_one_at(body, '\t', 0);
    text::lemma_pair_at(body, ' ', ' ', 0);
}

/// A table row is framed by two bars, or by two plus signs with nothing but plus
/// signs, hyphens and equals signs between them.
pub proof fn law_table_rows(body: Seq<char>, lo: int, hi: int)
    requires
        trimmed_to(body, lo, hi),
    ensures
        textline::table_row(body) <==> hi - lo >= 2 && {
            ||| body[lo] == '|' && body[hi - 1] == '|'
            ||| body[lo] == '+' && body[hi - 1] == '+' && forall|j: int|
                lo <= j < hi ==> #[trigger] body[j] == '+' || body[j] == '-' || body[j] == '='
        },
{
    characters::law_trimmed_text(body, lo, hi);
    let t = body.subrange(lo, hi);
    assert(t[0] == body[lo]);
    assert(t.last() == body[hi - 1]);
    assert forall|j: int| 0 <= j < t.len() implies #[trigger] t[j] == body[lo + j] by {}
    if text::all_of(t, Class::Grid) {
        assert forall|j: int| lo <= j < hi implies #[trigger] body[j] == '+' || body[j] == '-'
            || body[j] == '=' by {
            assert(t[j - lo] == body[j]);
            assert(Class::Grid.holds(t[j - lo]));
        }
    }
}

/// A kernel-doc parameter is "@", a name and a colon, with blanks allowed in front
/// of the colon.
pub proof fn law_kernel_doc(t: Seq<char>, n: int, c: int)
    requires
        t.len() > 0,
        run_ends(t, 1, n, Class::Word),
        run_ends(t, n, c, Class::Blank),
    ensures
        textline::kernel_doc_tag(t) <==> t[0] == '@' && n > 1 && c < t.len() && t[c] == ':',
{
    characters::law_runs(t, 1, n, Class::Word);
    characters::law_runs(t, n, c, Class::Blank);
    assert(t.skip(1).skip(n - 1) =~= t.skip(n));
    if c < t.len() {
        assert(t.skip(n)[c - n] == t[c]);
    }
}

/// The characters that rules are drawn with.
pub open spec fn draws_rules(c: char) -> bool {
    c as int == 45 || c as int == 61 || c as int == 42 || c as int == 95
}

/// The lengths of the rules at the two ends of a line.
pub proof fn law_rules(body: Seq<char>, lo: int, hi: int, a: int, z: int)
    requires
        trimmed_to(body, lo, hi),
        lo < a <= hi && lo <= z < hi,
        forall|j: int| lo <= j < a ==> #[trigger] body[j] == body[lo],
        a < hi ==> body[a] != body[lo],
        forall|j: int| z <= j < hi ==> #[trigger] body[j] == body[hi - 1],
        z > lo ==> body[z - 1] != body[hi - 1],
    ensures
        textline::rule_ahead(text::trim(body)) == if draws_rules(body[lo]) {
            a - lo
        } else {
            0
        },
        textline::rule_behind(text::trim(body)) == if draws_rules(body[hi - 1]) {
            hi - z
        } else {
            0
        },
{
    characters::law_trimmed_text(body, lo, hi);
    let t = body.subrange(lo, hi);
    assert(t[0] == body[lo]);
    assert(t.last() == body[hi - 1]);
    assert forall|j: int| 0 <= j < t.len() implies #[trigger] t[j] == body[lo + j] by {}
    text::lemma_run_len_is(t, Class::Only(t[0]), a - lo);
    text::lemma_tail_len_is(t, Class::Only(t.last()), hi - z);
}

/// A line between two rules has three or more of one such character at either
/// end; a banner has that at one end only, white space next to it, and a letter
/// or a number.
pub proof fn law_rules_make_banners(body: Seq<char>, lo: int, hi: int, a: int, z: int)
    requires
        trimmed_to(body, lo, hi),
        lo < a <= hi && lo <= z < hi,
        forall|j: int| lo <= j < a ==> #[trigger] body[j] == body[lo],
        a < hi ==> body[a] != body[lo],
        forall|j: int| z <= j < hi ==> #[trigger] body[j] == body[hi - 1],
        z > lo ==> body[z - 1] != body[hi - 1],
    ensures
        ({
            let ahead = draws_rules(body[lo]) && a - lo >= 3;
            let behind = draws_rules(body[hi - 1]) && hi - z >= 3;
            &&& textline::bookend(body) <==> ahead && behind && body[lo] == body[hi - 1]
            &&& textline::banner(body) <==> (exists|j: int|
                lo <= j < hi && text::is_alphanumeric(#[trigger] body[j])) && {
                ||| ahead && !behind && a < hi && text::is_white(body[a])
                ||| !ahead && behind && z > lo && text::is_white(body[z - 1])
            }
        }),
{
    law_rules(body, lo, hi, a, z);
    characters::law_trimmed_text(body, lo, hi);
    let t = body.subrange(lo, hi);
    assert(t[0] == body[lo]);
    assert(t.last() == body[hi - 1]);
    assert forall|j: int| 0 <= j < t.len() implies #[trigger] t[j] == body[lo + j] by {}
    if text::any_of(t, Class::Alphanumeric) {
        let j = choose|j: int| 0 <= j < t.len() && Class::Alphanumeric.holds(#[trigger] t[j]);
        assert(text::is_alphanumeric(body[lo + j]));
    }
    if exists|j: int| lo <= j < hi && text::is_alphanumeric(#[trigger] body[j]) {
        let j = choose|j: int| lo <= j < hi && text::is_alphanumeric(#[trigger] body[j]);
        assert(Class::Alphanumeric.holds(t[j - lo]));
        if a == hi && draws_rules(body[lo]) {
            assert(body[j] == body[lo]);
            assert(false);
        }
        if z == lo && draws_rules(body[hi - 1]) {
            assert(body[j] == body[hi - 1]);
            assert(false);
        }
    }
}

/// A drawing is made of drawing characters, or has a box character and no two
/// letters or numbers side by side.
pub proof fn law_drawings(body: Seq<char>)
    ensures
        textline::art_only(body) <==> (forall|j: int|
            0 <= j < body.len() ==> Class::Drawing.holds(#[trigger] body[j])) && exists|j: int|
            0 <= j < body.len() && !text::is_white(#[trigger] body[j]),
        textline::art(body) <==> {
            ||| textline::art_only(body)
            ||| (exists|j: int| 0 <= j < body.len() && 0x2500 <= (#[trigger] body[j]) as int <= 0x259f)
                && forall|j: int|
                0 <= j && j + 1 < body.len() ==> !(text::is_alphanumeric(#[trigger] body[j])
                    && text::is_alphanumeric(body[j + 1]))
        },
{
    if exists|j: int| 0 <= j < body.len() && !text::is_white(#[trigger] body[j]) {
        let j = choose|j: int| 0 <= j < body.len() && !text::is_white(#[trigger] body[j]);
        assert(!Class::White.holds(body[j]));
    }
    if !text::is_blank(body) {
        let j = choose|j: int| 0 <= j < body.len() && !Class::White.holds(#[trigger] body[j]);
        assert(!text::is_white(body[j]));
    }
    if exists|j: int| 0 <= j < body.len() && 0x2500 <= (#[trigger] body[j]) as int <= 0x259f {
        let j = choose|j: int|
            0 <= j < body.len() && 0x2500 <= (#[trigger] body[j]) as int <= 0x259f;
        assert(Class::Box.holds(body[j]));
    }
    if text::any_of(body, Class::Box) {
        let j = choose|j: int| 0 <= j < body.len() && Class::Box.holds(#[trigger] body[j]);
        assert(0x2500 <= body[j] as int <= 0x259f);
    }
}

/// A character takes one column, and a tab goes on to the next multiple of the
/// tab width.
pub proof fn law_columns(s: Seq<char>, c: char, tab_width: nat)
    requires
        tab_width > 0,
    ensures
        textline::width(Seq::empty(), tab_width) == 0,
        c != '\t' ==> textline::width(s.push(c), tab_width) == textline::width(s, tab_width) + 1,
        ({
            let before = textline::width(s, tab_width);
            let after = textline::width(s.push('\t'), tab_width);
            &&& before < after <= before + tab_width
            &&& after % tab_width == 0
        }),
{
    assert(s.push(c).drop_last() =~= s);
    assert(s.push('\t').drop_last() =~= s);
    let w = textline::width(s, tab_width) as int;
    let t = tab_width as int;
    assert(w == t * (w / t) + w % t && 0 <= w % t < t) by (nonlinear_arith)
        requires
            t > 0,
            w >= 0,
    ;
    assert((w / t + 1) * t == t * (w / t) + t) by (nonlinear_arith)
        requires
            t > 0,
    ;
    assert(((w / t + 1) * t) % t == 0) by (nonlinear_arith)
        requires
            t > 0,
    ;
}

/// Where the next character goes.
pub proof fn law_next_column(col: nat, c: char, tab_width: nat)
    requires
        tab_width > 0,
    ensures
        c != '\t' ==> textline::next_col(col, c, tab_width) == col + 1,
        c == '\t' ==> textline::next_col(col, c, tab_width) % tab_width == 0 && col
            < textline::next_col(col, c, tab_width) <= col + tab_width,
{
    let w = col as int;
    let t = tab_width as int;
    assert(w == t * (w / t) + w % t && 0 <= w % t < t) by (nonlinear_arith)
        requires
            t > 0,
            w >= 0,
    ;
    assert((w / t + 1) * t == t * (w / t) + t) by (nonlinear_arith)
        requires
            t > 0,
    ;
    assert(((w / t + 1) * t) % t == 0) by (nonlinear_arith)
        requires
            t > 0,
    ;
}

/// A documentation block opens with "/**" and neither a third star nor a slash, or
/// with "/*!".
pub proof fn law_doc_blocks(t: Seq<char>)
    ensures
        textline::doc_block(t) <==> t.len() >= 3 && t[0] == '/' && t[1] == '*' && {
            ||| t[2] == '!'
            ||| t[2] == '*' && (t.len() == 3 || (t[3] != '*' && t[3] != '/'))
        },
{
    reveal_strlit("/**");
    reveal_strlit("/*!");
    let a = seq!['/', '*', '*'];
    let b = seq!['/', '*', '!'];
    assert("/**"@ =~= a);
    assert("/*!"@ =~= b);
    characters::law_stands_at(t, a, 0);
    characters::law_stands_at(t, b, 0);
    if text::stands_at(t, a, 0) {
        assert(a[0] == t[0] && a[1] == t[1] && a[2] == t[2]);
    }
    if text::stands_at(t, b, 0) {
        assert(b[0] == t[0] && b[1] == t[1] && b[2] == t[2]);
    }
}

} // verus!
