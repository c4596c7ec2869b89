//! What one comment line looks like, on its own: fences, tables, drawings,
//! banners. Nothing here looks at a neighbouring line.

use vstd::prelude::*;
use vstd::slice::slice_subrange;

use crate::text;
use crate::text::Class;

verus! {

broadcast use vstd::string::group_string_axioms;

/// The distance between tab stops that line widths are measured with.
pub const FAST_PATH_TAB_WIDTH: usize = 8;

/// The column after a character: a tab goes on to the next tab stop, any other
/// character takes one column.
pub open spec fn next_col(col: nat, c: char, tab_width: nat) -> nat {
    if c == '\t' {
        (col / tab_width + 1) * tab_width
    } else {
        col + 1
    }
}

/// The column that a text ends in when it starts in column 0.
pub open spec fn width(s: Seq<char>, tab_width: nat) -> nat
    decreases s.len(),
{
    if s.len() == 0 {
        0
    } else {
        next_col(width(s.drop_last(), tab_width), s.last(), tab_width)
    }
}

/// Advances a column over one character.
pub fn advance_col(col: usize, c: char, tab_width: usize) -> (r: usize)
    requires
        tab_width > 0,
        next_col(col as nat, c, tab_width as nat) <= usize::MAX,
    ensures
        r == next_col(col as nat, c, tab_width as nat),
{
    if c == '\t' {
        let stops: usize = col / tab_width;
        assert(stops + 1 <= (stops + 1) * tab_width) by (nonlinear_arith)
            requires
                tab_width > 0,
        ;
        (stops + 1) * tab_width
    } else {
        col + 1
    }
}

/// A text is no narrower than any of its prefixes.
pub proof fn lemma_width_grows(s: Seq<char>, n: int, tab_width: nat)
    requires
        0 <= n <= s.len(),
        tab_width > 0,
    ensures
        width(s.take(n), tab_width) <= width(s, tab_width),
    decreases s.len() - n,
{
    if n < s.len() {
        lemma_width_grows(s, n + 1, tab_width);
        let t = s.take(n + 1);
        assert(t.drop_last() =~= s.take(n));
        let col = width(s.take(n), tab_width);
        assert((col / tab_width + 1) * tab_width >= col) by (nonlinear_arith)
            requires
                tab_width > 0,
        ;
    } else {
        assert(s.take(n) =~= s);
    }
}

/// Decides whether a text fits into a number of columns.
pub fn fits(s: &[char], budget: usize) -> (r: bool)
    ensures
        r == (width(s@, FAST_PATH_TAB_WIDTH as nat) <= budget),
{
    let mut col: usize = 0;
    let mut i: usize = 0;
    while i < s.len()
        invariant
            i <= s@.len(),
            col == width(s@.take(i as int), FAST_PATH_TAB_WIDTH as nat),
            col <= budget,
        decreases s@.len() - i,
    {
        let c = s[i];
        proof {
            let t = s@.take(i + 1);
            assert(t.drop_last() =~= s@.take(i as int));
            lemma_width_grows(s@, i + 1, FAST_PATH_TAB_WIDTH as nat);
        }
        if (c == '\t' && col / FAST_PATH_TAB_WIDTH >= usize::MAX / FAST_PATH_TAB_WIDTH) || col
            == usize::MAX {
            return false;
        }
        col = advance_col(col, c, FAST_PATH_TAB_WIDTH);
        i = i + 1;
        if col > budget {
            return false;
        }
    }
    proof {
        assert(s@.take(s@.len() as int) =~= s@);
    }
    true
}

/// The run of fence marks that a line opens with, behind its indentation.
pub open spec fn fence_run(body: Seq<char>) -> Option<(char, nat)> {
    let t = text::trim_start(body);
    if t.len() > 0 && (t[0] == '`' || t[0] == '~') {
        Some((t[0], text::run_len(t, Class::Only(t[0]))))
    } else {
        None
    }
}

/// Measures the run of fence marks that a line opens with.
pub fn fence_marker_run(body: &[char]) -> (r: Option<(char, usize)>)
    ensures
        match fence_run(body@) {
            Some((c, n)) => r == Some((c, n as usize)) && n <= usize::MAX,
            None => r is None,
        },
{
    let t = text::trimmed_start(body);
    if t.len() > 0 && (t[0] == '`' || t[0] == '~') {
        Some((t[0], text::count_run(t, Class::Only(t[0]))))
    } else {
        None
    }
}

/// Whether a line is indented like a code sample: by a tab, or by two columns
/// or more.
pub open spec fn indented_code(body: Seq<char>) -> bool {
    ||| body.len() > 0 && body[0] == '\t'
    ||| body.len() > 1 && body[0] == ' ' && body[1] == ' '
}

pub fn is_indented_code(body: &[char]) -> (r: bool)
    ensures
        r == indented_code(body@),
{
    (body.len() > 0 && body[0] == '\t') || (body.len() > 1 && body[0] == ' ' && body[1] == ' ')
}

/// Whether a line is a row of a table: framed by "|", or a rule of "-" and "="
/// framed by "+".
pub open spec fn table_row(body: Seq<char>) -> bool {
    let t = text::trim(body);
    &&& t.len() >= 2
    &&& {
        ||| t[0] == '|' && t.last() == '|'
        ||| t[0] == '+' && t.last() == '+' && text::all_of(t, Class::Grid)
    }
}

pub fn is_table_row(body: &[char]) -> (r: bool)
    ensures
        r == table_row(body@),
{
    let t = text::trimmed(body);
    t.len() >= 2 && ((t[0] == '|' && t[t.len() - 1] == '|') || (t[0] == '+' && t[t.len() - 1] == '+'
        && text::all_in(t, Class::Grid)))
}

/// Whether a text opens with a kernel-doc parameter: "@", a name, and a colon
/// that blanks may precede.
pub open spec fn kernel_doc_tag(t: Seq<char>) -> bool {
    &&& t.len() > 0
    &&& t[0] == '@'
    &&& {
        let name = text::run_len(t.skip(1), Class::Word) as int;
        let rest = t.skip(1).skip(name);
        let pad = text::run_len(rest, Class::Blank) as int;
        name > 0 && pad < rest.len() && rest[pad] == ':'
    }
}

pub fn is_kernel_doc_tag(t: &[char]) -> (r: bool)
    ensures
        r == kernel_doc_tag(t@),
{
    if t.len() == 0 || t[0] != '@' {
        return false;
    }
    let after = slice_subrange(t, 1, t.len());
    let name: usize = text::count_run(after, Class::Word);
    let rest = slice_subrange(after, name, after.len());
    let pad: usize = text::count_run(rest, Class::Blank);
    name > 0 && pad < rest.len() && rest[pad] == ':'
}

/// The characters that rules are made of.
pub open spec fn is_rule(c: char) -> bool {
    c == '-' || c == '=' || c == '*' || c == '_'
}

/// The length of the rule that a text opens with.
pub open spec fn rule_ahead(t: Seq<char>) -> nat {
    if t.len() > 0 && is_rule(t[0]) {
        text::run_len(t, Class::Only(t[0]))
    } else {
        0
    }
}

/// The length of the rule that a text ends with.
pub open spec fn rule_behind(t: Seq<char>) -> nat {
    if t.len() > 0 && is_rule(t.last()) {
        text::tail_len(t, Class::Only(t.last()))
    } else {
        0
    }
}

fn rule(c: char) -> (r: bool)
    ensures
        r == is_rule(c),
{
    c == '-' || c == '=' || c == '*' || c == '_'
}

fn count_rule_ahead(t: &[char]) -> (n: usize)
    ensures
        n == rule_ahead(t@),
        n <= t@.len(),
{
    if t.len() > 0 && rule(t[0]) {
        text::count_run(t, Class::Only(t[0]))
    } else {
        0
    }
}

fn count_rule_behind(t: &[char]) -> (n: usize)
    ensures
        n == rule_behind(t@),
        n <= t@.len(),
{
    if t.len() > 0 && rule(t[t.len() - 1]) {
        text::count_tail(t, Class::Only(t[t.len() - 1]))
    } else {
        0
    }
}

/// Whether a line is framed by two equal rules ("--- label ---"), or is one
/// rule and nothing else.
pub open spec fn bookend(body: Seq<char>) -> bool {
    let t = text::trim(body);
    rule_ahead(t) >= 3 && rule_behind(t) >= 3 && t[0] == t.last()
}

pub fn is_bookend(body: &[char]) -> (r: bool)
    ensures
        r == bookend(body@),
{
    let t = text::trimmed(body);
    count_rule_ahead(t) >= 3 && count_rule_behind(t) >= 3 && t[0] == t[t.len() - 1]
}

/// Whether a line is a label with a rule on one side only ("label -------").
pub open spec fn banner(body: Seq<char>) -> bool {
    let t = text::trim(body);
    let ahead = rule_ahead(t) as int;
    let behind = rule_behind(t) as int;
    &&& text::any_of(t, Class::Alphanumeric)
    &&& {
        ||| ahead >= 3 && behind < 3 && text::is_white(t[ahead])
        ||| ahead < 3 && behind >= 3 && text::is_white(t[t.len() - behind - 1])
    }
}

pub fn one_sided_banner(body: &[char]) -> (r: bool)
    ensures
        r == banner(body@),
{
    let t = text::trimmed(body);
    let ahead: usize = count_rule_ahead(t);
    let behind: usize = count_rule_behind(t);
    if !text::any_in(t, Class::Alphanumeric) {
        return false;
    }
    proof {
        lemma_label_beside_rule(t@);
    }
    (ahead >= 3 && behind < 3 && text::white(t[ahead])) || (ahead < 3 && behind >= 3 && text::white(
        t[t.len() - behind - 1],
    ))
}

/// A text with a letter or number in it is not a rule from end to end.
proof fn lemma_label_beside_rule(t: Seq<char>)
    requires
        text::any_of(t, Class::Alphanumeric),
    ensures
        rule_ahead(t) < t.len(),
        rule_behind(t) < t.len(),
{
    let i = choose|i: int| 0 <= i < t.len() && Class::Alphanumeric.holds(#[trigger] t[i]);
    text::lemma_run_len(t, Class::Only(t[0]));
    text::lemma_tail_len(t, Class::Only(t.last()));
    if rule_ahead(t) >= t.len() {
        assert(Class::Only(t[0]).holds(t[i]));
    }
    if rule_behind(t) >= t.len() {
        assert(Class::Only(t.last()).holds(t[i]));
    }
}

/// Whether a line is made of drawing characters and nothing else.
pub open spec fn art_only(body: Seq<char>) -> bool {
    !text::is_blank(body) && text::all_of(body, Class::Drawing)
}

pub fn line_is_art_only(body: &[char]) -> (r: bool)
    ensures
        r == art_only(body@),
{
    !text::blank(body) && text::all_in(body, Class::Drawing)
}

/// Whether two letters or numbers stand side by side.
pub open spec fn has_word(s: Seq<char>) -> bool {
    exists|i: int|
        0 <= i && i + 1 < s.len() && Class::Alphanumeric.holds(#[trigger] s[i])
            && Class::Alphanumeric.holds(s[i + 1])
}

fn holds_word(s: &[char]) -> (r: bool)
    ensures
        r == has_word(s@),
{
    let mut i: usize = 1;
    while i < s.len()
        invariant
            1 <= i,
            forall|j: int|
                0 <= j && j + 1 < i && j + 1 < s@.len() ==> !(Class::Alphanumeric.holds(
                    #[trigger] s@[j],
                ) && Class::Alphanumeric.holds(s@[j + 1])),
        decreases s@.len() - i,
    {
        if Class::Alphanumeric.test(s[i - 1]) && Class::Alphanumeric.test(s[i]) {
            proof {
                let k = i - 1;
                assert(Class::Alphanumeric.holds(s@[k]) && Class::Alphanumeric.holds(s@[k + 1]));
            }
            return true;
        }
        i = i + 1;
    }
    false
}

/// Whether a line is a drawing: only drawing characters, or a box with no more
/// than single letters in it.
pub open spec fn art(body: Seq<char>) -> bool {
    ||| art_only(body)
    ||| text::any_of(body, Class::Box) && !has_word(body)
}

pub fn is_art(body: &[char]) -> (r: bool)
    ensures
        r == art(body@),
{
    line_is_art_only(body) || (text::any_in(body, Class::Box) && !holds_word(body))
}

/// Whether a comment opens like a documentation block: "/**" that no further
/// "*" and no "/" follows, or "/*!".
pub open spec fn doc_block(t: Seq<char>) -> bool {
    ||| text::starts_with(t, "/**"@) && (t.len() > 3 ==> t[3] != '*' && t[3] != '/')
    ||| text::starts_with(t, "/*!"@)
}

pub fn block_is_doc(t: &[char]) -> (r: bool)
    ensures
        r == doc_block(t@),
{
    (text::begins(t, "/**") && (t.len() <= 3 || (t[3] != '*' && t[3] != '/'))) || text::begins(
        t,
        "/*!",
    )
}

} // verus!
