//! Laws of calls: what the functions of the library return, in terms of what they
//! are given.

use vstd::prelude::*;

use super::characters::{begins_at, run_ends, trimmed_to};
use super::edits::{ends_in, line_ending};
use super::kinds::{rule, text_from, verdict};
use super::scanning::{comes_to, hides_its_line, is_dull};
use crate::assembly;
use crate::batch;
use crate::batch::{Action, Outcome, Target};
use crate::classify;
use crate::classify::{DocFlavor, Kind, Style};
use crate::cli::{Args, Lang, Mode};
use crate::config;
use crate::config::{IndentConfig, Lookup, ResolveCache, Resolved, UseTab};
use crate::convert;
use crate::laws::arguments;
use crate::laws::blocks;
use crate::laws::edits;
use crate::laws::forms;
use crate::laws::kinds;
use crate::laws::lines;
use crate::laws::marks;
use crate::laws::runs;
use crate::laws::scanning;
use crate::laws::settings;
use crate::linekind;
use crate::linekind::{LineKind, Page, StrippedLine, TagShape};
use crate::offsets;
use crate::parse;
use crate::parse::{Comment, Language};
use crate::rewrite;
use crate::rewrite::{Replacement, RewriteError};
use crate::text;
use crate::text::Class;
use crate::textline;
use vstd::utf8::*;

verus! {

broadcast use vstd::string::group_string_axioms;

/// A list item is recognized by a bullet, or by any digits and a period or a
/// parenthesis, with a blank behind.
pub proof fn law_is_list_item(body: &[char], r: bool, k: int, n: int)
    requires
        call_ensures(linekind::is_list_item, (body,), r),
        begins_at(body@, k),
        run_ends(body@, k, n, Class::Digit),
    ensures
        r <==> {
            ||| k + 1 < body@.len() && (body@[k] == '-' || body@[k] == '*' || body@[k] == '+') && (
            body@[k + 1] == ' ' || body@[k + 1] == '\t')
            ||| k < n && n + 1 < body@.len() && (body@[n] == '.' || body@[n] == ')') && (body@[n + 1]
                == ' ' || body@[n + 1] == '\t')
        },
{
    lines::law_list_items(body@, k, n);
}

/// The page that a call classifies.
pub open spec fn page_of(lines: Seq<StrippedLine>, flavor: DocFlavor, budget: usize) -> Page {
    let bodies = Seq::new(lines.len(), |i: int| lines[i].body@);
    Page {
        bodies,
        marks: Seq::new(lines.len(), |i: int| linekind::mark_of(lines[i].body@)),
        flavor,
        budget: budget as nat,
    }
}

/// Each line gets one kind: outside any region that of the first rule that holds
/// for it.
pub proof fn law_classify_lines(
    lines: &[StrippedLine],
    flavor: DocFlavor,
    budget: usize,
    out: Vec<LineKind>,
    i: int,
    n: int,
)
    requires
        call_ensures(linekind::classify_lines, (lines, flavor, budget), out),
        0 <= i < lines@.len(),
        0 <= n <= 17,
        rule(page_of(lines@, flavor, budget), i, n),
        forall|m: int| 0 <= m < n ==> !#[trigger] rule(page_of(lines@, flavor, budget), i, m),
    ensures
        out@.len() == lines@.len(),
        i == 0 ==> out@[i] == verdict(n),
        i > 0 && out@[i - 1] != LineKind::DoxyVerbatimOpen && out@[i - 1]
            != LineKind::DoxyVerbatimContent && out@[i - 1] != LineKind::FenceOpen && out@[i - 1]
            != LineKind::FenceContent ==> out@[i] == verdict(n),
{
    let page = page_of(lines@, flavor, budget);
    assert(page.bodies =~= linekind::bodies(lines@));
    assert(page.marks =~= linekind::marks_of(linekind::bodies(lines@)));
    kinds::law_regions(page, i);
    if page.region_at(i) is Text {
        kinds::law_first_rule_decides(page, i, n);
    }
}

/// A numbered line below no open region that no earlier rule claims is a list item,
/// whichever digits it has.
pub proof fn law_numbered_lines(
    lines: &[StrippedLine],
    flavor: DocFlavor,
    budget: usize,
    out: Vec<LineKind>,
    i: int,
    digits: Seq<char>,
    dot: char,
    rest: Seq<char>,
)
    requires
        call_ensures(linekind::classify_lines, (lines, flavor, budget), out),
        0 <= i < lines@.len(),
        lines@[i].body@ == digits + seq![dot, ' '] + rest,
        digits.len() > 0,
        forall|j: int| 0 <= j < digits.len() ==> '0' <= #[trigger] digits[j] <= '9',
        dot == '.' || dot == ')',
        i == 0 || out@[i - 1] == LineKind::Blank || out@[i - 1] == LineKind::Prose || out@[i - 1]
            == LineKind::ListItem,
        forall|m: int| 0 <= m < 16 ==> !#[trigger] rule(page_of(lines@, flavor, budget), i, m),
    ensures
        out@[i] == LineKind::ListItem,
{
    lines::law_numbered_items(Seq::empty(), digits, dot, ' ', rest);
    assert(Seq::<char>::empty() + digits + seq![dot, ' '] + rest =~= digits + seq![dot, ' '] + rest);
    assert(rule(page_of(lines@, flavor, budget), i, 16));
    law_classify_lines(lines, flavor, budget, out, i, 16);
}

/// Headings, underlines, quotes and links.
pub proof fn law_markdown_lines(
    body: &[char],
    heading: bool,
    underline: Option<LineKind>,
    quote: bool,
    link: bool,
    lo: int,
    hi: int,
    n: int,
    e: int,
)
    requires
        call_ensures(linekind::is_atx_header, (body,), heading),
        call_ensures(linekind::setext_underline_kind, (body,), underline),
        call_ensures(linekind::is_blockquote, (body,), quote),
        call_ensures(linekind::is_reference_link, (body,), link),
        trimmed_to(body@, lo, hi),
        run_ends(body@, lo, n, Class::Only('#')),
        run_ends(body@, lo, e, Class::Not(']')),
    ensures
        heading <==> 1 <= n - lo <= 6 && n < hi && (body@[n] == ' ' || body@[n] == '\t'),
        underline == if hi - lo >= 2 && ((forall|j: int| lo <= j < hi ==> #[trigger] body@[j] == '=')
            || (forall|j: int| lo <= j < hi ==> #[trigger] body@[j] == '-')) {
            Some(LineKind::SetextUnderline)
        } else {
            None
        },
        quote <==> body@[0] == '>',
        link <==> body@[lo] == '[' && e - lo >= 2 && e + 2 < hi && body@[e + 1] == ':',
{
    let b = body@;
    lines::law_headings(b, lo, n);
    lines::law_underlines(b, lo, hi);
    lines::law_reference_links(b, lo, e);
    assert(!text::is_white(b[hi - 1]));
    assert forall|j: int| hi <= j < b.len() implies text::is_white(#[trigger] b[j]) by {
        assert(Class::White.holds(b[j]));
    }
    if n < hi {
        assert(n < b.len());
        if b[n] == ' ' || b[n] == '\t' {
            assert(n != hi - 1);
            assert(n < hi - 1 < b.len() && !text::is_white(b[hi - 1]));
        }
    }
    if e + 2 < hi {
        assert(e + 2 <= hi - 1 < b.len() && !text::is_white(b[hi - 1]));
    }
}

/// Tags, by their words.
pub proof fn law_doxy_tag(keyword: &str, r: Option<TagShape>)
    requires
        call_ensures(linekind::doxy_tag, (keyword,), r),
    ensures
        keyword@ == "param"@ || keyword@ == "tparam"@ || keyword@ == "retval"@ || keyword@
            == "throws"@ || keyword@ == "throw"@ || keyword@ == "exception"@ <==> r == Some(
            TagShape::Named,
        ),
        keyword@ == "code"@ || keyword@ == "verbatim"@ <==> r == Some(TagShape::VerbatimOpen),
        keyword@ == "endcode"@ || keyword@ == "endverbatim"@ <==> r == Some(
            TagShape::VerbatimClose,
        ),
        r == linekind::tag_shape(keyword@),
{
    lines::law_named_tags(keyword@);
    lines::law_verbatim_tags(keyword@);
}

/// The word behind a tag's marker, and whether its token looks like an address.
pub proof fn law_tag_tokens(s: &str, word: &str, t: &[char], address: bool, n: int, e: int)
    requires
        call_ensures(linekind::doxy_keyword, (s,), word),
        call_ensures(linekind::looks_like_email_or_path, (t,), address),
        run_ends(s@, 0, n, Class::Letter),
        run_ends(t@, 0, e, Class::Solid),
    ensures
        word@ == s@.take(n),
        address <==> exists|j: int| 0 <= j < e && (#[trigger] t@[j] == '.' || t@[j] == '/'),
{
    super::characters::law_runs(s@, 0, n, Class::Letter);
    super::characters::law_runs(t@, 0, e, Class::Solid);
    let token = t@.take(e);
    assert forall|j: int| 0 <= j < e implies #[trigger] token[j] == t@[j] by {}
    if linekind::address_like(t@) {
        let c = if token.contains('.') {
            '.'
        } else {
            '/'
        };
        let j = choose|j: int| 0 <= j < token.len() && token[j] == c;
        assert(t@[j] == c);
    }
    if exists|j: int| 0 <= j < e && (#[trigger] t@[j] == '.' || t@[j] == '/') {
        let j = choose|j: int| 0 <= j < e && (#[trigger] t@[j] == '.' || t@[j] == '/');
        assert(token[j] == t@[j]);
    }
}

/// Labels.
pub proof fn law_is_label_line(body: &[char], budget: usize, r: bool, k: int, c: int, e: int)
    requires
        call_ensures(linekind::is_label_line, (body, budget), r),
        begins_at(body@, k),
        run_ends(body@, k, c, Class::Not(':')),
        k <= e <= c,
        forall|j: int| e <= j < c ==> #[trigger] body@[j] == ' ' || body@[j] == '\t',
        e > k ==> body@[e - 1] != ' ' && body@[e - 1] != '\t',
    ensures
        r <==> {
            &&& c < body@.len()
            &&& 1 <= e - k <= 32
            &&& text::is_uppercase(body@[k])
            &&& forall|j: int|
                k <= j < e ==> text::is_alphanumeric(#[trigger] body@[j]) || body@[j] == '_'
                    || body@[j] == '-'
            &&& text_from(body@, c + 1)
            &&& textline::width(body@, 8) <= budget
        },
{
    kinds::law_labels(body@, budget as nat, k, c, e);
}

/// Metadata.
pub proof fn law_is_metadata_line(body: &[char], r: bool, k: int, m: int)
    requires
        call_ensures(linekind::is_metadata_line, (body,), r),
        begins_at(body@, k),
        text::stands_at(body@, "Copyright "@, k) ==> run_ends(body@, k + 10, m, Class::White),
    ensures
        ({
            let b = body@;
            r <==> {
                ||| text::stands_at(b, "Copyright "@, k) && (text::stands_at(b, "(c)"@, m)
                    || text::stands_at(b, "(C)"@, m) || (m < b.len() && b[m] == '©') || (m + 4
                    <= b.len() && forall|j: int| m <= j < m + 4 ==> '0' <= #[trigger] b[j] <= '9'))
                ||| text::stands_at(b, "SPDX-"@, k) && exists|j: int|
                    k <= j < b.len() && #[trigger] b[j] == ':'
                ||| text::stands_at(b, "All rights reserved"@, k)
                ||| text::stands_at(b, "Author:"@, k) && text_from(b, k + 7)
                ||| text::stands_at(b, "License:"@, k) && text_from(b, k + 8)
                ||| text::stands_at(b, "Version:"@, k) && text_from(b, k + 8)
                ||| text::stands_at(b, "Permission:"@, k) && text_from(b, k + 11)
            }
        }),
{
    kinds::law_metadata(body@, k);
    if text::stands_at(body@, "Copyright "@, k) {
        kinds::law_copyright(body@, k, m);
    }
}

/// Fences, code samples, tables and drawings.
pub proof fn law_marked_lines(
    body: &[char],
    fence: Option<(char, usize)>,
    code: bool,
    table: bool,
    bookend: bool,
    banner: bool,
    lo: int,
    hi: int,
    a: int,
    z: int,
)
    requires
        call_ensures(textline::fence_marker_run, (body,), fence),
        call_ensures(textline::is_indented_code, (body,), code),
        call_ensures(textline::is_table_row, (body,), table),
        call_ensures(textline::is_bookend, (body,), bookend),
        call_ensures(textline::one_sided_banner, (body,), banner),
        trimmed_to(body@, lo, hi),
        lo < a <= hi && lo <= z < hi,
        forall|j: int| lo <= j < a ==> #[trigger] body@[j] == body@[lo],
        a < hi ==> body@[a] != body@[lo],
        forall|j: int| z <= j < hi ==> #[trigger] body@[j] == body@[hi - 1],
        z > lo ==> body@[z - 1] != body@[hi - 1],
    ensures
        ({
            let b = body@;
            let ahead = marks::draws_rules(b[lo]) && a - lo >= 3;
            let behind = marks::draws_rules(b[hi - 1]) && hi - z >= 3;
            &&& b[lo] == '`' || b[lo] == '~' ==> fence is Some && (fence->0).0 == b[lo] && (
            fence->0).1 == a - lo
            &&& b[lo] != '`' && b[lo] != '~' ==> fence is None
            &&& code <==> b[0] == '\t' || (b.len() > 1 && b[0] == ' ' && b[1] == ' ')
            &&& table <==> hi - lo >= 2 && {
                ||| b[lo] == '|' && b[hi - 1] == '|'
                ||| b[lo] == '+' && b[hi - 1] == '+' && forall|j: int|
                    lo <= j < hi ==> #[trigger] b[j] == '+' || b[j] == '-' || b[j] == '='
            }
            &&& bookend <==> ahead && behind && b[lo] == b[hi - 1]
            &&& banner <==> (exists|j: int| lo <= j < hi && text::is_alphanumeric(#[trigger] b[j])) && {
                ||| ahead && !behind && a < hi && text::is_white(b[a])
                ||| !ahead && behind && z > lo && text::is_white(b[z - 1])
            }
        }),
{
    let b = body@;
    if a < b.len() && a == hi {
        assert(Class::White.holds(b[a]));
    }
    assert(run_ends(b, lo, a, Class::Only(b[lo])));
    marks::law_fences(b, lo, a);
    marks::law_table_rows(b, lo, hi);
    marks::law_rules_make_banners(b, lo, hi, a, z);
}

/// Drawings and documentation blocks.
pub proof fn law_is_art(body: &[char], only: bool, art: bool, doc: bool)
    requires
        call_ensures(textline::line_is_art_only, (body,), only),
        call_ensures(textline::is_art, (body,), art),
        call_ensures(textline::block_is_doc, (body,), doc),
    ensures
        ({
            let b = body@;
            &&& only <==> (forall|j: int|
                0 <= j < b.len() ==> Class::Drawing.holds(#[trigger] b[j])) && exists|j: int|
                0 <= j < b.len() && !text::is_white(#[trigger] b[j])
            &&& art <==> only || ((exists|j: int|
                0 <= j < b.len() && 0x2500 <= (#[trigger] b[j]) as int <= 0x259f) && forall|j: int|
                0 <= j && j + 1 < b.len() ==> !(text::is_alphanumeric(#[trigger] b[j])
                    && text::is_alphanumeric(b[j + 1])))
            &&& doc <==> b.len() >= 3 && b[0] == '/' && b[1] == '*' && (b[2] == '!' || (b[2] == '*'
                && (b.len() == 3 || (b[3] != '*' && b[3] != '/'))))
        }),
{
    marks::law_drawings(body@);
    marks::law_doc_blocks(body@);
}

/// Kernel-doc parameters.
pub proof fn law_is_kernel_doc_tag(t: &[char], r: bool, n: int, c: int)
    requires
        call_ensures(textline::is_kernel_doc_tag, (t,), r),
        t@.len() > 0,
        run_ends(t@, 1, n, Class::Word),
        run_ends(t@, n, c, Class::Blank),
    ensures
        r <==> t@[0] == '@' && n > 1 && c < t@.len() && t@[c] == ':',
{
    marks::law_kernel_doc(t@, n, c);
}

/// The block for a comment: every line from the first with text to the last, each
/// in a row of its own, unless one of them holds an end or a beginning of a block.
pub proof fn law_build_block(c: &Comment, res: Option<Replacement>, first: int, last: int)
    requires
        call_ensures(convert::build_block, (c,), res),
        ({
            let lines = convert::run_lines(c.text@);
            &&& 0 <= first <= last < lines.len()
            &&& lines[first].len() > 0
            &&& lines[last].len() > 0
            &&& forall|j: int| 0 <= j < first ==> (#[trigger] lines[j]).len() == 0
            &&& forall|j: int| last < j < lines.len() ==> (#[trigger] lines[j]).len() == 0
        }),
    ensures
        ({
            let lines = convert::run_lines(c.text@);
            let blocked = exists|j: int|
                first <= j <= last && (text::has(#[trigger] lines[j], seq!['*', '/']) || text::has(
                    lines[j],
                    seq!['/', '*'],
                ));
            &&& blocked <==> res is None
            &&& res matches Some(r) ==> {
                &&& r.start == c.start_byte
                &&& c.text@.len() == 0 || c.text@.last() != '\r' ==> r.end == c.end_byte
                &&& c.text@.len() > 0 && c.text@.last() == '\r' && c.end_byte > 0 ==> r.end + 1
                    == c.end_byte
                &&& r.text@ == seq!['/', '*'] + convert::rows(
                    lines.subrange(first, last + 1),
                    c.line_indent_bytes@,
                    convert::ending(*c),
                ) + convert::ending(*c) + c.line_indent_bytes@ + seq![' ', '*', '/']
            }
        }),
{
    blocks::law_conversion(*c, first, last);
    let lines = convert::run_lines(c.text@);
    blocks::law_block_layout(
        lines.subrange(first, last + 1),
        c.line_indent_bytes@,
        convert::ending(*c),
    );
}

/// A comment without text gives no block.
pub proof fn law_no_block(c: &Comment, res: Option<Replacement>)
    requires
        call_ensures(convert::build_block, (c,), res),
        ({
            let lines = convert::run_lines(c.text@);
            forall|j: int| 0 <= j < lines.len() ==> (#[trigger] lines[j]).len() == 0
        }),
    ensures
        res is None,
{
    blocks::law_no_text_no_conversion(*c);
}

/// Which comments are plain, and which languages have them.
pub proof fn law_is_plain_line(c: &Comment, plain: bool, spdx: bool, lang: Language, any: bool, n: int)
    requires
        call_ensures(convert::is_plain_line, (c,), plain),
        call_ensures(convert::holds_file_start_spdx, (c,), spdx),
        call_ensures(convert::converts, (lang,), any),
        run_ends(c.text@, 0, n, Class::Not('\n')),
    ensures
        ({
            let t = c.text@;
            &&& spdx <==> c.at_file_start && text::has(t.take(n), "SPDX-License-Identifier"@)
            &&& plain <==> {
                &&& t.len() >= 2 && t[0] == '/' && t[1] == '/'
                &&& t.len() > 2 ==> t[2] != '/' && t[2] != '!'
                &&& !c.is_trailing && !c.force_passthrough && !spdx
            }
            &&& any <==> lang == Language::C || lang == Language::Cpp || lang == Language::Rust
        }),
{
    blocks::law_plain_lines(*c, n);
    forms::law_slash_comments();
}

/// A replacement is made exactly when the rewrite is not empty and, with the line
/// ending put back, is not what was there.
pub proof fn law_make_replacement(
    c: &Comment,
    rewritten: String,
    source: &str,
    res: Option<Replacement>,
)
    requires
        call_ensures(rewrite::make_replacement, (c, rewritten, source), res),
    ensures
        ({
            let old_text = offsets::slice(source@, c.start_byte as int, c.end_byte as int);
            let end = line_ending(old_text);
            let whole = if ends_in(rewritten@, end) {
                rewritten@
            } else {
                rewritten@ + end
            };
            &&& res is None <==> rewritten@.len() == 0 || whole == old_text
            &&& res matches Some(r) ==> r.start == c.start_byte && r.end == c.end_byte && r.text@
                == whole
        }),
{
    edits::law_every_change_is_made(
        offsets::slice(source@, c.start_byte as int, c.end_byte as int),
        rewritten@,
    );
}

/// A plan is refused for the first of its faults, in the order of its ranges, and
/// carried out where it has none.
pub proof fn law_apply_checked(
    source: &str,
    reps: &[Replacement],
    comments: &[Comment],
    verdict: Result<(), RewriteError>,
    res: Result<String, RewriteError>,
)
    requires
        call_ensures(rewrite::validate, (reps, source, comments), verdict),
        call_ensures(rewrite::apply_checked, (source, reps, comments), res),
    ensures
        ({
            let plan = rewrite::edits(reps@);
            match rewrite::plan_fault(plan, source@, comments@) {
                Some(e) => verdict == Err::<(), RewriteError>(e) && res == Err::<
                    String,
                    RewriteError,
                >(e),
                None => verdict is Ok && res is Ok && encode_utf8(res->Ok_0@) == rewrite::splice(
                    encode_utf8(source@),
                    rewrite::sorted(plan),
                    0,
                    0,
                ),
            }
        }),
{
}

/// A gap is refused for its first byte that is no white space.
pub proof fn law_check_whitespace_gap(
    source: &str,
    start: usize,
    end: usize,
    r: &Replacement,
    res: Result<(), RewriteError>,
    at: usize,
)
    requires
        call_ensures(rewrite::check_whitespace_gap, (source, start, end, r), res),
        start <= at <= end,
        forall|j: int|
            start <= j < at ==> (#[trigger] encode_utf8(source@)[j]) == 32 || 9 <= encode_utf8(
                source@,
            )[j] <= 10 || 12 <= encode_utf8(source@)[j] <= 13,
    ensures
        at == end ==> res is Ok,
        ({
            let x = encode_utf8(source@)[at as int];
            at < end && !(x == 32 || 9 <= x <= 10 || 12 <= x <= 13) ==> res == Err::<
                (),
                RewriteError,
            >(RewriteError::CoversCode { start: r.start, end: r.end, at })
        }),
{
    edits::law_code_in_a_gap(encode_utf8(source@), start as int, at as int, end as int);
}

/// Every block comment of an assembly source is found: one that is closed, with
/// nothing in front of it that hides it, on a line that the scan comes to.
pub proof fn law_scan(source: &str, out: Vec<(usize, usize)>, p: int, i: int, e: int)
    requires
        call_ensures(assembly::scan, (source,), out),
        comes_to(encode_utf8(source@), p),
        0 <= p <= i,
        i + 2 <= e && e + 1 < encode_utf8(source@).len(),
        forall|k: int| p <= k < i ==> #[trigger] is_dull(encode_utf8(source@), k),
        encode_utf8(source@)[i] == 0x2f && encode_utf8(source@)[i + 1] == 0x2a,
        encode_utf8(source@)[e] == 0x2a && encode_utf8(source@)[e + 1] == 0x2f,
        forall|k: int|
            i + 2 <= k < e ==> !(#[trigger] encode_utf8(source@)[k] == 0x2a && encode_utf8(
                source@,
            )[k + 1] == 0x2f),
    ensures
        exists|k: int|
            0 <= k < out@.len() && (#[trigger] out@[k]).0 as int == i && out@[k].1 as int == e + 2,
{
    let b = encode_utf8(source@);
    scanning::law_no_block_comment_is_missed(b, p, i, e);
    let all = assembly::spans(b, 0);
    let k = choose|k: int| 0 <= k < all.len() && all[k] == (i, e + 2);
    assert(assembly::span_view(out@)[k] == (i, e + 2));
    assert(out@[k].0 as int == i);
}

/// Exactly "#", "@", ";", "!" and "//" open a line comment.
pub proof fn law_opens_line_comment(bytes: &[u8], i: usize, r: bool)
    requires
        call_ensures(assembly::opens_line_comment, (bytes, i), r),
        i < bytes@.len(),
    ensures
        r <==> hides_its_line(bytes@, i as int),
{
    scanning::law_line_comment_openers(bytes@, i as int, Seq::empty());
}

/// The column limit that is read is the number on the first line that gives one,
/// however large it is; where no line does, it is 80.
pub proof fn law_read_keys(source: &Option<String>, r: Resolved, i: int, n: usize)
    requires
        call_ensures(config::read_keys, (source,), r),
        source matches Some(s) ==> 0 <= i <= text::lines(s@).len() && forall|j: int|
            0 <= j < i ==> config::int_key(#[trigger] text::lines(s@)[j], "ColumnLimit"@) is None,
    ensures
        source is None ==> r.column_limit == 80 && r.indent == (IndentConfig {
            tab_width: 8,
            indent_width: 2,
            use_tab: UseTab::Never,
        }),
        source matches Some(s) ==> {
            &&& i == text::lines(s@).len() ==> r.column_limit == 80
            &&& i < text::lines(s@).len() && text::lines(s@)[i] == "ColumnLimit: "@ + text::decimal(
                n as nat,
            ) ==> r.column_limit == n
            &&& i < text::lines(s@).len() && config::int_key(text::lines(s@)[i], "ColumnLimit"@)
                == Some(n) ==> r.column_limit == n
        },
{
    if let Some(s) = source {
        settings::law_column_limit(s@, i, n);
    }
}

/// The indentation that is read is that of the last lines that give its keys.
pub proof fn law_read_indent(source: String, r: Resolved, i: int, n: usize)
    requires
        call_ensures(config::read_keys, (&Some(source),), r),
        0 <= i < text::lines(source@).len(),
    ensures
        text::lines(source@)[i] == "TabWidth: "@ + text::decimal(n as nat) && n > 0 && (forall|j: int|
            i < j < text::lines(source@).len() ==> config::int_key(
                #[trigger] text::lines(source@)[j],
                "TabWidth"@,
            ) is None) ==> r.indent.tab_width == n,
        text::lines(source@)[i] == "IndentWidth: "@ + text::decimal(n as nat) && (forall|j: int|
            i < j < text::lines(source@).len() ==> config::int_key(
                #[trigger] text::lines(source@)[j],
                "IndentWidth"@,
            ) is None) ==> r.indent.indent_width == n,
{
    if forall|j: int|
        i < j < text::lines(source@).len() ==> config::int_key(
            #[trigger] text::lines(source@)[j],
            "TabWidth"@,
        ) is None {
        settings::law_tab_width(source@, i, n);
    }
    if forall|j: int|
        i < j < text::lines(source@).len() ==> config::int_key(
            #[trigger] text::lines(source@)[j],
            "IndentWidth"@,
        ) is None {
        settings::law_indent_width(source@, i, n);
    }
}

/// A line that gives a key a number is read as that number.
pub proof fn law_parse_int_key(line: &str, key: &str, r: Option<usize>, n: usize)
    requires
        call_ensures(config::parse_int_key, (line, key), r),
        key@.len() > 0 && key@[0] != ' ' && key@[0] != '\t',
        line@ == key@ + seq![':', ' '] + text::decimal(n as nat),
    ensures
        r == Some(n),
{
    settings::law_numbers_read_back(key@, n);
}

/// "--column-limit" sets the column limit to its number, whatever the tree says.
pub proof fn law_override(
    n: usize,
    r: Resolved,
    cache: &ResolveCache,
    dir: &[u8],
    over: Option<usize>,
    found: Lookup,
)
    requires
        call_ensures(config::overridden, (n,), r),
        call_ensures(ResolveCache::resolve, (cache, dir, over), found),
    ensures
        r.column_limit == n,
        r.indent == (IndentConfig { tab_width: 8, indent_width: 2, use_tab: UseTab::Never }),
        over == Some(n) ==> found == Lookup::Known(r),
        over is None && cache@.contains_key(dir@) ==> found == Lookup::Known(cache@[dir@]),
        over is None && !cache@.contains_key(dir@) ==> found == Lookup::Search,
{
}

/// The mode that the flags select, and what is wrong with them.
pub proof fn law_args_calls(args: &Args, mode: Mode, valid: Result<(), crate::cli::ParseError>)
    requires
        call_ensures(Args::mode, (args,), mode),
        call_ensures(Args::validate, (args,), valid),
    ensures
        mode == Mode::Write <==> !args.check && !args.diff && !args.dry_run,
        args.check && !args.diff && !args.dry_run ==> mode == Mode::Check,
        args.diff && !args.check && !args.dry_run ==> mode == Mode::Diff,
        args.dry_run && !args.check && !args.diff ==> mode == Mode::DryRun,
        valid is Ok <==> {
            &&& args.paths@.len() > 0 <==> args.files_from is None
            &&& !(args.check && args.diff)
            &&& !(args.check && args.dry_run)
            &&& !(args.diff && args.dry_run)
        },
{
    arguments::law_modes(args@);
    arguments::law_complaints(args@);
}

/// The language that an option or an extension names.
pub proof fn law_language_calls(
    v: &[char],
    lang: Option<Lang>,
    l: Lang,
    language: Language,
    ext: &str,
    found: Option<Language>,
)
    requires
        call_ensures(Lang::from_value, (v,), lang),
        call_ensures(Lang::to_language, (l,), language),
        call_ensures(parse::detect_language, (ext,), found),
    ensures
        v@ == "c"@ ==> lang == Some(Lang::C),
        v@ == "cpp"@ ==> lang == Some(Lang::Cpp),
        v@ == "rust"@ ==> lang == Some(Lang::Rust),
        v@ == "shell"@ ==> lang == Some(Lang::Shell),
        v@ == "asm"@ ==> lang == Some(Lang::Asm),
        lang is Some ==> v@ == "c"@ || v@ == "cpp"@ || v@ == "rust"@ || v@ == "shell"@ || v@
            == "asm"@,
        l == Lang::C ==> language == Language::C,
        l == Lang::Cpp ==> language == Language::Cpp,
        l == Lang::Rust ==> language == Language::Rust,
        l == Lang::Shell ==> language == Language::Shell,
        l == Lang::Asm ==> language == Language::Asm,
        parse::lower_text(ext@) == "rs"@ <==> found == Some(Language::Rust),
        parse::lower_text(ext@) == "s"@ <==> found == Some(Language::Asm),
        parse::lower_text(ext@) == "sh"@ || parse::lower_text(ext@) == "bash"@ <==> found == Some(
            Language::Shell,
        ),
        parse::lower_text(ext@) == "c"@ || parse::lower_text(ext@) == "h"@ || parse::lower_text(
            ext@,
        ) == "m"@ <==> found == Some(Language::C),
        found == parse::language_of(parse::lower_text(ext@)),
{
    arguments::law_language_names(v@);
    forms::law_extensions(parse::lower_text(ext@));
}

/// What is done with a result, and the exit status of a run.
pub proof fn law_run_calls(
    mode: Mode,
    target: Target,
    source: &str,
    result: &str,
    r: (Action, Outcome),
    outcomes: &[Outcome],
    code: u8,
)
    requires
        call_ensures(batch::settle, (mode, target, source, result), r),
        call_ensures(batch::exit_status, (mode, outcomes), code),
    ensures
        ({
            let changed = source@ != result@;
            let failed = exists|j: int|
                0 <= j < outcomes@.len() && #[trigger] outcomes@[j] == Outcome::Failed;
            let any = exists|j: int|
                0 <= j < outcomes@.len() && #[trigger] outcomes@[j] == (Outcome::Done {
                    changed: true,
                });
            &&& r.0 == Action::WriteFile <==> mode == Mode::Write && target == Target::File
                && changed
            &&& r.0 == Action::WriteStdout <==> mode == Mode::Write && target == Target::Stdout
            &&& r.0 == Action::ShowDiff <==> mode == Mode::Diff && changed
            &&& r.0 == Action::ShowSummary <==> mode == Mode::DryRun && changed
            &&& r.0 == Action::ShowNoChange <==> mode == Mode::DryRun && !changed
            &&& r.1 == (Outcome::Done { changed: mode == Mode::Check && changed })
            &&& code == 2 <==> failed
            &&& code == 1 <==> !failed && mode == Mode::Check && any
            &&& code == 0 <==> !failed && !(mode == Mode::Check && any)
        }),
{
    runs::law_actions(mode, target, source@ != result@);
    runs::law_exit_status(mode, outcomes@);
}

/// The style and the flavor of a comment.
pub proof fn law_classify(comment: &str, lang: Language, k: Kind, s: Style)
    requires
        call_ensures(classify::classify, (comment, lang), k),
        call_ensures(classify::classify_style, (comment,), s),
    ensures
        k.style == s,
        ({
            let t = comment@;
            let two = t.len() >= 2 && t[0] == '/';
            &&& s == Style::DocLine <==> two && t[1] == '/' && t.len() > 2 && (t[2] == '/' || t[2]
                == '!')
            &&& s == Style::DocBlock <==> two && t[1] == '*' && t.len() > 2 && (t[2] == '!' || (t[2]
                == '*' && (t.len() == 3 || (t[3] != '*' && t[3] != '/'))))
            &&& s == Style::Block || s == Style::DocBlock <==> two && t[1] == '*'
        }),
        s == Style::Line || s == Style::Block ==> k.flavor == DocFlavor::Plain,
        s == Style::DocLine || s == Style::DocBlock ==> (k.flavor == DocFlavor::Rustdoc <==> lang
            == Language::Rust) && (k.flavor == DocFlavor::Doxygen <==> lang != Language::Rust),
{
    forms::law_styles(comment@);
    forms::law_flavors(lang);
}

} // verus!
