//! Per-line classification: deciding whether a comment line is prose to be
//! reflowed or layout to be preserved. Everything downstream (paragraph
//! grouping, reflow, emission) is driven by the "LineKind" this module
//! assigns, so this is the central judgment call.
//!
//! What a line looks like by itself comes in as a "Mark" (see "textline"); what
//! it is among its neighbours is decided here.

use vstd::prelude::*;
use vstd::slice::slice_subrange;

use crate::classify::DocFlavor;
use crate::text;
use crate::text::Class;
use crate::textline;
use crate::textline::FAST_PATH_TAB_WIDTH;

verus! {

broadcast use vstd::string::group_string_axioms;

/// One comment source line with its marker prefix split off: "prefix" is what
/// the emitter puts back ("/// ", " * "), "body" is the content this module
/// classifies.
#[derive(Debug, Clone)]
pub struct StrippedLine {
    pub prefix: String,
    pub body: String,
    pub had_crlf: bool,
}

/// What a comment line is.
#[derive(Debug, Clone, Copy, PartialEq, Eq, Structural)]
pub enum LineKind {
    Blank,
    Prose,
    FenceOpen,
    FenceContent,
    FenceClose,
    DoxyVerbatimOpen,
    DoxyVerbatimContent,
    DoxyVerbatimClose,
    IndentedCode,
    TableRow,
    Blockquote,
    ReferenceLink,
    SetextUnderline,
    AtxHeader,
    Art,
    ListItem,
    DoxygenTag,
    /// License, copyright and SPDX metadata. Each such line is its own paragraph
    /// and emits verbatim: wrapping it would corrupt the identifier that
    /// license-detection tooling expects.
    Metadata,
    /// A row of a "Key: value" banner ("File:" / "Task:"). Pinned to its own
    /// line like "Metadata", but re-emitted behind the canonical prefix.
    LabelRow,
    /// A banner with its rule on one side only ("label -------"). Emitted like
    /// "LabelRow".
    Banner,
}

/// What a Doxygen tag does to the line that carries it.
#[derive(Debug, Clone, Copy, PartialEq, Eq, Structural)]
pub enum TagShape {
    /// Takes a name before the description: "@param buf the buffer".
    Named,
    /// Description only: "@brief does the thing".
    Plain,
    /// Opens a verbatim region that runs until its closer.
    VerbatimOpen,
    /// Closes one.
    VerbatimClose,
}

/// The Doxygen tags that take a name.
pub open spec fn is_named_tag(k: Seq<char>) -> bool {
    k == "param"@ || k == "tparam"@ || k == "retval"@ || k == "throws"@ || k == "throw"@ || k
        == "exception"@
}

/// The Doxygen tags that take a description only.
pub open spec fn is_plain_tag(k: Seq<char>) -> bool {
    k == "brief"@ || k == "return"@ || k == "returns"@ || k == "note"@ || k == "warning"@ || k
        == "see"@ || k == "sa"@ || k == "pre"@ || k == "post"@ || k == "since"@ || k
        == "deprecated"@ || k == "details"@ || k == "short"@ || k == "author"@ || k == "date"@ || k
        == "version"@ || k == "copyright"@ || k == "file"@ || k == "ingroup"@ || k == "defgroup"@
        || k == "addtogroup"@
}

/// Every Doxygen tag that is recognized, spelled without its marker.
pub open spec fn tag_shape(k: Seq<char>) -> Option<TagShape> {
    if is_named_tag(k) {
        Some(TagShape::Named)
    } else if is_plain_tag(k) {
        Some(TagShape::Plain)
    } else if k == "code"@ || k == "verbatim"@ {
        Some(TagShape::VerbatimOpen)
    } else if k == "endcode"@ || k == "endverbatim"@ {
        Some(TagShape::VerbatimClose)
    } else {
        None
    }
}

/// Looks a tag keyword up.
pub fn doxy_tag(keyword: &str) -> (r: Option<TagShape>)
    ensures
        r == tag_shape(keyword@),
{
    let k = text::chars_of(keyword);
    tag_of(k.as_slice())
}

fn tag_of(k: &[char]) -> (r: Option<TagShape>)
    ensures
        r == tag_shape(k@),
{
    if named_tag(k) {
        Some(TagShape::Named)
    } else if plain_tag(k) {
        Some(TagShape::Plain)
    } else if text::same_str(k, "code") || text::same_str(k, "verbatim") {
        Some(TagShape::VerbatimOpen)
    } else if text::same_str(k, "endcode") || text::same_str(k, "endverbatim") {
        Some(TagShape::VerbatimClose)
    } else {
        None
    }
}

fn named_tag(k: &[char]) -> (r: bool)
    ensures
        r == is_named_tag(k@),
{
    text::same_str(k, "param") || text::same_str(k, "tparam") || text::same_str(k, "retval")
        || text::same_str(k, "throws") || text::same_str(k, "throw") || text::same_str(
        k,
        "exception",
    )
}

fn plain_tag(k: &[char]) -> (r: bool)
    ensures
        r == is_plain_tag(k@),
{
    text::same_str(k, "brief") || text::same_str(k, "return") || text::same_str(k, "returns")
        || text::same_str(k, "note") || text::same_str(k, "warning") || text::same_str(k, "see")
        || text::same_str(k, "sa") || text::same_str(k, "pre") || text::same_str(k, "post")
        || text::same_str(k, "since") || text::same_str(k, "deprecated") || text::same_str(
        k,
        "details",
    ) || text::same_str(k, "short") || text::same_str(k, "author") || text::same_str(k, "date")
        || text::same_str(k, "version") || text::same_str(k, "copyright") || text::same_str(
        k,
        "file",
    ) || text::same_str(k, "ingroup") || text::same_str(k, "defgroup") || text::same_str(
        k,
        "addtogroup",
    )
}

/// The tag keyword behind a "@" or "\" marker: the leading run of ASCII letters,
/// so that a direction annotation ("param[in]") is not part of it.
pub open spec fn keyword(after_marker: Seq<char>) -> Seq<char> {
    after_marker.take(text::run_len(after_marker, Class::Letter) as int)
}

/// Cuts the tag keyword out of what follows a marker.
pub fn doxy_keyword<'a>(after_marker: &'a str) -> (r: &'a str)
    ensures
        r@ == keyword(after_marker@),
{
    let s = text::chars_of(after_marker);
    let n: usize = text::count_run(s.as_slice(), Class::Letter);
    after_marker.substring_char(0, n)
}

/// What stands behind the tag marker that a line opens with, or "None".
pub open spec fn after_marker(body: Seq<char>) -> Option<Seq<char>> {
    let t = text::trim_start(body);
    if t.len() > 0 && (t[0] == '@' || t[0] == '\\') {
        Some(t.skip(1))
    } else {
        None
    }
}

/// The shape of the Doxygen tag that a line opens with.
pub open spec fn line_tag(body: Seq<char>) -> Option<TagShape> {
    match after_marker(body) {
        Some(s) => tag_shape(keyword(s)),
        None => None,
    }
}

fn tag_of_line(body: &[char]) -> (r: Option<TagShape>)
    ensures
        r == line_tag(body@),
{
    let t = text::trimmed_start(body);
    if t.len() > 0 && (t[0] == '@' || t[0] == '\\') {
        let s = slice_subrange(t, 1, t.len());
        let n: usize = text::count_run(s, Class::Letter);
        tag_of(slice_subrange(s, 0, n))
    } else {
        None
    }
}

/// Whether the first word behind a marker has a "." or a "/" in it, as an
/// address or a path has.
pub open spec fn address_like(after_marker: Seq<char>) -> bool {
    let token = after_marker.take(text::run_len(after_marker, Class::Solid) as int);
    token.contains('.') || token.contains('/')
}

pub fn looks_like_email_or_path(after_marker: &[char]) -> (r: bool)
    ensures
        r == address_like(after_marker@),
{
    let n: usize = text::count_run(after_marker, Class::Solid);
    let token = slice_subrange(after_marker, 0, n);
    text::has_char(token, '.') || text::has_char(token, '/')
}

/// Whether a line opens with a Doxygen tag, and not with an address or a path.
pub open spec fn opens_tag(body: Seq<char>) -> bool {
    match after_marker(body) {
        Some(s) => tag_shape(keyword(s)) is Some && !address_like(s),
        None => false,
    }
}

fn tag_opener(body: &[char]) -> (r: bool)
    ensures
        r == opens_tag(body@),
{
    let t = text::trimmed_start(body);
    tag_of_line(body).is_some() && !looks_like_email_or_path(slice_subrange(t, 1, t.len()))
}

/// Whether a line is a run of two or more "=" or "-".
pub open spec fn setext_rule(body: Seq<char>) -> bool {
    let t = text::trim(body);
    t.len() >= 2 && (t[0] == '=' || t[0] == '-') && text::all_of(t, Class::Only(t[0]))
}

/// The kind of a line that underlines a heading, if it is one.
pub fn setext_underline_kind(body: &[char]) -> (r: Option<LineKind>)
    ensures
        r == if setext_rule(body@) {
            Some(LineKind::SetextUnderline)
        } else {
            None
        },
{
    let t = text::trimmed(body);
    if t.len() >= 2 && (t[0] == '=' || t[0] == '-') && text::all_in(t, Class::Only(t[0])) {
        Some(LineKind::SetextUnderline)
    } else {
        None
    }
}

/// Whether a line is a heading: one to six "#", a blank, and some text.
pub open spec fn atx_header(body: Seq<char>) -> bool {
    let t = text::trim_start(body);
    let hashes = text::run_len(t, Class::Only('#')) as int;
    let rest = t.skip(hashes);
    &&& 1 <= hashes <= 6
    &&& rest.len() > 0
    &&& Class::Blank.holds(rest[0])
    &&& !text::is_blank(rest)
}

pub fn is_atx_header(body: &[char]) -> (r: bool)
    ensures
        r == atx_header(body@),
{
    let t = text::trimmed_start(body);
    let hashes: usize = text::count_run(t, Class::Only('#'));
    let rest = slice_subrange(t, hashes, t.len());
    1 <= hashes && hashes <= 6 && rest.len() > 0 && Class::Blank.test(rest[0]) && !text::blank(rest)
}

/// Whether a line is a quotation: ">" in its first column.
pub open spec fn blockquote(body: Seq<char>) -> bool {
    body.len() > 0 && body[0] == '>'
}

pub fn is_blockquote(body: &[char]) -> (r: bool)
    ensures
        r == blockquote(body@),
{
    body.len() > 0 && body[0] == '>'
}

/// Whether a line defines a link: a name in square brackets, a colon, and some
/// text.
pub open spec fn reference_link(body: Seq<char>) -> bool {
    let t = text::trim_start(body);
    let end = text::run_len(t, Class::Not(']')) as int;
    &&& t.len() > 0
    &&& t[0] == '['
    &&& 1 < end < t.len() - 1
    &&& t[end + 1] == ':'
    &&& !text::is_blank(t.skip(end + 2))
}

pub fn is_reference_link(body: &[char]) -> (r: bool)
    ensures
        r == reference_link(body@),
{
    let t = text::trimmed_start(body);
    let end: usize = text::count_run(t, Class::Not(']'));
    t.len() > 0 && t[0] == '[' && 1 < end && end < t.len() - 1 && t[end + 1] == ':' && !text::blank(
        slice_subrange(t, end + 2, t.len()),
    )
}

/// Whether a text opens with a string and goes on with something.
pub open spec fn keyed(t: Seq<char>, key: Seq<char>) -> bool {
    text::starts_with(t, key) && !text::is_blank(t.skip(key.len() as int))
}

fn has_key(t: &[char], key: &str) -> (r: bool)
    ensures
        r == keyed(t@, key@),
{
    let k = text::chars_of(key);
    text::begins(t, key) && !text::blank(slice_subrange(t, k.len(), t.len()))
}

/// Whether a text opens with a copyright notice: the word and then the sign, or
/// a number of four digits or more.
pub open spec fn copyright_notice(t: Seq<char>) -> bool {
    let r = text::trim_start(t.skip("Copyright "@.len() as int));
    &&& text::starts_with(t, "Copyright "@)
    &&& {
        ||| text::starts_with(r, "(c)"@)
        ||| text::starts_with(r, "(C)"@)
        ||| r.len() > 0 && r[0] == '©'
        ||| text::run_len(r, Class::Digit) >= 4
    }
}

fn is_copyright_notice(t: &[char]) -> (r: bool)
    ensures
        r == copyright_notice(t@),
{
    let word = text::chars_of("Copyright ");
    if !text::begins(t, "Copyright ") {
        return false;
    }
    let r = text::trimmed_start(slice_subrange(t, word.len(), t.len()));
    text::begins(r, "(c)") || text::begins(r, "(C)") || (r.len() > 0 && r[0] == '©')
        || text::count_run(r, Class::Digit) >= 4
}

/// Whether a line is license or copyright metadata.
pub open spec fn metadata_line(body: Seq<char>) -> bool {
    let t = text::trim_start(body);
    ||| copyright_notice(t)
    ||| text::starts_with(t, "SPDX-"@) && t.contains(':')
    ||| text::starts_with(t, "All rights reserved"@)
    ||| keyed(t, "Author:"@)
    ||| keyed(t, "License:"@)
    ||| keyed(t, "Version:"@)
    ||| keyed(t, "Permission:"@)
}

pub fn is_metadata_line(body: &[char]) -> (r: bool)
    ensures
        r == metadata_line(body@),
{
    let t = text::trimmed_start(body);
    is_copyright_notice(t) || (text::begins(t, "SPDX-") && text::has_char(t, ':')) || text::begins(
        t,
        "All rights reserved",
    ) || has_key(t, "Author:") || has_key(t, "License:") || has_key(t, "Version:") || has_key(
        t,
        "Permission:",
    )
}

/// Whether a line is a row of a "Key: value" banner that fits the budget. The
/// key is one capitalized word of at most 32 characters; blanks may pad it.
pub open spec fn label_line(body: Seq<char>, budget: nat) -> bool {
    let t = text::trim_start(body);
    let colon = text::run_len(t, Class::Not(':')) as int;
    let head = t.take(colon);
    let key = head.take(head.len() - text::tail_len(head, Class::Blank));
    &&& colon < t.len()
    &&& 1 <= key.len() <= 32
    &&& text::is_uppercase(key[0])
    &&& text::all_of(key, Class::Key)
    &&& !text::is_blank(t.skip(colon + 1))
    &&& textline::width(body, FAST_PATH_TAB_WIDTH as nat) <= budget
}

pub fn is_label_line(body: &[char], budget: usize) -> (r: bool)
    ensures
        r == label_line(body@, budget as nat),
{
    let t = text::trimmed_start(body);
    let colon: usize = text::count_run(t, Class::Not(':'));
    if colon == t.len() {
        return false;
    }
    let head = slice_subrange(t, 0, colon);
    let pad: usize = text::count_tail(head, Class::Blank);
    let key = slice_subrange(head, 0, head.len() - pad);
    1 <= key.len() && key.len() <= 32 && text::uppercase(key[0]) && text::all_in(key, Class::Key)
        && !text::blank(slice_subrange(t, colon + 1, t.len())) && textline::fits(body, budget)
}

/// Whether a line opens with a list marker and a blank: "-", "*", "+", or a
/// number and "." or ")".
pub open spec fn list_item(body: Seq<char>) -> bool {
    let t = text::trim_start(body);
    let digits = text::run_len(t, Class::Digit) as int;
    ||| t.len() >= 2 && (t[0] == '-' || t[0] == '*' || t[0] == '+') && Class::Blank.holds(t[1])
    ||| 0 < digits < t.len() - 1 && (t[digits] == '.' || t[digits] == ')') && Class::Blank.holds(
        t[digits + 1],
    )
}

pub fn is_list_item(body: &[char]) -> (r: bool)
    ensures
        r == list_item(body@),
{
    let t = text::trimmed_start(body);
    let digits: usize = text::count_run(t, Class::Digit);
    (t.len() >= 2 && (t[0] == '-' || t[0] == '*' || t[0] == '+') && Class::Blank.test(t[1])) || (0
        < digits && digits < t.len() - 1 && (t[digits] == '.' || t[digits] == ')')
        && Class::Blank.test(t[digits + 1]))
}

/// What a line looks like by itself, as "textline" tells it.
#[derive(Debug, Clone, Copy, PartialEq, Eq)]
pub struct Mark {
    /// The run of fence marks that the line opens with.
    pub fence: Option<(char, usize)>,
    /// Framed by two rules.
    pub bookend: bool,
    /// Made of drawing characters and nothing else.
    pub art_only: bool,
    /// Opens with a kernel-doc parameter.
    pub kernel_doc: bool,
    /// A row of a table.
    pub table_row: bool,
    /// Indented like a code sample.
    pub indented: bool,
    /// A label with a rule on one side.
    pub banner: bool,
    /// A drawing.
    pub art: bool,
}

/// What "textline" tells of a line.
pub open spec fn mark_of(body: Seq<char>) -> Mark {
    Mark {
        fence: match textline::fence_run(body) {
            Some((c, n)) => Some((c, n as usize)),
            None => None,
        },
        bookend: textline::bookend(body),
        art_only: textline::art_only(body),
        kernel_doc: textline::kernel_doc_tag(text::trim_start(body)),
        table_row: textline::table_row(body),
        indented: textline::indented_code(body),
        banner: textline::banner(body),
        art: textline::art(body),
    }
}

/// Marks a line.
pub fn mark(body: &[char]) -> (m: Mark)
    ensures
        m == mark_of(body@),
{
    Mark {
        fence: textline::fence_marker_run(body),
        bookend: textline::is_bookend(body),
        art_only: textline::line_is_art_only(body),
        kernel_doc: textline::is_kernel_doc_tag(text::trimmed_start(body)),
        table_row: textline::is_table_row(body),
        indented: textline::is_indented_code(body),
        banner: textline::one_sided_banner(body),
        art: textline::is_art(body),
    }
}

/// All that the kinds of a comment's lines depend on.
pub struct Page {
    /// The lines, without their prefixes.
    pub bodies: Seq<Seq<char>>,
    /// What each looks like by itself.
    pub marks: Seq<Mark>,
    /// The comment's documentation convention.
    pub flavor: DocFlavor,
    /// The columns that a pinned label row may take.
    pub budget: nat,
}

/// What the lines so far have left open.
#[derive(Clone, Copy)]
pub enum Region {
    /// Nothing.
    Text,
    /// A Doxygen verbatim region.
    Verbatim,
    /// A fence of one mark, opened by a run of some length.
    Fence { marker: char, run: usize },
}

/// The bodies of stripped lines.
pub open spec fn bodies(lines: Seq<StrippedLine>) -> Seq<Seq<char>> {
    lines.map_values(|l: StrippedLine| l.body@)
}

/// What "textline" tells of each line.
pub open spec fn marks_of(bodies: Seq<Seq<char>>) -> Seq<Mark> {
    bodies.map_values(|b: Seq<char>| mark_of(b))
}

/// Whether a line ends the verbatim region it stands in.
pub open spec fn closes_verbatim(body: Seq<char>) -> bool {
    line_tag(body) == Some(TagShape::VerbatimClose)
}

/// Whether a line ends the fence it stands in: nothing but the fence's mark, and
/// at least as many as opened it.
pub open spec fn closes_fence(body: Seq<char>, mark: Mark, marker: char, run: usize) -> bool {
    &&& mark.fence is Some
    &&& (mark.fence->0).0 == marker
    &&& (mark.fence->0).1 >= run
    &&& text::all_of(text::trim(body), Class::Only(marker))
}

/// Whether a line framed by rules stands beside a drawing, which makes it a part
/// of that drawing.
pub open spec fn art_adjacent(marks: Seq<Mark>, i: int) -> bool {
    &&& marks[i].bookend
    &&& {
        ||| i > 0 && marks[i - 1].art_only
        ||| i + 1 < marks.len() && marks[i + 1].art_only
    }
}

/// Whether a line can be a row of a banner: a label line that the end, a blank
/// line or another label line follows. A label followed by prose is the head of
/// a paragraph.
pub open spec fn eligible(bodies: Seq<Seq<char>>, i: int, budget: nat) -> bool {
    &&& 0 <= i < bodies.len()
    &&& label_line(bodies[i], budget)
    &&& {
        ||| i + 1 == bodies.len()
        ||| text::is_blank(bodies[i + 1])
        ||| label_line(bodies[i + 1], budget)
    }
}

/// Whether a line is a row of a banner of two rows or more. A label line by
/// itself is a sentence.
pub open spec fn label_run(bodies: Seq<Seq<char>>, i: int, budget: nat) -> bool {
    &&& eligible(bodies, i, budget)
    &&& eligible(bodies, i - 1, budget) || eligible(bodies, i + 1, budget)
}

/// Whether a line is a paragraph by itself.
pub open spec fn alone(bodies: Seq<Seq<char>>, i: int) -> bool {
    &&& i == 0 || text::is_blank(bodies[i - 1])
    &&& i + 1 == bodies.len() || text::is_blank(bodies[i + 1])
}

impl Page {
    /// Whether there is one mark for each line.
    pub open spec fn valid(self) -> bool {
        self.marks.len() == self.bodies.len()
    }

    /// The kind of a line that stands in no region, below a line of kind "prev".
    /// The first rule that applies decides.
    pub open spec fn plain_kind(self, i: int, prev: Option<LineKind>) -> LineKind {
        let body = self.bodies[i];
        let mark = self.marks[i];
        if text::is_blank(body) {
            LineKind::Blank
        } else if art_adjacent(self.marks, i) {
            LineKind::Art
        } else if mark.fence is Some && (mark.fence->0).1 >= 3 {
            LineKind::FenceOpen
        } else if line_tag(body) == Some(TagShape::VerbatimOpen) {
            LineKind::DoxyVerbatimOpen
        } else if self.flavor == DocFlavor::Doxygen && opens_tag(body) {
            LineKind::DoxygenTag
        } else if mark.kernel_doc {
            LineKind::DoxygenTag
        } else if setext_rule(body) && prev == Some(LineKind::Prose) {
            LineKind::SetextUnderline
        } else if atx_header(body) {
            LineKind::AtxHeader
        } else if metadata_line(body) {
            LineKind::Metadata
        } else if blockquote(body) {
            LineKind::Blockquote
        } else if reference_link(body) {
            LineKind::ReferenceLink
        } else if mark.table_row {
            LineKind::TableRow
        } else if mark.indented {
            LineKind::IndentedCode
        } else if label_run(self.bodies, i, self.budget) {
            LineKind::LabelRow
        } else if alone(self.bodies, i) && mark.banner {
            LineKind::Banner
        } else if mark.art {
            LineKind::Art
        } else if list_item(body) {
            LineKind::ListItem
        } else {
            LineKind::Prose
        }
    }

    /// The kind of a line, given the region it stands in and the kind of the
    /// line above it.
    pub open spec fn kind_in(self, i: int, region: Region, prev: Option<LineKind>) -> LineKind {
        match region {
            Region::Verbatim => if closes_verbatim(self.bodies[i]) {
                LineKind::DoxyVerbatimClose
            } else {
                LineKind::DoxyVerbatimContent
            },
            Region::Fence { marker, run } => if closes_fence(
                self.bodies[i],
                self.marks[i],
                marker,
                run,
            ) {
                LineKind::FenceClose
            } else {
                LineKind::FenceContent
            },
            Region::Text => self.plain_kind(i, prev),
        }
    }

    /// What is open below a line of some kind.
    pub open spec fn region_after(self, i: int, region: Region, kind: LineKind) -> Region {
        match kind {
            LineKind::DoxyVerbatimOpen => Region::Verbatim,
            LineKind::FenceOpen => Region::Fence {
                marker: (self.marks[i].fence->0).0,
                run: (self.marks[i].fence->0).1,
            },
            LineKind::DoxyVerbatimContent | LineKind::FenceContent => region,
            _ => Region::Text,
        }
    }

    /// The kind of the line above line "i", and what is open there.
    pub open spec fn above(self, i: int) -> (Option<LineKind>, Region)
        decreases i,
    {
        if i <= 0 {
            (None, Region::Text)
        } else {
            let (prev, region) = self.above(i - 1);
            let kind = self.kind_in(i - 1, region, prev);
            (Some(kind), self.region_after(i - 1, region, kind))
        }
    }

    /// The region that a line stands in.
    pub open spec fn region_at(self, i: int) -> Region {
        self.above(i).1
    }

    /// The kind of a line.
    pub open spec fn kind_at(self, i: int) -> LineKind {
        self.kind_in(i, self.above(i).1, self.above(i).0)
    }

    /// The kind of each line.
    pub open spec fn kinds(self) -> Seq<LineKind> {
        Seq::new(self.bodies.len(), |i: int| self.kind_at(i))
    }
}

/// Decides whether a line framed by rules stands beside a drawing.
pub fn is_art_adjacent_bookend(marks: &[Mark], i: usize) -> (r: bool)
    requires
        i < marks@.len(),
    ensures
        r == art_adjacent(marks@, i as int),
{
    marks[i].bookend && ((i > 0 && marks[i - 1].art_only) || (i < marks.len() - 1 && marks[i
        + 1].art_only))
}

/// Decides whether a line can be a row of a banner.
pub fn label_eligible(lines: &[Vec<char>], i: usize, budget: usize) -> (r: bool)
    ensures
        r == eligible(text::views(lines@), i as int, budget as nat),
{
    if i >= lines.len() || !is_label_line(lines[i].as_slice(), budget) {
        return false;
    }
    i == lines.len() - 1 || text::blank(lines[i + 1].as_slice()) || is_label_line(
        lines[i + 1].as_slice(),
        budget,
    )
}

/// Decides whether a line is a row of a banner of two rows or more.
pub fn is_label_run(lines: &[Vec<char>], i: usize, budget: usize) -> (r: bool)
    requires
        i < lines@.len(),
    ensures
        r == label_run(text::views(lines@), i as int, budget as nat),
{
    label_eligible(lines, i, budget) && ((i > 0 && label_eligible(lines, i - 1, budget))
        || (i < lines.len() - 1 && label_eligible(lines, i + 1, budget)))
}

/// Decides whether a line is a paragraph by itself.
fn stands_alone(lines: &[Vec<char>], i: usize) -> (r: bool)
    requires
        i < lines@.len(),
    ensures
        r == alone(text::views(lines@), i as int),
{
    (i == 0 || text::blank(lines[i - 1].as_slice())) && (i == lines.len() - 1 || text::blank(
        lines[i + 1].as_slice(),
    ))
}

/// The kind of a line that stands in no region.
fn plain_kind(
    lines: &[Vec<char>],
    marks: &[Mark],
    flavor: DocFlavor,
    budget: usize,
    i: usize,
    prev: Option<LineKind>,
) -> (k: LineKind)
    requires
        i < lines@.len(),
        marks@.len() == lines@.len(),
    ensures
        k == (Page {
            bodies: text::views(lines@),
            marks: marks@,
            flavor,
            budget: budget as nat,
        }).plain_kind(i as int, prev),
{
    let ghost page = Page {
        bodies: text::views(lines@),
        marks: marks@,
        flavor,
        budget: budget as nat,
    };
    let body = lines[i].as_slice();
    let mark = marks[i];
    assert(page.bodies[i as int] == body@);
    if text::blank(body) {
        return LineKind::Blank;
    }
    if is_art_adjacent_bookend(marks, i) {
        return LineKind::Art;
    }
    if let Some((_, run)) = mark.fence {
        if run >= 3 {
            return LineKind::FenceOpen;
        }
    }
    if let Some(TagShape::VerbatimOpen) = tag_of_line(body) {
        return LineKind::DoxyVerbatimOpen;
    }
    if matches!(flavor, DocFlavor::Doxygen) && tag_opener(body) {
        return LineKind::DoxygenTag;
    }
    if mark.kernel_doc {
        return LineKind::DoxygenTag;
    }
    if let Some(kind) = setext_underline_kind(body) {
        if let Some(LineKind::Prose) = prev {
            return kind;
        }
    }
    if is_atx_header(body) {
        return LineKind::AtxHeader;
    }
    if is_metadata_line(body) {
        return LineKind::Metadata;
    }
    if is_blockquote(body) {
        return LineKind::Blockquote;
    }
    if is_reference_link(body) {
        return LineKind::ReferenceLink;
    }
    if mark.table_row {
        return LineKind::TableRow;
    }
    if mark.indented {
        return LineKind::IndentedCode;
    }
    if is_label_run(lines, i, budget) {
        return LineKind::LabelRow;
    }
    if mark.banner && stands_alone(lines, i) {
        return LineKind::Banner;
    }
    if mark.art {
        return LineKind::Art;
    }
    if is_list_item(body) {
        return LineKind::ListItem;
    }
    LineKind::Prose
}

/// Assigns a kind to every line, whatever the lines look like by themselves.
pub fn classify_marked(
    lines: &[StrippedLine],
    marks: &[Mark],
    flavor: DocFlavor,
    label_budget: usize,
) -> (out: Vec<LineKind>)
    requires
        marks@.len() == lines@.len(),
    ensures
        out@ == (Page {
            bodies: bodies(lines@),
            marks: marks@,
            flavor,
            budget: label_budget as nat,
        }).kinds(),
{
    let texts = open_bodies(lines);
    let ghost page = Page {
        bodies: bodies(lines@),
        marks: marks@,
        flavor,
        budget: label_budget as nat,
    };
    let mut out: Vec<LineKind> = Vec::new();
    let mut prev: Option<LineKind> = None;
    let mut region = Region::Text;
    let mut i: usize = 0;
    while i < lines.len()
        invariant
            i <= lines@.len(),
            marks@.len() == lines@.len(),
            text::views(texts@) == bodies(lines@),
            page == (Page {
                bodies: bodies(lines@),
                marks: marks@,
                flavor,
                budget: label_budget as nat,
            }),
            out@.len() == i,
            forall|j: int| 0 <= j < i ==> out@[j] == #[trigger] page.kind_at(j),
            page.above(i as int) == (prev, region),
        decreases lines@.len() - i,
    {
        assert(texts@.len() == text::views(texts@).len());
        let body = texts[i].as_slice();
        assert(text::views(texts@)[i as int] == body@);
        let kind: LineKind;
        match region {
            Region::Verbatim => {
                if let Some(TagShape::VerbatimClose) = tag_of_line(body) {
                    kind = LineKind::DoxyVerbatimClose;
                    region = Region::Text;
                } else {
                    kind = LineKind::DoxyVerbatimContent;
                }
            },
            Region::Fence { marker, run } => {
                if fence_closer(body, marks[i], marker, run) {
                    kind = LineKind::FenceClose;
                    region = Region::Text;
                } else {
                    kind = LineKind::FenceContent;
                }
            },
            Region::Text => {
                kind = plain_kind(texts.as_slice(), marks, flavor, label_budget, i, prev);
                if let LineKind::DoxyVerbatimOpen = kind {
                    region = Region::Verbatim;
                } else if let LineKind::FenceOpen = kind {
                    if let Some((marker, run)) = marks[i].fence {
                        region = Region::Fence { marker, run };
                    }
                }
            },
        }
        assert(kind == page.kind_at(i as int));
        out.push(kind);
        prev = Some(kind);
        i = i + 1;
    }
    assert(out@ =~= page.kinds());
    out
}

/// Decides whether a line ends the fence it stands in.
fn fence_closer(body: &[char], mark: Mark, marker: char, run: usize) -> (r: bool)
    ensures
        r == closes_fence(body@, mark, marker, run),
{
    match mark.fence {
        Some((c, len)) => c == marker && len >= run && text::all_in(
            text::trimmed(body),
            Class::Only(marker),
        ),
        None => false,
    }
}

/// The characters of each line.
fn open_bodies(lines: &[StrippedLine]) -> (out: Vec<Vec<char>>)
    ensures
        text::views(out@) == bodies(lines@),
{
    let mut out: Vec<Vec<char>> = Vec::new();
    let mut i: usize = 0;
    while i < lines.len()
        invariant
            i <= lines@.len(),
            out@.len() == i,
            forall|j: int| 0 <= j < i ==> (#[trigger] out@[j])@ == lines@[j].body@,
        decreases lines@.len() - i,
    {
        out.push(text::chars_of(lines[i].body.as_str()));
        i = i + 1;
    }
    assert(text::views(out@) =~= bodies(lines@));
    out
}

/// Assigns a "LineKind" to every line of one comment: where "is this text or is
/// this layout?" gets decided.
///
/// The order of the checks matters, since each one runs only on lines that the
/// earlier ones rejected. Fences and verbatim regions are ranges: once open,
/// every line is content until the closer, whatever it looks like. Setext
/// underlines need the verdict on the line above. Label runs come after
/// indented code, because a "Key: value" line with a code sample's indentation
/// belongs to the sample.
pub fn classify_lines(lines: &[StrippedLine], flavor: DocFlavor, label_budget: usize) -> (out: Vec<
    LineKind,
>)
    ensures
        out@ == (Page {
            bodies: bodies(lines@),
            marks: marks_of(bodies(lines@)),
            flavor,
            budget: label_budget as nat,
        }).kinds(),
{
    let mut marks: Vec<Mark> = Vec::new();
    let mut i: usize = 0;
    while i < lines.len()
        invariant
            i <= lines@.len(),
            marks@.len() == i,
            forall|j: int| 0 <= j < i ==> #[trigger] marks@[j] == mark_of(lines@[j].body@),
        decreases lines@.len() - i,
    {
        let body = text::chars_of(lines[i].body.as_str());
        marks.push(mark(body.as_slice()));
        i = i + 1;
    }
    assert(marks@ =~= marks_of(bodies(lines@)));
    classify_marked(lines, marks.as_slice(), flavor, label_budget)
}

/// Every line gets a kind.
pub proof fn law_one_kind_per_line(page: Page)
    ensures
        page.kinds().len() == page.bodies.len(),
        forall|i: int|
            0 <= i < page.bodies.len() ==> #[trigger] page.kinds()[i] == page.kind_at(i),
{
}

proof fn lemma_below(page: Page, i: int)
    requires
        0 <= i,
    ensures
        page.above(i + 1).0 == Some(page.kind_at(i)),
        page.region_at(i + 1) == page.region_after(i, page.region_at(i), page.kind_at(i)),
{
}

/// A verbatim region runs from its opener to its closer, whatever the lines in
/// between look like, and to the end of the comment where there is no closer.
pub proof fn law_verbatim_runs_to_its_closer(page: Page, i: int, k: int)
    requires
        page.valid(),
        0 <= i < k < page.bodies.len(),
        page.kind_at(i) == LineKind::DoxyVerbatimOpen,
        forall|j: int| i < j < k ==> !closes_verbatim(#[trigger] page.bodies[j]),
    ensures
        page.kind_at(k) == if closes_verbatim(page.bodies[k]) {
            LineKind::DoxyVerbatimClose
        } else {
            LineKind::DoxyVerbatimContent
        },
{
    lemma_verbatim_stays_open(page, i, k);
}

proof fn lemma_verbatim_stays_open(page: Page, i: int, k: int)
    requires
        0 <= i < k,
        page.kind_at(i) == LineKind::DoxyVerbatimOpen,
        forall|j: int| i < j < k ==> !closes_verbatim(#[trigger] page.bodies[j]),
    ensures
        page.region_at(k) == Region::Verbatim,
    decreases k,
{
    lemma_below(page, k - 1);
    if i < k - 1 {
        lemma_verbatim_stays_open(page, i, k - 1);
        assert(!closes_verbatim(page.bodies[k - 1]));
    }
}

/// A fence runs from its opener to the first line that is nothing but the same
/// mark, at least as often, whatever the lines in between look like, and to the
/// end of the comment where there is no such line.
pub proof fn law_fence_runs_to_its_closer(page: Page, i: int, k: int)
    requires
        page.valid(),
        0 <= i < k < page.bodies.len(),
        page.kind_at(i) == LineKind::FenceOpen,
        forall|j: int|
            i < j < k ==> !closes_fence(
                #[trigger] page.bodies[j],
                page.marks[j],
                (page.marks[i].fence->0).0,
                (page.marks[i].fence->0).1,
            ),
    ensures
        page.kind_at(k) == if closes_fence(
            page.bodies[k],
            page.marks[k],
            (page.marks[i].fence->0).0,
            (page.marks[i].fence->0).1,
        ) {
            LineKind::FenceClose
        } else {
            LineKind::FenceContent
        },
{
    lemma_fence_stays_open(page, i, k);
}

proof fn lemma_fence_stays_open(page: Page, i: int, k: int)
    requires
        0 <= i < k,
        page.kind_at(i) == LineKind::FenceOpen,
        forall|j: int|
            i < j < k ==> !closes_fence(
                #[trigger] page.bodies[j],
                page.marks[j],
                (page.marks[i].fence->0).0,
                (page.marks[i].fence->0).1,
            ),
    ensures
        page.region_at(k) == (Region::Fence {
            marker: (page.marks[i].fence->0).0,
            run: (page.marks[i].fence->0).1,
        }),
    decreases k,
{
    lemma_below(page, k - 1);
    if i < k - 1 {
        lemma_fence_stays_open(page, i, k - 1);
        assert(!closes_fence(
            page.bodies[k - 1],
            page.marks[k - 1],
            (page.marks[i].fence->0).0,
            (page.marks[i].fence->0).1,
        ));
    }
}

/// Whether a region that a line of kind "opener" opens at "i" reaches down to
/// line "k" through lines of kind "content".
pub open spec fn reaches(page: Page, i: int, k: int, opener: LineKind, content: LineKind) -> bool {
    &&& 0 <= i < k
    &&& page.kind_at(i) == opener
    &&& forall|j: int| i < j < k ==> #[trigger] page.kind_at(j) == content
}

/// Verbatim content and its closer stand below an opener, with nothing but
/// content in between; and so for fences.
pub proof fn law_content_stands_below_an_opener(page: Page, k: int)
    requires
        page.valid(),
        0 <= k < page.bodies.len(),
    ensures
        page.kind_at(k) == LineKind::DoxyVerbatimContent || page.kind_at(k)
            == LineKind::DoxyVerbatimClose ==> exists|i: int| #[trigger]
            reaches(page, i, k, LineKind::DoxyVerbatimOpen, LineKind::DoxyVerbatimContent),
        page.kind_at(k) == LineKind::FenceContent || page.kind_at(k) == LineKind::FenceClose
            ==> exists|i: int| #[trigger]
            reaches(page, i, k, LineKind::FenceOpen, LineKind::FenceContent),
{
    lemma_region_has_an_opener(page, k);
}

proof fn lemma_region_has_an_opener(page: Page, k: int)
    requires
        0 <= k,
    ensures
        page.region_at(k) is Verbatim ==> exists|i: int| #[trigger]
            reaches(page, i, k, LineKind::DoxyVerbatimOpen, LineKind::DoxyVerbatimContent),
        page.region_at(k) is Fence ==> exists|i: int| #[trigger]
            reaches(page, i, k, LineKind::FenceOpen, LineKind::FenceContent),
    decreases k,
{
    if k > 0 {
        lemma_below(page, k - 1);
        lemma_region_has_an_opener(page, k - 1);
        let kind = page.kind_at(k - 1);
        if page.region_at(k) is Verbatim {
            let (opener, content) = (LineKind::DoxyVerbatimOpen, LineKind::DoxyVerbatimContent);
            if kind == opener {
                assert(reaches(page, k - 1, k, opener, content));
            } else {
                assert(page.region_at(k - 1) is Verbatim);
                let i = choose|i: int| #[trigger] reaches(page, i, k - 1, opener, content);
                assert(reaches(page, i, k, opener, content));
            }
        }
        if page.region_at(k) is Fence {
            let (opener, content) = (LineKind::FenceOpen, LineKind::FenceContent);
            if kind == opener {
                assert(reaches(page, k - 1, k, opener, content));
            } else {
                assert(page.region_at(k - 1) is Fence);
                let i = choose|i: int| #[trigger] reaches(page, i, k - 1, opener, content);
                assert(reaches(page, i, k, opener, content));
            }
        }
    }
}

/// An underline stands directly below prose.
pub proof fn law_underline_needs_prose_above(page: Page, i: int)
    requires
        page.valid(),
        0 <= i < page.bodies.len(),
        page.kind_at(i) == LineKind::SetextUnderline,
    ensures
        i > 0,
        page.kind_at(i - 1) == LineKind::Prose,
{
    if i > 0 {
        lemma_below(page, i - 1);
    }
}

/// A pinned label row fits the budget, and another line that can be a row of the
/// banner stands above or below it.
pub proof fn law_label_rows_fit_and_have_company(page: Page, i: int)
    requires
        page.valid(),
        0 <= i < page.bodies.len(),
        page.kind_at(i) == LineKind::LabelRow,
    ensures
        textline::width(page.bodies[i], FAST_PATH_TAB_WIDTH as nat) <= page.budget,
        eligible(page.bodies, i - 1, page.budget) || eligible(page.bodies, i + 1, page.budget),
{
}

/// A banner with one rule is a paragraph by itself.
pub proof fn law_banner_stands_alone(page: Page, i: int)
    requires
        page.valid(),
        0 <= i < page.bodies.len(),
        page.kind_at(i) == LineKind::Banner,
    ensures
        alone(page.bodies, i),
        page.marks[i].banner,
{
}

/// Outside a region, exactly the blank lines are "Blank"; inside one, no line
/// is.
pub proof fn law_blank_lines(page: Page, i: int)
    requires
        page.valid(),
        0 <= i < page.bodies.len(),
    ensures
        page.kind_at(i) == LineKind::Blank <==> page.region_at(i) is Text && text::is_blank(
            page.bodies[i],
        ),
{
}

/// The flavor decides between tag and no tag, and nothing else: where two
/// flavors disagree on a line in the same place, the line opens with a Doxygen
/// tag, one flavor is Doxygen's and its verdict is "DoxygenTag".
pub proof fn law_flavor_gates_tags_only(
    page: Page,
    other: DocFlavor,
    i: int,
    region: Region,
    prev: Option<LineKind>,
)
    requires
        page.valid(),
        0 <= i < page.bodies.len(),
    ensures
        ({
            let a = page.kind_in(i, region, prev);
            let b = (Page { flavor: other, ..page }).kind_in(i, region, prev);
            a != b ==> opens_tag(page.bodies[i]) && {
                ||| page.flavor == DocFlavor::Doxygen && a == LineKind::DoxygenTag
                ||| other == DocFlavor::Doxygen && b == LineKind::DoxygenTag
            }
        }),
{
}

/// The order of the rules: a tag beats a heading, a heading beats metadata, an
/// indented label belongs to its code sample, and prose is what no rule claims.
pub proof fn law_earlier_rules_win(page: Page, i: int)
    requires
        page.valid(),
        0 <= i < page.bodies.len(),
    ensures
        page.kind_at(i) == LineKind::AtxHeader ==> !page.marks[i].kernel_doc && !(page.flavor
            == DocFlavor::Doxygen && opens_tag(page.bodies[i])),
        page.kind_at(i) == LineKind::Metadata ==> !atx_header(page.bodies[i]),
        page.kind_at(i) == LineKind::LabelRow ==> !page.marks[i].indented,
        page.kind_at(i) == LineKind::Prose ==> {
            let body = page.bodies[i];
            let mark = page.marks[i];
            &&& !text::is_blank(body)
            &&& !atx_header(body)
            &&& !metadata_line(body)
            &&& !blockquote(body)
            &&& !reference_link(body)
            &&& !mark.table_row
            &&& !mark.indented
            &&& !mark.art
            &&& !list_item(body)
            &&& !label_run(page.bodies, i, page.budget)
        },
{
}

} // verus!
