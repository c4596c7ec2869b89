//! Laws of what a comment line looks like by itself.

use vstd::prelude::*;

use super::characters::{begins_at, run_ends, trimmed_to};
use crate::laws::characters;
use crate::linekind;
use crate::linekind::TagShape;
use crate::text;
use crate::text::Class;

verus! {

broadcast use vstd::string::group_string_axioms;

/// A list item opens with a bullet, or with some digits, whichever they are, and
/// a period or a parenthesis; a space or a tab stands behind. Nothing else is
/// one.
pub proof fn law_list_items(body: Seq<char>, k: int, n: int)
    requires
        begins_at(body, k),
        run_ends(body, k, n, Class::Digit),
    ensures
        linekind::list_item(body) <==> {
            ||| k + 1 < body.len() && (body[k] == '-' || body[k] == '*' || body[k] == '+') && (body[k
                + 1] == ' ' || body[k + 1] == '\t')
            ||| k < n && n + 1 < body.len() && (body[n] == '.' || body[n] == ')') && (body[n + 1]
                == ' ' || body[n + 1] == '\t')
        },
{
    characters::law_runs(body, 0, k, Class::White);
    characters::law_runs(body, k, n, Class::Digit);
    let t = body.skip(k);
    assert(t[0] == body[k]);
    if k + 1 < body.len() {
        assert(t[1] == body[k + 1]);
    }
    if n < body.len() {
        assert(t[n - k] == body[n]);
    }
    if n + 1 < body.len() {
        assert(t[n - k + 1] == body[n + 1]);
    }
}

/// A number of any digits makes a list item of any text: "d. text" and "d) text".
pub proof fn law_numbered_items(
    pad: Seq<char>,
    digits: Seq<char>,
    dot: char,
    gap: char,
    rest: Seq<char>,
)
    requires
        forall|j: int| 0 <= j < pad.len() ==> text::is_white(#[trigger] pad[j]),
        digits.len() > 0,
        forall|j: int| 0 <= j < digits.len() ==> '0' <= #[trigger] digits[j] <= '9',
        dot == '.' || dot == ')',
        gap == ' ' || gap == '\t',
    ensures
        linekind::list_item(pad + digits + seq![dot, gap] + rest),
{
    let body = pad + digits + seq![dot, gap] + rest;
    let k = pad.len() as int;
    let n = k + digits.len();
    assert forall|j: int| 0 <= j < k implies Class::White.holds(#[trigger] body[j]) by {
        assert(body[j] == pad[j]);
    }
    assert forall|j: int| k <= j < n implies Class::Digit.holds(#[trigger] body[j]) by {
        assert(body[j] == digits[j - k]);
    }
    assert(body[k] == digits[0]);
    assert(body[n] == dot);
    assert(body[n + 1] == gap);
    law_list_items(body, k, n);
}

/// A heading opens with one to six number signs and a space or a tab, and has
/// some text.
pub proof fn law_headings(body: Seq<char>, k: int, n: int)
    requires
        begins_at(body, k),
        run_ends(body, k, n, Class::Only('#')),
    ensures
        linekind::atx_header(body) <==> {
            &&& 1 <= n - k <= 6
            &&& n < body.len()
            &&& body[n] == ' ' || body[n] == '\t'
            &&& exists|j: int| n < j < body.len() && !text::is_white(#[trigger] body[j])
        },
{
    characters::law_runs(body, 0, k, Class::White);
    characters::law_runs(body, k, n, Class::Only('#'));
    let t = body.skip(k);
    let rest = t.skip(n - k);
    if n < body.len() {
        assert(rest[0] == body[n]);
        assert forall|j: int| 0 <= j < rest.len() implies #[trigger] rest[j] == body[n + j] by {}
        if exists|j: int| n < j < body.len() && !text::is_white(#[trigger] body[j]) {
            let j = choose|j: int| n < j < body.len() && !text::is_white(#[trigger] body[j]);
            assert(!Class::White.holds(rest[j - n]));
        }
        if linekind::atx_header(body) {
            let j = choose|j: int| 0 <= j < rest.len() && !Class::White.holds(#[trigger] rest[j]);
            assert(j != 0);
            assert(!text::is_white(body[n + j]));
        }
    }
}

/// An underline is two or more equals signs, or two or more hyphens.
pub proof fn law_underlines(body: Seq<char>, lo: int, hi: int)
    requires
        trimmed_to(body, lo, hi),
    ensures
        linekind::setext_rule(body) <==> {
            &&& hi - lo >= 2
            &&& {
                ||| forall|j: int| lo <= j < hi ==> #[trigger] body[j] == '='
                ||| forall|j: int| lo <= j < hi ==> #[trigger] body[j] == '-'
            }
        },
{
    characters::law_trimmed_text(body, lo, hi);
    let t = body.subrange(lo, hi);
    assert(t[0] == body[lo]);
    if linekind::setext_rule(body) {
        assert forall|j: int| lo <= j < hi implies #[trigger] body[j] == t[0] by {
            assert(t[j - lo] == body[j]);
            assert(Class::Only(t[0]).holds(t[j - lo]));
        }
    }
    assert forall|j: int| 0 <= j < t.len() implies #[trigger] t[j] == body[lo + j] by {}
}

/// A quote opens with a greater-than sign, in the first column.
pub proof fn law_quotes(body: Seq<char>)
    ensures
        linekind::blockquote(body) <==> text::stands_at(body, seq!['>'], 0),
{
    text::lemma_one_at(body, '>', 0);
}

/// A reference link is a label in brackets, a colon and a target. "e" is the first
/// closing bracket.
pub proof fn law_reference_links(body: Seq<char>, k: int, e: int)
    requires
        begins_at(body, k),
        run_ends(body, k, e, Class::Not(']')),
    ensures
        linekind::reference_link(body) <==> {
            &&& body[k] == '['
            &&& e - k >= 2
            &&& e + 1 < body.len()
            &&& body[e + 1] == ':'
            &&& exists|j: int| e + 2 <= j < body.len() && !text::is_white(#[trigger] body[j])
        },
{
    characters::law_runs(body, 0, k, Class::White);
    characters::law_runs(body, k, e, Class::Not(']'));
    let t = body.skip(k);
    assert(t[0] == body[k]);
    if e + 1 < body.len() {
        assert(t[e - k + 1] == body[e + 1]);
        let rest = t.skip(e - k + 2);
        assert forall|j: int| 0 <= j < rest.len() implies #[trigger] rest[j] == body[e + 2 + j] by {}
        if exists|j: int| e + 2 <= j < body.len() && !text::is_white(#[trigger] body[j]) {
            let j = choose|j: int| e + 2 <= j < body.len() && !text::is_white(#[trigger] body[j]);
            assert(!Class::White.holds(rest[j - e - 2]));
        }
        if linekind::reference_link(body) {
            let j = choose|j: int| 0 <= j < rest.len() && !Class::White.holds(#[trigger] rest[j]);
            assert(!text::is_white(body[e + 2 + j]));
        }
    }
}

/// What stands behind a tag's marker, "@" or a backslash, and the word that it
/// opens with.
pub proof fn law_tag_words(body: Seq<char>, k: int, n: int)
    requires
        begins_at(body, k),
        run_ends(body, k + 1, n, Class::Letter),
    ensures
        (body[k] == '@' || body[k] == '\\') ==> linekind::line_tag(body) == linekind::tag_shape(
            body.subrange(k + 1, n),
        ),
        (body[k] == '@' || body[k] == '\\') ==> linekind::after_marker(body) == Some(body.skip(k + 1)),
        linekind::keyword(body.skip(k + 1)) == body.subrange(k + 1, n),
        body[k] != '@' && body[k] != '\\' ==> linekind::line_tag(body) is None
            && !linekind::opens_tag(body),
{
    characters::law_runs(body, 0, k, Class::White);
    characters::law_runs(body, k + 1, n, Class::Letter);
    let t = body.skip(k);
    assert(t[0] == body[k]);
    assert(t.skip(1) =~= body.skip(k + 1));
    assert(body.skip(k + 1).take(n - k - 1) =~= body.subrange(k + 1, n));
}

/// A known word opens a tag, unless the token it stands in looks like an address
/// or a path. "e" is where the token ends.
pub proof fn law_tags(body: Seq<char>, k: int, n: int, e: int)
    requires
        begins_at(body, k),
        body[k] == '@' || body[k] == '\\',
        run_ends(body, k + 1, n, Class::Letter),
        run_ends(body, k + 1, e, Class::Solid),
    ensures
        linekind::opens_tag(body) <==> linekind::tag_shape(body.subrange(k + 1, n)) is Some && forall|
            j: int,
        |
            k < j < e ==> #[trigger] body[j] != '.' && body[j] != '/',
{
    law_tag_words(body, k, n);
    characters::law_runs(body, k + 1, e, Class::Solid);
    let s = body.skip(k + 1);
    let token = s.take(e - k - 1);
    assert forall|j: int| 0 <= j < token.len() implies #[trigger] token[j] == body[k + 1 + j] by {}
    if linekind::address_like(s) {
        let c = if token.contains('.') {
            '.'
        } else {
            '/'
        };
        let j = choose|j: int| 0 <= j < token.len() && token[j] == c;
        assert(body[k + 1 + j] == c);
    }
    assert forall|j: int| k < j < e && !linekind::address_like(s) implies #[trigger] body[j] != '.'
        && body[j] != '/' by {
        assert(token[j - k - 1] == body[j]);
    }
}

proof fn lemma_named_tags()
    ensures
        "param"@.len() == 5 && "tparam"@.len() == 6 && "retval"@.len() == 6 && "throws"@.len() == 6
            && "throw"@.len() == 5 && "exception"@.len() == 9,
        "param"@[0] == 'p' && "tparam"@[0] == 't' && "retval"@[0] == 'r' && "throws"@[0] == 't'
            && "throw"@[0] == 't' && "exception"@[0] == 'e',
        "param"@[1] == 'a' && "tparam"@[1] == 'p' && "retval"@[1] == 'e' && "throws"@[1] == 'h'
            && "throw"@[1] == 'h' && "exception"@[1] == 'x',
        "retval"@[5] == 'l',
{
    reveal_strlit("param");
    reveal_strlit("tparam");
    reveal_strlit("retval");
    reveal_strlit("throws");
    reveal_strlit("throw");
    reveal_strlit("exception");
}

/// The tags that take a name.
pub proof fn law_named_tags(k: Seq<char>)
    ensures
        linekind::tag_shape(k) == Some(TagShape::Named) <==> {
            ||| k == "param"@
            ||| k == "tparam"@
            ||| k == "retval"@
            ||| k == "throws"@
            ||| k == "throw"@
            ||| k == "exception"@
        },
{
}

/// The tags that take a description only.
pub proof fn law_plain_tags(k: Seq<char>)
    ensures
        linekind::tag_shape(k) == Some(TagShape::Plain) <==> {
            ||| k == "brief"@
            ||| k == "return"@
            ||| k == "returns"@
            ||| k == "note"@
            ||| k == "warning"@
            ||| k == "see"@
            ||| k == "sa"@
            ||| k == "pre"@
            ||| k == "post"@
            ||| k == "since"@
            ||| k == "deprecated"@
            ||| k == "details"@
            ||| k == "short"@
            ||| k == "author"@
            ||| k == "date"@
            ||| k == "version"@
            ||| k == "copyright"@
            ||| k == "file"@
            ||| k == "ingroup"@
            ||| k == "defgroup"@
            ||| k == "addtogroup"@
        },
{
    lemma_named_tags();
    reveal_strlit("brief");
    reveal_strlit("return");
    reveal_strlit("returns");
    reveal_strlit("note");
    reveal_strlit("warning");
    reveal_strlit("see");
    reveal_strlit("sa");
    reveal_strlit("pre");
    reveal_strlit("post");
    reveal_strlit("since");
    reveal_strlit("deprecated");
    reveal_strlit("details");
    reveal_strlit("short");
    reveal_strlit("author");
    reveal_strlit("date");
    reveal_strlit("version");
    reveal_strlit("copyright");
    reveal_strlit("file");
    reveal_strlit("ingroup");
    reveal_strlit("defgroup");
    reveal_strlit("addtogroup");
}

/// The tags around verbatim text.
pub proof fn law_verbatim_tags(k: Seq<char>)
    ensures
        linekind::tag_shape(k) == Some(TagShape::VerbatimOpen) <==> k == "code"@ || k
            == "verbatim"@,
        linekind::tag_shape(k) == Some(TagShape::VerbatimClose) <==> k == "endcode"@ || k
            == "endverbatim"@,
{
    lemma_named_tags();
    reveal_strlit("code");
    reveal_strlit("verbatim");
    reveal_strlit("endcode");
    reveal_strlit("endverbatim");
    reveal_strlit("brief");
    reveal_strlit("return");
    reveal_strlit("returns");
    reveal_strlit("note");
    reveal_strlit("warning");
    reveal_strlit("see");
    reveal_strlit("sa");
    reveal_strlit("pre");
    reveal_strlit("post");
    reveal_strlit("since");
    reveal_strlit("deprecated");
    reveal_strlit("details");
    reveal_strlit("short");
    reveal_strlit("author");
    reveal_strlit("date");
    reveal_strlit("version");
    reveal_strlit("copyright");
    reveal_strlit("file");
    reveal_strlit("ingroup");
    reveal_strlit("defgroup");
    reveal_strlit("addtogroup");
    assert("code"@[0] == 'c' && "verbatim"@[0] == 'v' && "endcode"@[0] == 'e');
    assert("note"@[0] == 'n' && "post"@[0] == 'p' && "date"@[0] == 'd' && "file"@[0] == 'f');
    assert("returns"@[0] == 'r' && "warning"@[0] == 'w' && "details"@[0] == 'd' && "version"@[0]
        == 'v' && "ingroup"@[0] == 'i' && "defgroup"@[0] == 'd');
    assert("code"@.len() == 4 && "verbatim"@.len() == 8 && "endcode"@.len() == 7
        && "endverbatim"@.len() == 11);
    if k == "code"@ {
        assert(!linekind::is_named_tag(k));
        assert(!linekind::is_plain_tag(k));
    }
    if k == "verbatim"@ {
        assert(!linekind::is_named_tag(k));
        assert(!linekind::is_plain_tag(k));
    }
    if k == "endcode"@ {
        assert(!linekind::is_named_tag(k));
        assert(!linekind::is_plain_tag(k));
        assert(k != "code"@ && k != "verbatim"@);
    }
    if k == "endverbatim"@ {
        assert(!linekind::is_named_tag(k));
        assert(!linekind::is_plain_tag(k));
        assert(k != "code"@ && k != "verbatim"@);
    }
}

} // verus!
