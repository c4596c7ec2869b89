//! What a comment's own bytes spell out: its form, and the documentation
//! convention it follows.

use vstd::prelude::*;

use crate::parse::Language;
use crate::text;
use crate::textline;

verus! {

broadcast use vstd::string::group_string_axioms;

/// Which comment form the source used. Nothing turns one style into another but
/// the opt-in conversion of "//" runs to blocks.
#[derive(Debug, Clone, Copy, PartialEq, Eq, Structural)]
pub enum Style {
    /// "//" or a shell "#" run.
    Line,
    /// "/* ... */".
    Block,
    /// "///" or "//!".
    DocLine,
    /// "/** ... */" or "/*! ... */".
    DocBlock,
}

/// Which documentation convention a doc comment follows. Taken from the source
/// language, not from the marker: a "///" in C++ carries Doxygen tag semantics
/// while the same marker in Rust honors Rustdoc markdown sections.
#[derive(Debug, Clone, Copy, PartialEq, Eq, Structural)]
pub enum DocFlavor {
    Doxygen,
    Rustdoc,
    /// Shell, which has no doc-comment convention: prose only.
    Plain,
}

/// A comment's style and flavor.
#[derive(Debug, Clone, Copy, PartialEq, Eq, Structural)]
pub struct Kind {
    pub style: Style,
    pub flavor: DocFlavor,
}

/// The style that a comment's text spells out.
pub open spec fn style_of(t: Seq<char>) -> Style {
    if text::starts_with(t, "///"@) || text::starts_with(t, "//!"@) {
        Style::DocLine
    } else if text::starts_with(t, "//"@) {
        Style::Line
    } else if textline::doc_block(t) {
        Style::DocBlock
    } else if text::starts_with(t, "/*"@) {
        Style::Block
    } else {
        Style::Line
    }
}

/// The documentation convention of a comment of one style in one language.
pub open spec fn flavor_of(style: Style, lang: Language) -> DocFlavor {
    if style == Style::DocLine || style == Style::DocBlock {
        if lang == Language::Rust {
            DocFlavor::Rustdoc
        } else {
            DocFlavor::Doxygen
        }
    } else {
        DocFlavor::Plain
    }
}

/// Classifies a comment by its text and the language it stands in.
pub fn classify(comment: &str, lang: Language) -> (k: Kind)
    ensures
        k.style == style_of(comment@),
        k.flavor == flavor_of(style_of(comment@), lang),
{
    let style = classify_style(comment);
    let flavor = match style {
        Style::DocLine | Style::DocBlock => match lang {
            Language::Rust => DocFlavor::Rustdoc,
            _ => DocFlavor::Doxygen,
        },
        _ => DocFlavor::Plain,
    };
    Kind { style, flavor }
}

/// Tells the style of a comment.
pub fn classify_style(comment: &str) -> (s: Style)
    ensures
        s == style_of(comment@),
{
    let t = text::chars_of(comment);
    let t = t.as_slice();
    if text::begins(t, "///") || text::begins(t, "//!") {
        Style::DocLine
    } else if text::begins(t, "//") {
        Style::Line
    } else if textline::block_is_doc(t) {
        Style::DocBlock
    } else if text::begins(t, "/*") {
        Style::Block
    } else {
        Style::Line
    }
}

/// Only a doc comment has a flavor, and the language alone decides which.
pub proof fn law_flavor_follows_the_language(t: Seq<char>, u: Seq<char>, lang: Language)
    ensures
        flavor_of(style_of(t), lang) == DocFlavor::Plain <==> style_of(t) == Style::Line || style_of(t)
            == Style::Block,
        flavor_of(style_of(t), lang) != DocFlavor::Plain && flavor_of(style_of(u), lang)
            != DocFlavor::Plain ==> flavor_of(style_of(t), lang) == flavor_of(style_of(u), lang),
{
}

/// A comment that opens with a slash and a star is a block of one kind or the
/// other, and no other comment is.
pub proof fn law_blocks_open_with_a_star(t: Seq<char>)
    ensures
        text::starts_with(t, "/*"@) <==> style_of(t) == Style::Block || style_of(t)
            == Style::DocBlock,
{
    reveal_strlit("/*");
    reveal_strlit("//");
    reveal_strlit("/**");
    reveal_strlit("/*!");
    reveal_strlit("///");
    reveal_strlit("//!");
    assert("/*"@ =~= seq!['/', '*']);
    assert("//"@ =~= seq!['/', '/']);
    text::lemma_pair_at(t, '/', '*', 0);
    text::lemma_pair_at(t, '/', '/', 0);
    lemma_third(t, "/**"@);
    lemma_third(t, "/*!"@);
    lemma_third(t, "///"@);
    lemma_third(t, "//!"@);
}

/// A text that opens with three characters has them in its first three places.
proof fn lemma_third(t: Seq<char>, p: Seq<char>)
    requires
        p.len() == 3,
    ensures
        text::starts_with(t, p) ==> t.len() >= 3 && t[0] == p[0] && t[1] == p[1] && t[2] == p[2],
{
    if text::starts_with(t, p) {
        let h = t.subrange(0, 3);
        assert(h[0] == t[0] && h[1] == t[1] && h[2] == t[2]);
    }
}

} // verus!
