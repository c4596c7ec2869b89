//! Laws of comment styles, languages and extracted comments.

use vstd::prelude::*;

use super::characters::run_ends;
use crate::assembly;
use crate::classify;
use crate::classify::{DocFlavor, Style};
use crate::convert;
use crate::laws::characters;
use crate::laws::marks;
use crate::offsets;
use crate::parse;
use crate::parse::{Comment, Language};
use crate::text;
use crate::text::Class;
use vstd::utf8::*;

verus! {

broadcast use vstd::string::group_string_axioms;

/// The style of a comment, by its first characters.
pub proof fn law_styles(t: Seq<char>)
    ensures
        t.len() >= 3 && t[0] == '/' && t[1] == '/' && (t[2] == '/' || t[2] == '!') ==> classify::style_of(t)
            == Style::DocLine,
        t.len() >= 2 && t[0] == '/' && t[1] == '/' && (t.len() == 2 || (t[2] != '/' && t[2] != '!'))
            ==> classify::style_of(t) == Style::Line,
        t.len() >= 3 && t[0] == '/' && t[1] == '*' && t[2] == '!' ==> classify::style_of(t)
            == Style::DocBlock,
        t.len() >= 3 && t[0] == '/' && t[1] == '*' && t[2] == '*' && (t.len() == 3 || (t[3] != '*'
            && t[3] != '/')) ==> classify::style_of(t) == Style::DocBlock,
        t.len() > 3 && t[0] == '/' && t[1] == '*' && t[2] == '*' && (t[3] == '*' || t[3] == '/')
            ==> classify::style_of(t) == Style::Block,
        t.len() >= 2 && t[0] == '/' && t[1] == '*' && (t.len() == 2 || (t[2] != '*' && t[2] != '!'))
            ==> classify::style_of(t) == Style::Block,
        t.len() < 2 || t[0] != '/' || (t[1] != '/' && t[1] != '*') ==> classify::style_of(t)
            == Style::Line,
{
    marks::law_doc_blocks(t);
    reveal_strlit("//");
    reveal_strlit("/*");
    reveal_strlit("///");
    reveal_strlit("//!");
    let a = seq!['/', '/', '/'];
    let b = seq!['/', '/', '!'];
    assert("//"@ =~= seq!['/', '/']);
    assert("/*"@ =~= seq!['/', '*']);
    assert("///"@ =~= a);
    assert("//!"@ =~= b);
    text::lemma_pair_at(t, '/', '/', 0);
    text::lemma_pair_at(t, '/', '*', 0);
    characters::law_stands_at(t, a, 0);
    characters::law_stands_at(t, b, 0);
    if text::stands_at(t, a, 0) {
        assert(a[0] == t[0] && a[1] == t[1] && a[2] == t[2]);
    }
    if text::stands_at(t, b, 0) {
        assert(b[0] == t[0] && b[1] == t[1] && b[2] == t[2]);
    }
}

/// Documentation comments follow the convention of their language, and no other
/// comment has one.
pub proof fn law_flavors(lang: Language)
    ensures
        classify::flavor_of(Style::Line, lang) == DocFlavor::Plain,
        classify::flavor_of(Style::Block, lang) == DocFlavor::Plain,
        lang == Language::Rust ==> classify::flavor_of(Style::DocLine, lang) == DocFlavor::Rustdoc,
        lang == Language::Rust ==> classify::flavor_of(Style::DocBlock, lang) == DocFlavor::Rustdoc,
        lang != Language::Rust ==> classify::flavor_of(Style::DocLine, lang) == DocFlavor::Doxygen,
        lang != Language::Rust ==> classify::flavor_of(Style::DocBlock, lang) == DocFlavor::Doxygen,
{
}

/// The languages with line comments of two slashes.
pub proof fn law_slash_comments()
    ensures
        convert::has_line_comments(Language::C),
        convert::has_line_comments(Language::Cpp),
        convert::has_line_comments(Language::Rust),
        !convert::has_line_comments(Language::Shell),
        !convert::has_line_comments(Language::Asm),
{
}

/// The extensions of the languages.
pub proof fn law_extensions(ext: Seq<char>)
    ensures
        parse::language_of(ext) == Some(Language::C) <==> ext == "c"@ || ext == "h"@ || ext == "m"@,
        parse::language_of(ext) == Some(Language::Cpp) <==> {
            ||| ext == "cc"@
            ||| ext == "cpp"@
            ||| ext == "cxx"@
            ||| ext == "c++"@
            ||| ext == "hh"@
            ||| ext == "hpp"@
            ||| ext == "hxx"@
            ||| ext == "h++"@
            ||| ext == "mm"@
        },
        parse::language_of(ext) == Some(Language::Rust) <==> ext == "rs"@,
        parse::language_of(ext) == Some(Language::Shell) <==> ext == "sh"@ || ext == "bash"@,
        parse::language_of(ext) == Some(Language::Asm) <==> ext == "s"@,
{
    reveal_strlit("c");
    reveal_strlit("h");
    reveal_strlit("m");
    reveal_strlit("cc");
    reveal_strlit("cpp");
    reveal_strlit("cxx");
    reveal_strlit("c++");
    reveal_strlit("hh");
    reveal_strlit("hpp");
    reveal_strlit("hxx");
    reveal_strlit("h++");
    reveal_strlit("mm");
    reveal_strlit("rs");
    reveal_strlit("sh");
    reveal_strlit("bash");
    reveal_strlit("s");
    assert("c"@.len() == 1 && "h"@.len() == 1 && "m"@.len() == 1 && "s"@.len() == 1);
    assert("cc"@.len() == 2 && "hh"@.len() == 2 && "mm"@.len() == 2 && "rs"@.len() == 2
        && "sh"@.len() == 2);
    assert("cpp"@.len() == 3 && "cxx"@.len() == 3 && "c++"@.len() == 3 && "hpp"@.len() == 3
        && "hxx"@.len() == 3 && "h++"@.len() == 3);
    assert("bash"@.len() == 4);
    assert("c"@[0] == 'c' && "h"@[0] == 'h' && "m"@[0] == 'm' && "s"@[0] == 's');
    assert("cc"@[0] == 'c' && "hh"@[0] == 'h' && "mm"@[0] == 'm' && "rs"@[0] == 'r' && "sh"@[0]
        == 's');
}

/// The letters of an extension count alike, large or small; every other character
/// counts as it is.
pub proof fn law_lower_case(s: Seq<char>, i: int)
    requires
        0 <= i < s.len(),
    ensures
        parse::lower_text(s).len() == s.len(),
        65 <= s[i] as int <= 90 ==> parse::lower_text(s)[i] as int == s[i] as int + 32,
        !(65 <= s[i] as int <= 90) ==> parse::lower_text(s)[i] == s[i],
{
}

/// What is known of a comment that was found in an assembly source: its range and
/// text, the blanks that indent its line, whether code stands in front of it, and
/// the line ending behind it. "n" is where the line's indentation ends.
pub proof fn law_extracted_comments(c: Comment, source: Seq<char>, start: int, end: int, n: int)
    requires
        assembly::comment_at(c, source, start, end),
        run_ends(
            offsets::slice(source, assembly::line_start(encode_utf8(source), start), start),
            0,
            n,
            Class::Blank,
        ),
    ensures
        ({
            let b = encode_utf8(source);
            let line = offsets::slice(source, assembly::line_start(b, start), start);
            &&& c.start_byte == start && c.end_byte == end
            &&& c.text@ == offsets::slice(source, start, end)
            &&& c.is_trailing <==> exists|j: int|
                0 <= j < line.len() && !text::is_white(#[trigger] line[j])
            &&& c.line_indent_bytes@ == line.take(n)
            &&& c.at_file_start <==> start == 0
            &&& !c.force_passthrough
            &&& c.relocate_before is None && c.param_shift is None
            &&& 0 <= end && end + 1 < b.len() && b[end] == 13 && b[end + 1] == 10
                ==> c.fallback_ending@ == seq!['\r', '\n']
            &&& !(0 <= end && end + 1 < b.len() && b[end] == 13 && b[end + 1] == 10)
                ==> c.fallback_ending@ == seq!['\n']
        }),
{
    let b = encode_utf8(source);
    let line = offsets::slice(source, assembly::line_start(b, start), start);
    characters::law_runs(line, 0, n, Class::Blank);
    text::lemma_pair_at(b, 0x0du8, 0x0au8, end);
    reveal_strlit("\n");
    reveal_strlit("\r\n");
    assert("\n"@ =~= seq!['\n']);
    assert("\r\n"@ =~= seq!['\r', '\n']);
    characters::law_trimming(line);
}

} // verus!
