//! What the comment extractor hands on: the language of a source and the
//! comments found in it.

use vstd::prelude::*;
use vstd::utf8::*;

use crate::offsets;
use crate::text;

verus! {

broadcast use vstd::string::group_string_axioms;

/// A source language.
#[derive(Debug, Clone, Copy, PartialEq, Eq, Structural)]
pub enum Language {
    C,
    Cpp,
    Rust,
    Shell,
    Asm,
}

/// Where a comment that drifted away from its parameter is to be inserted.
#[derive(Debug, Clone, Copy, PartialEq, Eq, Structural)]
pub struct ParamShift {
    pub insert_at: usize,
}

/// One comment of a source file. A run of standalone "//" lines is one comment
/// whose text holds the line breaks between them.
#[derive(Debug, Clone)]
pub struct Comment {
    /// The byte range the comment occupies.
    pub start_byte: usize,
    pub end_byte: usize,
    /// What stands in that range.
    pub text: String,
    /// Code precedes the comment on its line.
    pub is_trailing: bool,
    /// The comment is to be left alone.
    pub force_passthrough: bool,
    /// Nothing precedes the comment in the file.
    pub at_file_start: bool,
    /// The white space in front of the comment on its line.
    pub line_indent_bytes: String,
    /// The line ending that follows the comment.
    pub fallback_ending: String,
    /// Where the comment may be moved to, in front of what it documents.
    pub relocate_before: Option<usize>,
    /// Where the comment may be moved to, beside its parameter.
    pub param_shift: Option<ParamShift>,
}

/// What holds of the comments extracted from a source: they can be cut out of
/// it, hold what stands there, and come in order without overlap.
pub open spec fn extracted(comments: Seq<Comment>, source: Seq<char>) -> bool {
    &&& forall|i: int|
        #![trigger comments[i]]
        0 <= i < comments.len() ==> {
            let c = comments[i];
            &&& offsets::sliceable(encode_utf8(source), c.start_byte as int, c.end_byte as int)
            &&& c.start_byte < c.end_byte
            &&& c.text@ == offsets::slice(source, c.start_byte as int, c.end_byte as int)
        }
    &&& forall|i: int, j: int|
        #![trigger comments[i], comments[j]]
        0 <= i < j < comments.len() ==> comments[i].end_byte <= comments[j].start_byte
}

/// A character without its case, where it is an ASCII letter.
pub open spec fn lower(c: char) -> char {
    if 'A' <= c <= 'Z' {
        (c as int + 32) as char
    } else {
        c
    }
}

/// A text without the case of its ASCII letters.
pub open spec fn lower_text(s: Seq<char>) -> Seq<char> {
    s.map_values(|c: char| lower(c))
}

fn lowered(s: &[char]) -> (out: Vec<char>)
    ensures
        out@ == lower_text(s@),
{
    let mut out: Vec<char> = Vec::new();
    let mut i: usize = 0;
    while i < s.len()
        invariant
            i <= s@.len(),
            out@ == lower_text(s@.take(i as int)),
        decreases s@.len() - i,
    {
        let c = s[i];
        let d = if 'A' <= c && c <= 'Z' {
            ((c as u8) + 32) as char
        } else {
            c
        };
        out.push(d);
        proof {
            assert(lower_text(s@.take(i + 1)) =~= lower_text(s@.take(i as int)).push(lower(c)));
        }
        i = i + 1;
    }
    assert(s@.take(i as int) =~= s@);
    out
}

/// The language that a lower-case file extension stands for.
pub open spec fn language_of(ext: Seq<char>) -> Option<Language> {
    if ext == "c"@ || ext == "h"@ || ext == "m"@ {
        Some(Language::C)
    } else if ext == "cc"@ || ext == "cpp"@ || ext == "cxx"@ || ext == "c++"@ || ext == "hh"@ || ext
        == "hpp"@ || ext == "hxx"@ || ext == "h++"@ || ext == "mm"@ {
        Some(Language::Cpp)
    } else if ext == "rs"@ {
        Some(Language::Rust)
    } else if ext == "sh"@ || ext == "bash"@ {
        Some(Language::Shell)
    } else if ext == "s"@ {
        Some(Language::Asm)
    } else {
        None
    }
}

/// Tells the language of a file by its extension, whatever the case.
pub fn detect_language(ext: &str) -> (r: Option<Language>)
    ensures
        r == language_of(lower_text(ext@)),
{
    let e = text::chars_of(ext);
    let e = lowered(e.as_slice());
    let e = e.as_slice();
    if text::same_str(e, "c") || text::same_str(e, "h") || text::same_str(e, "m") {
        Some(Language::C)
    } else if text::same_str(e, "cc") || text::same_str(e, "cpp") || text::same_str(e, "cxx")
        || text::same_str(e, "c++") || text::same_str(e, "hh") || text::same_str(e, "hpp")
        || text::same_str(e, "hxx") || text::same_str(e, "h++") || text::same_str(e, "mm") {
        Some(Language::Cpp)
    } else if text::same_str(e, "rs") {
        Some(Language::Rust)
    } else if text::same_str(e, "sh") || text::same_str(e, "bash") {
        Some(Language::Shell)
    } else if text::same_str(e, "s") {
        Some(Language::Asm)
    } else {
        None
    }
}

/// Extensions that differ in case only stand for the same language.
pub proof fn law_extension_case_is_ignored(a: Seq<char>, b: Seq<char>)
    requires
        lower_text(a) == lower_text(b),
    ensures
        language_of(lower_text(a)) == language_of(lower_text(b)),
        lower_text(lower_text(a)) == lower_text(a),
{
    assert(lower_text(lower_text(a)) =~= lower_text(a));
}

} // verus!
