use commentflow::convert::{
    build_block, conversion_pass, converts, is_plain_line, line_run_replacements, to_blocks,
};
use commentflow::parse::{Comment, Language};
use commentflow::rewrite::{apply, Replacement, RewriteError};

/// The comment that "text" is in "source", standing on lines of its own.
fn standing(source: &str, text: &str) -> Comment {
    let start_byte = source.find(text).unwrap();
    let end_byte = start_byte + text.len();
    let line_start = source[..start_byte].rfind('\n').map_or(0, |i| i + 1);
    let fallback = if source[end_byte..].starts_with("\r\n") { "\r\n" } else { "\n" };
    Comment {
        start_byte,
        end_byte,
        text: text.to_string(),
        is_trailing: false,
        force_passthrough: false,
        at_file_start: start_byte == 0,
        line_indent_bytes: source[line_start..start_byte].to_string(),
        fallback_ending: fallback.to_string(),
        relocate_before: None,
        param_shift: None,
    }
}

fn convert(source: &str, lang: Language, comments: &[Comment]) -> String {
    apply(source, &line_run_replacements(source, lang, comments).unwrap())
}

#[test]
fn multiline_run_becomes_block() {
    let src = "int a;\n// first line of a longer thought\n// second line of the same thought\nint b;\n";
    let run = "// first line of a longer thought\n// second line of the same thought";
    let out = convert(src, Language::C, &[standing(src, run)]);
    assert!(out.contains("/*"), "must convert, got:\n{out}");
    assert!(!out.contains("//"), "no // should remain, got:\n{out}");
}

#[test]
fn trailing_comment_stays() {
    let src = "int a; // trailing stays\nint b;\n";
    let mut c = standing(src, "// trailing stays");
    c.is_trailing = true;
    let out = convert(src, Language::C, &[c]);
    assert_eq!(out, src, "trailing // must not convert, got:\n{out}");
}

#[test]
fn acsl_line_annotation_is_not_converted() {
    let src = "int a;\n//@ assert a >= 0;\nint b;\n";
    let mut c = standing(src, "//@ assert a >= 0;");
    c.force_passthrough = true;
    let out = convert(src, Language::C, &[c]);
    assert_eq!(out, src, "Frama-C ACSL must stay a line annotation");
}

#[test]
fn rust_open_marker_is_not_converted() {
    // "/*" opens a NESTED block in Rust; wrapping would leave the outer block
    // unterminated. Must stay a // comment.
    let src = "// discuss the /* opener token here\n// and more text in the run\nfn f() {}\n";
    let run = "// discuss the /* opener token here\n// and more text in the run";
    let out = convert(src, Language::Rust, &[standing(src, run)]);
    assert!(out.contains("// discuss"), "must stay a // comment, got:\n{out}");
    assert!(!out.contains("*/"), "must not synthesize a block closer, got:\n{out}");
}

#[test]
fn doc_comments_untouched() {
    let src = "/// doc line one of a run\n/// doc line two of a run\nfn f() {}\n";
    let run = "/// doc line one of a run\n/// doc line two of a run";
    let out = convert(src, Language::Rust, &[standing(src, run)]);
    assert_eq!(out, src, "/// runs must stay doc comments, got:\n{out}");
}

#[test]
fn unsafe_close_marker_is_not_converted() {
    // A "*/" in the body would close the block early.
    let src = "int a;\n// see foo */ bar\n// and more text here\nint b;\n";
    let run = "// see foo */ bar\n// and more text here";
    let out = convert(src, Language::C, &[standing(src, run)]);
    assert!(!out.contains("/*"), "must not create a block, got:\n{out}");
    assert!(out.contains("//"), "must stay a // comment, got:\n{out}");
}

#[test]
fn comment_in_string_is_not_touched() {
    let src = "const char *s = \"http://example.com\";\n// real comment one of two\n// real comment two of two\n";
    let run = "// real comment one of two\n// real comment two of two";
    let out = convert(src, Language::C, &[standing(src, run)]);
    assert!(out.contains("\"http://example.com\""), "URL in string preserved");
}

#[test]
fn shell_and_asm_yield_no_replacements() {
    let src = "# a shell comment\nx=0\n";
    assert!(line_run_replacements(src, Language::Shell, &[standing(src, "# a shell comment")])
        .unwrap()
        .is_empty());
    let blocks = "/* a block */\n	mov r0, r1\n";
    assert!(line_run_replacements(blocks, Language::Asm, &[standing(blocks, "/* a block */")])
        .unwrap()
        .is_empty());
    // Not even where a comment would qualify.
    let line = "// x\n";
    assert!(line_run_replacements(line, Language::Asm, &[standing(line, "// x")])
        .unwrap()
        .is_empty());
}

#[test]
fn file_start_spdx_run_is_not_converted() {
    let src = "// SPDX-License-Identifier: GPL-2.0\n// Copyright (C) 2026 Example Corp.\n//\n// Driver for the example device.\nint f(void) { return 0; }\n";
    let run = "// SPDX-License-Identifier: GPL-2.0\n// Copyright (C) 2026 Example Corp.\n//\n// Driver for the example device.";
    let out = convert(src, Language::C, &[standing(src, run)]);
    assert!(
        out.starts_with("// SPDX-License-Identifier: GPL-2.0\n"),
        "the tag must stay on line 1 in // form, got:\n{out}"
    );
}

#[test]
fn single_line_crlf_run_keeps_crlf_when_it_stays_multiline() {
    // No interior newline to vote on, so the ending has to come from the
    // comment's surroundings.
    let src = "int a;\r\n// this is a very long standalone single line comment that certainly exceeds the eighty column limit\r\nint b;\r\n";
    let run = "// this is a very long standalone single line comment that certainly exceeds the eighty column limit\r";
    let out = convert(src, Language::C, &[standing(src, run)]);
    assert!(out.contains("/*"), "must convert, got:\n{out}");
    assert!(
        !out.replace("\r\n", "").contains('\n'),
        "no bare LF may survive in a CRLF file, got:\n{out:?}"
    );
}

#[test]
fn the_block_is_exact() {
    let src = "int a;\n  //\n  // one  \n  //two\n  //\n  //   three\n  //\nint b;\n";
    let run = "//\n  // one  \n  //two\n  //\n  //   three\n  //";
    assert_eq!(
        convert(src, Language::C, &[standing(src, run)]),
        "int a;\n  /*\n   * one\n   * two\n   *\n   *   three\n   */\nint b;\n"
    );
}

#[test]
fn a_run_of_empty_lines_stays() {
    let src = "//\n//\n//\nint a;\n";
    assert!(build_block(&standing(src, "//\n//\n//")).is_none());
    assert_eq!(convert(src, Language::C, &[standing(src, "//\n//\n//")]), src);
}

#[test]
fn the_majority_of_line_endings_wins() {
    let ending = |text: &str| {
        let r = build_block(&standing(text, text)).unwrap();
        r.text.contains("\r\n")
    };
    assert!(ending("// a\r\n// b"));
    assert!(!ending("// a\n// b"));
    assert!(ending("// a\r\n// b\n// c"));
    assert!(!ending("// a\r\n// b\n// c\n// d"));
    assert!(!ending("// a"));
}

#[test]
fn the_carriage_return_of_a_split_ending_stays_outside() {
    let src = "// a\r\nint b;\r\n";
    let c = standing(src, "// a\r");
    let r = build_block(&c).unwrap();
    assert_eq!((r.start, r.end), (0, 4));
    assert_eq!(apply(src, &[r]), "/*\r\n * a\r\n */\r\nint b;\r\n");
}

#[test]
fn only_plain_lines_qualify() {
    let src = "// x";
    let plain = standing(src, src);
    assert!(is_plain_line(&plain));
    assert!(!is_plain_line(&Comment { is_trailing: true, ..plain.clone() }));
    assert!(!is_plain_line(&Comment { force_passthrough: true, ..plain.clone() }));
    for text in ["/// x", "//! x", "/* x */", "# x"] {
        assert!(!is_plain_line(&Comment { text: text.to_string(), ..plain.clone() }));
    }
    let spdx = "// SPDX-License-Identifier: MIT\n// x";
    assert!(!is_plain_line(&Comment { text: spdx.to_string(), ..plain.clone() }));
    assert!(is_plain_line(&Comment {
        text: spdx.to_string(),
        at_file_start: false,
        ..plain.clone()
    }));
    let second = "// x\n// SPDX-License-Identifier: MIT";
    assert!(is_plain_line(&Comment { text: second.to_string(), ..plain }));
}

#[test]
fn a_comment_outside_the_source_is_refused() {
    let c = Comment { end_byte: 40, ..standing("// x", "// x") };
    let e = line_run_replacements("// x", Language::C, &[c]).unwrap_err();
    assert_eq!(e, RewriteError::PastEnd);
}

#[test]
fn each_run_becomes_its_own_block() {
    let src = "// a\nint x;\n// b\n";
    let comments = [standing(src, "// a"), standing(src, "// b")];
    let plan: Vec<Replacement> = line_run_replacements(src, Language::Cpp, &comments).unwrap();
    assert_eq!(plan.len(), 2);
    assert_eq!(apply(src, &plan), "/*\n * a\n */\nint x;\n/*\n * b\n */\n");
}

#[test]
fn the_pass_hands_on_its_plan() {
    let src = "int x;\n// b\n";
    let (out, plan) = to_blocks(src, Language::C, &[standing(src, "// b")]).unwrap();
    assert_eq!(out, "int x;\n/*\n * b\n */\n");
    assert_eq!((plan.len(), plan[0].start, plan[0].end), (1, 7, 11));
    let (out, plan) = to_blocks(src, Language::Shell, &[standing(src, "// b")]).unwrap();
    assert_eq!((out.as_str(), plan.len()), (src, 0));
    let (out, plan) = to_blocks(src, Language::C, &[]).unwrap();
    assert_eq!((out.as_str(), plan.len()), (src, 0));
    let c = Comment { end_byte: 40, ..standing(src, "// b") };
    assert_eq!(to_blocks(src, Language::C, &[c]).err(), Some(RewriteError::PastEnd));
}

#[test]
fn only_languages_with_line_comments_convert() {
    for lang in [Language::C, Language::Cpp, Language::Rust] {
        assert!(converts(lang));
    }
    assert!(!converts(Language::Shell) && !converts(Language::Asm));
}

#[test]
fn nothing_converts_unless_asked() {
    let src = "int x;\n// b\n";
    let comments = [standing(src, "// b")];
    let (out, plan) = conversion_pass(false, src, Language::C, &comments).unwrap();
    assert_eq!((out.as_str(), plan.len()), (src, 0));
    let (out, plan) = conversion_pass(true, src, Language::C, &comments).unwrap();
    assert_eq!((out.as_str(), plan.len()), ("int x;\n/*\n * b\n */\n", 1));
    let (out, plan) = conversion_pass(true, src, Language::Asm, &comments).unwrap();
    assert_eq!((out.as_str(), plan.len()), (src, 0));

    // A faulty comment matters only when it would be converted.
    let faulty = [Comment { end_byte: 40, ..standing(src, "// b") }];
    assert!(conversion_pass(false, src, Language::C, &faulty).is_ok());
    assert_eq!(
        conversion_pass(true, src, Language::C, &faulty).err(),
        Some(RewriteError::PastEnd)
    );
}

#[test]
fn comments_that_stay_need_no_room_for_a_carriage_return() {
    let src = "x\r\n";
    let stay = Comment {
        start_byte: 0,
        end_byte: 0,
        text: "/* x */\r".to_string(),
        ..standing(src, "x")
    };
    assert!(line_run_replacements(src, Language::C, &[stay.clone()]).unwrap().is_empty());
    let empty = Comment { text: "//\r".to_string(), ..stay };
    assert!(line_run_replacements(src, Language::C, &[empty]).unwrap().is_empty());
}

#[test]
fn a_block_with_bare_newlines_holds_no_crlf() {
    let text = "// a\r\n// b\n// c\r\r\n// d\n// e\n// f";
    let block = build_block(&standing(text, text)).unwrap().text;
    assert!(!block.contains("\r\n"), "{block:?}");
    assert!(block.contains("\n * f\n"));
}
