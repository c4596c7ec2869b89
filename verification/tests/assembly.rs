use commentflow::assembly::{comments, opens_line_comment, opens_line_comment_at, scan};
use commentflow::parse::{detect_language, Language};
use commentflow::rewrite::{apply_checked, Replacement};
use std::path::Path;

fn spans(src: &str) -> Vec<&str> {
    scan(src).into_iter().map(|(s, e)| &src[s..e]).collect()
}

#[test]
fn finds_block_comments() {
    assert_eq!(
        spans("/* header */\n\tmov %eax, %ebx\t/* trailing */\n"),
        ["/* header */", "/* trailing */"]
    );
    assert_eq!(
        spans("/*\n * multi\n * line\n */\nnop\n"),
        ["/*\n * multi\n * line\n */"]
    );
}

#[test]
fn skips_strings_and_char_constants() {
    assert_eq!(
        spans(".ascii \"/* not a comment */\"\n"),
        Vec::<&str>::new()
    );
    assert_eq!(spans(".ascii \"esc \\\" /* no */\"\n"), Vec::<&str>::new());

    // An apostrophe followed by a double quote is a char constant, not the
    // start of a string: a scanner that got this wrong would swallow the
    // real comment that follows.
    assert_eq!(spans(".byte '\"\n/* real */\n"), ["/* real */"]);
    assert_eq!(spans(".byte '\\'\n/* real */\n"), ["/* real */"]);
}

#[test]
fn skips_after_target_specific_line_comment_chars() {
    // "#" is a comment on x86 and an immediate on ARM; either way the rest
    // of the line is not ours.
    assert_eq!(spans("# note /* not mine */\n/* mine */\n"), ["/* mine */"]);
    assert_eq!(spans("@ arm comment /* not mine */\n"), Vec::<&str>::new());
    assert_eq!(spans("mov r0, #1 /* not mine */\n"), Vec::<&str>::new());
    assert_eq!(spans("// aarch64 /* not mine */\n"), Vec::<&str>::new());
    assert_eq!(
        spans(".section .note,\"a\",@progbits\n/* mine */\n"),
        ["/* mine */"]
    );
}

#[test]
fn a_comment_opened_on_a_skipped_line_is_consumed_whole() {
    // "#" abandons line 1, but the "/*" on it opens a comment whose body
    // runs on below. Resuming inside that body would claim the stray "/*"
    // in its prose and reflow a fragment of someone else's comment.
    let src = "\tmov r0, #1 /* set r0 to one\n/* stray opener in the prose\n */\n\tret\n";
    assert_eq!(spans(src), Vec::<&str>::new());

    // The same shape, but the comment closes on its own line: nothing to
    // consume, and the next real comment is still found.
    assert_eq!(
        spans("\tmov r0, #1 /* one */\n/* mine */\n"),
        ["/* mine */"]
    );
}

#[test]
fn unterminated_block_emits_nothing() {
    assert_eq!(spans("nop\n/* runs off the end\n"), Vec::<&str>::new());
}

#[test]
fn non_ascii_bytes_do_not_split_spans() {
    let src = "/* café */\n.ascii \"naïve\"\n/* two */\n";
    assert_eq!(spans(src), ["/* café */", "/* two */"]);
}

#[test]
fn multibyte_char_constant_does_not_panic() {
    // The "'x" skip is byte-counted, so it can land mid-UTF-8. Every
    // continuation byte is >= 0x80 and falls through to the plain advance,
    // so no slice is ever taken off a char boundary.
    assert_eq!(spans(".byte 'é\n/* real */\n"), ["/* real */"]);
    assert_eq!(spans(".ascii \"\\é\"\n/* real */\n"), ["/* real */"]);
}

#[test]
fn detects_both_extensions() {
    for p in ["entry.s", "entry.S", "arch/arm/kernel/head.S"] {
        let ext = Path::new(p).extension().and_then(|e| e.to_str()).unwrap();
        assert_eq!(detect_language(ext).unwrap(), Language::Asm, "{p}");
    }
}

#[test]
fn every_listed_extension_has_its_language() {
    for ext in ["c", "h", "m", "C", "H"] {
        assert_eq!(detect_language(ext), Some(Language::C), "{ext}");
    }
    for ext in ["cc", "cpp", "cxx", "c++", "hh", "hpp", "hxx", "h++", "mm", "CPP", "HxX"] {
        assert_eq!(detect_language(ext), Some(Language::Cpp), "{ext}");
    }
    assert_eq!(detect_language("rs"), Some(Language::Rust));
    assert_eq!(detect_language("sh"), Some(Language::Shell));
    assert_eq!(detect_language("bash"), Some(Language::Shell));
    for ext in ["", "py", "cs", "ss", "c ", "\u{212a}"] {
        assert_eq!(detect_language(ext), None, "{ext}");
    }
}

#[test]
fn line_comment_characters_are_told_apart_from_code() {
    for line in ["# x86", "\t@ arm", "; sparc", "! writeback", "// aarch64"] {
        assert!(opens_line_comment_at(line), "{line}");
    }
    for line in ["", "mov r0, #1", "/* block */", "/ one slash"] {
        assert!(!opens_line_comment_at(line), "{line}");
    }
    assert!(opens_line_comment(b"a # b", 2));
    assert!(!opens_line_comment(b"a # b", 0));
    assert!(opens_line_comment(b"a // b", 2));
    assert!(!opens_line_comment(b"a /", 2));
}

#[test]
fn spans_are_in_order_and_closed() {
    let src = "/* a */ nop /* b */\n/* c\n */\n";
    let found = scan(src);
    assert_eq!(found, [(0, 7), (12, 19), (20, 28)]);
    for (s, e) in found {
        assert!(src[s..e].starts_with("/*") && src[s..e].ends_with("*/"));
    }
}

#[test]
fn scanned_comments_can_be_rewritten_and_nothing_else() {
    let src = "/* é */ mov r0, r1 /* two */\n";
    let comments = comments(src);
    let plan: Vec<Replacement> = comments
        .iter()
        .map(|c| Replacement { start: c.start_byte, end: c.end_byte, text: "/* x */".to_string() })
        .collect();
    assert_eq!(apply_checked(src, &plan, &comments).unwrap(), "/* x */ mov r0, r1 /* x */\n");
    let wide = [Replacement { start: 0, end: src.len(), text: String::new() }];
    assert!(apply_checked(src, &wide, &comments).is_err());
}

#[test]
fn comments_know_their_line() {
    let src = "/* é */\r\n\tnop /* b */\n  /* c */ nop\r";
    let found = comments(src);
    let texts: Vec<&str> = found.iter().map(|c| c.text.as_str()).collect();
    assert_eq!(texts, ["/* é */", "/* b */", "/* c */"]);
    let trailing: Vec<bool> = found.iter().map(|c| c.is_trailing).collect();
    assert_eq!(trailing, [false, true, false]);
    let indents: Vec<&str> = found.iter().map(|c| c.line_indent_bytes.as_str()).collect();
    assert_eq!(indents, ["", "\t", "  "]);
    let endings: Vec<&str> = found.iter().map(|c| c.fallback_ending.as_str()).collect();
    assert_eq!(endings, ["\r\n", "\n", "\n"]);
    let first: Vec<bool> = found.iter().map(|c| c.at_file_start).collect();
    assert_eq!(first, [true, false, false]);
    for c in &found {
        assert_eq!(&src[c.start_byte..c.end_byte], c.text);
        assert!(!c.force_passthrough && c.relocate_before.is_none() && c.param_shift.is_none());
    }
    assert!(comments("nop\n").is_empty());
}
