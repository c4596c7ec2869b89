use commentflow::classify::DocFlavor;
use commentflow::linekind::{
    classify_lines, classify_marked, doxy_keyword, doxy_tag, mark, LineKind, StrippedLine, TagShape,
};

fn stripped(body: &str) -> StrippedLine {
    StrippedLine {
        prefix: " * ".to_string(),
        body: body.to_string(),
        had_crlf: false,
    }
}

/// Classify a whole comment, one string per body line.
fn kinds(bodies: &[&str], flavor: DocFlavor) -> Vec<LineKind> {
    let lines: Vec<StrippedLine> = bodies.iter().map(|b| stripped(b)).collect();
    classify_lines(&lines, flavor, 80)
}

fn classify_one(body: &str, flavor: DocFlavor) -> LineKind {
    let lines = vec![StrippedLine {
        prefix: " * ".to_string(),
        body: body.to_string(),
        had_crlf: false,
    }];
    classify_lines(&lines, flavor, 80)[0]
}

#[test]
fn atx_header_detection() {
    assert_eq!(
        classify_one("# Returns", DocFlavor::Rustdoc),
        LineKind::AtxHeader
    );
    assert_eq!(
        classify_one("## Errors", DocFlavor::Rustdoc),
        LineKind::AtxHeader
    );
    assert_eq!(
        classify_one("###### foo", DocFlavor::Plain),
        LineKind::AtxHeader
    );
    assert_eq!(
        classify_one("####### too many", DocFlavor::Plain),
        LineKind::Prose
    );
    assert_eq!(classify_one("#Returns", DocFlavor::Plain), LineKind::Prose);
}

#[test]
fn blockquote_detection() {
    assert_eq!(
        classify_one("> quoted", DocFlavor::Plain),
        LineKind::Blockquote
    );
    assert_eq!(
        classify_one(">no space", DocFlavor::Plain),
        LineKind::Blockquote
    );
}

#[test]
fn reference_link_detection() {
    assert_eq!(
        classify_one("[foo]: https://example.com", DocFlavor::Plain),
        LineKind::ReferenceLink
    );
}

#[test]
fn fence_open_detection() {
    let lines = vec![
        StrippedLine {
            prefix: " * ".into(),
            body: "```rust,no_run".into(),
            had_crlf: false,
        },
        StrippedLine {
            prefix: " * ".into(),
            body: "let x = 1;".into(),
            had_crlf: false,
        },
        StrippedLine {
            prefix: " * ".into(),
            body: "```".into(),
            had_crlf: false,
        },
    ];
    let k = classify_lines(&lines, DocFlavor::Rustdoc, 80);
    assert_eq!(k[0], LineKind::FenceOpen);
    assert_eq!(k[1], LineKind::FenceContent);
    assert_eq!(k[2], LineKind::FenceClose);
}

#[test]
fn tilde_fence_detection() {
    let lines = vec![
        StrippedLine {
            prefix: " * ".into(),
            body: "~~~".into(),
            had_crlf: false,
        },
        StrippedLine {
            prefix: " * ".into(),
            body: "code".into(),
            had_crlf: false,
        },
        StrippedLine {
            prefix: " * ".into(),
            body: "~~~".into(),
            had_crlf: false,
        },
    ];
    let k = classify_lines(&lines, DocFlavor::Rustdoc, 80);
    assert_eq!(k[0], LineKind::FenceOpen);
    assert_eq!(k[1], LineKind::FenceContent);
    assert_eq!(k[2], LineKind::FenceClose);
}

#[test]
fn fence_inside_hash_not_header() {
    let lines = vec![
        StrippedLine {
            prefix: "/// ".into(),
            body: "```".into(),
            had_crlf: false,
        },
        StrippedLine {
            prefix: "/// ".into(),
            body: "# use foo;".into(),
            had_crlf: false,
        },
        StrippedLine {
            prefix: "/// ".into(),
            body: "```".into(),
            had_crlf: false,
        },
    ];
    let k = classify_lines(&lines, DocFlavor::Rustdoc, 80);
    assert_eq!(k[1], LineKind::FenceContent);
}

#[test]
fn art_detection_with_word_guard() {
    assert_eq!(
        classify_one("when a > b && c < d, return early", DocFlavor::Plain),
        LineKind::Prose
    );
    assert_eq!(
        classify_one("+----+----+", DocFlavor::Plain),
        LineKind::TableRow
    );
}

#[test]
fn unicode_art_passes_box_drawing() {
    assert_eq!(classify_one("┌─┐", DocFlavor::Plain), LineKind::Art);
    assert_eq!(classify_one("┌─┐ │ │ └─┘", DocFlavor::Plain), LineKind::Art);
    assert_eq!(classify_one("█ ▓ ▒ ░", DocFlavor::Plain), LineKind::Art);
}

#[test]
fn unicode_arrow_single_is_prose() {
    assert_eq!(
        classify_one("the symbol arrow means yields", DocFlavor::Plain),
        LineKind::Prose
    );
}

#[test]
fn list_item_detection() {
    assert_eq!(classify_one("- one", DocFlavor::Plain), LineKind::ListItem);
    assert_eq!(classify_one("1. one", DocFlavor::Plain), LineKind::ListItem);
}

#[test]
fn doxygen_tag_recognized() {
    assert_eq!(
        classify_one("@param x foo", DocFlavor::Doxygen),
        LineKind::DoxygenTag
    );
    assert_eq!(
        classify_one("@return value", DocFlavor::Doxygen),
        LineKind::DoxygenTag
    );
    assert_eq!(
        classify_one("@param x foo", DocFlavor::Rustdoc),
        LineKind::Prose
    );
}

#[test]
fn email_at_tag_not_recognized() {
    assert_eq!(
        classify_one("@example.com", DocFlavor::Doxygen),
        LineKind::Prose
    );
    assert_eq!(
        classify_one("@user/repo", DocFlavor::Doxygen),
        LineKind::Prose
    );
}

#[test]
fn art_adjacent_labeled_bookend_classifies_as_art() {
    let lines = vec![
        StrippedLine {
            prefix: " * ".into(),
            body: "----------   diagram   ----------".into(),
            had_crlf: false,
        },
        StrippedLine {
            prefix: " * ".into(),
            body: "|      |".into(),
            had_crlf: false,
        },
    ];
    let k = classify_lines(&lines, DocFlavor::Plain, 80);
    assert_eq!(k[0], LineKind::Art);
    assert_eq!(k[1], LineKind::TableRow);
}

/// The ordering contract from "classify_lines"'s doc comment, one case per
/// numbered step. These are the pairs where an earlier check has to win: if
/// a check moves, one of these flips.
#[test]
fn check_order_is_load_bearing() {
    // 1. A fence range swallows a line that would otherwise be an ATX
    //    header, and a Doxygen verbatim range swallows everything to its
    //    closer.
    assert_eq!(
        kinds(&["```", "# use foo;", "```"], DocFlavor::Rustdoc),
        [
            LineKind::FenceOpen,
            LineKind::FenceContent,
            LineKind::FenceClose
        ]
    );
    assert_eq!(
        kinds(&["@code", "# not a header", "@endcode"], DocFlavor::Doxygen),
        [
            LineKind::DoxyVerbatimOpen,
            LineKind::DoxyVerbatimContent,
            LineKind::DoxyVerbatimClose
        ]
    );

    // 3. A bookend next to art stays art instead of being stripped.
    assert_eq!(
        kinds(&["--- label ---", "|  |"], DocFlavor::Plain)[0],
        LineKind::Art
    );

    // 5. A Doxygen tag beats the ATX reading of a "#" that follows it, and
    //    the kernel-doc "@name:" form is a tag in any flavor.
    assert_eq!(
        kinds(&["@param x # not a header"], DocFlavor::Doxygen)[0],
        LineKind::DoxygenTag
    );
    assert_eq!(
        kinds(&["@name : desc"], DocFlavor::Rustdoc)[0],
        LineKind::DoxygenTag
    );

    // 6. A setext underline needs prose directly above it; alone it is a
    //    bare rule, not an underline.
    assert_eq!(
        kinds(&["Heading", "======="], DocFlavor::Plain)[1],
        LineKind::SetextUnderline
    );

    // 7. ATX beats metadata, metadata beats the checks below it.
    assert_eq!(
        kinds(&["# Errors"], DocFlavor::Rustdoc)[0],
        LineKind::AtxHeader
    );
    assert_eq!(
        kinds(&["SPDX-License-Identifier: GPL-2.0"], DocFlavor::Plain)[0],
        LineKind::Metadata
    );

    // 9. Label runs come AFTER indented code, so a "Key: value" line with a
    //    code sample's indentation belongs to the sample.
    assert_eq!(
        kinds(&["  File: x.c", "  Task: y"], DocFlavor::Plain),
        [LineKind::IndentedCode, LineKind::IndentedCode]
    );
    assert_eq!(
        kinds(&["File: x.c", "Task: y"], DocFlavor::Plain),
        [LineKind::LabelRow, LineKind::LabelRow]
    );

    // 10. Art, list item, then prose as the fallback.
    assert_eq!(kinds(&["- one"], DocFlavor::Plain)[0], LineKind::ListItem);
    assert_eq!(
        kinds(&["ordinary sentence"], DocFlavor::Plain)[0],
        LineKind::Prose
    );
}

#[test]
fn label_run_needs_two_rows_that_fit() {
    // A lone "Note: ..." opening a paragraph is a sentence, not a banner.
    assert_eq!(
        kinds(
            &["Note: this is prose", "and it continues here"],
            DocFlavor::Plain
        )[0],
        LineKind::Prose
    );

    // A row that does not already fit the budget must not be frozen, or it
    // stays over the limit forever.
    let long = "Warning: ".to_string() + &"x".repeat(200);
    let lines = vec![stripped(&long), stripped("Task: y")];
    assert_eq!(
        classify_lines(&lines, DocFlavor::Plain, 80)[0],
        LineKind::Prose
    );
}

#[test]
fn verbatim_region_survives_an_unclosed_opener() {
    // No closer: every later line stays content rather than reverting to
    // prose halfway through the sample.
    assert_eq!(
        kinds(&["@verbatim", "raw", "more raw"], DocFlavor::Doxygen),
        [
            LineKind::DoxyVerbatimOpen,
            LineKind::DoxyVerbatimContent,
            LineKind::DoxyVerbatimContent
        ]
    );
}

#[test]
fn doxygen_tags_are_flavor_gated() {
    assert_eq!(
        kinds(&["@param x foo"], DocFlavor::Doxygen)[0],
        LineKind::DoxygenTag
    );
    assert_eq!(
        kinds(&["@param x foo"], DocFlavor::Plain)[0],
        LineKind::Prose
    );
    // A verbatim opener is structural, so it fires in any flavor.
    assert_eq!(
        kinds(&["@code"], DocFlavor::Rustdoc)[0],
        LineKind::DoxyVerbatimOpen
    );
}

#[test]
fn tag_table_shapes() {
    assert_eq!(doxy_tag("param"), Some(TagShape::Named));
    assert_eq!(doxy_tag("brief"), Some(TagShape::Plain));
    assert_eq!(doxy_tag("code"), Some(TagShape::VerbatimOpen));
    assert_eq!(doxy_tag("endverbatim"), Some(TagShape::VerbatimClose));
    assert_eq!(doxy_tag("nosuchtag"), None);
    // The direction annotation is not part of the keyword.
    assert_eq!(doxy_keyword("param[in] buf"), "param");
    assert_eq!(doxy_keyword("return the value"), "return");
    assert_eq!(doxy_keyword("123"), "");
}

#[test]
fn a_shorter_fence_does_not_close_a_longer_one() {
    assert_eq!(
        kinds(&["````", "```", "~~~~", "```` x", "`````"], DocFlavor::Plain),
        [
            LineKind::FenceOpen,
            LineKind::FenceContent,
            LineKind::FenceContent,
            LineKind::FenceContent,
            LineKind::FenceClose
        ]
    );
}

#[test]
fn an_unclosed_fence_swallows_the_rest() {
    assert_eq!(
        kinds(&["```", "", "- one", "@code"], DocFlavor::Doxygen),
        [
            LineKind::FenceOpen,
            LineKind::FenceContent,
            LineKind::FenceContent,
            LineKind::FenceContent
        ]
    );
}

#[test]
fn an_underline_needs_prose_above() {
    assert_ne!(
        kinds(&["- one", "====="], DocFlavor::Plain)[1],
        LineKind::SetextUnderline
    );
    assert_ne!(kinds(&["====="], DocFlavor::Plain)[0], LineKind::SetextUnderline);
    assert_eq!(
        kinds(&["Heading", "--"], DocFlavor::Plain)[1],
        LineKind::SetextUnderline
    );
    assert_eq!(kinds(&["Heading", "-"], DocFlavor::Plain)[1], LineKind::Art);
}

#[test]
fn metadata_needs_a_strong_signal() {
    for line in [
        "Copyright (c) 2026 Example",
        "Copyright (C) Example",
        "Copyright © Example",
        "Copyright 2026-2027 Example",
        "SPDX-FileCopyrightText: x",
        "All rights reserved.",
        "Author: A",
        "License: MIT",
        "Version: 1",
        "Permission: granted",
    ] {
        assert_eq!(classify_one(line, DocFlavor::Plain), LineKind::Metadata, "{line}");
    }
    for line in ["Copyright law forbids this.", "Copyright 202 x", "Author:", "SPDX- none"] {
        assert_eq!(classify_one(line, DocFlavor::Plain), LineKind::Prose, "{line}");
    }
}

#[test]
fn label_rows_are_capitalized_single_words_that_fit() {
    let rows = |a: &str, b: &str| kinds(&[a, b], DocFlavor::Plain);
    let label = [LineKind::LabelRow, LineKind::LabelRow];
    assert_eq!(rows("File : x.c", "Task : y"), label);
    assert_eq!(rows("APR_LDAP_STARTTLS: x", "Größe: y"), label);
    assert_eq!(rows("Über: x", "Ärger: y"), label);
    assert_ne!(rows("file: x", "task: y"), label);
    assert_ne!(rows("Two words: x", "Two words: y"), label);
    assert_ne!(rows("File:", "Task:"), label);

    // A row is measured with tab stops eight columns apart.
    let tabbed = [stripped("A:\tx"), stripped("B: y")];
    assert_eq!(classify_lines(&tabbed, DocFlavor::Plain, 9)[0], LineKind::LabelRow);
    assert_eq!(classify_lines(&tabbed, DocFlavor::Plain, 8)[0], LineKind::Prose);
}

#[test]
fn a_label_above_prose_is_no_row() {
    assert_eq!(
        kinds(&["File: x.c", "Task: y", "and then some prose"], DocFlavor::Plain),
        [LineKind::Prose, LineKind::Prose, LineKind::Prose]
    );
    assert_eq!(
        kinds(&["File: x.c", "Task: y", ""], DocFlavor::Plain),
        [LineKind::LabelRow, LineKind::LabelRow, LineKind::Blank]
    );
}

#[test]
fn a_banner_stands_alone() {
    assert_eq!(
        kinds(&["", "label -------", ""], DocFlavor::Plain)[1],
        LineKind::Banner
    );
    assert_eq!(
        kinds(&["an unsound strategy ---", "as we will see"], DocFlavor::Plain)[0],
        LineKind::Prose
    );
}

#[test]
fn links_and_lists_are_read_exactly() {
    for line in ["[]: x", "[a] x", "[a]:", "[a", "a]: x"] {
        assert_eq!(classify_one(line, DocFlavor::Plain), LineKind::Prose, "{line}");
    }
    for line in ["* one", "+\tone", "12) one", " - one"] {
        assert_eq!(classify_one(line, DocFlavor::Plain), LineKind::ListItem, "{line}");
    }
    for line in ["-one", "1.one", "1 one", "1."] {
        assert_eq!(classify_one(line, DocFlavor::Plain), LineKind::Prose, "{line}");
    }
}

#[test]
fn the_flavor_decides_on_tags_alone() {
    let lines = ["@param x", "# Head", "@name: x", "text", "@code", "x", "@endcode"];
    let doxygen = kinds(&lines, DocFlavor::Doxygen);
    let rustdoc = kinds(&lines, DocFlavor::Rustdoc);
    assert_eq!(doxygen[0], LineKind::DoxygenTag);
    assert_eq!(rustdoc[0], LineKind::Prose);
    assert_eq!(doxygen[1..], rustdoc[1..]);
}

#[test]
fn marks_decide_what_the_neighbours_do_not() {
    let lines = [stripped("plain words")];
    let mut m = mark(&"plain words".chars().collect::<Vec<char>>());
    assert_eq!(classify_marked(&lines, &[m], DocFlavor::Plain, 80), [LineKind::Prose]);
    m.art = true;
    assert_eq!(classify_marked(&lines, &[m], DocFlavor::Plain, 80), [LineKind::Art]);
    m.banner = true;
    assert_eq!(classify_marked(&lines, &[m], DocFlavor::Plain, 80), [LineKind::Banner]);
    m.table_row = true;
    assert_eq!(classify_marked(&lines, &[m], DocFlavor::Plain, 80), [LineKind::TableRow]);
    m.kernel_doc = true;
    assert_eq!(classify_marked(&lines, &[m], DocFlavor::Plain, 80), [LineKind::DoxygenTag]);
    m.fence = Some(('`', 3));
    assert_eq!(classify_marked(&lines, &[m], DocFlavor::Plain, 80), [LineKind::FenceOpen]);
}
