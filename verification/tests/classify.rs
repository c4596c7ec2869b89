use commentflow::classify::{classify, classify_style, DocFlavor, Style};
use commentflow::parse::Language;

#[test]
fn classifies_line_comments() {
    assert_eq!(classify("// foo", Language::C).style, Style::Line);
    assert_eq!(classify("/// foo", Language::Rust).style, Style::DocLine);
    assert_eq!(classify("//! foo", Language::Rust).style, Style::DocLine);
}

#[test]
fn classifies_block_comments() {
    assert_eq!(classify("/* foo */", Language::C).style, Style::Block);
    assert_eq!(classify("/** foo */", Language::C).style, Style::DocBlock);
    assert_eq!(classify("/*! foo */", Language::Cpp).style, Style::DocBlock);
}

#[test]
fn doc_flavor_per_language() {
    assert_eq!(
        classify("/// foo", Language::Cpp).flavor,
        DocFlavor::Doxygen
    );
    assert_eq!(
        classify("/// foo", Language::Rust).flavor,
        DocFlavor::Rustdoc
    );
    assert_eq!(classify("// foo", Language::C).flavor, DocFlavor::Plain);
}

#[test]
fn every_other_language_documents_with_doxygen() {
    for lang in [Language::C, Language::Cpp, Language::Shell, Language::Asm] {
        assert_eq!(classify("/** x */", lang).flavor, DocFlavor::Doxygen);
        assert_eq!(classify("/* x */", lang).flavor, DocFlavor::Plain);
    }
    assert_eq!(classify("/*! x */", Language::Rust).flavor, DocFlavor::Rustdoc);
}

#[test]
fn block_openers_are_read_exactly() {
    assert_eq!(classify_style("/**/"), Style::Block);
    assert_eq!(classify_style("/***** rule *****/"), Style::Block);
    assert_eq!(classify_style("/**"), Style::DocBlock);
    assert_eq!(classify_style("# shell"), Style::Line);
    assert_eq!(classify_style(""), Style::Line);
    assert_eq!(classify_style("////"), Style::DocLine);
}
