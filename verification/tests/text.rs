use commentflow::offsets::slice_str;
use commentflow::text::{
    alphanumeric, chars_of, count_str, parse_number, push_decimal, split_at_char, split_lines,
    string_of, trimmed, uppercase, white, Class,
};
use commentflow::textline::{
    advance_col, fence_marker_run, fits, is_art, is_bookend, is_indented_code, is_kernel_doc_tag,
    is_table_row, line_is_art_only, one_sided_banner, FAST_PATH_TAB_WIDTH,
};

#[test]
fn characters_are_classed_as_unicode_does() {
    for c in '\0'..=char::MAX {
        assert_eq!(white(c), c.is_whitespace(), "{c:?}");
        assert_eq!(alphanumeric(c), c.is_alphanumeric(), "{c:?}");
        assert_eq!(uppercase(c), c.is_uppercase(), "{c:?}");
        assert_eq!(Class::Digit.test(c), c.is_ascii_digit(), "{c:?}");
        assert_eq!(Class::Letter.test(c), c.is_ascii_alphabetic(), "{c:?}");
    }
}

#[test]
fn lines_split_as_text_lines_do() {
    for s in ["", "a", "a\n", "a\r\nb", "\n\n", "a\r", "a\r\r\n", "\r\n", "ä\nö\r\n"] {
        let got: Vec<String> = split_lines(&chars_of(s)).iter().map(|l| string_of(l)).collect();
        let want: Vec<String> = s.lines().map(String::from).collect();
        assert_eq!(got, want, "{s:?}");
    }
}

#[test]
fn pieces_split_as_text_pieces_do() {
    for s in ["", "a", "a,", ",a", "a,,b", ","] {
        let got: Vec<String> =
            split_at_char(&chars_of(s), ',').iter().map(|l| string_of(l)).collect();
        let want: Vec<String> = s.split(',').map(String::from).collect();
        assert_eq!(got, want, "{s:?}");
    }
}

#[test]
fn trimming_and_counting_follow_the_text() {
    for s in ["", " ", " a ", "\u{3000}a\u{2028}", "a b", "\t\r\n"] {
        assert_eq!(string_of(trimmed(&chars_of(s))), s.trim(), "{s:?}");
    }
    assert_eq!(count_str(&chars_of("\r\n\r\n\n"), "\r\n"), 2);
    assert_eq!(count_str(&chars_of("\r\n\r\n\n"), "\n"), 3);
}

#[test]
fn numbers_read_back() {
    for n in [0usize, 7, 10, 99, 100, 65535, usize::MAX] {
        let mut s = String::from("x");
        push_decimal(&mut s, n as u128);
        assert_eq!(s, format!("x{n}"));
        assert_eq!(parse_number(&chars_of(&s[1..])), Some(n));
    }
    let mut s = String::new();
    push_decimal(&mut s, u128::MAX);
    assert_eq!(s, u128::MAX.to_string());
    assert_eq!(parse_number(&chars_of("")), None);
    assert_eq!(parse_number(&chars_of("1a")), None);
}

#[test]
fn slices_are_cut_at_bytes() {
    assert_eq!(slice_str("aéb", 1, 3), "é");
    assert_eq!(slice_str("aéb", 0, 4), "aéb");
    assert_eq!(slice_str("aéb", 4, 4), "");
}

#[test]
fn tabs_go_to_the_next_stop() {
    assert_eq!(advance_col(0, '\t', FAST_PATH_TAB_WIDTH), 8);
    assert_eq!(advance_col(8, '\t', FAST_PATH_TAB_WIDTH), 16);
    assert_eq!(advance_col(7, '\t', 8), 8);
    assert_eq!(advance_col(5, '\t', 4), 8);
    assert_eq!(advance_col(5, 'x', 4), 6);
    let f = |s: &str, budget: usize| fits(&chars_of(s), budget);
    assert!(f("", 0));
    assert!(f("ab\tc", 9));
    assert!(!f("ab\tc", 8));
    assert!(f("\t\t", usize::MAX));
}

#[test]
fn lines_are_told_by_their_looks() {
    let v = |s: &str| chars_of(s);
    assert_eq!(fence_marker_run(&v("  ```rust")), Some(('`', 3)));
    assert_eq!(fence_marker_run(&v("~~~~")), Some(('~', 4)));
    assert_eq!(fence_marker_run(&v("x```")), None);
    assert!(is_indented_code(&v("  x")) && is_indented_code(&v("\tx")));
    assert!(!is_indented_code(&v(" x")));
    assert!(is_table_row(&v("| a | b |")) && is_table_row(&v("+--+==+")));
    assert!(!is_table_row(&v("+ a +")) && !is_table_row(&v("|")));
    assert!(is_kernel_doc_tag(&v("@name: x")) && is_kernel_doc_tag(&v("@a_1 :")));
    assert!(!is_kernel_doc_tag(&v("@name x")) && !is_kernel_doc_tag(&v("@: x")));
    assert!(is_bookend(&v("--- label ---")) && is_bookend(&v("=====")));
    assert!(!is_bookend(&v("--- label ===")) && !is_bookend(&v("-- label --")));
    assert!(one_sided_banner(&v("label -----")) && one_sided_banner(&v("===== label")));
    assert!(!one_sided_banner(&v("--- label ---")) && !one_sided_banner(&v("label--- ")));
    assert!(!one_sided_banner(&v("-----")) && !one_sided_banner(&v("####### too many")));
    assert!(line_is_art_only(&v("|  |")) && !line_is_art_only(&v("  ")));
    assert!(is_art(&v("│ x │")) && !is_art(&v("│ xy │")) && !is_art(&v("a > b")));
}
