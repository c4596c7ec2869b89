use commentflow::parse::{Comment, ParamShift};
use commentflow::rewrite::{
    apply, apply_checked, check_whitespace_gap, make_replacement, sorted_replacements, temp_name, validate, Replacement,
    RewriteError,
};

fn rep(start: usize, end: usize, text: &str) -> Replacement {
    Replacement { start, end, text: text.to_string() }
}

fn comment_in(source: &str, start_byte: usize, end_byte: usize) -> Comment {
    Comment {
        start_byte,
        end_byte,
        text: source[start_byte..end_byte].to_string(),
        is_trailing: false,
        force_passthrough: false,
        at_file_start: start_byte == 0,
        line_indent_bytes: String::new(),
        fallback_ending: "\n".to_string(),
        relocate_before: None,
        param_shift: None,
    }
}

fn made(source: &str, end: usize, rewritten: &str) -> Option<String> {
    make_replacement(&comment_in(source, 0, end), rewritten.to_string(), source).map(|r| {
        assert_eq!((r.start, r.end), (0, end));
        r.text
    })
}

#[test]
fn a_replacement_keeps_the_line_ending() {
    assert_eq!(made("// a\r\nx", 6, "// b"), Some("// b\r\n".to_string()));
    assert_eq!(made("// a\nx", 5, "// b"), Some("// b\n".to_string()));
    assert_eq!(made("# a\r\nx", 4, "# b"), Some("# b\r".to_string()));
    assert_eq!(made("// a\r\nx", 6, "// b\r\n"), Some("// b\r\n".to_string()));
    assert_eq!(made("// a\r\nx", 6, "// b\n"), Some("// b\n\r\n".to_string()));
    assert_eq!(made("// a", 4, "// b"), Some("// b".to_string()));
}

#[test]
fn nothing_to_replace_gives_no_replacement() {
    assert_eq!(made("// a\n", 5, ""), None);
    assert_eq!(made("// a\n", 5, "// a"), None);
    assert_eq!(made("// a\n", 5, "// a\n"), None);
}

#[test]
fn plans_are_applied_in_order() {
    let src = "a /* b */ c /* d */";
    let plan = [rep(12, 19, "/* D */"), rep(2, 9, "/* B! */")];
    assert_eq!(apply(src, &plan), "a /* B! */ c /* D */");
    let swapped = [plan[1].clone(), plan[0].clone()];
    assert_eq!(apply(src, &swapped), apply(src, &plan));
    assert_eq!(apply(src, &[]), src);
    let order: Vec<usize> = sorted_replacements(&plan).iter().map(|r| r.start).collect();
    assert_eq!(order, [2, 12]);
}

#[test]
fn an_insertion_comes_before_a_range_that_begins_there() {
    let src = "/* b */ c";
    let plan = [rep(0, 7, "/* x */"), rep(0, 0, "// moved\n")];
    assert_eq!(apply(src, &plan), "// moved\n/* x */ c");
}

#[test]
fn equal_keys_stay_as_they_came() {
    let plan = [rep(3, 3, "one"), rep(3, 3, "two"), rep(1, 1, "zero")];
    let order: Vec<&str> = sorted_replacements(&plan).iter().map(|r| r.text.as_str()).collect();
    assert_eq!(order, ["zero", "one", "two"]);
}

#[test]
fn validation_names_the_fault() {
    let src = "é /* b */ c /* d */";
    let comments = [comment_in(src, 3, 10), comment_in(src, 13, 20)];
    let check = |plan: &[Replacement]| validate(plan, src, &comments);
    assert_eq!(check(&[rep(3, 10, "x"), rep(13, 20, "y")]), Ok(()));
    assert_eq!(
        check(&[rep(3, 10, "x"), rep(5, 8, "y")]),
        Err(RewriteError::Overlap { at: 5 })
    );
    assert_eq!(check(&[rep(8, 5, "x")]), Err(RewriteError::Inverted { at: 8 }));
    assert_eq!(check(&[rep(13, 21, "x")]), Err(RewriteError::PastEnd));
    assert_eq!(
        check(&[rep(1, 3, "x")]),
        Err(RewriteError::SplitsChar { start: 1, end: 3 })
    );
    assert_eq!(check(&[rep(11, 11, "x")]), Err(RewriteError::Unauthorized { at: 11 }));
    assert_eq!(check(&[rep(11, 11, "")]), Ok(()));
    assert_eq!(
        check(&[rep(3, 20, "x")]),
        Err(RewriteError::CoversCode { start: 3, end: 20, at: 11 })
    );
    assert_eq!(
        check(&[rep(0, 10, "x")]),
        Err(RewriteError::CoversCode { start: 0, end: 10, at: 0 })
    );
    // White space around comments may be rewritten with them.
    assert_eq!(check(&[rep(2, 11, "x")]), Ok(()));
}

#[test]
fn comments_move_only_where_they_may() {
    let src = "x /* b */";
    let mut c = comment_in(src, 2, 9);
    c.relocate_before = Some(0);
    c.param_shift = Some(ParamShift { insert_at: 1 });
    let comments = [c];
    assert_eq!(validate(&[rep(0, 0, "y")], src, &comments), Ok(()));
    assert_eq!(validate(&[rep(1, 1, "y")], src, &comments), Ok(()));
    assert_eq!(
        validate(&[rep(9, 9, "y")], src, &comments),
        Err(RewriteError::Unauthorized { at: 9 })
    );
}

#[test]
fn a_group_of_comments_may_be_rewritten_as_one() {
    let src = "/* a */\n  /* b */\n";
    let comments = [comment_in(src, 0, 7), comment_in(src, 10, 17)];
    assert_eq!(
        apply_checked(src, &[rep(0, 17, "/* a b */")], &comments).unwrap(),
        "/* a b */\n"
    );
}

#[test]
fn a_faulty_plan_is_not_applied() {
    let src = "code";
    let e = apply_checked(src, &[rep(0, 4, "")], &[]).unwrap_err();
    assert_eq!(e, RewriteError::CoversCode { start: 0, end: 4, at: 0 });
}

#[test]
fn code_survives_a_valid_plan() {
    let src = "int a; /* one\n two */ int b; // three\nint c;\n";
    let comments = [comment_in(src, 7, 21), comment_in(src, 29, 37)];
    let plan = [rep(7, 21, "/* one two */"), rep(29, 37, "// 3")];
    let out = apply_checked(src, &plan, &comments).unwrap();
    assert_eq!(out, "int a; /* one two */ int b; // 3\nint c;\n");
}

#[test]
fn faults_are_put_in_words() {
    for (e, words) in [
        (RewriteError::Overlap { at: 5 }, "replacement ranges overlap at byte 5"),
        (RewriteError::Inverted { at: 10 }, "replacement range inverted at byte 10"),
        (RewriteError::PastEnd, "replacement range past end of source"),
        (
            RewriteError::SplitsChar { start: 1, end: 23 },
            "replacement [1..23] not on UTF-8 char boundaries",
        ),
        (
            RewriteError::Unauthorized { at: 0 },
            "zero-width insertion at 0 is not an authorized relocation target",
        ),
        (
            RewriteError::CoversCode { start: 1, end: 9, at: 4 },
            "replacement [1..9] covers non-comment non-whitespace byte at 4",
        ),
    ] {
        assert_eq!(e.message(), words);
    }
}

#[test]
fn rewriting_again_changes_nothing() {
    for (src, rewritten) in [("// a\r\n", "// b"), ("// a\n", "// b"), ("// a\r", "// b")] {
        let text = made(src, src.len(), rewritten).unwrap();
        assert_eq!(made(&text, text.len(), rewritten), None);
    }
    // A carriage return in front of a bare newline makes up another ending.
    let text = made("// a\n", 5, "// b\r").unwrap();
    assert_eq!(text, "// b\r\n");
    assert_eq!(made(&text, 6, "// b\r"), Some("// b\r\r\n".to_string()));
}

#[test]
fn temporary_files_have_names_of_their_own() {
    assert_eq!(temp_name("a.c", 12, 0, 345), ".a.c.commentflow.12.0.345.tmp");
    let names = [
        temp_name("a.c", 1, 23, 4),
        temp_name("a.c", 12, 3, 4),
        temp_name("a.c", 1, 2, 34),
        temp_name("b.c", 1, 2, 34),
    ];
    for i in 0..names.len() {
        for j in 0..i {
            assert_ne!(names[i], names[j]);
        }
    }
}

#[test]
fn a_gap_holds_white_space_only() {
    let r = rep(0, 5, "x");
    assert_eq!(check_whitespace_gap("a \t\r\nb", 1, 5, &r), Ok(()));
    assert_eq!(
        check_whitespace_gap("a \t\r\nb", 1, 6, &r),
        Err(RewriteError::CoversCode { start: 0, end: 5, at: 5 })
    );
    // An empty gap holds nothing, wherever it lies.
    assert_eq!(check_whitespace_gap("a", 9, 9, &r), Ok(()));
    assert_eq!(check_whitespace_gap("a", 9, 4, &r), Ok(()));
}
