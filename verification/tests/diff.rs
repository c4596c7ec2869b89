use commentflow::diff::{can_compare, can_render, render, unified, Part, Sign};

#[test]
fn a_change_is_shown_with_its_context() {
    let old = "1\n2\n3\n4\n5\n6\n7\n8\n9\n";
    let new = "1\n2\n3\n4\nfive\n6\n7\n8\n9\n";
    assert_eq!(
        unified(old, new, "a.c").unwrap(),
        "--- a.c\n+++ a.c\n@@ -2,7 +2,7 @@\n 2\n 3\n 4\n-5\n+five\n 6\n 7\n 8\n"
    );
}

#[test]
fn distant_changes_get_their_own_hunks() {
    let old: String = (1..=20).map(|n| format!("{n}\n")).collect();
    let new = old.replacen("1\n", "one\n", 1).replace("20\n", "");
    assert_eq!(
        unified(&old, &new, "x").unwrap(),
        "--- x\n+++ x\n@@ -1,4 +1,4 @@\n-1\n+one\n 2\n 3\n 4\n@@ -17,4 +17,3 @@\n 17\n 18\n 19\n-20\n"
    );
}

#[test]
fn equal_texts_have_no_hunks() {
    assert_eq!(unified("a\nb\n", "a\nb\n", "x").unwrap(), "--- x\n+++ x\n");
    assert_eq!(unified("", "", "x").unwrap(), "--- x\n+++ x\n");
}

#[test]
fn a_missing_last_newline_is_added() {
    assert_eq!(
        unified("a", "b", "x").unwrap(),
        "--- x\n+++ x\n@@ -1,1 +1,1 @@\n-a\n+b\n"
    );
    assert_eq!(
        unified("", "b\n", "x").unwrap(),
        "--- x\n+++ x\n@@ -1,0 +1,1 @@\n+b\n"
    );
}

fn part(old: (usize, usize), new: (usize, usize), lines: Vec<(Sign, String)>) -> Part {
    Part { old_start: old.0, old_end: old.1, new_start: new.0, new_end: new.1, lines }
}

#[test]
fn groups_are_written_down_as_they_come() {
    let groups = vec![
        vec![],
        vec![
            part((4, 5), (6, 7), vec![(Sign::Equal, "x\n".to_string())]),
            part(
                (5, 7),
                (7, 8),
                vec![(Sign::Delete, "y\n".to_string()), (Sign::Insert, "z\n".to_string())],
            ),
        ],
    ];
    assert!(can_render(&groups));
    assert_eq!(render(&groups, "n"), "--- n\n+++ n\n@@ -5,3 +7,2 @@\n x\n-y\n+z\n");
}

#[test]
fn backward_ranges_cannot_be_named() {
    assert!(!can_render(&vec![vec![part((5, 4), (0, 0), vec![])]]));
    assert!(!can_render(&vec![vec![part((0, 0), (5, 4), vec![])]]));
    assert!(!can_render(&vec![vec![part((usize::MAX, usize::MAX), (0, 0), vec![])]]));
    assert!(can_render(&vec![]));
}

#[test]
fn lines_end_at_either_character() {
    assert!(can_compare("a\rb\r\nc", ""));
    assert_eq!(
        unified("a\rb\r\nc\n", "a\rB\r\nc\n", "x").unwrap(),
        "--- x\n+++ x\n@@ -1,3 +1,3 @@\n a\r-b\r\n+B\r\n c\n"
    );
}

/// The lines of one side of a diff's hunks, without their signs.
fn side_of(diff: &str, sign: char) -> Vec<String> {
    diff.split_inclusive('\n')
        .skip(2)
        .filter(|l| l.starts_with(' ') || l.starts_with(sign))
        .map(|l| l[1..].to_string())
        .collect()
}

#[test]
fn hunks_show_the_lines_they_count() {
    let old: String = (0..40).map(|n| format!("line {}\n", n % 7)).collect();
    let new: String = (0..40).filter(|n| n % 9 != 4).map(|n| format!("line {}\n", n % 6)).collect();
    let diff = unified(&old, &new, "x").unwrap();
    for (text, sign, field) in [(&old, '-', 1), (&new, '+', 2)] {
        let lines: Vec<&str> = text.split_inclusive('\n').collect();
        let mut named: Vec<String> = Vec::new();
        for header in diff.lines().filter(|l| l.starts_with("@@")) {
            let range = header.split(' ').nth(field).unwrap();
            let (start, count) = range[1..].split_once(',').unwrap();
            let (start, count): (usize, usize) = (start.parse().unwrap(), count.parse().unwrap());
            named.extend(lines[start - 1..start - 1 + count].iter().map(|l| l.to_string()));
        }
        assert_eq!(side_of(&diff, sign), named);
    }
}

#[test]
fn an_empty_range_may_lie_elsewhere() {
    // The first step only deletes and the last one only inserts. The empty range
    // of each is named one line off, and the header counts by them.
    assert_eq!(
        unified("1\n2\n2\n2\n2\n2\n", "2\n2\n2\n2\n2\n2\n", "x").unwrap(),
        "--- x\n+++ x\n@@ -1,5 +2,5 @@\n-1\n 2\n 2\n 2\n 2\n 2\n+2\n"
    );
}
