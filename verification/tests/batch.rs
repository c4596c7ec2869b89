use commentflow::batch::{
    change_summary, choose_action, choose_input, choose_unreflowed_action, count_lines, emit,
    exit_status, is_vcs_metadata_dir, settle, split_path_list, visit, Action, Emission, EntryType,
    InputError, InputSource, Outcome, Target, Visit,
};
use commentflow::cli::{Args, Mode};
use commentflow::parse::Comment;
use commentflow::rewrite::{Replacement, RewriteError};

fn source_of(argv: &[&str]) -> Result<InputSource, InputError> {
    let args = Args::try_parse_from(argv.iter().map(|s| (*s).to_string()).collect()).unwrap();
    choose_input(&args)
}

#[test]
fn inputs_come_from_one_place() {
    assert_eq!(source_of(&["a.c", "b.c"]), Ok(InputSource::Paths));
    assert_eq!(source_of(&["--files-from", "-"]), Ok(InputSource::Listed));
    assert_eq!(source_of(&["-", "--lang", "c"]), Ok(InputSource::Stdin));
    assert_eq!(source_of(&["-"]), Err(InputError::LangRequired));
    assert_eq!(source_of(&["-", "a.c", "--lang", "c"]), Err(InputError::StdinNotAlone));
    assert_eq!(source_of(&["-", "-"]), Err(InputError::StdinNotAlone));
    assert_eq!(
        InputError::LangRequired.message(),
        "--lang is required when reading source from stdin ('-')"
    );
    assert_eq!(
        InputError::StdinNotAlone.message(),
        "'-' (stdin) cannot be combined with file paths"
    );
}

#[test]
fn path_lists_split_on_one_delimiter() {
    assert_eq!(split_path_list("a.c\nb.c\r\n\n\r\nc.c"), ["a.c", "b.c", "c.c"]);
    assert_eq!(split_path_list("a\nb.c\0c.c\0"), ["a\nb.c", "c.c"]);
    assert!(split_path_list("").is_empty());
    assert!(split_path_list("\n\r\n").is_empty());
}

#[test]
fn walks_follow_no_links_and_enter_no_metadata() {
    assert_eq!(visit(EntryType::Symlink, Some("a.c"), Some("c")), Visit::Skip);
    assert_eq!(visit(EntryType::Directory, Some(".git"), Some("git")), Visit::Skip);
    assert_eq!(visit(EntryType::Directory, Some(".hidden"), None), Visit::Descend);
    assert_eq!(visit(EntryType::Directory, None, None), Visit::Descend);
    assert_eq!(visit(EntryType::File, Some("a.C"), Some("C")), Visit::Take);
    assert_eq!(visit(EntryType::File, Some("a.py"), Some("py")), Visit::Skip);
    assert_eq!(visit(EntryType::File, Some("Makefile"), None), Visit::Skip);
    assert_eq!(visit(EntryType::Other, Some("a.c"), Some("c")), Visit::Skip);
    for name in [".git", ".hg", ".svn"] {
        assert!(is_vcs_metadata_dir(name));
    }
    assert!(!is_vcs_metadata_dir(".github"));
}

#[test]
fn each_mode_has_its_action() {
    assert_eq!(choose_action(Mode::Write, Target::File, true), Action::WriteFile);
    assert_eq!(choose_action(Mode::Write, Target::File, false), Action::Leave);
    assert_eq!(choose_action(Mode::Write, Target::Stdout, false), Action::WriteStdout);
    assert_eq!(choose_action(Mode::Check, Target::File, true), Action::Leave);
    assert_eq!(choose_action(Mode::Diff, Target::File, true), Action::ShowDiff);
    assert_eq!(choose_action(Mode::Diff, Target::Stdout, false), Action::Leave);
    assert_eq!(choose_action(Mode::DryRun, Target::File, true), Action::ShowSummary);
    assert_eq!(choose_action(Mode::DryRun, Target::File, false), Action::ShowNoChange);
    assert_eq!(choose_unreflowed_action(Mode::Write, Target::Stdout), Action::WriteStdout);
    assert_eq!(choose_unreflowed_action(Mode::Write, Target::File), Action::Leave);
    assert_eq!(choose_unreflowed_action(Mode::Diff, Target::Stdout), Action::Leave);
}

#[test]
fn what_counts_is_the_text() {
    assert_eq!(
        settle(Mode::Check, Target::File, "a", "b"),
        (Action::Leave, Outcome::Done { changed: true })
    );
    assert_eq!(
        settle(Mode::Check, Target::File, "a", "a"),
        (Action::Leave, Outcome::Done { changed: false })
    );
    assert_eq!(
        settle(Mode::Write, Target::File, "a", "b"),
        (Action::WriteFile, Outcome::Done { changed: false })
    );
    assert_eq!(
        settle(Mode::Write, Target::File, "a", "a"),
        (Action::Leave, Outcome::Done { changed: false })
    );
}

#[test]
fn the_status_is_the_worst_of_the_run() {
    let same = Outcome::Done { changed: false };
    let changed = Outcome::Done { changed: true };
    assert_eq!(exit_status(Mode::Check, &[]), 0);
    assert_eq!(exit_status(Mode::Check, &[same, changed, same]), 1);
    assert_eq!(exit_status(Mode::Write, &[changed]), 0);
    assert_eq!(exit_status(Mode::Check, &[changed, Outcome::Failed, same]), 2);
    assert_eq!(exit_status(Mode::Write, &[Outcome::Failed]), 2);
}

#[test]
fn a_summary_counts_ranges_and_lines() {
    let src = "a\nb\nc\n";
    let reps = [
        Replacement { start: 0, end: 3, text: String::new() },
        Replacement { start: 4, end: 4, text: "x".to_string() },
    ];
    assert_eq!(count_lines(&reps, src), 3);
    assert_eq!(count_lines(&[], src), 0);
    assert_eq!(
        change_summary("a.c", 12, 340),
        "a.c: 12 comment range(s) would change (340 source line(s)); rerun without --dry-run to write"
    );
}

const SOURCE: &str = "int a;\n/* one\n   two */\nint b;\n";

fn emitted(mode: Mode, target: Target, text: &str) -> Result<Emission, RewriteError> {
    let comment = Comment {
        start_byte: 7,
        end_byte: 23,
        text: SOURCE[7..23].to_string(),
        is_trailing: false,
        force_passthrough: false,
        at_file_start: false,
        line_indent_bytes: String::new(),
        fallback_ending: "\n".to_string(),
        relocate_before: None,
        param_shift: None,
    };
    let plan = [Replacement { start: 7, end: 23, text: text.to_string() }];
    emit(mode, target, "a.c", SOURCE, &[], SOURCE, &plan, &[comment])
}

#[test]
fn an_input_is_emitted_as_its_mode_asks() {
    let new = "int a;\n/* one two */\nint b;\n";
    let e = emitted(Mode::Write, Target::File, "/* one two */").unwrap();
    assert_eq!((e.action, e.printed.as_deref()), (Action::WriteFile, None));
    assert_eq!(e.result, new);
    assert_eq!(e.outcome, Outcome::Done { changed: false });

    let e = emitted(Mode::Write, Target::Stdout, "/* one two */").unwrap();
    assert_eq!((e.action, e.printed.as_deref()), (Action::WriteStdout, Some(new)));

    let e = emitted(Mode::Check, Target::File, "/* one two */").unwrap();
    assert_eq!((e.action, e.printed.as_deref()), (Action::Leave, None));
    assert_eq!(e.outcome, Outcome::Done { changed: true });

    let e = emitted(Mode::Diff, Target::File, "/* one two */").unwrap();
    assert_eq!(
        e.printed.as_deref(),
        Some(
            "--- a.c\n+++ a.c\n@@ -1,4 +1,3 @@\n int a;\n-/* one\n-   two */\n+/* one two */\n int b;\n"
        )
    );

    let e = emitted(Mode::DryRun, Target::File, "/* one two */").unwrap();
    assert_eq!(
        e.printed.as_deref(),
        Some(
            "a.c: 1 comment range(s) would change (2 source line(s)); rerun without --dry-run to write\n"
        )
    );
}

#[test]
fn a_plan_that_cancels_out_changes_nothing() {
    let same = &SOURCE[7..23];
    let e = emitted(Mode::Write, Target::File, same).unwrap();
    assert_eq!((e.action, e.printed.as_deref()), (Action::Leave, None));
    let e = emitted(Mode::Check, Target::File, same).unwrap();
    assert_eq!(e.outcome, Outcome::Done { changed: false });
    let e = emitted(Mode::Diff, Target::File, same).unwrap();
    assert_eq!(e.printed, None);
    let e = emitted(Mode::DryRun, Target::File, same).unwrap();
    assert_eq!(e.printed.as_deref(), Some("a.c: no changes\n"));
}

#[test]
fn a_faulty_plan_emits_nothing() {
    let plan = [Replacement { start: 0, end: 3, text: String::new() }];
    let e = emit(Mode::Write, Target::File, "a.c", SOURCE, &[], SOURCE, &plan, &[]);
    assert_eq!(
        e.err(),
        Some(RewriteError::CoversCode { start: 0, end: 3, at: 0 })
    );
}

#[test]
fn the_modes_agree_on_what_changes() {
    for text in ["/* one two */", &SOURCE[7..23]] {
        let check = emitted(Mode::Check, Target::File, text).unwrap();
        let diff = emitted(Mode::Diff, Target::File, text).unwrap();
        let dry_run = emitted(Mode::DryRun, Target::File, text).unwrap();
        let write = emitted(Mode::Write, Target::File, text).unwrap();
        let changed = write.result != SOURCE;
        assert_eq!(check.outcome, Outcome::Done { changed });
        assert_eq!(diff.action == Action::ShowDiff, changed);
        assert_eq!(diff.printed.is_some(), changed);
        assert_eq!(dry_run.action == Action::ShowSummary, changed);
        assert_eq!(write.action == Action::WriteFile, changed);
        for e in [&check, &diff, &dry_run] {
            assert_eq!(e.result, write.result);
            assert!(e.action != Action::WriteFile && e.action != Action::WriteStdout);
        }
        for e in [&diff, &dry_run, &write] {
            assert_eq!(e.outcome, Outcome::Done { changed: false });
        }
    }
}
