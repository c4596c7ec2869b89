use commentflow::cli::{Args, Lang, Mode, ParseError, USAGE, USAGE_SHORT};
use commentflow::parse::Language;

fn parse(argv: &[&str]) -> Result<Args, ParseError> {
    Args::try_parse_from(argv.iter().map(|s| (*s).to_string()).collect())
}

fn message(argv: &[&str]) -> String {
    match parse(argv) {
        Err(ParseError::Message(m)) => m,
        other => panic!("expected a usage error, got {other:?}"),
    }
}

#[test]
fn paths_and_flags() {
    let a = parse(&["a.c", "b.c", "--check"]).unwrap();
    assert_eq!(a.paths, ["a.c", "b.c"]);
    assert!(a.check);
    assert_eq!(a.mode(), Mode::Check);
    assert_eq!(parse(&["a.c"]).unwrap().mode(), Mode::Write);
}

#[test]
fn option_values_both_spellings() {
    assert_eq!(
        parse(&["a.c", "--column-limit", "72"])
            .unwrap()
            .column_limit,
        Some(72)
    );
    assert_eq!(
        parse(&["a.c", "--column-limit=72"]).unwrap().column_limit,
        Some(72)
    );
    assert_eq!(parse(&["-", "--lang=cpp"]).unwrap().lang, Some(Lang::Cpp));
    assert_eq!(
        parse(&["--files-from=list"]).unwrap().files_from.as_deref(),
        Some("list")
    );
    // Zero is a real value: it disables reflow.
    assert_eq!(
        parse(&["a.c", "--column-limit", "0"]).unwrap().column_limit,
        Some(0)
    );
}

#[test]
fn a_lone_dash_is_a_path_not_an_option() {
    let a = parse(&["-", "--lang", "c"]).unwrap();
    assert_eq!(a.paths, ["-"]);
    assert_eq!(a.lang, Some(Lang::C));
}

#[test]
fn double_dash_ends_option_parsing() {
    let a = parse(&["--check", "--", "--weird-name.c"]).unwrap();
    assert_eq!(a.paths, ["--weird-name.c"]);
    assert!(a.check);
}

#[test]
fn input_source_is_required_and_singular() {
    assert!(message(&["--column-limit", "40"]).contains("no input"));
    assert!(message(&["a.c", "--files-from", "list"]).contains("--files-from"));
}

#[test]
fn no_write_modes_are_exclusive() {
    assert!(message(&["a.c", "--check", "--diff"]).contains("cannot be used with"));
    assert!(message(&["a.c", "--diff", "--dry-run"]).contains("cannot be used with"));
    assert_eq!(
        message(&["a.c", "--check", "--diff", "--dry-run"]),
        "--check cannot be used with --diff, --dry-run"
    );
}

#[test]
fn bad_values_and_unknown_options_are_errors() {
    assert!(message(&["-", "--lang", "python"]).contains("--lang"));
    assert!(message(&["a.c", "--column-limit", "wide"]).contains("--column-limit"));
    assert!(message(&["a.c", "--column-limit"]).contains("a value is required"));
    assert!(message(&["a.c", "--reflow-everything"]).contains("unrecognized"));
}

#[test]
fn a_flag_takes_no_value() {
    // clap rejects these rather than dropping the value silently.
    assert!(message(&["a.c", "--check=1"]).contains("unexpected value '1'"));
    assert!(message(&["a.c", "--to-blocks=x"]).contains("--to-blocks"));
    assert!(message(&["a.c", "--=x"]).contains("unrecognized"));
}

#[test]
fn a_value_that_looks_like_an_option_is_a_missing_value() {
    // Swallowing the next flag as a value loses the flag AND misreads the
    // option, which is the worst of both.
    assert!(message(&["--files-from", "--check"]).contains("a value is required"));
    assert!(message(&["a.c", "--column-limit", "--check"]).contains("a value is required"));
    assert!(message(&["-", "--lang", "--diff"]).contains("a value is required"));

    // A lone "-" is a real value: "--files-from -" reads the list from
    // stdin.
    assert_eq!(
        parse(&["--files-from", "-"]).unwrap().files_from.as_deref(),
        Some("-")
    );
}

#[test]
fn options_cannot_repeat() {
    assert!(message(&["a.c", "--check", "--check"]).contains("multiple times"));
    assert!(
        message(&["a.c", "--column-limit", "80", "--column-limit", "100"])
            .contains("multiple times")
    );
    assert!(message(&["--files-from", "a", "--files-from", "b"]).contains("multiple times"));
    assert!(message(&["-", "--lang", "c", "--lang", "cpp"]).contains("multiple times"));
}

#[test]
fn help_is_its_own_outcome() {
    assert_eq!(parse(&["--help"]), Err(ParseError::Help));
    assert_eq!(parse(&["-h"]), Err(ParseError::Help));
    // Help is a flag like any other: a glued value is still a mistake.
    assert!(message(&["--help=x"]).contains("unexpected value 'x'"));
    // Help wins even when the rest of the line would not validate.
    assert_eq!(
        parse(&["--check", "--diff", "--help"]),
        Err(ParseError::Help)
    );
}

#[test]
fn messages_are_exact() {
    assert_eq!(
        message(&["a.c", "--check=1"]),
        "unexpected value '1' for '--check' found; no more were expected"
    );
    assert_eq!(
        message(&["a.c", "--diff", "--diff"]),
        "the argument '--diff' cannot be used multiple times"
    );
    assert_eq!(
        message(&["--lang"]),
        "a value is required for '--lang' but none was supplied"
    );
    assert_eq!(
        message(&["--lang", "java"]),
        "invalid value 'java' for --lang (expected one of: c, cpp, rust, shell, asm)"
    );
    assert_eq!(
        message(&["--column-limit", "x"]),
        "invalid value 'x' for --column-limit (expected a number)"
    );
    assert_eq!(message(&["--nope=1"]), "unrecognized option '--nope'");
    assert_eq!(message(&["-x=1"]), "unrecognized option '-x=1'");
    assert_eq!(
        message(&[]),
        "no input: give at least one path, or --files-from <file|->"
    );
    assert_eq!(
        message(&["a", "--files-from=b"]),
        "--files-from cannot be combined with path arguments"
    );
    assert_eq!(
        message(&["a.c", "--check", "--dry-run"]),
        "--check cannot be used with --dry-run"
    );
    assert_eq!(
        message(&["a.c", "--check", "--diff"]),
        "--check cannot be used with --diff"
    );
    assert_eq!(
        message(&["a.c", "--diff", "--dry-run"]),
        "--diff cannot be used with --dry-run"
    );
}

#[test]
fn limits_are_read_like_numbers() {
    let limit = |v: &str| parse(&["a.c", "--column-limit", v]).ok().and_then(|a| a.column_limit);
    assert_eq!(limit("+72"), Some(72));
    assert_eq!(limit("007"), Some(7));
    let most = usize::MAX.to_string();
    assert_eq!(limit(&most), Some(usize::MAX));
    assert_eq!(limit(&format!("{most}0")), None);
    assert_eq!(limit("+"), None);
    assert_eq!(limit(""), None);
    assert_eq!(limit("7 "), None);
    assert!(message(&["a.c", "--column-limit=-7"]).contains("invalid value '-7'"));
}

#[test]
fn both_spellings_give_the_same_arguments() {
    for (opt, v) in [("--files-from", "list"), ("--files-from", "-"), ("--files-from", "a=b")] {
        assert_eq!(parse(&[opt, v]), parse(&[&format!("{opt}={v}")]));
    }
    for v in ["c", "cpp", "rust", "shell", "asm", "java"] {
        assert_eq!(parse(&["-", "--lang", v]), parse(&["-", &format!("--lang={v}")]));
    }
}

#[test]
fn languages_map_one_to_one() {
    let pairs = [
        ("c", Language::C),
        ("cpp", Language::Cpp),
        ("rust", Language::Rust),
        ("shell", Language::Shell),
        ("asm", Language::Asm),
    ];
    for (name, lang) in pairs {
        let a = parse(&["-", "--lang", name]).unwrap();
        assert_eq!(a.lang.unwrap().to_language(), lang);
    }
}

#[test]
fn paths_keep_their_order_behind_a_double_dash() {
    let a = parse(&["x", "--", "--", "-h", "--check=1"]).unwrap();
    assert_eq!(a.paths, ["x", "--", "-h", "--check=1"]);
    assert!(!a.check);
}

#[test]
fn modes_follow_the_flags() {
    assert_eq!(parse(&["a", "--diff"]).unwrap().mode(), Mode::Diff);
    assert_eq!(parse(&["a", "--dry-run"]).unwrap().mode(), Mode::DryRun);
    assert!(parse(&["a", "--to-blocks"]).unwrap().to_blocks);
}

#[test]
fn help_prints_the_usage() {
    assert_eq!(ParseError::Help.message(), USAGE);
    assert_eq!(ParseError::Message("m".to_string()).message(), "m");
    assert!(USAGE.starts_with("Usage: commentflow [OPTIONS] <PATHS>..."));
    assert!(USAGE.contains("--to-blocks"));
    assert!(USAGE_SHORT.ends_with("For more information, try '--help'.\n"));
}
