//! Command-line arguments, hand-rolled.
//!
//! Parsing is the boring kind: one pass, "--flag" and "--opt VALUE" and
//! "--opt=VALUE", "--" ends option parsing, and a lone "-" is a path meaning
//! stdin. Anything unrecognized is an error rather than a guess.

use vstd::prelude::*;
use vstd::slice::slice_subrange;

use crate::parse::Language;
use crate::text;
use crate::text::Class;

verus! {

broadcast use vstd::string::group_string_axioms;

/// The help text.
pub const USAGE: &'static str = "\
Usage: commentflow [OPTIONS] <PATHS>...
       commentflow [OPTIONS] --files-from <FILE|->

C/C++/Rust/POSIX-shell/assembly comment reflow.

Arguments:
  <PATHS>...  Source file(s) or directory(ies) to reflow, or '-' for stdin.
              Extensions, matched case-insensitively, so '.S' is '.s':
              .c .h .m .cc .cpp .cxx .c++ .hh .hpp .hxx .h++ .mm .rs .sh
              .bash .s

Options:
      --files-from <FILE|->  Read the path list from a file (or '-' for stdin);
                             newline- or NUL-delimited
      --lang <LANG>          Source language for the '-' (stdin) source;
                             required only with '-'
                             [possible values: c, cpp, rust, shell, asm]
      --check                Report whether any changes would be made; exit 1
                             if so. No writes
      --diff                 Print a unified diff to stdout. No writes
      --dry-run              Summarize what would change without writing
      --column-limit <N>     Override .clang-format ColumnLimit discovery
                             (0 disables reflow)
      --to-blocks            Also rewrite standalone '//' comment runs as
                             '/* */' blocks before reflowing. Doc comments
                             ('///', '//!'), trailing '//', and a file-start
                             SPDX header are left alone
  -h, --help                 Print help

Exit codes:
  0  success (write/diff/dry-run completed; --check found no changes)
  1  --check found one or more changes that would be made (write mode does not use this)
  2  I/O or parse error

Use '-' as the path to read source from stdin and write the result to
stdout (requires --lang). '--files-from <file|->' reads a newline- or
NUL-delimited path list instead of listing paths on the command line.
";

/// What an error message ends with.
pub const USAGE_SHORT: &'static str = "\
Usage: commentflow [OPTIONS] <PATHS>...
       commentflow [OPTIONS] --files-from <FILE|->

For more information, try '--help'.
";

/// Explicit source language for the stdin ("-") source, which has no file
/// extension to detect from.
#[derive(Debug, Clone, Copy, PartialEq, Eq, Structural)]
pub enum Lang {
    C,
    Cpp,
    Rust,
    Shell,
    Asm,
}

impl Lang {
    /// The language itself.
    pub open spec fn language(self) -> Language {
        match self {
            Lang::C => Language::C,
            Lang::Cpp => Language::Cpp,
            Lang::Rust => Language::Rust,
            Lang::Shell => Language::Shell,
            Lang::Asm => Language::Asm,
        }
    }

    pub fn to_language(self) -> (l: Language)
        ensures
            l == self.language(),
    {
        match self {
            Lang::C => Language::C,
            Lang::Cpp => Language::Cpp,
            Lang::Rust => Language::Rust,
            Lang::Shell => Language::Shell,
            Lang::Asm => Language::Asm,
        }
    }

    /// The language that a value names.
    pub open spec fn named(v: Seq<char>) -> Option<Lang> {
        if v == "c"@ {
            Some(Lang::C)
        } else if v == "cpp"@ {
            Some(Lang::Cpp)
        } else if v == "rust"@ {
            Some(Lang::Rust)
        } else if v == "shell"@ {
            Some(Lang::Shell)
        } else if v == "asm"@ {
            Some(Lang::Asm)
        } else {
            None
        }
    }

    /// Looks a language name up.
    pub fn from_value(v: &[char]) -> (r: Option<Lang>)
        ensures
            r == Lang::named(v@),
    {
        if text::same_str(v, "c") {
            Some(Lang::C)
        } else if text::same_str(v, "cpp") {
            Some(Lang::Cpp)
        } else if text::same_str(v, "rust") {
            Some(Lang::Rust)
        } else if text::same_str(v, "shell") {
            Some(Lang::Shell)
        } else if text::same_str(v, "asm") {
            Some(Lang::Asm)
        } else {
            None
        }
    }
}

/// What a run is to do with its results.
#[derive(Debug, Clone, Copy, PartialEq, Eq, Structural)]
pub enum Mode {
    Write,
    Check,
    Diff,
    DryRun,
}

/// The parsed arguments.
#[derive(Debug, PartialEq, Eq)]
pub struct Args {
    /// Source file(s) or directory(ies) to reflow, or "-" for stdin.
    pub paths: Vec<String>,
    /// Read the path list from a file (or "-" for stdin); newline- or
    /// NUL-delimited.
    pub files_from: Option<String>,
    /// Source language for the "-" (stdin) source; required only with "-".
    pub lang: Option<Lang>,
    /// Report whether any changes would be made; exit 1 if so. No writes.
    pub check: bool,
    /// Print a unified diff to stdout. No writes.
    pub diff: bool,
    /// Summarize what would change without writing.
    pub dry_run: bool,
    /// Override .clang-format ColumnLimit discovery (0 disables reflow).
    pub column_limit: Option<usize>,
    /// Also rewrite standalone "//" comment runs as "/* */" blocks before
    /// reflowing.
    pub to_blocks: bool,
}

/// The parsed arguments as plain data.
#[verifier::ext_equal]
pub struct ArgsView {
    pub paths: Seq<Seq<char>>,
    pub files_from: Option<Seq<char>>,
    pub lang: Option<Lang>,
    pub check: bool,
    pub diff: bool,
    pub dry_run: bool,
    pub column_limit: Option<usize>,
    pub to_blocks: bool,
}

/// The texts of strings.
pub open spec fn texts(v: Seq<String>) -> Seq<Seq<char>> {
    v.map_values(|s: String| s@)
}

impl View for Args {
    type V = ArgsView;

    open spec fn view(&self) -> ArgsView {
        ArgsView {
            paths: texts(self.paths@),
            files_from: match self.files_from {
                Some(s) => Some(s@),
                None => None,
            },
            lang: self.lang,
            check: self.check,
            diff: self.diff,
            dry_run: self.dry_run,
            column_limit: self.column_limit,
            to_blocks: self.to_blocks,
        }
    }
}

impl ArgsView {
    /// The arguments of an empty command line.
    pub open spec fn empty() -> ArgsView {
        ArgsView {
            paths: Seq::empty(),
            files_from: None,
            lang: None,
            check: false,
            diff: false,
            dry_run: false,
            column_limit: None,
            to_blocks: false,
        }
    }

    /// With one more path.
    pub open spec fn with_path(self, p: Seq<char>) -> ArgsView {
        ArgsView { paths: self.paths.push(p), ..self }
    }

    /// The mode that the flags select.
    pub open spec fn mode(self) -> Mode {
        if self.check {
            Mode::Check
        } else if self.diff {
            Mode::Diff
        } else if self.dry_run {
            Mode::DryRun
        } else {
            Mode::Write
        }
    }

    /// What is wrong with the arguments as a whole. An input source is required
    /// and comes from exactly one place, and the three no-write modes are
    /// mutually exclusive.
    pub open spec fn complaint(self) -> Option<Seq<char>> {
        if self.paths.len() == 0 && self.files_from is None {
            Some("no input: give at least one path, or --files-from <file|->"@)
        } else if self.paths.len() > 0 && self.files_from is Some {
            Some("--files-from cannot be combined with path arguments"@)
        } else if self.check && self.diff && self.dry_run {
            Some("--check cannot be used with --diff, --dry-run"@)
        } else if self.check && self.diff {
            Some("--check cannot be used with --diff"@)
        } else if self.check && self.dry_run {
            Some("--check cannot be used with --dry-run"@)
        } else if self.diff && self.dry_run {
            Some("--diff cannot be used with --dry-run"@)
        } else {
            None
        }
    }
}

/// Why parsing stopped. "Help" is not a failure: it is the one outcome that
/// prints to stdout and exits 0.
#[derive(Debug, PartialEq, Eq)]
pub enum ParseError {
    Help,
    Message(String),
}

/// Why parsing stopped, as plain data.
#[verifier::ext_equal]
pub enum Stop {
    Help,
    Message(Seq<char>),
}

impl View for ParseError {
    type V = Stop;

    open spec fn view(&self) -> Stop {
        match self {
            ParseError::Help => Stop::Help,
            ParseError::Message(m) => Stop::Message(m@),
        }
    }
}

impl ParseError {
    /// What to print: the help text, or the message.
    pub fn message(&self) -> (m: String)
        ensures
            m@ == match self@ {
                Stop::Help => USAGE@,
                Stop::Message(t) => t,
            },
    {
        match self {
            ParseError::Help => {
                let mut m: String = String::new();
                m.push_str(USAGE);
                m
            },
            ParseError::Message(t) => t.clone(),
        }
    }
}

/// A value glued to a flag is a mistake worth reporting.
pub open spec fn unexpected_value(v: Seq<char>, name: Seq<char>) -> Seq<char> {
    "unexpected value '"@ + v + "' for '"@ + name + "' found; no more were expected"@
}

/// Repeating an option is an error, not last-one-wins.
pub open spec fn repeated(name: Seq<char>) -> Seq<char> {
    "the argument '"@ + name + "' cannot be used multiple times"@
}

pub open spec fn missing_value(name: Seq<char>) -> Seq<char> {
    "a value is required for '"@ + name + "' but none was supplied"@
}

pub open spec fn bad_lang(v: Seq<char>) -> Seq<char> {
    "invalid value '"@ + v + "' for --lang (expected one of: c, cpp, rust, shell, asm)"@
}

pub open spec fn bad_limit(v: Seq<char>) -> Seq<char> {
    "invalid value '"@ + v + "' for --column-limit (expected a number)"@
}

pub open spec fn unrecognized(name: Seq<char>) -> Seq<char> {
    "unrecognized option '"@ + name + "'"@
}

/// A message made of a text between two others.
fn around(before: &str, middle: &[char], after: &str) -> (m: String)
    ensures
        m@ == before@ + middle@ + after@,
{
    let mut m: String = String::new();
    m.push_str(before);
    let t = text::string_of(middle);
    m.push_str(t.as_str());
    m.push_str(after);
    assert(m@ =~= before@ + middle@ + after@);
    m
}

/// The name and the glued value of an argument. Only "--name=value" splits: "--"
/// alone is no name.
pub open spec fn split_option(arg: Seq<char>) -> (Seq<char>, Option<Seq<char>>) {
    let n = text::run_len(arg, Class::Not('=')) as int;
    if n < arg.len() && n > 2 && text::starts_with(arg, "--"@) {
        (arg.take(n), Some(arg.skip(n + 1)))
    } else {
        (arg, None)
    }
}

/// Whether an argument can be the value of the option in front of it: a lone
/// "-", or anything that does not look like an option.
pub open spec fn is_value(arg: Seq<char>) -> bool {
    arg == "-"@ || !text::starts_with(arg, "-"@)
}

/// A number on the command line: digits, which a "+" may precede.
pub open spec fn limit_value(v: Seq<char>) -> Option<usize> {
    if v.len() > 0 && v[0] == '+' {
        text::read_number(v.skip(1))
    } else {
        text::read_number(v)
    }
}

/// What one argument leads to: on with the arguments behind the first "used", or
/// no further.
#[verifier::ext_equal]
pub enum Step {
    On { args: ArgsView, used: int, only_paths: bool },
    Halt(Stop),
}

/// A flag sets itself, once, and takes no value.
pub open spec fn flag_step(
    name: Seq<char>,
    inline: Option<Seq<char>>,
    seen: bool,
    set: ArgsView,
) -> Step {
    match inline {
        Some(v) => Step::Halt(Stop::Message(unexpected_value(v, name))),
        None => if seen {
            Step::Halt(Stop::Message(repeated(name)))
        } else {
            Step::On { args: set, used: 1, only_paths: false }
        },
    }
}

/// The value of an option that the arguments open with, and the number of
/// arguments that the two take.
pub open spec fn option_value(argv: Seq<Seq<char>>, inline: Option<Seq<char>>) -> Option<
    (Seq<char>, int),
> {
    match inline {
        Some(v) => Some((v, 1)),
        None => if argv.len() > 1 && is_value(argv[1]) {
            Some((argv[1], 2))
        } else {
            None
        },
    }
}

/// What the first argument leads to.
pub open spec fn step(argv: Seq<Seq<char>>, args: ArgsView) -> Step {
    let arg = argv[0];
    let (name, inline) = split_option(arg);
    if name == "--"@ {
        Step::On { args, used: 1, only_paths: true }
    } else if name == "-h"@ || name == "--help"@ {
        match inline {
            Some(v) => Step::Halt(Stop::Message(unexpected_value(v, name))),
            None => Step::Halt(Stop::Help),
        }
    } else if name == "--check"@ {
        flag_step(name, inline, args.check, ArgsView { check: true, ..args })
    } else if name == "--diff"@ {
        flag_step(name, inline, args.diff, ArgsView { diff: true, ..args })
    } else if name == "--dry-run"@ {
        flag_step(name, inline, args.dry_run, ArgsView { dry_run: true, ..args })
    } else if name == "--to-blocks"@ {
        flag_step(name, inline, args.to_blocks, ArgsView { to_blocks: true, ..args })
    } else if name == "--files-from"@ {
        match option_value(argv, inline) {
            None => Step::Halt(Stop::Message(missing_value(name))),
            Some((v, used)) => if args.files_from is Some {
                Step::Halt(Stop::Message(repeated(name)))
            } else {
                Step::On {
                    args: ArgsView { files_from: Some(v), ..args },
                    used,
                    only_paths: false,
                }
            },
        }
    } else if name == "--lang"@ {
        match option_value(argv, inline) {
            None => Step::Halt(Stop::Message(missing_value(name))),
            Some((v, used)) => match Lang::named(v) {
                None => Step::Halt(Stop::Message(bad_lang(v))),
                Some(lang) => if args.lang is Some {
                    Step::Halt(Stop::Message(repeated(name)))
                } else {
                    Step::On {
                        args: ArgsView { lang: Some(lang), ..args },
                        used,
                        only_paths: false,
                    }
                },
            },
        }
    } else if name == "--column-limit"@ {
        match option_value(argv, inline) {
            None => Step::Halt(Stop::Message(missing_value(name))),
            Some((v, used)) => match limit_value(v) {
                None => Step::Halt(Stop::Message(bad_limit(v))),
                Some(n) => if args.column_limit is Some {
                    Step::Halt(Stop::Message(repeated(name)))
                } else {
                    Step::On {
                        args: ArgsView { column_limit: Some(n), ..args },
                        used,
                        only_paths: false,
                    }
                },
            },
        }
    } else if name != "-"@ && text::starts_with(arg, "-"@) {
        Step::Halt(Stop::Message(unrecognized(name)))
    } else {
        Step::On { args: args.with_path(arg), used: 1, only_paths: false }
    }
}

/// What the arguments from here on amount to, after those that gave "args". With
/// "only_paths" set, "--" came before.
pub open spec fn parsed(argv: Seq<Seq<char>>, args: ArgsView, only_paths: bool) -> Result<
    ArgsView,
    Stop,
>
    decreases argv.len(),
{
    if argv.len() == 0 {
        match args.complaint() {
            Some(m) => Err(Stop::Message(m)),
            None => Ok(args),
        }
    } else if only_paths {
        parsed(argv.skip(1), args.with_path(argv[0]), true)
    } else {
        match step(argv, args) {
            Step::Halt(stop) => Err(stop),
            Step::On { args: next, used, only_paths: rest } => if 1 <= used <= argv.len() {
                parsed(argv.skip(used), next, rest)
            } else {
                Ok(next)
            },
        }
    }
}

/// Refuses a value glued to a flag.
pub fn reject_value(inline: &Option<Vec<char>>, name: &[char]) -> (res: Result<(), ParseError>)
    ensures
        match *inline {
            Some(v) => res is Err && res->Err_0@ == Stop::Message(unexpected_value(v@, name@)),
            None => res is Ok,
        },
{
    match inline {
        Some(v) => {
            let head = around("unexpected value '", v.as_slice(), "' for '");
            let mut m: String = head;
            let n = text::string_of(name);
            m.push_str(n.as_str());
            m.push_str("' found; no more were expected");
            assert(m@ =~= unexpected_value(v@, name@));
            Err(ParseError::Message(m))
        },
        None => Ok(()),
    }
}

/// Fills a slot that must be empty.
pub fn set_once<T>(slot: &mut Option<T>, value: T, name: &[char]) -> (res: Result<(), ParseError>)
    ensures
        match *old(slot) {
            Some(_) => *final(slot) == *old(slot) && res is Err && res->Err_0@ == Stop::Message(
                repeated(name@),
            ),
            None => *final(slot) == Some(value) && res is Ok,
        },
{
    if slot.is_some() {
        return Err(
            ParseError::Message(
                around("the argument '", name, "' cannot be used multiple times"),
            ),
        );
    }
    *slot = Some(value);
    Ok(())
}

/// Sets a flag that must not be set yet.
pub fn set_flag(slot: &mut bool, name: &[char]) -> (res: Result<(), ParseError>)
    ensures
        *final(slot),
        if *old(slot) {
            res is Err && res->Err_0@ == Stop::Message(repeated(name@))
        } else {
            res is Ok
        },
{
    if *slot {
        return Err(
            ParseError::Message(
                around("the argument '", name, "' cannot be used multiple times"),
            ),
        );
    }
    *slot = true;
    Ok(())
}

/// The text of a glued value.
pub open spec fn opened(inline: Option<Vec<char>>) -> Option<Seq<char>> {
    match inline {
        Some(v) => Some(v@),
        None => None,
    }
}

/// Splits an argument into its name and its glued value.
fn split_argument(arg: &[char]) -> (r: (Vec<char>, Option<Vec<char>>))
    ensures
        (r.0@, opened(r.1)) == split_option(arg@),
{
    let n: usize = text::count_run(arg, Class::Not('='));
    if n < arg.len() && n > 2 && text::begins(arg, "--") {
        (
            text::slice_to_vec(slice_subrange(arg, 0, n)),
            Some(text::slice_to_vec(slice_subrange(arg, n + 1, arg.len()))),
        )
    } else {
        (text::slice_to_vec(arg), None)
    }
}

/// The value of the option at "i", and the number of arguments that the two
/// take: glued to it, or the next argument.
fn take_value(argv: &Vec<String>, i: usize, inline: &Option<Vec<char>>, name: &[char]) -> (res: Result<
    (Vec<char>, usize),
    ParseError,
>)
    requires
        i < argv@.len(),
    ensures
        match option_value(texts(argv@).skip(i as int), opened(*inline)) {
            Some((v, used)) => res is Ok && (res->Ok_0).0@ == v && (res->Ok_0).1 == used,
            None => res is Err && res->Err_0@ == Stop::Message(missing_value(name@)),
        },
{
    let ghost rest = texts(argv@).skip(i as int);
    match inline {
        Some(v) => Ok((text::slice_to_vec(v.as_slice()), 1)),
        None => {
            if i < argv.len() - 1 {
                let next = text::chars_of(argv[i + 1].as_str());
                assert(rest[1] == next@);
                if text::same_str(next.as_slice(), "-") || !text::begins(next.as_slice(), "-") {
                    return Ok((next, 2));
                }
            }
            Err(
                ParseError::Message(
                    around("a value is required for '", name, "' but none was supplied"),
                ),
            )
        },
    }
}

/// Reads a number on the command line.
fn parse_limit(v: &[char]) -> (r: Option<usize>)
    ensures
        r == limit_value(v@),
{
    if v.len() > 0 && v[0] == '+' {
        text::parse_number(slice_subrange(v, 1, v.len()))
    } else {
        text::parse_number(v)
    }
}

impl Default for Args {
    fn default() -> (r: Args)
        ensures
            r@ == ArgsView::empty(),
    {
        let r = Args {
            paths: Vec::new(),
            files_from: None,
            lang: None,
            check: false,
            diff: false,
            dry_run: false,
            column_limit: None,
            to_blocks: false,
        };
        assert(r@ =~= ArgsView::empty());
        r
    }
}

impl Args {
    /// Adds a path.
    fn push_path(&mut self, arg: &[char])
        ensures
            final(self)@ == old(self)@.with_path(arg@),
    {
        self.paths.push(text::string_of(arg));
        assert(texts(self.paths@) =~= texts(old(self).paths@).push(arg@));
    }

    /// Takes the option at "i" in, and tells how many arguments it took and
    /// whether only paths follow.
    fn accept(&mut self, argv: &Vec<String>, i: usize) -> (res: Result<(usize, bool), ParseError>)
        requires
            i < argv@.len(),
        ensures
            match step(texts(argv@).skip(i as int), old(self)@) {
                Step::On { args, used, only_paths } => res is Ok && final(self)@ == args
                    && (res->Ok_0).0 == used && (res->Ok_0).1 == only_paths,
                Step::Halt(stop) => res is Err && res->Err_0@ == stop,
            },
    {
        let arg = text::chars_of(argv[i].as_str());
        let arg = arg.as_slice();
        let (name, inline) = split_argument(arg);
        let name = name.as_slice();
        let ghost rest = texts(argv@).skip(i as int);
        let ghost before = self@;
        assert(rest[0] == arg@);
        assert(split_option(arg@) == (name@, opened(inline)));
        if text::same_str(name, "--") {
            return Ok((1, true));
        }
        if text::same_str(name, "-h") || text::same_str(name, "--help") {
            reject_value(&inline, name)?;
            return Err(ParseError::Help);
        }
        if text::same_str(name, "--check") {
            reject_value(&inline, name)?;
            set_flag(&mut self.check, name)?;
            assert(self@ =~= (ArgsView { check: true, ..before }));
            return Ok((1, false));
        }
        if text::same_str(name, "--diff") {
            reject_value(&inline, name)?;
            set_flag(&mut self.diff, name)?;
            assert(self@ =~= (ArgsView { diff: true, ..before }));
            return Ok((1, false));
        }
        if text::same_str(name, "--dry-run") {
            reject_value(&inline, name)?;
            set_flag(&mut self.dry_run, name)?;
            assert(self@ =~= (ArgsView { dry_run: true, ..before }));
            return Ok((1, false));
        }
        if text::same_str(name, "--to-blocks") {
            reject_value(&inline, name)?;
            set_flag(&mut self.to_blocks, name)?;
            assert(self@ =~= (ArgsView { to_blocks: true, ..before }));
            return Ok((1, false));
        }
        if text::same_str(name, "--files-from") {
            let (v, used) = take_value(argv, i, &inline, name)?;
            set_once(&mut self.files_from, text::string_of(v.as_slice()), name)?;
            assert(self@ =~= (ArgsView { files_from: Some(v@), ..before }));
            return Ok((used, false));
        }
        if text::same_str(name, "--lang") {
            let (v, used) = take_value(argv, i, &inline, name)?;
            let lang = match Lang::from_value(v.as_slice()) {
                Some(lang) => lang,
                None => {
                    return Err(
                        ParseError::Message(
                            around(
                                "invalid value '",
                                v.as_slice(),
                                "' for --lang (expected one of: c, cpp, rust, shell, asm)",
                            ),
                        ),
                    );
                },
            };
            set_once(&mut self.lang, lang, name)?;
            assert(self@ =~= (ArgsView { lang: Some(lang), ..before }));
            return Ok((used, false));
        }
        if text::same_str(name, "--column-limit") {
            let (v, used) = take_value(argv, i, &inline, name)?;
            let n: usize = match parse_limit(v.as_slice()) {
                Some(n) => n,
                None => {
                    return Err(
                        ParseError::Message(
                            around(
                                "invalid value '",
                                v.as_slice(),
                                "' for --column-limit (expected a number)",
                            ),
                        ),
                    );
                },
            };
            set_once(&mut self.column_limit, n, name)?;
            assert(self@ =~= (ArgsView { column_limit: Some(n), ..before }));
            return Ok((used, false));
        }
        if !text::same_str(name, "-") && text::begins(arg, "-") {
            return Err(ParseError::Message(around("unrecognized option '", name, "'")));
        }
        self.push_path(arg);
        Ok((1, false))
    }

    /// Parses a command line without the program's name.
    ///
    /// A value glued with "=" is only legal on an option that takes one, a value
    /// that looks like the next option is a missing value rather than a value,
    /// and repeating any option is an error. A lone "-" is a real value, meaning
    /// stdin.
    pub fn try_parse_from(argv: Vec<String>) -> (res: Result<Args, ParseError>)
        ensures
            match parsed(texts(argv@), ArgsView::empty(), false) {
                Ok(args) => res is Ok && res->Ok_0@ == args,
                Err(stop) => res is Err && res->Err_0@ == stop,
            },
    {
        let mut args = Args::default();
        let mut only_paths = false;
        let mut i: usize = 0;
        let ghost all = texts(argv@);
        assert(all.skip(0) =~= all);
        while i < argv.len()
            invariant
                i <= argv@.len(),
                all == texts(argv@),
                parsed(all, ArgsView::empty(), false) == parsed(
                    all.skip(i as int),
                    args@,
                    only_paths,
                ),
            decreases argv@.len() - i,
        {
            let ghost rest = all.skip(i as int);
            if only_paths {
                let arg = text::chars_of(argv[i].as_str());
                assert(rest[0] == arg@);
                assert(rest.skip(1) =~= all.skip(i + 1));
                args.push_path(arg.as_slice());
                i = i + 1;
                continue ;
            }
            let (used, paths) = args.accept(&argv, i)?;
            assert(rest.skip(used as int) =~= all.skip(i + used));
            only_paths = paths;
            i = i + used;
        }
        args.validate()?;
        Ok(args)
    }

    /// Checks the rules that concern the arguments as a whole.
    pub fn validate(&self) -> (res: Result<(), ParseError>)
        ensures
            match self@.complaint() {
                Some(m) => res is Err && res->Err_0@ == Stop::Message(m),
                None => res is Ok,
            },
    {
        if self.paths.len() == 0 && self.files_from.is_none() {
            return Err(complain("no input: give at least one path, or --files-from <file|->"));
        }
        if self.paths.len() > 0 && self.files_from.is_some() {
            return Err(complain("--files-from cannot be combined with path arguments"));
        }
        if self.check && self.diff && self.dry_run {
            return Err(complain("--check cannot be used with --diff, --dry-run"));
        }
        if self.check && self.diff {
            return Err(complain("--check cannot be used with --diff"));
        }
        if self.check && self.dry_run {
            return Err(complain("--check cannot be used with --dry-run"));
        }
        if self.diff && self.dry_run {
            return Err(complain("--diff cannot be used with --dry-run"));
        }
        Ok(())
    }

    /// The mode that the flags select.
    pub fn mode(&self) -> (m: Mode)
        ensures
            m == self@.mode(),
    {
        if self.check {
            Mode::Check
        } else if self.diff {
            Mode::Diff
        } else if self.dry_run {
            Mode::DryRun
        } else {
            Mode::Write
        }
    }
}

/// A complaint with a fixed text.
fn complain(m: &str) -> (e: ParseError)
    ensures
        e@ == Stop::Message(m@),
{
    let mut s: String = String::new();
    s.push_str(m);
    assert(s@ =~= m@);
    ParseError::Message(s)
}

/// A command line that parses names its input in exactly one way and asks for at
/// most one no-write mode.
pub proof fn law_parsed_args_are_consistent(
    argv: Seq<Seq<char>>,
    args: ArgsView,
    only_paths: bool,
)
    requires
        parsed(argv, args, only_paths) is Ok,
    ensures
        ({
            let a = parsed(argv, args, only_paths)->Ok_0;
            &&& a.paths.len() > 0 <==> a.files_from is None
            &&& !(a.check && a.diff)
            &&& !(a.check && a.dry_run)
            &&& !(a.diff && a.dry_run)
        }),
    decreases argv.len(),
{
    if argv.len() > 0 {
        if only_paths {
            law_parsed_args_are_consistent(argv.skip(1), args.with_path(argv[0]), true);
        } else {
            match step(argv, args) {
                Step::On { args: next, used, only_paths: rest } => {
                    assert(1 <= used <= argv.len());
                    law_parsed_args_are_consistent(argv.skip(used), next, rest);
                },
                Step::Halt(_) => {},
            }
        }
    }
}

/// Behind "--" every argument is a path, whatever it looks like.
pub proof fn law_only_paths_follow_a_double_dash(rest: Seq<Seq<char>>, args: ArgsView)
    ensures
        parsed(seq!["--"@] + rest, args, false) == parsed(rest, args, true),
        parsed(rest, args, true) == parsed(
            Seq::empty(),
            ArgsView { paths: args.paths + rest, ..args },
            true,
        ),
{
    let argv = seq!["--"@] + rest;
    assert(argv.skip(1) =~= rest);
    lemma_double_dash_does_not_split();
    lemma_all_are_paths(rest, args);
}

proof fn lemma_double_dash_does_not_split()
    ensures
        split_option("--"@) == ("--"@, None::<Seq<char>>),
{
    reveal_strlit("--");
    text::lemma_run_len("--"@, Class::Not('='));
}

proof fn lemma_all_are_paths(rest: Seq<Seq<char>>, args: ArgsView)
    ensures
        parsed(rest, args, true) == parsed(
            Seq::empty(),
            ArgsView { paths: args.paths + rest, ..args },
            true,
        ),
    decreases rest.len(),
{
    if rest.len() > 0 {
        let next = args.with_path(rest[0]);
        lemma_all_are_paths(rest.skip(1), next);
        assert(next.paths + rest.skip(1) =~= args.paths + rest);
    } else {
        assert(args.paths + rest =~= args.paths);
        assert(rest =~= Seq::empty());
    }
}

/// Help wins over whatever came before and whatever follows.
pub proof fn law_help_wins(rest: Seq<Seq<char>>, args: ArgsView)
    ensures
        parsed(seq!["--help"@] + rest, args, false) == Err::<ArgsView, Stop>(Stop::Help),
        parsed(seq!["-h"@] + rest, args, false) == Err::<ArgsView, Stop>(Stop::Help),
{
    reveal_strlit("--help");
    reveal_strlit("-h");
    reveal_strlit("--");
    text::lemma_run_len("--help"@, Class::Not('='));
    text::lemma_run_len("-h"@, Class::Not('='));
    assert("-h"@[1] != "--"@[1]);
    assert((seq!["--help"@] + rest)[0] == "--help"@);
    assert((seq!["-h"@] + rest)[0] == "-h"@);
}

/// A lone "-" is a path.
pub proof fn law_lone_dash_is_a_path(rest: Seq<Seq<char>>, args: ArgsView)
    ensures
        parsed(seq!["-"@] + rest, args, false) == parsed(rest, args.with_path("-"@), false),
{
    lemma_names_differ();
    reveal_strlit("-");
    text::lemma_run_len("-"@, Class::Not('='));
    assert((seq!["-"@] + rest)[0] == "-"@);
    assert((seq!["-"@] + rest).skip(1) =~= rest);
}

/// Whether an option takes a value.
pub open spec fn takes_value(name: Seq<char>) -> bool {
    name == "--files-from"@ || name == "--lang"@ || name == "--column-limit"@
}

/// Whether a flag takes none.
pub open spec fn is_flag(name: Seq<char>) -> bool {
    name == "--check"@ || name == "--diff"@ || name == "--dry-run"@ || name == "--to-blocks"@
}

/// Whether an option or flag has been given.
pub open spec fn given(name: Seq<char>, args: ArgsView) -> bool {
    if name == "--check"@ {
        args.check
    } else if name == "--diff"@ {
        args.diff
    } else if name == "--dry-run"@ {
        args.dry_run
    } else if name == "--to-blocks"@ {
        args.to_blocks
    } else if name == "--files-from"@ {
        args.files_from is Some
    } else if name == "--lang"@ {
        args.lang is Some
    } else {
        args.column_limit is Some
    }
}

/// The options and flags are different names, none of them cut short by "=".
pub proof fn lemma_names_differ()
    ensures
        "-"@ != "--"@ && "-"@ != "-h"@ && "-"@ != "--help"@ && !takes_value("-"@) && !is_flag("-"@),
        forall|n: Seq<char>|
            #![trigger takes_value(n)]
            #![trigger is_flag(n)]
            takes_value(n) || is_flag(n) ==> n != "--"@ && n != "-h"@ && n != "--help"@ && n != "-"@
                && n.len() > 2 && text::starts_with(n, "--"@) && text::all_of(n, Class::Not('=')),
        forall|n: Seq<char>| #[trigger] takes_value(n) ==> !is_flag(n),
        "--files-from"@ != "--lang"@,
        "--files-from"@ != "--column-limit"@,
        "--lang"@ != "--column-limit"@,
        "--check"@ != "--diff"@,
        "--check"@ != "--dry-run"@,
        "--check"@ != "--to-blocks"@,
        "--diff"@ != "--dry-run"@,
        "--diff"@ != "--to-blocks"@,
        "--dry-run"@ != "--to-blocks"@,
{
    reveal_strlit("-");
    reveal_strlit("--");
    reveal_strlit("-h");
    reveal_strlit("--help");
    reveal_strlit("--check");
    reveal_strlit("--diff");
    reveal_strlit("--dry-run");
    reveal_strlit("--to-blocks");
    reveal_strlit("--files-from");
    reveal_strlit("--lang");
    reveal_strlit("--column-limit");
    assert("--"@ =~= seq!['-', '-']);
    assert("-"@.len() == 1 && "-h"@.len() == 2);
    assert("--help"@.len() == 6 && "--diff"@.len() == 6 && "--lang"@.len() == 6);
    assert("--help"@[2] == 'h' && "--diff"@[2] == 'd' && "--lang"@[2] == 'l');
    assert("--check"@.len() == 7 && "--dry-run"@.len() == 9 && "--to-blocks"@.len() == 11);
    assert("--files-from"@.len() == 12 && "--column-limit"@.len() == 14);
    assert forall|n: Seq<char>|
        #![trigger takes_value(n)]
        #![trigger is_flag(n)]
        takes_value(n) || is_flag(n) implies n != "--"@ && n
        != "-h"@ && n != "--help"@ && n != "-"@ && n.len() > 2 && text::starts_with(n, "--"@)
        && text::all_of(n, Class::Not('=')) by {
        assert(n.len() > 2);
        text::lemma_pair_at(n, '-', '-', 0);
    }
}

pub proof fn lemma_whole_name(name: Seq<char>)
    requires
        takes_value(name) || is_flag(name),
    ensures
        split_option(name) == (name, None::<Seq<char>>),
{
    lemma_names_differ();
    text::lemma_run_len(name, Class::Not('='));
    let n = text::run_len(name, Class::Not('=')) as int;
    if n < name.len() {
        assert(Class::Not('=').holds(name[n]));
    }
}

pub proof fn lemma_glued_name(name: Seq<char>, v: Seq<char>)
    requires
        takes_value(name) || is_flag(name),
    ensures
        split_option(name + "="@ + v) == (name, Some(v)),
{
    lemma_names_differ();
    reveal_strlit("=");
    let arg = name + "="@ + v;
    let n = name.len() as int;
    assert forall|i: int| 0 <= i < n implies Class::Not('=').holds(#[trigger] arg[i]) by {
        assert(arg[i] == name[i]);
        assert(Class::Not('=').holds(name[i]));
    }
    assert(arg[n] == '=');
    text::lemma_run_len_is(arg, Class::Not('='), n);
    assert(arg.take(n) =~= name);
    assert(arg.skip(n + 1) =~= v);
    assert("--"@ =~= seq!['-', '-']) by {
        reveal_strlit("--");
    }
    text::lemma_pair_at(name, '-', '-', 0);
    text::lemma_pair_at(arg, '-', '-', 0);
    assert(arg[0] == name[0] && arg[1] == name[1]);
}

/// A value glued to its option and a value behind it are read alike.
pub proof fn law_both_spellings_agree(
    name: Seq<char>,
    v: Seq<char>,
    rest: Seq<Seq<char>>,
    args: ArgsView,
)
    requires
        takes_value(name),
        is_value(v),
    ensures
        parsed(seq![name, v] + rest, args, false) == parsed(
            seq![name + "="@ + v] + rest,
            args,
            false,
        ),
{
    lemma_names_differ();
    lemma_whole_name(name);
    lemma_glued_name(name, v);
    let a = seq![name, v] + rest;
    let b = seq![name + "="@ + v] + rest;
    assert(a[0] == name && a[1] == v);
    assert(b[0] == name + "="@ + v);
    assert(a.skip(2) =~= rest);
    assert(b.skip(1) =~= rest);
    assert(option_value(a, None) == Some((v, 2int)));
    assert(option_value(b, Some(v)) == Some((v, 1int)));
}

/// An argument that looks like an option is no value: the option in front of it
/// lacks one.
pub proof fn law_an_option_is_no_value(
    name: Seq<char>,
    next: Seq<char>,
    rest: Seq<Seq<char>>,
    args: ArgsView,
)
    requires
        takes_value(name),
        !is_value(next),
    ensures
        parsed(seq![name, next] + rest, args, false) == Err::<ArgsView, Stop>(
            Stop::Message(missing_value(name)),
        ),
{
    lemma_names_differ();
    lemma_whole_name(name);
    let a = seq![name, next] + rest;
    assert(a[0] == name && a[1] == next);
}

/// A flag with a value glued to it is refused.
pub proof fn law_a_flag_takes_no_value(
    name: Seq<char>,
    v: Seq<char>,
    rest: Seq<Seq<char>>,
    args: ArgsView,
)
    requires
        is_flag(name),
    ensures
        parsed(seq![name + "="@ + v] + rest, args, false) == Err::<ArgsView, Stop>(
            Stop::Message(unexpected_value(v, name)),
        ),
{
    lemma_names_differ();
    lemma_glued_name(name, v);
    assert((seq![name + "="@ + v] + rest)[0] == name + "="@ + v);
}

/// A flag given twice is refused, and so is an option with a value that would be
/// fine the first time.
pub proof fn law_repeats_are_refused(
    name: Seq<char>,
    v: Seq<char>,
    rest: Seq<Seq<char>>,
    args: ArgsView,
)
    requires
        given(name, args),
    ensures
        is_flag(name) ==> parsed(seq![name] + rest, args, false) == Err::<ArgsView, Stop>(
            Stop::Message(repeated(name)),
        ),
        takes_value(name) && is_value(v) && (name == "--lang"@ ==> Lang::named(v) is Some) && (name
            == "--column-limit"@ ==> limit_value(v) is Some) ==> parsed(
            seq![name, v] + rest,
            args,
            false,
        ) == Err::<ArgsView, Stop>(Stop::Message(repeated(name))),
{
    lemma_names_differ();
    if is_flag(name) {
        lemma_whole_name(name);
        assert((seq![name] + rest)[0] == name);
    }
    if takes_value(name) {
        lemma_whole_name(name);
        let a = seq![name, v] + rest;
        assert(a[0] == name && a[1] == v);
    }
}

} // verus!
