//! Laws of the command line.

use vstd::prelude::*;

use super::characters::run_ends;
use crate::cli;
use crate::cli::{ArgsView, Lang, Mode, Stop};
use crate::laws::characters;
use crate::text;
use crate::text::Class;

verus! {

broadcast use vstd::string::group_string_axioms;

/// A long option ends at its first equals sign, and its value begins behind it.
/// "n" is that sign's place, or the end of the argument.
pub proof fn law_option_names(arg: Seq<char>, n: int)
    requires
        run_ends(arg, 0, n, Class::Not('=')),
    ensures
        cli::split_option(arg) == if n < arg.len() && n > 2 && arg[0] == '-' && arg[1] == '-' {
            (arg.take(n), Some(arg.skip(n + 1)))
        } else {
            (arg, None)
        },
{
    characters::law_runs(arg, 0, n, Class::Not('='));
    reveal_strlit("--");
    assert("--"@ =~= seq!['-', '-']);
    text::lemma_pair_at(arg, '-', '-', 0);
}

/// A value is a lone hyphen or anything that does not open with one.
pub proof fn law_option_values(arg: Seq<char>)
    ensures
        cli::is_value(arg) <==> arg.len() == 0 || arg[0] != '-' || arg.len() == 1,
{
    reveal_strlit("-");
    assert("-"@ =~= seq!['-']);
    text::lemma_one_at(arg, '-', 0);
    if arg.len() == 1 && arg[0] == '-' {
        assert(arg =~= "-"@);
    }
}

/// Any number that fits is a column limit, with or without a plus sign.
pub proof fn law_limits(v: Seq<char>, n: usize)
    ensures
        cli::limit_value(text::decimal(n as nat)) == Some(n),
        cli::limit_value(seq!['+'] + text::decimal(n as nat)) == Some(n),
        cli::limit_value(seq!['+'] + v) == text::read_number(v),
        v.len() == 0 || v[0] != '+' ==> cli::limit_value(v) == text::read_number(v),
{
    let d = text::decimal(n as nat);
    text::lemma_decimal(n as nat);
    text::law_decimal_reads_back(n);
    assert(Class::Digit.holds(d[0]));
    assert((seq!['+'] + d).skip(1) =~= d);
    assert((seq!['+'] + v).skip(1) =~= v);
}

/// The names of the five languages, and no others.
pub proof fn law_language_names(v: Seq<char>)
    ensures
        Lang::named("c"@) == Some(Lang::C),
        Lang::named("cpp"@) == Some(Lang::Cpp),
        Lang::named("rust"@) == Some(Lang::Rust),
        Lang::named("shell"@) == Some(Lang::Shell),
        Lang::named("asm"@) == Some(Lang::Asm),
        Lang::named(v) is Some ==> v == "c"@ || v == "cpp"@ || v == "rust"@ || v == "shell"@ || v
            == "asm"@,
{
    reveal_strlit("c");
    reveal_strlit("cpp");
    reveal_strlit("rust");
    reveal_strlit("shell");
    reveal_strlit("asm");
    assert("c"@.len() == 1 && "cpp"@.len() == 3 && "rust"@.len() == 4 && "shell"@.len() == 5
        && "asm"@.len() == 3);
    assert("cpp"@[0] == 'c' && "asm"@[0] == 'a');
}

/// Without a no-write flag the mode is "Write", and with one of them it is that
/// flag's.
pub proof fn law_modes(args: ArgsView)
    ensures
        args.mode() == Mode::Write <==> !args.check && !args.diff && !args.dry_run,
        args.check && !args.diff && !args.dry_run ==> args.mode() == Mode::Check,
        args.diff && !args.check && !args.dry_run ==> args.mode() == Mode::Diff,
        args.dry_run && !args.check && !args.diff ==> args.mode() == Mode::DryRun,
{
}

/// Arguments are in order exactly when they name one source of input and at most
/// one no-write mode.
pub proof fn law_complaints(args: ArgsView)
    ensures
        args.complaint() is None <==> {
            &&& args.paths.len() > 0 <==> args.files_from is None
            &&& !(args.check && args.diff)
            &&& !(args.check && args.dry_run)
            &&& !(args.diff && args.dry_run)
        },
        args.paths.len() == 0 && args.files_from is None ==> args.complaint() == Some(
            "no input: give at least one path, or --files-from <file|->"@,
        ),
        args.paths.len() > 0 && args.files_from is Some ==> args.complaint() == Some(
            "--files-from cannot be combined with path arguments"@,
        ),
        (args.paths.len() > 0 <==> args.files_from is None) ==> {
            &&& args.check && args.diff && !args.dry_run ==> args.complaint() == Some(
                "--check cannot be used with --diff"@,
            )
            &&& args.check && !args.diff && args.dry_run ==> args.complaint() == Some(
                "--check cannot be used with --dry-run"@,
            )
            &&& !args.check && args.diff && args.dry_run ==> args.complaint() == Some(
                "--diff cannot be used with --dry-run"@,
            )
            &&& args.check && args.diff && args.dry_run ==> args.complaint() == Some(
                "--check cannot be used with --diff, --dry-run"@,
            )
        },
{
}

/// Where the arguments end, what was read stands, unless there is a complaint.
pub proof fn law_end_of_arguments(args: ArgsView, only_paths: bool)
    ensures
        args.complaint() is None ==> cli::parsed(Seq::empty(), args, only_paths) == Ok::<
            ArgsView,
            Stop,
        >(args),
        args.complaint() is Some ==> cli::parsed(Seq::empty(), args, only_paths) == Err::<
            ArgsView,
            Stop,
        >(Stop::Message(args.complaint()->0)),
        ArgsView::empty().paths.len() == 0,
        ArgsView::empty().files_from is None,
        ArgsView::empty().lang is None,
        ArgsView::empty().column_limit is None,
        !ArgsView::empty().check && !ArgsView::empty().diff && !ArgsView::empty().dry_run,
        !ArgsView::empty().to_blocks,
{
}

/// Each flag that is new sets its own field and no other, and what follows it is
/// read on.
pub proof fn law_flags(rest: Seq<Seq<char>>, args: ArgsView)
    ensures
        !args.check ==> cli::parsed(seq!["--check"@] + rest, args, false) == cli::parsed(
            rest,
            ArgsView { check: true, ..args },
            false,
        ),
        !args.diff ==> cli::parsed(seq!["--diff"@] + rest, args, false) == cli::parsed(
            rest,
            ArgsView { diff: true, ..args },
            false,
        ),
        !args.dry_run ==> cli::parsed(seq!["--dry-run"@] + rest, args, false) == cli::parsed(
            rest,
            ArgsView { dry_run: true, ..args },
            false,
        ),
        !args.to_blocks ==> cli::parsed(seq!["--to-blocks"@] + rest, args, false) == cli::parsed(
            rest,
            ArgsView { to_blocks: true, ..args },
            false,
        ),
{
    cli::lemma_names_differ();
    lemma_head("--check"@, rest);
    lemma_head("--diff"@, rest);
    lemma_head("--dry-run"@, rest);
    lemma_head("--to-blocks"@, rest);
    assert(cli::is_flag("--check"@) && !cli::takes_value("--check"@));
    assert(cli::is_flag("--diff"@) && !cli::takes_value("--diff"@));
    assert(cli::is_flag("--dry-run"@) && !cli::takes_value("--dry-run"@));
    assert(cli::is_flag("--to-blocks"@) && !cli::takes_value("--to-blocks"@));
    cli::lemma_whole_name("--check"@);
    cli::lemma_whole_name("--diff"@);
    cli::lemma_whole_name("--dry-run"@);
    cli::lemma_whole_name("--to-blocks"@);
}

proof fn lemma_head(arg: Seq<char>, rest: Seq<Seq<char>>)
    ensures
        (seq![arg] + rest)[0] == arg,
        (seq![arg] + rest).skip(1) == rest,
        (seq![arg] + rest).len() == rest.len() + 1,
{
    assert((seq![arg] + rest).skip(1) =~= rest);
}

/// Each option that is new puts its value into its own field and no other, and
/// what follows it is read on; a value that is none is reported.
pub proof fn law_options(v: Seq<char>, rest: Seq<Seq<char>>, args: ArgsView)
    requires
        cli::is_value(v),
    ensures
        args.files_from is None ==> cli::parsed(seq!["--files-from"@, v] + rest, args, false)
            == cli::parsed(rest, ArgsView { files_from: Some(v), ..args }, false),
        args.lang is None && Lang::named(v) is Some ==> cli::parsed(
            seq!["--lang"@, v] + rest,
            args,
            false,
        ) == cli::parsed(rest, ArgsView { lang: Lang::named(v), ..args }, false),
        Lang::named(v) is None ==> cli::parsed(seq!["--lang"@, v] + rest, args, false) == Err::<
            ArgsView,
            Stop,
        >(Stop::Message(cli::bad_lang(v))),
        args.column_limit is None && cli::limit_value(v) is Some ==> cli::parsed(
            seq!["--column-limit"@, v] + rest,
            args,
            false,
        ) == cli::parsed(rest, ArgsView { column_limit: cli::limit_value(v), ..args }, false),
        cli::limit_value(v) is None ==> cli::parsed(seq!["--column-limit"@, v] + rest, args, false)
            == Err::<ArgsView, Stop>(Stop::Message(cli::bad_limit(v))),
{
    cli::lemma_names_differ();
    assert(cli::takes_value("--files-from"@));
    assert(!cli::is_flag("--files-from"@));
    assert(cli::takes_value("--lang"@));
    assert(!cli::is_flag("--lang"@));
    assert(cli::takes_value("--column-limit"@));
    assert(!cli::is_flag("--column-limit"@));
    cli::lemma_whole_name("--files-from"@);
    cli::lemma_whole_name("--lang"@);
    cli::lemma_whole_name("--column-limit"@);
    lemma_heads("--files-from"@, v, rest);
    lemma_heads("--lang"@, v, rest);
    lemma_heads("--column-limit"@, v, rest);
}

proof fn lemma_heads(arg: Seq<char>, v: Seq<char>, rest: Seq<Seq<char>>)
    ensures
        (seq![arg, v] + rest)[0] == arg,
        (seq![arg, v] + rest)[1] == v,
        (seq![arg, v] + rest).skip(2) == rest,
        (seq![arg, v] + rest).len() == rest.len() + 2,
{
    assert((seq![arg, v] + rest).skip(2) =~= rest);
}

/// An option that needs a value and stands last lacks one.
pub proof fn law_last_option_lacks_its_value(name: Seq<char>, args: ArgsView)
    requires
        name == "--files-from"@ || name == "--lang"@ || name == "--column-limit"@,
    ensures
        cli::parsed(seq![name], args, false) == Err::<ArgsView, Stop>(
            Stop::Message(cli::missing_value(name)),
        ),
{
    cli::lemma_names_differ();
    assert(cli::takes_value(name));
    assert(!cli::is_flag(name));
    cli::lemma_whole_name(name);
    assert(seq![name][0] == name);
}

/// What does not open with a hyphen is a path, and what follows it is read on.
pub proof fn law_paths(arg: Seq<char>, rest: Seq<Seq<char>>, args: ArgsView)
    requires
        arg.len() == 0 || arg[0] != '-',
    ensures
        cli::parsed(seq![arg] + rest, args, false) == cli::parsed(
            rest,
            ArgsView { paths: args.paths.push(arg), ..args },
            false,
        ),
{
    lemma_head(arg, rest);
    reveal_strlit("-");
    reveal_strlit("--");
    reveal_strlit("-h");
    reveal_strlit("--help");
    reveal_strlit("--check");
    reveal_strlit("--diff");
    reveal_strlit("--dry-run");
    reveal_strlit("--to-blocks");
    reveal_strlit("--files-from");
    reveal_strlit("--lang");
    reveal_strlit("--column-limit");
    assert("-"@ =~= seq!['-']);
    assert("--"@ =~= seq!['-', '-']);
    text::lemma_one_at(arg, '-', 0);
    text::lemma_pair_at(arg, '-', '-', 0);
    assert(cli::split_option(arg) == (arg, None::<Seq<char>>));
    assert("--"@[0] == '-' && "-h"@[0] == '-' && "--help"@[0] == '-' && "--check"@[0] == '-'
        && "--diff"@[0] == '-' && "--dry-run"@[0] == '-' && "--to-blocks"@[0] == '-'
        && "--files-from"@[0] == '-' && "--lang"@[0] == '-' && "--column-limit"@[0] == '-');
    assert("--"@.len() > 0 && "-h"@.len() > 0 && "--help"@.len() > 0 && "--check"@.len() > 0
        && "--diff"@.len() > 0 && "--dry-run"@.len() > 0 && "--to-blocks"@.len() > 0
        && "--files-from"@.len() > 0 && "--lang"@.len() > 0 && "--column-limit"@.len() > 0);
    assert(cli::step(seq![arg] + rest, args) == cli::Step::On {
        args: args.with_path(arg),
        used: 1,
        only_paths: false,
    });
}

/// An option that is not known is reported by its name.
pub proof fn law_unknown_options(
    arg: Seq<char>,
    name: Seq<char>,
    value: Option<Seq<char>>,
    rest: Seq<Seq<char>>,
    args: ArgsView,
)
    requires
        arg.len() > 1 && arg[0] == '-',
        cli::split_option(arg) == (name, value),
        name != "--"@ && name != "-h"@ && name != "--help"@,
        name != "--check"@ && name != "--diff"@ && name != "--dry-run"@ && name != "--to-blocks"@,
        name != "--files-from"@ && name != "--lang"@ && name != "--column-limit"@,
    ensures
        cli::parsed(seq![arg] + rest, args, false) == Err::<ArgsView, Stop>(
            Stop::Message(cli::unrecognized(name)),
        ),
{
    lemma_head(arg, rest);
    reveal_strlit("-");
    assert("-"@ =~= seq!['-']);
    text::lemma_one_at(arg, '-', 0);
    text::lemma_run_len(arg, Class::Not('='));
}

/// The messages name what they are about.
pub proof fn law_messages(v: Seq<char>, name: Seq<char>)
    ensures
        cli::unexpected_value(v, name) == "unexpected value '"@ + v + "' for '"@ + name
            + "' found; no more were expected"@,
        cli::repeated(name) == "the argument '"@ + name + "' cannot be used multiple times"@,
        cli::missing_value(name) == "a value is required for '"@ + name
            + "' but none was supplied"@,
        cli::bad_lang(v) == "invalid value '"@ + v
            + "' for --lang (expected one of: c, cpp, rust, shell, asm)"@,
        cli::bad_limit(v) == "invalid value '"@ + v
            + "' for --column-limit (expected a number)"@,
        cli::unrecognized(name) == "unrecognized option '"@ + name + "'"@,
{
}

} // verus!
