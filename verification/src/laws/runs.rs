//! Laws of a run over its inputs.

use vstd::prelude::*;

use crate::batch;
use crate::batch::{Action, EntryType, InputError, InputSource, Outcome, Target, Visit};
use crate::cli::{ArgsView, Mode};
use crate::offsets;
use crate::parse;
use crate::rewrite::Edit;
use crate::text;

verus! {

broadcast use vstd::string::group_string_axioms;

/// Where the input comes from: a list where one is named, stdin for a lone hyphen
/// whose language is given, and otherwise the paths, none of which is a hyphen.
pub proof fn law_input_sources(args: ArgsView)
    ensures
        ({
            let dash = exists|j: int|
                0 <= j < args.paths.len() && #[trigger] args.paths[j] == seq!['-'];
            let r = batch::input_source(args);
            &&& r == Ok::<InputSource, InputError>(InputSource::Listed) <==> args.files_from is Some
            &&& r == Ok::<InputSource, InputError>(InputSource::Stdin) <==> args.files_from is None
                && dash && args.paths.len() == 1 && args.lang is Some
            &&& r == Err::<InputSource, InputError>(InputError::LangRequired)
                <==> args.files_from is None && dash && args.paths.len() == 1 && args.lang is None
            &&& r == Err::<InputSource, InputError>(InputError::StdinNotAlone)
                <==> args.files_from is None && dash && args.paths.len() != 1
            &&& r == Ok::<InputSource, InputError>(InputSource::Paths) <==> args.files_from is None
                && !dash
        }),
{
    reveal_strlit("-");
    assert("-"@ =~= seq!['-']);
    if exists|j: int| 0 <= j < args.paths.len() && #[trigger] args.paths[j] == seq!['-'] {
        let j = choose|j: int| 0 <= j < args.paths.len() && #[trigger] args.paths[j] == seq!['-'];
        assert(args.paths[j] == "-"@);
    }
    if args.paths.contains("-"@) {
        let j = choose|j: int| 0 <= j < args.paths.len() && args.paths[j] == "-"@;
        assert(args.paths[j] == seq!['-']);
    }
}

/// Why an input is refused, in words.
pub proof fn law_input_messages()
    ensures
        InputError::LangRequired.spec_message()
            == "--lang is required when reading source from stdin ('-')"@,
        InputError::StdinNotAlone.spec_message()
            == "'-' (stdin) cannot be combined with file paths"@,
{
}

/// The paths of a list are its pieces, without a carriage return at their ends and
/// without the empty ones, in order.
pub proof fn law_entries(before: Seq<Seq<char>>, p: Seq<char>)
    ensures
        batch::entries(Seq::empty()) == Seq::<Seq<char>>::empty(),
        p.len() > 0 && p.last() != '\r' ==> batch::entries(before.push(p)) == batch::entries(
            before,
        ).push(p),
        p.len() > 0 ==> batch::entries(before.push(p.push('\r'))) == batch::entries(before).push(p),
        batch::entries(before.push(Seq::empty())) == batch::entries(before),
        batch::entries(before.push(seq!['\r'])) == batch::entries(before),
{
    assert(before.push(p).drop_last() =~= before);
    assert(before.push(p.push('\r')).drop_last() =~= before);
    assert(p.push('\r').drop_last() =~= p);
    assert(before.push(Seq::<char>::empty()).drop_last() =~= before);
    assert(before.push(seq!['\r']).drop_last() =~= before);
    assert(seq!['\r'].drop_last() =~= Seq::<char>::empty());
}

/// A list with a zero character in it is cut at those, and any other at its
/// newlines.
pub proof fn law_lists(raw: Seq<char>)
    ensures
        (exists|j: int| 0 <= j < raw.len() && #[trigger] raw[j] == '\0') ==> batch::listed_paths(raw)
            == batch::entries(text::split(raw, '\0')),
        (forall|j: int| 0 <= j < raw.len() ==> #[trigger] raw[j] != '\0') ==> batch::listed_paths(
            raw,
        ) == batch::entries(text::split(raw, '\n')),
{
    if exists|j: int| 0 <= j < raw.len() && #[trigger] raw[j] == '\0' {
        let j = choose|j: int| 0 <= j < raw.len() && #[trigger] raw[j] == '\0';
        assert(raw.contains(raw[j]));
    }
}

/// What a walk does with an entry: it goes into every directory but those of the
/// three version control systems, takes every file whose extension names a
/// language, and leaves the rest, links among it.
pub proof fn law_visits(entry: EntryType, name: Option<Seq<char>>, ext: Option<Seq<char>>)
    ensures
        batch::visit_entry(entry, name, ext) == Visit::Descend <==> entry == EntryType::Directory
            && name != Some(".git"@) && name != Some(".hg"@) && name != Some(".svn"@),
        batch::visit_entry(entry, name, ext) == Visit::Take <==> entry == EntryType::File
            && ext is Some && parse::language_of(parse::lower_text(ext->0)) is Some,
{
}

/// What is done with a result.
pub proof fn law_actions(mode: Mode, target: Target, changed: bool)
    ensures
        batch::action(mode, target, changed) == Action::WriteFile <==> mode == Mode::Write && target
            == Target::File && changed,
        batch::action(mode, target, changed) == Action::WriteStdout <==> mode == Mode::Write
            && target == Target::Stdout,
        batch::action(mode, target, changed) == Action::ShowDiff <==> mode == Mode::Diff && changed,
        batch::action(mode, target, changed) == Action::ShowSummary <==> mode == Mode::DryRun
            && changed,
        batch::action(mode, target, changed) == Action::ShowNoChange <==> mode == Mode::DryRun
            && !changed,
        batch::unreflowed_action(mode, target) == Action::WriteStdout <==> mode == Mode::Write
            && target == Target::Stdout,
        batch::unreflowed_action(mode, target) == Action::WriteStdout
            || batch::unreflowed_action(mode, target) == Action::Leave,
        batch::outcome(mode, changed) == (Outcome::Done { changed: true }) <==> mode == Mode::Check
            && changed,
        batch::outcome(mode, changed) != Outcome::Failed,
{
}

/// The exit status: 2 where an input failed, 1 where a check found one that would
/// change, and 0 otherwise.
pub proof fn law_exit_status(mode: Mode, outcomes: Seq<Outcome>)
    ensures
        ({
            let failed = exists|j: int|
                0 <= j < outcomes.len() && #[trigger] outcomes[j] == Outcome::Failed;
            let changed = exists|j: int|
                0 <= j < outcomes.len() && #[trigger] outcomes[j] == (Outcome::Done {
                    changed: true,
                });
            &&& batch::status(mode, outcomes) == 2 <==> failed
            &&& batch::status(mode, outcomes) == 1 <==> !failed && mode == Mode::Check && changed
            &&& batch::status(mode, outcomes) == 0 <==> !failed && !(mode == Mode::Check && changed)
        }),
{
    if exists|j: int| 0 <= j < outcomes.len() && #[trigger] outcomes[j] == Outcome::Failed {
        let j = choose|j: int| 0 <= j < outcomes.len() && #[trigger] outcomes[j] == Outcome::Failed;
        assert(outcomes.contains(outcomes[j]));
    }
    if exists|j: int|
        0 <= j < outcomes.len() && #[trigger] outcomes[j] == (Outcome::Done { changed: true }) {
        let j = choose|j: int|
            0 <= j < outcomes.len() && #[trigger] outcomes[j] == (Outcome::Done { changed: true });
        assert(outcomes.contains(outcomes[j]));
    }
}

/// The lines that a plan takes up: for each range one more than the newlines in
/// it.
pub proof fn law_lines_spanned(reps: Seq<Edit>, e: Edit, source: Seq<char>)
    ensures
        batch::lines_spanned(Seq::empty(), source) == 0,
        batch::lines_spanned(reps.push(e), source) == batch::lines_spanned(reps, source)
            + text::occurrences(
            offsets::slice(source, e.start as int, e.end as int),
            seq!['\n'],
            0,
        ) + 1,
{
    reveal_strlit("\n");
    assert("\n"@ =~= seq!['\n']);
    assert(reps.push(e).drop_last() =~= reps);
}

/// What is printed for each action.
pub proof fn law_printed(
    label: Seq<char>,
    source: Seq<char>,
    result: Seq<char>,
    ranges: nat,
    lines: nat,
)
    ensures
        batch::printed(Action::Leave, label, source, result, ranges, lines) is None,
        batch::printed(Action::WriteFile, label, source, result, ranges, lines) is None,
        batch::printed(Action::WriteStdout, label, source, result, ranges, lines) == Some(result),
        batch::printed(Action::ShowNoChange, label, source, result, ranges, lines) == Some(
            label + ": no changes\n"@,
        ),
        batch::printed(Action::ShowSummary, label, source, result, ranges, lines) == Some(
            label + ": "@ + text::decimal(ranges) + " comment range(s) would change ("@
                + text::decimal(lines) + " source line(s)); rerun without --dry-run to write"@
                + "\n"@,
        ),
        batch::printed(Action::ShowDiff, label, source, result, ranges, lines)
            == crate::diff::unified_text(source, result, label),
{
}

} // verus!
