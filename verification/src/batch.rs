//! What a run does with its inputs: where they come from, what becomes of each
//! result, and the status the run ends with. Reading and writing is for the
//! caller.

use vstd::prelude::*;
use vstd::utf8::*;

use crate::cli;
use crate::cli::{Args, ArgsView, Mode};
use crate::offsets;
use crate::convert;
use crate::diff;
use crate::parse::Comment;
use crate::rewrite;
use crate::rewrite::{Edit, Replacement, RewriteError};
use crate::text;

verus! {

broadcast use vstd::string::group_string_axioms;

/// Where the sources of a run come from.
#[derive(Debug, Clone, Copy, PartialEq, Eq, Structural)]
pub enum InputSource {
    /// A list of paths in the file that "--files-from" names.
    Listed,
    /// One source on stdin.
    Stdin,
    /// The paths on the command line.
    Paths,
}

/// Why a command line names no usable input.
#[derive(Debug, Clone, Copy, PartialEq, Eq, Structural)]
pub enum InputError {
    /// Stdin has no extension to tell its language by.
    LangRequired,
    /// "-" stands among other paths.
    StdinNotAlone,
}

impl InputError {
    pub open spec fn spec_message(self) -> Seq<char> {
        match self {
            InputError::LangRequired =>
                "--lang is required when reading source from stdin ('-')"@,
            InputError::StdinNotAlone => "'-' (stdin) cannot be combined with file paths"@,
        }
    }

    /// The error in words.
    pub fn message(&self) -> (m: String)
        ensures
            m@ == self.spec_message(),
    {
        let mut m: String = String::new();
        match *self {
            InputError::LangRequired => {
                m.push_str("--lang is required when reading source from stdin ('-')");
            },
            InputError::StdinNotAlone => {
                m.push_str("'-' (stdin) cannot be combined with file paths");
            },
        }
        assert(m@ =~= self.spec_message());
        m
    }
}

/// Where the sources of a run come from. A "-" is stdin, which stands alone and
/// needs a language.
pub open spec fn input_source(args: ArgsView) -> Result<InputSource, InputError> {
    if args.files_from is Some {
        Ok(InputSource::Listed)
    } else if args.paths.len() == 1 && args.paths[0] == "-"@ {
        if args.lang is None {
            Err(InputError::LangRequired)
        } else {
            Ok(InputSource::Stdin)
        }
    } else if args.paths.contains("-"@) {
        Err(InputError::StdinNotAlone)
    } else {
        Ok(InputSource::Paths)
    }
}

/// Decides where the sources of a run come from.
pub fn choose_input(args: &Args) -> (res: Result<InputSource, InputError>)
    ensures
        res == input_source(args@),
{
    if args.files_from.is_some() {
        return Ok(InputSource::Listed);
    }
    let ghost all = args@.paths;
    assert(all == cli::texts(args.paths@));
    let mut dashes: bool = false;
    let mut i: usize = 0;
    while i < args.paths.len()
        invariant
            i <= args.paths@.len(),
            all == cli::texts(args.paths@),
            dashes <==> all.take(i as int).contains("-"@),
        decreases args.paths@.len() - i,
    {
        let p = text::chars_of(args.paths[i].as_str());
        proof {
            assert(all[i as int] == p@);
            assert(all.take(i + 1) =~= all.take(i as int).push(p@));
            assert(all.take(i + 1)[i as int] == p@);
            if all.take(i as int).contains("-"@) {
                let j = choose|j: int| 0 <= j < i && all.take(i as int)[j] == "-"@;
                assert(all.take(i + 1)[j] == "-"@);
            }
        }
        if text::same_str(p.as_slice(), "-") {
            dashes = true;
        }
        i = i + 1;
    }
    assert(all.take(i as int) =~= all);
    if !dashes {
        return Ok(InputSource::Paths);
    }
    if args.paths.len() == 1 {
        proof {
            let j = choose|j: int| 0 <= j < all.len() && all[j] == "-"@;
            assert(all[0] == "-"@);
        }
        if args.lang.is_none() {
            Err(InputError::LangRequired)
        } else {
            Ok(InputSource::Stdin)
        }
    } else {
        Err(InputError::StdinNotAlone)
    }
}

/// Stdin is read only when it is the whole input and its language is known.
pub proof fn law_stdin_stands_alone(args: ArgsView)
    requires
        input_source(args) == Ok::<InputSource, InputError>(InputSource::Stdin),
    ensures
        args.paths.len() == 1,
        args.lang is Some,
        args.files_from is None,
{
}

/// A list's entries without the empty ones, each without a trailing carriage
/// return.
pub open spec fn entries(pieces: Seq<Seq<char>>) -> Seq<Seq<char>>
    decreases pieces.len(),
{
    if pieces.len() == 0 {
        Seq::empty()
    } else {
        let before = entries(pieces.drop_last());
        let p = text::without_cr(pieces.last());
        if p.len() == 0 {
            before
        } else {
            before.push(p)
        }
    }
}

/// The paths in a list. One that holds a NUL is NUL-delimited, so that its paths
/// may hold newlines; any other is newline-delimited.
pub open spec fn listed_paths(raw: Seq<char>) -> Seq<Seq<char>> {
    entries(
        text::split(
            raw,
            if raw.contains('\0') {
                '\0'
            } else {
                '\n'
            },
        ),
    )
}

/// Reads a list of paths.
pub fn split_path_list(raw: &str) -> (out: Vec<String>)
    ensures
        cli::texts(out@) == listed_paths(raw@),
{
    let t = text::chars_of(raw);
    let delim: char = if text::has_char(t.as_slice(), '\0') {
        '\0'
    } else {
        '\n'
    };
    let pieces = text::split_at_char(t.as_slice(), delim);
    let ghost all = text::views(pieces@);
    let mut out: Vec<String> = Vec::new();
    let mut i: usize = 0;
    assert(all.take(0) =~= Seq::<Seq<char>>::empty());
    assert(cli::texts(out@) =~= entries(all.take(0)));
    while i < pieces.len()
        invariant
            i <= pieces@.len(),
            all == text::views(pieces@),
            cli::texts(out@) == entries(all.take(i as int)),
        decreases pieces@.len() - i,
    {
        let ghost before = out@;
        let p = text::cut_cr(pieces[i].as_slice());
        proof {
            assert(all.take(i + 1).drop_last() =~= all.take(i as int));
            assert(all.take(i + 1).last() == pieces@[i as int]@);
        }
        if p.len() > 0 {
            out.push(text::string_of(p));
            assert(cli::texts(out@) =~= cli::texts(before).push(p@));
        }
        i = i + 1;
    }
    assert(all.take(i as int) =~= all);
    out
}

/// A list has no empty path.
pub proof fn law_no_path_is_empty(raw: Seq<char>, i: int)
    requires
        0 <= i < listed_paths(raw).len(),
    ensures
        listed_paths(raw)[i].len() > 0,
{
    lemma_no_entry_is_empty(
        text::split(
            raw,
            if raw.contains('\0') {
                '\0'
            } else {
                '\n'
            },
        ),
        i,
    );
}

proof fn lemma_no_entry_is_empty(pieces: Seq<Seq<char>>, i: int)
    requires
        0 <= i < entries(pieces).len(),
    ensures
        entries(pieces)[i].len() > 0,
    decreases pieces.len(),
{
    if i < entries(pieces.drop_last()).len() {
        lemma_no_entry_is_empty(pieces.drop_last(), i);
    }
}

/// Whether a directory's name is that of version-control metadata.
pub open spec fn vcs_name(name: Seq<char>) -> bool {
    name == ".git"@ || name == ".hg"@ || name == ".svn"@
}

pub fn is_vcs_metadata_dir(name: &str) -> (r: bool)
    ensures
        r == vcs_name(name@),
{
    let n = text::chars_of(name);
    let n = n.as_slice();
    text::same_str(n, ".git") || text::same_str(n, ".hg") || text::same_str(n, ".svn")
}

/// What a directory entry is.
#[derive(Debug, Clone, Copy, PartialEq, Eq, Structural)]
pub enum EntryType {
    Symlink,
    Directory,
    File,
    Other,
}

/// What to do with a directory entry.
#[derive(Debug, Clone, Copy, PartialEq, Eq, Structural)]
pub enum Visit {
    Skip,
    Descend,
    Take,
}

/// What becomes of an entry of a directory that is walked: links are never
/// followed, version-control metadata is not entered, and a file is taken when
/// its extension ("None" where it has none) is that of a language.
pub open spec fn visit_entry(
    entry: EntryType,
    name: Option<Seq<char>>,
    ext: Option<Seq<char>>,
) -> Visit {
    match entry {
        EntryType::Directory => if name is Some && vcs_name(name->0) {
            Visit::Skip
        } else {
            Visit::Descend
        },
        EntryType::File => if ext is Some && crate::parse::language_of(
            crate::parse::lower_text(ext->0),
        ) is Some {
            Visit::Take
        } else {
            Visit::Skip
        },
        _ => Visit::Skip,
    }
}

/// Decides what becomes of an entry of a directory that is walked. A name or an
/// extension that is no text comes as "None".
pub fn visit(entry: EntryType, name: Option<&str>, ext: Option<&str>) -> (v: Visit)
    ensures
        v == visit_entry(
            entry,
            match name {
                Some(s) => Some(s@),
                None => None,
            },
            match ext {
                Some(s) => Some(s@),
                None => None,
            },
        ),
{
    match entry {
        EntryType::Directory => match name {
            Some(n) => if is_vcs_metadata_dir(n) {
                Visit::Skip
            } else {
                Visit::Descend
            },
            None => Visit::Descend,
        },
        EntryType::File => match ext {
            Some(e) => match crate::parse::detect_language(e) {
                Some(_) => Visit::Take,
                None => Visit::Skip,
            },
            None => Visit::Skip,
        },
        _ => Visit::Skip,
    }
}

/// Where the result of one input goes in write mode.
#[derive(Debug, Clone, Copy, PartialEq, Eq, Structural)]
pub enum Target {
    File,
    Stdout,
}

/// What to do with the result of one input.
#[derive(Debug, Clone, Copy, PartialEq, Eq, Structural)]
pub enum Action {
    /// Nothing.
    Leave,
    /// Replace the file.
    WriteFile,
    /// Write the result to stdout.
    WriteStdout,
    /// Print the differences.
    ShowDiff,
    /// Print how much would change.
    ShowSummary,
    /// Print that nothing would change.
    ShowNoChange,
}

/// What to do with a result. A file is only written when it changes; a filter
/// always emits its result; the no-write modes never write.
pub open spec fn action(mode: Mode, target: Target, changed: bool) -> Action {
    match mode {
        Mode::Write => match target {
            Target::Stdout => Action::WriteStdout,
            Target::File => if changed {
                Action::WriteFile
            } else {
                Action::Leave
            },
        },
        Mode::Check => Action::Leave,
        Mode::Diff => if changed {
            Action::ShowDiff
        } else {
            Action::Leave
        },
        Mode::DryRun => if changed {
            Action::ShowSummary
        } else {
            Action::ShowNoChange
        },
    }
}

/// Decides what to do with a result.
pub fn choose_action(mode: Mode, target: Target, changed: bool) -> (a: Action)
    ensures
        a == action(mode, target, changed),
{
    match mode {
        Mode::Write => match target {
            Target::Stdout => Action::WriteStdout,
            Target::File => if changed {
                Action::WriteFile
            } else {
                Action::Leave
            },
        },
        Mode::Check => Action::Leave,
        Mode::Diff => if changed {
            Action::ShowDiff
        } else {
            Action::Leave
        },
        Mode::DryRun => if changed {
            Action::ShowSummary
        } else {
            Action::ShowNoChange
        },
    }
}

/// What to do with a source that is not to be reflowed: a filter still emits it,
/// and nothing else happens.
pub open spec fn unreflowed_action(mode: Mode, target: Target) -> Action {
    if mode == Mode::Write && target == Target::Stdout {
        Action::WriteStdout
    } else {
        Action::Leave
    }
}

/// Decides what to do with a source that is not to be reflowed, which a column
/// limit of 0 asks for.
pub fn choose_unreflowed_action(mode: Mode, target: Target) -> (a: Action)
    ensures
        a == unreflowed_action(mode, target),
{
    match mode {
        Mode::Write => match target {
            Target::Stdout => Action::WriteStdout,
            Target::File => Action::Leave,
        },
        _ => Action::Leave,
    }
}

/// A file is written only in write mode, and only when it changes; a filter in
/// write mode always writes its result.
pub proof fn law_only_write_mode_writes(mode: Mode, target: Target, changed: bool)
    ensures
        action(mode, target, changed) == Action::WriteFile <==> mode == Mode::Write && target
            == Target::File && changed,
        action(mode, target, changed) == Action::WriteStdout <==> mode == Mode::Write && target
            == Target::Stdout,
        unreflowed_action(mode, target) != Action::WriteFile,
        unreflowed_action(mode, target) == Action::WriteStdout <==> mode == Mode::Write && target
            == Target::Stdout,
{
}

/// What came of one input.
#[derive(Debug, Clone, Copy, PartialEq, Eq, Structural)]
pub enum Outcome {
    /// It was processed, and would change or not.
    Done { changed: bool },
    /// It could not be processed.
    Failed,
}

/// What came of an input that was processed. Only "--check" is told of changes.
pub open spec fn outcome(mode: Mode, changed: bool) -> Outcome {
    Outcome::Done { changed: mode == Mode::Check && changed }
}

/// Decides what to do with a result and what came of its input. What counts is
/// whether the text changed, not whether there was anything to replace: a plan
/// whose replacements cancel out leaves the file alone.
pub fn settle(mode: Mode, target: Target, source: &str, result: &str) -> (r: (Action, Outcome))
    ensures
        r.0 == action(mode, target, source@ != result@),
        r.1 == outcome(mode, source@ != result@),
{
    let new = text::chars_of(result);
    let changed: bool = !text::same_str(new.as_slice(), source);
    (
        choose_action(mode, target, changed),
        Outcome::Done { changed: matches!(mode, Mode::Check) && changed },
    )
}

/// The status that a run ends with: 2 after any failure, 1 when "--check" found
/// a change, 0 otherwise.
pub open spec fn status(mode: Mode, outcomes: Seq<Outcome>) -> u8 {
    if outcomes.contains(Outcome::Failed) {
        2
    } else if mode == Mode::Check && outcomes.contains(Outcome::Done { changed: true }) {
        1
    } else {
        0
    }
}

/// Decides the status that a run ends with.
pub fn exit_status(mode: Mode, outcomes: &[Outcome]) -> (code: u8)
    ensures
        code == status(mode, outcomes@),
{
    let mut failed: bool = false;
    let mut changed: bool = false;
    let mut i: usize = 0;
    while i < outcomes.len()
        invariant
            i <= outcomes@.len(),
            failed <==> exists|j: int| 0 <= j < i && #[trigger] outcomes@[j] == Outcome::Failed,
            changed <==> exists|j: int|
                0 <= j < i && #[trigger] outcomes@[j] == (Outcome::Done { changed: true }),
        decreases outcomes@.len() - i,
    {
        let o = outcomes[i];
        assert(outcomes@[i as int] == o);
        match o {
            Outcome::Failed => {
                failed = true;
            },
            Outcome::Done { changed: c } => {
                if c {
                    changed = true;
                }
            },
        }
        i = i + 1;
    }
    if failed {
        2
    } else if matches!(mode, Mode::Check) && changed {
        1
    } else {
        0
    }
}

/// The number of source lines that a plan's ranges span.
pub open spec fn lines_spanned(reps: Seq<Edit>, source: Seq<char>) -> nat
    decreases reps.len(),
{
    if reps.len() == 0 {
        0
    } else {
        let r = reps.last();
        lines_spanned(reps.drop_last(), source) + text::occurrences(
            offsets::slice(source, r.start as int, r.end as int),
            "\n"@,
            0,
        ) + 1
    }
}

/// Counts the source lines that a plan's ranges span.
pub fn count_lines(reps: &[Replacement], planned_against: &str) -> (n: u128)
    requires
        rewrite::in_source(rewrite::edits(reps@), planned_against@),
    ensures
        n == lines_spanned(rewrite::edits(reps@), planned_against@),
        n <= reps@.len() * (usize::MAX + 1),
{
    proof {
        reveal_strlit("\n");
    }
    let mut n: u128 = 0;
    let mut i: usize = 0;
    let count: usize = reps.len();
    let ghost all = rewrite::edits(reps@);
    assert(all.take(0) =~= Seq::<Edit>::empty());
    while i < count
        invariant
            i <= count == reps@.len(),
            all == rewrite::edits(reps@),
            rewrite::in_source(rewrite::edits(reps@), planned_against@),
            "\n"@.len() > 0,
            n == lines_spanned(all.take(i as int), planned_against@),
            n <= i * (usize::MAX + 1),
        decreases count - i,
    {
        let r = &reps[i];
        assert(all[i as int] == r@);
        let piece = text::chars_of(offsets::slice_str(planned_against, r.start, r.end));
        let breaks: usize = text::count_str(piece.as_slice(), "\n");
        proof {
            assert(all.take(i + 1).drop_last() =~= all.take(i as int));
            assert(all.take(i + 1).last() == r@);
            assert(i * (usize::MAX + 1) + usize::MAX + 1 == (i + 1) * (usize::MAX + 1))
                by (nonlinear_arith);
            assert((i + 1) * (usize::MAX + 1) <= u128::MAX) by (nonlinear_arith)
                requires
                    i < usize::MAX,
                    usize::MAX <= 0xffff_ffff_ffff_ffff,
            ;
        }
        n = n + breaks as u128 + 1;
        i = i + 1;
    }
    assert(all.take(i as int) =~= all);
    n
}

/// What "--dry-run" prints of an input that would change.
pub open spec fn summary(label: Seq<char>, ranges: nat, lines: nat) -> Seq<char> {
    label + ": "@ + text::decimal(ranges) + " comment range(s) would change ("@ + text::decimal(
        lines,
    ) + " source line(s)); rerun without --dry-run to write"@
}

/// Sums up what would change. The ranges and lines of the conversion pass and of
/// the reflow pass count alike.
pub fn change_summary(label: &str, ranges: u128, lines: u128) -> (m: String)
    ensures
        m@ == summary(label@, ranges as nat, lines as nat),
{
    let mut m: String = String::new();
    m.push_str(label);
    m.push_str(": ");
    text::push_decimal(&mut m, ranges);
    m.push_str(" comment range(s) would change (");
    text::push_decimal(&mut m, lines);
    m.push_str(" source line(s)); rerun without --dry-run to write");
    assert(m@ =~= summary(label@, ranges as nat, lines as nat));
    m
}

/// What is printed of an input, given what is to be done with it.
pub open spec fn printed(
    action: Action,
    label: Seq<char>,
    source: Seq<char>,
    result: Seq<char>,
    ranges: nat,
    lines: nat,
) -> Option<Seq<char>> {
    match action {
        Action::Leave | Action::WriteFile => None,
        Action::WriteStdout => Some(result),
        Action::ShowDiff => diff::unified_text(source, result, label),
        Action::ShowSummary => Some(summary(label, ranges, lines) + "\n"@),
        Action::ShowNoChange => Some(label + ": no changes\n"@),
    }
}

/// What becomes of one input: its new text, what to do with it, what to print,
/// and what counts for the status of the run.
pub struct Emission {
    pub result: String,
    pub action: Action,
    pub printed: Option<String>,
    pub outcome: Outcome,
}

/// Whether an emission is the one for an input that held "source", of which the
/// conversion pass made "converted", with the plan of the reflow pass.
pub open spec fn emits(
    e: Emission,
    mode: Mode,
    target: Target,
    label: Seq<char>,
    source: Seq<char>,
    conversions: Seq<Edit>,
    converted: Seq<char>,
    plan: Seq<Edit>,
) -> bool {
    &&& encode_utf8(e.result@) == rewrite::splice(
        encode_utf8(converted),
        rewrite::sorted(plan),
        0,
        0,
    )
    &&& e.action == action(mode, target, source != e.result@)
    &&& e.outcome == outcome(mode, source != e.result@)
    &&& match printed(
        e.action,
        label,
        source,
        e.result@,
        conversions.len() + plan.len(),
        lines_spanned(conversions, source) + lines_spanned(plan, converted),
    ) {
        Some(t) => e.printed is Some && e.printed->0@ == t,
        None => e.printed is None,
    }
}

/// Carries out the plan of the reflow pass on a source that the conversion pass
/// may have changed before, and decides what becomes of it. "source" is what the
/// input held, "converted" what "conversions" made of it.
pub fn emit(
    mode: Mode,
    target: Target,
    label: &str,
    source: &str,
    conversions: &[Replacement],
    converted: &str,
    plan: &[Replacement],
    comments: &[Comment],
) -> (res: Result<Emission, RewriteError>)
    requires
        convert::made_by(converted@, rewrite::edits(conversions@), source@),
        conversions@.len() + plan@.len() <= usize::MAX,
    ensures
        match rewrite::plan_fault(rewrite::edits(plan@), converted@, comments@) {
            Some(e) => res == Err::<Emission, RewriteError>(e),
            None => res is Ok && emits(
                res->Ok_0,
                mode,
                target,
                label@,
                source@,
                rewrite::edits(conversions@),
                converted@,
                rewrite::edits(plan@),
            ),
        },
{
    let result = match rewrite::apply_checked(converted, plan, comments) {
        Ok(result) => result,
        Err(e) => {
            return Err(e);
        },
    };
    let (action, outcome) = settle(mode, target, source, result.as_str());
    let printed: Option<String> = match action {
        Action::Leave => None,
        Action::WriteFile => None,
        Action::WriteStdout => Some(result.clone()),
        Action::ShowDiff => diff::unified(source, result.as_str(), label),
        Action::ShowSummary => {
            proof {
                rewrite::law_valid_plan_is_in_source(
                    rewrite::edits(plan@),
                    converted@,
                    comments@,
                );
            }
            let before: u128 = count_lines(conversions, source);
            let after: u128 = count_lines(plan, converted);
            proof {
                let (n, m) = (conversions@.len(), plan@.len());
                assert(n * (usize::MAX + 1) + m * (usize::MAX + 1) == (n + m) * (usize::MAX + 1))
                    by (nonlinear_arith);
                assert((n + m) * (usize::MAX + 1) <= u128::MAX) by (nonlinear_arith)
                    requires
                        n + m <= usize::MAX,
                        usize::MAX <= 0xffff_ffff_ffff_ffff,
                ;
            }
            let ranges: u128 = conversions.len() as u128 + plan.len() as u128;
            let mut m = change_summary(label, ranges, before + after);
            m.push_str("\n");
            Some(m)
        },
        Action::ShowNoChange => {
            let mut m: String = String::new();
            m.push_str(label);
            m.push_str(": no changes\n");
            assert(m@ =~= label@ + ": no changes\n"@);
            Some(m)
        },
    };
    Ok(Emission { result, action, printed, outcome })
}

/// The modes agree on whether a result is a change, whatever the target of the
/// no-write modes.
pub proof fn law_modes_agree_on_a_change(target: Target, changed: bool)
    ensures
        action(Mode::Diff, target, changed) == Action::ShowDiff <==> changed,
        action(Mode::DryRun, target, changed) == Action::ShowSummary <==> changed,
        action(Mode::Write, Target::File, changed) == Action::WriteFile <==> changed,
        outcome(Mode::Check, changed) == (Outcome::Done { changed }),
        outcome(Mode::Diff, changed) == (Outcome::Done { changed: false }),
        outcome(Mode::DryRun, changed) == (Outcome::Done { changed: false }),
        outcome(Mode::Write, changed) == (Outcome::Done { changed: false }),
{
}

/// For the same input and the same two plans, all modes come to the same new
/// text: the source after the conversions and then the reflow plan. "--check"
/// reports a change, "--diff" shows a diff, "--dry-run" sums up and write mode
/// writes the file exactly when that text is not the source. Only write mode
/// writes, and only "--check" counts a change for the status.
pub proof fn law_modes_agree(
    target: Target,
    label: Seq<char>,
    source: Seq<char>,
    conversions: Seq<Edit>,
    converted: Seq<char>,
    plan: Seq<Edit>,
    checked: Emission,
    shown: Emission,
    summed: Emission,
    written: Emission,
)
    requires
        convert::made_by(converted, conversions, source),
        emits(checked, Mode::Check, target, label, source, conversions, converted, plan),
        emits(shown, Mode::Diff, target, label, source, conversions, converted, plan),
        emits(summed, Mode::DryRun, target, label, source, conversions, converted, plan),
        emits(written, Mode::Write, Target::File, label, source, conversions, converted, plan),
    ensures
        encode_utf8(written.result@) == rewrite::splice(
            rewrite::splice(encode_utf8(source), rewrite::sorted(conversions), 0, 0),
            rewrite::sorted(plan),
            0,
            0,
        ),
        checked.result@ == written.result@,
        shown.result@ == written.result@,
        summed.result@ == written.result@,
        checked.outcome == (Outcome::Done { changed: source != written.result@ }),
        shown.action == Action::ShowDiff <==> source != written.result@,
        summed.action == Action::ShowSummary <==> source != written.result@,
        written.action == Action::WriteFile <==> source != written.result@,
        source == written.result@ ==> shown.printed is None,
        source != written.result@ ==> match diff::unified_text(source, written.result@, label) {
            Some(t) => shown.printed is Some && shown.printed->0@ == t,
            None => shown.printed is None,
        },
        checked.action == Action::Leave,
        shown.action != Action::WriteFile && shown.action != Action::WriteStdout,
        summed.action != Action::WriteFile && summed.action != Action::WriteStdout,
        shown.outcome == (Outcome::Done { changed: false }),
        summed.outcome == (Outcome::Done { changed: false }),
        written.outcome == (Outcome::Done { changed: false }),
{
    offsets::law_bytes_determine_text(checked.result@, written.result@);
    offsets::law_bytes_determine_text(shown.result@, written.result@);
    offsets::law_bytes_determine_text(summed.result@, written.result@);
}

} // verus!
