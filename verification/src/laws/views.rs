//! Laws of the plain data that stands for the values of the library: each value
//! is seen as it is, field by field and item by item.

use vstd::prelude::*;

use crate::assembly;
use crate::batch;
use crate::batch::{Emission, Outcome, Target};
use crate::cli::{Args, Lang, Mode, ParseError, Stop};
use crate::config;
use crate::convert;
use crate::diff;
use crate::diff::{Part, Sign};
use crate::linekind;
use crate::linekind::StrippedLine;
use crate::parse::Language;
use crate::rewrite;
use crate::rewrite::{Edit, Replacement};
use crate::text;
use vstd::utf8::*;

verus! {

broadcast use vstd::string::group_string_axioms;

/// Command line arguments.
pub proof fn law_args(args: Args, i: int)
    ensures
        args@.paths.len() == args.paths@.len(),
        0 <= i < args.paths@.len() ==> args@.paths[i] == args.paths@[i]@,
        args@.files_from is Some <==> args.files_from is Some,
        args.files_from matches Some(s) ==> args@.files_from == Some(s@),
        args@.lang == args.lang,
        args@.check == args.check,
        args@.diff == args.diff,
        args@.dry_run == args.dry_run,
        args@.column_limit == args.column_limit,
        args@.to_blocks == args.to_blocks,
{
}

/// Errors of the command line, and the languages that it names.
pub proof fn law_command_line_values(e: ParseError)
    ensures
        e == ParseError::Help <==> e@ == Stop::Help,
        e matches ParseError::Message(m) ==> e@ == Stop::Message(m@),
        Lang::C.language() == Language::C,
        Lang::Cpp.language() == Language::Cpp,
        Lang::Rust.language() == Language::Rust,
        Lang::Shell.language() == Language::Shell,
        Lang::Asm.language() == Language::Asm,
{
}

/// Replacements, lines and spans.
pub proof fn law_items(
    reps: Seq<Replacement>,
    lines: Seq<StrippedLine>,
    spans: Seq<(usize, usize)>,
    i: int,
)
    ensures
        rewrite::edits(reps).len() == reps.len(),
        0 <= i < reps.len() ==> {
            let e = rewrite::edits(reps)[i];
            e.start == reps[i].start && e.end == reps[i].end && e.text == reps[i].text@
        },
        linekind::bodies(lines).len() == lines.len(),
        0 <= i < lines.len() ==> linekind::bodies(lines)[i] == lines[i].body@,
        assembly::span_view(spans).len() == spans.len(),
        0 <= i < spans.len() ==> assembly::span_view(spans)[i].0 == spans[i].0
            && assembly::span_view(spans)[i].1 == spans[i].1,
{
}

/// The steps of a diff.
pub proof fn law_steps(groups: Seq<Vec<Part>>, i: int, j: int, k: int)
    requires
        0 <= i < groups.len(),
        0 <= j < groups[i]@.len(),
        0 <= k < groups[i]@[j].lines@.len(),
    ensures
        diff::group_views(groups).len() == groups.len(),
        diff::group_views(groups)[i].len() == groups[i]@.len(),
        ({
            let p = groups[i]@[j];
            let v = diff::group_views(groups)[i][j];
            &&& v.old_start == p.old_start && v.old_end == p.old_end
            &&& v.new_start == p.new_start && v.new_end == p.new_end
            &&& v.lines.len() == p.lines@.len()
            &&& v.lines[k].0 == p.lines@[k].0 && v.lines[k].1 == p.lines@[k].1@
        }),
        Sign::Delete.mark() == '-',
        Sign::Insert.mark() == '+',
        Sign::Equal.mark() == ' ',
{
}

/// A text that was found, and one that was not.
pub proof fn law_found_text(s: String)
    ensures
        config::found_text(Some(s)) == Some(s@),
        config::found_text(None) is None,
{
}

/// What a plan makes of a source is the source with the edits of the plan carried
/// out in the order of their ranges.
pub proof fn law_made_by(out: Seq<char>, plan: Seq<Edit>, source: Seq<char>)
    requires
        convert::made_by(out, plan, source),
    ensures
        encode_utf8(out) == rewrite::splice(encode_utf8(source), rewrite::sorted(plan), 0, 0),
        plan.len() == 0 ==> out == source,
{
    if plan.len() == 0 {
        let b = encode_utf8(source);
        assert(rewrite::sorted(plan) =~= Seq::<Edit>::empty());
        assert(rewrite::splice(b, rewrite::sorted(plan), 0, 0) =~= b);
        rewrite::law_empty_plan_changes_nothing(source, out);
    }
}

/// What becomes of an input: its plan is carried out, and whether it changed is
/// judged by what the input held before any conversion. The summary counts the
/// ranges of both passes, and the lines of each in the text that it was made for.
pub proof fn law_emissions(
    e: Emission,
    mode: Mode,
    target: Target,
    label: Seq<char>,
    source: Seq<char>,
    conversions: Seq<Edit>,
    converted: Seq<char>,
    plan: Seq<Edit>,
)
    requires
        batch::emits(e, mode, target, label, source, conversions, converted, plan),
    ensures
        encode_utf8(e.result@) == rewrite::splice(
            encode_utf8(converted),
            rewrite::sorted(plan),
            0,
            0,
        ),
        source == e.result@ ==> e.action == batch::action(mode, target, false),
        source != e.result@ ==> e.action == batch::action(mode, target, true),
        e.outcome == (Outcome::Done { changed: mode == Mode::Check && source != e.result@ }),
        mode == Mode::Check ==> e.printed is None,
        mode == Mode::Write && target == Target::File ==> e.printed is None,
        mode == Mode::Write && target == Target::Stdout ==> e.printed is Some && e.printed->0@
            == e.result@,
        mode == Mode::DryRun && source == e.result@ ==> e.printed is Some && e.printed->0@ == label
            + ": no changes\n"@,
        mode == Mode::DryRun && source != e.result@ ==> e.printed is Some && e.printed->0@
            == batch::summary(
            label,
            conversions.len() + plan.len(),
            batch::lines_spanned(conversions, source) + batch::lines_spanned(plan, converted),
        ) + "\n"@,
        mode == Mode::Diff && source == e.result@ ==> e.printed is None,
        mode == Mode::Diff && source != e.result@ ==> match diff::unified_text(
            source,
            e.result@,
            label,
        ) {
            Some(t) => e.printed is Some && e.printed->0@ == t,
            None => e.printed is None,
        },
{
}

} // verus!
