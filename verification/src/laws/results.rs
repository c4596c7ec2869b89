//! Laws of calls around a run: its arguments, its inputs, its plans and what it
//! prints.

use vstd::prelude::*;

use super::characters::run_ends;
use crate::assembly;
use crate::batch;
use crate::batch::{Action, Emission, EntryType, InputError, InputSource, Outcome, Target, Visit};
use crate::cli::{Args, ArgsView, Mode, ParseError, Stop};
use crate::config;
use crate::config::{Anchor, IndentConfig, Probe, Search, UseTab};
use crate::convert;
use crate::diff;
use crate::diff::Part;
use crate::laws::arguments;
use crate::laws::blocks;
use crate::laws::kinds;
use crate::laws::marks;
use crate::laws::patches;
use crate::laws::runs;
use crate::laws::settings;
use crate::linekind;
use crate::linekind::{LineKind, Mark, StrippedLine};
use crate::offsets;
use crate::parse;
use crate::parse::{Comment, Language};
use crate::rewrite;
use crate::rewrite::{Replacement, RewriteError};
use crate::text;
use crate::text::Class;
use crate::textline;
use vstd::utf8::*;

verus! {

broadcast use vstd::string::group_string_axioms;

/// The arguments of a call.
pub open spec fn argument_texts(argv: Seq<String>) -> Seq<Seq<char>> {
    Seq::new(argv.len(), |i: int| argv[i]@)
}

/// A command line of paths alone gives those paths, in order, and nothing else.
pub proof fn law_paths_alone(argv: Vec<String>, res: Result<Args, ParseError>)
    requires
        call_ensures(Args::try_parse_from, (argv,), res),
        argv@.len() > 0,
        forall|j: int|
            0 <= j < argv@.len() ==> (#[trigger] argv@[j])@.len() == 0 || argv@[j]@[0] != '-',
    ensures
        res is Ok,
        ({
            let args = res->Ok_0@;
            &&& args.paths == argument_texts(argv@)
            &&& args.files_from is None && args.lang is None && args.column_limit is None
            &&& !args.check && !args.diff && !args.dry_run && !args.to_blocks
        }),
{
    let all = argument_texts(argv@);
    assert(crate::cli::texts(argv@) =~= all);
    lemma_paths_alone(all, ArgsView::empty());
    assert(Seq::<Seq<char>>::empty() + all =~= all);
}

proof fn lemma_paths_alone(argv: Seq<Seq<char>>, args: ArgsView)
    requires
        argv.len() + args.paths.len() > 0,
        forall|j: int| 0 <= j < argv.len() ==> (#[trigger] argv[j]).len() == 0 || argv[j][0] != '-',
        args.files_from is None,
        !args.check && !args.diff && !args.dry_run,
    ensures
        crate::cli::parsed(argv, args, false) == Ok::<ArgsView, Stop>(
            ArgsView { paths: args.paths + argv, ..args },
        ),
    decreases argv.len(),
{
    if argv.len() == 0 {
        assert(args.paths + argv =~= args.paths);
    } else {
        let rest = argv.drop_first();
        let next = ArgsView { paths: args.paths.push(argv[0]), ..args };
        assert(argv =~= seq![argv[0]] + rest);
        arguments::law_paths(argv[0], rest, args);
        assert forall|j: int| 0 <= j < rest.len() implies (#[trigger] rest[j]).len() == 0
            || rest[j][0] != '-' by {
            assert(rest[j] == argv[j + 1]);
        }
        lemma_paths_alone(rest, next);
        assert(next.paths + rest =~= args.paths + argv);
    }
}

/// A command line is read from its first argument on, with nothing set.
pub proof fn law_try_parse_from(argv: Vec<String>, res: Result<Args, ParseError>)
    requires
        call_ensures(Args::try_parse_from, (argv,), res),
    ensures
        ({
            let nothing = ArgsView {
                paths: Seq::empty(),
                files_from: None,
                lang: None,
                check: false,
                diff: false,
                dry_run: false,
                column_limit: None,
                to_blocks: false,
            };
            match crate::cli::parsed(argument_texts(argv@), nothing, false) {
                Ok(args) => res is Ok && res->Ok_0@ == args,
                Err(stop) => res is Err && res->Err_0@ == stop,
            }
        }),
        argv@.len() == 0 ==> res is Err,
{
    assert(crate::cli::texts(argv@) =~= argument_texts(argv@));
}

/// What an error of the command line prints.
pub proof fn law_parse_error_message(e: &ParseError, m: String)
    requires
        call_ensures(ParseError::message, (e,), m),
    ensures
        e matches ParseError::Message(t) ==> m@ == t@,
        e is Help ==> m@ == crate::cli::USAGE@,
{
}

/// A value glued to a flag is refused.
pub proof fn law_reject_value(inline: &Option<Vec<char>>, name: &[char], res: Result<(), ParseError>)
    requires
        call_ensures(crate::cli::reject_value, (inline, name), res),
    ensures
        inline is None <==> res is Ok,
        inline matches Some(v) ==> res is Err && res->Err_0@ == Stop::Message(
            "unexpected value '"@ + v@ + "' for '"@ + name@ + "' found; no more were expected"@,
        ),
{
}

/// Where the input comes from.
pub proof fn law_choose_input(args: &Args, res: Result<InputSource, InputError>)
    requires
        call_ensures(batch::choose_input, (args,), res),
    ensures
        ({
            let dash = exists|j: int|
                0 <= j < args@.paths.len() && #[trigger] args@.paths[j] == seq!['-'];
            &&& res == Ok::<InputSource, InputError>(InputSource::Listed)
                <==> args.files_from is Some
            &&& res == Ok::<InputSource, InputError>(InputSource::Stdin)
                <==> args.files_from is None && dash && args@.paths.len() == 1 && args.lang is Some
            &&& res == Ok::<InputSource, InputError>(InputSource::Paths)
                <==> args.files_from is None && !dash
            &&& res == Err::<InputSource, InputError>(InputError::LangRequired)
                <==> args.files_from is None && dash && args@.paths.len() == 1 && args.lang is None
        }),
{
    runs::law_input_sources(args@);
}

/// The paths of a list: one for each piece that is not empty.
pub proof fn law_split_path_list(raw: &str, out: Vec<String>)
    requires
        call_ensures(batch::split_path_list, (raw,), out),
    ensures
        (exists|j: int| 0 <= j < raw@.len() && #[trigger] raw@[j] == '\0') ==> argument_texts(out@)
            == batch::entries(text::split(raw@, '\0')),
        (forall|j: int| 0 <= j < raw@.len() ==> #[trigger] raw@[j] != '\0') ==> argument_texts(out@)
            == batch::entries(text::split(raw@, '\n')),
{
    runs::law_lists(raw@);
    assert(crate::cli::texts(out@) =~= argument_texts(out@));
}

/// What a walk does with an entry.
pub proof fn law_visit(
    entry: EntryType,
    name: Option<&str>,
    ext: Option<&str>,
    v: Visit,
    dir: &str,
    vcs: bool,
)
    requires
        call_ensures(batch::visit, (entry, name, ext), v),
        call_ensures(batch::is_vcs_metadata_dir, (dir,), vcs),
    ensures
        vcs <==> dir@ == ".git"@ || dir@ == ".hg"@ || dir@ == ".svn"@,
        entry == EntryType::Symlink || entry == EntryType::Other ==> v == Visit::Skip,
        entry == EntryType::Directory ==> (v == Visit::Skip <==> name is Some && (name->0@
            == ".git"@ || name->0@ == ".hg"@ || name->0@ == ".svn"@)),
        entry == EntryType::Directory ==> v == Visit::Skip || v == Visit::Descend,
        entry == EntryType::File ==> (v == Visit::Take <==> ext is Some && parse::language_of(
            parse::lower_text(ext->0@),
        ) is Some),
        entry == EntryType::File ==> v == Visit::Skip || v == Visit::Take,
{
}

/// What is done with a result, by mode and target.
pub proof fn law_choose_action(mode: Mode, target: Target, changed: bool, a: Action, u: Action)
    requires
        call_ensures(batch::choose_action, (mode, target, changed), a),
        call_ensures(batch::choose_unreflowed_action, (mode, target), u),
    ensures
        a == Action::WriteFile <==> mode == Mode::Write && target == Target::File && changed,
        a == Action::WriteStdout <==> mode == Mode::Write && target == Target::Stdout,
        a == Action::ShowDiff <==> mode == Mode::Diff && changed,
        a == Action::ShowSummary <==> mode == Mode::DryRun && changed,
        a == Action::ShowNoChange <==> mode == Mode::DryRun && !changed,
        u == Action::WriteStdout <==> mode == Mode::Write && target == Target::Stdout,
        u == Action::WriteStdout || u == Action::Leave,
{
}

/// How much would change, in lines and in words.
pub proof fn law_change_summary(
    reps: &[Replacement],
    against: &str,
    n: u128,
    label: &str,
    ranges: u128,
    lines: u128,
    m: String,
)
    requires
        call_ensures(batch::count_lines, (reps, against), n),
        call_ensures(batch::change_summary, (label, ranges, lines), m),
    ensures
        n == batch::lines_spanned(rewrite::edits(reps@), against@),
        reps@.len() == 0 ==> n == 0,
        m@ == label@ + ": "@ + text::decimal(ranges as nat) + " comment range(s) would change ("@
            + text::decimal(lines as nat)
            + " source line(s)); rerun without --dry-run to write"@,
{
}

/// What becomes of an input.
pub proof fn law_emit(
    mode: Mode,
    target: Target,
    label: &str,
    source: &str,
    conversions: &[Replacement],
    converted: &str,
    plan: &[Replacement],
    comments: &[Comment],
    res: Result<Emission, RewriteError>,
)
    requires
        call_ensures(
            batch::emit,
            (mode, target, label, source, conversions, converted, plan, comments),
            res,
        ),
    ensures
        match rewrite::plan_fault(rewrite::edits(plan@), converted@, comments@) {
            Some(e) => res == Err::<Emission, RewriteError>(e),
            None => res is Ok && {
                let out = res->Ok_0;
                let changed = source@ != out.result@;
                &&& encode_utf8(out.result@) == rewrite::splice(
                    encode_utf8(converted@),
                    rewrite::sorted(rewrite::edits(plan@)),
                    0,
                    0,
                )
                &&& out.action == Action::WriteFile <==> mode == Mode::Write && target
                    == Target::File && changed
                &&& out.action == Action::WriteStdout <==> mode == Mode::Write && target
                    == Target::Stdout
                &&& out.action == Action::WriteStdout ==> out.printed is Some && out.printed->0@
                    == out.result@
                &&& out.outcome == (Outcome::Done { changed: mode == Mode::Check && changed })
                &&& mode == Mode::Check ==> out.printed is None
                &&& mode == Mode::DryRun && !changed ==> out.printed is Some && out.printed->0@
                    == label@ + ": no changes\n"@
            },
        },
{
}

/// The conversion of a source: nothing where it is not wanted or the language has no
/// line comments, and otherwise every plain comment that has a block.
pub proof fn law_conversion_pass(
    wanted: bool,
    source: &str,
    lang: Language,
    comments: &[Comment],
    res: Result<(String, Vec<Replacement>), RewriteError>,
)
    requires
        call_ensures(convert::conversion_pass, (wanted, source, lang, comments), res),
    ensures
        !wanted || lang == Language::Shell || lang == Language::Asm ==> res is Ok && (
        res->Ok_0).0@ == source@ && (res->Ok_0).1@.len() == 0,
        wanted && lang != Language::Shell && lang != Language::Asm ==> match rewrite::plan_fault(
            convert::conversions(comments@),
            source@,
            comments@,
        ) {
            Some(e) => res == Err::<(String, Vec<Replacement>), RewriteError>(e),
            None => res is Ok && rewrite::edits((res->Ok_0).1@) == convert::conversions(comments@)
                && encode_utf8((res->Ok_0).0@) == rewrite::splice(
                encode_utf8(source@),
                rewrite::sorted(convert::conversions(comments@)),
                0,
                0,
            ),
        },
{
}

/// The plan of a conversion, and what it makes of a source.
pub proof fn law_to_blocks(
    source: &str,
    lang: Language,
    comments: &[Comment],
    plan: Result<Vec<Replacement>, RewriteError>,
    res: Result<(String, Vec<Replacement>), RewriteError>,
)
    requires
        call_ensures(convert::line_run_replacements, (source, lang, comments), plan),
        call_ensures(convert::to_blocks, (source, lang, comments), res),
    ensures
        lang == Language::Shell || lang == Language::Asm ==> plan is Ok && plan->Ok_0@.len() == 0
            && res is Ok && (res->Ok_0).0@ == source@,
        lang != Language::Shell && lang != Language::Asm ==> match rewrite::plan_fault(
            convert::conversions(comments@),
            source@,
            comments@,
        ) {
            Some(e) => plan == Err::<Vec<Replacement>, RewriteError>(e) && res == Err::<
                (String, Vec<Replacement>),
                RewriteError,
            >(e),
            None => plan is Ok && rewrite::edits(plan->Ok_0@) == convert::conversions(comments@)
                && res is Ok && rewrite::edits((res->Ok_0).1@) == convert::conversions(comments@),
        },
{
}

/// A conversion has an edit for every plain comment that has a block.
pub proof fn law_every_plain_comment_is_converted(comments: Seq<Comment>, i: int)
    requires
        0 <= i < comments.len(),
        convert::plain_line(comments[i]),
        convert::conversion(comments[i]) is Some,
    ensures
        convert::conversions(comments).contains(convert::conversion(comments[i])->0),
    decreases comments.len(),
{
    let before = comments.drop_last();
    let c = comments.last();
    assert(comments =~= before.push(c));
    blocks::law_conversions_are_one_by_one(before, c);
    let all = convert::conversions(comments);
    let e = convert::conversion(comments[i])->0;
    if i < comments.len() - 1 {
        law_every_plain_comment_is_converted(before, i);
        let k = choose|k: int|
            0 <= k < convert::conversions(before).len() && convert::conversions(before)[k] == e;
        assert(all[k] == e);
    } else {
        assert(all.last() == e);
    }
}

/// The comments of an assembly source are its spans, one by one and in order.
pub proof fn law_comments(source: &str, out: Vec<Comment>, k: int)
    requires
        call_ensures(assembly::comments, (source,), out),
        0 <= k < out@.len(),
    ensures
        out@.len() == assembly::spans(encode_utf8(source@), 0).len(),
        out@[k].start_byte == assembly::spans(encode_utf8(source@), 0)[k].0,
        out@[k].end_byte == assembly::spans(encode_utf8(source@), 0)[k].1,
        out@[k].text@ == offsets::slice(
            source@,
            out@[k].start_byte as int,
            out@[k].end_byte as int,
        ),
{
}

/// A plan in order, carried out.
pub proof fn law_apply(source: &str, reps: &[Replacement], out: String, order: Vec<&Replacement>)
    requires
        call_ensures(rewrite::apply, (source, reps), out),
        call_ensures(rewrite::sorted_replacements, (reps,), order),
    ensures
        encode_utf8(out@) == rewrite::splice(
            encode_utf8(source@),
            rewrite::edits(order@.unref()),
            0,
            0,
        ),
        rewrite::edits(order@.unref()).to_multiset() =~= rewrite::edits(reps@).to_multiset(),
        forall|i: int, j: int|
            #![trigger rewrite::edits(order@.unref())[i], rewrite::edits(order@.unref())[j]]
            0 <= i <= j < order@.len() ==> {
                let a = rewrite::edits(order@.unref())[i];
                let b = rewrite::edits(order@.unref())[j];
                a.start < b.start || (a.start == b.start && a.end <= b.end)
            },
{
    rewrite::law_sorted_is_ordered_permutation(rewrite::edits(reps@));
}

/// The words of the errors and the names of the temporary files.
pub proof fn law_names_and_words(
    e: &RewriteError,
    m: String,
    i: &InputError,
    n: String,
    file: &str,
    pid: u32,
    seq: u64,
    nanos: u32,
    name: String,
)
    requires
        call_ensures(RewriteError::message, (e,), m),
        call_ensures(InputError::message, (i,), n),
        call_ensures(rewrite::temp_name, (file, pid, seq, nanos), name),
    ensures
        m@ == e.spec_message(),
        *i == InputError::LangRequired ==> n@
            == "--lang is required when reading source from stdin ('-')"@,
        *i == InputError::StdinNotAlone ==> n@ == "'-' (stdin) cannot be combined with file paths"@,
        name@ == "."@ + file@ + ".commentflow."@ + text::decimal(pid as nat) + "."@ + text::decimal(
            seq as nat,
        ) + "."@ + text::decimal(nanos as nat) + ".tmp"@,
{
    crate::laws::edits::law_temp_name_layout(file@, pid as nat, seq as nat, nanos as nat);
}

/// The first column limit of a text, and the value of a key on a line.
pub proof fn law_config_calls(
    source: &str,
    limit: Option<usize>,
    i: int,
    line: &[char],
    key: &str,
    rest: Option<&[char]>,
    a: int,
    c: int,
)
    requires
        call_ensures(config::parse_column_limit, (source,), limit),
        call_ensures(config::strip_key_prefix, (line, key), rest),
        0 <= i <= text::lines(source@).len(),
        forall|j: int|
            0 <= j < i ==> config::int_key(#[trigger] text::lines(source@)[j], "ColumnLimit"@) is None,
        run_ends(line@, 0, a, Class::Blank),
        text::stands_at(line@, key@, a) ==> run_ends(line@, a + key@.len(), c, Class::Blank),
    ensures
        i == text::lines(source@).len() ==> limit is None,
        i < text::lines(source@).len() && config::int_key(
            text::lines(source@)[i],
            "ColumnLimit"@,
        ) is Some ==> limit == config::int_key(text::lines(source@)[i], "ColumnLimit"@),
        rest is Some <==> text::stands_at(line@, key@, a) && c < line@.len() && line@[c] == ':',
        rest is Some ==> rest->0@ == line@.skip(c + 1),
{
    settings::law_first_limit(text::lines(source@), i);
    settings::law_key_prefixes(line@, key@, a, c);
}

/// The word that a line gives a key.
pub proof fn law_parse_string_key(
    line: &str,
    key: &str,
    r: Option<String>,
    a: int,
    c: int,
    d: int,
    e: int,
    f: int,
)
    requires
        call_ensures(config::parse_string_key, (line, key), r),
        run_ends(line@, 0, a, Class::Blank),
        text::stands_at(line@, key@, a),
        run_ends(line@, a + key@.len(), c, Class::Blank),
        c < line@.len() && line@[c] == ':',
        run_ends(line@, c + 1, d, Class::Blank),
        run_ends(line@, d, e, Class::Word),
        run_ends(line@, e, f, Class::Blank),
    ensures
        r is Some <==> d < e && (f == line@.len() || line@[f] == '#'),
        r is Some ==> r->0@ == line@.subrange(d, e),
{
    settings::law_values(line@, key@, Class::Word, a, c, d, e, f);
}

/// The indentation that a text configures: none without one of the three keys, and
/// the defaults for those that it leaves out.
pub proof fn law_parse_indent_config(source: &str, r: Option<IndentConfig>)
    requires
        call_ensures(config::parse_indent_config, (source,), r),
    ensures
        ({
            let keys = config::indent_keys(text::lines(source@));
            &&& r is None <==> keys.tab_width is None && keys.indent_width is None
                && keys.use_tab is None
            &&& r matches Some(c) ==> {
                &&& keys.tab_width is Some && keys.tab_width->0 > 0 ==> c.tab_width
                    == keys.tab_width->0
                &&& keys.tab_width is None || keys.tab_width == Some(0usize) ==> c.tab_width == 8
                &&& keys.indent_width matches Some(n) ==> c.indent_width == n
                &&& keys.indent_width is None ==> c.indent_width == 2
                &&& keys.use_tab matches Some(u) ==> c.use_tab == u
                &&& keys.use_tab is None ==> c.use_tab == UseTab::Never
            }
        }),
{
}

/// The search for a configuration begins in the nearest directory.
pub proof fn law_first_probe(search: &Search, r: Option<Probe>)
    requires
        call_ensures(Search::first, (search,), r),
    ensures
        search.under_cwd && search.file_levels > 0 ==> r == Some(
            Probe { anchor: Anchor::File, level: 0 },
        ),
        !search.under_cwd && search.cwd_levels > 0 ==> r == Some(
            Probe { anchor: Anchor::Cwd, level: 0 },
        ),
        !search.under_cwd && search.cwd_levels == 0 && search.file_levels > 0 ==> r == Some(
            Probe { anchor: Anchor::File, level: 0 },
        ),
        r is None <==> search.file_levels == 0 && (search.under_cwd || search.cwd_levels == 0),
{
}

/// The search goes on one directory up, and from the last one above the current
/// directory to the file's own.
pub proof fn law_next_probe(search: &Search, p: Probe, r: Option<Probe>)
    requires
        call_ensures(Search::after, (search, p), r),
        search.probes().contains(p),
    ensures
        p.anchor == Anchor::File && p.level + 1 < search.file_levels ==> r == Some(
            Probe { anchor: Anchor::File, level: (p.level + 1) as usize },
        ),
        p.anchor == Anchor::Cwd && p.level + 1 < search.cwd_levels ==> r == Some(
            Probe { anchor: Anchor::Cwd, level: (p.level + 1) as usize },
        ),
        p.anchor == Anchor::Cwd && p.level + 1 == search.cwd_levels && search.file_levels > 0
            ==> r == Some(Probe { anchor: Anchor::File, level: 0 }),
        p.anchor == Anchor::File && p.level + 1 == search.file_levels ==> r is None,
{
    config::law_search_order(*search, search.probes().index_of(p));
}

/// What is printed as a diff.
pub proof fn law_diff_calls(
    groups: &Vec<Vec<Part>>,
    name: &str,
    out: String,
    old_text: &str,
    new_text: &str,
    can: bool,
    shown: Option<String>,
)
    requires
        call_ensures(diff::render, (groups, name), out),
        call_ensures(diff::can_compare, (old_text, new_text), can),
        call_ensures(diff::unified, (old_text, new_text, name), shown),
    ensures
        out@ == "--- "@ + name@ + "\n"@ + "+++ "@ + name@ + "\n"@ + diff::hunks(
            diff::group_views(groups@),
        ),
        can <==> (diff::diff_lines(old_text@) + diff::diff_lines(new_text@)).to_set().len()
            <= u32::MAX,
        shown is Some ==> can && shown->0@ == "--- "@ + name@ + "\n"@ + "+++ "@ + name@ + "\n"@
            + diff::hunks(diff::line_changes(old_text@, new_text@, 3)),
        !can ==> shown is None,
{
    patches::law_diffs(old_text@, new_text@, name@);
}

/// Columns.
pub proof fn law_column_calls(
    col: usize,
    c: char,
    tab_width: usize,
    next: usize,
    s: &[char],
    budget: usize,
    fits: bool,
)
    requires
        call_ensures(textline::advance_col, (col, c, tab_width), next),
        call_ensures(textline::fits, (s, budget), fits),
        tab_width > 0,
    ensures
        c != '\t' ==> next == col + 1,
        c == '\t' ==> next as int % tab_width as int == 0 && col < next <= col + tab_width,
        fits <==> textline::width(s@, 8) <= budget,
{
    marks::law_next_column(col as nat, c, tab_width as nat);
}

/// Neighbours of a line: a title next to a drawing, a label next to a label.
pub proof fn law_neighbour_calls(
    marks: &[Mark],
    i: usize,
    title: bool,
    lines: &[Vec<char>],
    k: usize,
    budget: usize,
    row: bool,
    run: bool,
)
    requires
        call_ensures(linekind::is_art_adjacent_bookend, (marks, i), title),
        call_ensures(linekind::label_eligible, (lines, k, budget), row),
        call_ensures(linekind::is_label_run, (lines, k, budget), run),
        i < marks@.len(),
        k < lines@.len(),
    ensures
        title <==> marks@[i as int].bookend && exists|j: int|
            0 <= j < marks@.len() && (j == i - 1 || j == i + 1) && (#[trigger] marks@[j]).art_only,
        row <==> linekind::label_line(lines@[k as int]@, budget as nat) && (k + 1 < lines@.len()
            ==> text::is_blank(lines@[k + 1]@) || linekind::label_line(
            lines@[k + 1]@,
            budget as nat,
        )),
        run ==> row,
        run <==> linekind::label_run(
            Seq::new(lines@.len(), |j: int| lines@[j]@),
            k as int,
            budget as nat,
        ),
{
    kinds::law_titles_of_drawings(marks@, i as int);
    let bodies = Seq::new(lines@.len(), |j: int| lines@[j]@);
    assert(text::views(lines@) =~= bodies);
    kinds::law_rows_end_their_line(bodies, budget as nat, k as int);
}

/// Lines with their marks are classified as lines are.
pub proof fn law_classify_marked(
    lines: &[StrippedLine],
    marks: &[Mark],
    flavor: crate::classify::DocFlavor,
    budget: usize,
    out: Vec<LineKind>,
    all: Vec<LineKind>,
)
    requires
        call_ensures(linekind::classify_marked, (lines, marks, flavor, budget), out),
        call_ensures(linekind::classify_lines, (lines, flavor, budget), all),
        marks@ == Seq::new(lines@.len(), |i: int| linekind::mark_of(lines@[i].body@)),
    ensures
        out@ == all@,
{
    assert(linekind::marks_of(linekind::bodies(lines@)) =~= marks@);
}

/// A slice of a text is the bytes of its range.
pub proof fn law_slice_str(s: &str, start: usize, end: usize, r: &str)
    requires
        call_ensures(offsets::slice_str, (s, start, end), r),
    ensures
        encode_utf8(r@) == encode_utf8(s@).subrange(start as int, end as int),
{
}

} // verus!
