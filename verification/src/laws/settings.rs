//! Laws of the settings that a file gives.

use vstd::prelude::*;

use super::characters::run_ends;
use crate::config;
use crate::config::{Anchor, Probe, Search, UseTab};
use crate::laws::characters;
use crate::text;
use crate::text::Class;

verus! {

broadcast use vstd::string::group_string_axioms;

/// A line gives a key nothing unless the key is the first thing on it and a colon
/// the next, blanks aside.
pub proof fn law_other_lines_give_nothing(line: Seq<char>, key: Seq<char>, k: Class, a: int, c: int)
    requires
        run_ends(line, 0, a, Class::Blank),
        text::stands_at(line, key, a) ==> run_ends(line, a + key.len(), c, Class::Blank),
        !text::stands_at(line, key, a) || c == line.len() || line[c] != ':',
    ensures
        config::value_of(line, key, k) is None,
        config::int_key(line, key) is None,
{
    characters::law_runs(line, 0, a, Class::Blank);
    let rest = line.skip(a);
    characters::law_stands_at(line, key, a);
    characters::law_stands_at(rest, key, 0);
    if text::stands_at(rest, key, 0) {
        assert forall|j: int| 0 <= j < key.len() implies #[trigger] key[j] == line[a + j] by {
            assert(key[j] == rest[0 + j]);
        }
        let n = a + key.len();
        characters::law_runs(line, n, c, Class::Blank);
        assert(rest.skip(key.len() as int) =~= line.skip(n));
        assert(line.skip(n).skip(c - n) =~= line.skip(c));
        if c < line.len() {
            assert(line.skip(c)[0] == line[c]);
        }
    }
}

/// What a line gives a key whose colon it has, at "c": the run of the right
/// characters behind it, where nothing but a remark follows.
pub proof fn law_values(
    line: Seq<char>,
    key: Seq<char>,
    k: Class,
    a: int,
    c: int,
    d: int,
    e: int,
    f: int,
)
    requires
        run_ends(line, 0, a, Class::Blank),
        text::stands_at(line, key, a),
        run_ends(line, a + key.len(), c, Class::Blank),
        c < line.len() && line[c] == ':',
        run_ends(line, c + 1, d, Class::Blank),
        run_ends(line, d, e, k),
        run_ends(line, e, f, Class::Blank),
    ensures
        config::value_of(line, key, k) == if d < e && (f == line.len() || line[f] == '#') {
            Some(line.subrange(d, e))
        } else {
            None
        },
{
    characters::law_runs(line, 0, a, Class::Blank);
    let rest = line.skip(a);
    characters::law_stands_at(line, key, a);
    characters::law_stands_at(rest, key, 0);
    assert forall|j: int| 0 <= j < key.len() implies #[trigger] key[j] == rest[0 + j] by {
        assert(key[j] == line[a + j]);
    }
    let n = a + key.len();
    characters::law_runs(line, n, c, Class::Blank);
    assert(rest.skip(key.len() as int) =~= line.skip(n));
    assert(line.skip(n).skip(c - n) =~= line.skip(c));
    assert(line.skip(c)[0] == line[c]);
    assert(line.skip(c).skip(1) =~= line.skip(c + 1));
    characters::law_runs(line, c + 1, d, Class::Blank);
    assert(line.skip(c + 1).skip(d - c - 1) =~= line.skip(d));
    characters::law_runs(line, d, e, k);
    assert(line.skip(d).skip(e - d) =~= line.skip(e));
    assert(line.skip(d).take(e - d) =~= line.subrange(d, e));
    characters::law_runs(line, e, f, Class::Blank);
    assert(line.skip(e).skip(f - e) =~= line.skip(f));
    if f < line.len() {
        assert(line.skip(f)[0] == line[f]);
    }
}

/// Any number that fits reads back: a key, a colon, a space and the number in
/// decimal give the number.
pub proof fn law_numbers_read_back(key: Seq<char>, n: usize)
    requires
        key.len() > 0,
        key[0] != ' ' && key[0] != '\t',
    ensures
        config::int_key(key + seq![':', ' '] + text::decimal(n as nat), key) == Some(n),
{
    let v = text::decimal(n as nat);
    let line = key + seq![':', ' '] + v;
    let c = key.len() as int;
    text::lemma_decimal(n as nat);
    text::law_decimal_reads_back(n);
    assert(line[0] == key[0]);
    assert(line[c] == ':');
    assert(line[c + 1] == ' ');
    assert forall|j: int| c + 2 <= j < line.len() implies Class::Digit.holds(#[trigger] line[j]) by {
        assert(line[j] == v[j - c - 2]);
    }
    assert(line[c + 2] == v[0]);
    assert(Class::Digit.holds(v[0]));
    assert(line.subrange(0, c) =~= key);
    assert(line.subrange(c + 2, line.len() as int) =~= v);
    law_values(line, key, Class::Digit, 0, c, c + 2, line.len() as int, line.len() as int);
}

/// There is an indentation configuration exactly when some line gives one of the
/// three keys; the last word for the use of tabs must be one of the five to count.
pub proof fn law_indent_config_is_given(lines: Seq<Seq<char>>, i: int)
    requires
        0 <= i < lines.len(),
    ensures
        config::indent_keys(lines).config() is None <==> {
            &&& config::indent_keys(lines).tab_width is None
            &&& config::indent_keys(lines).indent_width is None
            &&& config::indent_keys(lines).use_tab is None
        },
        config::int_key(lines[i], "TabWidth"@) is Some ==> config::indent_keys(
            lines,
        ).tab_width is Some,
        config::int_key(lines[i], "IndentWidth"@) is Some ==> config::indent_keys(
            lines,
        ).indent_width is Some,
    decreases lines.len(),
{
    if i < lines.len() - 1 {
        law_indent_config_is_given(lines.drop_last(), i);
        assert(lines.drop_last()[i] == lines[i]);
    }
}

/// What is behind a key and its colon.
pub proof fn law_key_prefixes(line: Seq<char>, key: Seq<char>, a: int, c: int)
    requires
        run_ends(line, 0, a, Class::Blank),
        text::stands_at(line, key, a) ==> run_ends(line, a + key.len(), c, Class::Blank),
    ensures
        config::key_value(line, key) == if text::stands_at(line, key, a) && c < line.len() && line[c]
            == ':' {
            Some(line.skip(c + 1))
        } else {
            None
        },
{
    characters::law_runs(line, 0, a, Class::Blank);
    let rest = line.skip(a);
    characters::law_stands_at(line, key, a);
    characters::law_stands_at(rest, key, 0);
    if text::stands_at(rest, key, 0) {
        assert forall|j: int| 0 <= j < key.len() implies #[trigger] key[j] == line[a + j] by {
            assert(key[j] == rest[0 + j]);
        }
    }
    if text::stands_at(line, key, a) {
        assert forall|j: int| 0 <= j < key.len() implies #[trigger] key[j] == rest[0 + j] by {
            assert(key[j] == line[a + j]);
        }
        let n = a + key.len();
        characters::law_runs(line, n, c, Class::Blank);
        assert(rest.skip(key.len() as int) =~= line.skip(n));
        assert(line.skip(n).skip(c - n) =~= line.skip(c));
        if c < line.len() {
            assert(line.skip(c)[0] == line[c]);
            assert(line.skip(c).skip(1) =~= line.skip(c + 1));
        }
    }
}

/// The first column limit in a text, as it is read out of it.
pub proof fn law_first_limit(lines: Seq<Seq<char>>, i: int)
    requires
        0 <= i <= lines.len(),
        forall|j: int|
            0 <= j < i ==> config::int_key(#[trigger] lines[j], "ColumnLimit"@) is None,
    ensures
        i == lines.len() ==> config::first_limit(lines) is None,
        i < lines.len() && config::int_key(lines[i], "ColumnLimit"@) is Some
            ==> config::first_limit(lines) == config::int_key(lines[i], "ColumnLimit"@),
    decreases lines.len(),
{
    if i > 0 {
        let rest = lines.drop_first();
        assert(config::int_key(lines[0], "ColumnLimit"@) is None);
        assert forall|j: int| 0 <= j < i - 1 implies config::int_key(
            #[trigger] rest[j],
            "ColumnLimit"@,
        ) is None by {
            assert(rest[j] == lines[j + 1]);
        }
        law_first_limit(rest, i - 1);
    }
}

/// The column limit is the number on the first line that gives one, however large
/// it is; where no line does, it is 80.
pub proof fn law_column_limit(s: Seq<char>, i: int, n: usize)
    requires
        0 <= i <= text::lines(s).len(),
        forall|j: int|
            0 <= j < i ==> config::int_key(#[trigger] text::lines(s)[j], "ColumnLimit"@) is None,
    ensures
        i == text::lines(s).len() ==> config::settings(Some(s)).column_limit == 80,
        i < text::lines(s).len() && config::int_key(text::lines(s)[i], "ColumnLimit"@) == Some(n)
            ==> config::settings(Some(s)).column_limit == n,
        i < text::lines(s).len() && text::lines(s)[i] == "ColumnLimit: "@ + text::decimal(n as nat)
            ==> config::settings(Some(s)).column_limit == n,
        config::settings(None).column_limit == 80,
{
    law_first_limit(text::lines(s), i);
    reveal_strlit("ColumnLimit");
    reveal_strlit("ColumnLimit: ");
    let key = "ColumnLimit"@;
    assert("ColumnLimit: "@ =~= key + seq![':', ' ']);
    law_numbers_read_back(key, n);
}

proof fn lemma_last_number(lines: Seq<Seq<char>>, i: int)
    requires
        -1 <= i < lines.len(),
    ensures
        (forall|j: int|
            i < j < lines.len() ==> config::int_key(#[trigger] lines[j], "TabWidth"@) is None)
            ==> {
            &&& i == -1 ==> config::indent_keys(lines).tab_width is None
            &&& i >= 0 && config::int_key(lines[i], "TabWidth"@) is Some ==> config::indent_keys(
                lines,
            ).tab_width == config::int_key(lines[i], "TabWidth"@)
        },
        (forall|j: int|
            i < j < lines.len() ==> config::int_key(#[trigger] lines[j], "IndentWidth"@) is None)
            ==> {
            &&& i == -1 ==> config::indent_keys(lines).indent_width is None
            &&& i >= 0 && config::int_key(lines[i], "IndentWidth"@) is Some
                ==> config::indent_keys(lines).indent_width == config::int_key(
                lines[i],
                "IndentWidth"@,
            )
        },
        (forall|j: int|
            i < j < lines.len() ==> config::value_of(
                #[trigger] lines[j],
                "UseTab"@,
                Class::Word,
            ) is None) ==> {
            &&& i == -1 ==> config::indent_keys(lines).use_tab is None
            &&& i >= 0 && config::value_of(lines[i], "UseTab"@, Class::Word) is Some
                ==> config::indent_keys(lines).use_tab == config::use_tab_named(
                config::value_of(lines[i], "UseTab"@, Class::Word)->0,
            )
        },
    decreases lines.len(),
{
    if i < lines.len() - 1 {
        let rest = lines.drop_last();
        lemma_last_number(rest, i);
        assert(forall|j: int| 0 <= j < rest.len() ==> #[trigger] rest[j] == lines[j]);
    }
}

/// The tab width is the number on the last line that gives one, and 8 where none
/// does or the number is 0.
pub proof fn law_tab_width(s: Seq<char>, i: int, n: usize)
    requires
        -1 <= i < text::lines(s).len(),
        forall|j: int|
            i < j < text::lines(s).len() ==> config::int_key(
                #[trigger] text::lines(s)[j],
                "TabWidth"@,
            ) is None,
    ensures
        i == -1 ==> config::settings(Some(s)).indent.tab_width == 8,
        i >= 0 && config::int_key(text::lines(s)[i], "TabWidth"@) == Some(n) ==> config::settings(
            Some(s),
        ).indent.tab_width == if n == 0 {
            8
        } else {
            n
        },
        i >= 0 && text::lines(s)[i] == "TabWidth: "@ + text::decimal(n as nat) && n > 0
            ==> config::settings(Some(s)).indent.tab_width == n,
        config::settings(None).indent.tab_width == 8,
{
    lemma_last_number(text::lines(s), i);
    reveal_strlit("TabWidth");
    reveal_strlit("TabWidth: ");
    assert("TabWidth: "@ =~= "TabWidth"@ + seq![':', ' ']);
    law_numbers_read_back("TabWidth"@, n);
}

/// The indentation width is the number on the last line that gives one, and 2
/// where none does.
pub proof fn law_indent_width(s: Seq<char>, i: int, n: usize)
    requires
        -1 <= i < text::lines(s).len(),
        forall|j: int|
            i < j < text::lines(s).len() ==> config::int_key(
                #[trigger] text::lines(s)[j],
                "IndentWidth"@,
            ) is None,
    ensures
        i == -1 ==> config::settings(Some(s)).indent.indent_width == 2,
        i >= 0 && config::int_key(text::lines(s)[i], "IndentWidth"@) == Some(n)
            ==> config::settings(Some(s)).indent.indent_width == n,
        i >= 0 && text::lines(s)[i] == "IndentWidth: "@ + text::decimal(n as nat)
            ==> config::settings(Some(s)).indent.indent_width == n,
        config::settings(None).indent.indent_width == 2,
{
    lemma_last_number(text::lines(s), i);
    reveal_strlit("IndentWidth");
    reveal_strlit("IndentWidth: ");
    assert("IndentWidth: "@ =~= "IndentWidth"@ + seq![':', ' ']);
    law_numbers_read_back("IndentWidth"@, n);
}

/// The names of the five ways to use tabs, and no others.
pub proof fn law_use_tab_names(v: Seq<char>)
    ensures
        config::use_tab_named("Never"@) == Some(UseTab::Never),
        config::use_tab_named("ForIndentation"@) == Some(UseTab::ForIndentation),
        config::use_tab_named("ForContinuationAndIndentation"@) == Some(
            UseTab::ForContinuationAndIndentation,
        ),
        config::use_tab_named("Always"@) == Some(UseTab::Always),
        config::use_tab_named("AlignWithSpaces"@) == Some(UseTab::AlignWithSpaces),
        config::use_tab_named(v) is Some ==> v == "Never"@ || v == "ForIndentation"@ || v
            == "ForContinuationAndIndentation"@ || v == "Always"@ || v == "AlignWithSpaces"@,
{
    reveal_strlit("Never");
    reveal_strlit("ForIndentation");
    reveal_strlit("ForContinuationAndIndentation");
    reveal_strlit("Always");
    reveal_strlit("AlignWithSpaces");
    assert("Never"@.len() == 5 && "ForIndentation"@.len() == 14
        && "ForContinuationAndIndentation"@.len() == 29 && "Always"@.len() == 6
        && "AlignWithSpaces"@.len() == 15);
}

/// How tabs are used is the word on the last line that gives one; where none does,
/// or the word is none of the five, they are never used.
pub proof fn law_use_tab(s: Seq<char>, i: int)
    requires
        -1 <= i < text::lines(s).len(),
        forall|j: int|
            i < j < text::lines(s).len() ==> config::value_of(
                #[trigger] text::lines(s)[j],
                "UseTab"@,
                Class::Word,
            ) is None,
    ensures
        i == -1 ==> config::settings(Some(s)).indent.use_tab == UseTab::Never,
        i >= 0 ==> match config::value_of(text::lines(s)[i], "UseTab"@, Class::Word) {
            Some(v) => match config::use_tab_named(v) {
                Some(u) => config::settings(Some(s)).indent.use_tab == u,
                None => config::settings(Some(s)).indent.use_tab == UseTab::Never,
            },
            None => true,
        },
        config::settings(None).indent.use_tab == UseTab::Never,
{
    lemma_last_number(text::lines(s), i);
}

/// Every directory from the file's own up to the root is searched, and those from
/// the current one too unless the file lies under it; none of them twice.
pub proof fn law_every_directory_is_searched(search: Search, anchor: Anchor, level: usize)
    ensures
        search.probes().contains(Probe { anchor: Anchor::File, level }) <==> level
            < search.file_levels,
        search.probes().contains(Probe { anchor: Anchor::Cwd, level }) <==> !search.under_cwd
            && level < search.cwd_levels,
        search.probes().no_duplicates(),
{
    let f = config::climb(Anchor::File, search.file_levels);
    let c = config::climb(Anchor::Cwd, search.cwd_levels);
    if level < search.file_levels {
        let p = Probe { anchor: Anchor::File, level };
        assert(f[level as int] == p);
        if search.under_cwd {
            assert(search.probes()[level as int] == p);
        } else {
            assert(search.probes()[search.cwd_levels + level] == p);
        }
    }
    if level < search.cwd_levels && !search.under_cwd {
        assert(search.probes()[level as int] == Probe { anchor: Anchor::Cwd, level });
    }
}

} // verus!
