//! Settings: what is read out of a ".clang-format" text, in which order the
//! directories are searched for one, and what is remembered of it.

use vstd::prelude::*;
use vstd::slice::slice_subrange;

use crate::text;
use crate::text::Class;

verus! {

broadcast use vstd::string::group_string_axioms;

pub const DEFAULT_COLUMN_LIMIT: usize = 80;

pub const DEFAULT_TAB_WIDTH: usize = 8;

pub const DEFAULT_INDENT_WIDTH: usize = 2;

/// Where tabs are to be used.
#[derive(Debug, Clone, Copy, PartialEq, Eq, Structural)]
pub enum UseTab {
    Never,
    ForIndentation,
    ForContinuationAndIndentation,
    Always,
    AlignWithSpaces,
}

/// How lines are indented.
#[derive(Debug, Clone, Copy, PartialEq, Eq, Structural)]
pub struct IndentConfig {
    pub tab_width: usize,
    pub indent_width: usize,
    pub use_tab: UseTab,
}

impl IndentConfig {
    /// What holds where nothing is configured.
    pub open spec fn standard() -> IndentConfig {
        IndentConfig {
            tab_width: DEFAULT_TAB_WIDTH,
            indent_width: DEFAULT_INDENT_WIDTH,
            use_tab: UseTab::Never,
        }
    }
}

impl Default for IndentConfig {
    fn default() -> (r: IndentConfig)
        ensures
            r == IndentConfig::standard(),
    {
        IndentConfig {
            tab_width: DEFAULT_TAB_WIDTH,
            indent_width: DEFAULT_INDENT_WIDTH,
            use_tab: UseTab::Never,
        }
    }
}

/// Everything one ".clang-format" search yields.
#[derive(Debug, Clone, Copy, PartialEq, Eq, Structural)]
pub struct Resolved {
    pub column_limit: usize,
    pub indent: IndentConfig,
}

/// The settings that "--column-limit N" selects: the flag says the caller is not
/// interested in what the tree has to say about either key.
pub fn overridden(column_limit: usize) -> (r: Resolved)
    ensures
        r == (Resolved { column_limit, indent: IndentConfig::standard() }),
{
    Resolved { column_limit, indent: IndentConfig::default() }
}

/// A text without the spaces and tabs that it opens with.
pub open spec fn past_blanks(s: Seq<char>) -> Seq<char> {
    s.skip(text::run_len(s, Class::Blank) as int)
}

fn skip_spaces<'a>(s: &'a [char]) -> (r: &'a [char])
    ensures
        r@ == past_blanks(s@),
{
    let n: usize = text::count_run(s, Class::Blank);
    slice_subrange(s, n, s.len())
}

/// What stands behind the colon of a line that opens with a key.
pub open spec fn key_value(line: Seq<char>, key: Seq<char>) -> Option<Seq<char>> {
    let rest = past_blanks(line);
    let after = past_blanks(rest.skip(key.len() as int));
    if text::starts_with(rest, key) && after.len() > 0 && after[0] == ':' {
        Some(after.skip(1))
    } else {
        None
    }
}

/// Finds what stands behind a key.
pub fn strip_key_prefix<'a>(line: &'a [char], key: &str) -> (r: Option<&'a [char]>)
    ensures
        match key_value(line@, key@) {
            Some(v) => r is Some && r->0@ == v,
            None => r is None,
        },
{
    let k = text::chars_of(key);
    let rest = skip_spaces(line);
    if !text::begins(rest, key) {
        return None;
    }
    let after = skip_spaces(slice_subrange(rest, k.len(), rest.len()));
    if after.len() > 0 && after[0] == ':' {
        Some(slice_subrange(after, 1, after.len()))
    } else {
        None
    }
}

/// Whether nothing but a comment follows a value.
pub open spec fn ends_value(rest: Seq<char>) -> bool {
    let r = past_blanks(rest);
    r.len() == 0 || r[0] == '#'
}

fn at_value_end(rest: &[char]) -> (r: bool)
    ensures
        r == ends_value(rest@),
{
    let rest = skip_spaces(rest);
    rest.len() == 0 || rest[0] == '#'
}

/// The value of a key: the leading run of one class, if there is one and nothing
/// but a comment follows it.
pub open spec fn value_of(line: Seq<char>, key: Seq<char>, k: Class) -> Option<Seq<char>> {
    match key_value(line, key) {
        Some(s) => {
            let t = past_blanks(s);
            let n = text::run_len(t, k) as int;
            if n > 0 && ends_value(t.skip(n)) {
                Some(t.take(n))
            } else {
                None
            }
        },
        None => None,
    }
}

fn find_value<'a>(line: &'a [char], key: &str, k: Class) -> (r: Option<&'a [char]>)
    ensures
        match value_of(line@, key@, k) {
            Some(v) => r is Some && r->0@ == v,
            None => r is None,
        },
{
    match strip_key_prefix(line, key) {
        Some(s) => {
            let t = skip_spaces(s);
            let n: usize = text::count_run(t, k);
            if n > 0 && at_value_end(slice_subrange(t, n, t.len())) {
                Some(slice_subrange(t, 0, n))
            } else {
                None
            }
        },
        None => None,
    }
}

/// The number that a line gives a key.
pub open spec fn int_key(line: Seq<char>, key: Seq<char>) -> Option<usize> {
    match value_of(line, key, Class::Digit) {
        Some(v) => text::read_number(v),
        None => None,
    }
}

/// Reads the number that a line gives a key.
pub fn parse_int_key(line: &str, key: &str) -> (r: Option<usize>)
    ensures
        r == int_key(line@, key@),
{
    let line = text::chars_of(line);
    read_int(line.as_slice(), key)
}

fn read_int(line: &[char], key: &str) -> (r: Option<usize>)
    ensures
        r == int_key(line@, key@),
{
    match find_value(line, key, Class::Digit) {
        Some(v) => text::parse_number(v),
        None => None,
    }
}

/// Reads the word that a line gives a key.
pub fn parse_string_key(line: &str, key: &str) -> (r: Option<String>)
    ensures
        match value_of(line@, key@, Class::Word) {
            Some(v) => r is Some && r->0@ == v,
            None => r is None,
        },
{
    let line = text::chars_of(line);
    match find_value(line.as_slice(), key, Class::Word) {
        Some(v) => Some(text::string_of(v)),
        None => None,
    }
}

/// The first number that some line gives "ColumnLimit".
pub open spec fn first_limit(lines: Seq<Seq<char>>) -> Option<usize>
    decreases lines.len(),
{
    if lines.len() == 0 {
        None
    } else {
        match int_key(lines[0], "ColumnLimit"@) {
            Some(n) => Some(n),
            None => first_limit(lines.drop_first()),
        }
    }
}

/// Reads the column limit out of a text: the first that it gives.
pub fn parse_column_limit(source: &str) -> (r: Option<usize>)
    ensures
        r == first_limit(text::lines(source@)),
{
    let t = text::chars_of(source);
    let lines = text::split_lines(t.as_slice());
    let ghost all = text::views(lines@);
    let mut i: usize = 0;
    assert(all.skip(0) =~= all);
    while i < lines.len()
        invariant
            i <= lines@.len(),
            all == text::views(lines@),
            all == text::lines(source@),
            first_limit(all) == first_limit(all.skip(i as int)),
        decreases lines@.len() - i,
    {
        let line = lines[i].as_slice();
        proof {
            assert(all.skip(i as int)[0] == line@);
            assert(all.skip(i as int).drop_first() =~= all.skip(i + 1));
        }
        let n = read_int(line, "ColumnLimit");
        if n.is_some() {
            return n;
        }
        i = i + 1;
    }
    None
}

/// The value of "UseTab" that a word names.
pub open spec fn use_tab_named(v: Seq<char>) -> Option<UseTab> {
    if v == "Never"@ {
        Some(UseTab::Never)
    } else if v == "ForIndentation"@ {
        Some(UseTab::ForIndentation)
    } else if v == "ForContinuationAndIndentation"@ {
        Some(UseTab::ForContinuationAndIndentation)
    } else if v == "Always"@ {
        Some(UseTab::Always)
    } else if v == "AlignWithSpaces"@ {
        Some(UseTab::AlignWithSpaces)
    } else {
        None
    }
}

fn use_tab_of(v: &[char]) -> (r: Option<UseTab>)
    ensures
        r == use_tab_named(v@),
{
    if text::same_str(v, "Never") {
        Some(UseTab::Never)
    } else if text::same_str(v, "ForIndentation") {
        Some(UseTab::ForIndentation)
    } else if text::same_str(v, "ForContinuationAndIndentation") {
        Some(UseTab::ForContinuationAndIndentation)
    } else if text::same_str(v, "Always") {
        Some(UseTab::Always)
    } else if text::same_str(v, "AlignWithSpaces") {
        Some(UseTab::AlignWithSpaces)
    } else {
        None
    }
}

/// The indentation keys that a text gives.
#[derive(Clone, Copy)]
pub struct IndentKeys {
    pub tab_width: Option<usize>,
    pub indent_width: Option<usize>,
    pub use_tab: Option<UseTab>,
}

impl IndentKeys {
    /// The keys of no line.
    pub open spec fn nothing() -> IndentKeys {
        IndentKeys { tab_width: None, indent_width: None, use_tab: None }
    }

    /// With what one more line gives. A later number replaces an earlier one; a
    /// later word does too, and one that is no value of "UseTab" takes the key
    /// away.
    pub open spec fn and(self, line: Seq<char>) -> IndentKeys {
        IndentKeys {
            tab_width: match int_key(line, "TabWidth"@) {
                Some(n) => Some(n),
                None => self.tab_width,
            },
            indent_width: match int_key(line, "IndentWidth"@) {
                Some(n) => Some(n),
                None => self.indent_width,
            },
            use_tab: match value_of(line, "UseTab"@, Class::Word) {
                Some(v) => use_tab_named(v),
                None => self.use_tab,
            },
        }
    }

    /// The configuration, if any key was given. A tab width of 0 counts as not
    /// given, since columns are divided by it.
    pub open spec fn config(self) -> Option<IndentConfig> {
        if self.tab_width is None && self.indent_width is None && self.use_tab is None {
            None
        } else {
            Some(
                IndentConfig {
                    tab_width: if self.tab_width is Some && self.tab_width->0 > 0 {
                        self.tab_width->0
                    } else {
                        DEFAULT_TAB_WIDTH
                    },
                    indent_width: if self.indent_width is Some {
                        self.indent_width->0
                    } else {
                        DEFAULT_INDENT_WIDTH
                    },
                    use_tab: if self.use_tab is Some {
                        self.use_tab->0
                    } else {
                        UseTab::Never
                    },
                },
            )
        }
    }
}

/// The indentation keys that lines give, read in order.
pub open spec fn indent_keys(lines: Seq<Seq<char>>) -> IndentKeys
    decreases lines.len(),
{
    if lines.len() == 0 {
        IndentKeys::nothing()
    } else {
        indent_keys(lines.drop_last()).and(lines.last())
    }
}

/// Reads the indentation keys out of a text.
pub fn parse_indent_config(source: &str) -> (r: Option<IndentConfig>)
    ensures
        r == indent_keys(text::lines(source@)).config(),
{
    let t = text::chars_of(source);
    let lines = text::split_lines(t.as_slice());
    let ghost all = text::views(lines@);
    let mut keys = IndentKeys { tab_width: None, indent_width: None, use_tab: None };
    let mut i: usize = 0;
    assert(all.take(0) =~= Seq::<Seq<char>>::empty());
    while i < lines.len()
        invariant
            i <= lines@.len(),
            all == text::views(lines@),
            keys == indent_keys(all.take(i as int)),
        decreases lines@.len() - i,
    {
        let line = lines[i].as_slice();
        proof {
            assert(all.take(i + 1).last() == line@);
            assert(all.take(i + 1).drop_last() =~= all.take(i as int));
        }
        let tab = read_int(line, "TabWidth");
        if tab.is_some() {
            keys.tab_width = tab;
        }
        let indent = read_int(line, "IndentWidth");
        if indent.is_some() {
            keys.indent_width = indent;
        }
        match find_value(line, "UseTab", Class::Word) {
            Some(v) => {
                keys.use_tab = use_tab_of(v);
            },
            None => {},
        }
        i = i + 1;
    }
    assert(all.take(i as int) =~= all);
    if keys.tab_width.is_none() && keys.indent_width.is_none() && keys.use_tab.is_none() {
        return None;
    }
    let tab_width: usize = match keys.tab_width {
        Some(n) => if n > 0 {
            n
        } else {
            DEFAULT_TAB_WIDTH
        },
        None => DEFAULT_TAB_WIDTH,
    };
    let indent_width: usize = match keys.indent_width {
        Some(n) => n,
        None => DEFAULT_INDENT_WIDTH,
    };
    let use_tab = match keys.use_tab {
        Some(u) => u,
        None => UseTab::Never,
    };
    Some(IndentConfig { tab_width, indent_width, use_tab })
}

/// The settings that a ".clang-format" text gives, with the default for each key
/// that it does not.
pub open spec fn settings(source: Option<Seq<char>>) -> Resolved {
    match source {
        Some(s) => Resolved {
            column_limit: match first_limit(text::lines(s)) {
                Some(n) => n,
                None => DEFAULT_COLUMN_LIMIT,
            },
            indent: match indent_keys(text::lines(s)).config() {
                Some(c) => c,
                None => IndentConfig::standard(),
            },
        },
        None => Resolved {
            column_limit: DEFAULT_COLUMN_LIMIT,
            indent: IndentConfig::standard(),
        },
    }
}

/// The text of a file, where one was found.
pub open spec fn found_text(source: Option<String>) -> Option<Seq<char>> {
    match source {
        Some(s) => Some(s@),
        None => None,
    }
}

/// Reads every key out of one ".clang-format" text. No file yields the defaults.
pub fn read_keys(source: &Option<String>) -> (r: Resolved)
    ensures
        r == settings(found_text(*source)),
{
    match source {
        Some(s) => {
            let column_limit: usize = match parse_column_limit(s.as_str()) {
                Some(n) => n,
                None => DEFAULT_COLUMN_LIMIT,
            };
            let indent = match parse_indent_config(s.as_str()) {
                Some(c) => c,
                None => IndentConfig::default(),
            };
            Resolved { column_limit, indent }
        },
        None => Resolved {
            column_limit: DEFAULT_COLUMN_LIMIT,
            indent: IndentConfig::default(),
        },
    }
}

/// A tab is never zero columns wide.
pub proof fn law_tab_width_is_positive(source: Option<Seq<char>>)
    ensures
        settings(source).indent.tab_width > 0,
{
}

/// One file governs every key: what it does not say is the default, whatever
/// files further up may say.
pub proof fn law_silent_file_gives_the_defaults(source: Seq<char>)
    requires
        first_limit(text::lines(source)) is None,
        indent_keys(text::lines(source)).config() is None,
    ensures
        settings(Some(source)) == settings(None),
{
}

/// Which directory a search climbs from.
#[derive(Debug, Clone, Copy, PartialEq, Eq, Structural)]
pub enum Anchor {
    /// The directory of the input file.
    File,
    /// The current working directory.
    Cwd,
}

/// One directory in which to look for a ".clang-format": the anchor's own, or
/// one "level" parents further up.
#[derive(Debug, Clone, Copy, PartialEq, Eq, Structural)]
pub struct Probe {
    pub anchor: Anchor,
    pub level: usize,
}

/// A search for the ".clang-format" that governs a file. The caller looks where
/// it is told to, and stops at the first file it can read: that one governs
/// every key, whether it gives it or not.
#[derive(Debug, Clone, Copy)]
pub struct Search {
    /// The input file lies under the current working directory.
    pub under_cwd: bool,
    /// The number of directories from the file's own up to the root.
    pub file_levels: usize,
    /// The number of directories from the current one up to the root.
    pub cwd_levels: usize,
}

/// The directories from an anchor up to the root.
pub open spec fn climb(anchor: Anchor, levels: usize) -> Seq<Probe> {
    Seq::new(levels as nat, |i: int| Probe { anchor, level: i as usize })
}

impl Search {
    /// Where to look, in order: up from the file's directory when the file lies
    /// under the current one; otherwise up from the current one first.
    pub open spec fn probes(self) -> Seq<Probe> {
        if self.under_cwd {
            climb(Anchor::File, self.file_levels)
        } else {
            climb(Anchor::Cwd, self.cwd_levels) + climb(Anchor::File, self.file_levels)
        }
    }

    /// The place of a directory in that order.
    pub open spec fn place(self, p: Probe) -> int {
        match p.anchor {
            Anchor::Cwd => p.level as int,
            Anchor::File => if self.under_cwd {
                p.level as int
            } else {
                self.cwd_levels + p.level
            },
        }
    }

    /// Where to look first.
    pub fn first(&self) -> (r: Option<Probe>)
        ensures
            r == if self.probes().len() > 0 {
                Some(self.probes()[0])
            } else {
                None
            },
    {
        if !self.under_cwd && self.cwd_levels > 0 {
            Some(Probe { anchor: Anchor::Cwd, level: 0 })
        } else if self.file_levels > 0 {
            Some(Probe { anchor: Anchor::File, level: 0 })
        } else {
            None
        }
    }

    /// Where to look next, after nothing could be read in one directory.
    pub fn after(&self, p: Probe) -> (r: Option<Probe>)
        requires
            self.probes().contains(p),
        ensures
            r == if self.place(p) + 1 < self.probes().len() {
                Some(self.probes()[self.place(p) + 1])
            } else {
                None
            },
    {
        proof {
            law_search_order(*self, self.probes().index_of(p));
        }
        match p.anchor {
            Anchor::Cwd => if p.level < self.cwd_levels - 1 {
                Some(Probe { anchor: Anchor::Cwd, level: p.level + 1 })
            } else if self.file_levels > 0 {
                Some(Probe { anchor: Anchor::File, level: 0 })
            } else {
                None
            },
            Anchor::File => if p.level < self.file_levels - 1 {
                Some(Probe { anchor: Anchor::File, level: p.level + 1 })
            } else {
                None
            },
        }
    }
}

/// Every directory of a search has its own place in the order, and the search
/// reaches it by going on from the one before.
pub proof fn law_search_order(search: Search, k: int)
    requires
        0 <= k < search.probes().len(),
    ensures
        search.place(search.probes()[k]) == k,
        search.probes().contains(search.probes()[k]),
{
}

/// A nearer directory is searched before one further up; and outside the current
/// directory, that one's ancestors come before the file's.
pub proof fn law_nearest_first(search: Search, i: int, j: int)
    requires
        0 <= i < j < search.probes().len(),
    ensures
        search.probes()[i].anchor == search.probes()[j].anchor ==> search.probes()[i].level
            < search.probes()[j].level,
        search.probes()[i].anchor != search.probes()[j].anchor ==> !search.under_cwd
            && search.probes()[i].anchor == Anchor::Cwd && search.probes()[j].anchor
            == Anchor::File,
{
}

/// What to do about one input file.
#[derive(Debug, Clone, Copy, PartialEq, Eq, Structural)]
pub enum Lookup {
    /// Its settings are these.
    Known(Resolved),
    /// The directories have to be searched.
    Search,
}

/// What has been learned of directories during one run. A flat list of files in
/// one tree asks for the same settings again and again; this does the search
/// once for each directory. It must not outlive a run, since the file system can
/// change between runs.
pub struct ResolveCache {
    entries: Vec<(Vec<u8>, Resolved)>,
}

/// What entries say of directories.
spec fn entry_map(entries: Seq<(Vec<u8>, Resolved)>) -> Map<Seq<u8>, Resolved>
    decreases entries.len(),
{
    if entries.len() == 0 {
        Map::empty()
    } else {
        entry_map(entries.drop_last()).insert(entries.last().0@, entries.last().1)
    }
}

proof fn lemma_entry_map(entries: Seq<(Vec<u8>, Resolved)>)
    ensures
        forall|i: int|
            0 <= i < entries.len() ==> entry_map(entries).contains_key((#[trigger] entries[i]).0@),
        forall|d: Seq<u8>| #[trigger]
            entry_map(entries).contains_key(d) ==> exists|i: int|
                0 <= i < entries.len() && (#[trigger] entries[i]).0@ == d,
        entry_map(entries).dom().finite(),
    decreases entries.len(),
{
    if entries.len() > 0 {
        let t = entries.drop_last();
        lemma_entry_map(t);
        assert forall|i: int| 0 <= i < entries.len() implies entry_map(entries).contains_key(
            (#[trigger] entries[i]).0@,
        ) by {
            if i < t.len() {
                assert(t[i] == entries[i]);
            }
        }
        assert forall|d: Seq<u8>| #[trigger] entry_map(entries).contains_key(d) implies exists|
            i: int,
        | 0 <= i < entries.len() && (#[trigger] entries[i]).0@ == d by {
            if d == entries.last().0@ {
                assert(entries[entries.len() - 1].0@ == d);
            } else {
                assert(entry_map(t).contains_key(d));
                let i = choose|i: int| 0 <= i < t.len() && (#[trigger] t[i]).0@ == d;
                assert(entries[i].0@ == d);
            }
        }
    }
}

/// Whether no directory has two entries.
spec fn distinct(entries: Seq<(Vec<u8>, Resolved)>) -> bool {
    forall|i: int, j: int|
        #![trigger entries[i], entries[j]]
        0 <= i < j < entries.len() ==> entries[i].0@ != entries[j].0@
}

proof fn lemma_entry_at(entries: Seq<(Vec<u8>, Resolved)>, k: int)
    requires
        distinct(entries),
        0 <= k < entries.len(),
    ensures
        entry_map(entries)[entries[k].0@] == entries[k].1,
    decreases entries.len(),
{
    if k < entries.len() - 1 {
        let t = entries.drop_last();
        assert forall|i: int, j: int|
            #![trigger t[i], t[j]]
            0 <= i < j < t.len() implies t[i].0@ != t[j].0@ by {
            assert(entries[i].0@ != entries[j].0@);
        }
        lemma_entry_at(t, k);
        assert(t[k] == entries[k]);
        assert(entries[k].0@ != entries[entries.len() - 1].0@);
    }
}

proof fn lemma_entry_count(entries: Seq<(Vec<u8>, Resolved)>)
    requires
        distinct(entries),
    ensures
        entry_map(entries).dom().len() == entries.len(),
    decreases entries.len(),
{
    if entries.len() > 0 {
        let t = entries.drop_last();
        assert forall|i: int, j: int|
            #![trigger t[i], t[j]]
            0 <= i < j < t.len() implies t[i].0@ != t[j].0@ by {
            assert(entries[i].0@ != entries[j].0@);
        }
        lemma_entry_count(t);
        lemma_entry_map(t);
        let d = entries.last().0@;
        if entry_map(t).contains_key(d) {
            let i = choose|i: int| 0 <= i < t.len() && (#[trigger] t[i]).0@ == d;
            assert(entries[i].0@ != entries[entries.len() - 1].0@);
        }
        assert(entry_map(entries).dom() =~= entry_map(t).dom().insert(d));
    } else {
        assert(entry_map(entries).dom() =~= Set::empty());
    }
}

fn same_bytes(a: &[u8], b: &[u8]) -> (r: bool)
    ensures
        r == (a@ == b@),
{
    if a.len() != b.len() {
        return false;
    }
    let mut i: usize = 0;
    while i < a.len()
        invariant
            i <= a@.len(),
            a@.len() == b@.len(),
            forall|j: int| 0 <= j < i ==> a@[j] == b@[j],
        decreases a@.len() - i,
    {
        if a[i] != b[i] {
            return false;
        }
        i = i + 1;
    }
    assert(a@ =~= b@);
    true
}

impl View for ResolveCache {
    type V = Map<Seq<u8>, Resolved>;

    closed spec fn view(&self) -> Map<Seq<u8>, Resolved> {
        entry_map(self.entries@)
    }
}

impl ResolveCache {
    #[verifier::type_invariant]
    spec fn valid(self) -> bool {
        distinct(self.entries@)
    }

    /// Nothing learned yet.
    pub fn new() -> (c: ResolveCache)
        ensures
            c@ == Map::<Seq<u8>, Resolved>::empty(),
    {
        ResolveCache { entries: Vec::new() }
    }

    /// The number of searches that were made: one for each directory learned.
    pub fn walk_count(&self) -> (n: usize)
        ensures
            self@.dom().finite(),
            n == self@.dom().len(),
    {
        proof {
            use_type_invariant(self);
            lemma_entry_map(self.entries@);
            lemma_entry_count(self.entries@);
        }
        self.entries.len()
    }

    /// Decides about an input file in a directory. "--column-limit" bypasses
    /// discovery entirely, and a directory learned before needs no search.
    pub fn resolve(&self, dir: &[u8], cli_col_override: Option<usize>) -> (r: Lookup)
        ensures
            r == match cli_col_override {
                Some(n) => Lookup::Known(
                    Resolved { column_limit: n, indent: IndentConfig::standard() },
                ),
                None => if self@.contains_key(dir@) {
                    Lookup::Known(self@[dir@])
                } else {
                    Lookup::Search
                },
            },
    {
        proof {
            use_type_invariant(self);
            lemma_entry_map(self.entries@);
        }
        if let Some(n) = cli_col_override {
            return Lookup::Known(overridden(n));
        }
        let mut i: usize = 0;
        while i < self.entries.len()
            invariant
                i <= self.entries@.len(),
                distinct(self.entries@),
                self@ == entry_map(self.entries@),
                cli_col_override is None,
                forall|j: int|
                    0 <= j < self.entries@.len() ==> self@.contains_key(
                        (#[trigger] self.entries@[j]).0@,
                    ),
                forall|j: int| 0 <= j < i ==> (#[trigger] self.entries@[j]).0@ != dir@,
            decreases self.entries@.len() - i,
        {
            if same_bytes(self.entries[i].0.as_slice(), dir) {
                proof {
                    lemma_entry_at(self.entries@, i as int);
                }
                return Lookup::Known(self.entries[i].1);
            }
            i = i + 1;
        }
        Lookup::Search
    }

    /// Takes in what a search from a directory found, and gives the settings.
    pub fn learn(&mut self, dir: Vec<u8>, source: &Option<String>) -> (r: Resolved)
        requires
            !old(self)@.contains_key(dir@),
        ensures
            r == settings(found_text(*source)),
            final(self)@ == old(self)@.insert(dir@, r),
    {
        let r = read_keys(source);
        proof {
            use_type_invariant(&*self);
            lemma_entry_map(self.entries@);
        }
        let ghost before = self.entries@;
        let mut entries: Vec<(Vec<u8>, Resolved)> = Vec::new();
        std::mem::swap(&mut entries, &mut self.entries);
        let ghost key = dir@;
        entries.push((dir, r));
        proof {
            assert(entries@.drop_last() =~= before);
            assert forall|i: int, j: int|
                #![trigger entries@[i], entries@[j]]
                0 <= i < j < entries@.len() implies entries@[i].0@ != entries@[j].0@ by {
                if j < before.len() {
                    assert(before[i].0@ != before[j].0@);
                } else {
                    assert(entry_map(before).contains_key(before[i].0@));
                }
            }
        }
        self.entries = entries;
        r
    }
}

/// A directory is searched once: after its search, files in it are answered from
/// what was learned, and nothing else changes.
pub proof fn law_learned_directories_are_not_searched_again(
    before: Map<Seq<u8>, Resolved>,
    after: Map<Seq<u8>, Resolved>,
    dir: Seq<u8>,
    r: Resolved,
    other: Seq<u8>,
)
    requires
        before.dom().finite(),
        !before.contains_key(dir),
        after == before.insert(dir, r),
    ensures
        after.contains_key(dir),
        after[dir] == r,
        other != dir ==> after.contains_key(other) == before.contains_key(other) && after[other]
            == before[other],
        after.dom().len() == before.dom().len() + 1,
{
}

} // verus!
