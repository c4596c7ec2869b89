use commentflow::config::{
    overridden, parse_column_limit, parse_indent_config, parse_int_key, parse_string_key, read_keys,
    Anchor, IndentConfig, Lookup, Probe, ResolveCache, Search, UseTab, DEFAULT_COLUMN_LIMIT,
    DEFAULT_INDENT_WIDTH, DEFAULT_TAB_WIDTH,
};

#[test]
fn parses_basic_column_limit() {
    assert_eq!(parse_column_limit("ColumnLimit: 100\n"), Some(100));
    assert_eq!(parse_column_limit("ColumnLimit:80"), Some(80));
    assert_eq!(parse_column_limit("  ColumnLimit:   120  \n"), Some(120));
}

#[test]
fn ignores_other_keys() {
    let text = "Language: Cpp\nBasedOnStyle: Google\nIndentWidth: 4\n";
    assert_eq!(parse_column_limit(text), None);
}

#[test]
fn accepts_trailing_comment() {
    assert_eq!(
        parse_column_limit("ColumnLimit: 100 # project default"),
        Some(100)
    );
}

#[test]
fn picks_first_match_among_many_lines() {
    let text = "BasedOnStyle: Google\nColumnLimit: 99\nColumnLimit: 77\n";
    assert_eq!(parse_column_limit(text), Some(99));
}

#[test]
fn column_limit_zero_disables() {
    assert_eq!(parse_column_limit("ColumnLimit: 0"), Some(0));
}

#[test]
fn tab_width_zero_falls_back_to_default() {
    // "TabWidth: 0" must not reach a divide. It floors to the default.
    let cfg = parse_indent_config("TabWidth: 0\n").expect("indent key present");
    assert_eq!(cfg.tab_width, DEFAULT_TAB_WIDTH);
}

#[test]
fn rejects_malformed() {
    assert_eq!(parse_column_limit("ColumnLimit"), None);
    assert_eq!(parse_column_limit("ColumnLimit: "), None);
    assert_eq!(parse_column_limit("ColumnLimit: abc"), None);
    assert_eq!(parse_column_limit("ColumnLimit: 80junk"), None);
    assert_eq!(parse_string_key("UseTab: Never junk", "UseTab"), None);
}

#[test]
fn one_text_gives_every_key() {
    let text = "ColumnLimit: 72\nTabWidth: 4\nIndentWidth: 3\nUseTab: Always\n";
    let r = read_keys(&Some(text.to_string()));
    assert_eq!(r.column_limit, 72);
    assert_eq!(r.indent.tab_width, 4);
    assert_eq!(r.indent.indent_width, 3);
    assert_eq!(r.indent.use_tab, UseTab::Always);

    // The override bypasses the indent keys too, not just the column limit.
    let o = overridden(50);
    assert_eq!(o.column_limit, 50);
    assert_eq!(o.indent, IndentConfig::default());
    assert_eq!(o.indent.use_tab, UseTab::Never);
}

#[test]
fn silence_gives_the_defaults() {
    let none = read_keys(&None);
    assert_eq!(none.column_limit, DEFAULT_COLUMN_LIMIT);
    assert_eq!(none.column_limit, 80);
    assert_eq!(none.indent.tab_width, 8);
    assert_eq!(none.indent.indent_width, DEFAULT_INDENT_WIDTH);
    assert_eq!(none.indent.indent_width, 2);
    assert_eq!(read_keys(&Some("BasedOnStyle: LLVM\n".to_string())), none);
    assert_eq!(parse_indent_config(""), None);
}

#[test]
fn later_indent_keys_replace_earlier_ones() {
    let text = "TabWidth: 4\nUseTab: Always\nTabWidth: 2\nUseTab: Sometimes\n";
    let cfg = parse_indent_config(text).unwrap();
    assert_eq!(cfg.tab_width, 2);
    assert_eq!(cfg.use_tab, UseTab::Never);
    for (word, value) in [
        ("Never", UseTab::Never),
        ("ForIndentation", UseTab::ForIndentation),
        ("ForContinuationAndIndentation", UseTab::ForContinuationAndIndentation),
        ("Always", UseTab::Always),
        ("AlignWithSpaces", UseTab::AlignWithSpaces),
    ] {
        let cfg = parse_indent_config(&format!("UseTab: {word}")).unwrap();
        assert_eq!(cfg.use_tab, value);
    }
}

#[test]
fn keys_are_read_exactly() {
    assert_eq!(parse_int_key("\tTabWidth\t:\t4\t# x", "TabWidth"), Some(4));
    assert_eq!(parse_int_key("XTabWidth: 4", "TabWidth"), None);
    assert_eq!(parse_int_key("TabWidths: 4", "TabWidth"), None);
    assert_eq!(parse_int_key("TabWidth 4", "TabWidth"), None);
    assert_eq!(parse_int_key("TabWidth: -4", "TabWidth"), None);
    let most = usize::MAX.to_string();
    assert_eq!(parse_int_key(&format!("TabWidth: {most}"), "TabWidth"), Some(usize::MAX));
    assert_eq!(parse_int_key(&format!("TabWidth: {most}9"), "TabWidth"), None);
    assert_eq!(parse_string_key("UseTab: a_1 # x", "UseTab"), Some("a_1".to_string()));
    assert_eq!(parse_string_key("UseTab:", "UseTab"), None);
}

#[test]
fn lines_end_like_text_lines() {
    assert_eq!(parse_column_limit("A: 1\r\nColumnLimit: 90\r\n"), Some(90));
    // A carriage return that no newline follows belongs to the value.
    assert_eq!(parse_column_limit("ColumnLimit: 90\r"), None);
    assert_eq!(parse_column_limit("\n\nColumnLimit: 90"), Some(90));
}

/// Carries out a search over directories that hold the given texts, nearest
/// first.
fn discover(search: &Search, file: &[Option<&str>], cwd: &[Option<&str>]) -> Option<String> {
    let mut next = search.first();
    while let Some(p) = next {
        let dirs = match p.anchor {
            Anchor::File => file,
            Anchor::Cwd => cwd,
        };
        if let Some(text) = dirs[p.level] {
            return Some(text.to_string());
        }
        next = search.after(p);
    }
    None
}

fn search(under_cwd: bool, file: &[Option<&str>], cwd: &[Option<&str>]) -> Option<String> {
    let search = Search { under_cwd, file_levels: file.len(), cwd_levels: cwd.len() };
    discover(&search, file, cwd)
}

#[test]
fn the_nearest_ancestor_governs() {
    let file = [None, None, Some("ColumnLimit: 100\n"), Some("ColumnLimit: 80\n")];
    assert_eq!(search(true, &file, &[]).as_deref(), Some("ColumnLimit: 100\n"));
    let silent = [None, Some("BasedOnStyle: LLVM\n"), Some("ColumnLimit: 100\n")];
    let text = search(true, &silent, &[]).unwrap();
    assert_eq!(parse_column_limit(&text), None);
}

#[test]
fn outside_the_current_directory_that_one_comes_first() {
    let file = [None, Some("ColumnLimit: 120\n")];
    let silent = [None, Some("BasedOnStyle: LLVM\n")];
    assert_eq!(parse_column_limit(&search(false, &file, &silent).unwrap()), None);
    let limited = [None, Some("ColumnLimit: 100\n")];
    assert_eq!(parse_column_limit(&search(false, &file, &limited).unwrap()), Some(100));
    assert_eq!(parse_column_limit(&search(false, &file, &[None, None]).unwrap()), Some(120));
    assert_eq!(parse_column_limit(&search(true, &file, &limited).unwrap()), Some(120));
    assert_eq!(search(false, &[None], &[None, None]), None);
}

#[test]
fn a_search_visits_every_directory_once() {
    let s = Search { under_cwd: false, file_levels: 2, cwd_levels: 3 };
    let mut seen = Vec::new();
    let mut next = s.first();
    while let Some(p) = next {
        seen.push(p);
        next = s.after(p);
    }
    let expected: Vec<Probe> = (0..3)
        .map(|level| Probe { anchor: Anchor::Cwd, level })
        .chain((0..2).map(|level| Probe { anchor: Anchor::File, level }))
        .collect();
    assert_eq!(seen, expected);
    let none = Search { under_cwd: true, file_levels: 0, cwd_levels: 3 };
    assert_eq!(none.first(), None);
}

#[test]
fn a_directory_is_searched_once() {
    let mut cache = ResolveCache::new();
    assert_eq!(cache.walk_count(), 0);
    assert_eq!(cache.resolve(b"/src", None), Lookup::Search);
    let r = cache.learn(b"/src".to_vec(), &Some("ColumnLimit: 70\n".to_string()));
    assert_eq!(r.column_limit, 70);
    assert_eq!(cache.walk_count(), 1, "first file performs one walk");

    // A second file in the same directory needs no further search.
    assert_eq!(cache.resolve(b"/src", None), Lookup::Known(r));
    assert_eq!(cache.walk_count(), 1);
    assert_eq!(cache.resolve(b"/src/a", None), Lookup::Search);

    // The override bypasses discovery entirely.
    assert_eq!(cache.resolve(b"/src", Some(50)), Lookup::Known(overridden(50)));
    assert_eq!(cache.resolve(b"/other", Some(50)), Lookup::Known(overridden(50)));
    assert_eq!(cache.walk_count(), 1, "override must not walk");

    cache.learn(b"/other".to_vec(), &None);
    assert_eq!(cache.walk_count(), 2);
    assert_eq!(cache.resolve(b"/src", None), Lookup::Known(r));
}
