//! Text as a sequence of characters: the vocabulary in which the rest of the
//! library states what it does with a line.
//!
//! A "&str" is opened once into its characters and worked on as a slice, so
//! that positions are character positions and no slice can miss a character
//! boundary.

use vstd::prelude::*;
use vstd::slice::slice_subrange;

verus! {

broadcast use vstd::string::group_string_axioms;

/// Appending a character to a string appends it to the string's characters.
pub assume_specification[ String::push ](s: &mut String, c: char)
    ensures
        final(s)@ == old(s)@.push(c),
;

/// Appending a string slice appends its characters, in order.
pub assume_specification[ String::push_str ](s: &mut String, tail: &str)
    ensures
        final(s)@ == old(s)@ + tail@,
;

/// What "char::is_alphanumeric" answers.
pub uninterp spec fn unicode_alphanumeric(c: char) -> bool;

/// Whether Unicode counts a character as a letter or a number is decided by
/// "char::is_alphanumeric", of which only this is claimed: it answers by the
/// character alone.
pub assume_specification[ char::is_alphanumeric ](c: char) -> (r: bool)
    ensures
        r == unicode_alphanumeric(c),
;

/// What "char::is_uppercase" answers.
pub uninterp spec fn unicode_uppercase(c: char) -> bool;

/// Whether Unicode counts a character as upper case is decided by
/// "char::is_uppercase", of which only this is claimed: it answers by the
/// character alone.
pub assume_specification[ char::is_uppercase ](c: char) -> (r: bool)
    ensures
        r == unicode_uppercase(c),
;

/// A set of characters that lines are scanned for.
#[derive(Clone, Copy)]
pub enum Class {
    /// Unicode white space.
    White,
    /// Anything but Unicode white space.
    Solid,
    /// A space or a tab.
    Blank,
    /// "0" to "9".
    Digit,
    /// An ASCII letter.
    Letter,
    /// An ASCII letter or digit, or "_".
    Word,
    /// A letter or a number in any script.
    Alphanumeric,
    /// A letter or a number in any script, "_" or "-".
    Key,
    /// A box-drawing or block character.
    Box,
    /// White space or a character that drawings are made of.
    Drawing,
    /// "+", "-" or "=".
    Grid,
    /// One character.
    Only(char),
    /// Any character but one.
    Not(char),
    /// Anything but a newline or a carriage return.
    Unbroken,
}

/// The characters of Unicode's White_Space property.
pub open spec fn is_white(c: char) -> bool {
    ||| '\u{9}' <= c <= '\u{d}'
    ||| c == ' '
    ||| c == '\u{85}'
    ||| c == '\u{a0}'
    ||| c == '\u{1680}'
    ||| '\u{2000}' <= c <= '\u{200a}'
    ||| c == '\u{2028}'
    ||| c == '\u{2029}'
    ||| c == '\u{202f}'
    ||| c == '\u{205f}'
    ||| c == '\u{3000}'
}

pub open spec fn is_digit(c: char) -> bool {
    '0' <= c <= '9'
}

pub open spec fn is_letter(c: char) -> bool {
    'a' <= c <= 'z' || 'A' <= c <= 'Z'
}

/// Letters and numbers: ASCII by its table, the rest by Unicode.
pub open spec fn is_alphanumeric(c: char) -> bool {
    if c <= '\u{7f}' {
        is_letter(c) || is_digit(c)
    } else {
        unicode_alphanumeric(c)
    }
}

/// Upper case: ASCII by its table, the rest by Unicode.
pub open spec fn is_uppercase(c: char) -> bool {
    if c <= '\u{7f}' {
        'A' <= c <= 'Z'
    } else {
        unicode_uppercase(c)
    }
}

/// Box-drawing and block characters.
pub open spec fn is_box(c: char) -> bool {
    '\u{2500}' <= c <= '\u{259f}'
}

/// The ASCII characters that drawings are made of.
pub open spec fn is_stroke(c: char) -> bool {
    c == '|' || c == '+' || c == '-' || c == '=' || c == '*' || c == '#' || c == '_' || c == '/'
        || c == '\\' || c == '<' || c == '>' || c == '^'
}

impl Class {
    /// Whether the set holds a character.
    pub open spec fn holds(self, c: char) -> bool {
        match self {
            Class::White => is_white(c),
            Class::Solid => !is_white(c),
            Class::Blank => c == ' ' || c == '\t',
            Class::Digit => is_digit(c),
            Class::Letter => is_letter(c),
            Class::Word => is_letter(c) || is_digit(c) || c == '_',
            Class::Alphanumeric => is_alphanumeric(c),
            Class::Key => is_alphanumeric(c) || c == '_' || c == '-',
            Class::Box => is_box(c),
            Class::Drawing => is_white(c) || is_box(c) || is_stroke(c),
            Class::Grid => c == '+' || c == '-' || c == '=',
            Class::Only(x) => c == x,
            Class::Not(x) => c != x,
            Class::Unbroken => c != '\n' && c != '\r',
        }
    }

    /// Decides membership.
    pub fn test(self, c: char) -> (r: bool)
        ensures
            r == self.holds(c),
    {
        match self {
            Class::White => white(c),
            Class::Solid => !white(c),
            Class::Blank => c == ' ' || c == '\t',
            Class::Digit => '0' <= c && c <= '9',
            Class::Letter => ('a' <= c && c <= 'z') || ('A' <= c && c <= 'Z'),
            Class::Word => ('a' <= c && c <= 'z') || ('A' <= c && c <= 'Z') || ('0' <= c && c
                <= '9') || c == '_',
            Class::Alphanumeric => alphanumeric(c),
            Class::Key => alphanumeric(c) || c == '_' || c == '-',
            Class::Box => '\u{2500}' <= c && c <= '\u{259f}',
            Class::Drawing => white(c) || ('\u{2500}' <= c && c <= '\u{259f}') || c == '|' || c == '+'
                || c == '-' || c == '=' || c == '*' || c == '#' || c == '_' || c == '/' || c == '\\'
                || c == '<' || c == '>' || c == '^',
            Class::Grid => c == '+' || c == '-' || c == '=',
            Class::Only(x) => c == x,
            Class::Not(x) => c != x,
            Class::Unbroken => c != '\n' && c != '\r',
        }
    }
}

/// Decides whether a character is a letter or a number.
pub fn alphanumeric(c: char) -> (r: bool)
    ensures
        r == is_alphanumeric(c),
{
    if c <= '\u{7f}' {
        ('a' <= c && c <= 'z') || ('A' <= c && c <= 'Z') || ('0' <= c && c <= '9')
    } else {
        c.is_alphanumeric()
    }
}

/// Decides whether a character is upper case.
pub fn uppercase(c: char) -> (r: bool)
    ensures
        r == is_uppercase(c),
{
    if c <= '\u{7f}' {
        'A' <= c && c <= 'Z'
    } else {
        c.is_uppercase()
    }
}

/// Decides Unicode white space.
pub fn white(c: char) -> (r: bool)
    ensures
        r == is_white(c),
{
    ('\u{9}' <= c && c <= '\u{d}') || c == ' ' || c == '\u{85}' || c == '\u{a0}' || c == '\u{1680}'
        || ('\u{2000}' <= c && c <= '\u{200a}') || c == '\u{2028}' || c == '\u{2029}' || c
        == '\u{202f}' || c == '\u{205f}' || c == '\u{3000}'
}

/// The length of the longest prefix made of one class.
pub open spec fn run_len(s: Seq<char>, k: Class) -> nat
    decreases s.len(),
{
    if s.len() == 0 || !k.holds(s[0]) {
        0
    } else {
        1 + run_len(s.drop_first(), k)
    }
}

/// The length of the longest suffix made of one class.
pub open spec fn tail_len(s: Seq<char>, k: Class) -> nat
    decreases s.len(),
{
    if s.len() == 0 || !k.holds(s.last()) {
        0
    } else {
        1 + tail_len(s.drop_last(), k)
    }
}

/// Whether every character is of one class.
pub open spec fn all_of(s: Seq<char>, k: Class) -> bool {
    forall|i: int| 0 <= i < s.len() ==> k.holds(#[trigger] s[i])
}

/// Whether some character is of one class.
pub open spec fn any_of(s: Seq<char>, k: Class) -> bool {
    exists|i: int| 0 <= i < s.len() && k.holds(#[trigger] s[i])
}

/// The text without its leading white space.
pub open spec fn trim_start(s: Seq<char>) -> Seq<char> {
    s.skip(run_len(s, Class::White) as int)
}

/// The text without its trailing white space.
pub open spec fn trim_end(s: Seq<char>) -> Seq<char> {
    s.take(s.len() - tail_len(s, Class::White))
}

/// The text without white space at either end.
pub open spec fn trim(s: Seq<char>) -> Seq<char> {
    trim_end(trim_start(s))
}

/// Whether the text holds nothing but white space.
pub open spec fn is_blank(s: Seq<char>) -> bool {
    all_of(s, Class::White)
}

/// Whether "p" stands in "s" at position "i".
pub open spec fn stands_at<T>(s: Seq<T>, p: Seq<T>, i: int) -> bool {
    &&& 0 <= i <= s.len() - p.len()
    &&& s.subrange(i, i + p.len()) == p
}

pub open spec fn starts_with<T>(s: Seq<T>, p: Seq<T>) -> bool {
    stands_at(s, p, 0)
}

pub open spec fn ends_with<T>(s: Seq<T>, p: Seq<T>) -> bool {
    stands_at(s, p, s.len() - p.len())
}

/// Whether "p" stands anywhere in "s".
pub open spec fn has<T>(s: Seq<T>, p: Seq<T>) -> bool {
    exists|i: int| #[trigger] stands_at(s, p, i)
}

/// The first position at or after "i" where "p" stands.
pub open spec fn find_from<T>(s: Seq<T>, p: Seq<T>, i: int) -> Option<int>
    decreases s.len() + 1 - i,
{
    if i > s.len() - p.len() {
        None
    } else if stands_at(s, p, i) {
        Some(i)
    } else {
        find_from(s, p, i + 1)
    }
}

/// The last position in "lo <= i < hi" where "p" stands.
pub open spec fn rfind_in<T>(s: Seq<T>, p: Seq<T>, lo: int, hi: int) -> Option<int>
    decreases hi - lo,
{
    if hi <= lo {
        None
    } else if stands_at(s, p, hi - 1) {
        Some(hi - 1)
    } else {
        rfind_in(s, p, lo, hi - 1)
    }
}

/// What [`find_from`] finds is the first place, and finding nothing means there
/// is none.
pub proof fn lemma_find_from<T>(s: Seq<T>, p: Seq<T>, i: int)
    requires
        0 <= i,
    ensures
        match find_from(s, p, i) {
            Some(j) => i <= j && stands_at(s, p, j) && forall|k: int|
                i <= k < j ==> !#[trigger] stands_at(s, p, k),
            None => forall|k: int| i <= k ==> !#[trigger] stands_at(s, p, k),
        },
    decreases s.len() + 1 - i,
{
    if i <= s.len() - p.len() && !stands_at(s, p, i) {
        lemma_find_from(s, p, i + 1);
    }
}

/// A first place is what [`find_from`] finds.
pub proof fn lemma_find_from_is<T>(s: Seq<T>, p: Seq<T>, i: int, j: int)
    requires
        0 <= i <= j,
        stands_at(s, p, j),
        forall|k: int| i <= k < j ==> !#[trigger] stands_at(s, p, k),
    ensures
        find_from(s, p, i) == Some(j),
{
    lemma_find_from(s, p, i);
    match find_from(s, p, i) {
        Some(x) => {
            if x < j {
                assert(stands_at(s, p, x));
            } else if j < x {
                assert(stands_at(s, p, j));
            }
        },
        None => {
            assert(stands_at(s, p, j));
        },
    }
}

/// A pair stands where its two members follow each other.
pub proof fn lemma_pair_at<T>(s: Seq<T>, x: T, y: T, i: int)
    ensures
        stands_at(s, seq![x, y], i) <==> 0 <= i && i + 1 < s.len() && s[i] == x && s[i + 1] == y,
{
    if 0 <= i && i + 1 < s.len() {
        let t = s.subrange(i, i + 2);
        assert(t[0] == s[i] && t[1] == s[i + 1]);
        if s[i] == x && s[i + 1] == y {
            assert(t =~= seq![x, y]);
        }
        if t == seq![x, y] {
            assert(t[0] == x && t[1] == y);
        }
    }
}

/// A single stands where it is.
pub proof fn lemma_one_at<T>(s: Seq<T>, x: T, i: int)
    ensures
        stands_at(s, seq![x], i) <==> 0 <= i < s.len() && s[i] == x,
{
    if 0 <= i < s.len() {
        let t = s.subrange(i, i + 1);
        assert(t[0] == s[i]);
        if s[i] == x {
            assert(t =~= seq![x]);
        }
        if t == seq![x] {
            assert(t[0] == x);
        }
    }
}

/// The longest prefix of one class is no longer than the text, holds only that
/// class, and stops at the end or at a character outside it.
pub proof fn lemma_run_len(s: Seq<char>, k: Class)
    ensures
        0 <= run_len(s, k) <= s.len(),
        forall|i: int| 0 <= i < run_len(s, k) ==> k.holds(#[trigger] s[i]),
        run_len(s, k) < s.len() ==> !k.holds(s[run_len(s, k) as int]),
    decreases s.len(),
{
    if s.len() != 0 && k.holds(s[0]) {
        let t = s.drop_first();
        lemma_run_len(t, k);
        assert forall|i: int| 0 <= i < run_len(s, k) implies k.holds(#[trigger] s[i]) by {
            if i > 0 {
                assert(s[i] == t[i - 1]);
            }
        }
    }
}

/// A prefix of one class that ends at the end, or just before a character
/// outside the class, is the longest one.
pub proof fn lemma_run_len_is(s: Seq<char>, k: Class, n: int)
    requires
        0 <= n <= s.len(),
        forall|i: int| 0 <= i < n ==> k.holds(#[trigger] s[i]),
        n < s.len() ==> !k.holds(s[n]),
    ensures
        run_len(s, k) == n,
    decreases s.len(),
{
    if n > 0 {
        let t = s.drop_first();
        assert forall|i: int| 0 <= i < n - 1 implies k.holds(#[trigger] t[i]) by {
            assert(t[i] == s[i + 1]);
        }
        lemma_run_len_is(t, k, n - 1);
    }
}

/// What [`lemma_run_len`] says, of suffixes.
pub proof fn lemma_tail_len(s: Seq<char>, k: Class)
    ensures
        tail_len(s, k) <= s.len(),
        forall|i: int| s.len() - tail_len(s, k) <= i < s.len() ==> k.holds(#[trigger] s[i]),
        tail_len(s, k) < s.len() ==> !k.holds(s[s.len() - tail_len(s, k) - 1]),
    decreases s.len(),
{
    if s.len() != 0 && k.holds(s.last()) {
        let t = s.drop_last();
        lemma_tail_len(t, k);
        assert forall|i: int| s.len() - tail_len(s, k) <= i < s.len() implies k.holds(
            #[trigger] s[i],
        ) by {
            if i < t.len() {
                assert(s[i] == t[i]);
            }
        }
    }
}

/// What [`lemma_run_len_is`] says, of suffixes.
pub proof fn lemma_tail_len_is(s: Seq<char>, k: Class, n: int)
    requires
        0 <= n <= s.len(),
        forall|i: int| s.len() - n <= i < s.len() ==> k.holds(#[trigger] s[i]),
        n < s.len() ==> !k.holds(s[s.len() - n - 1]),
    ensures
        tail_len(s, k) == n,
    decreases s.len(),
{
    if n > 0 {
        let t = s.drop_last();
        assert forall|i: int| t.len() - (n - 1) <= i < t.len() implies k.holds(#[trigger] t[i]) by {
            assert(t[i] == s[i]);
        }
        lemma_tail_len_is(t, k, n - 1);
    }
}

/// The characters of a string slice.
pub fn chars_of(s: &str) -> (v: Vec<char>)
    ensures
        v@ == s@,
{
    let mut v: Vec<char> = Vec::new();
    for c in it: s.chars()
        invariant
            it.seq() == s@,
            v@ == s@.take(it.index() as int),
    {
        v.push(c);
    }
    assert(s@.take(s@.len() as int) == s@);
    v
}

/// A string of the given characters.
pub fn string_of(s: &[char]) -> (r: String)
    ensures
        r@ == s@,
{
    let mut r: String = String::new();
    let mut i: usize = 0;
    while i < s.len()
        invariant
            i <= s@.len(),
            r@ == s@.take(i as int),
        decreases s@.len() - i,
    {
        r.push(s[i]);
        i = i + 1;
    }
    assert(s@.take(s@.len() as int) == s@);
    r
}

/// Decides equality of two texts.
pub fn same(a: &[char], b: &[char]) -> (r: bool)
    ensures
        r == (a@ == b@),
{
    if a.len() != b.len() {
        return false;
    }
    let mut i: usize = 0;
    while i < a.len()
        invariant
            i <= a@.len(),
            a@.len() == b@.len(),
            forall|j: int| 0 <= j < i ==> a@[j] == b@[j],
        decreases a@.len() - i,
    {
        if a[i] != b[i] {
            return false;
        }
        i = i + 1;
    }
    assert(a@ == b@);
    true
}

/// Decides equality with a string slice.
pub fn same_str(a: &[char], b: &str) -> (r: bool)
    ensures
        r == (a@ == b@),
{
    let b = chars_of(b);
    same(a, b.as_slice())
}

/// Measures the longest prefix of one class.
pub fn count_run(s: &[char], k: Class) -> (n: usize)
    ensures
        n == run_len(s@, k),
        n <= s@.len(),
{
    let mut n: usize = 0;
    while n < s.len() && k.test(s[n])
        invariant
            n <= s@.len(),
            forall|i: int| 0 <= i < n ==> k.holds(#[trigger] s@[i]),
        decreases s@.len() - n,
    {
        n = n + 1;
    }
    proof {
        lemma_run_len_is(s@, k, n as int);
    }
    n
}

/// Measures the longest suffix of one class.
pub fn count_tail(s: &[char], k: Class) -> (n: usize)
    ensures
        n == tail_len(s@, k),
        n <= s@.len(),
{
    let mut n: usize = 0;
    while n < s.len() && k.test(s[s.len() - n - 1])
        invariant
            n <= s@.len(),
            forall|i: int| s@.len() - n <= i < s@.len() ==> k.holds(#[trigger] s@[i]),
        decreases s@.len() - n,
    {
        n = n + 1;
    }
    proof {
        lemma_tail_len_is(s@, k, n as int);
    }
    n
}

/// Drops leading white space.
pub fn trimmed_start<'a>(s: &'a [char]) -> (r: &'a [char])
    ensures
        r@ == trim_start(s@),
{
    let n: usize = count_run(s, Class::White);
    slice_subrange(s, n, s.len())
}

/// Drops trailing white space.
pub fn trimmed_end<'a>(s: &'a [char]) -> (r: &'a [char])
    ensures
        r@ == trim_end(s@),
{
    let n: usize = count_tail(s, Class::White);
    slice_subrange(s, 0, s.len() - n)
}

/// Drops white space at both ends.
pub fn trimmed<'a>(s: &'a [char]) -> (r: &'a [char])
    ensures
        r@ == trim(s@),
{
    trimmed_end(trimmed_start(s))
}

/// Decides whether a text is blank.
pub fn blank(s: &[char]) -> (r: bool)
    ensures
        r == is_blank(s@),
{
    all_in(s, Class::White)
}

/// Decides whether every character is of one class.
pub fn all_in(s: &[char], k: Class) -> (r: bool)
    ensures
        r == all_of(s@, k),
{
    let n: usize = count_run(s, k);
    proof {
        lemma_run_len(s@, k);
    }
    n == s.len()
}

/// Decides whether some character is of one class.
pub fn any_in(s: &[char], k: Class) -> (r: bool)
    ensures
        r == any_of(s@, k),
{
    let mut i: usize = 0;
    while i < s.len()
        invariant
            i <= s@.len(),
            forall|j: int| 0 <= j < i ==> !k.holds(#[trigger] s@[j]),
        decreases s@.len() - i,
    {
        if k.test(s[i]) {
            return true;
        }
        i = i + 1;
    }
    false
}

/// Decides whether "p" stands in "s" at "i".
pub fn found_at(s: &[char], p: &[char], i: usize) -> (r: bool)
    ensures
        r == stands_at(s@, p@, i as int),
{
    if p.len() > s.len() || i > s.len() - p.len() {
        return false;
    }
    same(slice_subrange(s, i, i + p.len()), p)
}

/// Decides whether a text begins with a string.
pub fn begins(s: &[char], p: &str) -> (r: bool)
    ensures
        r == starts_with(s@, p@),
{
    let p = chars_of(p);
    found_at(s, p.as_slice(), 0)
}

/// Decides whether a text ends with a string.
pub fn ends(s: &[char], p: &str) -> (r: bool)
    ensures
        r == ends_with(s@, p@),
{
    let p = chars_of(p);
    if p.len() > s.len() {
        return false;
    }
    found_at(s, p.as_slice(), s.len() - p.len())
}

/// Decides whether a string stands anywhere in a text.
pub fn holds_str(s: &[char], p: &str) -> (r: bool)
    ensures
        r == has(s@, p@),
{
    let pat = chars_of(p);
    let mut i: usize = 0;
    while i < s.len()
        invariant
            i <= s@.len(),
            pat@ == p@,
            forall|j: int| 0 <= j < i ==> !#[trigger] stands_at(s@, p@, j),
        decreases s@.len() - i,
    {
        if found_at(s, pat.as_slice(), i) {
            return true;
        }
        i = i + 1;
    }
    found_at(s, pat.as_slice(), i)
}

/// Decides whether a character occurs in a text.
pub fn has_char(s: &[char], c: char) -> (r: bool)
    ensures
        r == s@.contains(c),
{
    let n: usize = count_run(s, Class::Not(c));
    proof {
        lemma_run_len(s@, Class::Not(c));
        if n < s@.len() {
            assert(s@[n as int] == c);
        } else {
            assert forall|i: int| 0 <= i < s@.len() implies s@[i] != c by {
                assert(Class::Not(c).holds(s@[i]));
            }
        }
    }
    n < s.len()
}

/// The pieces of a text between the places where a character stands.
pub open spec fn split(s: Seq<char>, c: char) -> Seq<Seq<char>>
    decreases s.len(),
{
    let n = run_len(s, Class::Not(c)) as int;
    if n >= s.len() {
        seq![s]
    } else {
        proof {
            lemma_run_len(s, Class::Not(c));
        }
        seq![s.take(n)] + split(s.skip(n + 1), c)
    }
}

/// The texts in a vector.
pub open spec fn views(v: Seq<Vec<char>>) -> Seq<Seq<char>> {
    v.map_values(|x: Vec<char>| x@)
}

/// Cuts a text at a character.
pub fn split_at_char(s: &[char], c: char) -> (out: Vec<Vec<char>>)
    ensures
        views(out@) == split(s@, c),
{
    let mut out: Vec<Vec<char>> = Vec::new();
    let mut from: usize = 0;
    proof {
        assert(views(out@) + split(s@, c) =~= split(s@, c));
        assert(s@.skip(0) =~= s@);
    }
    loop
        invariant_except_break
            from <= s@.len(),
            views(out@) + split(s@.skip(from as int), c) == split(s@, c),
        ensures
            views(out@) == split(s@, c),
        decreases s@.len() - from,
    {
        let rest = slice_subrange(s, from, s.len());
        let n: usize = count_run(rest, Class::Not(c));
        let ghost before = out@;
        let piece = slice_subrange(rest, 0, n);
        out.push(slice_to_vec(piece));
        proof {
            assert(rest@ =~= s@.skip(from as int));
            assert(piece@ =~= rest@.take(n as int));
            assert(views(out@) =~= views(before).push(piece@));
        }
        if n == rest.len() {
            proof {
                assert(piece@ =~= rest@);
                assert(views(before).push(rest@) =~= views(before) + seq![rest@]);
            }
            break;
        }
        proof {
            let tail = split(rest@.skip(n + 1), c);
            assert(views(before) + (seq![piece@] + tail) =~= views(before).push(piece@) + tail);
            assert(rest@.skip(n + 1) =~= s@.skip(from + n + 1));
        }
        from = from + n + 1;
    }
    out
}

/// The slice's characters in a vector of their own.
pub fn slice_to_vec(s: &[char]) -> (v: Vec<char>)
    ensures
        v@ == s@,
{
    let mut v: Vec<char> = Vec::new();
    let mut i: usize = 0;
    while i < s.len()
        invariant
            i <= s@.len(),
            v@ == s@.take(i as int),
        decreases s@.len() - i,
    {
        v.push(s[i]);
        i = i + 1;
    }
    assert(s@.take(s@.len() as int) == s@);
    v
}

/// A line without the carriage return in front of its newline.
pub open spec fn without_cr(s: Seq<char>) -> Seq<char> {
    if s.len() > 0 && s.last() == '\r' {
        s.drop_last()
    } else {
        s
    }
}

/// The lines of a text. Each ends at a newline, which a carriage return may
/// precede; what follows the last newline is a line unless it is empty.
pub open spec fn lines(s: Seq<char>) -> Seq<Seq<char>>
    decreases s.len(),
{
    let n = run_len(s, Class::Not('\n')) as int;
    if s.len() == 0 {
        Seq::empty()
    } else if n >= s.len() {
        seq![s]
    } else {
        proof {
            lemma_run_len(s, Class::Not('\n'));
        }
        seq![without_cr(s.take(n))] + lines(s.skip(n + 1))
    }
}

/// Drops the carriage return in front of a newline.
pub fn cut_cr<'a>(s: &'a [char]) -> (r: &'a [char])
    ensures
        r@ == without_cr(s@),
{
    if s.len() > 0 && s[s.len() - 1] == '\r' {
        slice_subrange(s, 0, s.len() - 1)
    } else {
        s
    }
}

/// Cuts a text into its lines.
pub fn split_lines(s: &[char]) -> (out: Vec<Vec<char>>)
    ensures
        views(out@) == lines(s@),
{
    let mut out: Vec<Vec<char>> = Vec::new();
    let mut from: usize = 0;
    proof {
        assert(views(out@) + lines(s@) =~= lines(s@));
        assert(s@.skip(0) =~= s@);
    }
    while from < s.len()
        invariant
            from <= s@.len(),
            views(out@) + lines(s@.skip(from as int)) == lines(s@),
        decreases s@.len() - from,
    {
        let rest = slice_subrange(s, from, s.len());
        let n: usize = count_run(rest, Class::Not('\n'));
        let ghost before = out@;
        assert(rest@ =~= s@.skip(from as int));
        if n == rest.len() {
            out.push(slice_to_vec(rest));
            from = s.len();
            proof {
                assert(views(out@) =~= views(before).push(rest@));
                assert(s@.skip(from as int) =~= Seq::<char>::empty());
                assert(views(before) + seq![rest@] =~= views(out@) + lines(
                    s@.skip(from as int),
                ));
            }
        } else {
            let line = cut_cr(slice_subrange(rest, 0, n));
            out.push(slice_to_vec(line));
            from = from + n + 1;
            proof {
                assert(rest@.subrange(0, n as int) =~= rest@.take(n as int));
                assert(views(out@) =~= views(before).push(line@));
                let tail = lines(rest@.skip(n + 1));
                assert(rest@.skip(n + 1) =~= s@.skip(from as int));
                assert(views(before) + (seq![line@] + tail) =~= views(out@) + tail);
            }
        }
    }
    proof {
        assert(s@.skip(from as int) =~= Seq::<char>::empty());
        assert(views(out@) + Seq::<Seq<char>>::empty() =~= views(out@));
    }
    out
}

/// How often "p" stands in "s" at or after "i".
pub open spec fn occurrences<T>(s: Seq<T>, p: Seq<T>, i: int) -> nat
    decreases s.len() + 1 - i,
{
    if i > s.len() - p.len() {
        0
    } else {
        (if stands_at(s, p, i) {
            1nat
        } else {
            0nat
        }) + occurrences(s, p, i + 1)
    }
}

/// Counts the places where a string stands in a text.
pub fn count_str(s: &[char], p: &str) -> (n: usize)
    requires
        p@.len() > 0,
    ensures
        n == occurrences(s@, p@, 0),
        n <= s@.len(),
{
    let pat = chars_of(p);
    let mut n: usize = 0;
    let mut i: usize = 0;
    while i < s.len()
        invariant
            n <= i <= s@.len(),
            pat@ == p@,
            n + occurrences(s@, p@, i as int) == occurrences(s@, p@, 0),
        decreases s@.len() - i,
    {
        if found_at(s, pat.as_slice(), i) {
            n = n + 1;
        }
        i = i + 1;
    }
    n
}

/// The decimal digits of a number, without leading zeros.
pub open spec fn decimal(n: nat) -> Seq<char>
    decreases n,
{
    if n < 10 {
        seq![digit(n)]
    } else {
        decimal(n / 10).push(digit(n % 10))
    }
}

/// The character of a decimal digit.
pub open spec fn digit(d: nat) -> char {
    (48 + d) as char
}

/// Appends a number in decimal.
pub fn push_decimal(s: &mut String, n: u128)
    ensures
        final(s)@ == old(s)@ + decimal(n as nat),
    decreases n,
{
    if n >= 10 {
        push_decimal(s, n / 10);
    }
    let d: u8 = (n % 10) as u8;
    s.push((48 + d) as char);
    proof {
        if n >= 10 {
            assert(old(s)@ + decimal((n / 10) as nat).push(digit((n % 10) as nat)) =~= (old(s)@
                + decimal((n / 10) as nat)).push(digit((n % 10) as nat)));
        } else {
            assert(old(s)@ + seq![digit(n as nat)] =~= old(s)@.push(digit(n as nat)));
        }
    }
}

/// The number that decimal digits spell.
pub open spec fn number(s: Seq<char>) -> nat
    decreases s.len(),
{
    if s.len() == 0 {
        0
    } else {
        number(s.drop_last()) * 10 + digit_value(s.last())
    }
}

/// What a decimal digit is worth.
pub open spec fn digit_value(c: char) -> nat {
    (c as int - '0' as int) as nat
}

/// Reading a decimal number: some digits and nothing else, for a number that a
/// machine word can hold.
pub open spec fn read_number(s: Seq<char>) -> Option<usize> {
    if s.len() > 0 && all_of(s, Class::Digit) && number(s) <= usize::MAX {
        Some(number(s) as usize)
    } else {
        None
    }
}

/// A number is no smaller than its leading digits.
proof fn lemma_number_grows(s: Seq<char>, n: int)
    requires
        0 <= n <= s.len(),
    ensures
        number(s.take(n)) <= number(s),
    decreases s.len() - n,
{
    if n < s.len() {
        lemma_number_grows(s, n + 1);
        assert(s.take(n + 1).drop_last() =~= s.take(n));
    } else {
        assert(s.take(n) =~= s);
    }
}

/// Reads a decimal number.
pub fn parse_number(s: &[char]) -> (r: Option<usize>)
    ensures
        r == read_number(s@),
{
    if s.len() == 0 {
        return None;
    }
    if !all_in(s, Class::Digit) {
        return None;
    }
    let mut n: usize = 0;
    let mut i: usize = 0;
    while i < s.len()
        invariant
            i <= s@.len(),
            all_of(s@, Class::Digit),
            n == number(s@.take(i as int)),
        decreases s@.len() - i,
    {
        let c = s[i];
        proof {
            assert(Class::Digit.holds(s@[i as int]));
            assert(s@.take(i + 1).drop_last() =~= s@.take(i as int));
            lemma_number_grows(s@, i + 1);
        }
        let d: usize = c as usize - '0' as usize;
        if n > usize::MAX / 10 || n * 10 > usize::MAX - d {
            return None;
        }
        n = n * 10 + d;
        i = i + 1;
    }
    assert(s@.take(s@.len() as int) =~= s@);
    Some(n)
}

/// A number written in decimal reads back.
pub proof fn law_decimal_reads_back(n: usize)
    ensures
        read_number(decimal(n as nat)) == Some(n),
{
    lemma_decimal(n as nat);
}

/// A number in decimal is some digits, and they spell it.
pub proof fn lemma_decimal(n: nat)
    ensures
        decimal(n).len() > 0,
        all_of(decimal(n), Class::Digit),
        number(decimal(n)) == n,
    decreases n,
{
    reveal_with_fuel(number, 2);
    let d = digit(n % 10);
    if n >= 10 {
        lemma_decimal(n / 10);
        let h = decimal(n / 10);
        assert(h.push(d).drop_last() =~= h);
        assert forall|i: int| 0 <= i < h.push(d).len() implies Class::Digit.holds(
            #[trigger] h.push(d)[i],
        ) by {
            if i < h.len() {
                assert(Class::Digit.holds(h[i]));
            }
        }
    } else {
        assert(seq![d].drop_last() =~= Seq::<char>::empty());
    }
}

} // verus!
