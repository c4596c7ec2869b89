//! Laws of the text vocabulary.

use vstd::prelude::*;

use crate::offsets;
use crate::text;
use crate::text::Class;
use vstd::utf8::*;

verus! {

broadcast use vstd::string::group_string_axioms;

/// A pattern stands at a place exactly where each of its members does.
pub proof fn law_stands_at<T>(s: Seq<T>, p: Seq<T>, i: int)
    ensures
        text::stands_at(s, p, i) <==> 0 <= i && i + p.len() <= s.len() && forall|k: int|
            0 <= k < p.len() ==> #[trigger] p[k] == s[i + k],
        text::starts_with(s, p) <==> text::stands_at(s, p, 0),
        text::ends_with(s, p) <==> text::stands_at(s, p, s.len() - p.len()),
        text::stands_at(s, p, i) ==> text::has(s, p),
        text::has(s, p) ==> exists|k: int| 0 <= k && #[trigger] text::stands_at(s, p, k),
{
    if text::stands_at(s, p, i) {
        assert forall|k: int| 0 <= k < p.len() implies #[trigger] p[k] == s[i + k] by {
            assert(s.subrange(i, i + p.len())[k] == s[i + k]);
        }
    }
    if 0 <= i && i + p.len() <= s.len() && forall|k: int|
        0 <= k < p.len() ==> #[trigger] p[k] == s[i + k] {
        assert(s.subrange(i, i + p.len()) =~= p);
    }
    if text::has(s, p) {
        let k = choose|k: int| #[trigger] text::stands_at(s, p, k);
        assert(0 <= k);
    }
}

/// Trimming takes white space off, all of it and nothing else.
pub proof fn law_trimming(s: Seq<char>)
    ensures
        ({
            let t = text::trim_start(s);
            let n = s.len() - t.len();
            &&& 0 <= n
            &&& t == s.skip(n)
            &&& forall|k: int| 0 <= k < n ==> text::is_white(#[trigger] s[k])
            &&& t.len() > 0 ==> !text::is_white(t[0])
        }),
        ({
            let t = text::trim_end(s);
            &&& t.len() <= s.len()
            &&& t == s.take(t.len() as int)
            &&& forall|k: int| t.len() <= k < s.len() ==> text::is_white(#[trigger] s[k])
            &&& t.len() > 0 ==> !text::is_white(t.last())
        }),
        text::trim(s) == text::trim_end(text::trim_start(s)),
        text::is_blank(s) <==> forall|k: int| 0 <= k < s.len() ==> text::is_white(#[trigger] s[k]),
        text::is_blank(s) <==> text::trim(s).len() == 0,
        text::is_blank(s) <==> text::trim_start(s).len() == 0,
{
    text::lemma_run_len(s, Class::White);
    text::lemma_tail_len(s, Class::White);
    let n = text::run_len(s, Class::White) as int;
    let t = text::trim_start(s);
    text::lemma_tail_len(t, Class::White);
    assert forall|k: int| 0 <= k < n implies text::is_white(#[trigger] s[k]) by {
        assert(Class::White.holds(s[k]));
    }
    assert forall|k: int| s.len() - text::tail_len(s, Class::White) <= k < s.len() implies
        text::is_white(#[trigger] s[k]) by {
        assert(Class::White.holds(s[k]));
    }
    if text::trim_end(s).len() > 0 {
        assert(!Class::White.holds(s[s.len() - text::tail_len(s, Class::White) - 1]));
    }
    if t.len() > 0 {
        assert(t[0] == s[n]);
        assert(!Class::White.holds(s[n]));
        if text::trim(s).len() == 0 {
            assert(Class::White.holds(t[0]));
        }
    }
    if text::is_blank(s) {
        assert forall|k: int| 0 <= k < s.len() implies text::is_white(#[trigger] s[k]) by {
            assert(Class::White.holds(s[k]));
        }
    }
    if forall|k: int| 0 <= k < s.len() ==> text::is_white(#[trigger] s[k]) {
        assert forall|k: int| 0 <= k < s.len() implies Class::White.holds(#[trigger] s[k]) by {}
    }
    assert(s.len() - t.len() == n);
}

/// Cutting at a character: the piece in front of its first place, and then the
/// pieces of the rest.
pub proof fn law_cutting(a: Seq<char>, c: char, rest: Seq<char>)
    requires
        forall|k: int| 0 <= k < a.len() ==> #[trigger] a[k] != c,
    ensures
        text::split(a, c) == seq![a],
        text::split(a.push(c) + rest, c) == seq![a] + text::split(rest, c),
{
    text::lemma_run_len_is(a, Class::Not(c), a.len() as int);
    let s = a.push(c) + rest;
    let n = a.len() as int;
    assert forall|k: int| 0 <= k < n implies Class::Not(c).holds(#[trigger] s[k]) by {
        assert(s[k] == a[k]);
    }
    assert(s[n] == c);
    text::lemma_run_len_is(s, Class::Not(c), n);
    assert(s.take(n) =~= a);
    assert(s.skip(n + 1) =~= rest);
}

/// Lines: what stands in front of the first newline, without a carriage return
/// at its end, and then the lines of the rest. What no newline ends is a line as
/// it is, unless it is empty.
pub proof fn law_lines(a: Seq<char>, rest: Seq<char>)
    requires
        forall|k: int| 0 <= k < a.len() ==> #[trigger] a[k] != '\n',
    ensures
        a.len() > 0 ==> text::lines(a) == seq![a],
        text::lines(Seq::empty()) == Seq::<Seq<char>>::empty(),
        a.len() == 0 || a.last() != '\r' ==> text::lines(a.push('\n') + rest) == seq![a]
            + text::lines(rest),
        text::lines(a.push('\r').push('\n') + rest) == seq![a] + text::lines(rest),
{
    text::lemma_run_len_is(a, Class::Not('\n'), a.len() as int);
    let s = a.push('\n') + rest;
    let n = a.len() as int;
    assert forall|k: int| 0 <= k < n implies Class::Not('\n').holds(#[trigger] s[k]) by {
        assert(s[k] == a[k]);
    }
    assert(s[n] == '\n');
    text::lemma_run_len_is(s, Class::Not('\n'), n);
    assert(s.take(n) =~= a);
    assert(s.skip(n + 1) =~= rest);
    let u = a.push('\r').push('\n') + rest;
    assert forall|k: int| 0 <= k < n + 1 implies Class::Not('\n').holds(#[trigger] u[k]) by {
        if k < n {
            assert(u[k] == a[k]);
        }
    }
    assert(u[n + 1] == '\n');
    text::lemma_run_len_is(u, Class::Not('\n'), n + 1);
    assert(u.take(n + 1) =~= a.push('\r'));
    assert(a.push('\r').drop_last() =~= a);
    assert(u.skip(n + 2) =~= rest);
}

/// Places are counted one by one: none past the last place that a pattern can
/// stand at, and each other place adds one exactly when the pattern stands there.
pub proof fn law_counting<T>(s: Seq<T>, p: Seq<T>, i: int)
    ensures
        i + p.len() > s.len() ==> text::occurrences(s, p, i) == 0,
        i + p.len() <= s.len() && text::stands_at(s, p, i) ==> text::occurrences(s, p, i)
            == text::occurrences(s, p, i + 1) + 1,
        i + p.len() <= s.len() && !text::stands_at(s, p, i) ==> text::occurrences(s, p, i)
            == text::occurrences(s, p, i + 1),
{
}

/// A search finds the first place from one on, and a search back the last place in
/// front of one.
pub proof fn law_searches<T>(s: Seq<T>, p: Seq<T>, lo: int, at: int, hi: int)
    requires
        0 <= lo <= at < hi,
        text::stands_at(s, p, at),
    ensures
        (forall|k: int| lo <= k < at ==> !#[trigger] text::stands_at(s, p, k)) ==> text::find_from(
            s,
            p,
            lo,
        ) == Some(at),
        (forall|k: int| at < k < hi ==> !#[trigger] text::stands_at(s, p, k)) ==> text::rfind_in(
            s,
            p,
            lo,
            hi,
        ) == Some(at),
    decreases hi - lo,
{
    if forall|k: int| lo <= k < at ==> !#[trigger] text::stands_at(s, p, k) {
        text::lemma_find_from_is(s, p, lo, at);
    }
    if at < hi - 1 {
        if forall|k: int| at < k < hi ==> !#[trigger] text::stands_at(s, p, k) {
            assert(!text::stands_at(s, p, hi - 1));
            law_searches(s, p, lo, at, hi - 1);
        }
    }
}

/// Decimal notation: a digit more to the right makes ten times the number, plus
/// the digit; and a number has no leading zero.
pub proof fn law_decimal_notation(s: Seq<char>, c: char, n: nat)
    requires
        '0' <= c <= '9',
    ensures
        text::number(Seq::empty()) == 0,
        text::number(s.push(c)) == 10 * text::number(s) + (c as int - 48),
        text::decimal(n).len() > 0,
        text::decimal(n)[0] == '0' ==> text::decimal(n) == seq!['0'],
        forall|k: int|
            0 <= k < text::decimal(n).len() ==> '0' <= #[trigger] text::decimal(n)[k]
                <= '9',
        text::number(text::decimal(n)) == n,
        text::read_number(s) is Some <==> s.len() > 0 && text::number(s) <= usize::MAX && (forall|
            k: int,
        |
            0 <= k < s.len() ==> '0' <= #[trigger] s[k] <= '9'),
        text::read_number(s) is Some ==> text::read_number(s) == Some(text::number(s) as usize),
{
    assert(s.push(c).drop_last() =~= s);
    text::lemma_decimal(n);
    let d = text::decimal(n);
    assert forall|k: int| 0 <= k < d.len() implies '0' <= #[trigger] d[k] <= '9' by {
        assert(Class::Digit.holds(d[k]));
    }
    lemma_no_leading_zero(n);
    if forall|k: int| 0 <= k < s.len() ==> '0' <= #[trigger] s[k] <= '9' {
        assert forall|k: int| 0 <= k < s.len() implies Class::Digit.holds(#[trigger] s[k]) by {}
    }
    if text::all_of(s, Class::Digit) {
        assert forall|k: int| 0 <= k < s.len() implies '0' <= #[trigger] s[k] <= '9' by {
            assert(Class::Digit.holds(s[k]));
        }
    }
}

proof fn lemma_no_leading_zero(n: nat)
    ensures
        n > 0 ==> text::decimal(n)[0] != '0',
        n == 0 ==> text::decimal(n) == seq!['0'],
    decreases n,
{
    if n >= 10 {
        lemma_no_leading_zero(n / 10);
        text::lemma_decimal(n / 10);
        assert(text::decimal(n)[0] == text::decimal(n / 10)[0]);
    } else {
        assert(text::digit(n) == (48 + n) as char);
    }
}

/// The characters that the classes are made of.
pub proof fn law_classes(c: char)
    ensures
        text::is_digit(c) <==> 48 <= c as int <= 57,
        text::is_letter(c) <==> 65 <= c as int <= 90 || 97 <= c as int <= 122,
        Class::Blank.holds(c) <==> c as int == 32 || c as int == 9,
        Class::Word.holds(c) <==> text::is_letter(c) || text::is_digit(c) || c as int == 95,
        Class::Digit.holds(c) <==> text::is_digit(c),
        Class::Letter.holds(c) <==> text::is_letter(c),
        Class::White.holds(c) <==> text::is_white(c),
        Class::Solid.holds(c) <==> !text::is_white(c),
        Class::Alphanumeric.holds(c) <==> text::is_alphanumeric(c),
        Class::Key.holds(c) <==> text::is_alphanumeric(c) || c as int == 95 || c as int == 45,
        Class::Box.holds(c) <==> text::is_box(c),
        Class::Grid.holds(c) <==> c as int == 43 || c as int == 45 || c as int == 61,
        Class::Drawing.holds(c) <==> {
            ||| text::is_white(c)
            ||| text::is_box(c)
            ||| c as int == 124 || c as int == 43 || c as int == 45 || c as int == 61
            ||| c as int == 42 || c as int == 35 || c as int == 95 || c as int == 47
            ||| c as int == 92 || c as int == 60 || c as int == 62 || c as int == 94
        },
        Class::Unbroken.holds(c) <==> c as int != 10 && c as int != 13,
        forall|x: char| #[trigger] Class::Only(x).holds(c) <==> c == x,
        forall|x: char| #[trigger] Class::Not(x).holds(c) <==> c != x,
        c as int <= 32 ==> (text::is_white(c) <==> 9 <= c as int <= 13 || c as int == 32),
        32 < c as int <= 127 ==> !text::is_white(c),
        c as int > 127 ==> (text::is_white(c) <==> c as int == 0x85 || c as int == 0xa0 || c as int
            == 0x1680 || 0x2000 <= c as int <= 0x200a || c as int == 0x2028 || c as int == 0x2029
            || c as int == 0x202f || c as int == 0x205f || c as int == 0x3000),
        c as int <= 127 ==> (text::is_alphanumeric(c) <==> text::is_letter(c) || text::is_digit(c)),
        c as int <= 127 ==> (text::is_uppercase(c) <==> 65 <= c as int <= 90),
        c as int > 127 ==> text::is_alphanumeric(c) == text::unicode_alphanumeric(c),
        c as int > 127 ==> text::is_uppercase(c) == text::unicode_uppercase(c),
        text::is_box(c) <==> 0x2500 <= c as int <= 0x259f,
{
}

/// Whether the members of a set that stand in a row from "k" end before "m".
pub open spec fn run_ends(s: Seq<char>, k: int, m: int, c: Class) -> bool {
    &&& 0 <= k <= m <= s.len()
    &&& forall|j: int| k <= j < m ==> c.holds(#[trigger] s[j])
    &&& m < s.len() ==> !c.holds(s[m])
}

/// Whether a text begins with its character "k" once the white space in front of
/// it is gone.
pub open spec fn begins_at(s: Seq<char>, k: int) -> bool {
    &&& 0 <= k < s.len()
    &&& run_ends(s, 0, k, Class::White)
}

/// Whether a text goes from its character "lo" to the one before "hi" once the
/// white space on both sides is gone.
pub open spec fn trimmed_to(s: Seq<char>, lo: int, hi: int) -> bool {
    &&& begins_at(s, lo)
    &&& lo < hi <= s.len()
    &&& forall|j: int| hi <= j < s.len() ==> Class::White.holds(#[trigger] s[j])
    &&& !Class::White.holds(s[hi - 1])
}

/// Runs are as long as the characters say, and trimming keeps what is left.
pub proof fn law_runs(s: Seq<char>, k: int, m: int, c: Class)
    requires
        run_ends(s, k, m, c),
    ensures
        text::run_len(s.skip(k), c) == m - k,
        text::run_len(s, c) == m <== k == 0,
        k == 0 && c == Class::White ==> text::trim_start(s) == s.skip(m),
{
    let t = s.skip(k);
    assert forall|i: int| 0 <= i < m - k implies c.holds(#[trigger] t[i]) by {
        assert(t[i] == s[k + i]);
    }
    text::lemma_run_len_is(t, c, m - k);
    if k == 0 {
        assert(t =~= s);
    }
}

/// Trimming keeps what is left.
pub proof fn law_trimmed_text(s: Seq<char>, lo: int, hi: int)
    requires
        trimmed_to(s, lo, hi),
    ensures
        text::trim_start(s) == s.skip(lo),
        text::trim(s) == s.subrange(lo, hi),
        !text::is_blank(s),
{
    law_runs(s, 0, lo, Class::White);
    let t = s.skip(lo);
    let n = s.len() - hi;
    assert forall|i: int| t.len() - n <= i < t.len() implies Class::White.holds(#[trigger] t[i]) by {
        assert(t[i] == s[lo + i]);
    }
    assert(t[t.len() - n - 1] == s[hi - 1]);
    text::lemma_tail_len_is(t, Class::White, n);
    assert(t.take(t.len() - n) =~= s.subrange(lo, hi));
    assert(!Class::White.holds(s[lo]));
}

/// A slice of a text is made of the bytes of its range.
pub proof fn law_slice_has_its_bytes(s: Seq<char>, start: int, end: int)
    requires
        offsets::sliceable(encode_utf8(s), start, end),
    ensures
        encode_utf8(offsets::slice(s, start, end)) == encode_utf8(s).subrange(start, end),
{
    offsets::lemma_slice_bytes(s, start, end);
}

} // verus!
