//! Byte offsets into text. A source file is edited by byte range, while what
//! stands in it is characters; this module is the bridge between the two.

use vstd::prelude::*;
use vstd::utf8::*;

verus! {

broadcast use vstd::string::group_string_axioms;

/// Whether a byte range can be cut out of a text: it lies within it, and both
/// ends are character boundaries.
pub open spec fn sliceable(b: Seq<u8>, start: int, end: int) -> bool {
    &&& 0 <= start <= end <= b.len()
    &&& is_char_boundary(b, start)
    &&& is_char_boundary(b, end)
}

/// The characters in a byte range of a text.
pub open spec fn slice(s: Seq<char>, start: int, end: int) -> Seq<char> {
    decode_utf8(encode_utf8(s).subrange(start, end))
}

/// The bytes of two texts in a row are the bytes of one after those of the
/// other.
pub proof fn lemma_encode_concat(a: Seq<char>, b: Seq<char>)
    ensures
        encode_utf8(a + b) == encode_utf8(a) + encode_utf8(b),
    decreases a.len(),
{
    if a.len() == 0 {
        assert(a + b =~= b);
        assert(encode_utf8(a) + encode_utf8(b) =~= encode_utf8(b));
    } else {
        assert((a + b).drop_first() =~= a.drop_first() + b);
        lemma_encode_concat(a.drop_first(), b);
        let h = encode_scalar(a[0] as u32);
        assert(h + (encode_utf8(a.drop_first()) + encode_utf8(b)) =~= (h + encode_utf8(
            a.drop_first(),
        )) + encode_utf8(b));
    }
}

/// Texts with the same bytes are the same text, so that a statement about bytes
/// pins the text down.
pub proof fn law_bytes_determine_text(a: Seq<char>, b: Seq<char>)
    requires
        encode_utf8(a) == encode_utf8(b),
    ensures
        a == b,
{
    encode_utf8_decode_utf8(a);
    encode_utf8_decode_utf8(b);
}

/// A boundary of a text that lies past its first character is one of the rest.
proof fn lemma_boundary_pop(b: Seq<u8>, i: int)
    requires
        valid_utf8(b),
        0 < i <= b.len(),
        is_char_boundary(b, i),
    ensures
        i >= length_of_first_scalar(b),
        is_char_boundary(pop_first_scalar(b), i - length_of_first_scalar(b)),
{
    reveal_with_fuel(is_char_boundary, 2);
}

/// After a one-byte character the next character begins.
pub proof fn lemma_boundary_after_ascii(b: Seq<u8>, i: int)
    requires
        valid_utf8(b),
        0 <= i < b.len(),
        is_char_boundary(b, i),
        b[i] <= 0x7f,
    ensures
        is_char_boundary(b, i + 1),
    decreases b.len(),
{
    reveal_with_fuel(is_char_boundary, 2);
    if i > 0 {
        lemma_boundary_pop(b, i);
        let n: int = length_of_first_scalar(b);
        let rest = pop_first_scalar(b);
        assert(rest[i - n] == b[i]);
        lemma_boundary_after_ascii(rest, i - n);
    }
}

/// A boundary stays one when the text is cut at a later boundary.
pub proof fn lemma_boundary_take(b: Seq<u8>, i: int, end: int)
    requires
        valid_utf8(b),
        sliceable(b, i, end),
    ensures
        valid_utf8(b.subrange(0, end)),
        is_char_boundary(b.subrange(0, end), i),
    decreases b.len(),
{
    valid_utf8_split(b, end);
    let t = b.subrange(0, end);
    if i > 0 {
        lemma_boundary_pop(b, i);
        lemma_boundary_pop(b, end);
        let n: int = length_of_first_scalar(b);
        let rest = pop_first_scalar(b);
        lemma_boundary_take(rest, i - n, end - n);
        assert(length_of_first_scalar(t) == n);
        assert(pop_first_scalar(t) =~= rest.subrange(0, end - n));
    }
}

/// The bytes of a range that can be cut out are the bytes of its characters.
pub proof fn lemma_slice_bytes(s: Seq<char>, start: int, end: int)
    requires
        sliceable(encode_utf8(s), start, end),
    ensures
        encode_utf8(slice(s, start, end)) == encode_utf8(s).subrange(start, end),
{
    let b = encode_utf8(s);
    encode_utf8_valid_utf8(s);
    lemma_boundary_take(b, start, end);
    let t = b.subrange(0, end);
    valid_utf8_split(t, start);
    assert(t.subrange(start, t.len() as int) =~= b.subrange(start, end));
    decode_utf8_encode_utf8(b.subrange(start, end));
}

/// Cuts a byte range out of a text.
pub fn slice_str<'a>(s: &'a str, start: usize, end: usize) -> (r: &'a str)
    requires
        sliceable(encode_utf8(s@), start as int, end as int),
    ensures
        r@ == slice(s@, start as int, end as int),
        encode_utf8(r@) == encode_utf8(s@).subrange(start as int, end as int),
{
    let ghost b = encode_utf8(s@);
    proof {
        encode_utf8_valid_utf8(s@);
        lemma_boundary_take(b, start as int, end as int);
    }
    let head: &str = s.split_at(end).0;
    let r: &str = head.split_at(start).1;
    proof {
        assert(b.subrange(0, end as int).subrange(start as int, end as int) =~= b.subrange(
            start as int,
            end as int,
        ));
        encode_utf8_decode_utf8(r@);
    }
    r
}

} // verus!
