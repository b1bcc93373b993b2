//! Slices of source text, cut at byte offsets.
//!
//! A `&str` can only be cut where a character starts. The lexer cuts next to
//! ASCII bytes and at the end of a run of continuation bytes; the lemmas here
//! show that all of these are places where a character starts.

use vstd::prelude::*;
use vstd::string::StringSliceAdditionalSpecFns;
use vstd::utf8::*;

verus! {

/// The bytes of a text that may be absent; an absent text has none.
pub open spec fn option_bytes(s: Option<&str>) -> Seq<u8> {
    match s {
        Some(t) => t.spec_bytes(),
        None => Seq::empty(),
    }
}

/// A character starts at `i`, or `i` is the end of the text.
pub open spec fn is_boundary(css: Seq<u8>, i: int) -> bool {
    0 <= i <= css.len() && is_char_boundary(css, i)
}

/// The bytes of any `&str` are well-formed UTF-8.
pub(crate) proof fn lemma_str_valid(s: &str)
    ensures
        valid_utf8(s.spec_bytes()),
{
    encode_utf8_valid_utf8(s@);
}

/// Both ends of a well-formed text are boundaries.
pub(crate) proof fn lemma_boundary_ends(css: Seq<u8>)
    requires
        valid_utf8(css),
    ensures
        is_boundary(css, 0),
        is_boundary(css, css.len() as int),
{
    is_char_boundary_start_end_of_seq(css);
}

/// An index that holds no continuation byte is a boundary.
pub(crate) proof fn lemma_boundary_at(css: Seq<u8>, i: int)
    requires
        valid_utf8(css),
        0 <= i < css.len(),
        !(0x80 <= css[i] <= 0xBF),
    ensures
        is_boundary(css, i),
{
    is_char_boundary_iff_not_is_continuation_byte(css, i);
}

/// The index after an ASCII byte is a boundary.
pub(crate) proof fn lemma_boundary_after_ascii(css: Seq<u8>, i: int)
    requires
        valid_utf8(css),
        0 < i <= css.len(),
        css[i - 1] < 0x80,
    ensures
        is_boundary(css, i),
{
    if i == css.len() {
        is_char_boundary_start_end_of_seq(css);
    } else {
        is_char_boundary_iff_not_is_continuation_byte(css, i - 1);
        valid_utf8_split(css, i - 1);
        let tail = css.subrange(i - 1, css.len() as int);
        assert(tail[0] == css[i - 1]);
        assert(tail[1] == css[i]);
        assert(valid_first_scalar(tail));
        assert(length_of_first_scalar(tail) == 1);
        reveal_with_fuel(is_char_boundary, 2);
        assert(is_char_boundary(tail, 1));
        is_char_boundary_iff_not_is_continuation_byte(tail, 1);
        is_char_boundary_iff_not_is_continuation_byte(css, i);
    }
}

/// A boundary of a text stays one in the part of the text before a later
/// boundary.
pub(crate) proof fn lemma_boundary_in_prefix(css: Seq<u8>, start: int, end: int)
    requires
        valid_utf8(css),
        is_boundary(css, start),
        is_boundary(css, end),
        start <= end,
    ensures
        valid_utf8(css.subrange(0, end)),
        is_boundary(css.subrange(0, end), start),
{
    valid_utf8_split(css, end);
    let head = css.subrange(0, end);
    if start == end {
        is_char_boundary_start_end_of_seq(head);
    } else {
        is_char_boundary_iff_not_is_continuation_byte(css, start);
        assert(head[start] == css[start]);
        is_char_boundary_iff_not_is_continuation_byte(head, start);
    }
}

/// Cuts the bytes from `start` up to `end` out of `s`.
pub(crate) fn slice<'a>(s: &'a str, start: usize, end: usize) -> (r: &'a str)
    requires
        start <= end,
        is_boundary(s.spec_bytes(), start as int),
        is_boundary(s.spec_bytes(), end as int),
    ensures
        r.spec_bytes() == s.spec_bytes().subrange(start as int, end as int),
{
    proof {
        lemma_str_valid(s);
        lemma_boundary_in_prefix(s.spec_bytes(), start as int, end as int);
    }
    let (head, _) = s.split_at(end);
    let (_, r) = head.split_at(start);
    assert(head.spec_bytes().subrange(start as int, head.spec_bytes().len() as int)
        =~= s.spec_bytes().subrange(start as int, end as int));
    r
}

} // verus!
