//! Cutting a piece out of a text by byte offsets. A cut is allowed only between
//! two characters; the lemmas here find such places from single bytes.

use vstd::prelude::*;
use vstd::string::*;
use vstd::utf8::*;

use crate::classes::is_ascii_byte;

verus! {

/// The offset of a seven-bit byte lies between two characters.
pub proof fn lemma_boundary_at_ascii(s: Seq<u8>, i: int)
    requires
        valid_utf8(s),
        0 <= i < s.len(),
        is_ascii_byte(s[i]),
    ensures
        is_char_boundary(s, i),
{
    is_char_boundary_iff_not_is_continuation_byte(s, i);
}

/// The offset past a byte that begins a one-byte character lies between two
/// characters.
proof fn lemma_boundary_past_single(s: Seq<u8>, i: int)
    requires
        valid_utf8(s),
        0 <= i < s.len(),
        is_char_boundary(s, i),
        is_ascii_byte(s[i]),
    ensures
        is_char_boundary(s, i + 1),
    decreases s.len(),
{
    if i == 0 {
        assert(length_of_first_scalar(s) == 1);
        assert(is_char_boundary(pop_first_scalar(s), 0));
    } else {
        let width = length_of_first_scalar(s);
        let rest = pop_first_scalar(s);
        assert(is_char_boundary(rest, i - width));
        assert(0 <= i - width);
        if i - width >= rest.len() {
            assert(i - width == rest.len());
            assert(false);
        }
        assert(rest[i - width] == s[i]);
        lemma_boundary_past_single(rest, i - width);
        assert(is_char_boundary(rest, i + 1 - width));
    }
}

/// The offset past a seven-bit byte lies between two characters.
pub proof fn lemma_boundary_past_ascii(s: Seq<u8>, i: int)
    requires
        valid_utf8(s),
        0 <= i < s.len(),
        is_ascii_byte(s[i]),
    ensures
        is_char_boundary(s, i + 1),
{
    lemma_boundary_at_ascii(s, i);
    lemma_boundary_past_single(s, i);
}

/// Offset `i` of `s` stands next to a seven-bit byte: at one, or right after
/// one.
pub open spec fn beside_ascii(s: Seq<u8>, i: int) -> bool {
    ||| 0 <= i < s.len() && is_ascii_byte(s[i])
    ||| 0 < i <= s.len() && is_ascii_byte(s[i - 1])
}

/// An offset next to a seven-bit byte lies between two characters.
pub proof fn lemma_boundary_beside_ascii(s: Seq<u8>, i: int)
    requires
        valid_utf8(s),
        beside_ascii(s, i),
    ensures
        is_char_boundary(s, i),
{
    if 0 <= i < s.len() && is_ascii_byte(s[i]) {
        lemma_boundary_at_ascii(s, i);
    } else {
        lemma_boundary_past_ascii(s, i - 1);
    }
}

/// A place between two characters of a text is one in every head of the text
/// that is itself cut between two characters.
pub proof fn lemma_boundary_in_head(s: Seq<u8>, start: int, end: int)
    requires
        valid_utf8(s),
        0 <= start <= end <= s.len(),
        is_char_boundary(s, start),
        is_char_boundary(s, end),
    ensures
        valid_utf8(s.subrange(0, end)),
        is_char_boundary(s.subrange(0, end), start),
{
    let head = s.subrange(0, end);
    valid_utf8_split(s, end);
    if start < end {
        is_char_boundary_iff_not_is_continuation_byte(s, start);
        assert(head[start] == s[start]);
        is_char_boundary_iff_not_is_continuation_byte(head, start);
    } else {
        is_char_boundary_start_end_of_seq(head);
    }
}

/// The piece of `text` from byte `start` up to byte `end`, both of which lie
/// between two characters.
pub fn substring<'a>(text: &'a str, start: usize, end: usize) -> (piece: &'a str)
    requires
        start <= end <= text.spec_bytes().len(),
        is_char_boundary(text.spec_bytes(), start as int),
        is_char_boundary(text.spec_bytes(), end as int),
    ensures
        piece.spec_bytes() == text.spec_bytes().subrange(start as int, end as int),
{
    proof {
        encode_utf8_valid_utf8(text@);
        lemma_boundary_in_head(text.spec_bytes(), start as int, end as int);
    }
    let (head, _) = text.split_at(end);
    let (_, piece) = head.split_at(start);
    assert(piece.spec_bytes() =~= text.spec_bytes().subrange(start as int, end as int));
    piece
}

} // verus!
