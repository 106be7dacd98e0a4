//! Classes of bytes, and maximal runs of bytes of one class.

use vstd::prelude::*;

use crate::position::NEWLINE;

verus! {

/// White space: space, tab, line feed, form feed, carriage return.
pub open spec fn is_blank(b: u8) -> bool {
    b == 0x20 || b == 0x09 || b == 0x0a || b == 0x0c || b == 0x0d
}

/// An ASCII decimal digit.
pub open spec fn is_digit(b: u8) -> bool {
    '0' as u8 <= b <= '9' as u8
}

/// An ASCII letter.
pub open spec fn is_letter(b: u8) -> bool {
    ('A' as u8 <= b <= 'Z' as u8) || ('a' as u8 <= b <= 'z' as u8)
}

/// A byte with which an identifier may begin: `_` or a letter.
pub open spec fn is_ident_start(b: u8) -> bool {
    b == '_' as u8 || is_letter(b)
}

/// A byte of the seven-bit range; in UTF-8 such a byte is a character of its own.
pub open spec fn is_ascii_byte(b: u8) -> bool {
    b < 0x80
}

/// The byte of `s` at offset `pos` is the character `c`.
pub open spec fn byte_at(s: Seq<u8>, pos: int, c: char) -> bool {
    0 <= pos < s.len() && s[pos] as char == c
}

/// The bytes of `s` at `pos` and `pos + 1` are the characters `a` and `b`.
pub open spec fn pair_at(s: Seq<u8>, pos: int, a: char, b: char) -> bool {
    byte_at(s, pos, a) && byte_at(s, pos + 1, b)
}

/// The sets of bytes that runs are made of.
#[derive(Debug, Clone, Copy, PartialEq, Eq, Structural)]
pub enum ByteClass {
    /// White space.
    Blank,
    /// Anything but a line feed: the body of a line comment.
    CommentBody,
    /// `_`, letters and digits: what an identifier goes on with.
    IdentPart,
    /// `_` and decimal digits.
    Decimal,
    /// `_` and hexadecimal digits of either case.
    Hex,
    /// `_` and the digits `0` to `7`.
    Octal,
    /// `_`, `0` and `1`.
    Binary,
}

impl ByteClass {
    /// The class holds `b`.
    pub open spec fn has(self, b: u8) -> bool {
        match self {
            ByteClass::Blank => is_blank(b),
            ByteClass::CommentBody => b != NEWLINE,
            ByteClass::IdentPart => is_ident_start(b) || is_digit(b),
            ByteClass::Decimal => b == '_' as u8 || is_digit(b),
            ByteClass::Hex => b == '_' as u8 || is_digit(b) || ('a' as u8 <= b <= 'f' as u8) || (
            'A' as u8 <= b <= 'F' as u8),
            ByteClass::Octal => b == '_' as u8 || ('0' as u8 <= b <= '7' as u8),
            ByteClass::Binary => b == '_' as u8 || b == '0' as u8 || b == '1' as u8,
        }
    }

    /// Tests a byte against the class.
    pub fn contains(self, b: u8) -> (r: bool)
        ensures
            r == self.has(b),
    {
        match self {
            ByteClass::Blank => blank(b),
            ByteClass::CommentBody => b != NEWLINE,
            ByteClass::IdentPart => ident_start(b) || digit(b),
            ByteClass::Decimal => b == '_' as u8 || digit(b),
            ByteClass::Hex => b == '_' as u8 || digit(b) || ('a' as u8 <= b && b <= 'f' as u8) || (
            'A' as u8 <= b && b <= 'F' as u8),
            ByteClass::Octal => b == '_' as u8 || ('0' as u8 <= b && b <= '7' as u8),
            ByteClass::Binary => b == '_' as u8 || b == '0' as u8 || b == '1' as u8,
        }
    }
}

/// Tests for white space.
pub fn blank(b: u8) -> (r: bool)
    ensures
        r == is_blank(b),
{
    b == 0x20 || b == 0x09 || b == 0x0a || b == 0x0c || b == 0x0d
}

/// Tests for a decimal digit.
pub fn digit(b: u8) -> (r: bool)
    ensures
        r == is_digit(b),
{
    '0' as u8 <= b && b <= '9' as u8
}

/// Tests for a byte that may begin an identifier.
pub fn ident_start(b: u8) -> (r: bool)
    ensures
        r == is_ident_start(b),
{
    b == '_' as u8 || ('A' as u8 <= b && b <= 'Z' as u8) || ('a' as u8 <= b && b <= 'z' as u8)
}

/// Tests whether the bytes at `pos` and `pos + 1` are the characters `a` and
/// `b`.
pub fn starts_with_pair(bytes: &[u8], pos: usize, a: char, b: char) -> (r: bool)
    ensures
        r == pair_at(bytes@, pos as int, a, b),
{
    pos < bytes.len() && bytes.len() - pos >= 2 && bytes[pos] as char == a && bytes[pos + 1] as char
        == b
}

/// Where the longest run of bytes of `class` that begins at `pos` ends: the
/// offset of the first byte at or after `pos` that is not of the class, or the
/// length of `s`.
pub open spec fn run_end(s: Seq<u8>, pos: int, class: ByteClass) -> int
    decreases s.len() - pos,
{
    if 0 <= pos < s.len() && class.has(s[pos]) {
        run_end(s, pos + 1, class)
    } else {
        pos
    }
}

/// A run ends within the text, holds only bytes of its class, and cannot be
/// made longer.
pub proof fn lemma_run_end(s: Seq<u8>, pos: int, class: ByteClass)
    requires
        0 <= pos <= s.len(),
    ensures
        pos <= run_end(s, pos, class) <= s.len(),
        forall|i: int| pos <= i < run_end(s, pos, class) ==> class.has(#[trigger] s[i]),
        run_end(s, pos, class) < s.len() ==> !class.has(s[run_end(s, pos, class)]),
    decreases s.len() - pos,
{
    if pos < s.len() && class.has(s[pos]) {
        lemma_run_end(s, pos + 1, class);
    }
}

/// Walks over the longest run of bytes of `class` that begins at `from`.
pub fn skip_run(bytes: &[u8], from: usize, class: ByteClass) -> (end: usize)
    requires
        from <= bytes@.len(),
    ensures
        end == run_end(bytes@, from as int, class),
        from <= end <= bytes@.len(),
{
    let mut end = from;
    while end < bytes.len() && class.contains(bytes[end])
        invariant
            from <= end <= bytes@.len(),
            run_end(bytes@, end as int, class) == run_end(bytes@, from as int, class),
        decreases bytes@.len() - end,
    {
        end += 1;
    }
    end
}

} // verus!
