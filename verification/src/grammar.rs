//! What the tokens of a source text are: the lexical grammar, written as
//! functions from the bytes of the text to its lexemes.
//!
//! The scan moves through the text in units. A unit is the white space before
//! it and then a line comment, one token, one group in brackets with all that
//! it holds, or one interpolated string with all that it holds. Groups and
//! interpolations nest, so the functions below call each other.

use vstd::prelude::*;

use crate::classes::{
    byte_at, is_blank, is_digit, is_ident_start, pair_at, run_end, ByteClass,
};
use crate::error::{Failure, LexErrorKind};
use crate::position::{col_at, line_at, unbroken};
use crate::tables::{digraph, group_of, keyword, punctuation};
use crate::token::{Record, TokenType};

verus! {

/// A token as the grammar sees it: its kind and the offsets between which its
/// text lies, `start` included and `end` not.
pub struct Lexeme {
    pub kind: TokenType,
    pub start: int,
    pub end: int,
}

/// The outcome of a stretch of the scan: the lexemes it found, in order, and
/// the offset at which it stopped.
pub struct Scanned {
    pub lexemes: Seq<Lexeme>,
    pub end: int,
}

/// A stretch that ends at `end` and holds no token.
pub open spec fn nothing(end: int) -> Scanned {
    Scanned { lexemes: Seq::empty(), end }
}

/// A stretch that is the one token of kind `kind` from `start` to `end`.
pub open spec fn single(kind: TokenType, start: int, end: int) -> Scanned {
    Scanned { lexemes: seq![Lexeme { kind, start, end }], end }
}

/// What the token stream records of a lexeme of the text `s`.
pub open spec fn record(s: Seq<u8>, lexeme: Lexeme) -> Record {
    Record {
        kind: lexeme.kind,
        text: s.subrange(lexeme.start, lexeme.end),
        line: line_at(s, lexeme.start),
        col: col_at(s, lexeme.start),
    }
}

/// What the token stream records of each of the lexemes, in order.
pub open spec fn records(s: Seq<u8>, lexemes: Seq<Lexeme>) -> Seq<Record> {
    Seq::new(lexemes.len(), |i: int| record(s, lexemes[i]))
}

/// The number of bytes with which a string literal opens at `pos`: two for `b"`
/// and `c"`, one for `"`, zero where no string literal begins.
pub open spec fn string_prefix(s: Seq<u8>, pos: int) -> int {
    if pair_at(s, pos, 'b', '"') || pair_at(s, pos, 'c', '"') {
        2
    } else if byte_at(s, pos, '"') {
        1
    } else {
        0
    }
}

/// The number of bytes with which a character literal opens at `pos`: two for
/// `b'`, one for `'`, zero where no character literal begins.
pub open spec fn char_prefix(s: Seq<u8>, pos: int) -> int {
    if pair_at(s, pos, 'b', '\'') {
        2
    } else if byte_at(s, pos, '\'') {
        1
    } else {
        0
    }
}

/// Where the body of a string or character literal that is read from `pos` on
/// ends: the offset just past the first `quote` that no backslash stands
/// before. A backslash and a quote are skipped together; nothing else is an
/// escape, and a line feed does not end the literal. `None` where the text ends
/// first.
pub open spec fn quoted_end(s: Seq<u8>, pos: int, quote: u8) -> Option<int>
    decreases s.len() - pos,
{
    if pos < 0 || pos >= s.len() {
        None
    } else if s[pos] == '\\' as u8 && pos + 1 < s.len() && s[pos + 1] == quote {
        quoted_end(s, pos + 2, quote)
    } else if s[pos] == quote {
        Some(pos + 1)
    } else {
        quoted_end(s, pos + 1, quote)
    }
}

/// Where the segment of an interpolated string that is read from `pos` on
/// ends: the offset of the first `"` or `{` that no backslash stands before.
/// `None` where the text ends first.
pub open spec fn segment_end(s: Seq<u8>, pos: int) -> Option<int>
    decreases s.len() - pos,
{
    if pos < 0 || pos >= s.len() {
        None
    } else if s[pos] == '\\' as u8 && (byte_at(s, pos + 1, '"') || byte_at(s, pos + 1, '{')) {
        segment_end(s, pos + 2)
    } else if s[pos] == '"' as u8 || s[pos] == '{' as u8 {
        Some(pos)
    } else {
        segment_end(s, pos + 1)
    }
}

/// Where the numeric literal that begins at `pos` ends.
///
/// After `0x`, `0o` or `0b` it is the run of digits of that radix and `_`.
/// Otherwise it is the first digit and a run of digits and `_`; then, if a `.`
/// follows, the `.` and such a run; then, if `e` or `E` follows, that letter, a
/// sign if there is one, and such a run. No run needs to hold a digit.
pub open spec fn number_end(s: Seq<u8>, pos: int) -> int {
    if pair_at(s, pos, '0', 'x') {
        run_end(s, pos + 2, ByteClass::Hex)
    } else if pair_at(s, pos, '0', 'o') {
        run_end(s, pos + 2, ByteClass::Octal)
    } else if pair_at(s, pos, '0', 'b') {
        run_end(s, pos + 2, ByteClass::Binary)
    } else {
        let whole = run_end(s, pos + 1, ByteClass::Decimal);
        let fraction = if byte_at(s, whole, '.') {
            run_end(s, whole + 1, ByteClass::Decimal)
        } else {
            whole
        };
        if byte_at(s, fraction, 'e') || byte_at(s, fraction, 'E') {
            let signed = byte_at(s, fraction + 1, '+') || byte_at(s, fraction + 1, '-');
            run_end(s, if signed { fraction + 2 } else { fraction + 1 }, ByteClass::Decimal)
        } else {
            fraction
        }
    }
}

/// The kind of the identifier or keyword with the text `text`.
pub open spec fn word_kind(text: Seq<u8>) -> TokenType {
    match keyword(text) {
        Some(kind) => kind,
        None => TokenType::Ident,
    }
}

/// The kind of a segment of an interpolated string. `first` tells that no
/// interpolation came before the segment, `last` that a `"` ends it, not a `{`.
pub open spec fn segment_kind(first: bool, last: bool) -> TokenType {
    if first && last {
        TokenType::String
    } else if first {
        TokenType::StringInterpBeg
    } else if last {
        TokenType::StringInterpEnd
    } else {
        TokenType::StringInterpMid
    }
}

/// One unit of the scan, read from `pos`: the white space at `pos`, if there is
/// any, and what stands behind it. The unit holds no token where the white
/// space reaches the end of the text, and where a comment stands behind it.
///
/// Behind the white space, in this order:
/// - `//`: the rest of the line without its line feed, no token;
/// - an operator of two bytes;
/// - an operator or punctuation mark of one byte. Where that is `(`, `[` or
///   `{`, the unit is the whole group: the opening token, the units up to the
///   matching closing byte, and that byte's token. A group that the text ends
///   in is an error, blamed on the opening byte;
/// - `$"`: an interpolated string, see [`scan_interpolated`];
/// - a string literal, then a character literal: prefix, body and closing
///   quote are one token. One that the text ends in is an error, blamed on
///   its first byte;
/// - an identifier or keyword: `_` or a letter, and the run of `_`, letters
///   and digits after it;
/// - a numeric literal, see [`number_end`];
/// - any other byte is an error.
///
/// The white space ends at or after `pos` ([`crate::classes::lemma_run_end`]);
/// the test for that is written out so that the definition is well-founded on
/// its face.
pub open spec fn scan_unit(s: Seq<u8>, pos: int) -> Result<Scanned, Failure>
    decreases s.len() - pos, 0int,
{
    let at = run_end(s, pos, ByteClass::Blank);
    if !(0 <= pos <= at < s.len()) {
        Ok(nothing(at))
    } else if pair_at(s, at, '/', '/') {
        Ok(nothing(run_end(s, at + 2, ByteClass::CommentBody)))
    } else if at + 1 < s.len() && digraph(s[at], s[at + 1]) is Some {
        Ok(single(digraph(s[at], s[at + 1])->Some_0, at, at + 2))
    } else if punctuation(s[at]) is Some {
        let kind = punctuation(s[at])->Some_0;
        match group_of(kind) {
            None => Ok(single(kind, at, at + 1)),
            Some(group) => match scan_units(s, at + 1, Some(group.close)) {
                Err(failure) => Err(failure),
                Ok(inner) => if inner.end >= s.len() {
                    Err(Failure { kind: group.unclosed, at })
                } else {
                    Ok(
                        Scanned {
                            lexemes: seq![Lexeme { kind, start: at, end: at + 1 }] + inner.lexemes
                                + seq![
                                Lexeme {
                                    kind: group.closed_by,
                                    start: inner.end,
                                    end: inner.end + 1,
                                },
                            ],
                            end: inner.end + 1,
                        },
                    )
                },
            },
        }
    } else if pair_at(s, at, '$', '"') {
        scan_interpolated(s, at + 2, at, true)
    } else if string_prefix(s, at) > 0 {
        match quoted_end(s, at + string_prefix(s, at), '"' as u8) {
            Some(end) => Ok(single(TokenType::String, at, end)),
            None => Err(Failure { kind: LexErrorKind::UnterminatedString, at }),
        }
    } else if char_prefix(s, at) > 0 {
        match quoted_end(s, at + char_prefix(s, at), '\'' as u8) {
            Some(end) => Ok(single(TokenType::Char, at, end)),
            None => Err(Failure { kind: LexErrorKind::UnterminatedChar, at }),
        }
    } else if is_ident_start(s[at]) {
        let end = run_end(s, at + 1, ByteClass::IdentPart);
        Ok(single(word_kind(s.subrange(at, end)), at, end))
    } else if is_digit(s[at]) {
        Ok(single(TokenType::Num, at, number_end(s, at)))
    } else {
        Err(Failure { kind: LexErrorKind::UnrecognizedToken, at })
    }
}

/// The units from `pos` on, one after the other, up to the end of the text or
/// up to the byte `close`, where that byte is the first behind the white space
/// at which a unit would begin. The white space before that byte is passed, the
/// byte is not. With `close` being `None` only the end of the text stops the
/// scan.
///
/// Every unit ends past the offset at which it began and within the text
/// ([`crate::laws::lemma_unit_advances`]); the test for that is written out so
/// that the definition is well-founded on its face.
pub open spec fn scan_units(s: Seq<u8>, pos: int, close: Option<u8>) -> Result<Scanned, Failure>
    decreases s.len() - pos, 1int,
{
    let at = run_end(s, pos, ByteClass::Blank);
    if pos < 0 || pos >= s.len() {
        Ok(nothing(pos))
    } else if 0 <= at < s.len() && close == Some(s[at]) {
        Ok(nothing(at))
    } else {
        match scan_unit(s, pos) {
            Err(failure) => Err(failure),
            Ok(unit) => if pos < unit.end <= s.len() {
                match scan_units(s, unit.end, close) {
                    Err(failure) => Err(failure),
                    Ok(rest) => Ok(
                        Scanned { lexemes: unit.lexemes + rest.lexemes, end: rest.end },
                    ),
                }
            } else {
                Ok(unit)
            },
        }
    }
}

/// An interpolated string, read from the start `from` of one of its segments.
///
/// A segment runs up to the next `"` or `{` that no backslash stands before,
/// and is a token of its own, without the byte that ends it; so the text of a
/// segment holds none of `$"`, `{`, `}` and the closing `"`. A `"` ends the
/// string. A `{` opens an interpolation: the units up to the next unit that
/// would begin with `}` are scanned as code, the `}` is passed over, and the
/// next segment begins after it.
///
/// `first` tells that no interpolation came before this segment. `origin` is
/// the offset of the byte that opened the segment, the `$` or a `}`: the error
/// for a string that the text ends in is blamed on it.
///
/// Of the bounds that the definition tests, only `inner.end < s.len()` can
/// fail: it does where the text ends inside an interpolation. The others hold
/// always ([`crate::laws::lemma_segment_end`],
/// [`crate::laws::lemma_units_advance`]) and are written out so that the
/// definition is well-founded on its face.
pub open spec fn scan_interpolated(s: Seq<u8>, from: int, origin: int, first: bool) -> Result<
    Scanned,
    Failure,
>
    decreases s.len() - from, 2int,
{
    let unterminated = Failure { kind: LexErrorKind::UnterminatedInterpolatedString, at: origin };
    match segment_end(s, from) {
        None => Err(unterminated),
        Some(stop) => if !(from <= stop < s.len()) {
            Err(unterminated)
        } else if s[stop] == '"' as u8 {
            Ok(
                Scanned {
                    lexemes: seq![Lexeme { kind: segment_kind(first, true), start: from, end: stop }],
                    end: stop + 1,
                },
            )
        } else {
            match scan_units(s, stop + 1, Some('}' as u8)) {
                Err(failure) => Err(failure),
                Ok(inner) => if !(stop < inner.end < s.len()) {
                    Err(unterminated)
                } else {
                    match scan_interpolated(s, inner.end + 1, inner.end, false) {
                        Err(failure) => Err(failure),
                        Ok(rest) => Ok(
                            Scanned {
                                lexemes: seq![
                                    Lexeme { kind: segment_kind(first, false), start: from, end: stop },
                                ] + inner.lexemes + rest.lexemes,
                                end: rest.end,
                            },
                        ),
                    }
                },
            }
        },
    }
}

/// The byte at offset `i` belongs to a line comment: a `//` stands at or
/// before it, and no line feed from there up to and with the byte.
pub open spec fn in_comment(s: Seq<u8>, i: int) -> bool {
    exists|c: int| 0 <= c <= i && #[trigger] pair_at(s, c, '/', '/') && unbroken(s, c, i + 1)
}

/// The byte at offset `i` is one that encloses a segment of an interpolated
/// string: the `$` before a `"`, a `"`, a `{` or a `}`.
pub open spec fn is_delimiter(s: Seq<u8>, i: int) -> bool {
    ||| pair_at(s, i, '$', '"')
    ||| byte_at(s, i, '"')
    ||| byte_at(s, i, '{')
    ||| byte_at(s, i, '}')
}

/// The byte at offset `i` is of those that a scan passes without a token:
/// white space, a byte of a line comment, or one that encloses a segment of
/// an interpolated string.
pub open spec fn is_filler(s: Seq<u8>, i: int) -> bool {
    ||| 0 <= i < s.len() && is_blank(s[i])
    ||| in_comment(s, i)
    ||| is_delimiter(s, i)
}

/// The lexemes of the whole text `s`, or the failure that ends the scan.
pub open spec fn tokenize(s: Seq<u8>) -> Result<Seq<Lexeme>, Failure> {
    match scan_units(s, 0, None) {
        Ok(all) => Ok(all.lexemes),
        Err(failure) => Err(failure),
    }
}

} // verus!
