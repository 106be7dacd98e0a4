//! What holds of every scan: facts about the grammar and about finished token
//! streams, each stated for all source texts and proved.

use vstd::prelude::*;
use vstd::string::*;

use crate::classes::{
    byte_at, is_digit, is_ident_start, lemma_run_end, pair_at, run_end, ByteClass,
};
use crate::error::{Failure, LexErrorKind};
use crate::grammar::{
    char_prefix, in_comment, is_delimiter, is_filler, number_end, quoted_end, record, records,
    scan_interpolated, scan_unit, scan_units, segment_end, segment_kind, single, string_prefix,
    tokenize, word_kind, Lexeme, Scanned,
};
use crate::position::{
    lemma_line_begins_after_line_feed, lemma_line_start_bound, lemma_line_start_from_breaks,
    lemma_lines_count_line_feeds, lemma_newline_count_bound, lemma_newline_offsets_ascend,
    lemma_newline_offsets_prefix, line_feeds_in, newline_offsets, unbroken, NEWLINE,
};
use crate::tables::{
    digraph, group_of, keyword, lemma_digraph_bytes, lemma_group_close,
    lemma_tables_keep_to_their_kinds, names_keyword, names_operator, punctuation,
};
use crate::token::{TokenType, Tokens};

verus! {

/// The lexemes lie between `from` and `to`, one after the other, none
/// overlapping the next.
pub open spec fn in_order(lexemes: Seq<Lexeme>, from: int, to: int) -> bool {
    &&& forall|i: int|
        0 <= i < lexemes.len() ==> from <= (#[trigger] lexemes[i]).start <= lexemes[i].end <= to
    &&& forall|i: int, j: int|
        0 <= i < j < lexemes.len() ==> (#[trigger] lexemes[i]).end <= (#[trigger] lexemes[j]).start
}

/// Lexemes in order up to `mid`, followed by lexemes in order from `mid`, are
/// in order.
pub proof fn lemma_in_order_concat(a: Seq<Lexeme>, b: Seq<Lexeme>, from: int, mid: int, to: int)
    requires
        in_order(a, from, mid),
        in_order(b, mid, to),
        from <= mid <= to,
    ensures
        in_order(a + b, from, to),
{
    let ab = a + b;
    assert forall|i: int| 0 <= i < ab.len() implies from <= (#[trigger] ab[i]).start <= ab[i].end
        <= to by {
        if i < a.len() {
            assert(ab[i] == a[i]);
        } else {
            assert(ab[i] == b[i - a.len()]);
        }
    }
    assert forall|i: int, j: int| 0 <= i < j < ab.len() implies (#[trigger] ab[i]).end <= (
    #[trigger] ab[j]).start by {
        if j < a.len() {
            assert(ab[i] == a[i] && ab[j] == a[j]);
        } else if i < a.len() {
            assert(ab[i] == a[i] && ab[j] == b[j - a.len()]);
        } else {
            assert(ab[i] == b[i - a.len()] && ab[j] == b[j - a.len()]);
        }
    }
}

/// A literal's body that ends, ends within the text and on its quote.
pub proof fn lemma_quoted_end(s: Seq<u8>, pos: int, quote: u8)
    requires
        0 <= pos,
    ensures
        quoted_end(s, pos, quote) matches Some(end) ==> pos < end <= s.len() && s[end - 1] == quote,
    decreases s.len() - pos,
{
    if pos < s.len() {
        if s[pos] == '\\' as u8 && pos + 1 < s.len() && s[pos + 1] == quote {
            lemma_quoted_end(s, pos + 2, quote);
        } else if s[pos] != quote {
            lemma_quoted_end(s, pos + 1, quote);
        }
    }
}

/// A segment that ends, ends within the text and on a `"` or a `{`.
pub proof fn lemma_segment_end(s: Seq<u8>, pos: int)
    requires
        0 <= pos,
    ensures
        segment_end(s, pos) matches Some(stop) ==> pos <= stop < s.len() && (byte_at(s, stop, '"')
            || byte_at(s, stop, '{')),
    decreases s.len() - pos,
{
    if pos < s.len() {
        if s[pos] == '\\' as u8 && (byte_at(s, pos + 1, '"') || byte_at(s, pos + 1, '{')) {
            lemma_segment_end(s, pos + 2);
        } else if !(s[pos] == '"' as u8 || s[pos] == '{' as u8) {
            lemma_segment_end(s, pos + 1);
        }
    }
}

/// A numeric literal holds its first digit and ends within the text.
pub proof fn lemma_number_end(s: Seq<u8>, pos: int)
    requires
        0 <= pos < s.len(),
    ensures
        pos < number_end(s, pos) <= s.len(),
{
    if pair_at(s, pos, '0', 'x') {
        lemma_run_end(s, pos + 2, ByteClass::Hex);
    } else if pair_at(s, pos, '0', 'o') {
        lemma_run_end(s, pos + 2, ByteClass::Octal);
    } else if pair_at(s, pos, '0', 'b') {
        lemma_run_end(s, pos + 2, ByteClass::Binary);
    } else {
        lemma_run_end(s, pos + 1, ByteClass::Decimal);
        let whole = run_end(s, pos + 1, ByteClass::Decimal);
        let fraction = if byte_at(s, whole, '.') {
            run_end(s, whole + 1, ByteClass::Decimal)
        } else {
            whole
        };
        if byte_at(s, whole, '.') {
            lemma_run_end(s, whole + 1, ByteClass::Decimal);
        }
        if byte_at(s, fraction, 'e') || byte_at(s, fraction, 'E') {
            let signed = byte_at(s, fraction + 1, '+') || byte_at(s, fraction + 1, '-');
            lemma_run_end(s, if signed { fraction + 2 } else { fraction + 1 }, ByteClass::Decimal);
        }
    }
}

/// The lexeme is an operator or a punctuation mark: its text is the two bytes,
/// or the one byte, that spell its kind.
pub open spec fn is_operator(s: Seq<u8>, lexeme: Lexeme) -> bool {
    ||| lexeme.end == lexeme.start + 2 && digraph(s[lexeme.start], s[lexeme.start + 1]) == Some(
        lexeme.kind,
    )
    ||| lexeme.end == lexeme.start + 1 && punctuation(s[lexeme.start]) == Some(lexeme.kind)
}

/// The lexeme is an identifier or a keyword: its text begins with `_` or a
/// letter and is the whole run of `_`, letters and digits there, and its kind
/// is that of this word.
pub open spec fn is_word_lexeme(s: Seq<u8>, lexeme: Lexeme) -> bool {
    &&& is_ident_start(s[lexeme.start])
    &&& lexeme.end == run_end(s, lexeme.start + 1, ByteClass::IdentPart)
    &&& lexeme.kind == word_kind(s.subrange(lexeme.start, lexeme.end))
}

/// The lexeme is a numeric literal: its text begins with a digit and ends
/// where [`number_end`] says.
pub open spec fn is_number(s: Seq<u8>, lexeme: Lexeme) -> bool {
    &&& lexeme.kind == TokenType::Num
    &&& is_digit(s[lexeme.start])
    &&& lexeme.end == number_end(s, lexeme.start)
}

/// The lexeme is a string or character literal with its prefix and both of
/// its quotes.
pub open spec fn is_quoted(s: Seq<u8>, lexeme: Lexeme) -> bool {
    ||| {
        &&& lexeme.kind == TokenType::String
        &&& string_prefix(s, lexeme.start) > 0
        &&& quoted_end(s, lexeme.start + string_prefix(s, lexeme.start), '"' as u8) == Some(
            lexeme.end,
        )
    }
    ||| {
        &&& lexeme.kind == TokenType::Char
        &&& char_prefix(s, lexeme.start) > 0
        &&& quoted_end(s, lexeme.start + char_prefix(s, lexeme.start), '\'' as u8) == Some(
            lexeme.end,
        )
    }
}

/// The lexeme is a segment of an interpolated string: `$"` or a `}` stands
/// right before it, it runs up to the next `"` or `{` that no backslash stands
/// before, and its kind tells which of these enclose it.
pub open spec fn is_segment(s: Seq<u8>, lexeme: Lexeme) -> bool {
    let first = pair_at(s, lexeme.start - 2, '$', '"');
    &&& first || byte_at(s, lexeme.start - 1, '}')
    &&& segment_end(s, lexeme.start) == Some(lexeme.end)
    &&& lexeme.kind == segment_kind(first, byte_at(s, lexeme.end, '"'))
}

/// The lexeme's kind agrees with its text: it is one of the five shapes of
/// token that the grammar knows.
pub open spec fn fits(s: Seq<u8>, lexeme: Lexeme) -> bool {
    ||| is_operator(s, lexeme)
    ||| is_word_lexeme(s, lexeme)
    ||| is_number(s, lexeme)
    ||| is_quoted(s, lexeme)
    ||| is_segment(s, lexeme)
}

/// The kind of a lexeme that fits its text tells its shape: an operator's kind
/// that it is an operator, a keyword's kind and `Ident` that it is a word,
/// `Num` that it is a number, `Char` that it is a character literal, `String`
/// that it is a string literal or an interpolated string without
/// interpolation, and the three kinds of segment that it is one.
pub proof fn lemma_kind_tells_shape(s: Seq<u8>, lexeme: Lexeme)
    requires
        fits(s, lexeme),
    ensures
        names_operator(lexeme.kind) ==> is_operator(s, lexeme),
        names_keyword(lexeme.kind) || lexeme.kind == TokenType::Ident ==> is_word_lexeme(s, lexeme),
        lexeme.kind == TokenType::Ident ==> keyword(s.subrange(lexeme.start, lexeme.end)) is None,
        names_keyword(lexeme.kind) ==> keyword(s.subrange(lexeme.start, lexeme.end)) == Some(
            lexeme.kind,
        ),
        lexeme.kind == TokenType::Num ==> is_number(s, lexeme),
        lexeme.kind == TokenType::Char ==> is_quoted(s, lexeme),
        lexeme.kind == TokenType::String ==> is_quoted(s, lexeme) || is_segment(s, lexeme),
        lexeme.kind == TokenType::StringInterpBeg || lexeme.kind == TokenType::StringInterpMid
            || lexeme.kind == TokenType::StringInterpEnd ==> is_segment(s, lexeme),
{
    lemma_tables_keep_to_their_kinds(
        s[lexeme.start],
        s[lexeme.start + 1],
        s.subrange(lexeme.start, lexeme.end),
    );
}

/// Every one of the lexemes fits its text.
pub open spec fn all_fit(s: Seq<u8>, lexemes: Seq<Lexeme>) -> bool {
    forall|i: int| 0 <= i < lexemes.len() ==> fits(s, #[trigger] lexemes[i])
}

/// Lexemes that fit, followed by lexemes that fit, fit.
pub proof fn lemma_all_fit_concat(s: Seq<u8>, a: Seq<Lexeme>, b: Seq<Lexeme>)
    requires
        all_fit(s, a),
        all_fit(s, b),
    ensures
        all_fit(s, a + b),
{
    let ab = a + b;
    assert forall|i: int| 0 <= i < ab.len() implies fits(s, #[trigger] ab[i]) by {
        if i < a.len() {
            assert(ab[i] == a[i]);
        } else {
            assert(ab[i] == b[i - a.len()]);
        }
    }
}

/// Offset `i` lies inside one of the lexemes.
pub open spec fn inside(lexemes: Seq<Lexeme>, i: int) -> bool {
    exists|k: int| 0 <= k < lexemes.len() && (#[trigger] lexemes[k]).start <= i < lexemes[k].end
}

/// Every byte from `from` up to `to` lies inside one of the lexemes or is one
/// that a scan passes without a token.
pub open spec fn covered(s: Seq<u8>, lexemes: Seq<Lexeme>, from: int, to: int) -> bool {
    forall|i: int| from <= i < to ==> #[trigger] inside(lexemes, i) || is_filler(s, i)
}

/// What lies inside lexemes lies inside them when others stand before or
/// after them.
pub proof fn lemma_inside_concat(a: Seq<Lexeme>, b: Seq<Lexeme>, i: int)
    ensures
        inside(a, i) ==> inside(a + b, i),
        inside(b, i) ==> inside(a + b, i),
{
    let ab = a + b;
    if inside(a, i) {
        let k = choose|k: int| 0 <= k < a.len() && (#[trigger] a[k]).start <= i < a[k].end;
        assert(ab[k] == a[k]);
    }
    if inside(b, i) {
        let k = choose|k: int| 0 <= k < b.len() && (#[trigger] b[k]).start <= i < b[k].end;
        assert(ab[k + a.len()] == b[k]);
    }
}

/// A stretch that is covered up to `mid`, followed by one that is covered
/// from `mid`, is covered.
pub proof fn lemma_covered_concat(
    s: Seq<u8>,
    a: Seq<Lexeme>,
    b: Seq<Lexeme>,
    from: int,
    mid: int,
    to: int,
)
    requires
        covered(s, a, from, mid),
        covered(s, b, mid, to),
    ensures
        covered(s, a + b, from, to),
{
    assert forall|i: int| from <= i < to implies #[trigger] inside(a + b, i) || is_filler(s, i) by {
        lemma_inside_concat(a, b, i);
        if i < mid {
            assert(inside(a, i) || is_filler(s, i));
        } else {
            assert(inside(b, i) || is_filler(s, i));
        }
    }
}

/// A stretch stays covered when bytes that a scan passes without a token
/// stand before it and after it.
pub proof fn lemma_covered_widen(
    s: Seq<u8>,
    lexemes: Seq<Lexeme>,
    from: int,
    start: int,
    end: int,
    to: int,
)
    requires
        covered(s, lexemes, start, end),
        forall|i: int| from <= i < start ==> is_filler(s, i),
        forall|i: int| end <= i < to ==> is_filler(s, i),
    ensures
        covered(s, lexemes, from, to),
{
    assert forall|i: int| from <= i < to implies #[trigger] inside(lexemes, i) || is_filler(s, i) by {
        if start <= i < end {
            assert(inside(lexemes, i) || is_filler(s, i));
        }
    }
}

/// A lexeme covers its own bytes.
pub proof fn lemma_covered_single(s: Seq<u8>, lexeme: Lexeme)
    ensures
        covered(s, seq![lexeme], lexeme.start, lexeme.end),
{
    let one = seq![lexeme];
    assert forall|i: int| lexeme.start <= i < lexeme.end implies #[trigger] inside(one, i) by {
        assert(one[0] == lexeme);
    }
}

/// The bytes of a line comment, from its `//` to the end of the run of bytes
/// that are no line feed, belong to the comment.
pub proof fn lemma_comment_is_filler(s: Seq<u8>, at: int)
    requires
        pair_at(s, at, '/', '/'),
    ensures
        forall|i: int|
            at <= i < run_end(s, at + 2, ByteClass::CommentBody) ==> #[trigger] is_filler(s, i),
{
    lemma_run_end(s, at + 2, ByteClass::CommentBody);
    assert forall|i: int| at <= i < run_end(s, at + 2, ByteClass::CommentBody) implies #[trigger]
        is_filler(s, i) by {
        assert(unbroken(s, at, i + 1)) by {
            assert forall|j: int| at <= j < i + 1 && 0 <= j < s.len() implies s[j] != NEWLINE by {
                if j >= at + 2 {
                    assert(ByteClass::CommentBody.has(s[j]));
                }
            }
        }
        assert(in_comment(s, i));
    }
}

/// What holds of a stretch that was scanned from `from`: it ends within the
/// text, its lexemes lie in it in order, the kind of each agrees with its
/// text, and every byte of the stretch lies inside one of them or is one that
/// a scan passes without a token.
pub open spec fn well_scanned(s: Seq<u8>, from: int, stretch: Scanned) -> bool {
    &&& from <= stretch.end <= s.len()
    &&& in_order(stretch.lexemes, from, stretch.end)
    &&& all_fit(s, stretch.lexemes)
    &&& covered(s, stretch.lexemes, from, stretch.end)
}

/// The bytes of a run of white space are bytes that a scan passes without a
/// token.
pub proof fn lemma_blank_is_filler(s: Seq<u8>, pos: int)
    requires
        0 <= pos <= s.len(),
    ensures
        forall|i: int| pos <= i < run_end(s, pos, ByteClass::Blank) ==> #[trigger] is_filler(s, i),
{
    lemma_run_end(s, pos, ByteClass::Blank);
    assert forall|i: int| pos <= i < run_end(s, pos, ByteClass::Blank) implies #[trigger] is_filler(
        s,
        i,
    ) by {
        assert(ByteClass::Blank.has(s[i]));
    }
}

/// The one token from `at` to `end`, with the white space from `pos` to `at`
/// before it, covers the stretch from `pos` to `end`.
proof fn lemma_single_covers(s: Seq<u8>, pos: int, kind: TokenType, at: int, end: int)
    requires
        0 <= pos <= s.len(),
        at == run_end(s, pos, ByteClass::Blank),
    ensures
        covered(s, single(kind, at, end).lexemes, pos, end),
{
    lemma_blank_is_filler(s, pos);
    lemma_covered_single(s, Lexeme { kind, start: at, end });
    lemma_covered_widen(s, single(kind, at, end).lexemes, pos, at, end, end);
}

/// Every unit ends past the offset at which it began and within the text, its
/// lexemes lie in it in order behind its white space, the kind of each agrees
/// with its text, and every byte of the unit lies inside one of them or is
/// one that a scan passes without a token. A unit that fails is blamed on a
/// byte of the text behind its white space.
pub proof fn lemma_unit_advances(s: Seq<u8>, pos: int)
    requires
        0 <= pos < s.len(),
    ensures
        match scan_unit(s, pos) {
            Ok(unit) => pos < unit.end && well_scanned(s, pos, unit),
            Err(failure) => run_end(s, pos, ByteClass::Blank) <= failure.at < s.len(),
        },
    decreases s.len() - pos, 0int,
{
    let at = run_end(s, pos, ByteClass::Blank);
    lemma_run_end(s, pos, ByteClass::Blank);
    lemma_blank_is_filler(s, pos);
    if at >= s.len() {
        lemma_covered_widen(s, Seq::<Lexeme>::empty(), pos, at, at, at);
    } else if pair_at(s, at, '/', '/') {
        lemma_run_end(s, at + 2, ByteClass::CommentBody);
        lemma_comment_is_filler(s, at);
        lemma_covered_widen(
            s,
            Seq::<Lexeme>::empty(),
            pos,
            at,
            at,
            run_end(s, at + 2, ByteClass::CommentBody),
        );
    } else if at + 1 < s.len() && digraph(s[at], s[at + 1]) is Some {
        let kind = digraph(s[at], s[at + 1])->Some_0;
        assert(is_operator(s, single(kind, at, at + 2).lexemes[0]));
        lemma_single_covers(s, pos, kind, at, at + 2);
    } else if punctuation(s[at]) is Some {
        let kind = punctuation(s[at])->Some_0;
        match group_of(kind) {
            None => {
                assert(is_operator(s, single(kind, at, at + 1).lexemes[0]));
                lemma_single_covers(s, pos, kind, at, at + 1);
            },
            Some(group) => {
                lemma_units_advance(s, at + 1, Some(group.close));
                lemma_run_end(s, at + 1, ByteClass::Blank);
                match scan_units(s, at + 1, Some(group.close)) {
                    Err(failure) => {},
                    Ok(inner) => {
                        if inner.end < s.len() {
                            let opens = Lexeme { kind, start: at, end: at + 1 };
                            let closes = Lexeme {
                                kind: group.closed_by,
                                start: inner.end,
                                end: inner.end + 1,
                            };
                            let opening = seq![opens];
                            let closing = seq![closes];
                            lemma_group_close(kind);
                            assert(fits(s, opening[0]));
                            assert(fits(s, closing[0]));
                            lemma_in_order_concat(opening, inner.lexemes, at, at + 1, inner.end);
                            lemma_in_order_concat(
                                opening + inner.lexemes,
                                closing,
                                at,
                                inner.end,
                                inner.end + 1,
                            );
                            lemma_all_fit_concat(s, opening, inner.lexemes);
                            lemma_all_fit_concat(s, opening + inner.lexemes, closing);
                            lemma_covered_single(s, opens);
                            lemma_covered_single(s, closes);
                            lemma_covered_concat(s, opening, inner.lexemes, at, at + 1, inner.end);
                            lemma_covered_concat(
                                s,
                                opening + inner.lexemes,
                                closing,
                                at,
                                inner.end,
                                inner.end + 1,
                            );
                            lemma_covered_widen(
                                s,
                                opening + inner.lexemes + closing,
                                pos,
                                at,
                                inner.end + 1,
                                inner.end + 1,
                            );
                        }
                    },
                }
            },
        }
    } else if pair_at(s, at, '$', '"') {
        lemma_interpolated_advances(s, at + 2, at, true);
        match scan_interpolated(s, at + 2, at, true) {
            Ok(whole) => {
                assert forall|i: int| pos <= i < at + 2 implies is_filler(s, i) by {
                    if i == at {
                        assert(is_delimiter(s, i));
                    } else if i == at + 1 {
                        assert(is_delimiter(s, i));
                    }
                }
                lemma_covered_widen(s, whole.lexemes, pos, at + 2, whole.end, whole.end);
            },
            Err(failure) => {},
        }
    } else if string_prefix(s, at) > 0 {
        lemma_quoted_end(s, at + string_prefix(s, at), '"' as u8);
        match quoted_end(s, at + string_prefix(s, at), '"' as u8) {
            Some(end) => {
                assert(is_quoted(s, single(TokenType::String, at, end).lexemes[0]));
                lemma_single_covers(s, pos, TokenType::String, at, end);
            },
            None => {},
        }
    } else if char_prefix(s, at) > 0 {
        lemma_quoted_end(s, at + char_prefix(s, at), '\'' as u8);
        match quoted_end(s, at + char_prefix(s, at), '\'' as u8) {
            Some(end) => {
                assert(is_quoted(s, single(TokenType::Char, at, end).lexemes[0]));
                lemma_single_covers(s, pos, TokenType::Char, at, end);
            },
            None => {},
        }
    } else if is_ident_start(s[at]) {
        lemma_run_end(s, at + 1, ByteClass::IdentPart);
        let end = run_end(s, at + 1, ByteClass::IdentPart);
        let kind = word_kind(s.subrange(at, end));
        assert(is_word_lexeme(s, single(kind, at, end).lexemes[0]));
        lemma_single_covers(s, pos, kind, at, end);
    } else if is_digit(s[at]) {
        lemma_number_end(s, at);
        assert(is_number(s, single(TokenType::Num, at, number_end(s, at)).lexemes[0]));
        lemma_single_covers(s, pos, TokenType::Num, at, number_end(s, at));
    }
}

/// A run of units ends within the text, at the end of the text or before the
/// closing byte that was asked for, its lexemes lie in it in order, and every
/// byte of it lies inside one of them or is one that a scan passes without a
/// token. One that fails is blamed on a byte of the text behind the white
/// space at its beginning.
pub proof fn lemma_units_advance(s: Seq<u8>, pos: int, close: Option<u8>)
    requires
        0 <= pos <= s.len(),
    ensures
        match scan_units(s, pos, close) {
            Ok(all) => well_scanned(s, pos, all) && (all.end < s.len() ==> close == Some(
                s[all.end],
            )),
            Err(failure) => run_end(s, pos, ByteClass::Blank) <= failure.at < s.len(),
        },
    decreases s.len() - pos, 1int,
{
    let at = run_end(s, pos, ByteClass::Blank);
    lemma_run_end(s, pos, ByteClass::Blank);
    if pos >= s.len() {
    } else if at < s.len() && close == Some(s[at]) {
        lemma_blank_is_filler(s, pos);
        lemma_covered_widen(s, Seq::<Lexeme>::empty(), pos, at, at, at);
    } else {
        lemma_unit_advances(s, pos);
        match scan_unit(s, pos) {
            Err(failure) => {},
            Ok(unit) => {
                lemma_units_advance(s, unit.end, close);
                lemma_run_end(s, unit.end, ByteClass::Blank);
                match scan_units(s, unit.end, close) {
                    Err(failure) => {},
                    Ok(rest) => {
                        lemma_in_order_concat(unit.lexemes, rest.lexemes, pos, unit.end, rest.end);
                        lemma_all_fit_concat(s, unit.lexemes, rest.lexemes);
                        lemma_covered_concat(
                            s,
                            unit.lexemes,
                            rest.lexemes,
                            pos,
                            unit.end,
                            rest.end,
                        );
                    },
                }
            },
        }
    }
}

/// An interpolated string ends past the start of its first segment and within
/// the text, its lexemes lie in it in order, and every byte of it lies inside
/// one of them or is one that a scan passes without a token. One that fails
/// is blamed on a byte of the text at or after the one that opened it, and on
/// that one only for being unterminated.
pub proof fn lemma_interpolated_advances(s: Seq<u8>, from: int, origin: int, first: bool)
    requires
        0 <= origin < from <= s.len(),
        first <==> pair_at(s, from - 2, '$', '"'),
        !first ==> byte_at(s, from - 1, '}'),
    ensures
        match scan_interpolated(s, from, origin, first) {
            Ok(whole) => from < whole.end && well_scanned(s, from, whole),
            Err(failure) => origin <= failure.at < s.len() && (failure.at == origin
                ==> failure.kind == LexErrorKind::UnterminatedInterpolatedString),
        },
    decreases s.len() - from, 2int,
{
    lemma_segment_end(s, from);
    match segment_end(s, from) {
        None => {},
        Some(stop) => {
            assert(is_delimiter(s, stop));
            if s[stop] == '"' as u8 {
                let last = Lexeme { kind: segment_kind(first, true), start: from, end: stop };
                assert(is_segment(s, last));
                lemma_covered_single(s, last);
                lemma_covered_widen(s, seq![last], from, from, stop, stop + 1);
            } else {
                let opens = Lexeme { kind: segment_kind(first, false), start: from, end: stop };
                assert(is_segment(s, opens));
                lemma_units_advance(s, stop + 1, Some('}' as u8));
                lemma_run_end(s, stop + 1, ByteClass::Blank);
                match scan_units(s, stop + 1, Some('}' as u8)) {
                    Err(failure) => {},
                    Ok(inner) => {
                        if inner.end < s.len() {
                            lemma_interpolated_advances(s, inner.end + 1, inner.end, false);
                            match scan_interpolated(s, inner.end + 1, inner.end, false) {
                                Err(failure) => {},
                                Ok(rest) => {
                                    let segment = seq![opens];
                                    lemma_in_order_concat(
                                        segment,
                                        inner.lexemes,
                                        from,
                                        stop + 1,
                                        inner.end,
                                    );
                                    lemma_in_order_concat(
                                        segment + inner.lexemes,
                                        rest.lexemes,
                                        from,
                                        inner.end + 1,
                                        rest.end,
                                    );
                                    lemma_all_fit_concat(s, segment, inner.lexemes);
                                    lemma_all_fit_concat(s, segment + inner.lexemes, rest.lexemes);
                                    assert(is_delimiter(s, inner.end));
                                    lemma_covered_single(s, opens);
                                    lemma_covered_widen(s, segment, from, from, stop, stop + 1);
                                    lemma_covered_widen(
                                        s,
                                        inner.lexemes,
                                        stop + 1,
                                        stop + 1,
                                        inner.end,
                                        inner.end + 1,
                                    );
                                    lemma_covered_concat(
                                        s,
                                        segment,
                                        inner.lexemes,
                                        from,
                                        stop + 1,
                                        inner.end + 1,
                                    );
                                    lemma_covered_concat(
                                        s,
                                        segment + inner.lexemes,
                                        rest.lexemes,
                                        from,
                                        inner.end + 1,
                                        rest.end,
                                    );
                                },
                            }
                        }
                    },
                }
            }
        },
    }
}

/// White space is passed once: where a run of it ends, no further one begins,
/// so a unit read from there is the unit read from before the white space.
pub proof fn lemma_unit_behind_blank(s: Seq<u8>, pos: int)
    requires
        0 <= pos <= s.len(),
    ensures
        run_end(s, run_end(s, pos, ByteClass::Blank), ByteClass::Blank) == run_end(
            s,
            pos,
            ByteClass::Blank,
        ),
        scan_unit(s, run_end(s, pos, ByteClass::Blank)) == scan_unit(s, pos),
{
    lemma_run_end(s, pos, ByteClass::Blank);
}

/// The lexemes of a text lie in the text in source order, none overlaps the
/// next, the kind of each agrees with its text, and every byte of the text
/// lies inside one of them or is white space, a byte of a comment, or one that
/// encloses a segment of an interpolated string. A failure is blamed on a byte
/// of the text.
pub proof fn lemma_tokenize_in_order(s: Seq<u8>)
    ensures
        match tokenize(s) {
            Ok(lexemes) => in_order(lexemes, 0, s.len() as int) && all_fit(s, lexemes) && covered(
                s,
                lexemes,
                0,
                s.len() as int,
            ),
            Err(failure) => 0 <= failure.at < s.len(),
        },
{
    lemma_units_advance(s, 0, None);
    lemma_run_end(s, 0, ByteClass::Blank);
}

/// An operator of two bytes is always one token: where two bytes spell one,
/// the unit there is that operator and nothing else, whatever each byte would
/// be alone.
pub proof fn lemma_longest_operator_wins(s: Seq<u8>, pos: int)
    requires
        0 <= pos,
        pos + 1 < s.len(),
        digraph(s[pos], s[pos + 1]) is Some,
    ensures
        scan_unit(s, pos) == Ok::<Scanned, Failure>(
            single(digraph(s[pos], s[pos + 1])->Some_0, pos, pos + 2),
        ),
{
    lemma_digraph_bytes(s[pos], s[pos + 1]);
    assert(run_end(s, pos, ByteClass::Blank) == pos);
}

/// A stream that holds the records of lexemes that lie in the text in order,
/// together with the line feeds of the whole text, is a finished stream, and
/// each token's recorded line and column lead back to the offset of its lexeme.
pub proof fn lemma_records_make_stream(tokens: &Tokens, lexemes: Seq<Lexeme>)
    requires
        tokens.spans@.len() == tokens.types@.len(),
        tokens.source().len() <= usize::MAX,
        tokens@ == records(tokens.source(), lexemes),
        tokens.line_breaks@ == newline_offsets(tokens.source(), tokens.source().len() as int),
        in_order(lexemes, 0, tokens.source().len() as int),
        covered(tokens.source(), lexemes, 0, tokens.source().len() as int),
    ensures
        tokens.wf(),
        forall|i: int| 0 <= i < lexemes.len() ==> #[trigger] tokens.offset(i) == lexemes[i].start,
{
    let s = tokens.source();
    assert(tokens@.len() == lexemes.len());
    assert forall|i: int| 0 <= i < lexemes.len() implies #[trigger] tokens.span_in_place(i)
        && tokens.offset(i) == lexemes[i].start && tokens.end_offset(i) == lexemes[i].end by {
        let lexeme = lexemes[i];
        assert(tokens@[i] == record(s, lexeme));
        assert(lexeme.start <= lexeme.end <= s.len());
        lemma_newline_offsets_prefix(s, lexeme.start, s.len() as int);
        lemma_line_start_from_breaks(s, lexeme.start);
        lemma_newline_count_bound(s, lexeme.start);
        lemma_line_start_bound(s, lexeme.start);
        let before = newline_offsets(s, lexeme.start);
        if before.len() > 0 {
            assert(before.last() == newline_offsets(s, s.len() as int).subrange(
                0,
                before.len() as int,
            )[before.len() - 1]);
        }
        assert(tokens.offset(i) == lexeme.start);
    }
    assert forall|i: int, j: int| 0 <= i < j < tokens.spans@.len() implies #[trigger]
        tokens.end_offset(i) <= #[trigger] tokens.offset(j) by {
        assert(tokens.span_in_place(i) && tokens.span_in_place(j));
        assert(lexemes[i].end <= lexemes[j].start);
    }
    assert forall|i: int| 0 <= i < lexemes.len() implies #[trigger] tokens.offset(i)
        == lexemes[i].start by {
        assert(tokens.span_in_place(i));
    }
    assert forall|at: int| 0 <= at < s.len() implies #[trigger] tokens.holds(at) || is_filler(
        s,
        at,
    ) by {
        assert(inside(lexemes, at) || is_filler(s, at));
        if inside(lexemes, at) {
            let k = choose|k: int|
                0 <= k < lexemes.len() && (#[trigger] lexemes[k]).start <= at < lexemes[k].end;
            assert(tokens.span_in_place(k));
            assert(tokens.offset(k) <= at < tokens.end_offset(k));
        }
    }
}

/// No byte of the source of a finished stream is left out but white space,
/// comments and the bytes that enclose the segments of interpolated strings:
/// a byte that is none of these lies in one of the tokens.
pub proof fn lemma_bytes_outside_tokens_are_filler(tokens: &Tokens, at: int)
    requires
        tokens.wf(),
        0 <= at < tokens.source().len(),
        !is_filler(tokens.source(), at),
    ensures
        tokens.holds(at),
{
}

/// The line breaks of a finished stream ascend strictly, each is the offset of
/// a line feed of the source, and every line feed of the source is among them.
pub proof fn lemma_line_breaks_ascend(tokens: &Tokens)
    requires
        tokens.wf(),
    ensures
        forall|k: int|
            0 <= k < tokens.line_breaks@.len() ==> (#[trigger] tokens.line_breaks@[k])
                < tokens.source().len() && tokens.source()[tokens.line_breaks@[k] as int]
                == NEWLINE,
        forall|j: int, k: int|
            0 <= j < k < tokens.line_breaks@.len() ==> tokens.line_breaks@[j]
                < tokens.line_breaks@[k],
        forall|at: int|
            0 <= at < tokens.source().len() && tokens.source()[at] == NEWLINE
                ==> tokens.line_breaks@.contains(at as usize),
{
    let s = tokens.source();
    lemma_newline_offsets_ascend(s, s.len() as int);
    assert forall|at: int| 0 <= at < s.len() && s[at] == NEWLINE implies tokens.line_breaks@.contains(
        at as usize,
    ) by {
        lemma_newline_offsets_prefix(s, at + 1, s.len() as int);
        let upto = newline_offsets(s, at + 1);
        assert(upto.last() == at as usize);
        assert(tokens.line_breaks@[upto.len() - 1] == at as usize);
    }
}

/// Every token of a finished stream can be read back from the source: the
/// bytes of the source at the offset that the token's line and column give,
/// as many as the token has, are the token's text.
pub proof fn lemma_spans_reproduce_source(tokens: &Tokens, i: int)
    requires
        tokens.wf(),
        0 <= i < tokens.spans@.len(),
    ensures
        0 <= tokens.offset(i) <= tokens.end_offset(i) <= tokens.source().len(),
        tokens.spans@[i].slice.spec_bytes() == tokens.source().subrange(
            tokens.offset(i),
            tokens.end_offset(i),
        ),
{
    assert(tokens.span_in_place(i));
}

/// A token that begins right after a line feed stands in column zero, on the
/// line that this line feed opens.
pub proof fn lemma_token_after_line_feed(tokens: &Tokens, i: int)
    requires
        tokens.wf(),
        0 <= i < tokens.spans@.len(),
        tokens.offset(i) > 0,
        tokens.source()[tokens.offset(i) - 1] == NEWLINE,
    ensures
        tokens.spans@[i].col == 0,
        tokens.spans@[i].line >= 2,
        tokens.line_breaks@[tokens.spans@[i].line - 2] == tokens.offset(i) - 1,
{
    let s = tokens.source();
    let at = tokens.offset(i);
    assert(tokens.span_in_place(i));
    lemma_line_begins_after_line_feed(s, at);
    lemma_newline_offsets_prefix(s, at, s.len() as int);
    let before = newline_offsets(s, at);
    assert(before.last() == newline_offsets(s, s.len() as int).subrange(0, before.len() as int)[
        before.len() - 1
    ]);
}

/// From one token of a finished stream to a later one the line number grows
/// by the number of line feeds between the offsets at which the two begin. So a
/// literal with one line feed in it puts the next token one line further, and
/// the stream has recorded one line break for it.
pub proof fn lemma_token_lines_count_line_feeds(tokens: &Tokens, i: int, j: int)
    requires
        tokens.wf(),
        0 <= i <= j < tokens.spans@.len(),
    ensures
        tokens.offset(i) <= tokens.offset(j),
        tokens.spans@[j].line == tokens.spans@[i].line + line_feeds_in(
            tokens.source(),
            tokens.offset(i),
            tokens.offset(j),
        ),
{
    assert(tokens.span_in_place(i));
    assert(tokens.span_in_place(j));
    if i < j {
        assert(tokens.end_offset(i) <= tokens.offset(j));
    }
    lemma_lines_count_line_feeds(tokens.source(), tokens.offset(i), tokens.offset(j));
}

} // verus!
