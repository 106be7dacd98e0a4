//! The scanning engine: it walks the source once, from the first byte to the
//! last, and appends what it finds to the token stream.

use vstd::prelude::*;
use vstd::string::*;
use vstd::utf8::*;

use crate::classes::{
    blank, byte_at, digit, ident_start, is_ascii_byte, is_blank, is_digit, is_ident_start,
    lemma_run_end, pair_at, run_end, skip_run, starts_with_pair, ByteClass,
};
use crate::error::Failure;
use crate::grammar::{
    nothing, number_end, quoted_end, records, scan_interpolated, scan_unit, scan_units,
    segment_end, single, tokenize, word_kind, Lexeme, Scanned,
};
use crate::laws::{
    lemma_interpolated_advances, lemma_records_make_stream, lemma_unit_advances,
    lemma_unit_behind_blank, lemma_units_advance,
};
use crate::position::{
    col_at, lemma_line_start_bound, lemma_newline_count_bound, lemma_newline_offsets_prefix,
    lemma_unbroken_keeps_line, line_at, line_start_at, newline_offsets, unbroken, NEWLINE,
};
use crate::tables::{
    digraph, lemma_digraph_bytes, lemma_group_close, lemma_punctuation_byte, match_digraph,
    match_group, match_keyword, match_punctuation, punctuation, Group,
};
use crate::text::{beside_ascii, lemma_boundary_beside_ascii, substring};
pub use crate::error::{LexError, LexErrorKind};
pub use crate::position::Cursor;
pub use crate::token::{TokenSpan, TokenType, Tokens};

use crate::token::Record;

verus! {

/// What one call of [`consume_token`] did.
#[derive(Debug, Clone, Copy, PartialEq, Eq, Structural)]
pub enum Step {
    /// No token was appended: the white space at the cursor reached the end
    /// of the source, or a comment stood behind it.
    Progress,
    /// This many tokens were appended to the stream.
    TokensEmitted(usize),
}

/// The step that appends `count` tokens.
pub open spec fn step_of(count: nat) -> Step {
    if count == 0 {
        Step::Progress
    } else {
        Step::TokensEmitted(count as usize)
    }
}

impl Cursor {
    /// Cursor and stream agree with the source up to the cursor: the cursor
    /// stands within the source and knows where its line began, and the stream
    /// has recorded the line feeds before the cursor and no others.
    pub open spec fn tracks(&self, tokens: &Tokens) -> bool {
        let s = tokens.source();
        &&& self.pos <= s.len() <= usize::MAX
        &&& self.line_start == line_start_at(s, self.pos as int)
        &&& tokens.line_breaks@ == newline_offsets(s, self.pos as int)
        &&& tokens.spans@.len() == tokens.types@.len()
    }
}

/// The scan went over `stretch`: the cursor stands at its end, and the stream
/// `after` is the stream `before` with the records of its lexemes appended.
pub open spec fn scanned(before: &Tokens, after: &Tokens, cursor: &Cursor, stretch: Scanned) -> bool {
    &&& after.code == before.code
    &&& cursor.tracks(after)
    &&& cursor.pos == stretch.end
    &&& after@ == before@ + records(before.source(), stretch.lexemes)
}

/// The scan moved without a token: the cursor stands at `end`, the tokens of
/// the stream are as they were.
pub open spec fn passed(before: &Tokens, after: &Tokens, cursor: &Cursor, end: int) -> bool {
    &&& after.code == before.code
    &&& after@ == before@
    &&& cursor.tracks(after)
    &&& cursor.pos == end
}

/// The stream `after` is of the same source as `before` and begins with the
/// tokens of `before`, unchanged.
pub open spec fn keeps(before: &Tokens, after: &Tokens) -> bool {
    &&& after.code == before.code
    &&& before@.len() <= after@.len()
    &&& forall|i: int| 0 <= i < before@.len() ==> #[trigger] after@[i] == before@[i]
}

/// The scan gave up between `start` and `cursor`: the stream still begins
/// with the tokens that it had, and cursor and stream still agree with the
/// source up to where the cursor stands.
pub open spec fn halted(before: &Tokens, after: &Tokens, start: &Cursor, cursor: &Cursor) -> bool {
    &&& keeps(before, after)
    &&& cursor.tracks(after)
    &&& start.pos <= cursor.pos
}

/// The scan that began at `start` failed with `fail`, and `e` is the error for
/// it. The stream keeps what it had. Where the failure is a byte that begins no
/// token, right behind the white space at `start`, nothing but that white
/// space was passed: the cursor stands at the byte and no token was appended.
pub open spec fn failed(
    before: &Tokens,
    after: &Tokens,
    start: &Cursor,
    cursor: &Cursor,
    file: Seq<char>,
    e: LexError,
    fail: Failure,
) -> bool {
    &&& e.reports(file, before.source(), fail)
    &&& halted(before, after, start, cursor)
    &&& fail.kind == LexErrorKind::UnrecognizedToken && fail.at == run_end(
        before.source(),
        start.pos as int,
        ByteClass::Blank,
    ) ==> passed(before, after, cursor, fail.at)
}

/// A scan that gave up has recorded no line break anew and dropped none: the
/// line breaks that the stream had are the first of those that it has.
pub proof fn lemma_halted_keeps_line_breaks(
    before: &Tokens,
    after: &Tokens,
    start: &Cursor,
    cursor: &Cursor,
)
    requires
        start.tracks(before),
        halted(before, after, start, cursor),
    ensures
        before.line_breaks@.len() <= after.line_breaks@.len(),
        forall|k: int|
            0 <= k < before.line_breaks@.len() ==> #[trigger] after.line_breaks@[k]
                == before.line_breaks@[k],
{
    lemma_newline_offsets_prefix(before.source(), start.pos as int, cursor.pos as int);
}

/// The records of lexemes that follow each other are the records of the first
/// followed by those of the others.
proof fn lemma_records_concat(s: Seq<u8>, a: Seq<Lexeme>, b: Seq<Lexeme>)
    ensures
        records(s, a + b) == records(s, a) + records(s, b),
{
    assert(records(s, a + b) =~= records(s, a) + records(s, b));
}

/// Line and column of the cursor.
fn here(cursor: &Cursor, tokens: &Tokens) -> (at: (usize, usize))
    requires
        cursor.tracks(tokens),
        cursor.pos < tokens.source().len(),
    ensures
        at.0 == line_at(tokens.source(), cursor.pos as int),
        at.1 == col_at(tokens.source(), cursor.pos as int),
{
    proof {
        lemma_newline_count_bound(tokens.source(), cursor.pos as int);
        lemma_line_start_bound(tokens.source(), cursor.pos as int);
    }
    (tokens.line_breaks.len() + 1, cursor.pos - cursor.line_start)
}

/// The error of kind `kind` at the given line and column of the file.
fn failure(file_name: &str, kind: LexErrorKind, line: usize, col: usize) -> (e: LexError)
    ensures
        e.file@ == file_name@,
        e.kind == kind,
        e.line == line,
        e.col == col,
{
    LexError { file: file_name.to_owned(), line, col, kind }
}

/// Appends the token of kind `kind` whose text lies from `start` to `end`.
fn emit<'a>(
    tokens: &mut Tokens<'a>,
    kind: TokenType,
    start: usize,
    end: usize,
    line: usize,
    col: usize,
)
    requires
        start <= end <= old(tokens).source().len(),
        beside_ascii(old(tokens).source(), start as int),
        beside_ascii(old(tokens).source(), end as int),
        line == line_at(old(tokens).source(), start as int),
        col == col_at(old(tokens).source(), start as int),
        old(tokens).spans@.len() == old(tokens).types@.len(),
    ensures
        final(tokens).code == old(tokens).code,
        final(tokens).line_breaks == old(tokens).line_breaks,
        final(tokens).spans@.len() == final(tokens).types@.len(),
        final(tokens)@ == old(tokens)@ + records(
            old(tokens).source(),
            seq![Lexeme { kind, start: start as int, end: end as int }],
        ),
{
    proof {
        encode_utf8_valid_utf8(tokens.code@);
        lemma_boundary_beside_ascii(tokens.source(), start as int);
        lemma_boundary_beside_ascii(tokens.source(), end as int);
    }
    let slice = substring(tokens.code, start, end);
    tokens.spans.push(TokenSpan::new(slice, line, col));
    tokens.types.push(kind);
    assert(tokens@ =~= old(tokens)@ + records(
        old(tokens).source(),
        seq![Lexeme { kind, start: start as int, end: end as int }],
    ));
}

/// Moves the cursor over one byte, and records the byte if it is a line feed.
fn step_over(cursor: &mut Cursor, tokens: &mut Tokens)
    requires
        old(cursor).tracks(old(tokens)),
        old(cursor).pos < old(tokens).source().len(),
    ensures
        passed(old(tokens), final(tokens), final(cursor), old(cursor).pos + 1),
{
    let bytes = tokens.code.as_bytes();
    if bytes[cursor.pos] == NEWLINE {
        tokens.line_breaks.push(cursor.pos);
        cursor.pos = cursor.pos + 1;
        cursor.line_start = cursor.pos;
    } else {
        cursor.pos = cursor.pos + 1;
    }
    assert(tokens@ =~= old(tokens)@);
}

/// Moves the cursor to `to` over bytes none of which is a line feed.
fn jump(cursor: &mut Cursor, tokens: &Tokens, to: usize)
    requires
        old(cursor).tracks(tokens),
        old(cursor).pos <= to <= tokens.source().len(),
        unbroken(tokens.source(), old(cursor).pos as int, to as int),
    ensures
        final(cursor).tracks(tokens),
        final(cursor).pos == to,
{
    proof {
        lemma_unbroken_keeps_line(tokens.source(), cursor.pos as int, to as int);
    }
    cursor.pos = to;
}

/// Passes the run of white space at the cursor.
fn skip_blank(cursor: &mut Cursor, tokens: &mut Tokens)
    requires
        old(cursor).tracks(old(tokens)),
    ensures
        passed(
            old(tokens),
            final(tokens),
            final(cursor),
            run_end(old(tokens).source(), old(cursor).pos as int, ByteClass::Blank),
        ),
{
    let bytes = tokens.code.as_bytes();
    while cursor.pos < bytes.len() && blank(bytes[cursor.pos])
        invariant
            bytes@ == tokens.source(),
            passed(old(tokens), tokens, cursor, cursor.pos as int),
            run_end(tokens.source(), cursor.pos as int, ByteClass::Blank) == run_end(
                tokens.source(),
                old(cursor).pos as int,
                ByteClass::Blank,
            ),
        decreases bytes@.len() - cursor.pos,
    {
        step_over(cursor, tokens);
    }
}

/// Passes the line comment at the cursor, up to its line feed.
fn skip_comment(cursor: &mut Cursor, tokens: &Tokens)
    requires
        old(cursor).tracks(tokens),
        pair_at(tokens.source(), old(cursor).pos as int, '/', '/'),
    ensures
        final(cursor).tracks(tokens),
        final(cursor).pos == run_end(
            tokens.source(),
            old(cursor).pos + 2,
            ByteClass::CommentBody,
        ),
{
    let bytes = tokens.code.as_bytes();
    let end = skip_run(bytes, cursor.pos + 2, ByteClass::CommentBody);
    proof {
        lemma_run_end(bytes@, cursor.pos + 2, ByteClass::CommentBody);
    }
    jump(cursor, tokens, end);
}

/// Reads the body of a string or character literal whose first byte is at the
/// cursor and whose body begins `prefix` bytes later, and appends its token.
fn consume_quoted<'a>(
    file_name: &str,
    cursor: &mut Cursor,
    tokens: &mut Tokens<'a>,
    prefix: usize,
    quote: u8,
    kind: TokenType,
    unterminated: LexErrorKind,
) -> (r: Result<Step, LexError>)
    requires
        old(cursor).tracks(old(tokens)),
        1 <= prefix,
        old(cursor).pos + prefix <= old(tokens).source().len(),
        forall|i: int|
            old(cursor).pos <= i < old(cursor).pos + prefix ==> is_ascii_byte(
                #[trigger] old(tokens).source()[i],
            ) && old(tokens).source()[i] != NEWLINE,
        is_ascii_byte(quote),
        quote != NEWLINE,
    ensures
        match quoted_end(old(tokens).source(), old(cursor).pos + prefix, quote) {
            Some(end) => r == Ok::<Step, LexError>(Step::TokensEmitted(1)) && scanned(
                old(tokens),
                final(tokens),
                final(cursor),
                single(kind, old(cursor).pos as int, end),
            ) && old(cursor).pos < final(cursor).pos,
            None => r matches Err(e) && e.reports(
                file_name@,
                old(tokens).source(),
                Failure { kind: unterminated, at: old(cursor).pos as int },
            ) && halted(old(tokens), final(tokens), old(cursor), final(cursor)),
        },
{
    let bytes = tokens.code.as_bytes();
    let ghost s = tokens.source();
    let start = cursor.pos;
    let (line, col) = here(cursor, tokens);
    jump(cursor, tokens, start + prefix);
    loop
        invariant
            bytes@ == s,
            s == old(tokens).source(),
            start == old(cursor).pos,
            start < s.len(),
            is_ascii_byte(s[start as int]),
            is_ascii_byte(quote),
            quote != NEWLINE,
            line == line_at(s, start as int),
            col == col_at(s, start as int),
            start < cursor.pos,
            passed(old(tokens), tokens, cursor, cursor.pos as int),
            quoted_end(s, cursor.pos as int, quote) == quoted_end(s, start + prefix, quote),
        decreases s.len() - cursor.pos,
    {
        if cursor.pos >= bytes.len() {
            return Err(failure(file_name, unterminated, line, col));
        }
        let b = bytes[cursor.pos];
        if b == '\\' as u8 && cursor.pos + 1 < bytes.len() && bytes[cursor.pos + 1] == quote {
            jump(cursor, tokens, cursor.pos + 2);
        } else if b == quote {
            jump(cursor, tokens, cursor.pos + 1);
            emit(tokens, kind, start, cursor.pos, line, col);
            return Ok(Step::TokensEmitted(1));
        } else {
            step_over(cursor, tokens);
        }
    }
}

/// Reads the identifier or keyword at the cursor and appends its token.
fn consume_word<'a>(cursor: &mut Cursor, tokens: &mut Tokens<'a>)
    requires
        old(cursor).tracks(old(tokens)),
        old(cursor).pos < old(tokens).source().len(),
        is_ident_start(old(tokens).source()[old(cursor).pos as int]),
    ensures
        old(cursor).pos < final(cursor).pos,
        ({
            let s = old(tokens).source();
            let start = old(cursor).pos as int;
            let end = run_end(s, start + 1, ByteClass::IdentPart);
            scanned(
                old(tokens),
                final(tokens),
                final(cursor),
                single(word_kind(s.subrange(start, end)), start, end),
            )
        }),
{
    let bytes = tokens.code.as_bytes();
    let ghost s = tokens.source();
    let start = cursor.pos;
    let (line, col) = here(cursor, tokens);
    let end = skip_run(bytes, start + 1, ByteClass::IdentPart);
    let kind = match match_keyword(bytes, start, end) {
        Some(kind) => kind,
        None => TokenType::Ident,
    };
    proof {
        lemma_run_end(s, start + 1, ByteClass::IdentPart);
    }
    jump(cursor, tokens, end);
    emit(tokens, kind, start, end, line, col);
}

/// Finds the end of the numeric literal that begins at `start`.
fn find_number_end(bytes: &[u8], start: usize) -> (end: usize)
    requires
        start < bytes@.len(),
        is_digit(bytes@[start as int]),
    ensures
        end == number_end(bytes@, start as int),
        start < end <= bytes@.len(),
        forall|i: int|
            start <= i < end ==> is_ascii_byte(#[trigger] bytes@[i]) && bytes@[i] != NEWLINE,
{
    let ghost s = bytes@;
    assert(s.len() == bytes.len());
    if starts_with_pair(bytes, start, '0', 'x') {
        proof {
            lemma_run_end(s, start + 2, ByteClass::Hex);
        }
        skip_run(bytes, start + 2, ByteClass::Hex)
    } else if starts_with_pair(bytes, start, '0', 'o') {
        proof {
            lemma_run_end(s, start + 2, ByteClass::Octal);
        }
        skip_run(bytes, start + 2, ByteClass::Octal)
    } else if starts_with_pair(bytes, start, '0', 'b') {
        proof {
            lemma_run_end(s, start + 2, ByteClass::Binary);
        }
        skip_run(bytes, start + 2, ByteClass::Binary)
    } else {
        let whole = skip_run(bytes, start + 1, ByteClass::Decimal);
        proof {
            lemma_run_end(s, start + 1, ByteClass::Decimal);
        }
        let fraction = if whole < bytes.len() && bytes[whole] == '.' as u8 {
            proof {
                lemma_run_end(s, whole + 1, ByteClass::Decimal);
            }
            skip_run(bytes, whole + 1, ByteClass::Decimal)
        } else {
            whole
        };
        if fraction < bytes.len() && (bytes[fraction] == 'e' as u8 || bytes[fraction] == 'E' as u8) {
            let signed = fraction + 1 < bytes.len() && (bytes[fraction + 1] == '+' as u8
                || bytes[fraction + 1] == '-' as u8);
            let digits = if signed {
                fraction + 2
            } else {
                fraction + 1
            };
            proof {
                lemma_run_end(s, digits as int, ByteClass::Decimal);
            }
            skip_run(bytes, digits, ByteClass::Decimal)
        } else {
            fraction
        }
    }
}

/// Reads the numeric literal at the cursor and appends its token.
fn consume_number<'a>(cursor: &mut Cursor, tokens: &mut Tokens<'a>)
    requires
        old(cursor).tracks(old(tokens)),
        old(cursor).pos < old(tokens).source().len(),
        is_digit(old(tokens).source()[old(cursor).pos as int]),
    ensures
        old(cursor).pos < final(cursor).pos,
        scanned(
            old(tokens),
            final(tokens),
            final(cursor),
            single(
                TokenType::Num,
                old(cursor).pos as int,
                number_end(old(tokens).source(), old(cursor).pos as int),
            ),
        ),
{
    let bytes = tokens.code.as_bytes();
    let ghost s = tokens.source();
    let start = cursor.pos;
    let (line, col) = here(cursor, tokens);
    let end = find_number_end(bytes, start);
    jump(cursor, tokens, end);
    emit(tokens, TokenType::Num, start, end, line, col);
}

/// Moves the cursor to the end of the segment of an interpolated string that
/// it stands in, and tells whether the segment ends before the source does.
fn skip_segment(cursor: &mut Cursor, tokens: &mut Tokens) -> (found: bool)
    requires
        old(cursor).tracks(old(tokens)),
    ensures
        passed(old(tokens), final(tokens), final(cursor), final(cursor).pos as int),
        old(cursor).pos <= final(cursor).pos,
        match segment_end(old(tokens).source(), old(cursor).pos as int) {
            Some(stop) => found && final(cursor).pos == stop && stop < old(tokens).source().len()
                && (byte_at(old(tokens).source(), stop, '"') || byte_at(
                old(tokens).source(),
                stop,
                '{',
            )),
            None => !found,
        },
{
    let bytes = tokens.code.as_bytes();
    let ghost s = tokens.source();
    loop
        invariant
            bytes@ == s,
            s == old(tokens).source(),
            old(cursor).pos <= cursor.pos,
            passed(old(tokens), tokens, cursor, cursor.pos as int),
            segment_end(s, cursor.pos as int) == segment_end(s, old(cursor).pos as int),
        decreases s.len() - cursor.pos,
    {
        if cursor.pos >= bytes.len() {
            return false;
        }
        let b = bytes[cursor.pos];
        if b == '\\' as u8 && cursor.pos + 1 < bytes.len() && (bytes[cursor.pos + 1] == '"' as u8
            || bytes[cursor.pos + 1] == '{' as u8) {
            jump(cursor, tokens, cursor.pos + 2);
        } else if b == '"' as u8 || b == '{' as u8 {
            return true;
        } else {
            step_over(cursor, tokens);
        }
    }
}

/// Reads an interpolated string whose `$"` the cursor has just passed, with
/// every token of every interpolation in it. `line` and `col` are those of
/// the `$`.
fn consume_interpolated<'a>(
    file_name: &str,
    cursor: &mut Cursor,
    tokens: &mut Tokens<'a>,
    line: usize,
    col: usize,
) -> (r: Result<Step, LexError>)
    requires
        old(cursor).tracks(old(tokens)),
        pair_at(old(tokens).source(), old(cursor).pos - 2, '$', '"'),
        line == line_at(old(tokens).source(), old(cursor).pos - 2),
        col == col_at(old(tokens).source(), old(cursor).pos - 2),
    ensures
        match scan_interpolated(
            old(tokens).source(),
            old(cursor).pos as int,
            old(cursor).pos - 2,
            true,
        ) {
            Ok(whole) => r == Ok::<Step, LexError>(step_of(whole.lexemes.len())) && scanned(
                old(tokens),
                final(tokens),
                final(cursor),
                whole,
            ) && old(cursor).pos < final(cursor).pos,
            Err(fail) => r matches Err(e) && e.reports(file_name@, old(tokens).source(), fail)
                && halted(old(tokens), final(tokens), old(cursor), final(cursor)),
        },
    decreases old(tokens).source().len() - old(cursor).pos, 7int,
{
    let bytes = tokens.code.as_bytes();
    let ghost s = tokens.source();
    let ghost goal = scan_interpolated(s, cursor.pos as int, cursor.pos - 2, true);
    let ghost mut done: Seq<Lexeme> = Seq::empty();
    let ghost mut origin: int = cursor.pos - 2;
    let before = tokens.spans.len();
    let mut origin_line = line;
    let mut origin_col = col;
    let mut first = true;
    assert(tokens@ + records(s, done) =~= tokens@);
    loop
        invariant
            bytes@ == s,
            s == old(tokens).source(),
            tokens.code == old(tokens).code,
            cursor.tracks(tokens),
            old(cursor).pos <= cursor.pos,
            1 <= cursor.pos,
            is_ascii_byte(s[cursor.pos - 1]),
            before == old(tokens).spans@.len(),
            tokens@ == old(tokens)@ + records(s, done),
            first <==> done.len() == 0,
            origin_line == line_at(s, origin),
            origin_col == col_at(s, origin),
            goal == scan_interpolated(s, old(cursor).pos as int, old(cursor).pos - 2, true),
            goal == match scan_interpolated(s, cursor.pos as int, origin, first) {
                Ok(rest) => Ok::<Scanned, Failure>(
                    Scanned { lexemes: done + rest.lexemes, end: rest.end },
                ),
                Err(fail) => Err(fail),
            },
        decreases s.len() - cursor.pos,
    {
        let from = cursor.pos;
        if from >= bytes.len() {
            return Err(
                failure(
                    file_name,
                    LexErrorKind::UnterminatedInterpolatedString,
                    origin_line,
                    origin_col,
                ),
            );
        }
        let (segment_line, segment_col) = here(cursor, tokens);
        if !skip_segment(cursor, tokens) {
            return Err(
                failure(
                    file_name,
                    LexErrorKind::UnterminatedInterpolatedString,
                    origin_line,
                    origin_col,
                ),
            );
        }
        let stop = cursor.pos;
        let last = bytes[stop] == '"' as u8;
        let kind = if first && last {
            TokenType::String
        } else if first {
            TokenType::StringInterpBeg
        } else if last {
            TokenType::StringInterpEnd
        } else {
            TokenType::StringInterpMid
        };
        let ghost segment = Lexeme { kind, start: from as int, end: stop as int };
        jump(cursor, tokens, stop + 1);
        emit(tokens, kind, from, stop, segment_line, segment_col);
        proof {
            lemma_records_concat(s, done, seq![segment]);
            assert(tokens@ =~= old(tokens)@ + records(s, done + seq![segment]));
            assert(tokens@.len() == old(tokens)@.len() + done.len() + 1);
        }
        if last {
            assert(goal == Ok::<Scanned, Failure>(
                Scanned { lexemes: done + seq![segment], end: stop + 1 },
            ));
            return Ok(Step::TokensEmitted(tokens.spans.len() - before));
        }
        match consume_until(file_name, cursor, tokens, Some('}' as u8)) {
            Err(e) => {
                return Err(e);
            },
            Ok(()) => {},
        }
        if cursor.pos >= bytes.len() {
            return Err(
                failure(
                    file_name,
                    LexErrorKind::UnterminatedInterpolatedString,
                    origin_line,
                    origin_col,
                ),
            );
        }
        let (close_line, close_col) = here(cursor, tokens);
        proof {
            let inner = scan_units(s, stop + 1, Some('}' as u8))->Ok_0;
            lemma_records_concat(s, done + seq![segment], inner.lexemes);
            match scan_interpolated(s, inner.end + 1, inner.end, false) {
                Ok(rest) => {
                    assert((done + seq![segment] + inner.lexemes) + rest.lexemes =~= done + (
                    seq![segment] + inner.lexemes + rest.lexemes));
                },
                Err(fail) => {},
            }
            done = done + seq![segment] + inner.lexemes;
            origin = cursor.pos as int;
        }
        origin_line = close_line;
        origin_col = close_col;
        first = false;
        jump(cursor, tokens, cursor.pos + 1);
    }
}

/// Reads what follows the opening token of a group up to and with the byte
/// that closes the group. `line` and `col` are those of the opening byte, which
/// the cursor has just passed.
fn consume_group<'a>(
    file_name: &str,
    cursor: &mut Cursor,
    tokens: &mut Tokens<'a>,
    group: Group,
    line: usize,
    col: usize,
) -> (r: Result<(), LexError>)
    requires
        old(cursor).tracks(old(tokens)),
        1 <= old(cursor).pos,
        line == line_at(old(tokens).source(), old(cursor).pos - 1),
        col == col_at(old(tokens).source(), old(cursor).pos - 1),
        is_ascii_byte(group.close),
        group.close != NEWLINE,
    ensures
        match scan_units(old(tokens).source(), old(cursor).pos as int, Some(group.close)) {
            Err(fail) => r matches Err(e) && e.reports(file_name@, old(tokens).source(), fail)
                && halted(old(tokens), final(tokens), old(cursor), final(cursor)),
            Ok(inner) => if inner.end >= old(tokens).source().len() {
                r matches Err(e) && e.reports(
                    file_name@,
                    old(tokens).source(),
                    Failure { kind: group.unclosed, at: old(cursor).pos - 1 },
                ) && halted(old(tokens), final(tokens), old(cursor), final(cursor))
            } else {
                r is Ok && old(cursor).pos < final(cursor).pos && scanned(
                    old(tokens),
                    final(tokens),
                    final(cursor),
                    Scanned {
                        lexemes: inner.lexemes + seq![
                            Lexeme { kind: group.closed_by, start: inner.end, end: inner.end + 1 },
                        ],
                        end: inner.end + 1,
                    },
                )
            },
        },
    decreases old(tokens).source().len() - old(cursor).pos, 7int,
{
    let bytes = tokens.code.as_bytes();
    let ghost s = tokens.source();
    match consume_until(file_name, cursor, tokens, Some(group.close)) {
        Err(e) => {
            return Err(e);
        },
        Ok(()) => {},
    }
    if cursor.pos >= bytes.len() {
        return Err(failure(file_name, group.unclosed, line, col));
    }
    let close_at = cursor.pos;
    let (close_line, close_col) = here(cursor, tokens);
    proof {
        let inner = scan_units(s, old(cursor).pos as int, Some(group.close))->Ok_0;
        lemma_records_concat(
            s,
            inner.lexemes,
            seq![Lexeme { kind: group.closed_by, start: inner.end, end: inner.end + 1 }],
        );
    }
    jump(cursor, tokens, close_at + 1);
    emit(tokens, group.closed_by, close_at, close_at + 1, close_line, close_col);
    proof {
        let inner = scan_units(s, old(cursor).pos as int, Some(group.close))->Ok_0;
        let closing = seq![Lexeme { kind: group.closed_by, start: inner.end, end: inner.end + 1 }];
        assert(tokens@ =~= old(tokens)@ + records(s, inner.lexemes + closing));
    }
    Ok(())
}

/// Reads the token at the cursor where neither white space, a comment nor an
/// operator begins: a literal, an identifier or keyword, or a number. Any other
/// byte is an error.
fn consume_operand<'a>(file_name: &str, cursor: &mut Cursor, tokens: &mut Tokens<'a>) -> (r:
    Result<Step, LexError>)
    requires
        old(cursor).tracks(old(tokens)),
        old(cursor).pos < old(tokens).source().len(),
        ({
            let s = old(tokens).source();
            let pos = old(cursor).pos as int;
            &&& !is_blank(s[pos])
            &&& !pair_at(s, pos, '/', '/')
            &&& !(pos + 1 < s.len() && digraph(s[pos], s[pos + 1]) is Some)
            &&& punctuation(s[pos]) is None
        }),
    ensures
        match scan_unit(old(tokens).source(), old(cursor).pos as int) {
            Ok(unit) => r == Ok::<Step, LexError>(step_of(unit.lexemes.len())) && scanned(
                old(tokens),
                final(tokens),
                final(cursor),
                unit,
            ) && old(cursor).pos < final(cursor).pos,
            Err(fail) => r matches Err(e) && failed(
                old(tokens),
                final(tokens),
                old(cursor),
                final(cursor),
                file_name@,
                e,
                fail,
            ),
        },
    decreases old(tokens).source().len() - old(cursor).pos, 0int,
{
    let bytes = tokens.code.as_bytes();
    let ghost s = tokens.source();
    let start = cursor.pos;
    let b = bytes[start];
    if starts_with_pair(bytes, start, '$', '"') {
        let (line, col) = here(cursor, tokens);
        proof {
            lemma_interpolated_advances(s, start + 2, start as int, true);
        }
        jump(cursor, tokens, start + 2);
        return consume_interpolated(file_name, cursor, tokens, line, col);
    }
    let string_opens: usize = if starts_with_pair(bytes, start, 'b', '"') || starts_with_pair(
        bytes,
        start,
        'c',
        '"',
    ) {
        2
    } else if b == '"' as u8 {
        1
    } else {
        0
    };
    if string_opens > 0 {
        return consume_quoted(
            file_name,
            cursor,
            tokens,
            string_opens,
            '"' as u8,
            TokenType::String,
            LexErrorKind::UnterminatedString,
        );
    }
    let char_opens: usize = if starts_with_pair(bytes, start, 'b', '\'') {
        2
    } else if b == '\'' as u8 {
        1
    } else {
        0
    };
    if char_opens > 0 {
        return consume_quoted(
            file_name,
            cursor,
            tokens,
            char_opens,
            '\'' as u8,
            TokenType::Char,
            LexErrorKind::UnterminatedChar,
        );
    }
    if ident_start(b) {
        consume_word(cursor, tokens);
        return Ok(Step::TokensEmitted(1));
    }
    if digit(b) {
        consume_number(cursor, tokens);
        return Ok(Step::TokensEmitted(1));
    }
    let (line, col) = here(cursor, tokens);
    Err(failure(file_name, LexErrorKind::UnrecognizedToken, line, col))
}

/// Reads the operator or punctuation mark of kind `kind` at the cursor, and
/// with it the whole group where it opens one.
fn consume_operator<'a>(
    file_name: &str,
    cursor: &mut Cursor,
    tokens: &mut Tokens<'a>,
    kind: TokenType,
) -> (r: Result<Step, LexError>)
    requires
        old(cursor).tracks(old(tokens)),
        old(cursor).pos < old(tokens).source().len(),
        ({
            let s = old(tokens).source();
            let pos = old(cursor).pos as int;
            &&& !is_blank(s[pos])
            &&& !pair_at(s, pos, '/', '/')
            &&& !(pos + 1 < s.len() && digraph(s[pos], s[pos + 1]) is Some)
            &&& punctuation(s[pos]) == Some(kind)
        }),
    ensures
        match scan_unit(old(tokens).source(), old(cursor).pos as int) {
            Ok(unit) => r == Ok::<Step, LexError>(step_of(unit.lexemes.len())) && scanned(
                old(tokens),
                final(tokens),
                final(cursor),
                unit,
            ) && old(cursor).pos < final(cursor).pos,
            Err(fail) => r matches Err(e) && failed(
                old(tokens),
                final(tokens),
                old(cursor),
                final(cursor),
                file_name@,
                e,
                fail,
            ),
        },
    decreases old(tokens).source().len() - old(cursor).pos, 4int,
{
    let ghost s = tokens.source();
    let start = cursor.pos;
    let (line, col) = here(cursor, tokens);
    let before = tokens.spans.len();
    proof {
        lemma_punctuation_byte(s[start as int]);
    }
    jump(cursor, tokens, start + 1);
    emit(tokens, kind, start, start + 1, line, col);
    match match_group(kind) {
        None => Ok(Step::TokensEmitted(1)),
        Some(group) => {
            proof {
                lemma_group_close(kind);
                lemma_units_advance(s, start + 1, Some(group.close));
                lemma_run_end(s, start + 1, ByteClass::Blank);
            }
            match consume_group(file_name, cursor, tokens, group, line, col) {
                Err(e) => Err(e),
                Ok(()) => {
                    proof {
                        let inner = scan_units(s, start + 1, Some(group.close))->Ok_0;
                        let opening = seq![Lexeme { kind, start: start as int, end: start + 1 }];
                        let closing = seq![
                            Lexeme { kind: group.closed_by, start: inner.end, end: inner.end + 1 },
                        ];
                        lemma_records_concat(s, opening, inner.lexemes + closing);
                        assert(opening + (inner.lexemes + closing) =~= opening + inner.lexemes
                            + closing);
                        assert(tokens@ =~= old(tokens)@ + records(
                            s,
                            opening + inner.lexemes + closing,
                        ));
                    }
                    Ok(Step::TokensEmitted(tokens.spans.len() - before))
                },
            }
        },
    }
}

/// Consumes one unit of the source at the cursor: the white space there, if
/// any, and behind it a comment, one token, or a group or an interpolated
/// string with all that is nested in it. At the end of the source it does
/// nothing.
///
/// What a unit is, and which error ends it, is what [`scan_unit`] says. On
/// success the cursor stands past the unit and the unit's tokens are appended
/// to the stream in source order, the line feeds that were passed recorded.
/// The step is [`Step::Progress`] where the unit held no token: white space
/// up to the end of the source, or a comment. On failure the stream keeps the
/// tokens that it had, see [`failed`].
pub fn consume_token<'a>(file_name: &str, cursor: &mut Cursor, tokens: &mut Tokens<'a>) -> (r:
    Result<Step, LexError>)
    requires
        old(cursor).tracks(old(tokens)),
    ensures
        match scan_unit(old(tokens).source(), old(cursor).pos as int) {
            Ok(unit) => {
                &&& r == Ok::<Step, LexError>(step_of(unit.lexemes.len()))
                &&& scanned(old(tokens), final(tokens), final(cursor), unit)
                &&& old(cursor).pos < old(tokens).source().len() ==> old(cursor).pos
                    < final(cursor).pos
            },
            Err(fail) => r matches Err(e) && failed(
                old(tokens),
                final(tokens),
                old(cursor),
                final(cursor),
                file_name@,
                e,
                fail,
            ),
        },
    decreases old(tokens).source().len() - old(cursor).pos, 5int,
{
    let bytes = tokens.code.as_bytes();
    let ghost s = tokens.source();
    proof {
        lemma_run_end(s, cursor.pos as int, ByteClass::Blank);
        lemma_unit_behind_blank(s, cursor.pos as int);
    }
    skip_blank(cursor, tokens);
    let start = cursor.pos;
    if start >= bytes.len() {
        assert(tokens@ + records(s, Seq::<Lexeme>::empty()) =~= tokens@);
        return Ok(Step::Progress);
    }
    let b = bytes[start];
    if starts_with_pair(bytes, start, '/', '/') {
        skip_comment(cursor, tokens);
        proof {
            lemma_run_end(s, start + 2, ByteClass::CommentBody);
            assert(tokens@ + records(s, Seq::<Lexeme>::empty()) =~= tokens@);
        }
        return Ok(Step::Progress);
    }
    if start + 1 < bytes.len() {
        if let Some(kind) = match_digraph(b, bytes[start + 1]) {
            let (line, col) = here(cursor, tokens);
            proof {
                lemma_digraph_bytes(b, bytes[start + 1]);
            }
            jump(cursor, tokens, start + 2);
            emit(tokens, kind, start, start + 2, line, col);
            return Ok(Step::TokensEmitted(1));
        }
    }
    if let Some(kind) = match_punctuation(b) {
        return consume_operator(file_name, cursor, tokens, kind);
    }
    consume_operand(file_name, cursor, tokens)
}

/// Consumes units from the cursor on, up to the end of the source or up to
/// the byte `close`, where that byte is the first behind white space at which
/// a unit would begin. The white space before that byte is passed, the byte
/// is not. With `close` being `None` only the end of the source stops it.
///
/// The tokens of all the units are appended to the stream in source order, as
/// [`scan_units`] says; the first error ends the scan, and the stream keeps
/// the tokens of the units before it, see [`failed`].
pub fn consume_until<'a>(
    file_name: &str,
    cursor: &mut Cursor,
    tokens: &mut Tokens<'a>,
    close: Option<u8>,
) -> (r: Result<(), LexError>)
    requires
        old(cursor).tracks(old(tokens)),
    ensures
        match scan_units(old(tokens).source(), old(cursor).pos as int, close) {
            Ok(all) => {
                &&& r is Ok
                &&& scanned(old(tokens), final(tokens), final(cursor), all)
                &&& old(cursor).pos <= final(cursor).pos
                &&& final(cursor).pos < old(tokens).source().len() ==> close == Some(
                    old(tokens).source()[final(cursor).pos as int],
                )
            },
            Err(fail) => r matches Err(e) && failed(
                old(tokens),
                final(tokens),
                old(cursor),
                final(cursor),
                file_name@,
                e,
                fail,
            ),
        },
    decreases old(tokens).source().len() - old(cursor).pos, 6int,
{
    let bytes = tokens.code.as_bytes();
    let ghost s = tokens.source();
    let ghost goal = scan_units(s, cursor.pos as int, close);
    let ghost first_at = run_end(s, cursor.pos as int, ByteClass::Blank);
    let ghost mut done: Seq<Lexeme> = Seq::empty();
    assert(tokens@ + records(s, done) =~= tokens@);
    loop
        invariant
            bytes@ == s,
            s == old(tokens).source(),
            tokens.code == old(tokens).code,
            cursor.tracks(tokens),
            old(cursor).pos <= cursor.pos,
            first_at == run_end(s, old(cursor).pos as int, ByteClass::Blank),
            (cursor.pos == old(cursor).pos && done.len() == 0) || cursor.pos > first_at,
            tokens@ == old(tokens)@ + records(s, done),
            goal == scan_units(s, old(cursor).pos as int, close),
            goal == match scan_units(s, cursor.pos as int, close) {
                Ok(rest) => Ok::<Scanned, Failure>(
                    Scanned { lexemes: done + rest.lexemes, end: rest.end },
                ),
                Err(fail) => Err(fail),
            },
        decreases s.len() - cursor.pos,
    {
        if cursor.pos >= bytes.len() {
            assert(done + Seq::<Lexeme>::empty() =~= done);
            return Ok(());
        }
        let ghost head = cursor.pos as int;
        proof {
            lemma_run_end(s, head, ByteClass::Blank);
            lemma_unit_behind_blank(s, head);
        }
        skip_blank(cursor, tokens);
        if cursor.pos >= bytes.len() {
            assert(scan_unit(s, head) == Ok::<Scanned, Failure>(nothing(s.len() as int)));
            assert(scan_units(s, s.len() as int, close) == Ok::<Scanned, Failure>(
                nothing(s.len() as int),
            ));
            assert(done + (Seq::<Lexeme>::empty() + Seq::<Lexeme>::empty()) =~= done);
            return Ok(());
        }
        let closes = match close {
            Some(byte) => bytes[cursor.pos] == byte,
            None => false,
        };
        if closes {
            assert(done + Seq::<Lexeme>::empty() =~= done);
            return Ok(());
        }
        let ghost at = cursor.pos as int;
        proof {
            lemma_unit_advances(s, at);
            lemma_run_end(s, at, ByteClass::Blank);
        }
        match consume_token(file_name, cursor, tokens) {
            Err(e) => {
                return Err(e);
            },
            Ok(_) => {
                proof {
                    let unit = scan_unit(s, at)->Ok_0;
                    lemma_records_concat(s, done, unit.lexemes);
                    match scan_units(s, unit.end, close) {
                        Ok(rest) => {
                            assert((done + unit.lexemes) + rest.lexemes =~= done + (unit.lexemes
                                + rest.lexemes));
                        },
                        Err(fail) => {},
                    }
                    done = done + unit.lexemes;
                }
            },
        }
    }
}

/// Tokenizes the source text `code` of the file named `file_name`.
///
/// The result is the token stream of the whole text, or the first lexical
/// error, which names the file and the line and column that it is blamed on.
/// The file's name serves for that and nothing else.
pub fn lex<'a>(file_name: &str, code: &'a str) -> (r: Result<Tokens<'a>, LexError>)
    ensures
        match tokenize(code.spec_bytes()) {
            Ok(lexemes) => {
                &&& r matches Ok(tokens)
                &&& tokens.code == code
                &&& tokens@ == records(code.spec_bytes(), lexemes)
                &&& tokens.wf()
            },
            Err(fail) => r matches Err(e) && e.reports(file_name@, code.spec_bytes(), fail),
        },
{
    let mut tokens = Tokens::new(code);
    let mut cursor = Cursor::new();
    assert(tokens.line_breaks@ =~= newline_offsets(tokens.source(), 0));
    match consume_until(file_name, &mut cursor, &mut tokens, None) {
        Err(e) => Err(e),
        Ok(()) => {
            proof {
                let all = scan_units(code.spec_bytes(), 0, None)->Ok_0;
                assert(Seq::<Record>::empty() + records(code.spec_bytes(), all.lexemes)
                    =~= records(code.spec_bytes(), all.lexemes));
                lemma_units_advance(code.spec_bytes(), 0, None);
                lemma_records_make_stream(&tokens, all.lexemes);
            }
            Ok(tokens)
        },
    }
}

} // verus!
