//! The longest-match tables: operators of two bytes, operators and punctuation
//! of one byte, the delimiters that open a group, and the keywords.

use vstd::prelude::*;
use vstd::string::*;

use crate::classes::is_ascii_byte;
use crate::error::LexErrorKind;
use crate::position::NEWLINE;
use crate::token::TokenType;

verus! {

/// The operator that the two bytes `a`, `b` spell, if any. This table is asked
/// before [`punctuation`], so that `--` is never two `-`.
pub open spec fn digraph(a: u8, b: u8) -> Option<TokenType> {
    match (a as char, b as char) {
        ('=', '=') => Some(TokenType::Equals),
        ('!', '=') => Some(TokenType::NotEquals),
        ('<', '=') => Some(TokenType::LessEqual),
        ('>', '=') => Some(TokenType::GreaterEqual),
        ('>', '-') => Some(TokenType::Feather),
        ('-', '>') => Some(TokenType::Arrow),
        ('<', '<') => Some(TokenType::LShift),
        ('>', '>') => Some(TokenType::RShift),
        ('+', '+') => Some(TokenType::Incr),
        ('-', '-') => Some(TokenType::Decr),
        ('*', '*') => Some(TokenType::Pow),
        _ => None,
    }
}

/// Looks two bytes up in the table of two-byte operators.
pub fn match_digraph(a: u8, b: u8) -> (r: Option<TokenType>)
    ensures
        r == digraph(a, b),
{
    match (a as char, b as char) {
        ('=', '=') => Some(TokenType::Equals),
        ('!', '=') => Some(TokenType::NotEquals),
        ('<', '=') => Some(TokenType::LessEqual),
        ('>', '=') => Some(TokenType::GreaterEqual),
        ('>', '-') => Some(TokenType::Feather),
        ('-', '>') => Some(TokenType::Arrow),
        ('<', '<') => Some(TokenType::LShift),
        ('>', '>') => Some(TokenType::RShift),
        ('+', '+') => Some(TokenType::Incr),
        ('-', '-') => Some(TokenType::Decr),
        ('*', '*') => Some(TokenType::Pow),
        _ => None,
    }
}

/// The bytes of a two-byte operator are of the seven-bit range, and neither is
/// a line feed.
pub proof fn lemma_digraph_bytes(a: u8, b: u8)
    requires
        digraph(a, b) is Some,
    ensures
        is_ascii_byte(a),
        is_ascii_byte(b),
        a != NEWLINE,
        b != NEWLINE,
{
}

/// The operator or punctuation mark that the byte `b` spells, if any.
pub open spec fn punctuation(b: u8) -> Option<TokenType> {
    match b as char {
        '%' => Some(TokenType::Modulo),
        '<' => Some(TokenType::LessThan),
        '>' => Some(TokenType::GreaterThan),
        '&' => Some(TokenType::Ampersand),
        '|' => Some(TokenType::Pipe),
        '^' => Some(TokenType::Caret),
        '~' => Some(TokenType::Tilde),
        '+' => Some(TokenType::Plus),
        '-' => Some(TokenType::Minus),
        '*' => Some(TokenType::Mul),
        '/' => Some(TokenType::Div),
        '=' => Some(TokenType::Equal),
        ';' => Some(TokenType::Semi),
        ':' => Some(TokenType::Colon),
        ',' => Some(TokenType::Comma),
        '.' => Some(TokenType::Dot),
        '(' => Some(TokenType::LParens),
        ')' => Some(TokenType::RParens),
        '[' => Some(TokenType::LBracket),
        ']' => Some(TokenType::RBracket),
        '{' => Some(TokenType::LBrace),
        '}' => Some(TokenType::RBrace),
        _ => None,
    }
}

/// Looks a byte up in the table of one-byte operators and punctuation.
pub fn match_punctuation(b: u8) -> (r: Option<TokenType>)
    ensures
        r == punctuation(b),
{
    match b as char {
        '%' => Some(TokenType::Modulo),
        '<' => Some(TokenType::LessThan),
        '>' => Some(TokenType::GreaterThan),
        '&' => Some(TokenType::Ampersand),
        '|' => Some(TokenType::Pipe),
        '^' => Some(TokenType::Caret),
        '~' => Some(TokenType::Tilde),
        '+' => Some(TokenType::Plus),
        '-' => Some(TokenType::Minus),
        '*' => Some(TokenType::Mul),
        '/' => Some(TokenType::Div),
        '=' => Some(TokenType::Equal),
        ';' => Some(TokenType::Semi),
        ':' => Some(TokenType::Colon),
        ',' => Some(TokenType::Comma),
        '.' => Some(TokenType::Dot),
        '(' => Some(TokenType::LParens),
        ')' => Some(TokenType::RParens),
        '[' => Some(TokenType::LBracket),
        ']' => Some(TokenType::RBracket),
        '{' => Some(TokenType::LBrace),
        '}' => Some(TokenType::RBrace),
        _ => None,
    }
}

/// The byte of a one-byte operator is of the seven-bit range and no line feed.
pub proof fn lemma_punctuation_byte(b: u8)
    requires
        punctuation(b) is Some,
    ensures
        is_ascii_byte(b),
        b != NEWLINE,
{
}

/// How a group ends: the byte that closes it, the kind of that byte's token,
/// and the error for a group that the source ends in.
#[derive(Debug, Clone, Copy, PartialEq, Eq, Structural)]
pub struct Group {
    pub close: u8,
    pub closed_by: TokenType,
    pub unclosed: LexErrorKind,
}

/// The group that a token of kind `open` begins; `None` for every kind but
/// `(`, `[` and `{`.
pub open spec fn group_of(open: TokenType) -> Option<Group> {
    match open {
        TokenType::LParens => Some(
            Group {
                close: ')' as u8,
                closed_by: TokenType::RParens,
                unclosed: LexErrorKind::UnclosedParenthesis,
            },
        ),
        TokenType::LBracket => Some(
            Group {
                close: ']' as u8,
                closed_by: TokenType::RBracket,
                unclosed: LexErrorKind::UnclosedBracket,
            },
        ),
        TokenType::LBrace => Some(
            Group {
                close: '}' as u8,
                closed_by: TokenType::RBrace,
                unclosed: LexErrorKind::UnclosedBrace,
            },
        ),
        _ => None,
    }
}

/// The byte that closes a group spells the token that closes it, and the
/// error of a group is its own.
pub proof fn lemma_group_close(open: TokenType)
    requires
        group_of(open) is Some,
    ensures
        punctuation(group_of(open)->Some_0.close) == Some(group_of(open)->Some_0.closed_by),
        is_ascii_byte(group_of(open)->Some_0.close),
        group_of(open)->Some_0.close != NEWLINE,
        group_of(open)->Some_0.unclosed != LexErrorKind::UnrecognizedToken,
{
}

/// Tells whether a token opens a group, and how that group ends.
pub fn match_group(open: TokenType) -> (r: Option<Group>)
    ensures
        r == group_of(open),
{
    match open {
        TokenType::LParens => Some(
            Group {
                close: ')' as u8,
                closed_by: TokenType::RParens,
                unclosed: LexErrorKind::UnclosedParenthesis,
            },
        ),
        TokenType::LBracket => Some(
            Group {
                close: ']' as u8,
                closed_by: TokenType::RBracket,
                unclosed: LexErrorKind::UnclosedBracket,
            },
        ),
        TokenType::LBrace => Some(
            Group {
                close: '}' as u8,
                closed_by: TokenType::RBrace,
                unclosed: LexErrorKind::UnclosedBrace,
            },
        ),
        _ => None,
    }
}

/// `text` is `word`, byte for byte.
pub open spec fn spells(text: Seq<u8>, word: &str) -> bool {
    text == word.spec_bytes()
}

/// The keyword that `text` is, if it is one. The whole text must be the
/// keyword: an identifier that only begins with one, such as `ifx`, is none.
pub open spec fn keyword(text: Seq<u8>) -> Option<TokenType> {
    if spells(text, "continue") {
        Some(TokenType::Continue)
    } else if spells(text, "packed") {
        Some(TokenType::Packed)
    } else if spells(text, "struct") {
        Some(TokenType::Struct)
    } else if spells(text, "union") {
        Some(TokenType::Union)
    } else if spells(text, "defer") {
        Some(TokenType::Defer)
    } else if spells(text, "while") {
        Some(TokenType::While)
    } else if spells(text, "break") {
        Some(TokenType::Break)
    } else if spells(text, "enum") {
        Some(TokenType::Enum)
    } else if spells(text, "then") {
        Some(TokenType::Then)
    } else if spells(text, "else") {
        Some(TokenType::Else)
    } else if spells(text, "loop") {
        Some(TokenType::Loop)
    } else if spells(text, "and") {
        Some(TokenType::And)
    } else if spells(text, "xor") {
        Some(TokenType::Xor)
    } else if spells(text, "not") {
        Some(TokenType::Not)
    } else if spells(text, "pub") {
        Some(TokenType::Pub)
    } else if spells(text, "or") {
        Some(TokenType::Or)
    } else if spells(text, "fn") {
        Some(TokenType::Fn)
    } else if spells(text, "if") {
        Some(TokenType::If)
    } else if spells(text, "do") {
        Some(TokenType::Do)
    } else {
        None
    }
}

/// Tests whether the bytes of `bytes` from `start` up to `end` are `word`.
pub fn is_word(bytes: &[u8], start: usize, end: usize, word: &str) -> (r: bool)
    requires
        start <= end <= bytes@.len(),
    ensures
        r == spells(bytes@.subrange(start as int, end as int), word),
{
    let letters = word.as_bytes();
    if letters.len() != end - start {
        return false;
    }
    let mut i: usize = 0;
    while i < letters.len()
        invariant
            start <= end <= bytes@.len(),
            letters@ == word.spec_bytes(),
            letters@.len() == end - start,
            i <= letters@.len(),
            forall|j: int| 0 <= j < i ==> bytes@[start + j] == letters@[j],
        decreases letters@.len() - i,
    {
        if bytes[start + i] != letters[i] {
            assert(bytes@.subrange(start as int, end as int)[i as int] != letters@[i as int]);
            return false;
        }
        i += 1;
    }
    assert(bytes@.subrange(start as int, end as int) =~= letters@);
    true
}

/// Looks the bytes of `bytes` from `start` up to `end` up in the table of
/// keywords, longest keywords first.
pub fn match_keyword(bytes: &[u8], start: usize, end: usize) -> (r: Option<TokenType>)
    requires
        start <= end <= bytes@.len(),
    ensures
        r == keyword(bytes@.subrange(start as int, end as int)),
{
    if is_word(bytes, start, end, "continue") {
        Some(TokenType::Continue)
    } else if is_word(bytes, start, end, "packed") {
        Some(TokenType::Packed)
    } else if is_word(bytes, start, end, "struct") {
        Some(TokenType::Struct)
    } else if is_word(bytes, start, end, "union") {
        Some(TokenType::Union)
    } else if is_word(bytes, start, end, "defer") {
        Some(TokenType::Defer)
    } else if is_word(bytes, start, end, "while") {
        Some(TokenType::While)
    } else if is_word(bytes, start, end, "break") {
        Some(TokenType::Break)
    } else if is_word(bytes, start, end, "enum") {
        Some(TokenType::Enum)
    } else if is_word(bytes, start, end, "then") {
        Some(TokenType::Then)
    } else if is_word(bytes, start, end, "else") {
        Some(TokenType::Else)
    } else if is_word(bytes, start, end, "loop") {
        Some(TokenType::Loop)
    } else if is_word(bytes, start, end, "and") {
        Some(TokenType::And)
    } else if is_word(bytes, start, end, "xor") {
        Some(TokenType::Xor)
    } else if is_word(bytes, start, end, "not") {
        Some(TokenType::Not)
    } else if is_word(bytes, start, end, "pub") {
        Some(TokenType::Pub)
    } else if is_word(bytes, start, end, "or") {
        Some(TokenType::Or)
    } else if is_word(bytes, start, end, "fn") {
        Some(TokenType::Fn)
    } else if is_word(bytes, start, end, "if") {
        Some(TokenType::If)
    } else if is_word(bytes, start, end, "do") {
        Some(TokenType::Do)
    } else {
        None
    }
}

/// The kind is that of an operator or a punctuation mark.
pub open spec fn names_operator(kind: TokenType) -> bool {
    matches!(
        kind,
        TokenType::Equals | TokenType::NotEquals | TokenType::LessThan | TokenType::GreaterThan
            | TokenType::LessEqual | TokenType::GreaterEqual | TokenType::Feather | TokenType::Arrow
            | TokenType::Ampersand | TokenType::Pipe | TokenType::Caret | TokenType::Tilde
            | TokenType::LShift | TokenType::RShift | TokenType::Incr | TokenType::Decr
            | TokenType::Plus | TokenType::Minus | TokenType::Mul | TokenType::Div | TokenType::Pow
            | TokenType::Modulo | TokenType::Equal | TokenType::Semi | TokenType::Colon
            | TokenType::Comma | TokenType::Dot | TokenType::LParens | TokenType::RParens
            | TokenType::LBracket | TokenType::RBracket | TokenType::LBrace | TokenType::RBrace
    )
}

/// The kind is that of a keyword.
pub open spec fn names_keyword(kind: TokenType) -> bool {
    matches!(
        kind,
        TokenType::And | TokenType::Or | TokenType::Xor | TokenType::Not | TokenType::Pub
            | TokenType::Packed | TokenType::Struct | TokenType::Enum | TokenType::Union
            | TokenType::Fn | TokenType::Defer | TokenType::If | TokenType::Then | TokenType::Else
            | TokenType::While | TokenType::Do | TokenType::Loop | TokenType::Continue
            | TokenType::Break
    )
}

/// The tables hand out the kinds of their own class only: the operator tables
/// kinds of operators, the keyword table kinds of keywords.
pub proof fn lemma_tables_keep_to_their_kinds(a: u8, b: u8, text: Seq<u8>)
    ensures
        digraph(a, b) matches Some(kind) ==> names_operator(kind),
        punctuation(a) matches Some(kind) ==> names_operator(kind),
        keyword(text) matches Some(kind) ==> names_keyword(kind),
{
}

} // verus!
