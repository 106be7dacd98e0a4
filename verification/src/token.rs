//! The token taxonomy and the token stream.

use vstd::prelude::*;
use vstd::string::*;

use crate::grammar::is_filler;
use crate::position::{col_at, line_at, newline_offsets};

verus! {

/// What a token is: an operator, a keyword, a piece of punctuation, a literal,
/// an identifier. The set is closed; every token has exactly one kind.
#[derive(Debug, Clone, Copy, PartialEq, Eq, Structural, PartialOrd, Ord, Hash)]
pub enum TokenType {
    /// `and`
    And,
    /// `or`
    Or,
    /// `xor`
    Xor,
    /// `not`
    Not,
    /// `==`
    Equals,
    /// `!=`
    NotEquals,
    /// `<`
    LessThan,
    /// `>`
    GreaterThan,
    /// `<=`
    LessEqual,
    /// `>=`
    GreaterEqual,
    /// `>-`
    Feather,
    /// `->`
    Arrow,
    /// `&`
    Ampersand,
    /// `|`
    Pipe,
    /// `^`
    Caret,
    /// `~`
    Tilde,
    /// `<<`
    LShift,
    /// `>>`
    RShift,
    /// `++`
    Incr,
    /// `--`
    Decr,
    /// `+`
    Plus,
    /// `-`
    Minus,
    /// `*`
    Mul,
    /// `/`
    Div,
    /// `**`
    Pow,
    /// `%`
    Modulo,
    /// `pub`
    Pub,
    /// `packed`
    Packed,
    /// `struct`
    Struct,
    /// `enum`
    Enum,
    /// `union`
    Union,
    /// `fn`
    Fn,
    /// `defer`
    Defer,
    /// `if`
    If,
    /// `then`
    Then,
    /// `else`
    Else,
    /// `while`
    While,
    /// `do`
    Do,
    /// `loop`
    Loop,
    /// `continue`
    Continue,
    /// `break`
    Break,
    /// `=`
    Equal,
    /// `;`
    Semi,
    /// `:`
    Colon,
    /// `,`
    Comma,
    /// `.`
    Dot,
    /// `(`
    LParens,
    /// `)`
    RParens,
    /// `[`
    LBracket,
    /// `]`
    RBracket,
    /// `{`
    LBrace,
    /// `}`
    RBrace,
    /// A string literal: plain, byte, C, or an interpolated one without any
    /// interpolation in it.
    String,
    /// The text of an interpolated string up to its first interpolation.
    StringInterpBeg,
    /// The text between two interpolations.
    StringInterpMid,
    /// The text after the last interpolation.
    StringInterpEnd,
    /// A character literal, plain or byte.
    Char,
    /// An identifier that is no keyword.
    Ident,
    /// A numeric literal of any radix, integer or floating.
    Num,
}

impl TokenType {
    /// The kind's name, as it is spelled in this enum.
    pub open spec fn label(self) -> Seq<char> {
        match self {
            TokenType::And => "And"@,
            TokenType::Or => "Or"@,
            TokenType::Xor => "Xor"@,
            TokenType::Not => "Not"@,
            TokenType::Equals => "Equals"@,
            TokenType::NotEquals => "NotEquals"@,
            TokenType::LessThan => "LessThan"@,
            TokenType::GreaterThan => "GreaterThan"@,
            TokenType::LessEqual => "LessEqual"@,
            TokenType::GreaterEqual => "GreaterEqual"@,
            TokenType::Feather => "Feather"@,
            TokenType::Arrow => "Arrow"@,
            TokenType::Ampersand => "Ampersand"@,
            TokenType::Pipe => "Pipe"@,
            TokenType::Caret => "Caret"@,
            TokenType::Tilde => "Tilde"@,
            TokenType::LShift => "LShift"@,
            TokenType::RShift => "RShift"@,
            TokenType::Incr => "Incr"@,
            TokenType::Decr => "Decr"@,
            TokenType::Plus => "Plus"@,
            TokenType::Minus => "Minus"@,
            TokenType::Mul => "Mul"@,
            TokenType::Div => "Div"@,
            TokenType::Pow => "Pow"@,
            TokenType::Modulo => "Modulo"@,
            TokenType::Pub => "Pub"@,
            TokenType::Packed => "Packed"@,
            TokenType::Struct => "Struct"@,
            TokenType::Enum => "Enum"@,
            TokenType::Union => "Union"@,
            TokenType::Fn => "Fn"@,
            TokenType::Defer => "Defer"@,
            TokenType::If => "If"@,
            TokenType::Then => "Then"@,
            TokenType::Else => "Else"@,
            TokenType::While => "While"@,
            TokenType::Do => "Do"@,
            TokenType::Loop => "Loop"@,
            TokenType::Continue => "Continue"@,
            TokenType::Break => "Break"@,
            TokenType::Equal => "Equal"@,
            TokenType::Semi => "Semi"@,
            TokenType::Colon => "Colon"@,
            TokenType::Comma => "Comma"@,
            TokenType::Dot => "Dot"@,
            TokenType::LParens => "LParens"@,
            TokenType::RParens => "RParens"@,
            TokenType::LBracket => "LBracket"@,
            TokenType::RBracket => "RBracket"@,
            TokenType::LBrace => "LBrace"@,
            TokenType::RBrace => "RBrace"@,
            TokenType::String => "String"@,
            TokenType::StringInterpBeg => "StringInterpBeg"@,
            TokenType::StringInterpMid => "StringInterpMid"@,
            TokenType::StringInterpEnd => "StringInterpEnd"@,
            TokenType::Char => "Char"@,
            TokenType::Ident => "Ident"@,
            TokenType::Num => "Num"@,
        }
    }

    /// The kind's name, as it is spelled in this enum.
    pub fn name(self) -> (name: &'static str)
        ensures
            name@ == self.label(),
    {
        match self {
            TokenType::And => "And",
            TokenType::Or => "Or",
            TokenType::Xor => "Xor",
            TokenType::Not => "Not",
            TokenType::Equals => "Equals",
            TokenType::NotEquals => "NotEquals",
            TokenType::LessThan => "LessThan",
            TokenType::GreaterThan => "GreaterThan",
            TokenType::LessEqual => "LessEqual",
            TokenType::GreaterEqual => "GreaterEqual",
            TokenType::Feather => "Feather",
            TokenType::Arrow => "Arrow",
            TokenType::Ampersand => "Ampersand",
            TokenType::Pipe => "Pipe",
            TokenType::Caret => "Caret",
            TokenType::Tilde => "Tilde",
            TokenType::LShift => "LShift",
            TokenType::RShift => "RShift",
            TokenType::Incr => "Incr",
            TokenType::Decr => "Decr",
            TokenType::Plus => "Plus",
            TokenType::Minus => "Minus",
            TokenType::Mul => "Mul",
            TokenType::Div => "Div",
            TokenType::Pow => "Pow",
            TokenType::Modulo => "Modulo",
            TokenType::Pub => "Pub",
            TokenType::Packed => "Packed",
            TokenType::Struct => "Struct",
            TokenType::Enum => "Enum",
            TokenType::Union => "Union",
            TokenType::Fn => "Fn",
            TokenType::Defer => "Defer",
            TokenType::If => "If",
            TokenType::Then => "Then",
            TokenType::Else => "Else",
            TokenType::While => "While",
            TokenType::Do => "Do",
            TokenType::Loop => "Loop",
            TokenType::Continue => "Continue",
            TokenType::Break => "Break",
            TokenType::Equal => "Equal",
            TokenType::Semi => "Semi",
            TokenType::Colon => "Colon",
            TokenType::Comma => "Comma",
            TokenType::Dot => "Dot",
            TokenType::LParens => "LParens",
            TokenType::RParens => "RParens",
            TokenType::LBracket => "LBracket",
            TokenType::RBracket => "RBracket",
            TokenType::LBrace => "LBrace",
            TokenType::RBrace => "RBrace",
            TokenType::String => "String",
            TokenType::StringInterpBeg => "StringInterpBeg",
            TokenType::StringInterpMid => "StringInterpMid",
            TokenType::StringInterpEnd => "StringInterpEnd",
            TokenType::Char => "Char",
            TokenType::Ident => "Ident",
            TokenType::Num => "Num",
        }
    }
}

/// One token's text and where it begins: `line` counts from one, `col` is the
/// byte offset of the token's first byte from the start of that line.
///
/// `slice` borrows the source; it is never a copy.
#[derive(Debug, Clone)]
pub struct TokenSpan<'a> {
    pub slice: &'a str,
    pub line: usize,
    pub col: usize,
}

impl<'a> TokenSpan<'a> {
    #[inline]
    pub fn new(slice: &'a str, line: usize, col: usize) -> (span: Self)
        ensures
            span.slice == slice,
            span.line == line,
            span.col == col,
    {
        Self { slice, line, col }
    }
}

/// What one token of a stream says, as plain values: its kind, the bytes of its
/// text, the line (from one) and the column (from zero) where it begins.
pub struct Record {
    pub kind: TokenType,
    pub text: Seq<u8>,
    pub line: int,
    pub col: int,
}

/// The tokens of one source text.
///
/// `spans[i]` and `types[i]` describe the same token. `line_breaks` holds the
/// byte offset of every line feed that the scan has passed, in ascending order.
#[derive(Debug)]
pub struct Tokens<'a> {
    /// The whole source text.
    pub code: &'a str,
    /// Offsets of the line feeds, ascending.
    pub line_breaks: Vec<usize>,
    /// Text and position of each token.
    pub spans: Vec<TokenSpan<'a>>,
    /// Kind of each token.
    pub types: Vec<TokenType>,
}

impl<'a> View for Tokens<'a> {
    type V = Seq<Record>;

    /// The tokens in order, one record each. Meaningful where `spans` and `types`
    /// have the same length.
    open spec fn view(&self) -> Seq<Record> {
        Seq::new(
            self.spans@.len(),
            |i: int|
                Record {
                    kind: self.types@[i],
                    text: self.spans@[i].slice.spec_bytes(),
                    line: self.spans@[i].line as int,
                    col: self.spans@[i].col as int,
                },
        )
    }
}

impl<'a> Tokens<'a> {
    /// The stream of `code` before the scan: no token, no line break.
    pub fn new(code: &'a str) -> (tokens: Self)
        ensures
            tokens.code == code,
            tokens.line_breaks@ == Seq::<usize>::empty(),
            tokens.spans@ == Seq::<TokenSpan<'a>>::empty(),
            tokens.types@ == Seq::<TokenType>::empty(),
            tokens@ == Seq::<Record>::empty(),
            tokens.source().len() <= usize::MAX,
    {
        let tokens = Tokens { code, line_breaks: Vec::new(), spans: Vec::new(), types: Vec::new() };
        let bytes = code.as_bytes();
        assert(tokens.source().len() == bytes.len());
        assert(tokens@ =~= Seq::<Record>::empty());
        tokens
    }

    /// The bytes of the source text.
    pub open spec fn source(&self) -> Seq<u8> {
        self.code.spec_bytes()
    }

    /// The offset at which line `line` (from one) begins, going by the recorded
    /// line breaks: zero for the first line, else one past the break before it.
    pub open spec fn line_origin(&self, line: int) -> int {
        if line <= 1 {
            0
        } else {
            self.line_breaks@[line - 2] + 1
        }
    }

    /// The offset in the source at which token `i` begins, rebuilt from its
    /// recorded line and column.
    pub open spec fn offset(&self, i: int) -> int {
        self.line_origin(self.spans@[i].line as int) + self.spans@[i].col
    }

    /// Token `i` lies in the source where its line and column say: its text is
    /// the source's bytes from `offset(i)` on, and line and column are those of
    /// that offset.
    pub open spec fn span_in_place(&self, i: int) -> bool {
        let at = self.offset(i);
        let text = self.spans@[i].slice.spec_bytes();
        &&& 1 <= self.spans@[i].line <= self.line_breaks@.len() + 1
        &&& 0 <= at <= at + text.len() <= self.source().len()
        &&& text == self.source().subrange(at, at + text.len())
        &&& self.spans@[i].line == line_at(self.source(), at)
        &&& self.spans@[i].col == col_at(self.source(), at)
    }

    /// The offset in the source just past token `i`.
    pub open spec fn end_offset(&self, i: int) -> int {
        self.offset(i) + self.spans@[i].slice.spec_bytes().len()
    }

    /// The byte of the source at offset `at` lies in one of the tokens.
    pub open spec fn holds(&self, at: int) -> bool {
        exists|k: int|
            0 <= k < self.spans@.len() && #[trigger] self.offset(k) <= at < self.end_offset(k)
    }

    /// A finished stream: kinds and spans pair up, the line feeds of the source
    /// are recorded, all of them and nothing else, every token lies where its
    /// line and column say, the tokens stand in source order, none overlapping
    /// the next, and no byte of the source is left out but white space,
    /// comments and the bytes that enclose the segments of interpolated
    /// strings.
    pub open spec fn wf(&self) -> bool {
        &&& self.spans@.len() == self.types@.len()
        &&& self.source().len() <= usize::MAX
        &&& self.line_breaks@ == newline_offsets(self.source(), self.source().len() as int)
        &&& forall|i: int| 0 <= i < self.spans@.len() ==> #[trigger] self.span_in_place(i)
        &&& forall|i: int, j: int|
            0 <= i < j < self.spans@.len() ==> #[trigger] self.end_offset(i) <= #[trigger] self.offset(
                j,
            )
        &&& forall|at: int|
            0 <= at < self.source().len() ==> #[trigger] self.holds(at) || is_filler(
                self.source(),
                at,
            )
    }
}

} // verus!
