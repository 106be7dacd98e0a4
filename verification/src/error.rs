//! Lexical errors. Each one ends the scan; none is recovered from.

use vstd::prelude::*;

use crate::position::{col_at, line_at};

verus! {

/// Why a scan failed.
#[derive(Debug, Clone, Copy, PartialEq, Eq, Structural, Hash)]
pub enum LexErrorKind {
    /// The source ends inside an interpolated string.
    UnterminatedInterpolatedString,
    /// The source ends inside a string literal.
    UnterminatedString,
    /// The source ends inside a character literal.
    UnterminatedChar,
    /// A `(` without its `)`.
    UnclosedParenthesis,
    /// A `[` without its `]`.
    UnclosedBracket,
    /// A `{` without its `}`.
    UnclosedBrace,
    /// A byte with which no token begins.
    UnrecognizedToken,
}

/// A failure of the grammar: its kind, and the offset of the byte it is blamed
/// on. For a literal or a group that is the byte that opened it; for an
/// interpolated string, the `$` or the `}` that opened the unfinished segment.
pub struct Failure {
    pub kind: LexErrorKind,
    pub at: int,
}

/// A failed scan: the file, the kind of the failure, and the line (from one)
/// and column (from zero) of the byte it is blamed on.
#[derive(Debug, Clone, PartialEq, Eq)]
pub struct LexError {
    pub file: String,
    pub line: usize,
    pub col: usize,
    pub kind: LexErrorKind,
}

impl LexError {
    /// This error is the failure `f` of the source `s`, met in the file named
    /// `file`.
    pub open spec fn reports(&self, file: Seq<char>, s: Seq<u8>, f: Failure) -> bool {
        &&& self.file@ == file
        &&& self.kind == f.kind
        &&& self.line == line_at(s, f.at)
        &&& self.col == col_at(s, f.at)
    }
}

} // verus!
