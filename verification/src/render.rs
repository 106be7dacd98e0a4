//! Token streams and errors as text, for diagnostics.

use vstd::prelude::*;
use vstd::string::*;

use crate::error::{LexError, LexErrorKind};
use crate::token::{TokenType, Tokens};

verus! {

/// The decimal digit `d`, as text.
pub open spec fn digit_text(d: nat) -> Seq<char> {
    if d == 0 {
        "0"@
    } else if d == 1 {
        "1"@
    } else if d == 2 {
        "2"@
    } else if d == 3 {
        "3"@
    } else if d == 4 {
        "4"@
    } else if d == 5 {
        "5"@
    } else if d == 6 {
        "6"@
    } else if d == 7 {
        "7"@
    } else if d == 8 {
        "8"@
    } else {
        "9"@
    }
}

/// The number `n` in decimal notation, without sign or leading zeros.
pub open spec fn decimal(n: nat) -> Seq<char>
    decreases n,
{
    if n < 10 {
        digit_text(n)
    } else {
        decimal(n / 10) + digit_text(n % 10)
    }
}

fn digit_str(d: u128) -> (text: &'static str)
    requires
        d < 10,
    ensures
        text@ == digit_text(d as nat),
{
    if d == 0 {
        "0"
    } else if d == 1 {
        "1"
    } else if d == 2 {
        "2"
    } else if d == 3 {
        "3"
    } else if d == 4 {
        "4"
    } else if d == 5 {
        "5"
    } else if d == 6 {
        "6"
    } else if d == 7 {
        "7"
    } else if d == 8 {
        "8"
    } else {
        "9"
    }
}

/// Writes a number in decimal notation.
pub fn decimal_string(n: u128) -> (text: String)
    ensures
        text@ == decimal(n as nat),
{
    let mut text = String::from_str(digit_str(n % 10));
    let mut rest = n / 10;
    while rest > 0
        invariant
            rest == 0 ==> text@ == decimal(n as nat),
            rest > 0 ==> decimal(n as nat) == decimal(rest as nat) + text@,
        decreases rest,
    {
        let mut longer = String::from_str(digit_str(rest % 10));
        longer.append(text.as_str());
        proof {
            if rest >= 10 {
                assert(decimal(rest as nat) + text@ =~= decimal((rest / 10) as nat) + longer@);
            }
        }
        text = longer;
        rest = rest / 10;
    }
    text
}

/// The number of digits of `n` in decimal notation.
pub open spec fn digits(n: nat) -> nat
    decreases n,
{
    if n < 10 {
        1
    } else {
        1 + digits(n / 10)
    }
}

/// A number in decimal notation is as long as it has digits.
pub proof fn lemma_decimal_len(n: nat)
    ensures
        decimal(n).len() == digits(n),
    decreases n,
{
    reveal_strlit("0");
    reveal_strlit("1");
    reveal_strlit("2");
    reveal_strlit("3");
    reveal_strlit("4");
    reveal_strlit("5");
    reveal_strlit("6");
    reveal_strlit("7");
    reveal_strlit("8");
    reveal_strlit("9");
    if n >= 10 {
        lemma_decimal_len(n / 10);
    }
}

/// Counts the digits of a number in decimal notation.
pub fn digit_count(n: usize) -> (count: usize)
    ensures
        count == digits(n as nat),
{
    let mut count: usize = 1;
    let mut rest = n;
    while rest >= 10
        invariant
            count + rest <= n + 1,
            digits(n as nat) == count - 1 + digits(rest as nat),
        decreases rest,
    {
        rest = rest / 10;
        count = count + 1;
    }
    count
}

/// `count` spaces; none where `count` is not positive.
pub open spec fn spaces(count: int) -> Seq<char> {
    Seq::new(
        if count > 0 {
            count as nat
        } else {
            0
        },
        |i: int| ' ',
    )
}

/// `text` brought to `width` characters by spaces before it; `text` itself
/// where it is as long or longer.
pub open spec fn pad_left(text: Seq<char>, width: nat) -> Seq<char> {
    spaces(width - text.len()) + text
}

/// `text` brought to `width` characters by spaces after it; `text` itself
/// where it is as long or longer.
pub open spec fn pad_right(text: Seq<char>, width: nat) -> Seq<char> {
    text + spaces(width - text.len())
}

/// Appends the spaces that bring a text of `have` characters to `want`.
fn push_spaces(out: &mut String, have: usize, want: usize)
    ensures
        final(out)@ == old(out)@ + spaces(want - have),
{
    let mut i: usize = have;
    assert(out@ + spaces(0) =~= out@);
    while i < want
        invariant
            have <= i,
            i <= want || want < have,
            out@ == old(out)@ + spaces(if i <= want { i - have } else { 0 }),
        decreases want - i,
    {
        proof {
            reveal_strlit(" ");
        }
        out.append(" ");
        i = i + 1;
        assert(out@ =~= old(out)@ + spaces(i - have));
    }
    assert(out@ =~= old(out)@ + spaces(want - have));
}

/// The widths of the three aligned columns of a listing.
pub struct Widths {
    pub line: nat,
    pub col: nat,
    pub kind: nat,
}

/// One line of a listing: the line number, right-aligned; a colon; the column,
/// left-aligned; three spaces; the kind's name, left-aligned; three spaces; the
/// token's text; a line feed.
pub open spec fn row(line: nat, col: nat, kind: TokenType, text: Seq<char>, widths: Widths) -> Seq<
    char,
> {
    pad_left(decimal(line), widths.line) + seq![':'] + pad_right(decimal(col), widths.col) + spaces(
        3,
    ) + pad_right(kind.label(), widths.kind) + spaces(3) + text + seq!['\n']
}

/// The larger of two numbers.
pub open spec fn larger(a: nat, b: nat) -> nat {
    if a >= b {
        a
    } else {
        b
    }
}

impl<'a> Tokens<'a> {
    /// The number of tokens that have both a span and a kind.
    pub open spec fn count(&self) -> nat {
        if self.spans@.len() <= self.types@.len() {
            self.spans@.len()
        } else {
            self.types@.len()
        }
    }

    /// The width of the column of line numbers, going by the first `upto`
    /// tokens: the number of digits of the longest of their line numbers.
    pub open spec fn line_width(&self, upto: nat) -> nat
        decreases upto,
    {
        if upto == 0 {
            0
        } else {
            larger(self.line_width((upto - 1) as nat), digits(self.spans@[upto - 1].line as nat))
        }
    }

    /// The width of the column of columns, going by the first `upto` tokens:
    /// the number of digits of the longest of their columns.
    pub open spec fn col_width(&self, upto: nat) -> nat
        decreases upto,
    {
        if upto == 0 {
            0
        } else {
            larger(self.col_width((upto - 1) as nat), digits(self.spans@[upto - 1].col as nat))
        }
    }

    /// The width of the column of kinds, going by the first `upto` tokens: the
    /// length of the longest of their names.
    pub open spec fn kind_width(&self, upto: nat) -> nat
        decreases upto,
    {
        if upto == 0 {
            0
        } else {
            larger(self.kind_width((upto - 1) as nat), self.types@[upto - 1].label().len())
        }
    }

    /// The widths of the listing's columns: each is as wide as the widest
    /// entry that is printed in it.
    pub open spec fn widths(&self) -> Widths {
        Widths {
            line: self.line_width(self.count()),
            col: self.col_width(self.count()),
            kind: self.kind_width(self.count()),
        }
    }

    /// The listing's first `upto` lines.
    pub open spec fn rows(&self, upto: nat) -> Seq<char>
        decreases upto,
    {
        if upto == 0 {
            Seq::empty()
        } else {
            self.rows((upto - 1) as nat) + row(
                self.spans@[upto - 1].line as nat,
                self.spans@[upto - 1].col as nat,
                self.types@[upto - 1],
                self.spans@[upto - 1].slice@,
                self.widths(),
            )
        }
    }

    /// The listing of the stream: one line for each token, see [`row`].
    pub open spec fn listing(&self) -> Seq<char> {
        self.rows(self.count())
    }

    /// Lists the tokens, one to a line, as `<line>:<col>   <kind>   <text>`
    /// with the first three aligned in columns. This is meant for the eye, not
    /// for a program to read back.
    pub fn to_string(&self) -> (text: String)
        ensures
            text@ == self.listing(),
    {
        let count = if self.spans.len() <= self.types.len() {
            self.spans.len()
        } else {
            self.types.len()
        };
        let mut line_width: usize = 0;
        let mut col_width: usize = 0;
        let mut kind_width: usize = 0;
        let mut i: usize = 0;
        while i < count
            invariant
                count == self.count(),
                i <= count,
                line_width == self.line_width(i as nat),
                col_width == self.col_width(i as nat),
                kind_width == self.kind_width(i as nat),
            decreases count - i,
        {
            let width = digit_count(self.spans[i].line);
            if width > line_width {
                line_width = width;
            }
            let width = digit_count(self.spans[i].col);
            if width > col_width {
                col_width = width;
            }
            let length = self.types[i].name().unicode_len();
            if length > kind_width {
                kind_width = length;
            }
            i = i + 1;
        }
        let mut out = String::new();
        let mut i: usize = 0;
        while i < count
            invariant
                count == self.count(),
                i <= count,
                line_width == self.widths().line,
                col_width == self.widths().col,
                kind_width == self.widths().kind,
                out@ == self.rows(i as nat),
            decreases count - i,
        {
            let ghost before = out@;
            let line = decimal_string(self.spans[i].line as u128);
            let col = decimal_string(self.spans[i].col as u128);
            let name = self.types[i].name();
            let line_length = line.as_str().unicode_len();
            let col_length = col.as_str().unicode_len();
            let name_length = name.unicode_len();
            proof {
                reveal_strlit(":");
                reveal_strlit("   ");
                reveal_strlit("\n");
                assert(":"@ =~= seq![':']);
                assert("   "@ =~= spaces(3));
                assert("\n"@ =~= seq!['\n']);
            }
            push_spaces(&mut out, line_length, line_width);
            out.append(line.as_str());
            out.append(":");
            out.append(col.as_str());
            push_spaces(&mut out, col_length, col_width);
            out.append("   ");
            out.append(name);
            push_spaces(&mut out, name_length, kind_width);
            out.append("   ");
            out.append(self.spans[i].slice);
            out.append("\n");
            assert(out@ =~= before + row(
                self.spans@[i as int].line as nat,
                self.spans@[i as int].col as nat,
                self.types@[i as int],
                self.spans@[i as int].slice@,
                self.widths(),
            ));
            i = i + 1;
        }
        out
    }
}

/// No entry of the first `upto` lines of a listing is wider than its column.
pub proof fn lemma_widths_hold(tokens: &Tokens, upto: nat, i: int)
    requires
        0 <= i < upto,
    ensures
        digits(tokens.spans@[i].line as nat) <= tokens.line_width(upto),
        digits(tokens.spans@[i].col as nat) <= tokens.col_width(upto),
        tokens.types@[i].label().len() <= tokens.kind_width(upto),
    decreases upto,
{
    if i < upto - 1 {
        lemma_widths_hold(tokens, (upto - 1) as nat, i);
    }
}

/// The columns of a listing line up: in every line the line number, the
/// column and the kind's name, each with its padding, are exactly as wide as
/// their column, so the colon, the kind and the text begin at the same place
/// in every line.
pub proof fn lemma_listing_is_aligned(tokens: &Tokens, i: int)
    requires
        0 <= i < tokens.count(),
    ensures
        pad_left(decimal(tokens.spans@[i].line as nat), tokens.widths().line).len()
            == tokens.widths().line,
        pad_right(decimal(tokens.spans@[i].col as nat), tokens.widths().col).len()
            == tokens.widths().col,
        pad_right(tokens.types@[i].label(), tokens.widths().kind).len() == tokens.widths().kind,
{
    lemma_widths_hold(tokens, tokens.count(), i);
    lemma_decimal_len(tokens.spans@[i].line as nat);
    lemma_decimal_len(tokens.spans@[i].col as nat);
}

impl LexErrorKind {
    /// What the error says.
    pub open spec fn message(self) -> Seq<char> {
        match self {
            LexErrorKind::UnterminatedInterpolatedString => "Unfinished interpolated string"@,
            LexErrorKind::UnterminatedString => "Unfinished string"@,
            LexErrorKind::UnterminatedChar => "Unfinished char"@,
            LexErrorKind::UnclosedParenthesis => "Unclosed parenthesis"@,
            LexErrorKind::UnclosedBracket => "Unclosed bracket"@,
            LexErrorKind::UnclosedBrace => "Unclosed brace"@,
            LexErrorKind::UnrecognizedToken => "Cannot parse token"@,
        }
    }

    /// What the error says.
    pub fn describe(self) -> (text: &'static str)
        ensures
            text@ == self.message(),
    {
        match self {
            LexErrorKind::UnterminatedInterpolatedString => "Unfinished interpolated string",
            LexErrorKind::UnterminatedString => "Unfinished string",
            LexErrorKind::UnterminatedChar => "Unfinished char",
            LexErrorKind::UnclosedParenthesis => "Unclosed parenthesis",
            LexErrorKind::UnclosedBracket => "Unclosed bracket",
            LexErrorKind::UnclosedBrace => "Unclosed brace",
            LexErrorKind::UnrecognizedToken => "Cannot parse token",
        }
    }
}

impl LexError {
    /// The report of the error: `<file>:<line>:<column>: <message>`. The column
    /// is printed counting from one, as editors count, so it is one more than
    /// `col`.
    pub open spec fn report(&self) -> Seq<char> {
        self.file@ + seq![':'] + decimal(self.line as nat) + seq![':'] + decimal(
            (self.col + 1) as nat,
        ) + seq![':', ' '] + self.kind.message()
    }

    /// Writes the report of the error.
    pub fn to_string(&self) -> (text: String)
        ensures
            text@ == self.report(),
    {
        let line = decimal_string(self.line as u128);
        let col = decimal_string(self.col as u128 + 1);
        proof {
            reveal_strlit(":");
            reveal_strlit(": ");
            assert(":"@ =~= seq![':']);
            assert(": "@ =~= seq![':', ' ']);
        }
        let mut out = String::from_str(self.file.as_str());
        out.append(":");
        out.append(line.as_str());
        out.append(":");
        out.append(col.as_str());
        out.append(": ");
        out.append(self.kind.describe());
        out
    }
}

} // verus!
