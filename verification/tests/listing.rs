use lexer::lexer::{lex, LexError, LexErrorKind, TokenType};
use lexer::render::{decimal_string, digit_count};

#[test]
fn listing_has_one_aligned_line_per_token() {
    let tokens = lex("l.src", "a\nbb = 10").unwrap();
    assert_eq!(
        tokens.to_string(),
        "1:0   Ident   a\n2:0   Ident   bb\n2:3   Equal   =\n2:5   Num     10\n"
    );
}

#[test]
fn listing_pads_columns_and_lines() {
    let tokens = lex("l.src", "\n\n\n\n\n\n\n\n\n            a \"s\"").unwrap();
    assert_eq!(tokens.to_string(), "10:12   Ident    a\n10:14   String   \"s\"\n");
    let tokens = lex("l.src", "\n\n\n\n\n\n\n\n\n\na\n           b").unwrap();
    assert_eq!(tokens.to_string(), "11:0    Ident   a\n12:11   Ident   b\n");
    let tokens = lex("l.src", "a\n\n\n\n\n\n\n\n\n\n\nb").unwrap();
    assert_eq!(tokens.to_string(), " 1:0   Ident   a\n12:0   Ident   b\n");
}

#[test]
fn listing_lines_up_columns_of_one_and_two_digits() {
    let tokens = lex("l.src", "a  b      c").unwrap();
    assert_eq!(tokens.to_string(), "1:0    Ident   a\n1:3    Ident   b\n1:10   Ident   c\n");
    let tokens = lex("l.src", "\n\n\n\n\n\n\n\na\nb\nc").unwrap();
    assert_eq!(tokens.to_string(), " 9:0   Ident   a\n10:0   Ident   b\n11:0   Ident   c\n");
}

#[test]
fn listing_kinds_start_in_one_column() {
    let code = "a (\n\n\n\n\n\n\n\n\n          $\"x{y}z\" ) // c\n";
    let tokens = lex("l.src", code).unwrap();
    let listing = tokens.to_string();
    let lines: Vec<&str> = listing.lines().collect();
    assert_eq!(lines.len(), 6);
    // Two digits for the lines, a colon, two digits for the columns, three
    // spaces; then the kind, in a column as wide as `StringInterpBeg`.
    for (i, line) in lines.iter().enumerate() {
        assert_eq!(line.find(':'), Some(2));
        assert!(line[8..].starts_with(tokens.types[i].name()));
        assert_eq!(&line[8 + 15..8 + 18], "   ");
        assert_eq!(&line[8 + 18..], tokens.spans[i].slice);
    }
    assert_eq!(lines[0], " 1:0    Ident             a");
    assert_eq!(lines[2], "10:12   StringInterpBeg   x");
}

#[test]
fn listing_of_no_tokens_is_empty() {
    assert_eq!(lex("l.src", "  // nothing\n").unwrap().to_string(), "");
}

#[test]
fn listing_shows_text_beyond_ascii() {
    let tokens = lex("l.src", "\"\u{e9}\"").unwrap();
    assert_eq!(tokens.to_string(), "1:0   String   \"\u{e9}\"\n");
}

#[test]
fn kind_names() {
    assert_eq!(TokenType::StringInterpBeg.name(), "StringInterpBeg");
    assert_eq!(TokenType::And.name(), "And");
    assert_eq!(TokenType::Num.name(), "Num");
    assert_eq!(TokenType::LParens.name(), "LParens");
    assert_eq!(TokenType::RBrace.name(), format!("{:?}", TokenType::RBrace));
    assert_eq!(TokenType::GreaterEqual.name(), format!("{:?}", TokenType::GreaterEqual));
}

#[test]
fn decimal_notation() {
    assert_eq!(decimal_string(0), "0");
    assert_eq!(decimal_string(7), "7");
    assert_eq!(decimal_string(10), "10");
    assert_eq!(decimal_string(1234567890), "1234567890");
    assert_eq!(decimal_string(u128::MAX), u128::MAX.to_string());
}

#[test]
fn digit_counts() {
    assert_eq!(digit_count(0), 1);
    assert_eq!(digit_count(1), 1);
    assert_eq!(digit_count(9), 1);
    assert_eq!(digit_count(10), 2);
    assert_eq!(digit_count(99), 2);
    assert_eq!(digit_count(100), 3);
    assert_eq!(digit_count(1000), 4);
    assert_eq!(digit_count(usize::MAX), usize::MAX.to_string().len());
}

#[test]
fn error_report_counts_columns_from_one() {
    let error = lex("dir/file.src", "\"abc").unwrap_err();
    assert_eq!(error.to_string(), "dir/file.src:1:1: Unfinished string");
    let error = lex("f", "a\n  (").unwrap_err();
    assert_eq!(error.to_string(), "f:2:3: Unclosed parenthesis");
}

#[test]
fn every_error_has_its_message() {
    let cases = [
        ("$\"a", LexErrorKind::UnterminatedInterpolatedString, "Unfinished interpolated string"),
        ("\"a", LexErrorKind::UnterminatedString, "Unfinished string"),
        ("'a", LexErrorKind::UnterminatedChar, "Unfinished char"),
        ("(", LexErrorKind::UnclosedParenthesis, "Unclosed parenthesis"),
        ("[", LexErrorKind::UnclosedBracket, "Unclosed bracket"),
        ("{", LexErrorKind::UnclosedBrace, "Unclosed brace"),
        ("#", LexErrorKind::UnrecognizedToken, "Cannot parse token"),
    ];
    for (code, kind, message) in cases {
        let error = lex("f", code).unwrap_err();
        assert_eq!(error.kind, kind);
        assert_eq!(kind.describe(), message);
        assert_eq!(error.to_string(), format!("f:1:1: {message}"));
    }
}

#[test]
fn report_of_an_error_made_by_hand() {
    let error = LexError {
        file: String::from("x"),
        line: 12,
        col: usize::MAX,
        kind: LexErrorKind::UnclosedBrace,
    };
    let column = usize::MAX as u128 + 1;
    assert_eq!(error.to_string(), format!("x:12:{column}: Unclosed brace"));
}
