use lexer::lexer::{lex, TokenType, Tokens};

fn places(tokens: &Tokens) -> Vec<(usize, usize)> {
    tokens.spans.iter().map(|span| (span.line, span.col)).collect()
}

/// The offset that a token's line and column give, going by the line breaks.
fn offset_of(tokens: &Tokens, i: usize) -> usize {
    let span = &tokens.spans[i];
    let origin = if span.line <= 1 { 0 } else { tokens.line_breaks[span.line - 2] + 1 };
    origin + span.col
}

#[test]
fn empty_text_has_no_tokens() {
    let tokens = lex("p.src", "").unwrap();
    assert!(tokens.types.is_empty());
    assert!(tokens.spans.is_empty());
    assert!(tokens.line_breaks.is_empty());
    assert_eq!(tokens.code, "");
}

#[test]
fn white_space_alone_has_no_tokens() {
    let tokens = lex("p.src", " \t\r\n \x0c\n").unwrap();
    assert!(tokens.types.is_empty());
    assert_eq!(tokens.line_breaks, vec![3, 6]);
}

#[test]
fn the_stream_keeps_the_source() {
    let code = "a + b";
    let tokens = lex("p.src", code).unwrap();
    assert_eq!(tokens.code, code);
}

#[test]
fn lines_count_from_one_and_columns_from_zero() {
    let tokens = lex("p.src", "a\nbb c\n\n  d").unwrap();
    assert_eq!(tokens.types, vec![TokenType::Ident; 4]);
    assert_eq!(places(&tokens), vec![(1, 0), (2, 0), (2, 3), (4, 2)]);
    assert_eq!(tokens.line_breaks, vec![1, 6, 7]);
}

#[test]
fn token_right_after_a_line_feed_is_in_column_zero() {
    let tokens = lex("p.src", "a\nb\n\nc").unwrap();
    assert_eq!(places(&tokens), vec![(1, 0), (2, 0), (4, 0)]);
    for i in 1..tokens.spans.len() {
        let line = tokens.spans[i].line;
        assert_eq!(tokens.spans[i].col, 0);
        assert_eq!(tokens.line_breaks[line - 2] + 1, offset_of(&tokens, i));
    }
}

#[test]
fn every_line_feed_between_tokens_is_recorded() {
    // A line feed that follows other white space counts like any other.
    let tokens = lex("p.src", "a \n \n b").unwrap();
    assert_eq!(tokens.line_breaks, vec![2, 4]);
    assert_eq!(places(&tokens), vec![(1, 0), (3, 1)]);
}

#[test]
fn carriage_returns_are_white_space() {
    let tokens = lex("p.src", "a\r\nb\r\n").unwrap();
    assert_eq!(places(&tokens), vec![(1, 0), (2, 0)]);
    assert_eq!(tokens.line_breaks, vec![2, 5]);
}

#[test]
fn comment_runs_to_the_end_of_its_line() {
    let tokens = lex("p.src", "a // b c\nd").unwrap();
    assert_eq!(tokens.types, vec![TokenType::Ident, TokenType::Ident]);
    assert_eq!(places(&tokens), vec![(1, 0), (2, 0)]);
    assert_eq!(tokens.line_breaks, vec![8]);
}

#[test]
fn comment_may_end_the_text() {
    let tokens = lex("p.src", "a // last words").unwrap();
    assert_eq!(tokens.types, vec![TokenType::Ident]);
    let tokens = lex("p.src", "//").unwrap();
    assert!(tokens.types.is_empty());
}

#[test]
fn comment_hides_quotes_and_brackets() {
    let tokens = lex("p.src", "// \" ( [ {\nx").unwrap();
    assert_eq!(tokens.types, vec![TokenType::Ident]);
    assert_eq!(places(&tokens), vec![(2, 0)]);
}

#[test]
fn spans_reproduce_the_source_at_their_offsets() {
    let code = "fn main() {\n    x = $\"a{y + 1}\nb\";\n    s = \"two\nlines\"; // done\n}\n";
    let tokens = lex("p.src", code).unwrap();
    assert_eq!(tokens.spans.len(), tokens.types.len());
    let mut previous_end = 0;
    for i in 0..tokens.spans.len() {
        let start = offset_of(&tokens, i);
        let end = start + tokens.spans[i].slice.len();
        assert_eq!(&code[start..end], tokens.spans[i].slice);
        assert!(previous_end <= start);
        previous_end = end;
    }
    let feeds: Vec<usize> =
        code.bytes().enumerate().filter(|(_, b)| *b == b'\n').map(|(i, _)| i).collect();
    assert_eq!(tokens.line_breaks, feeds);
}

#[test]
fn line_after_a_literal_grows_by_its_line_feeds() {
    let tokens = lex("p.src", "a \"1\n2\n3\" b").unwrap();
    assert_eq!(tokens.types, vec![TokenType::Ident, TokenType::String, TokenType::Ident]);
    assert_eq!(places(&tokens), vec![(1, 0), (1, 2), (3, 3)]);
    assert_eq!(tokens.line_breaks.len(), 2);
}

#[test]
fn a_small_program() {
    let code = "pub fn add(a, b) {\n    a + b // sum\n}\n";
    let tokens = lex("p.src", code).unwrap();
    assert_eq!(
        tokens.types,
        vec![
            TokenType::Pub,
            TokenType::Fn,
            TokenType::Ident,
            TokenType::LParens,
            TokenType::Ident,
            TokenType::Comma,
            TokenType::Ident,
            TokenType::RParens,
            TokenType::LBrace,
            TokenType::Ident,
            TokenType::Plus,
            TokenType::Ident,
            TokenType::RBrace,
        ]
    );
    assert_eq!(
        places(&tokens),
        vec![
            (1, 0),
            (1, 4),
            (1, 7),
            (1, 10),
            (1, 11),
            (1, 12),
            (1, 14),
            (1, 15),
            (1, 17),
            (2, 4),
            (2, 6),
            (2, 8),
            (3, 0),
        ]
    );
    assert_eq!(tokens.line_breaks, vec![18, 35, 37]);
}

#[test]
fn bytes_outside_the_tokens_are_white_space_comments_or_delimiters() {
    let code = "fn f(a) { // adds\n\tx = $\"sum {a + 1} and {b}\\{\" ; \"s // t\"\r\n} // end";
    let tokens = lex("p.src", code).unwrap();
    let bytes = code.as_bytes();
    let mut in_token = vec![false; bytes.len()];
    for i in 0..tokens.spans.len() {
        let start = offset_of(&tokens, i);
        for flag in &mut in_token[start..start + tokens.spans[i].slice.len()] {
            assert!(!*flag);
            *flag = true;
        }
    }
    let mut outside = 0;
    for at in 0..bytes.len() {
        if in_token[at] {
            continue;
        }
        outside += 1;
        let line_start = bytes[..at].iter().rposition(|b| *b == b'\n').map_or(0, |p| p + 1);
        let in_comment = code[line_start..]
            .match_indices("//")
            .any(|(c, _)| line_start + c <= at && !code[line_start + c..=at].contains('\n'));
        let delimiter = matches!(bytes[at], b'$' | b'"' | b'{' | b'}');
        assert!(bytes[at].is_ascii_whitespace() || in_comment || delimiter);
    }
    assert!(outside > 0);
    assert_eq!(
        tokens.spans.iter().map(|span| span.slice).collect::<Vec<_>>(),
        vec![
            "fn", "f", "(", "a", ")", "{", "x", "=", "sum ", "a", "+", "1", " and ", "b", "\\{",
            ";", "\"s // t\"", "}",
        ]
    );
}
