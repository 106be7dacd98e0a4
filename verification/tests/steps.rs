use lexer::lexer::{consume_token, consume_until, Cursor, LexErrorKind, Step, TokenSpan, TokenType, Tokens};

#[test]
fn span_new_keeps_its_arguments() {
    let span = TokenSpan::new("abc", 3, 7);
    assert_eq!(span.slice, "abc");
    assert_eq!(span.line, 3);
    assert_eq!(span.col, 7);
}

#[test]
fn new_stream_is_empty() {
    let tokens = Tokens::new("a b");
    assert_eq!(tokens.code, "a b");
    assert!(tokens.line_breaks.is_empty());
    assert!(tokens.spans.is_empty());
    assert!(tokens.types.is_empty());
    let cursor = Cursor::new();
    assert_eq!((cursor.pos, cursor.line_start), (0, 0));
}

#[test]
fn one_step_is_one_unit() {
    let mut tokens = Tokens::new("ab \n // c\n(1 2) $\"x{y}\"");
    let mut cursor = Cursor::new();

    let step = consume_token("st.src", &mut cursor, &mut tokens).unwrap();
    assert_eq!(step, Step::TokensEmitted(1));
    assert_eq!(cursor.pos, 2);

    // White space and the comment behind it are one unit without a token.
    let step = consume_token("st.src", &mut cursor, &mut tokens).unwrap();
    assert_eq!(step, Step::Progress);
    assert_eq!((cursor.pos, cursor.line_start), (9, 4));
    assert_eq!(tokens.line_breaks, vec![3]);
    assert_eq!(tokens.types.len(), 1);

    // The line feed and the group behind it are one unit.
    let step = consume_token("st.src", &mut cursor, &mut tokens).unwrap();
    assert_eq!(step, Step::TokensEmitted(4));
    assert_eq!((cursor.pos, cursor.line_start), (15, 10));
    assert_eq!(tokens.line_breaks, vec![3, 9]);

    let step = consume_token("st.src", &mut cursor, &mut tokens).unwrap();
    assert_eq!(step, Step::TokensEmitted(3));
    assert_eq!(cursor.pos, 23);

    let step = consume_token("st.src", &mut cursor, &mut tokens).unwrap();
    assert_eq!(step, Step::Progress);
    assert_eq!(cursor.pos, 23);
    assert_eq!(
        tokens.types,
        vec![
            TokenType::Ident,
            TokenType::LParens,
            TokenType::Num,
            TokenType::Num,
            TokenType::RParens,
            TokenType::StringInterpBeg,
            TokenType::Ident,
            TokenType::StringInterpEnd,
        ]
    );
}

#[test]
fn one_step_passes_white_space_and_reads_the_token_behind_it() {
    let mut tokens = Tokens::new(" \nb;");
    let mut cursor = Cursor::new();
    let step = consume_token("st.src", &mut cursor, &mut tokens).unwrap();
    assert_eq!(step, Step::TokensEmitted(1));
    assert_eq!((cursor.pos, cursor.line_start), (3, 2));
    assert_eq!(tokens.line_breaks, vec![1]);
    assert_eq!(tokens.types, vec![TokenType::Ident]);
    assert_eq!(tokens.spans.len(), 1);
    assert_eq!(tokens.spans[0].slice, "b");
    assert_eq!((tokens.spans[0].line, tokens.spans[0].col), (2, 0));
    assert_eq!(&tokens.code[cursor.pos..], ";");
}

#[test]
fn white_space_up_to_the_end_is_a_step_without_a_token() {
    let mut tokens = Tokens::new("a \n ");
    let mut cursor = Cursor::new();
    assert_eq!(consume_token("st.src", &mut cursor, &mut tokens).unwrap(), Step::TokensEmitted(1));
    assert_eq!(consume_token("st.src", &mut cursor, &mut tokens).unwrap(), Step::Progress);
    assert_eq!((cursor.pos, cursor.line_start), (4, 3));
    assert_eq!(tokens.line_breaks, vec![2]);
    assert_eq!(tokens.types, vec![TokenType::Ident]);
}

#[test]
fn an_unrecognized_byte_leaves_the_stream_as_it_was() {
    let mut tokens = Tokens::new("@");
    let mut cursor = Cursor::new();
    let error = consume_token("st.src", &mut cursor, &mut tokens).unwrap_err();
    assert_eq!(error.kind, LexErrorKind::UnrecognizedToken);
    assert_eq!((error.line, error.col), (1, 0));
    assert!(tokens.types.is_empty());
    assert!(tokens.spans.is_empty());
    assert!(tokens.line_breaks.is_empty());
    assert_eq!(tokens.code, "@");
    assert_eq!((cursor.pos, cursor.line_start), (0, 0));
}

#[test]
fn an_unrecognized_byte_behind_white_space_stops_the_cursor_at_it() {
    let mut tokens = Tokens::new("a \n@");
    let mut cursor = Cursor::new();
    consume_token("st.src", &mut cursor, &mut tokens).unwrap();
    let error = consume_token("st.src", &mut cursor, &mut tokens).unwrap_err();
    assert_eq!(error.kind, LexErrorKind::UnrecognizedToken);
    assert_eq!((error.line, error.col), (2, 0));
    assert_eq!(tokens.types, vec![TokenType::Ident]);
    assert_eq!(tokens.line_breaks, vec![2]);
    assert_eq!((cursor.pos, cursor.line_start), (3, 3));
}

#[test]
fn a_failure_keeps_the_tokens_before_it() {
    let mut tokens = Tokens::new("a (1 @");
    let mut cursor = Cursor::new();
    let error = consume_until("st.src", &mut cursor, &mut tokens, None).unwrap_err();
    assert_eq!(error.kind, LexErrorKind::UnrecognizedToken);
    assert_eq!((error.line, error.col), (1, 5));
    assert_eq!(tokens.code, "a (1 @");
    assert_eq!(tokens.types[..3], [TokenType::Ident, TokenType::LParens, TokenType::Num]);
    assert_eq!(tokens.spans[0].slice, "a");
    assert_eq!(tokens.spans[2].slice, "1");
}

#[test]
fn a_failing_step_reports_the_file() {
    let mut tokens = Tokens::new("'a");
    let mut cursor = Cursor::new();
    let error = consume_token("dir/st.src", &mut cursor, &mut tokens).unwrap_err();
    assert_eq!(error.kind, LexErrorKind::UnterminatedChar);
    assert_eq!(error.file, "dir/st.src");
}

#[test]
fn units_up_to_a_closing_byte() {
    let mut tokens = Tokens::new("a b ] c");
    let mut cursor = Cursor::new();
    consume_until("st.src", &mut cursor, &mut tokens, Some(b']')).unwrap();
    assert_eq!(cursor.pos, 4);
    assert_eq!(tokens.types, vec![TokenType::Ident, TokenType::Ident]);
    // The closing byte itself is the next unit.
    consume_until("st.src", &mut cursor, &mut tokens, Some(b')')).unwrap();
    assert_eq!(cursor.pos, 7);
    assert_eq!(
        tokens.types,
        vec![TokenType::Ident, TokenType::Ident, TokenType::RBracket, TokenType::Ident]
    );
}

#[test]
fn units_up_to_the_end_of_the_text() {
    let mut tokens = Tokens::new("a ) b");
    let mut cursor = Cursor::new();
    consume_until("st.src", &mut cursor, &mut tokens, None).unwrap();
    assert_eq!(cursor.pos, 5);
    assert_eq!(tokens.types, vec![TokenType::Ident, TokenType::RParens, TokenType::Ident]);
}

#[test]
fn a_step_at_the_end_of_the_text_does_nothing() {
    let mut tokens = Tokens::new("a");
    let mut cursor = Cursor::new();
    assert_eq!(consume_token("st.src", &mut cursor, &mut tokens).unwrap(), Step::TokensEmitted(1));
    assert_eq!(consume_token("st.src", &mut cursor, &mut tokens).unwrap(), Step::Progress);
    assert_eq!(cursor.pos, 1);
    assert_eq!(tokens.types, vec![TokenType::Ident]);
    let mut tokens = Tokens::new("");
    let mut cursor = Cursor::new();
    assert_eq!(consume_token("st.src", &mut cursor, &mut tokens).unwrap(), Step::Progress);
    assert!(tokens.types.is_empty());
}
