use lexer::lexer::{lex, LexErrorKind, TokenType};

fn kinds(code: &str) -> Vec<TokenType> {
    lex("i.src", code).expect("the text is well-formed").types
}

fn texts(code: &str) -> Vec<String> {
    let tokens = lex("i.src", code).expect("the text is well-formed");
    tokens.spans.iter().map(|span| span.slice.to_string()).collect()
}

#[test]
fn interpolation_yields_segments_and_code() {
    let tokens = lex("i.src", "$\"a{1+2}b\"").unwrap();
    assert_eq!(
        tokens.types,
        vec![
            TokenType::StringInterpBeg,
            TokenType::Num,
            TokenType::Plus,
            TokenType::Num,
            TokenType::StringInterpEnd,
        ]
    );
    let slices: Vec<&str> = tokens.spans.iter().map(|span| span.slice).collect();
    assert_eq!(slices, vec!["a", "1", "+", "2", "b"]);
    let cols: Vec<usize> = tokens.spans.iter().map(|span| span.col).collect();
    assert_eq!(cols, vec![2, 4, 5, 6, 8]);
    assert!(tokens.spans.iter().all(|span| span.line == 1));
}

#[test]
fn interpolated_string_without_interpolation_is_a_string() {
    let tokens = lex("i.src", "$\"abc\" x").unwrap();
    assert_eq!(tokens.types, vec![TokenType::String, TokenType::Ident]);
    assert_eq!(tokens.spans[0].slice, "abc");
    assert_eq!(tokens.spans[0].col, 2);
    assert_eq!(tokens.spans[1].col, 7);
}

#[test]
fn several_interpolations_have_middles() {
    assert_eq!(
        kinds("$\"a{x}b{y}c{z}d\""),
        vec![
            TokenType::StringInterpBeg,
            TokenType::Ident,
            TokenType::StringInterpMid,
            TokenType::Ident,
            TokenType::StringInterpMid,
            TokenType::Ident,
            TokenType::StringInterpEnd,
        ]
    );
    assert_eq!(texts("$\"a{x}b{y}c{z}d\""), vec!["a", "x", "b", "y", "c", "z", "d"]);
}

#[test]
fn empty_segments_are_tokens_too() {
    let tokens = lex("i.src", "$\"{x}{y}\"").unwrap();
    assert_eq!(
        tokens.types,
        vec![
            TokenType::StringInterpBeg,
            TokenType::Ident,
            TokenType::StringInterpMid,
            TokenType::Ident,
            TokenType::StringInterpEnd,
        ]
    );
    let slices: Vec<&str> = tokens.spans.iter().map(|span| span.slice).collect();
    assert_eq!(slices, vec!["", "x", "", "y", ""]);
    let cols: Vec<usize> = tokens.spans.iter().map(|span| span.col).collect();
    assert_eq!(cols, vec![2, 3, 5, 6, 8]);
}

#[test]
fn escaped_quote_and_brace_stay_in_the_segment() {
    let tokens = lex("i.src", "$\"a\\\"b\\{c\" x").unwrap();
    assert_eq!(tokens.types, vec![TokenType::String, TokenType::Ident]);
    assert_eq!(tokens.spans[0].slice, "a\\\"b\\{c");
}

#[test]
fn white_space_around_the_interpolated_code() {
    assert_eq!(
        kinds("$\"a{ x + 1 }b\""),
        vec![
            TokenType::StringInterpBeg,
            TokenType::Ident,
            TokenType::Plus,
            TokenType::Num,
            TokenType::StringInterpEnd,
        ]
    );
}

#[test]
fn braces_inside_the_interpolated_code_nest() {
    assert_eq!(
        kinds("$\"a{ {1} }b\""),
        vec![
            TokenType::StringInterpBeg,
            TokenType::LBrace,
            TokenType::Num,
            TokenType::RBrace,
            TokenType::StringInterpEnd,
        ]
    );
}

#[test]
fn strings_nest_inside_interpolations() {
    assert_eq!(
        kinds("$\"a{ \"}\" }b\""),
        vec![TokenType::StringInterpBeg, TokenType::String, TokenType::StringInterpEnd]
    );
    assert_eq!(
        kinds("$\"a{ $\"b{c}d\" }e\""),
        vec![
            TokenType::StringInterpBeg,
            TokenType::StringInterpBeg,
            TokenType::Ident,
            TokenType::StringInterpEnd,
            TokenType::StringInterpEnd,
        ]
    );
    assert_eq!(texts("$\"a{ $\"b{c}d\" }e\""), vec!["a", "b", "c", "d", "e"]);
}

#[test]
fn line_feeds_inside_segments_and_code_are_recorded() {
    let tokens = lex("i.src", "$\"a\nb{\nx}c\n\" y").unwrap();
    assert_eq!(
        tokens.types,
        vec![
            TokenType::StringInterpBeg,
            TokenType::Ident,
            TokenType::StringInterpEnd,
            TokenType::Ident,
        ]
    );
    assert_eq!(tokens.line_breaks, vec![3, 6, 10]);
    let places: Vec<(usize, usize)> = tokens.spans.iter().map(|s| (s.line, s.col)).collect();
    assert_eq!(places, vec![(1, 2), (3, 0), (3, 2), (4, 2)]);
    assert_eq!(tokens.spans[0].slice, "a\nb");
    assert_eq!(tokens.spans[2].slice, "c\n");
}

#[test]
fn unterminated_interpolated_string_is_blamed_on_its_dollar() {
    let error = lex("i.src", "x $\"abc").unwrap_err();
    assert_eq!(error.kind, LexErrorKind::UnterminatedInterpolatedString);
    assert_eq!((error.line, error.col), (1, 2));
    let error = lex("i.src", "$\"").unwrap_err();
    assert_eq!(error.kind, LexErrorKind::UnterminatedInterpolatedString);
    assert_eq!((error.line, error.col), (1, 0));
}

#[test]
fn unterminated_interpolation_is_blamed_on_the_dollar() {
    let error = lex("i.src", "$\"a{1").unwrap_err();
    assert_eq!(error.kind, LexErrorKind::UnterminatedInterpolatedString);
    assert_eq!((error.line, error.col), (1, 0));
}

#[test]
fn unterminated_later_segment_is_blamed_on_the_closing_brace_before_it() {
    let error = lex("i.src", "$\"a{1}b").unwrap_err();
    assert_eq!(error.kind, LexErrorKind::UnterminatedInterpolatedString);
    assert_eq!((error.line, error.col), (1, 5));
    let error = lex("i.src", "$\"a{1}b{2").unwrap_err();
    assert_eq!(error.kind, LexErrorKind::UnterminatedInterpolatedString);
    assert_eq!((error.line, error.col), (1, 5));
}

#[test]
fn error_inside_the_interpolated_code_comes_first() {
    let error = lex("i.src", "$\"a{ 'x }b\"").unwrap_err();
    assert_eq!(error.kind, LexErrorKind::UnterminatedChar);
    assert_eq!((error.line, error.col), (1, 5));
    // Inside the parenthesis the `}` is a token like any other, so the `b` and
    // the quote after it open a byte string that never ends.
    let error = lex("i.src", "$\"a{ (1 }b\"").unwrap_err();
    assert_eq!(error.kind, LexErrorKind::UnterminatedString);
    assert_eq!((error.line, error.col), (1, 9));
}
