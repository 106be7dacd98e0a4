use lexer::lexer::{lex, TokenType};

fn kinds(code: &str) -> Vec<TokenType> {
    lex("ops.src", code).expect("the text is well-formed").types
}

fn texts(code: &str) -> Vec<String> {
    let tokens = lex("ops.src", code).expect("the text is well-formed");
    tokens.spans.iter().map(|span| span.slice.to_string()).collect()
}

#[test]
fn arrow_is_one_token() {
    assert_eq!(kinds("->"), vec![TokenType::Arrow]);
    assert_eq!(texts("->"), vec!["->"]);
}

#[test]
fn double_minus_is_one_token() {
    assert_eq!(kinds("--"), vec![TokenType::Decr]);
    assert_eq!(texts("--"), vec!["--"]);
}

#[test]
fn every_two_byte_operator() {
    assert_eq!(
        kinds("== != <= >= >- -> << >> ++ -- **"),
        vec![
            TokenType::Equals,
            TokenType::NotEquals,
            TokenType::LessEqual,
            TokenType::GreaterEqual,
            TokenType::Feather,
            TokenType::Arrow,
            TokenType::LShift,
            TokenType::RShift,
            TokenType::Incr,
            TokenType::Decr,
            TokenType::Pow,
        ]
    );
}

#[test]
fn every_one_byte_operator() {
    assert_eq!(
        kinds("% < > & | ^ ~ + - * / = ; : , . ) ] }"),
        vec![
            TokenType::Modulo,
            TokenType::LessThan,
            TokenType::GreaterThan,
            TokenType::Ampersand,
            TokenType::Pipe,
            TokenType::Caret,
            TokenType::Tilde,
            TokenType::Plus,
            TokenType::Minus,
            TokenType::Mul,
            TokenType::Div,
            TokenType::Equal,
            TokenType::Semi,
            TokenType::Colon,
            TokenType::Comma,
            TokenType::Dot,
            TokenType::RParens,
            TokenType::RBracket,
            TokenType::RBrace,
        ]
    );
}

#[test]
fn three_equal_signs_split_two_and_one() {
    assert_eq!(kinds("==="), vec![TokenType::Equals, TokenType::Equal]);
    assert_eq!(texts("==="), vec!["==", "="]);
}

#[test]
fn three_minus_signs_split_two_and_one() {
    assert_eq!(kinds("---"), vec![TokenType::Decr, TokenType::Minus]);
}

#[test]
fn minus_then_arrow_reads_left_to_right() {
    assert_eq!(kinds("-->"), vec![TokenType::Decr, TokenType::GreaterThan]);
    assert_eq!(kinds(">->"), vec![TokenType::Feather, TokenType::GreaterThan]);
}

#[test]
fn operator_span_covers_the_matched_bytes() {
    let tokens = lex("ops.src", "a<=b").unwrap();
    assert_eq!(tokens.types, vec![TokenType::Ident, TokenType::LessEqual, TokenType::Ident]);
    assert_eq!(tokens.spans[1].slice, "<=");
    assert_eq!(tokens.spans[1].col, 1);
    assert_eq!(tokens.spans[2].col, 3);
}

#[test]
fn slash_alone_is_division_and_two_are_a_comment() {
    assert_eq!(kinds("a / b"), vec![TokenType::Ident, TokenType::Div, TokenType::Ident]);
    assert_eq!(kinds("a // b"), vec![TokenType::Ident]);
}
