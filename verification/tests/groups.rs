use lexer::lexer::{lex, LexErrorKind, TokenType};

fn kinds(code: &str) -> Vec<TokenType> {
    lex("g.src", code).expect("the text is well-formed").types
}

#[test]
fn nested_groups_yield_every_token() {
    let tokens = lex("g.src", "(1 + [2 * 3])").unwrap();
    assert_eq!(
        tokens.types,
        vec![
            TokenType::LParens,
            TokenType::Num,
            TokenType::Plus,
            TokenType::LBracket,
            TokenType::Num,
            TokenType::Mul,
            TokenType::Num,
            TokenType::RBracket,
            TokenType::RParens,
        ]
    );
    let slices: Vec<&str> = tokens.spans.iter().map(|span| span.slice).collect();
    assert_eq!(slices, vec!["(", "1", "+", "[", "2", "*", "3", "]", ")"]);
    let cols: Vec<usize> = tokens.spans.iter().map(|span| span.col).collect();
    assert_eq!(cols, vec![0, 1, 3, 5, 6, 8, 10, 11, 12]);
}

#[test]
fn empty_groups() {
    assert_eq!(
        kinds("() [] {}"),
        vec![
            TokenType::LParens,
            TokenType::RParens,
            TokenType::LBracket,
            TokenType::RBracket,
            TokenType::LBrace,
            TokenType::RBrace,
        ]
    );
}

#[test]
fn white_space_and_comments_before_the_closing_byte() {
    assert_eq!(kinds("( 1 )"), vec![TokenType::LParens, TokenType::Num, TokenType::RParens]);
    assert_eq!(
        kinds("{\n  a // note )\n}\n"),
        vec![TokenType::LBrace, TokenType::Ident, TokenType::RBrace]
    );
}

#[test]
fn tokens_go_on_after_a_group() {
    assert_eq!(
        kinds("f(x) + 1"),
        vec![
            TokenType::Ident,
            TokenType::LParens,
            TokenType::Ident,
            TokenType::RParens,
            TokenType::Plus,
            TokenType::Num,
        ]
    );
}

#[test]
fn unclosed_parenthesis() {
    let error = lex("g.src", "a (1 + 2").unwrap_err();
    assert_eq!(error.kind, LexErrorKind::UnclosedParenthesis);
    assert_eq!((error.line, error.col), (1, 2));
}

#[test]
fn unclosed_bracket() {
    let error = lex("g.src", "[").unwrap_err();
    assert_eq!(error.kind, LexErrorKind::UnclosedBracket);
    assert_eq!((error.line, error.col), (1, 0));
}

#[test]
fn unclosed_brace_is_blamed_on_the_line_of_the_brace() {
    let error = lex("g.src", "fn f()\n  {\n  a\n").unwrap_err();
    assert_eq!(error.kind, LexErrorKind::UnclosedBrace);
    assert_eq!((error.line, error.col), (2, 2));
}

#[test]
fn innermost_unclosed_group_is_reported() {
    let error = lex("g.src", "( [ 1").unwrap_err();
    assert_eq!(error.kind, LexErrorKind::UnclosedBracket);
    assert_eq!((error.line, error.col), (1, 2));
    let error = lex("g.src", "( [ 1 ]").unwrap_err();
    assert_eq!(error.kind, LexErrorKind::UnclosedParenthesis);
    assert_eq!((error.line, error.col), (1, 0));
}

#[test]
fn closing_byte_of_another_kind_does_not_close() {
    let error = lex("g.src", "(1 ]").unwrap_err();
    assert_eq!(error.kind, LexErrorKind::UnclosedParenthesis);
    assert_eq!(
        kinds("(1 ] 2)"),
        vec![
            TokenType::LParens,
            TokenType::Num,
            TokenType::RBracket,
            TokenType::Num,
            TokenType::RParens,
        ]
    );
}

#[test]
fn closing_byte_without_a_group_is_a_token() {
    assert_eq!(kinds(") ] }"), vec![TokenType::RParens, TokenType::RBracket, TokenType::RBrace]);
    assert_eq!(kinds("(1))"), vec![
        TokenType::LParens,
        TokenType::Num,
        TokenType::RParens,
        TokenType::RParens,
    ]);
}

#[test]
fn closing_byte_inside_a_literal_does_not_close() {
    let error = lex("g.src", "( \")\" ").unwrap_err();
    assert_eq!(error.kind, LexErrorKind::UnclosedParenthesis);
    assert_eq!(
        kinds("( \")\" ')' )"),
        vec![TokenType::LParens, TokenType::String, TokenType::Char, TokenType::RParens]
    );
}

#[test]
fn error_inside_a_group_comes_first() {
    let error = lex("g.src", "( \"abc").unwrap_err();
    assert_eq!(error.kind, LexErrorKind::UnterminatedString);
    assert_eq!((error.line, error.col), (1, 2));
    let error = lex("g.src", "( # )").unwrap_err();
    assert_eq!(error.kind, LexErrorKind::UnrecognizedToken);
    assert_eq!((error.line, error.col), (1, 2));
}

#[test]
fn deep_nesting() {
    let depth = 200;
    let mut code = String::new();
    for _ in 0..depth {
        code.push('(');
    }
    code.push('x');
    for _ in 0..depth {
        code.push(')');
    }
    let tokens = lex("g.src", &code).unwrap();
    assert_eq!(tokens.types.len(), 2 * depth + 1);
    assert_eq!(tokens.types[depth], TokenType::Ident);
    assert_eq!(tokens.spans[depth].col, depth);
}
