use lexer::lexer::{lex, TokenType};

fn kinds(code: &str) -> Vec<TokenType> {
    lex("words.src", code).expect("the text is well-formed").types
}

fn texts(code: &str) -> Vec<String> {
    let tokens = lex("words.src", code).expect("the text is well-formed");
    tokens.spans.iter().map(|span| span.slice.to_string()).collect()
}

#[test]
fn keyword_needs_the_whole_word() {
    assert_eq!(kinds("if"), vec![TokenType::If]);
    assert_eq!(kinds("ifx"), vec![TokenType::Ident]);
    assert_eq!(texts("ifx"), vec!["ifx"]);
}

#[test]
fn longer_words_that_begin_with_a_keyword_are_identifiers() {
    assert_eq!(kinds("continued"), vec![TokenType::Ident]);
    assert_eq!(kinds("structx"), vec![TokenType::Ident]);
    assert_eq!(kinds("order"), vec![TokenType::Ident]);
    assert_eq!(kinds("fns"), vec![TokenType::Ident]);
    assert_eq!(kinds("publish"), vec![TokenType::Ident]);
    assert_eq!(texts("continued"), vec!["continued"]);
}

#[test]
fn every_keyword() {
    assert_eq!(
        kinds(
            "continue packed struct union defer while break enum then else loop and xor not pub \
             or fn if do"
        ),
        vec![
            TokenType::Continue,
            TokenType::Packed,
            TokenType::Struct,
            TokenType::Union,
            TokenType::Defer,
            TokenType::While,
            TokenType::Break,
            TokenType::Enum,
            TokenType::Then,
            TokenType::Else,
            TokenType::Loop,
            TokenType::And,
            TokenType::Xor,
            TokenType::Not,
            TokenType::Pub,
            TokenType::Or,
            TokenType::Fn,
            TokenType::If,
            TokenType::Do,
        ]
    );
}

#[test]
fn keywords_are_case_sensitive() {
    assert_eq!(kinds("If IF iF"), vec![TokenType::Ident, TokenType::Ident, TokenType::Ident]);
}

#[test]
fn identifiers_take_underscores_and_digits() {
    assert_eq!(kinds("_a1 __ a_b_9 Z"), vec![TokenType::Ident; 4]);
    assert_eq!(texts("_a1 __ a_b_9 Z"), vec!["_a1", "__", "a_b_9", "Z"]);
}

#[test]
fn identifier_ends_at_the_end_of_the_text() {
    assert_eq!(texts("abc"), vec!["abc"]);
    assert_eq!(texts("a"), vec!["a"]);
}

#[test]
fn keyword_span_is_the_whole_word() {
    let tokens = lex("words.src", "  while").unwrap();
    assert_eq!(tokens.types, vec![TokenType::While]);
    assert_eq!(tokens.spans[0].slice, "while");
    assert_eq!((tokens.spans[0].line, tokens.spans[0].col), (1, 2));
}

#[test]
fn a_letter_before_a_quote_opens_a_literal_only_for_b_and_c() {
    assert_eq!(kinds("b\"x\""), vec![TokenType::String]);
    assert_eq!(kinds("c\"x\""), vec![TokenType::String]);
    assert_eq!(kinds("d\"x\""), vec![TokenType::Ident, TokenType::String]);
    assert_eq!(kinds("b'x'"), vec![TokenType::Char]);
    assert_eq!(kinds("c'x'"), vec![TokenType::Ident, TokenType::Char]);
}
