//! The lexer at its boundary: merged operators, stripped comments and
//! whitespace, token text, line numbers, and the end sentinel.

use expr_vm::lex::{lex, TokenType};

fn kinds(src: &str) -> Vec<TokenType> {
    lex(src).expect("lexing failed").iter().map(|t| t.kind).collect()
}

#[test]
fn single_character_tokens() {
    assert_eq!(
        kinds("(){},.;+-*/"),
        vec![
            TokenType::LeftParen,
            TokenType::RightParen,
            TokenType::LeftBrace,
            TokenType::RightBrace,
            TokenType::Comma,
            TokenType::Dot,
            TokenType::Semicolon,
            TokenType::Plus,
            TokenType::Minus,
            TokenType::Star,
            TokenType::Slash,
            TokenType::Eof,
        ]
    );
}

#[test]
fn two_character_operators_merge() {
    assert_eq!(
        kinds(">= <= == != > < = !"),
        vec![
            TokenType::GreaterEqual,
            TokenType::LessEqual,
            TokenType::EqualEqual,
            TokenType::BangEqual,
            TokenType::Greater,
            TokenType::Less,
            TokenType::Equal,
            TokenType::Bang,
            TokenType::Eof,
        ]
    );
}

#[test]
fn keywords_and_identifiers() {
    assert_eq!(
        kinds("and klass true nil whilee while"),
        vec![
            TokenType::And,
            TokenType::Identifier,
            TokenType::True,
            TokenType::Nil,
            TokenType::Identifier,
            TokenType::While,
            TokenType::Eof,
        ]
    );
}

#[test]
fn comments_and_whitespace_are_stripped() {
    let tokens = lex("1 // a comment\n2").unwrap();
    assert_eq!(tokens.len(), 3);
    assert_eq!(tokens[0].kind, TokenType::Number);
    assert_eq!(tokens[0].line_num, 0);
    assert_eq!(tokens[1].kind, TokenType::Number);
    assert_eq!(tokens[1].line_num, 1);
    assert_eq!(tokens[2].kind, TokenType::Eof);
}

#[test]
fn number_token_text() {
    let tokens = lex("12.5").unwrap();
    assert_eq!(tokens[0].kind, TokenType::Number);
    assert_eq!(tokens[0].content, "12.5");
    let tokens = lex("3.x").unwrap();
    assert_eq!(tokens[0].content, "3.");
    assert_eq!(tokens[1].kind, TokenType::Identifier);
}

#[test]
fn string_token_text_keeps_quotes() {
    let tokens = lex("\"hi\"").unwrap();
    assert_eq!(tokens[0].kind, TokenType::Str);
    assert_eq!(tokens[0].content, "\"hi\"");
    let tokens = lex("\"\"").unwrap();
    assert_eq!(tokens[0].content, "\"\"");
}

#[test]
fn eof_sentinel_terminates_the_stream() {
    let tokens = lex("").unwrap();
    assert_eq!(tokens.len(), 1);
    assert_eq!(tokens[0].kind, TokenType::Eof);
    assert_eq!(tokens[0].content, "");
}
