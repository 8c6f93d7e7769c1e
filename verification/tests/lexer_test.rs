use lib::lex::lexer::{tokenize, Lexer};
use lib::lex::models::token::Token;
use lib::lex::models::token_type::TokenType;

fn kinds_and_texts(tokens: &[Token]) -> Vec<(TokenType, String)> {
    tokens.iter().map(|t| (t.token_type, t.value.clone())).collect()
}

#[test]
fn lexes_a_declaration() {
    let tokens = tokenize("let x: int = 5;".to_string());
    assert_eq!(
        kinds_and_texts(&tokens),
        vec![
            (TokenType::Keyword, "let".to_string()),
            (TokenType::Identifier, "x".to_string()),
            (TokenType::Colon, ":".to_string()),
            (TokenType::Type, "int".to_string()),
            (TokenType::Equals, "=".to_string()),
            (TokenType::Int, "5".to_string()),
            (TokenType::Semicolon, ";".to_string()),
            (TokenType::EOF, "".to_string()),
        ]
    );
}

#[test]
fn lexes_two_character_operators() {
    let tokens = tokenize("a <= b != c == d >= e < f".to_string());
    let ops: Vec<String> = tokens
        .iter()
        .filter(|t| t.token_type == TokenType::Operator)
        .map(|t| t.value.clone())
        .collect();
    assert_eq!(ops, vec!["<=", "!=", "==", ">=", "<"]);
}

#[test]
fn lexes_numbers_strings_and_booleans() {
    let tokens = tokenize("3.25 42 \"hi there\" 'x' true false".to_string());
    assert_eq!(
        kinds_and_texts(&tokens),
        vec![
            (TokenType::Float, "3.25".to_string()),
            (TokenType::Int, "42".to_string()),
            (TokenType::String, "hi there".to_string()),
            (TokenType::String, "x".to_string()),
            (TokenType::Bool, "true".to_string()),
            (TokenType::Bool, "false".to_string()),
            (TokenType::EOF, "".to_string()),
        ]
    );
}

#[test]
fn lexes_punctuation_and_keywords() {
    let tokens = tokenize("function f(a, b) { return a % b; } if else".to_string());
    let kinds: Vec<TokenType> = tokens.iter().map(|t| t.token_type).collect();
    assert_eq!(
        kinds,
        vec![
            TokenType::Keyword,
            TokenType::Identifier,
            TokenType::LeftParen,
            TokenType::Identifier,
            TokenType::Comma,
            TokenType::Identifier,
            TokenType::RightParen,
            TokenType::LeftBracket,
            TokenType::Keyword,
            TokenType::Identifier,
            TokenType::Operator,
            TokenType::Identifier,
            TokenType::Semicolon,
            TokenType::RightBracket,
            TokenType::Keyword,
            TokenType::Keyword,
            TokenType::EOF,
        ]
    );
}

#[test]
fn empty_input_gives_only_end_of_input() {
    let tokens = tokenize("   \n\t ".to_string());
    assert_eq!(kinds_and_texts(&tokens), vec![(TokenType::EOF, "".to_string())]);
}

#[test]
fn end_of_input_repeats() {
    let mut lexer = Lexer::new("x".to_string());
    assert_eq!(lexer.next_token().token_type, TokenType::Identifier);
    assert_eq!(lexer.next_token().token_type, TokenType::EOF);
    assert_eq!(lexer.next_token().token_type, TokenType::EOF);
}

#[test]
fn unterminated_string_runs_to_the_end() {
    let tokens = tokenize("\"abc".to_string());
    assert_eq!(
        kinds_and_texts(&tokens),
        vec![(TokenType::String, "abc".to_string()), (TokenType::EOF, "".to_string())]
    );
}

#[test]
fn number_stops_at_second_dot() {
    let tokens = tokenize("1.2.3".to_string());
    assert_eq!(
        kinds_and_texts(&tokens),
        vec![
            (TokenType::Float, "1.2".to_string()),
            (TokenType::Identifier, ".".to_string()),
            (TokenType::Int, "3".to_string()),
            (TokenType::EOF, "".to_string()),
        ]
    );
}

#[test]
fn bang_is_an_operator() {
    let tokens = tokenize("!x != y".to_string());
    assert_eq!(
        kinds_and_texts(&tokens),
        vec![
            (TokenType::Operator, "!".to_string()),
            (TokenType::Identifier, "x".to_string()),
            (TokenType::Operator, "!=".to_string()),
            (TokenType::Identifier, "y".to_string()),
            (TokenType::EOF, "".to_string()),
        ]
    );
}

#[test]
fn string_literals_read_bytes_as_characters() {
    let tokens = tokenize("\"h\u{e9}\"".to_string());
    assert_eq!(
        kinds_and_texts(&tokens),
        vec![(TokenType::String, "h\u{c3}\u{a9}".to_string()), (TokenType::EOF, "".to_string())]
    );
}

#[test]
fn words_on_character_boundaries_keep_their_text() {
    assert!(lib::lex::lexer::lexes_cleanly("\u{ea}"));
    let tokens = tokenize("\u{ea}".to_string());
    assert_eq!(
        kinds_and_texts(&tokens),
        vec![(TokenType::Identifier, "\u{ea}".to_string()), (TokenType::EOF, "".to_string())]
    );
}

#[test]
fn words_that_split_a_character_are_detected() {
    assert!(!lib::lex::lexer::lexes_cleanly("let \u{e9} = 1;"));
    assert!(lib::lex::lexer::lexes_cleanly("let x: string = \"\u{e9}\";"));
}
