use calculator::lexer::{LexError, Lexer};
use calculator::token::TokenKind;

fn kinds(input: &str) -> Vec<TokenKind> {
    let mut lexer = Lexer::new(input);
    lexer.lex().unwrap().iter().map(|t| t.kind).collect()
}

#[test]
fn lexer() {
    let mut lexer = Lexer::new("10 >= 30 && 20 < 40");
    let tokens = lexer.lex().unwrap();
    println!("{:#?}", tokens);
    let got: Vec<(TokenKind, &str)> = tokens.iter().map(|t| (t.kind, t.slice)).collect();
    assert_eq!(
        got,
        vec![
            (TokenKind::Number, "10"),
            (TokenKind::GreaterEqual, ">="),
            (TokenKind::Number, "30"),
            (TokenKind::AmpAmp, "&&"),
            (TokenKind::Number, "20"),
            (TokenKind::Less, "<"),
            (TokenKind::Number, "40"),
            (TokenKind::Eof, ""),
        ]
    );
}

#[test]
fn token_texts_cover_input_without_whitespace() {
    let input = " 12.5+ab_1\t*(x2 ,true)\n!=false|| &|";
    let mut lexer = Lexer::new(input);
    let tokens = lexer.lex().unwrap();
    let joined: String = tokens.iter().map(|t| t.slice).collect();
    let stripped: String = input.chars().filter(|c| !matches!(c, ' ' | '\t' | '\n' | '\r')).collect();
    assert_eq!(joined, stripped);
    assert_eq!(tokens.last().unwrap().kind, TokenKind::Eof);
}

#[test]
fn two_character_operators_are_read_greedily() {
    assert_eq!(
        kinds("== != <= >= && || < > ! & |"),
        vec![
            TokenKind::EqualEqual,
            TokenKind::BangEqual,
            TokenKind::LessEqual,
            TokenKind::GreaterEqual,
            TokenKind::AmpAmp,
            TokenKind::PipePipe,
            TokenKind::Less,
            TokenKind::Greater,
            TokenKind::Bang,
            TokenKind::Amp,
            TokenKind::Pipe,
            TokenKind::Eof,
        ]
    );
}

#[test]
fn booleans_identifiers_and_numbers() {
    let mut lexer = Lexer::new("true false truth x_1 3.25 7 42");
    let tokens = lexer.lex().unwrap();
    let got: Vec<(TokenKind, &str)> = tokens.iter().map(|t| (t.kind, t.slice)).collect();
    assert_eq!(
        got,
        vec![
            (TokenKind::Boolean, "true"),
            (TokenKind::Boolean, "false"),
            (TokenKind::Identifier, "truth"),
            (TokenKind::Identifier, "x_1"),
            (TokenKind::Number, "3.25"),
            (TokenKind::Number, "7"),
            (TokenKind::Number, "42"),
            (TokenKind::Eof, ""),
        ]
    );
}

#[test]
fn empty_and_blank_input_lex_to_eof() {
    assert_eq!(kinds(""), vec![TokenKind::Eof]);
    assert_eq!(kinds(" \t\r\n"), vec![TokenKind::Eof]);
}

#[test]
fn lone_equal_sign_is_a_lexical_error() {
    let mut lexer = Lexer::new("1 = 2");
    assert_eq!(lexer.lex().unwrap_err(), LexError { position: 2, character: '=' });
}

#[test]
fn unknown_characters_are_lexical_errors() {
    let mut lexer = Lexer::new("1 + $");
    assert_eq!(lexer.lex().unwrap_err(), LexError { position: 4, character: '$' });
    let mut lexer = Lexer::new("2 * é");
    assert_eq!(lexer.lex().unwrap_err(), LexError { position: 4, character: 'é' });
    let mut lexer = Lexer::new("7.");
    assert_eq!(lexer.lex().unwrap_err(), LexError { position: 1, character: '.' });
    let mut lexer = Lexer::new("1.x");
    assert_eq!(lexer.lex().unwrap_err(), LexError { position: 1, character: '.' });
    let mut lexer = Lexer::new("_x");
    assert_eq!(lexer.lex().unwrap_err(), LexError { position: 0, character: '_' });
}
