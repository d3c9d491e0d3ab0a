use skcore::scanner::{scan, LexError};
use skcore::token::Token;

fn kinds(source: &str) -> Vec<Token> {
    scan(source).unwrap().iter().map(|t| t.token).collect()
}

fn texts(source: &str) -> Vec<String> {
    scan(source).unwrap().iter().map(|t| t.text.clone()).collect()
}

#[test]
fn scans_a_print_statement() {
    assert_eq!(
        kinds("print(42);"),
        vec![Token::Identifier, Token::KwLParen, Token::Number, Token::KwRParen, Token::KwTerminator]
    );
    assert_eq!(texts("print(42);"), vec!["print", "(", "42", ")", ";"]);
}

#[test]
fn empty_source_has_no_tokens() {
    assert_eq!(kinds(""), Vec::<Token>::new());
    assert_eq!(kinds(" \t\n\u{c} "), Vec::<Token>::new());
}

#[test]
fn scans_every_keyword() {
    assert_eq!(
        kinds("let fn if else loop break while true false none in to"),
        vec![
            Token::KwLet,
            Token::KwFn,
            Token::KwIf,
            Token::KwElse,
            Token::KwLoop,
            Token::KwBreak,
            Token::KwWhile,
            Token::KwTrue,
            Token::KwFalse,
            Token::KwNone,
            Token::KwIn,
            Token::KwTo
        ]
    );
}

#[test]
fn a_longer_word_is_an_identifier() {
    assert_eq!(kinds("letter iff tom"), vec![Token::Identifier, Token::Identifier, Token::Identifier]);
    assert_eq!(kinds("Let"), vec![Token::Identifier]);
}

#[test]
fn scans_every_operator_and_symbol() {
    assert_eq!(
        kinds("+ - * / % = == != > < >= <= += -= ; , ( ) { }"),
        vec![
            Token::OpAdd,
            Token::OpSub,
            Token::OpMul,
            Token::OpDiv,
            Token::OpModulo,
            Token::OpAssign,
            Token::OpEqCheck,
            Token::OpNeqCheck,
            Token::OpGtCheck,
            Token::OpLtCheck,
            Token::OpGteCheck,
            Token::OpLteCheck,
            Token::OpAddEq,
            Token::OpSubEq,
            Token::KwTerminator,
            Token::KwComma,
            Token::KwLParen,
            Token::KwRParen,
            Token::KwLBrace,
            Token::KwRBrace
        ]
    );
}

#[test]
fn the_longest_operator_wins() {
    assert_eq!(kinds("x+=1"), vec![Token::Identifier, Token::OpAddEq, Token::Number]);
    assert_eq!(kinds("a===b"), vec![Token::Identifier, Token::OpEqCheck, Token::OpAssign, Token::Identifier]);
    assert_eq!(kinds("1+2"), vec![Token::Number, Token::OpAdd, Token::Number]);
}

#[test]
fn scans_numbers() {
    assert_eq!(kinds("7 42 1.5 12.25"), vec![Token::Number, Token::Number, Token::DecimalNumber, Token::DecimalNumber]);
    assert_eq!(texts("7 42 1.5 12.25"), vec!["7", "42", "1.5", "12.25"]);
}

#[test]
fn digits_then_letters_are_two_tokens() {
    assert_eq!(kinds("12abc"), vec![Token::Number, Token::Identifier]);
}

#[test]
fn scans_text_with_its_quotes() {
    assert_eq!(kinds("\"hi there\""), vec![Token::Text]);
    assert_eq!(texts("\"hi there\""), vec!["\"hi there\""]);
    assert_eq!(texts("\"a\"+\"b\""), vec!["\"a\"", "+", "\"b\""]);
}

#[test]
fn rejects_a_malformed_character() {
    assert_eq!(scan("let x = 1 @ 2;").err(), Some(LexError { position: 10 }));
    assert_eq!(scan("a\rb").err(), Some(LexError { position: 1 }));
    assert_eq!(scan("!").err(), Some(LexError { position: 0 }));
}

#[test]
fn rejects_a_point_without_digits() {
    assert_eq!(scan("1.").err(), Some(LexError { position: 1 }));
    assert_eq!(scan("1.5.2").err(), Some(LexError { position: 3 }));
}

#[test]
fn rejects_empty_and_open_text() {
    assert_eq!(scan("\"\"").err(), Some(LexError { position: 0 }));
    assert_eq!(scan("x = \"abc").err(), Some(LexError { position: 4 }));
}

#[test]
fn positions_count_characters_not_bytes() {
    assert_eq!(scan("\"é\" ?").err(), Some(LexError { position: 4 }));
}
