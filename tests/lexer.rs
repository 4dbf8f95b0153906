use plang::lexer::{get_keyword, lex};
use plang::token::{Number, Token};

fn significant(src: &str) -> Vec<Token> {
    lex(src).into_iter().filter(|t| !t.is_whitespace()).collect()
}

#[test]
fn lexes_a_function() {
    assert_eq!(
        significant("fn main() { }"),
        vec![
            Token::Fn,
            Token::Ident("main".to_string()),
            Token::LPeren,
            Token::RPeren,
            Token::LBrace,
            Token::RBrace,
            Token::Eof
        ]
    );
}

#[test]
fn empty_input_is_just_the_end() {
    assert_eq!(lex(""), vec![Token::Eof]);
}

#[test]
fn keywords_and_identifiers() {
    assert_eq!(get_keyword("else".to_string()), Token::Else);
    assert_eq!(get_keyword("import".to_string()), Token::Import);
    assert_eq!(get_keyword("false".to_string()), Token::False);
    assert_eq!(get_keyword("i32".to_string()), Token::Ident("i32".to_string()));
    assert_eq!(significant("i32 ab1 a_b 1a"), vec![
        Token::Ident("i32".to_string()),
        Token::Ident("ab1".to_string()),
        Token::Ident("a_b".to_string()),
        Token::Number(Number::I32(1)),
        Token::Ident("a".to_string()),
        Token::Eof
    ]);
}

#[test]
fn two_character_operators() {
    assert_eq!(
        significant("== != >= <= = ! > <"),
        vec![
            Token::EqTo,
            Token::NotEq,
            Token::GtEq,
            Token::LtEq,
            Token::Eq,
            Token::Not,
            Token::Gt,
            Token::Lt,
            Token::Eof
        ]
    );
}

#[test]
fn numbers() {
    assert_eq!(significant("42"), vec![Token::Number(Number::I32(42)), Token::Eof]);
    assert_eq!(
        significant("1.5"),
        vec![Token::Number(Number::F32("1.5".to_string())), Token::Eof]
    );
    assert_eq!(
        significant("2147483647"),
        vec![Token::Number(Number::I32(2147483647)), Token::Eof]
    );
    assert_eq!(significant("2147483648"), vec![Token::Elegal, Token::Eof]);
}

#[test]
fn strings_and_lines() {
    assert_eq!(
        significant("\"ab\"\n\"\""),
        vec![
            Token::String("ab".to_string()),
            Token::NewLine,
            Token::String(String::new()),
            Token::Eof
        ]
    );
    assert_eq!(significant("\""), vec![Token::Elegal, Token::Eof]);
}

#[test]
fn other_characters_are_illegal() {
    assert_eq!(significant("#"), vec![Token::Elegal, Token::Eof]);
}
