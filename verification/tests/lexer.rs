use expr_parser::lexer::{tokenize, LexerToken};
use expr_parser::Number;

#[test]
fn test_tokenize_operators() {
    let input = "+-*^+/";
    let tokens = tokenize(input).unwrap();

    assert_eq!(
        tokens,
        vec![
            LexerToken::AddOperator,
            LexerToken::SubOperator,
            LexerToken::MulOperator,
            LexerToken::PowOperator,
            LexerToken::AddOperator,
            LexerToken::DivOperator
        ]
    );
}

#[test]
fn test_tokenize_variables() {
    let input = "x y+test";
    let tokens = tokenize(input).unwrap();

    assert_eq!(
        tokens,
        vec![
            LexerToken::Variable("x".to_string()),
            LexerToken::Variable("y".to_string()),
            LexerToken::AddOperator,
            LexerToken::Variable("test".to_string())
        ]
    );
}

#[test]
fn test_tokenize_number() {
    let input = "x 10+x1.50";
    let tokens = tokenize(input).unwrap();

    assert_eq!(
        tokens,
        vec![
            LexerToken::Variable("x".to_string()),
            LexerToken::Number(Number::from_str("10").unwrap()),
            LexerToken::AddOperator,
            LexerToken::Variable("x".to_string()),
            LexerToken::Number(Number::from_str("1.5").unwrap()),
        ]
    );
}

#[test]
fn test_convert_known_strings() {
    let input = "sin(x) - cos(pi)";
    let tokens = tokenize(input).unwrap();

    assert_eq!(
        tokens,
        vec![
            LexerToken::SinFunction,
            LexerToken::LeftParenthesis,
            LexerToken::Variable("x".to_string()),
            LexerToken::RightParenthesis,
            LexerToken::SubOperator,
            LexerToken::CosFunction,
            LexerToken::LeftParenthesis,
            LexerToken::PiConstant,
            LexerToken::RightParenthesis,
        ]
    );
}
