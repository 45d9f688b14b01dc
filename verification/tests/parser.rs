use expr_parser::lexer::LexerToken;
use expr_parser::parser::{parse, Node};
use expr_parser::Number;

#[test]
fn test_parse_parentheses_pemdas() {
    let tokens = vec![
        LexerToken::Number(Number::from_str("7").unwrap()),
        LexerToken::MulOperator,
        LexerToken::LeftParenthesis,
        LexerToken::Number(Number::from_str("8").unwrap()),
        LexerToken::AddOperator,
        LexerToken::Number(Number::from_str("1").unwrap()),
        LexerToken::RightParenthesis,
    ];

    let node = parse(&tokens).unwrap();

    assert_eq!(
        node,
        Node::Mul(
            Box::new(Node::Number(Number::from_str("7").unwrap())),
            Box::new(Node::Add(
                Box::new(Node::Number(Number::from_str("8").unwrap())),
                Box::new(Node::Number(Number::from_str("1").unwrap()))
            )),
        )
    );
}
