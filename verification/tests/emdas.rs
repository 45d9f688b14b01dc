use expr_parser::lexer::LexerToken;
use expr_parser::parser::{emdas, Node, NodeToken};
use expr_parser::Number;

fn to_node_tokens(tokens: Vec<LexerToken>) -> Vec<NodeToken> {
    tokens.into_iter().map(NodeToken::Token).collect()
}

#[test]
fn test_parse() {
    let tokens = to_node_tokens(vec![
        LexerToken::Number(Number::from_str("1").unwrap()),
        LexerToken::AddOperator,
        LexerToken::Number(Number::from_str("2").unwrap()),
    ]);

    let node = emdas::parse(&tokens).unwrap();

    assert_eq!(
        node,
        Node::Add(
            Box::new(Node::Number(Number::from_str("1").unwrap())),
            Box::new(Node::Number(Number::from_str("2").unwrap()))
        )
    );
}

#[test]
fn test_parse_simple_pemdas() {
    let tokens = to_node_tokens(vec![
        LexerToken::Number(Number::from_str("1").unwrap()),
        LexerToken::AddOperator,
        LexerToken::Number(Number::from_str("2").unwrap()),
        LexerToken::MulOperator,
        LexerToken::Number(Number::from_str("3").unwrap()),
    ]);

    let node = emdas::parse(&tokens).unwrap();

    assert_eq!(
        node,
        Node::Add(
            Box::new(Node::Number(Number::from_str("1").unwrap())),
            Box::new(Node::Mul(
                Box::new(Node::Number(Number::from_str("2").unwrap())),
                Box::new(Node::Number(Number::from_str("3").unwrap()))
            ))
        )
    );
}

#[test]
fn test_parse_simple_pemdas_pow() {
    let tokens = to_node_tokens(vec![
        LexerToken::Number(Number::from_str("7").unwrap()),
        LexerToken::MulOperator,
        LexerToken::Number(Number::from_str("8").unwrap()),
        LexerToken::AddOperator,
        LexerToken::Number(Number::from_str("1").unwrap()),
        LexerToken::PowOperator,
        LexerToken::Number(Number::from_str("2").unwrap()),
        LexerToken::PowOperator,
        LexerToken::Number(Number::from_str("3").unwrap()),
    ]);

    let node = emdas::parse(&tokens).unwrap();

    assert_eq!(
        node,
        Node::Add(
            Box::new(Node::Mul(
                Box::new(Node::Number(Number::from_str("7").unwrap())),
                Box::new(Node::Number(Number::from_str("8").unwrap()))
            )),
            Box::new(Node::Pow(
                Box::new(Node::Number(Number::from_str("1").unwrap())),
                Box::new(Node::Pow(
                    Box::new(Node::Number(Number::from_str("2").unwrap())),
                    Box::new(Node::Number(Number::from_str("3").unwrap()))
                ))
            ))
        )
    );
}

#[test]
fn test_parses_constants() {
    let tokens = to_node_tokens(vec![
        LexerToken::EConstant,
        LexerToken::AddOperator,
        LexerToken::PiConstant,
    ]);

    let node = emdas::parse(&tokens).unwrap();

    assert_eq!(
        node,
        Node::Add(Box::new(Node::EConstant), Box::new(Node::PiConstant))
    );
}

#[test]
fn test_parses_negation() {
    let tokens = to_node_tokens(vec![
        LexerToken::SubOperator,
        LexerToken::EConstant,
        LexerToken::AddOperator,
        LexerToken::SubOperator,
        LexerToken::PiConstant,
        LexerToken::PowOperator,
        LexerToken::Number(Number::from_str("2").unwrap()),
    ]);

    let node = emdas::parse(&tokens).unwrap();

    assert_eq!(
        node,
        Node::Add(
            Box::new(Node::Neg(Box::new(Node::EConstant))),
            Box::new(Node::Neg(Box::new(Node::Pow(
                Box::new(Node::PiConstant),
                Box::new(Node::Number(Number::from_str("2").unwrap()))
            ))))
        )
    );
}
