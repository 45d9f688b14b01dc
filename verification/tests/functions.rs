use expr_parser::lexer::LexerToken;
use expr_parser::parser::{functions, Node, NodeToken};
use expr_parser::Number;

#[test]
fn test_parse_functions() {
    let tokens = vec![
        NodeToken::Token(LexerToken::SqrtFunction),
        NodeToken::Node(Node::Number(Number::from_str("4").unwrap())),
    ];

    let node_tokens = functions::parse(&tokens).unwrap();

    assert_eq!(
        node_tokens,
        vec![NodeToken::Node(Node::Sqrt(Box::new(Node::Number(
            Number::from_str("4").unwrap()
        ))))]
    );
}

#[test]
fn test_outputs_the_same_witout_functions() {
    let tokens = vec![
        NodeToken::Token(LexerToken::AddOperator),
        NodeToken::Token(LexerToken::AddOperator),
    ];

    let node_tokens = functions::parse(&tokens).unwrap();

    assert_eq!(
        node_tokens,
        vec![
            NodeToken::Token(LexerToken::AddOperator),
            NodeToken::Token(LexerToken::AddOperator)
        ]
    );
}
