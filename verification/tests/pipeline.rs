use expr_parser::lexer::{tokenize, LexerError, LexerToken};
use expr_parser::parser::{parse, Node, NodeToken, ParserError};
use expr_parser::Number;

fn num(s: &str) -> Box<Node> {
    Box::new(Node::Number(Number::from_str(s).unwrap()))
}

fn parse_text(text: &str) -> Result<Node, ParserError> {
    parse(&tokenize(text).unwrap())
}

#[test]
fn test_add_two_numbers() {
    assert_eq!(parse_text("1+2").unwrap(), Node::Add(num("1"), num("2")));
}

#[test]
fn test_precedence_and_pow_associativity() {
    assert_eq!(
        parse_text("7*8+1^2^3").unwrap(),
        Node::Add(
            Box::new(Node::Mul(num("7"), num("8"))),
            Box::new(Node::Pow(
                num("1"),
                Box::new(Node::Pow(num("2"), num("3")))
            ))
        )
    );
}

#[test]
fn test_parenthesized_sum() {
    assert_eq!(
        parse_text("7*(8+1)").unwrap(),
        Node::Mul(num("7"), Box::new(Node::Add(num("8"), num("1"))))
    );
}

#[test]
fn test_nested_parentheses() {
    assert_eq!(
        parse_text("((8+1))*3").unwrap(),
        Node::Mul(Box::new(Node::Add(num("8"), num("1"))), num("3"))
    );
}

#[test]
fn test_unary_minus_disambiguation() {
    assert_eq!(
        parse_text("-e+-pi^2").unwrap(),
        Node::Add(
            Box::new(Node::Neg(Box::new(Node::EConstant))),
            Box::new(Node::Neg(Box::new(Node::Pow(
                Box::new(Node::PiConstant),
                num("2")
            ))))
        )
    );
}

#[test]
fn test_double_minus_is_binary_then_unary() {
    assert_eq!(
        parse_text("1--2").unwrap(),
        Node::Sub(num("1"), Box::new(Node::Neg(num("2"))))
    );
}

#[test]
fn test_function_calls() {
    assert_eq!(
        parse_text("sin(x)-cos(pi)").unwrap(),
        Node::Sub(
            Box::new(Node::Sin(Box::new(Node::Variable("x".to_string())))),
            Box::new(Node::Cos(Box::new(Node::PiConstant)))
        )
    );
}

#[test]
fn test_exp_rewrite_from_text() {
    assert_eq!(parse_text("e^2").unwrap(), Node::Exp(num("2")));
    assert_eq!(
        parse_text("e^(e^2)").unwrap(),
        Node::Exp(Box::new(Node::Exp(num("2"))))
    );
}

#[test]
fn test_unmatched_open_parenthesis() {
    assert_eq!(parse_text("("), Err(ParserError::InvalidExpression));
}

#[test]
fn test_unmatched_close_parenthesis() {
    assert_eq!(parse_text(")"), Err(ParserError::InvalidExpression));
}

#[test]
fn test_trailing_operator() {
    assert_eq!(parse_text("1+"), Err(ParserError::BranchEvaluatedToNone));
}

#[test]
fn test_function_without_argument() {
    assert_eq!(parse_text("sqrt+1"), Err(ParserError::InvalidFunctionCall));
}

#[test]
fn test_bare_operator_token() {
    assert_eq!(
        parse_text("+"),
        Err(ParserError::InvalidToken(LexerToken::AddOperator))
    );
}

#[test]
fn test_empty_input() {
    assert_eq!(tokenize("").unwrap(), vec![]);
    assert_eq!(parse_text(""), Err(ParserError::BranchEvaluatedToNone));
    assert_eq!(tokenize("   ").unwrap(), vec![]);
}

#[test]
fn test_invalid_character() {
    assert_eq!(tokenize("1$2"), Err(LexerError::InvalidCharacter('$')));
}

#[test]
fn test_invalid_number_literal() {
    assert_eq!(
        tokenize("1..2"),
        Err(LexerError::InvalidNumber("1..2".to_string()))
    );
}

#[test]
fn test_numeric_literal_round_trip() {
    let tokens = tokenize("1.50").unwrap();
    assert_eq!(
        tokens,
        vec![LexerToken::Number(Number::from_str("1.5").unwrap())]
    );
}

#[test]
fn test_is_operator() {
    assert!(LexerToken::AddOperator.is_operator());
    assert!(LexerToken::PowOperator.is_operator());
    assert!(!LexerToken::LeftParenthesis.is_operator());
    assert!(!LexerToken::Variable("x".to_string()).is_operator());
}

#[test]
fn test_node_token_accessors() {
    let t = NodeToken::Token(LexerToken::AddOperator);
    assert_eq!(t.token(), Some(LexerToken::AddOperator));
    let t = NodeToken::Token(LexerToken::AddOperator);
    assert_eq!(t.node(), None);
    let n = NodeToken::Node(Node::PiConstant);
    assert_eq!(n.node(), Some(Node::PiConstant));
    let n = NodeToken::Node(Node::PiConstant);
    assert_eq!(n.token(), None);
}
