use expr_parser::parser::{exp, Node};
use expr_parser::Number;

#[test]
fn test_parse_exp() {
    let node = Node::Pow(
        Box::new(Node::EConstant),
        Box::new(Node::Number(Number::from_str("2").unwrap())),
    );

    let node = exp::parse(node);

    assert_eq!(
        node,
        Node::Exp(Box::new(Node::Number(Number::from_str("2").unwrap())))
    );
}

#[test]
fn test_parse_exp_nested() {
    let node = Node::Pow(
        Box::new(Node::EConstant),
        Box::new(Node::Pow(
            Box::new(Node::EConstant),
            Box::new(Node::Number(Number::from_str("2").unwrap())),
        )),
    );

    let node = exp::parse(node);

    assert_eq!(
        node,
        Node::Exp(Box::new(Node::Exp(Box::new(Node::Number(
            Number::from_str("2").unwrap()
        )))))
    );
}
