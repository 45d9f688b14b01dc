//! The abstract syntax tree produced by the parser.

use vstd::prelude::*;

use crate::number::{Number, NumberV};

verus! {

/// Mathematical model of a [`Node`].
pub enum NodeV {
    Number(NumberV),
    Variable(Seq<char>),
    PiConstant,
    EConstant,
    Add(Box<NodeV>, Box<NodeV>),
    Sub(Box<NodeV>, Box<NodeV>),
    Mul(Box<NodeV>, Box<NodeV>),
    Div(Box<NodeV>, Box<NodeV>),
    Pow(Box<NodeV>, Box<NodeV>),
    Exp(Box<NodeV>),
    Log(Box<NodeV>),
    Sin(Box<NodeV>),
    Cos(Box<NodeV>),
    Tan(Box<NodeV>),
    Sqrt(Box<NodeV>),
    Neg(Box<NodeV>),
}

/// A node of the expression tree: a leaf (number, variable, or named
/// constant), a binary operation, or a unary operation. Every non-leaf
/// node owns its children.
#[derive(Debug, PartialEq)]
pub enum Node {
    Number(Number),
    Variable(String),
    PiConstant,
    EConstant,
    Add(Box<Node>, Box<Node>),
    Sub(Box<Node>, Box<Node>),
    Mul(Box<Node>, Box<Node>),
    Div(Box<Node>, Box<Node>),
    Pow(Box<Node>, Box<Node>),
    Exp(Box<Node>),
    Log(Box<Node>),
    Sin(Box<Node>),
    Cos(Box<Node>),
    Tan(Box<Node>),
    Sqrt(Box<Node>),
    Neg(Box<Node>),
}

pub open spec fn node_v(n: Node) -> NodeV
    decreases n,
{
    match n {
        Node::Number(x) => NodeV::Number(x@),
        Node::Variable(s) => NodeV::Variable(s@),
        Node::PiConstant => NodeV::PiConstant,
        Node::EConstant => NodeV::EConstant,
        Node::Add(l, r) => NodeV::Add(Box::new(node_v(*l)), Box::new(node_v(*r))),
        Node::Sub(l, r) => NodeV::Sub(Box::new(node_v(*l)), Box::new(node_v(*r))),
        Node::Mul(l, r) => NodeV::Mul(Box::new(node_v(*l)), Box::new(node_v(*r))),
        Node::Div(l, r) => NodeV::Div(Box::new(node_v(*l)), Box::new(node_v(*r))),
        Node::Pow(l, r) => NodeV::Pow(Box::new(node_v(*l)), Box::new(node_v(*r))),
        Node::Exp(x) => NodeV::Exp(Box::new(node_v(*x))),
        Node::Log(x) => NodeV::Log(Box::new(node_v(*x))),
        Node::Sin(x) => NodeV::Sin(Box::new(node_v(*x))),
        Node::Cos(x) => NodeV::Cos(Box::new(node_v(*x))),
        Node::Tan(x) => NodeV::Tan(Box::new(node_v(*x))),
        Node::Sqrt(x) => NodeV::Sqrt(Box::new(node_v(*x))),
        Node::Neg(x) => NodeV::Neg(Box::new(node_v(*x))),
    }
}

impl View for Node {
    type V = NodeV;

    open spec fn view(&self) -> NodeV {
        node_v(*self)
    }
}

impl DeepView for Node {
    type V = NodeV;

    open spec fn deep_view(&self) -> NodeV {
        node_v(*self)
    }
}

/// An equal copy of a tree.
pub(crate) fn clone_node(n: &Node) -> (r: Node)
    ensures
        r@ == n@,
    decreases n,
{
    match n {
        Node::Number(x) => Node::Number(x.clone_value()),
        Node::Variable(s) => Node::Variable(s.clone()),
        Node::PiConstant => Node::PiConstant,
        Node::EConstant => Node::EConstant,
        Node::Add(l, r) => Node::Add(Box::new(clone_node(&**l)), Box::new(clone_node(&**r))),
        Node::Sub(l, r) => Node::Sub(Box::new(clone_node(&**l)), Box::new(clone_node(&**r))),
        Node::Mul(l, r) => Node::Mul(Box::new(clone_node(&**l)), Box::new(clone_node(&**r))),
        Node::Div(l, r) => Node::Div(Box::new(clone_node(&**l)), Box::new(clone_node(&**r))),
        Node::Pow(l, r) => Node::Pow(Box::new(clone_node(&**l)), Box::new(clone_node(&**r))),
        Node::Exp(x) => Node::Exp(Box::new(clone_node(&**x))),
        Node::Log(x) => Node::Log(Box::new(clone_node(&**x))),
        Node::Sin(x) => Node::Sin(Box::new(clone_node(&**x))),
        Node::Cos(x) => Node::Cos(Box::new(clone_node(&**x))),
        Node::Tan(x) => Node::Tan(Box::new(clone_node(&**x))),
        Node::Sqrt(x) => Node::Sqrt(Box::new(clone_node(&**x))),
        Node::Neg(x) => Node::Neg(Box::new(clone_node(&**x))),
    }
}

} // verus!
