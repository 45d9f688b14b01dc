//! The exponential-form rewriter: every sub-tree that raises the
//! constant e to an exponent becomes a dedicated exponential node.

use vstd::prelude::*;

use super::node::{node_v, Node, NodeV};

verus! {

/// The tree with every power of the constant e rewritten, recursively,
/// to an exponential node.
pub open spec fn spec_exp_rewrite(n: NodeV) -> NodeV
    decreases n,
{
    match n {
        NodeV::Pow(l, r) => {
            if *l is EConstant {
                NodeV::Exp(Box::new(spec_exp_rewrite(*r)))
            } else {
                NodeV::Pow(Box::new(spec_exp_rewrite(*l)), Box::new(spec_exp_rewrite(*r)))
            }
        },
        NodeV::Add(l, r) => NodeV::Add(
            Box::new(spec_exp_rewrite(*l)),
            Box::new(spec_exp_rewrite(*r)),
        ),
        NodeV::Sub(l, r) => NodeV::Sub(
            Box::new(spec_exp_rewrite(*l)),
            Box::new(spec_exp_rewrite(*r)),
        ),
        NodeV::Div(l, r) => NodeV::Div(
            Box::new(spec_exp_rewrite(*l)),
            Box::new(spec_exp_rewrite(*r)),
        ),
        NodeV::Mul(l, r) => NodeV::Mul(
            Box::new(spec_exp_rewrite(*l)),
            Box::new(spec_exp_rewrite(*r)),
        ),
        NodeV::Exp(x) => NodeV::Exp(Box::new(spec_exp_rewrite(*x))),
        NodeV::Log(x) => NodeV::Log(Box::new(spec_exp_rewrite(*x))),
        NodeV::Sin(x) => NodeV::Sin(Box::new(spec_exp_rewrite(*x))),
        NodeV::Cos(x) => NodeV::Cos(Box::new(spec_exp_rewrite(*x))),
        NodeV::Tan(x) => NodeV::Tan(Box::new(spec_exp_rewrite(*x))),
        NodeV::Sqrt(x) => NodeV::Sqrt(Box::new(spec_exp_rewrite(*x))),
        NodeV::Neg(x) => NodeV::Neg(Box::new(spec_exp_rewrite(*x))),
        NodeV::PiConstant => NodeV::PiConstant,
        NodeV::EConstant => NodeV::EConstant,
        NodeV::Number(x) => NodeV::Number(x),
        NodeV::Variable(v) => NodeV::Variable(v),
    }
}

/// A tree and its model agree on being exactly the constant e.
proof fn lemma_node_v_e(n: Node)
    ensures
        (node_v(n) is EConstant) == (n is EConstant),
{
    match n {
        Node::Number(_) => {},
        Node::Variable(_) => {},
        Node::PiConstant => {},
        Node::EConstant => {},
        Node::Add(_, _) => {},
        Node::Sub(_, _) => {},
        Node::Mul(_, _) => {},
        Node::Div(_, _) => {},
        Node::Pow(_, _) => {},
        Node::Exp(_) => {},
        Node::Log(_) => {},
        Node::Sin(_) => {},
        Node::Cos(_) => {},
        Node::Tan(_) => {},
        Node::Sqrt(_) => {},
        Node::Neg(_) => {},
    }
}

/// The rewriter never turns another tree into the bare constant e.
proof fn lemma_exp_rewrite_not_e(n: NodeV)
    requires
        !(n is EConstant),
    ensures
        !(spec_exp_rewrite(n) is EConstant),
{
    match n {
        NodeV::Number(_) => {},
        NodeV::Variable(_) => {},
        NodeV::PiConstant => {},
        NodeV::EConstant => {},
        NodeV::Add(_, _) => {},
        NodeV::Sub(_, _) => {},
        NodeV::Mul(_, _) => {},
        NodeV::Div(_, _) => {},
        NodeV::Pow(_, _) => {},
        NodeV::Exp(_) => {},
        NodeV::Log(_) => {},
        NodeV::Sin(_) => {},
        NodeV::Cos(_) => {},
        NodeV::Tan(_) => {},
        NodeV::Sqrt(_) => {},
        NodeV::Neg(_) => {},
    }
}

/// Applying the exponential-form rewriter twice yields the same tree as
/// applying it once.
pub proof fn lemma_exp_rewrite_idempotent(n: NodeV)
    ensures
        spec_exp_rewrite(spec_exp_rewrite(n)) == spec_exp_rewrite(n),
    decreases n,
{
    match n {
        NodeV::Number(_) => {},
        NodeV::Variable(_) => {},
        NodeV::PiConstant => {},
        NodeV::EConstant => {},
        NodeV::Add(l, r) => {
            lemma_exp_rewrite_idempotent(*l);
            lemma_exp_rewrite_idempotent(*r);
        },
        NodeV::Sub(l, r) => {
            lemma_exp_rewrite_idempotent(*l);
            lemma_exp_rewrite_idempotent(*r);
        },
        NodeV::Mul(l, r) => {
            lemma_exp_rewrite_idempotent(*l);
            lemma_exp_rewrite_idempotent(*r);
        },
        NodeV::Div(l, r) => {
            lemma_exp_rewrite_idempotent(*l);
            lemma_exp_rewrite_idempotent(*r);
        },
        NodeV::Pow(l, r) => {
            lemma_exp_rewrite_idempotent(*l);
            lemma_exp_rewrite_idempotent(*r);
            if !(*l is EConstant) {
                lemma_exp_rewrite_not_e(*l);
            }
        },
        NodeV::Exp(x) => {
            lemma_exp_rewrite_idempotent(*x);
        },
        NodeV::Log(x) => {
            lemma_exp_rewrite_idempotent(*x);
        },
        NodeV::Sin(x) => {
            lemma_exp_rewrite_idempotent(*x);
        },
        NodeV::Cos(x) => {
            lemma_exp_rewrite_idempotent(*x);
        },
        NodeV::Tan(x) => {
            lemma_exp_rewrite_idempotent(*x);
        },
        NodeV::Sqrt(x) => {
            lemma_exp_rewrite_idempotent(*x);
        },
        NodeV::Neg(x) => {
            lemma_exp_rewrite_idempotent(*x);
        },
    }
}

/// Recursively change e^x to exp(x)
pub fn parse(node: Node) -> (r: Node)
    ensures
        r@ == spec_exp_rewrite(node@),
    decreases node,
{
    match node {
        Node::Pow(l, r) => {
            let ghost nv = NodeV::Pow(Box::new(node_v(*l)), Box::new(node_v(*r)));
            let l = *l;
            let r = *r;
            if let Node::EConstant = l {
                proof {
                    assert(spec_exp_rewrite(nv) == NodeV::Exp(Box::new(spec_exp_rewrite(node_v(r)))));
                }
                Node::Exp(Box::new(parse(r)))
            } else {
                proof {
                    lemma_node_v_e(l);
                }
                Node::Pow(Box::new(parse(l)), Box::new(parse(r)))
            }
        },
        Node::Add(l, r) => Node::Add(Box::new(parse(*l)), Box::new(parse(*r))),
        Node::Sub(l, r) => Node::Sub(Box::new(parse(*l)), Box::new(parse(*r))),
        Node::Div(l, r) => Node::Div(Box::new(parse(*l)), Box::new(parse(*r))),
        Node::Mul(l, r) => Node::Mul(Box::new(parse(*l)), Box::new(parse(*r))),
        Node::Exp(n) => Node::Exp(Box::new(parse(*n))),
        Node::Log(n) => Node::Log(Box::new(parse(*n))),
        Node::Sin(n) => Node::Sin(Box::new(parse(*n))),
        Node::Cos(n) => Node::Cos(Box::new(parse(*n))),
        Node::Tan(n) => Node::Tan(Box::new(parse(*n))),
        Node::Sqrt(n) => Node::Sqrt(Box::new(parse(*n))),
        Node::Neg(n) => Node::Neg(Box::new(parse(*n))),
        Node::PiConstant => Node::PiConstant,
        Node::EConstant => Node::EConstant,
        Node::Number(n) => Node::Number(n),
        Node::Variable(v) => Node::Variable(v),
    }
}

} // verus!
