//! The function-call reducer: folds every recognized function keyword
//! together with the single already-reduced item that follows it.

use vstd::prelude::*;

use vstd::slice::{slice_index_get, slice_subrange};

use super::node::{clone_node, Node, NodeV};
use super::{clone_node_token, NodeToken, NodeTokenV, ParserErrV, ParserError};
use crate::lexer::{LexerToken, TokenV};

verus! {

/// Whether a token is one of the five recognized function keywords.
pub open spec fn is_function_keyword(t: TokenV) -> bool {
    ||| t is LogFunction
    ||| t is SinFunction
    ||| t is CosFunction
    ||| t is TanFunction
    ||| t is SqrtFunction
}

/// The unary node a function keyword builds around its argument.
pub open spec fn apply_function(t: TokenV, n: NodeV) -> NodeV {
    if t is SqrtFunction {
        NodeV::Sqrt(Box::new(n))
    } else if t is SinFunction {
        NodeV::Sin(Box::new(n))
    } else if t is CosFunction {
        NodeV::Cos(Box::new(n))
    } else if t is TanFunction {
        NodeV::Tan(Box::new(n))
    } else {
        NodeV::Log(Box::new(n))
    }
}

/// The pending-item sequence with every function keyword folded with
/// its successor, or an error where a keyword's successor is not an
/// already-reduced sub-tree.
pub open spec fn spec_functions(items: Seq<NodeTokenV>) -> Result<Seq<NodeTokenV>, ParserErrV>
    decreases items.len(),
{
    if items.len() == 0 {
        Ok(Seq::empty())
    } else if items.len() == 1 {
        Ok(items)
    } else {
        match items[0] {
            NodeTokenV::Token(t) => {
                if is_function_keyword(t) {
                    match items[1] {
                        NodeTokenV::Node(n) => match spec_functions(
                            items.subrange(2, items.len() as int),
                        ) {
                            Ok(rest) => Ok(seq![NodeTokenV::Node(apply_function(t, n))] + rest),
                            Err(e) => Err(e),
                        },
                        NodeTokenV::Token(_) => Err(ParserErrV::InvalidFunctionCall),
                    }
                } else {
                    match spec_functions(items.subrange(1, items.len() as int)) {
                        Ok(rest) => Ok(seq![items[0]] + rest),
                        Err(e) => Err(e),
                    }
                }
            },
            NodeTokenV::Node(_) => match spec_functions(items.subrange(1, items.len() as int)) {
                Ok(rest) => Ok(seq![items[0]] + rest),
                Err(e) => Err(e),
            },
        }
    }
}

fn is_function_token(t: &LexerToken) -> (r: bool)
    ensures
        r == is_function_keyword(t@),
{
    match t {
        LexerToken::LogFunction => true,
        LexerToken::SinFunction => true,
        LexerToken::CosFunction => true,
        LexerToken::TanFunction => true,
        LexerToken::SqrtFunction => true,
        _ => false,
    }
}

/// Parses function calls, aka sqrt, sin, cos etc.
pub fn parse(node_tokens: &[NodeToken]) -> (r: Result<Vec<NodeToken>, ParserError>)
    ensures
        match r {
            Ok(v) => spec_functions(node_tokens.deep_view()) == Ok::<Seq<NodeTokenV>, ParserErrV>(
                v.deep_view(),
            ),
            Err(e) => spec_functions(node_tokens.deep_view()) == Err::<
                Seq<NodeTokenV>,
                ParserErrV,
            >(e@),
        },
    decreases node_tokens@.len(),
{
    let ghost items = node_tokens.deep_view();
    let n = node_tokens.len();
    if n == 0 {
        let v: Vec<NodeToken> = Vec::new();
        proof {
            assert(v.deep_view() =~= Seq::<NodeTokenV>::empty());
        }
        return Ok(v);
    }
    if n == 1 {
        let mut v: Vec<NodeToken> = Vec::new();
        v.push(clone_node_token(slice_index_get(node_tokens, 0)));
        proof {
            assert(v.deep_view() =~= items);
        }
        return Ok(v);
    }
    let first = slice_index_get(node_tokens, 0);
    let fold = match first {
        NodeToken::Token(t) => is_function_token(t),
        _ => false,
    };
    if fold {
        let second = slice_index_get(node_tokens, 1);
        match second {
            NodeToken::Node(inner) => {
                let child = clone_node(inner);
                let folded = match first {
                    NodeToken::Token(LexerToken::SqrtFunction) => Node::Sqrt(Box::new(child)),
                    NodeToken::Token(LexerToken::SinFunction) => Node::Sin(Box::new(child)),
                    NodeToken::Token(LexerToken::CosFunction) => Node::Cos(Box::new(child)),
                    NodeToken::Token(LexerToken::TanFunction) => Node::Tan(Box::new(child)),
                    _ => Node::Log(Box::new(child)),
                };
                let sub = slice_subrange(node_tokens, 2, n);
                proof {
                    assert(sub.deep_view() =~= items.subrange(2, n as int));
                }
                match parse(sub) {
                    Ok(mut rest) => {
                        let ghost restv = rest.deep_view();
                        let ghost foldedv = folded@;
                        rest.insert(0, NodeToken::Node(folded));
                        proof {
                            assert(rest.deep_view() =~= seq![NodeTokenV::Node(foldedv)] + restv);
                        }
                        Ok(rest)
                    },
                    Err(e) => Err(e),
                }
            },
            NodeToken::Token(_) => Err(ParserError::InvalidFunctionCall),
        }
    } else {
        let sub = slice_subrange(node_tokens, 1, n);
        proof {
            assert(sub.deep_view() =~= items.subrange(1, n as int));
        }
        match parse(sub) {
            Ok(mut rest) => {
                let ghost restv = rest.deep_view();
                rest.insert(0, clone_node_token(first));
                proof {
                    assert(rest.deep_view() =~= seq![items[0]] + restv);
                }
                Ok(rest)
            },
            Err(e) => Err(e),
        }
    }
}

} // verus!
