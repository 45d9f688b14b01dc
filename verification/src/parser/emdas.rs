//! The precedence reducer: reduces a pending-item sequence to a single
//! tree, splitting on addition and subtraction first, then
//! multiplication and division, then a leading unary negation, then
//! exponentiation. The backward scans make `+ - * /` left-associative;
//! the forward scan makes `^` right-associative.

use vstd::prelude::*;
use vstd::slice::{slice_index_get, slice_subrange};

use super::node::{clone_node, Node, NodeV};
use super::{NodeToken, NodeTokenV, ParserErrV, ParserError};
use crate::lexer::{is_operator_v, LexerToken, TokenV};

verus! {

/// Whether the item before position `i` is a bare operator token — the
/// mark of a unary rather than a binary minus.
pub open spec fn prev_is_operator(items: Seq<NodeTokenV>, i: int) -> bool {
    items[i - 1] matches NodeTokenV::Token(t) && is_operator_v(t)
}

/// Whether position `i` splits the slice at an addition, or at a
/// subtraction that is binary (not preceded by another operator).
pub open spec fn addsub_at(items: Seq<NodeTokenV>, i: int) -> bool {
    ||| items[i] matches NodeTokenV::Token(TokenV::AddOperator)
    ||| (items[i] matches NodeTokenV::Token(TokenV::SubOperator) && !prev_is_operator(items, i))
}

/// The rightmost position in `1..=i` that splits at addition or
/// subtraction.
pub open spec fn scan_addsub(items: Seq<NodeTokenV>, i: int) -> Option<int>
    decreases i,
{
    if i < 1 {
        None
    } else if addsub_at(items, i) {
        Some(i)
    } else {
        scan_addsub(items, i - 1)
    }
}

pub open spec fn muldiv_at(items: Seq<NodeTokenV>, i: int) -> bool {
    ||| items[i] matches NodeTokenV::Token(TokenV::MulOperator)
    ||| items[i] matches NodeTokenV::Token(TokenV::DivOperator)
}

/// The rightmost position in `1..=i` that splits at multiplication or
/// division.
pub open spec fn scan_muldiv(items: Seq<NodeTokenV>, i: int) -> Option<int>
    decreases i,
{
    if i < 1 {
        None
    } else if muldiv_at(items, i) {
        Some(i)
    } else {
        scan_muldiv(items, i - 1)
    }
}

/// The leftmost position at or after `i` that splits at exponentiation.
pub open spec fn scan_pow(items: Seq<NodeTokenV>, i: int) -> Option<int>
    decreases items.len() - i,
{
    if i < 1 || i >= items.len() {
        None
    } else if items[i] matches NodeTokenV::Token(TokenV::PowOperator) {
        Some(i)
    } else {
        scan_pow(items, i + 1)
    }
}

/// The tree denoted by a pending-item sequence whose parentheses and
/// functions are already reduced, or the first error.
pub open spec fn spec_emdas(items: Seq<NodeTokenV>) -> Result<NodeV, ParserErrV>
    decreases items.len(),
{
    let n = items.len() as int;
    if n == 0 {
        Err(ParserErrV::BranchEvaluatedToNone)
    } else if n == 1 {
        match items[0] {
            NodeTokenV::Node(node) => Ok(node),
            NodeTokenV::Token(TokenV::Number(number)) => Ok(NodeV::Number(number)),
            NodeTokenV::Token(TokenV::Variable(name)) => Ok(NodeV::Variable(name)),
            NodeTokenV::Token(TokenV::EConstant) => Ok(NodeV::EConstant),
            NodeTokenV::Token(TokenV::PiConstant) => Ok(NodeV::PiConstant),
            NodeTokenV::Token(t) => Err(ParserErrV::InvalidToken(t)),
        }
    } else {
        match scan_addsub(items, n - 1) {
            Some(i) => {
                // The scans only ever return positions inside the slice.
                if 1 <= i < n {
                    match spec_emdas(items.subrange(0, i)) {
                        Ok(l) => match spec_emdas(items.subrange(i + 1, n)) {
                            Ok(r) => Ok(
                                if items[i] matches NodeTokenV::Token(TokenV::AddOperator) {
                                    NodeV::Add(Box::new(l), Box::new(r))
                                } else {
                                    NodeV::Sub(Box::new(l), Box::new(r))
                                },
                            ),
                            Err(e) => Err(e),
                        },
                        Err(e) => Err(e),
                    }
                } else {
                    Err(ParserErrV::InvalidExpression)
                }
            },
            None => match scan_muldiv(items, n - 1) {
                Some(i) => {
                    if 1 <= i < n {
                        match spec_emdas(items.subrange(0, i)) {
                            Ok(l) => match spec_emdas(items.subrange(i + 1, n)) {
                                Ok(r) => Ok(
                                    if items[i] matches NodeTokenV::Token(TokenV::MulOperator) {
                                        NodeV::Mul(Box::new(l), Box::new(r))
                                    } else {
                                        NodeV::Div(Box::new(l), Box::new(r))
                                    },
                                ),
                                Err(e) => Err(e),
                            },
                            Err(e) => Err(e),
                        }
                    } else {
                        Err(ParserErrV::InvalidExpression)
                    }
                },
                None => {
                    if items[0] matches NodeTokenV::Token(TokenV::SubOperator) {
                        match spec_emdas(items.subrange(1, n)) {
                            Ok(r) => Ok(NodeV::Neg(Box::new(r))),
                            Err(e) => Err(e),
                        }
                    } else {
                        match scan_pow(items, 1) {
                            Some(i) => {
                                if 1 <= i < n {
                                    match spec_emdas(items.subrange(0, i)) {
                                        Ok(l) => match spec_emdas(items.subrange(i + 1, n)) {
                                            Ok(r) => Ok(NodeV::Pow(Box::new(l), Box::new(r))),
                                            Err(e) => Err(e),
                                        },
                                        Err(e) => Err(e),
                                    }
                                } else {
                                    Err(ParserErrV::InvalidExpression)
                                }
                            },
                            None => Err(ParserErrV::InvalidExpression),
                        }
                    }
                },
            },
        }
    }
}

/// Parses the emdas in pemdas, aka everything except parentheses.
///
/// This expects that parentheses and functions have already been parsed.
pub fn parse(node_tokens: &[NodeToken]) -> (r: Result<Node, ParserError>)
    ensures
        match r {
            Ok(node) => spec_emdas(node_tokens.deep_view()) == Ok::<NodeV, ParserErrV>(
                node.deep_view(),
            ),
            Err(e) => spec_emdas(node_tokens.deep_view()) == Err::<NodeV, ParserErrV>(e@),
        },
    decreases node_tokens@.len(),
{
    let ghost items = node_tokens.deep_view();
    let n = node_tokens.len();
    if n == 0 {
        return Err(ParserError::BranchEvaluatedToNone);
    }
    if n == 1 {
        let first = slice_index_get(node_tokens, 0);
        return match first {
            NodeToken::Node(node) => Ok(clone_node(node)),
            NodeToken::Token(LexerToken::Number(number)) => Ok(
                Node::Number(number.clone_value()),
            ),
            NodeToken::Token(LexerToken::Variable(name)) => Ok(Node::Variable(name.clone())),
            NodeToken::Token(LexerToken::EConstant) => Ok(Node::EConstant),
            NodeToken::Token(LexerToken::PiConstant) => Ok(Node::PiConstant),
            NodeToken::Token(token) => Err(ParserError::InvalidToken(token.clone_value())),
        };
    }
    // Addition and subtraction, scanning backward for left-associativity.
    let mut i: usize = n - 1;
    while i >= 1
        invariant
            items == node_tokens.deep_view(),
            n == node_tokens@.len(),
            2 <= n,
            i <= n - 1,
            scan_addsub(items, n as int - 1) == scan_addsub(items, i as int),
        decreases i,
    {
        let cur = slice_index_get(node_tokens, i);
        let (qualifies, is_add): (bool, bool) = match cur {
            NodeToken::Token(LexerToken::AddOperator) => (true, true),
            NodeToken::Token(LexerToken::SubOperator) => {
                let prev = slice_index_get(node_tokens, i - 1);
                match prev {
                    NodeToken::Token(pt) => (!pt.is_operator(), false),
                    _ => (true, false),
                }
            },
            _ => (false, false),
        };
        proof {
            assert(qualifies == addsub_at(items, i as int));
        }
        if qualifies {
            let left_sl = slice_subrange(node_tokens, 0, i);
            proof {
                assert(left_sl.deep_view() =~= items.subrange(0, i as int));
            }
            let left = match parse(left_sl) {
                Ok(l) => l,
                Err(e) => {
                    return Err(e);
                },
            };
            let right_sl = slice_subrange(node_tokens, i + 1, n);
            proof {
                assert(right_sl.deep_view() =~= items.subrange(i as int + 1, n as int));
            }
            let right = match parse(right_sl) {
                Ok(r) => r,
                Err(e) => {
                    return Err(e);
                },
            };
            return Ok(
                if is_add {
                    Node::Add(Box::new(left), Box::new(right))
                } else {
                    Node::Sub(Box::new(left), Box::new(right))
                },
            );
        }
        i -= 1;
    }
    // Multiplication and division, scanning backward for
    // left-associativity.
    let mut i: usize = n - 1;
    while i >= 1
        invariant
            items == node_tokens.deep_view(),
            n == node_tokens@.len(),
            2 <= n,
            i <= n - 1,
            scan_addsub(items, n as int - 1) is None,
            scan_muldiv(items, n as int - 1) == scan_muldiv(items, i as int),
        decreases i,
    {
        let cur = slice_index_get(node_tokens, i);
        let (qualifies, is_mul): (bool, bool) = match cur {
            NodeToken::Token(LexerToken::MulOperator) => (true, true),
            NodeToken::Token(LexerToken::DivOperator) => (true, false),
            _ => (false, false),
        };
        proof {
            assert(qualifies == muldiv_at(items, i as int));
        }
        if qualifies {
            let left_sl = slice_subrange(node_tokens, 0, i);
            proof {
                assert(left_sl.deep_view() =~= items.subrange(0, i as int));
            }
            let left = match parse(left_sl) {
                Ok(l) => l,
                Err(e) => {
                    return Err(e);
                },
            };
            let right_sl = slice_subrange(node_tokens, i + 1, n);
            proof {
                assert(right_sl.deep_view() =~= items.subrange(i as int + 1, n as int));
            }
            let right = match parse(right_sl) {
                Ok(r) => r,
                Err(e) => {
                    return Err(e);
                },
            };
            return Ok(
                if is_mul {
                    Node::Mul(Box::new(left), Box::new(right))
                } else {
                    Node::Div(Box::new(left), Box::new(right))
                },
            );
        }
        i -= 1;
    }
    // A leading bare minus is a unary negation of everything after it.
    let first = slice_index_get(node_tokens, 0);
    let neg = match first {
        NodeToken::Token(LexerToken::SubOperator) => true,
        _ => false,
    };
    if neg {
        let sub = slice_subrange(node_tokens, 1, n);
        proof {
            assert(sub.deep_view() =~= items.subrange(1, n as int));
        }
        return match parse(sub) {
            Ok(rn) => Ok(Node::Neg(Box::new(rn))),
            Err(e) => Err(e),
        };
    }
    // Exponentiation, scanning forward for right-associativity.
    let mut i: usize = 1;
    while i < n
        invariant
            items == node_tokens.deep_view(),
            n == node_tokens@.len(),
            2 <= n,
            1 <= i <= n,
            scan_addsub(items, n as int - 1) is None,
            scan_muldiv(items, n as int - 1) is None,
            !(items[0] matches NodeTokenV::Token(TokenV::SubOperator)),
            scan_pow(items, 1) == scan_pow(items, i as int),
        decreases n - i,
    {
        let cur = slice_index_get(node_tokens, i);
        let qualifies = match cur {
            NodeToken::Token(LexerToken::PowOperator) => true,
            _ => false,
        };
        if qualifies {
            let left_sl = slice_subrange(node_tokens, 0, i);
            proof {
                assert(left_sl.deep_view() =~= items.subrange(0, i as int));
            }
            let left = match parse(left_sl) {
                Ok(l) => l,
                Err(e) => {
                    return Err(e);
                },
            };
            let right_sl = slice_subrange(node_tokens, i + 1, n);
            proof {
                assert(right_sl.deep_view() =~= items.subrange(i as int + 1, n as int));
            }
            let right = match parse(right_sl) {
                Ok(r) => r,
                Err(e) => {
                    return Err(e);
                },
            };
            return Ok(Node::Pow(Box::new(left), Box::new(right)));
        }
        i += 1;
    }
    Err(ParserError::InvalidExpression)
}

} // verus!
