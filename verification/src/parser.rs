//! The parser: turns a flat token sequence into an expression tree.
//!
//! Parsing runs in four passes: matched parentheses are reduced to
//! sub-trees (recursively running the whole parser on their contents),
//! function keywords are folded with their single argument, the
//! remaining operators are reduced in precedence order, and powers of
//! the constant e are rewritten to exponential nodes.

use vstd::prelude::*;

use crate::lexer::{LexerToken, TokenV};

pub mod emdas;
pub mod exp;
pub mod functions;
pub mod literals;
pub mod node;
pub mod parentheses;

pub use node::Node;
pub use node::NodeV;

verus! {

/// Mathematical model of a [`ParserError`].
pub enum ParserErrV {
    InvalidToken(TokenV),
    InvalidExpression,
    InvalidFunctionCall,
    BranchEvaluatedToNone,
}

#[derive(Debug, PartialEq)]
pub enum ParserError {
    InvalidToken(LexerToken),
    InvalidExpression,
    InvalidFunctionCall,
    BranchEvaluatedToNone,
}

impl View for ParserError {
    type V = ParserErrV;

    open spec fn view(&self) -> ParserErrV {
        match self {
            ParserError::InvalidToken(t) => ParserErrV::InvalidToken(t@),
            ParserError::InvalidExpression => ParserErrV::InvalidExpression,
            ParserError::InvalidFunctionCall => ParserErrV::InvalidFunctionCall,
            ParserError::BranchEvaluatedToNone => ParserErrV::BranchEvaluatedToNone,
        }
    }
}

impl DeepView for ParserError {
    type V = ParserErrV;

    open spec fn deep_view(&self) -> ParserErrV {
        self.view()
    }
}

/// Mathematical model of a [`NodeToken`].
pub enum NodeTokenV {
    Token(TokenV),
    Node(NodeV),
}

/// A pending item: either a still-unparsed token or an already-reduced
/// sub-tree.
#[derive(Debug, PartialEq)]
pub enum NodeToken {
    Token(LexerToken),
    Node(Node),
}

impl View for NodeToken {
    type V = NodeTokenV;

    open spec fn view(&self) -> NodeTokenV {
        match self {
            NodeToken::Token(t) => NodeTokenV::Token(t@),
            NodeToken::Node(n) => NodeTokenV::Node(n@),
        }
    }
}

impl DeepView for NodeToken {
    type V = NodeTokenV;

    open spec fn deep_view(&self) -> NodeTokenV {
        self.view()
    }
}

impl NodeToken {
    /// The sub-tree held by an already-reduced item, if this is one.
    pub fn node(self) -> (r: Option<Node>)
        ensures
            match self@ {
                NodeTokenV::Node(nv) => r matches Some(n) && n@ == nv,
                NodeTokenV::Token(_) => r is None,
            },
    {
        match self {
            NodeToken::Node(node) => Some(node),
            _ => None,
        }
    }

    /// The token held by a still-unparsed item, if this is one.
    pub fn token(self) -> (r: Option<LexerToken>)
        ensures
            match self@ {
                NodeTokenV::Token(tv) => r matches Some(t) && t@ == tv,
                NodeTokenV::Node(_) => r is None,
            },
    {
        match self {
            NodeToken::Token(token) => Some(token),
            _ => None,
        }
    }
}

/// An equal copy of a pending item.
pub(crate) fn clone_node_token(nt: &NodeToken) -> (r: NodeToken)
    ensures
        r@ == nt@,
{
    match nt {
        NodeToken::Token(t) => NodeToken::Token(t.clone_value()),
        NodeToken::Node(n) => NodeToken::Node(node::clone_node(n)),
    }
}

/// The tree denoted by a token sequence, or the first parse error: the
/// four passes run in order.
pub open spec fn spec_parse(toks: Seq<TokenV>) -> Result<NodeV, ParserErrV>
    decreases toks.len(), 1int, 0int,
{
    match parentheses::spec_parentheses(toks) {
        Ok(items) => match functions::spec_functions(items) {
            Ok(reduced) => match emdas::spec_emdas(reduced) {
                Ok(n) => Ok(exp::spec_exp_rewrite(n)),
                Err(e) => Err(e),
            },
            Err(e) => Err(e),
        },
        Err(e) => Err(e),
    }
}

/// Parses the tokens into a Node
///
/// This function is pretty slow, but since the tree only needs to be built once, it's not a big deal.
pub fn parse(tokens: &Vec<LexerToken>) -> (r: Result<Node, ParserError>)
    ensures
        match r {
            Ok(node) => spec_parse(tokens.deep_view()) == Ok::<NodeV, ParserErrV>(node.deep_view()),
            Err(e) => spec_parse(tokens.deep_view()) == Err::<NodeV, ParserErrV>(e@),
        },
    decreases tokens@.len(), 1int,
{
    let sl = tokens.as_slice();
    proof {
        assert(sl.deep_view() =~= tokens.deep_view());
    }
    let node_tokens = match parentheses::parse(sl) {
        Ok(v) => v,
        Err(e) => {
            return Err(e);
        },
    };
    let sl = node_tokens.as_slice();
    proof {
        assert(sl.deep_view() =~= node_tokens.deep_view());
    }
    let reduced = match functions::parse(sl) {
        Ok(v) => v,
        Err(e) => {
            return Err(e);
        },
    };
    let sl = reduced.as_slice();
    proof {
        assert(sl.deep_view() =~= reduced.deep_view());
    }
    let node = match emdas::parse(sl) {
        Ok(n) => n,
        Err(e) => {
            return Err(e);
        },
    };
    Ok(exp::parse(node))
}

} // verus!
