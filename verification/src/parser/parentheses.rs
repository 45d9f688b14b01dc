//! The parenthesis resolver: partitions a flat token sequence into
//! pending items, reducing each matched outermost parenthesis pair by
//! recursively running the whole parser on its contents.

use vstd::prelude::*;
use vstd::slice::slice_index_get;

use super::{spec_parse, NodeToken, NodeTokenV, ParserErrV, ParserError};
use crate::lexer::{LexerToken, TokenV};

verus! {

/// One step of the scan per token, carried out from position `i` with
/// nesting depth `depth`, the tokens of the currently open group in
/// `buf`, and the pending items produced so far in `out`.
pub open spec fn spec_paren_loop(
    toks: Seq<TokenV>,
    i: int,
    depth: int,
    buf: Seq<TokenV>,
    out: Seq<NodeTokenV>,
) -> Result<Seq<NodeTokenV>, ParserErrV>
    decreases toks.len(), 0int, toks.len() - i,
{
    if i < 0 || i >= toks.len() {
        if depth > 0 {
            Err(ParserErrV::InvalidExpression)
        } else {
            Ok(out)
        }
    } else {
        let t = toks[i];
        if t is LeftParenthesis {
            spec_paren_loop(
                toks,
                i + 1,
                depth + 1,
                if depth > 0 {
                    buf.push(t)
                } else {
                    buf
                },
                out,
            )
        } else if t is RightParenthesis {
            if depth <= 0 {
                Err(ParserErrV::InvalidExpression)
            } else if depth == 1 {
                // A group only ever gathers tokens strictly inside its pair,
                // so the buffer is always shorter than the whole sequence.
                if buf.len() < toks.len() {
                    match spec_parse(buf) {
                        Ok(n) => spec_paren_loop(
                            toks,
                            i + 1,
                            0,
                            Seq::empty(),
                            out.push(NodeTokenV::Node(n)),
                        ),
                        Err(e) => Err(e),
                    }
                } else {
                    Err(ParserErrV::InvalidExpression)
                }
            } else {
                spec_paren_loop(toks, i + 1, depth - 1, buf.push(t), out)
            }
        } else {
            if depth == 0 {
                spec_paren_loop(toks, i + 1, 0, buf, out.push(NodeTokenV::Token(t)))
            } else {
                spec_paren_loop(toks, i + 1, depth, buf.push(t), out)
            }
        }
    }
}

/// The pending-item sequence denoted by a token sequence, or the first
/// error: unmatched parentheses in either direction fail the scan.
pub open spec fn spec_parentheses(toks: Seq<TokenV>) -> Result<Seq<NodeTokenV>, ParserErrV>
    decreases toks.len(), 0int, toks.len() + 1,
{
    spec_paren_loop(toks, 0, 0, Seq::empty(), Seq::empty())
}

/// Parses parentheses
pub fn parse(tokens: &[LexerToken]) -> (r: Result<Vec<NodeToken>, ParserError>)
    ensures
        match r {
            Ok(v) => spec_parentheses(tokens.deep_view()) == Ok::<Seq<NodeTokenV>, ParserErrV>(
                v.deep_view(),
            ),
            Err(e) => spec_parentheses(tokens.deep_view()) == Err::<
                Seq<NodeTokenV>,
                ParserErrV,
            >(e@),
        },
    decreases tokens@.len(), 0int,
{
    let ghost toks = tokens.deep_view();
    let mut node_tokens: Vec<NodeToken> = Vec::new();
    let mut current_parsing: Vec<LexerToken> = Vec::new();
    let mut parentheses_count: usize = 0;
    let n = tokens.len();
    proof {
        assert(node_tokens.deep_view() =~= Seq::<NodeTokenV>::empty());
        assert(current_parsing.deep_view() =~= Seq::<TokenV>::empty());
    }
    for i in 0..n
        invariant
            toks == tokens.deep_view(),
            n == tokens@.len(),
            parentheses_count <= i,
            parentheses_count > 0 ==> current_parsing@.len() < i,
            parentheses_count == 0 ==> current_parsing@.len() == 0,
            spec_paren_loop(
                toks,
                i as int,
                parentheses_count as int,
                current_parsing.deep_view(),
                node_tokens.deep_view(),
            ) == spec_parentheses(toks),
    {
        let token = slice_index_get(tokens, i);
        match token {
            LexerToken::LeftParenthesis => {
                if parentheses_count > 0 {
                    let ghost bufv = current_parsing.deep_view();
                    current_parsing.push(token.clone_value());
                    proof {
                        assert(current_parsing.deep_view() =~= bufv.push(toks[i as int]));
                    }
                }
                parentheses_count += 1;
            },
            LexerToken::RightParenthesis => {
                if parentheses_count == 0 {
                    return Err(ParserError::InvalidExpression);
                }
                if parentheses_count == 1 {
                    let node = match super::parse(&current_parsing) {
                        Ok(nd) => nd,
                        Err(e) => {
                            return Err(e);
                        },
                    };
                    let ghost outv = node_tokens.deep_view();
                    let ghost nodev = node@;
                    node_tokens.push(NodeToken::Node(node));
                    current_parsing = Vec::new();
                    parentheses_count = 0;
                    proof {
                        assert(node_tokens.deep_view() =~= outv.push(NodeTokenV::Node(nodev)));
                        assert(current_parsing.deep_view() =~= Seq::<TokenV>::empty());
                    }
                } else {
                    let ghost bufv = current_parsing.deep_view();
                    current_parsing.push(token.clone_value());
                    parentheses_count -= 1;
                    proof {
                        assert(current_parsing.deep_view() =~= bufv.push(toks[i as int]));
                    }
                }
            },
            _ => {
                if parentheses_count == 0 {
                    let ghost outv = node_tokens.deep_view();
                    node_tokens.push(NodeToken::Token(token.clone_value()));
                    proof {
                        assert(node_tokens.deep_view() =~= outv.push(
                            NodeTokenV::Token(toks[i as int]),
                        ));
                    }
                } else {
                    let ghost bufv = current_parsing.deep_view();
                    current_parsing.push(token.clone_value());
                    proof {
                        assert(current_parsing.deep_view() =~= bufv.push(toks[i as int]));
                    }
                }
            },
        }
    }
    if parentheses_count > 0 {
        return Err(ParserError::InvalidExpression);
    }
    Ok(node_tokens)
}

} // verus!
