//! Leaf preservation: a successful parse keeps the numeric literals
//! and free variables of its input, in order. Parentheses, operators,
//! function keywords and the constants only shape the tree around them.

use vstd::prelude::*;

use super::emdas::{
    addsub_at, muldiv_at, scan_addsub, scan_muldiv, scan_pow, spec_emdas,
};
use super::exp::spec_exp_rewrite;
use super::functions::{apply_function, is_function_keyword, spec_functions};
use super::node::NodeV;
use super::parentheses::{spec_paren_loop, spec_parentheses};
use super::{spec_parse, NodeTokenV};
use crate::lexer::{spec_tokenize, TokenV};

verus! {

/// What a single token contributes to the literal sequence: itself if
/// it is a numeric literal or a free variable, nothing otherwise.
pub open spec fn literal_contrib(t: TokenV) -> Seq<TokenV> {
    if t is Number || t is Variable {
        seq![t]
    } else {
        Seq::empty()
    }
}

/// The numeric-literal and variable tokens of a token sequence, in
/// order.
pub open spec fn token_literals(toks: Seq<TokenV>) -> Seq<TokenV>
    decreases toks.len(),
{
    if toks.len() == 0 {
        Seq::empty()
    } else {
        literal_contrib(toks[0]) + token_literals(toks.skip(1))
    }
}

/// The numeric-literal and variable leaves of a tree, in order, each
/// as the token that denoted it.
pub open spec fn node_literals(n: NodeV) -> Seq<TokenV>
    decreases n,
{
    match n {
        NodeV::Number(x) => seq![TokenV::Number(x)],
        NodeV::Variable(s) => seq![TokenV::Variable(s)],
        NodeV::PiConstant => Seq::empty(),
        NodeV::EConstant => Seq::empty(),
        NodeV::Add(l, r) => node_literals(*l) + node_literals(*r),
        NodeV::Sub(l, r) => node_literals(*l) + node_literals(*r),
        NodeV::Mul(l, r) => node_literals(*l) + node_literals(*r),
        NodeV::Div(l, r) => node_literals(*l) + node_literals(*r),
        NodeV::Pow(l, r) => node_literals(*l) + node_literals(*r),
        NodeV::Exp(x) => node_literals(*x),
        NodeV::Log(x) => node_literals(*x),
        NodeV::Sin(x) => node_literals(*x),
        NodeV::Cos(x) => node_literals(*x),
        NodeV::Tan(x) => node_literals(*x),
        NodeV::Sqrt(x) => node_literals(*x),
        NodeV::Neg(x) => node_literals(*x),
    }
}

/// The literals of a pending-item sequence: a token's own contribution,
/// or the leaves of an already-reduced sub-tree.
pub open spec fn item_literals(items: Seq<NodeTokenV>) -> Seq<TokenV>
    decreases items.len(),
{
    if items.len() == 0 {
        Seq::empty()
    } else {
        (match items[0] {
            NodeTokenV::Token(t) => literal_contrib(t),
            NodeTokenV::Node(n) => node_literals(n),
        }) + item_literals(items.skip(1))
    }
}

proof fn lemma_token_literals_single(t: TokenV)
    ensures
        token_literals(seq![t]) == literal_contrib(t),
{
    assert(seq![t].skip(1) =~= Seq::<TokenV>::empty());
    assert(token_literals(Seq::<TokenV>::empty()) =~= Seq::<TokenV>::empty());
    assert(literal_contrib(t) + Seq::<TokenV>::empty() =~= literal_contrib(t));
}

proof fn lemma_item_literals_single(x: NodeTokenV)
    ensures
        item_literals(seq![x]) == (match x {
            NodeTokenV::Token(t) => literal_contrib(t),
            NodeTokenV::Node(n) => node_literals(n),
        }),
{
    let h = match x {
        NodeTokenV::Token(t) => literal_contrib(t),
        NodeTokenV::Node(n) => node_literals(n),
    };
    assert(seq![x].skip(1) =~= Seq::<NodeTokenV>::empty());
    assert(item_literals(Seq::<NodeTokenV>::empty()) =~= Seq::<TokenV>::empty());
    assert(h + Seq::<TokenV>::empty() =~= h);
}

proof fn lemma_token_literals_concat(a: Seq<TokenV>, b: Seq<TokenV>)
    ensures
        token_literals(a + b) == token_literals(a) + token_literals(b),
    decreases a.len(),
{
    if a.len() == 0 {
        assert(a + b =~= b);
        assert(token_literals(a) + token_literals(b) =~= token_literals(b));
    } else {
        lemma_token_literals_concat(a.skip(1), b);
        assert((a + b).skip(1) =~= a.skip(1) + b);
        assert(literal_contrib(a[0]) + (token_literals(a.skip(1)) + token_literals(b))
            =~= (literal_contrib(a[0]) + token_literals(a.skip(1))) + token_literals(b));
    }
}

proof fn lemma_item_literals_concat(a: Seq<NodeTokenV>, b: Seq<NodeTokenV>)
    ensures
        item_literals(a + b) == item_literals(a) + item_literals(b),
    decreases a.len(),
{
    if a.len() == 0 {
        assert(a + b =~= b);
        assert(item_literals(a) + item_literals(b) =~= item_literals(b));
    } else {
        lemma_item_literals_concat(a.skip(1), b);
        assert((a + b).skip(1) =~= a.skip(1) + b);
        let h = match a[0] {
            NodeTokenV::Token(t) => literal_contrib(t),
            NodeTokenV::Node(n) => node_literals(n),
        };
        assert(h + (item_literals(a.skip(1)) + item_literals(b)) =~= (h + item_literals(a.skip(1)))
            + item_literals(b));
    }
}

/// The exponential-form rewriter keeps every literal leaf.
proof fn lemma_exp_rewrite_literals(n: NodeV)
    ensures
        node_literals(spec_exp_rewrite(n)) == node_literals(n),
    decreases n,
{
    match n {
        NodeV::Number(_) => {},
        NodeV::Variable(_) => {},
        NodeV::PiConstant => {},
        NodeV::EConstant => {},
        NodeV::Add(l, r) => {
            lemma_exp_rewrite_literals(*l);
            lemma_exp_rewrite_literals(*r);
        },
        NodeV::Sub(l, r) => {
            lemma_exp_rewrite_literals(*l);
            lemma_exp_rewrite_literals(*r);
        },
        NodeV::Mul(l, r) => {
            lemma_exp_rewrite_literals(*l);
            lemma_exp_rewrite_literals(*r);
        },
        NodeV::Div(l, r) => {
            lemma_exp_rewrite_literals(*l);
            lemma_exp_rewrite_literals(*r);
        },
        NodeV::Pow(l, r) => {
            lemma_exp_rewrite_literals(*l);
            lemma_exp_rewrite_literals(*r);
        },
        NodeV::Exp(x) => {
            lemma_exp_rewrite_literals(*x);
        },
        NodeV::Log(x) => {
            lemma_exp_rewrite_literals(*x);
        },
        NodeV::Sin(x) => {
            lemma_exp_rewrite_literals(*x);
        },
        NodeV::Cos(x) => {
            lemma_exp_rewrite_literals(*x);
        },
        NodeV::Tan(x) => {
            lemma_exp_rewrite_literals(*x);
        },
        NodeV::Sqrt(x) => {
            lemma_exp_rewrite_literals(*x);
        },
        NodeV::Neg(x) => {
            lemma_exp_rewrite_literals(*x);
        },
    }
}

/// The function-call reducer keeps every literal leaf.
proof fn lemma_functions_literals(items: Seq<NodeTokenV>)
    ensures
        spec_functions(items) matches Ok(out) ==> item_literals(out) == item_literals(items),
    decreases items.len(),
{
    let n = items.len() as int;
    if n == 0 || n == 1 {
    } else {
        match items[0] {
            NodeTokenV::Token(t) => {
                if is_function_keyword(t) {
                    match items[1] {
                        NodeTokenV::Node(inner) => {
                            lemma_functions_literals(items.subrange(2, n));
                            match spec_functions(items.subrange(2, n)) {
                                Ok(rest) => {
                                    let folded = apply_function(t, inner);
                                    lemma_item_literals_concat(seq![NodeTokenV::Node(folded)], rest);
                                    lemma_item_literals_single(NodeTokenV::Node(folded));
                                    assert(node_literals(folded) == node_literals(inner));
                                    assert(items =~= seq![items[0]] + seq![items[1]]
                                        + items.subrange(2, n));
                                    lemma_item_literals_concat(
                                        seq![items[0]] + seq![items[1]],
                                        items.subrange(2, n),
                                    );
                                    lemma_item_literals_concat(seq![items[0]], seq![items[1]]);
                                    lemma_item_literals_single(items[0]);
                                    lemma_item_literals_single(items[1]);
                                    assert(literal_contrib(t) =~= Seq::<TokenV>::empty());
                                    assert(Seq::<TokenV>::empty() + node_literals(inner)
                                        =~= node_literals(inner));
                                    assert(node_literals(inner) + item_literals(
                                        items.subrange(2, n),
                                    ) =~= item_literals(items));
                                },
                                Err(_) => {},
                            }
                        },
                        NodeTokenV::Token(_) => {},
                    }
                } else {
                    lemma_functions_literals(items.subrange(1, n));
                    match spec_functions(items.subrange(1, n)) {
                        Ok(rest) => {
                            lemma_item_literals_concat(seq![items[0]], rest);
                            assert(items =~= seq![items[0]] + items.subrange(1, n));
                            lemma_item_literals_concat(seq![items[0]], items.subrange(1, n));
                        },
                        Err(_) => {},
                    }
                }
            },
            NodeTokenV::Node(_) => {
                lemma_functions_literals(items.subrange(1, n));
                match spec_functions(items.subrange(1, n)) {
                    Ok(rest) => {
                        lemma_item_literals_concat(seq![items[0]], rest);
                        assert(items =~= seq![items[0]] + items.subrange(1, n));
                        lemma_item_literals_concat(seq![items[0]], items.subrange(1, n));
                    },
                    Err(_) => {},
                }
            },
        }
    }
}

/// The backward scans only report positions holding an operator token.
proof fn lemma_scan_addsub_op(items: Seq<NodeTokenV>, i: int)
    ensures
        scan_addsub(items, i) matches Some(j) ==> 1 <= j <= i && addsub_at(items, j),
    decreases i,
{
    if i >= 1 && !addsub_at(items, i) {
        lemma_scan_addsub_op(items, i - 1);
    }
}

proof fn lemma_scan_muldiv_op(items: Seq<NodeTokenV>, i: int)
    ensures
        scan_muldiv(items, i) matches Some(j) ==> 1 <= j <= i && muldiv_at(items, j),
    decreases i,
{
    if i >= 1 && !muldiv_at(items, i) {
        lemma_scan_muldiv_op(items, i - 1);
    }
}

proof fn lemma_scan_pow_op(items: Seq<NodeTokenV>, i: int)
    ensures
        scan_pow(items, i) matches Some(j) ==> i <= j < items.len() && items[j] matches
            NodeTokenV::Token(TokenV::PowOperator),
    decreases items.len() - i,
{
    if 1 <= i < items.len() && !(items[i] matches NodeTokenV::Token(TokenV::PowOperator)) {
        lemma_scan_pow_op(items, i + 1);
    }
}

/// Splitting a pending-item sequence at an operator position keeps the
/// literals of the two sides.
proof fn lemma_split_literals(items: Seq<NodeTokenV>, i: int)
    requires
        0 <= i < items.len(),
        items[i] matches NodeTokenV::Token(t) && !(t is Number) && !(t is Variable),
    ensures
        item_literals(items) == item_literals(items.subrange(0, i)) + item_literals(
            items.subrange(i + 1, items.len() as int),
        ),
{
    let n = items.len() as int;
    assert(items =~= (items.subrange(0, i) + seq![items[i]]) + items.subrange(i + 1, n));
    lemma_item_literals_concat(items.subrange(0, i) + seq![items[i]], items.subrange(i + 1, n));
    lemma_item_literals_concat(items.subrange(0, i), seq![items[i]]);
    lemma_item_literals_single(items[i]);
    assert(item_literals(seq![items[i]]) =~= Seq::<TokenV>::empty());
    assert(item_literals(items.subrange(0, i)) + item_literals(seq![items[i]])
        =~= item_literals(items.subrange(0, i)));
}

/// The precedence reducer keeps every literal leaf.
proof fn lemma_emdas_literals(items: Seq<NodeTokenV>)
    ensures
        spec_emdas(items) matches Ok(node) ==> node_literals(node) == item_literals(items),
    decreases items.len(),
{
    let n = items.len() as int;
    if n == 0 {
    } else if n == 1 {
        assert(items =~= seq![items[0]]);
        lemma_item_literals_single(items[0]);
    } else {
        lemma_scan_addsub_op(items, n - 1);
        match scan_addsub(items, n - 1) {
            Some(i) => {
                if 1 <= i < n {
                    lemma_emdas_literals(items.subrange(0, i));
                    lemma_emdas_literals(items.subrange(i + 1, n));
                    lemma_split_literals(items, i);
                }
            },
            None => {
                lemma_scan_muldiv_op(items, n - 1);
                match scan_muldiv(items, n - 1) {
                    Some(i) => {
                        if 1 <= i < n {
                            lemma_emdas_literals(items.subrange(0, i));
                            lemma_emdas_literals(items.subrange(i + 1, n));
                            lemma_split_literals(items, i);
                        }
                    },
                    None => {
                        if items[0] matches NodeTokenV::Token(TokenV::SubOperator) {
                            lemma_emdas_literals(items.subrange(1, n));
                            assert(items =~= seq![items[0]] + items.subrange(1, n));
                            lemma_item_literals_concat(seq![items[0]], items.subrange(1, n));
                            lemma_item_literals_single(items[0]);
                            assert(item_literals(seq![items[0]]) =~= Seq::<TokenV>::empty());
                            assert(Seq::<TokenV>::empty() + item_literals(items.subrange(1, n))
                                =~= item_literals(items.subrange(1, n)));
                        } else {
                            lemma_scan_pow_op(items, 1);
                            match scan_pow(items, 1) {
                                Some(i) => {
                                    if 1 <= i < n {
                                        lemma_emdas_literals(items.subrange(0, i));
                                        lemma_emdas_literals(items.subrange(i + 1, n));
                                        lemma_split_literals(items, i);
                                    }
                                },
                                None => {},
                            }
                        }
                    },
                }
            },
        }
    }
}

/// The parenthesis scan keeps every literal leaf: what it carries in
/// its inner buffer comes back out through the recursive parse.
proof fn lemma_paren_loop_literals(
    toks: Seq<TokenV>,
    i: int,
    depth: int,
    buf: Seq<TokenV>,
    out: Seq<NodeTokenV>,
)
    requires
        0 <= i <= toks.len(),
        0 <= depth,
        depth == 0 ==> buf.len() == 0,
    ensures
        spec_paren_loop(toks, i, depth, buf, out) matches Ok(res) ==> item_literals(res)
            == item_literals(out) + token_literals(buf) + token_literals(
            toks.subrange(i, toks.len() as int),
        ),
    decreases toks.len(), 0int, toks.len() - i,
{
    let n = toks.len() as int;
    if i >= n {
        if depth <= 0 {
            assert(toks.subrange(i, n) =~= Seq::<TokenV>::empty());
            assert(buf =~= Seq::<TokenV>::empty());
            assert(token_literals(Seq::<TokenV>::empty()) =~= Seq::<TokenV>::empty());
            assert(item_literals(out) + token_literals(buf) + token_literals(toks.subrange(i, n))
                =~= item_literals(out));
        }
    } else {
        let t = toks[i];
        assert(toks.subrange(i, n).skip(1) =~= toks.subrange(i + 1, n));
        assert(toks.subrange(i, n)[0] == t);
        if t is LeftParenthesis {
            assert(literal_contrib(t) =~= Seq::<TokenV>::empty());
            assert(token_literals(toks.subrange(i, n)) =~= token_literals(toks.subrange(i + 1, n)));
            if depth > 0 {
                lemma_paren_loop_literals(toks, i + 1, depth + 1, buf.push(t), out);
                assert(buf.push(t) =~= buf + seq![t]);
                lemma_token_literals_concat(buf, seq![t]);
                lemma_token_literals_single(t);
                assert(token_literals(buf.push(t)) =~= token_literals(buf));
            } else {
                lemma_paren_loop_literals(toks, i + 1, depth + 1, buf, out);
            }
        } else if t is RightParenthesis {
            assert(literal_contrib(t) =~= Seq::<TokenV>::empty());
            assert(token_literals(toks.subrange(i, n)) =~= token_literals(toks.subrange(i + 1, n)));
            if depth <= 0 {
            } else if depth == 1 {
                if buf.len() < toks.len() {
                    lemma_parse_literals(buf);
                    match spec_parse(buf) {
                        Ok(nd) => {
                            lemma_paren_loop_literals(
                                toks,
                                i + 1,
                                0,
                                Seq::empty(),
                                out.push(NodeTokenV::Node(nd)),
                            );
                            assert(out.push(NodeTokenV::Node(nd)) =~= out + seq![
                                NodeTokenV::Node(nd),
                            ]);
                            lemma_item_literals_concat(out, seq![NodeTokenV::Node(nd)]);
                            lemma_item_literals_single(NodeTokenV::Node(nd));
                            assert(token_literals(Seq::<TokenV>::empty())
                                =~= Seq::<TokenV>::empty());
                            assert(item_literals(out.push(NodeTokenV::Node(nd)))
                                + Seq::<TokenV>::empty() + token_literals(toks.subrange(i + 1, n))
                                =~= item_literals(out) + token_literals(buf) + token_literals(
                                toks.subrange(i + 1, n),
                            ));
                        },
                        Err(_) => {},
                    }
                }
            } else {
                lemma_paren_loop_literals(toks, i + 1, depth - 1, buf.push(t), out);
                assert(buf.push(t) =~= buf + seq![t]);
                lemma_token_literals_concat(buf, seq![t]);
                lemma_token_literals_single(t);
                assert(token_literals(buf.push(t)) =~= token_literals(buf));
            }
        } else {
            assert(token_literals(toks.subrange(i, n)) =~= literal_contrib(t) + token_literals(
                toks.subrange(i + 1, n),
            ));
            if depth == 0 {
                lemma_paren_loop_literals(toks, i + 1, 0, buf, out.push(NodeTokenV::Token(t)));
                assert(out.push(NodeTokenV::Token(t)) =~= out + seq![NodeTokenV::Token(t)]);
                lemma_item_literals_concat(out, seq![NodeTokenV::Token(t)]);
                lemma_item_literals_single(NodeTokenV::Token(t));
                assert(buf =~= Seq::<TokenV>::empty());
                assert(token_literals(Seq::<TokenV>::empty()) =~= Seq::<TokenV>::empty());
                assert((item_literals(out) + literal_contrib(t)) + Seq::<TokenV>::empty()
                    + token_literals(toks.subrange(i + 1, n)) =~= item_literals(out)
                    + Seq::<TokenV>::empty() + (literal_contrib(t) + token_literals(
                    toks.subrange(i + 1, n),
                )));
            } else {
                lemma_paren_loop_literals(toks, i + 1, depth, buf.push(t), out);
                assert(buf.push(t) =~= buf + seq![t]);
                lemma_token_literals_concat(buf, seq![t]);
                lemma_token_literals_single(t);
                assert(item_literals(out) + (token_literals(buf) + literal_contrib(t))
                    + token_literals(toks.subrange(i + 1, n)) =~= item_literals(out)
                    + token_literals(buf) + (literal_contrib(t) + token_literals(
                    toks.subrange(i + 1, n),
                )));
            }
        }
    }
}

/// A successful parse returns a tree whose numeric-literal and variable
/// leaves, in order, are exactly the numeric-literal and variable
/// tokens of the input sequence.
pub proof fn lemma_parse_literals(toks: Seq<TokenV>)
    ensures
        spec_parse(toks) matches Ok(node) ==> node_literals(node) == token_literals(toks),
    decreases toks.len(), 1int, 0int,
{
    lemma_paren_loop_literals(toks, 0, 0, Seq::empty(), Seq::empty());
    match spec_parentheses(toks) {
        Ok(items) => {
            assert(toks.subrange(0, toks.len() as int) =~= toks);
            assert(item_literals(Seq::<NodeTokenV>::empty()) =~= Seq::<TokenV>::empty());
            assert(token_literals(Seq::<TokenV>::empty()) =~= Seq::<TokenV>::empty());
            assert(item_literals(Seq::<NodeTokenV>::empty()) + token_literals(
                Seq::<TokenV>::empty(),
            ) + token_literals(toks) =~= token_literals(toks));
            lemma_functions_literals(items);
            match spec_functions(items) {
                Ok(reduced) => {
                    lemma_emdas_literals(reduced);
                    match spec_emdas(reduced) {
                        Ok(node) => {
                            lemma_exp_rewrite_literals(node);
                        },
                        Err(_) => {},
                    }
                },
                Err(_) => {},
            }
        },
        Err(_) => {},
    }
}

/// For a text that scans and parses successfully, the numeric-literal
/// and variable leaves of the final tree, in order, are exactly the
/// numeric-literal and variable tokens the scan found in the text.
pub proof fn lemma_pipeline_literals(text: Seq<char>)
    ensures
        spec_tokenize(text) matches Ok(toks) ==> (spec_parse(toks) matches Ok(node)
            ==> node_literals(node) == token_literals(toks)),
{
    match spec_tokenize(text) {
        Ok(toks) => {
            lemma_parse_literals(toks);
        },
        Err(_) => {},
    }
}

} // verus!
