//! The tree builder: a flat token sequence to one expression tree.

use crate::node::{node_view, Node, NodeView};
use crate::tokeniser::{Token, TokenKind, TokenType, TokenView};
use vstd::prelude::*;

verus! {

/// A failure to build a tree. The builder accepts every token sequence, so
/// none is ever produced; the type is kept for a stricter grammar.
#[derive(Debug)]
pub struct ParserError {
    pub message: String,
    pub token: Token,
}

impl ParserError {
    pub fn get_message(&self) -> (r: &String)
        ensures
            r == self.message,
    {
        &self.message
    }

    pub fn get_token(&self) -> (r: &Token)
        ensures
            r == self.token,
    {
        &self.token
    }
}

pub open spec fn leaf(t: TokenView) -> NodeView {
    NodeView { token: Some(t), children: Seq::empty() }
}

pub open spec fn group(children: Seq<NodeView>) -> NodeView {
    NodeView { token: None, children }
}

pub open spec fn with_child(n: NodeView, c: NodeView) -> NodeView {
    NodeView { token: n.token, children: n.children.push(c) }
}

/// One node built from the tokens at `pos` onwards, and the position after
/// it. An opening bracket first makes a headless node around one nested
/// node; a closing bracket first makes an empty headless node; any other
/// token is the head. Then children follow (see `parse_children`).
pub open spec fn parse_from(toks: Seq<TokenView>, pos: int) -> (NodeView, int)
    decreases toks.len() - pos, 1nat,
{
    if pos < 0 || pos >= toks.len() {
        (group(Seq::empty()), pos)
    } else {
        match toks[pos].kind {
            TokenKind::LBracket => {
                let inner = parse_from(toks, pos + 1);
                if pos < inner.1 <= toks.len() {
                    parse_children(toks, group(seq![inner.0]), inner.1)
                } else {
                    (group(seq![inner.0]), inner.1)
                }
            },
            TokenKind::RBracket => parse_children(toks, group(Seq::empty()), pos + 1),
            _ => parse_children(toks, leaf(toks[pos]), pos + 1),
        }
    }
}

/// Children of `node` from `pos` onwards: an opening bracket adds a nested
/// node, a closing bracket ends the node, any other token adds a leaf; the
/// end of the tokens ends the node too.
pub open spec fn parse_children(toks: Seq<TokenView>, node: NodeView, pos: int) -> (NodeView, int)
    decreases toks.len() - pos, 0nat,
{
    if pos < 0 || pos >= toks.len() {
        (node, pos)
    } else {
        match toks[pos].kind {
            TokenKind::LBracket => {
                let inner = parse_from(toks, pos + 1);
                if pos < inner.1 <= toks.len() {
                    parse_children(toks, with_child(node, inner.0), inner.1)
                } else {
                    (with_child(node, inner.0), inner.1)
                }
            },
            TokenKind::RBracket => (node, pos + 1),
            _ => parse_children(toks, with_child(node, leaf(toks[pos])), pos + 1),
        }
    }
}

/// Parsing never moves backwards, and a node that starts before the end
/// takes at least one token.
pub proof fn lemma_parse_advances(toks: Seq<TokenView>, pos: int)
    requires
        0 <= pos <= toks.len(),
    ensures
        pos <= parse_from(toks, pos).1 <= toks.len(),
        pos < toks.len() ==> parse_from(toks, pos).1 > pos,
    decreases toks.len() - pos, 1nat,
{
    if pos < toks.len() {
        match toks[pos].kind {
            TokenKind::LBracket => {
                lemma_parse_advances(toks, pos + 1);
                let inner = parse_from(toks, pos + 1);
                lemma_children_advance(toks, group(seq![inner.0]), inner.1);
            },
            TokenKind::RBracket => {
                lemma_children_advance(toks, group(Seq::empty()), pos + 1);
            },
            _ => {
                lemma_children_advance(toks, leaf(toks[pos]), pos + 1);
            },
        }
    }
}

pub proof fn lemma_children_advance(toks: Seq<TokenView>, node: NodeView, pos: int)
    requires
        0 <= pos <= toks.len(),
    ensures
        pos <= parse_children(toks, node, pos).1 <= toks.len(),
    decreases toks.len() - pos, 0nat,
{
    if pos < toks.len() {
        match toks[pos].kind {
            TokenKind::LBracket => {
                lemma_parse_advances(toks, pos + 1);
                let inner = parse_from(toks, pos + 1);
                lemma_children_advance(toks, with_child(node, inner.0), inner.1);
            },
            TokenKind::RBracket => {},
            _ => {
                lemma_children_advance(toks, with_child(node, leaf(toks[pos])), pos + 1);
            },
        }
    }
}

/// Where a node of `toks` ends, the same node in `toks` followed by one
/// more closing bracket ends at the same place, or, when it ran to the end
/// of `toks`, just after that bracket.
pub open spec fn same_end(e: int, e2: int, len: int) -> bool {
    e2 == e || (e == len && e2 == len + 1)
}

proof fn lemma_extra_close_node(toks: Seq<TokenView>, close: TokenView, pos: int)
    requires
        close.kind == TokenKind::RBracket,
        0 <= pos <= toks.len(),
    ensures
        parse_from(toks.push(close), pos).0 == parse_from(toks, pos).0,
        same_end(parse_from(toks, pos).1, parse_from(toks.push(close), pos).1, toks.len() as int),
    decreases toks.len() - pos, 1nat,
{
    let t2 = toks.push(close);
    lemma_parse_advances(toks, pos);
    if pos < toks.len() {
        assert(t2[pos] == toks[pos]);
        match toks[pos].kind {
            TokenKind::LBracket => {
                lemma_extra_close_node(toks, close, pos + 1);
                lemma_parse_advances(toks, pos + 1);
                let inner = parse_from(toks, pos + 1);
                let inner2 = parse_from(t2, pos + 1);
                let g = group(seq![inner.0]);
                assert(inner2.0 == inner.0);
                assert(parse_from(toks, pos) == parse_children(toks, g, inner.1));
                assert(parse_from(t2, pos) == parse_children(t2, g, inner2.1));
                if inner2.1 == inner.1 {
                    lemma_extra_close_children(toks, close, g, inner.1);
                } else {
                    assert(parse_children(toks, g, inner.1) == (g, inner.1));
                    assert(parse_children(t2, g, inner2.1) == (g, inner2.1));
                }
            },
            TokenKind::RBracket => {
                lemma_extra_close_children(toks, close, group(Seq::empty()), pos + 1);
            },
            _ => {
                lemma_extra_close_children(toks, close, leaf(toks[pos]), pos + 1);
            },
        }
    } else {
        assert(t2[pos] == close);
        assert(parse_from(toks, pos) == (group(Seq::empty()), pos));
        assert(parse_children(t2, group(Seq::empty()), pos + 1) == (group(Seq::empty()), pos + 1));
        assert(parse_from(t2, pos) == (group(Seq::empty()), pos + 1));
    }
}

proof fn lemma_extra_close_children(toks: Seq<TokenView>, close: TokenView, node: NodeView, p: int)
    requires
        close.kind == TokenKind::RBracket,
        0 <= p <= toks.len(),
    ensures
        parse_children(toks.push(close), node, p).0 == parse_children(toks, node, p).0,
        same_end(parse_children(toks, node, p).1, parse_children(toks.push(close), node, p).1, toks.len() as int),
    decreases toks.len() - p, 0nat,
{
    let t2 = toks.push(close);
    if p < toks.len() {
        assert(t2[p] == toks[p]);
        match toks[p].kind {
            TokenKind::LBracket => {
                lemma_extra_close_node(toks, close, p + 1);
                lemma_parse_advances(toks, p + 1);
                let inner = parse_from(toks, p + 1);
                let inner2 = parse_from(t2, p + 1);
                let w = with_child(node, inner.0);
                assert(inner2.0 == inner.0);
                assert(parse_children(toks, node, p) == parse_children(toks, w, inner.1));
                assert(parse_children(t2, node, p) == parse_children(t2, w, inner2.1));
                if inner2.1 == inner.1 {
                    lemma_extra_close_children(toks, close, w, inner.1);
                } else {
                    assert(parse_children(toks, w, inner.1) == (w, inner.1));
                    assert(parse_children(t2, w, inner2.1) == (w, inner2.1));
                }
            },
            TokenKind::RBracket => {},
            _ => {
                lemma_extra_close_children(toks, close, with_child(node, leaf(toks[p])), p + 1);
            },
        }
    } else {
        assert(t2[p] == close);
        assert(parse_children(toks, node, p) == (node, p));
        assert(parse_children(t2, node, p) == (node, p + 1));
    }
}

/// A closing bracket that matches nothing, after the last token, leaves the
/// tree unchanged.
pub proof fn law_trailing_close_is_ignored(toks: Seq<TokenView>, close: TokenView)
    requires
        close.kind == TokenKind::RBracket,
    ensures
        parse_from(toks.push(close), 0).0 == parse_from(toks, 0).0,
{
    lemma_extra_close_node(toks, close, 0);
}

/// The tokens being read, front to back.
pub struct ParserState {
    pub tokens: Vec<Token>,
    pub index: usize,
}

impl ParserState {
    pub open spec fn toks(&self) -> Seq<TokenView> {
        self.tokens@.map_values(|t: Token| t@)
    }

    pub fn new(tokens: Vec<Token>) -> (r: Self)
        ensures
            r.tokens == tokens,
            r.index == 0,
    {
        Self { tokens, index: 0 }
    }

    pub fn has_token(&self) -> (r: bool)
        ensures
            r == (self.index < self.tokens@.len()),
    {
        self.index < self.tokens.len()
    }

    /// The next token, if any, and moves past it.
    pub fn eat_token(&mut self) -> (r: Option<Token>)
        ensures
            final(self).tokens == old(self).tokens,
            old(self).index < old(self).tokens@.len() ==> r == Some(old(self).tokens@[old(self).index as int])
                && final(self).index == old(self).index + 1,
            old(self).index >= old(self).tokens@.len() ==> r is None && final(self).index == old(self).index,
    {
        if self.index < self.tokens.len() {
            let t = self.tokens[self.index].clone();
            self.index += 1;
            Some(t)
        } else {
            None
        }
    }
}

fn parse_node(parser_state: &mut ParserState) -> (r: Node)
    requires
        old(parser_state).index <= old(parser_state).tokens@.len(),
    ensures
        final(parser_state).tokens == old(parser_state).tokens,
        node_view(&r) == parse_from(old(parser_state).toks(), old(parser_state).index as int).0,
        final(parser_state).index == parse_from(old(parser_state).toks(), old(parser_state).index as int).1,
        final(parser_state).index <= final(parser_state).tokens@.len(),
    decreases parser_state.tokens@.len() - parser_state.index,
{
    let ghost toks = parser_state.toks();
    let ghost pos = parser_state.index as int;
    proof {
        lemma_parse_advances(toks, pos);
    }
    let mut node = match parser_state.eat_token() {
        Some(token) => {
            assert(token@ == toks[pos]);
            match token.token_type {
                TokenType::LBracket => {
                    let inner = parse_node(parser_state);
                    let mut group_node = Node::new(None);
                    group_node.add_child(inner);
                    proof {
                        assert(node_view(&group_node).children =~= seq![node_view(&inner)]);
                    }
                    group_node
                },
                TokenType::RBracket => {
                    let n = Node::new(None);
                    assert(node_view(&n).children =~= Seq::<NodeView>::empty());
                    n
                },
                _ => {
                    let n = Node::new(Some(token));
                    assert(node_view(&n).children =~= Seq::<NodeView>::empty());
                    n
                },
            }
        },
        None => {
            let n = Node::new(None);
            assert(node_view(&n).children =~= Seq::<NodeView>::empty());
            n
        },
    };
    assert(parse_from(toks, pos) == parse_children(toks, node_view(&node), parser_state.index as int));
    loop
        invariant
            parser_state.tokens == old(parser_state).tokens,
            toks == old(parser_state).toks(),
            pos == old(parser_state).index,
            parser_state.toks() == toks,
            pos <= parser_state.index <= parser_state.tokens@.len(),
            parse_children(toks, node_view(&node), parser_state.index as int) == parse_from(toks, pos),
        decreases parser_state.tokens@.len() - parser_state.index,
    {
        let ghost here = parser_state.index as int;
        match parser_state.eat_token() {
            Some(token) => {
                assert(token@ == toks[here]);
                match token.token_type {
                    TokenType::LBracket => {
                        proof {
                            lemma_parse_advances(toks, here + 1);
                        }
                        let child = parse_node(parser_state);
                        node.add_child(child);
                    },
                    TokenType::RBracket => {
                        assert(toks[here].kind == TokenKind::RBracket);
                        assert(parse_children(toks, node_view(&node), here) == (node_view(&node), here + 1));
                        return node;
                    },
                    _ => {
                        let l = Node::new(Some(token));
                        assert(node_view(&l).children =~= Seq::<NodeView>::empty());
                        node.add_child(l);
                    },
                }
            },
            None => {
                assert(parse_children(toks, node_view(&node), here) == (node_view(&node), here));
                return node;
            },
        }
    }
}

/// Builds one tree from the tokens; see `parse_from` for the rules. Tokens
/// left after the first complete node are read as further children of it.
pub fn parse(tokens: Vec<Token>) -> (r: Result<Node, ParserError>)
    ensures
        r is Ok && node_view(&r->Ok_0) == parse_from(tokens@.map_values(|t: Token| t@), 0).0,
{
    let mut parser_state = ParserState::new(tokens);
    Ok(parse_node(&mut parser_state))
}

} // verus!
