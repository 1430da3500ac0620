//! Expression trees and their evaluation.

use crate::error::Error;
use crate::run_state::{
    bound_outcome, can_assign, can_declare_const, standard_environment, vocabulary_word, RunState,
};
use crate::stdlib::{
    all_integers, all_plain, arithmetic, arithmetic_outcome, format_string, integer_arithmetic, plain,
    rendered_all, seeded, std_print_print, std_print_println, views_of,
};
use crate::structure::{names, StructureInstance, StructureTemplate};
use crate::variable::{VariableInstance, VariableStore};
use crate::text::{push_str, push_string};
use crate::tokeniser::{Token, TokenKind, TokenType, TokenView};
use crate::value::{Host, NativeFunction, NativeMacro, Operator, Value, ValueView};
use vstd::prelude::*;
use vstd::string::StringExecFns;

verus! {

/// A node of an expression tree: an optional head token and the children,
/// in order. A leaf has a token and no children; a call form has both; a
/// node without a token groups its children.
#[derive(Debug)]
pub struct Node {
    pub token: Option<Token>,
    pub children: Vec<Node>,
}

/// The mathematical form of a tree.
pub struct NodeView {
    pub token: Option<TokenView>,
    pub children: Seq<NodeView>,
}

pub open spec fn token_view(t: Option<Token>) -> Option<TokenView> {
    match t {
        Some(t) => Some(t@),
        None => None,
    }
}

/// The view of a tree.
pub open spec fn node_view(n: &Node) -> NodeView
    decreases n, 1nat,
{
    NodeView { token: token_view(n.token), children: node_views_upto(&n.children, n.children@.len() as int) }
}

/// The views of the first `k` trees of `l`.
pub open spec fn node_views_upto(l: &Vec<Node>, k: int) -> Seq<NodeView>
    decreases l, 0nat, k,
{
    if k <= 0 || k > l@.len() {
        Seq::empty()
    } else {
        node_views_upto(l, k - 1).push(node_view(&l@[k - 1]))
    }
}

/// Views depend only on the trees they are taken of.
pub proof fn lemma_node_views_prefix(a: &Vec<Node>, b: &Vec<Node>, k: int)
    requires
        0 <= k <= a@.len(),
        k <= b@.len(),
        forall|i: int| 0 <= i < k ==> a@[i] == b@[i],
    ensures
        node_views_upto(a, k) == node_views_upto(b, k),
    decreases k,
{
    if k > 0 {
        lemma_node_views_prefix(a, b, k - 1);
    }
}

pub proof fn lemma_node_views_index(l: &Vec<Node>, k: int)
    requires
        0 <= k <= l@.len(),
    ensures
        node_views_upto(l, k).len() == k,
        forall|i: int| 0 <= i < k ==> #[trigger] node_views_upto(l, k)[i] == node_view(&l@[i]),
    decreases k,
{
    if k > 0 {
        lemma_node_views_index(l, k - 1);
    }
}

/// What a built-in function gives on these values when the result is
/// fixed by them alone: lists; arithmetic on no operand, on one integer or
/// on integers only; the text of plain values.
pub open spec fn pure_call(function: NativeFunction, vs: Seq<ValueView>) -> Option<ValueView> {
    let op = match function {
        NativeFunction::Add => Operator::Add,
        NativeFunction::Sub => Operator::Sub,
        NativeFunction::Mul => Operator::Mul,
        _ => Operator::Div,
    };
    match function {
        NativeFunction::List => Some(ValueView::List(vs)),
        NativeFunction::Format => if forall|i: int| 0 <= i < vs.len() ==> plain(#[trigger] vs[i]) {
            Some(ValueView::String(rendered_all(vs)))
        } else {
            None
        },
        NativeFunction::Add | NativeFunction::Sub | NativeFunction::Mul | NativeFunction::Div => {
            if vs.len() == 0 {
                Some(ValueView::Null)
            } else if vs.len() == 1 {
                if seeded(op) {
                    Some(vs[0])
                } else if vs[0] is Integer && vs[0]->Integer_0 != i64::MIN {
                    Some(ValueView::Integer((-vs[0]->Integer_0) as i64))
                } else {
                    None
                }
            } else if all_integers(vs) {
                match integer_arithmetic(op, vs) {
                    Some(v) => Some(ValueView::Integer(v)),
                    None => None,
                }
            } else {
                None
            }
        },
        _ => None,
    }
}

/// The value of a tree whose evaluation only reads the environment, when
/// that value is fixed: Null for an empty group; a group's last value; a
/// literal integer or string; `true` and `false`; the value bound to an
/// identifier that names no template and no callable; a built-in function
/// named alone, called without arguments; and a call of a
/// built-in function whose arguments are such trees and whose result
/// `pure_call` fixes. `None` for every other tree.
pub open spec fn pure_value(n: NodeView, rs: &RunState) -> Option<ValueView>
    decreases n, 1nat,
{
    match n.token {
        None => if n.children.len() == 0 {
            Some(ValueView::Null)
        } else {
            match pure_values(n.children, rs, n.children.len() as int) {
                Some(vs) => Some(vs.last()),
                None => None,
            }
        },
        Some(t) => match t.kind {
            TokenKind::Integer(i) => if n.children.len() == 0 {
                Some(ValueView::Integer(i))
            } else {
                None
            },
            TokenKind::String(s) => if n.children.len() == 0 {
                Some(ValueView::String(s))
            } else {
                None
            },
            TokenKind::Identifier(id) => if rs.template(id) is Some {
                None
            } else if n.children.len() == 0 {
                match rs.value(id) {
                    Some(Value::NativeFunction(f)) => pure_call(f, Seq::empty()),
                    Some(v) => if v.is_callable() {
                        None
                    } else {
                        Some(v@)
                    },
                    None => if id == word_true() {
                        Some(ValueView::Boolean(true))
                    } else if id == word_false() {
                        Some(ValueView::Boolean(false))
                    } else {
                        None
                    },
                }
            } else {
                match rs.value(id) {
                    Some(Value::NativeFunction(f)) => match pure_values(
                        n.children,
                        rs,
                        n.children.len() as int,
                    ) {
                        Some(vs) => pure_call(f, vs),
                        None => None,
                    },
                    _ => None,
                }
            },
            _ => None,
        },
    }
}

/// The values of the first `k` trees, if each has one.
pub open spec fn pure_values(ns: Seq<NodeView>, rs: &RunState, k: int) -> Option<Seq<ValueView>>
    decreases ns, 0nat, k,
{
    if k <= 0 || k > ns.len() {
        Some(Seq::empty())
    } else {
        match (pure_values(ns, rs, k - 1), pure_value(ns[k - 1], rs)) {
            (Some(vs), Some(v)) => Some(vs.push(v)),
            _ => None,
        }
    }
}

/// Wrapping a tree in a group changes nothing: `((x))`, `(x)` and `x` have
/// the same value.
pub proof fn law_group_is_transparent(n: NodeView, rs: &RunState)
    ensures
        pure_value(NodeView { token: None, children: seq![n] }, rs) == pure_value(n, rs),
{
    let g = NodeView { token: None, children: seq![n] };
    assert(pure_values(g.children, rs, 0) == Some(Seq::<ValueView>::empty()));
    if pure_value(n, rs) is Some {
        assert(pure_values(g.children, rs, 1)->0 =~= seq![pure_value(n, rs)->0]);
    }
}

/// A later form sees an earlier binding: once the innermost scope binds
/// `id` to a value (as `set` and `const` leave it), the identifier alone
/// evaluates to that value, provided no template of that name hides it.
pub proof fn law_binding_is_observed(rs: &RunState, id: Seq<char>, head: TokenView)
    requires
        rs.wf(),
        rs.scopes@.len() == 1,
        rs.scopes@.last().local(id) is Some,
        rs.template(id) is None,
        !rs.store.value_of(rs.scopes@.last().local(id)->0).is_callable(),
        head.kind == TokenKind::Identifier(id),
    ensures
        pure_value(NodeView { token: Some(head), children: Seq::empty() }, rs) == Some(
            rs.store.value_of(rs.scopes@.last().local(id)->0)@,
        ),
{
    assert(rs.variable(id) == rs.scopes@[0].local(id));
}

/// An empty group is Null.
pub proof fn law_empty_group_is_null(rs: &RunState)
    ensures
        pure_value(NodeView { token: None, children: Seq::empty() }, rs) == Some(ValueView::Null),
{
}

/// Two environments that bind the same values and templates to every name.
pub open spec fn same_bindings(a: &RunState, b: &RunState) -> bool {
    forall|id: Seq<char>| a.value(id) == b.value(id) && a.template(id) == b.template(id)
}

/// The pure value of a tree depends only on what names are bound to.
pub proof fn lemma_pure_value_same_bindings(n: NodeView, a: &RunState, b: &RunState)
    requires
        same_bindings(a, b),
    ensures
        pure_value(n, a) == pure_value(n, b),
    decreases n, 1nat,
{
    lemma_pure_values_same_bindings(n.children, a, b, n.children.len() as int);
    match n.token {
        Some(t) => match t.kind {
            TokenKind::Identifier(id) => {
                assert(a.value(id) == b.value(id) && a.template(id) == b.template(id));
            },
            _ => {},
        },
        None => {},
    }
}

proof fn lemma_pure_values_same_bindings(ns: Seq<NodeView>, a: &RunState, b: &RunState, k: int)
    requires
        same_bindings(a, b),
    ensures
        pure_values(ns, a, k) == pure_values(ns, b, k),
    decreases ns, 0nat, k,
{
    if 0 < k <= ns.len() {
        lemma_pure_values_same_bindings(ns, a, b, k - 1);
        lemma_pure_value_same_bindings(ns[k - 1], a, b);
    }
}

/// Any two fresh environments bind the same values and templates.
pub proof fn lemma_standard_environments_agree(a: &RunState, b: &RunState)
    requires
        standard_environment(a),
        standard_environment(b),
    ensures
        same_bindings(a, b),
{
    assert forall|id: Seq<char>| a.value(id) == b.value(id) && a.template(id) == b.template(id) by {
        if !vocabulary_word(id) {
            assert(a.value(id) is None && b.value(id) is None);
        }
    }
}

/// A prefix of trees with values has values.
pub proof fn lemma_pure_values_prefix(ns: Seq<NodeView>, rs: &RunState, j: int, k: int)
    requires
        0 <= j <= k <= ns.len(),
        pure_values(ns, rs, k) is Some,
    ensures
        pure_values(ns, rs, j) is Some,
        pure_values(ns, rs, j)->0.len() == j,
        pure_values(ns, rs, k)->0.subrange(0, j) == pure_values(ns, rs, j)->0,
    decreases k - j,
{
    lemma_pure_values_len(ns, rs, k);
    if j < k {
        lemma_pure_values_prefix(ns, rs, j, k - 1);
        let a = pure_values(ns, rs, k)->0;
        let b = pure_values(ns, rs, k - 1)->0;
        assert(a.subrange(0, j) =~= b.subrange(0, j));
    } else {
        assert(pure_values(ns, rs, k)->0.subrange(0, j) =~= pure_values(ns, rs, j)->0);
    }
}

pub proof fn lemma_pure_values_len(ns: Seq<NodeView>, rs: &RunState, k: int)
    requires
        0 <= k <= ns.len(),
        pure_values(ns, rs, k) is Some,
    ensures
        pure_values(ns, rs, k)->0.len() == k,
    decreases k,
{
    if k > 0 {
        lemma_pure_values_len(ns, rs, k - 1);
    }
}

/// The identifier that a token names, if it is an identifier.
pub open spec fn identifier_of(token: Option<Token>) -> Option<Seq<char>> {
    match token {
        Some(t) => match t.token_type {
            TokenType::Identifier(s) => Some(s@),
            _ => None,
        },
        None => None,
    }
}

pub open spec fn word_true() -> Seq<char> {
    seq!['t', 'r', 'u', 'e']
}

pub open spec fn word_false() -> Seq<char> {
    seq!['f', 'a', 'l', 's', 'e']
}

fn error_at(message: &str, token: &Option<Token>) -> (r: Error)
    ensures
        r.token == *token,
{
    let t = match token {
        Some(t) => Some(t.clone()),
        None => None,
    };
    Error::new(String::from_str(message), t)
}

/// The identifier that `node`'s token names; fails for a node without a
/// token or with a token of another kind.
pub fn get_identifier(node: &Node) -> (r: Result<&String, Error>)
    ensures
        match identifier_of(node.token) {
            Some(id) => r is Ok && r->Ok_0@ == id,
            None => r is Err,
        },
{
    match &node.token {
        Some(token) => match &token.token_type {
            TokenType::Identifier(identifier) => Ok(identifier),
            _ => Err(error_at("must be an identifier token type", &node.token)),
        },
        None => Err(Error::new(String::from_str("node must have a token"), None)),
    }
}

/// Gives an error the token of the call it came from, unless it already
/// has one.
fn with_call_token(r: Result<Value, Error>, token: &Token) -> (out: Result<Value, Error>)
    ensures
        r is Ok ==> out == r,
        r is Err ==> out is Err && out->Err_0.message == r->Err_0.message && out->Err_0.token is Some
            && (r->Err_0.token is None ==> out->Err_0.token == Some(*token))
            && (r->Err_0.token is Some ==> out->Err_0.token == r->Err_0.token),
{
    match r {
        Ok(value) => Ok(value),
        Err(mut error) => {
            if error.token.is_none() {
                error.set_token(token.clone());
            }
            Err(error)
        },
    }
}

fn is_true_word(s: &String) -> (r: bool)
    ensures
        r == (s@ == word_true()),
{
    proof {
        reveal_strlit("true");
        assert("true"@ =~= word_true());
    }
    *s == String::from_str("true")
}

fn is_false_word(s: &String) -> (r: bool)
    ensures
        r == (s@ == word_false()),
{
    proof {
        reveal_strlit("false");
        assert("false"@ =~= word_false());
    }
    *s == String::from_str("false")
}

pub open spec fn word_elif() -> Seq<char> {
    seq!['e', 'l', 'i', 'f']
}

pub open spec fn word_elseif() -> Seq<char> {
    seq!['e', 'l', 's', 'e', 'i', 'f']
}

pub open spec fn word_else() -> Seq<char> {
    seq!['e', 'l', 's', 'e']
}

fn is_word_elif(s: &String) -> (r: bool)
    ensures
        r == (s@ == word_elif() || s@ == word_elseif()),
{
    proof {
        reveal_strlit("elif");
        reveal_strlit("elseif");
        assert("elif"@ =~= word_elif());
        assert("elseif"@ =~= word_elseif());
    }
    *s == String::from_str("elif") || *s == String::from_str("elseif")
}

fn is_word_else(s: &String) -> (r: bool)
    ensures
        r == (s@ == word_else()),
{
    proof {
        reveal_strlit("else");
        assert("else"@ =~= word_else());
    }
    *s == String::from_str("else")
}

/// Every child of the node is an identifier.
pub open spec fn all_identifiers(n: &Node) -> bool {
    forall|i: int| 0 <= i < n.children@.len() ==> (#[trigger] identifier_of(n.children@[i].token)) is Some
}

/// The member names that a `def-struct` form declares: the identifiers
/// after the first.
pub open spec fn declared_members(n: &Node) -> Seq<Seq<char>> {
    Seq::new(
        (n.children@.len() - 1) as nat,
        |i: int| identifier_of(n.children@[i + 1].token)->0,
    )
}

pub open spec fn distinct(s: Seq<Seq<char>>) -> bool {
    forall|i: int, j: int| 0 <= i < j < s.len() ==> s[i] != s[j]
}

/// A `set` or `const` form with one identifier and one value tree whose
/// value is pure.
pub open spec fn single_binding(n: &Node, rs: &RunState) -> bool {
    &&& n.children@.len() == 2
    &&& identifier_of(n.children@[0].token) is Some
    &&& pure_value(node_view(&n.children@[1]), rs) is Some
}

/// What an `if` item met after a skipped body is: 1 for `elif` or
/// `elseif`, 2 for `else`, 0 for anything else.
pub open spec fn if_keyword(n: NodeView) -> int {
    match n.token {
        Some(t) => match t.kind {
            TokenKind::Identifier(s) => if s == word_elif() || s == word_elseif() {
                1
            } else if s == word_else() {
                2
            } else {
                0
            },
            _ => 0,
        },
        None => 0,
    }
}

/// The outcome of an `if` over items `cs` from `i` on, in `mode` (0 after a
/// skipped body, 1 expecting a condition, 2 expecting the body to run, 3
/// expecting a body to skip), when the items it evaluates have pure
/// values: `Some(Some(v))` for the value `v`, `Some(None)` for a failure
/// (a condition that is not a boolean), `None` when an evaluated item has
/// no pure value.
pub open spec fn if_outcome(cs: Seq<NodeView>, rs: &RunState, i: int, mode: int) -> Option<Option<ValueView>>
    decreases cs.len() - i,
{
    if i < 0 || i >= cs.len() {
        Some(Some(ValueView::Null))
    } else if mode == 0 {
        if if_keyword(cs[i]) == 0 {
            match pure_value(cs[i], rs) {
                Some(v) => Some(Some(v)),
                None => None,
            }
        } else {
            if_outcome(cs, rs, i + 1, if_keyword(cs[i]))
        }
    } else if mode == 1 {
        match pure_value(cs[i], rs) {
            Some(ValueView::Boolean(true)) => if_outcome(cs, rs, i + 1, 2),
            Some(ValueView::Boolean(false)) => if_outcome(cs, rs, i + 1, 3),
            Some(_) => Some(None),
            None => None,
        }
    } else if mode == 3 {
        if_outcome(cs, rs, i + 1, 0)
    } else {
        match pure_value(cs[i], rs) {
            Some(v) => Some(Some(v)),
            None => None,
        }
    }
}

/// Names the environment and argument values between two arguments; it
/// holds of every pair and serves to pick one out.
pub open spec fn between_args(mid: RunState, vals: Option<Seq<Value>>) -> bool {
    true
}

/// The first `k` arguments of a call, evaluated in order from `pre`: their
/// values, or `None` once one failed, after which none is evaluated.
pub open spec fn args_done(l: &Vec<Node>, k: int, pre: RunState, post: RunState, out: Option<Seq<Value>>) -> bool
    decreases l, 0nat, k,
{
    if k <= 0 || k > l@.len() {
        post == pre && out == Some(Seq::<Value>::empty())
    } else {
        exists|mid: RunState, o: Option<Seq<Value>>|
            {
                &&& #[trigger] between_args(mid, o)
                &&& args_done(l, k - 1, pre, mid, o)
                &&& o is None ==> out is None && post == mid
                &&& o is Some ==> exists|v: Option<Value>|
                    #[trigger] between(post, v) && evaluation(&l@[k - 1], mid, post, v) && out == (if v is None {
                        None::<Seq<Value>>
                    } else {
                        Some(o->0.push(v->0))
                    })
            }
    }
}

/// The operator of an arithmetic built-in.
pub open spec fn operator_of(f: NativeFunction) -> Operator {
    match f {
        NativeFunction::Add => Operator::Add,
        NativeFunction::Sub => Operator::Sub,
        NativeFunction::Mul => Operator::Mul,
        _ => Operator::Div,
    }
}

/// What the built-in function `f` yields on the values `args`, from `pre`.
pub open spec fn function_outcome(f: NativeFunction, args: Seq<Value>, pre: RunState, post: RunState, out: Option<Value>) -> bool {
    &&& post.scopes == pre.scopes
    &&& post.store == pre.store
    &&& f != NativeFunction::Print && f != NativeFunction::Println ==> post.output == pre.output
    &&& f == NativeFunction::List ==> out is Some && out->0@ == ValueView::List(views_of(args))
    &&& (f == NativeFunction::Add || f == NativeFunction::Sub || f == NativeFunction::Mul || f == NativeFunction::Div)
        ==> exists|r: Result<Value, Error>|
        #[trigger] arithmetic_outcome(operator_of(f), args, r) && ok_part(r) == out
    &&& f == NativeFunction::Format ==> out is Some && out->0 is String && (all_plain(args) ==> out->0@
        == ValueView::String(rendered_all(views_of(args))))
    &&& f == NativeFunction::Throw ==> out is None
    &&& f == NativeFunction::Print ==> out == Some(Value::Null) && (all_plain(args) ==> post.output@
        == pre.output@ + rendered_all(views_of(args)))
    &&& f == NativeFunction::Println ==> out == Some(Value::Null) && (all_plain(args) ==> post.output@
        == pre.output@ + rendered_all(views_of(args)) + seq!['\n'])
}

/// A call of the built-in function `f` from the form `n`: the children are
/// evaluated left to right, then `f` runs on their values.
pub open spec fn native_call(n: &Node, f: NativeFunction, pre: RunState, post: RunState, out: Option<Value>) -> bool
    decreases n, 1nat,
{
    exists|mid: RunState, vals: Option<Seq<Value>>|
        {
            &&& #[trigger] between_args(mid, vals)
            &&& args_done(&n.children, n.children@.len() as int, pre, mid, vals)
            &&& vals is None ==> out is None && post == mid
            &&& vals is Some ==> function_outcome(f, vals->0, mid, post, out)
        }
}

/// A form whose head names a built-in function (and no template) calls it.
pub open spec fn function_clause(n: &Node, pre: RunState, post: RunState, out: Option<Value>) -> bool
    decreases n, 2nat,
{
    match identifier_of(n.token) {
        Some(id) => pre.template(id) is None ==> match pre.value(id) {
            Some(Value::NativeFunction(f)) => native_call(n, f, pre, post, out),
            _ => true,
        },
        None => true,
    }
}

/// Once an argument fails, the later ones are not evaluated.
proof fn lemma_args_failure_stays(l: &Vec<Node>, j: int, k: int, pre: RunState, post: RunState)
    requires
        1 <= j <= k <= l@.len(),
        args_done(l, j, pre, post, None),
    ensures
        args_done(l, k, pre, post, None),
    decreases k - j,
{
    if j < k {
        assert(between_args(post, None));
        assert(args_done(l, j + 1, pre, post, None));
        lemma_args_failure_stays(l, j + 1, k, pre, post);
    }
}

/// What evaluating the tree `n` in `pre` yields (`None` for an error) and
/// leaves behind in `post`. A group's children run left to right, each in
/// the environment the one before left; the first error ends the group;
/// otherwise the group yields its last child's value.
pub open spec fn evaluation(n: &Node, pre: RunState, post: RunState, out: Option<Value>) -> bool
    decreases n, 3nat,
{
    &&& (n.token is None && n.children@.len() == 0 ==> out is Some && out->0 == Value::Null
                && post == pre)
    &&& (n.token is Some && n.children@.len() == 0 ==> match n.token->0.token_type {
                TokenType::Integer(i) => out is Some && out->0 == Value::Integer(i) && post
                    == pre,
                TokenType::String(s) => out is Some && out->0@ == ValueView::String(s@)
                    && post == pre,
                TokenType::Float(_) => out is Some ==> out->0 is Float,
                TokenType::Identifier(id) => match pre.template(id@) {
                    Some(t) => out is Some && fresh_instance(pre, post, out->0, t),
                    None => match pre.value(id@) {
                        Some(v) => !v.is_callable() ==> out is Some && out->0@ == v@ && post == pre,
                        None => if id@ == word_true() {
                            out is Some && out->0 == Value::Boolean(true) && post
                                == pre
                        } else if id@ == word_false() {
                            out is Some && out->0 == Value::Boolean(false) && post
                                == pre
                        } else {
                            out is None && post == pre
                        },
                    },
                },
                _ => out is None,
            })
    &&& (n.token is Some && n.children@.len() > 0 ==> match identifier_of(n.token) {
                Some(id) => match pre.template(id) {
                    Some(t) => out is Some && fresh_instance(pre, post, out->0, t),
                    None => match pre.value(id) {
                        Some(v) => !v.is_callable() ==> out is None && post == pre,
                        None => out is None && post == pre,
                    },
                },
                None => out is None && post == pre,
            })
    &&& (pure_value(node_view(n), &pre) is Some ==> out is Some && out->0@ == pure_value(
                node_view(n),
                &pre,
            )->0 && post == pre)
    &&& (n.token is Some ==> match identifier_of(n.token) {
        Some(id) => pre.template(id) is None ==> match pre.value(id) {
            Some(Value::NativeMacro(m)) => macro_outcome(m, n, pre, post, out),
            _ => true,
        },
        None => true,
    })
    &&& (n.token is None && n.children@.len() > 0 ==> group_evaluation(&n.children, n.children@.len() as int, pre, post, out))
    &&& (n.token is Some ==> function_clause(n, pre, post, out))
}

/// Names the environment and result between two children of a group; it
/// holds of every pair and serves to pick one out.
pub open spec fn between(mid: RunState, o: Option<Value>) -> bool {
    true
}

/// The first `k` children of a group, run in order from `pre`: `post` is
/// the environment they leave and `out` the last value, or `None` if one
/// of them failed, in which case those after it did not run.
pub open spec fn group_evaluation(l: &Vec<Node>, k: int, pre: RunState, post: RunState, out: Option<Value>) -> bool
    decreases l, 0nat, k,
{
    if k <= 0 || k > l@.len() {
        post == pre && out == Some(Value::Null)
    } else if k == 1 {
        evaluation(&l@[0], pre, post, out)
    } else {
        exists|mid: RunState, o: Option<Value>|
            {
                &&& #[trigger] between(mid, o)
                &&& group_evaluation(l, k - 1, pre, mid, o)
                &&& (o is None ==> out is None && post == mid)
                &&& (o is Some ==> evaluation(&l@[k - 1], mid, post, out))
            }
    }
}

/// One more child run after a prefix of a group.
proof fn lemma_group_step(
    l: &Vec<Node>,
    k: int,
    pre: RunState,
    mid: RunState,
    o: Option<Value>,
    post: RunState,
    out: Option<Value>,
)
    requires
        2 <= k <= l@.len(),
        group_evaluation(l, k - 1, pre, mid, o),
        o is None ==> out is None && post == mid,
        o is Some ==> evaluation(&l@[k - 1], mid, post, out),
    ensures
        group_evaluation(l, k, pre, post, out),
{
    assert(between(mid, o));
}

/// A failed prefix of a group fails the whole group, with nothing more run.
proof fn lemma_group_failure_stays(l: &Vec<Node>, j: int, k: int, pre: RunState, post: RunState)
    requires
        1 <= j <= k <= l@.len(),
        group_evaluation(l, j, pre, post, None),
    ensures
        group_evaluation(l, k, pre, post, None),
    decreases k - j,
{
    if j < k {
        lemma_group_step(l, j + 1, pre, post, None, post, None);
        lemma_group_failure_stays(l, j + 1, k, pre, post);
    }
}

/// `v` is a new instance of the template with members `t`, made in `pre`
/// with one fresh, writable, Null cell per member; nothing else changed.
pub open spec fn fresh_instance(pre: RunState, post: RunState, v: Value, t: Seq<Seq<char>>) -> bool {
    &&& v is Structure
    &&& v@->Structure_0 == t
    &&& v->Structure_0.wf()
    &&& v->Structure_0.members@.len() == t.len()
    &&& forall|i: int|
        0 <= i < t.len() ==> (#[trigger] v->Structure_0.members@[i]).index == pre.store.cells@.len() + i
    &&& post.store.cells@.len() == pre.store.cells@.len() + t.len()
    &&& post.store.cells@.subrange(0, pre.store.cells@.len() as int) == pre.store.cells@
    &&& forall|c: int|
        pre.store.cells@.len() <= c < post.store.cells@.len() ==> (#[trigger] post.store.cells@[c]) == (
        VariableInstance { value: Value::Null, is_const: false })
    &&& post.scopes == pre.scopes
    &&& post.output == pre.output
}

/// The value of a result, or `None` for an error.
pub open spec fn ok_part(r: Result<Value, Error>) -> Option<Value> {
    match r {
        Ok(v) => Some(v),
        Err(_) => None,
    }
}

/// What `set` (or `const`, when `is_const`) on its call form yields (`None` for an error) and leaves behind.
pub open spec fn assign_outcome(n: &Node, is_const: bool, pre: RunState, post: RunState, out: Option<Value>) -> bool
    decreases n, 1nat,
{
    &&& (n.children@.len() < 2 ==> out is None && post == pre)
    &&& (n.children@.len() % 2 == 1 ==> out is None)
    &&& (out is Some ==> out->0 == Value::Null)
    &&& (n.children@.len() >= 2 ==> all_pairs(n, is_const, pre, post, out))
    &&& (n.children@.len() == 2 && identifier_of(n.children@[0].token) is Some ==> pair_outcome(
        n,
        is_const,
        pre,
        post,
        out,
    ))
    &&& (single_binding(n, &pre) ==> ({
                let id = identifier_of(n.children@[0].token)->0;
                let v = pure_value(node_view(&n.children@[1]), &pre)->0;
                &&& out is Some == (if is_const {
                    can_declare_const(&pre.scopes@.last(), id)
                } else {
                    can_assign(&pre.scopes@.last(), &pre.store, id)
                })
                &&& out is Some ==> post.scopes@.last().local(id) is Some
                    && post.store.value_of(post.scopes@.last().local(id)->0)@ == v
            }))
}

/// The first `j` children of a `set` or `const` form (`j` even), taken as
/// identifier and value pairs from `pre`: `post` is what they leave, `out`
/// is `Some(Null)` while every pair succeeded and `None` once one failed,
/// after which no pair runs. A pair fails when its first item is no
/// identifier, when its value fails, or when the binding is not allowed.
pub open spec fn pairs_done(n: &Node, is_const: bool, j: int, pre: RunState, post: RunState, out: Option<Value>) -> bool
    decreases n, 0nat, j,
{
    if j < 2 || j > n.children@.len() {
        post == pre && out == Some(Value::Null)
    } else {
        exists|mid: RunState, o: Option<Value>|
            {
                &&& #[trigger] between(mid, o)
                &&& pairs_done(n, is_const, j - 2, pre, mid, o)
                &&& o is None ==> out is None && post == mid
                &&& o is Some ==> match identifier_of(n.children@[j - 2].token) {
                    None => out is None && post == mid,
                    Some(id) => exists|mid2: RunState, o2: Option<Value>|
                        {
                            &&& #[trigger] between(mid2, o2)
                            &&& evaluation(&n.children@[j - 1], mid, mid2, o2)
                            &&& o2 is None ==> out is None && post == mid2
                            &&& o2 is Some ==> {
                                &&& out is Some == (if is_const {
                                    can_declare_const(&mid2.scopes@.last(), id)
                                } else {
                                    can_assign(&mid2.scopes@.last(), &mid2.store, id)
                                })
                                &&& out is Some ==> out->0 == Value::Null
                                &&& bound_outcome(mid2, post, id, o2->0, is_const, out is Some)
                            }
                        },
                }
            }
    }
}

/// The whole `set` or `const` form: all pairs in order; an identifier left
/// without a value fails after the pairs before it.
pub open spec fn all_pairs(n: &Node, is_const: bool, pre: RunState, post: RunState, out: Option<Value>) -> bool
    decreases n, 0nat, n.children@.len() + 1,
{
    let len = n.children@.len() as int;
    if len % 2 == 0 {
        pairs_done(n, is_const, len, pre, post, out)
    } else {
        exists|mid: RunState, o: Option<Value>|
            #[trigger] between(mid, o) && pairs_done(n, is_const, len - 1, pre, mid, o) && post == mid && out is None
    }
}

/// One more pair of a `set` or `const` form.
proof fn lemma_pair_step(
    n: &Node,
    is_const: bool,
    j: int,
    pre: RunState,
    mid: RunState,
    mid2: RunState,
    o2: Option<Value>,
    post: RunState,
    out: Option<Value>,
)
    requires
        2 <= j <= n.children@.len(),
        pairs_done(n, is_const, j - 2, pre, mid, Some(Value::Null)),
        identifier_of(n.children@[j - 2].token) is None ==> out is None && post == mid,
        identifier_of(n.children@[j - 2].token) is Some ==> {
            let id = identifier_of(n.children@[j - 2].token)->0;
            &&& evaluation(&n.children@[j - 1], mid, mid2, o2)
            &&& o2 is None ==> out is None && post == mid2
            &&& o2 is Some ==> {
                &&& out is Some == (if is_const {
                    can_declare_const(&mid2.scopes@.last(), id)
                } else {
                    can_assign(&mid2.scopes@.last(), &mid2.store, id)
                })
                &&& out is Some ==> out->0 == Value::Null
                &&& bound_outcome(mid2, post, id, o2->0, is_const, out is Some)
            }
        },
    ensures
        pairs_done(n, is_const, j, pre, post, out),
{
    assert(between(mid, Some(Value::Null)));
    assert(between(mid2, o2));
}

/// Once a pair fails, the later pairs do not run.
proof fn lemma_pairs_failure_stays(n: &Node, is_const: bool, j: int, k: int, pre: RunState, post: RunState)
    requires
        2 <= j <= k <= n.children@.len(),
        j % 2 == 0,
        k % 2 == 0,
        pairs_done(n, is_const, j, pre, post, None),
    ensures
        pairs_done(n, is_const, k, pre, post, None),
    decreases k - j,
{
    if j < k {
        assert(between(post, None));
        assert(pairs_done(n, is_const, j + 2, pre, post, None));
        lemma_pairs_failure_stays(n, is_const, j + 2, k, pre, post);
    }
}

/// A failed pair fails the whole form.
proof fn lemma_pairs_failure_ends(n: &Node, is_const: bool, j: int, pre: RunState, post: RunState)
    requires
        2 <= j <= n.children@.len(),
        j % 2 == 0,
        pairs_done(n, is_const, j, pre, post, None),
    ensures
        all_pairs(n, is_const, pre, post, None),
{
    let len = n.children@.len() as int;
    if len % 2 == 0 {
        lemma_pairs_failure_stays(n, is_const, j, len, pre, post);
    } else {
        lemma_pairs_failure_stays(n, is_const, j, len - 1, pre, post);
        assert(between(post, None));
    }
}

/// `(set id value)` or `(const id value)` with any value tree: the value is
/// evaluated, then bound in the innermost scope if that is allowed.
pub open spec fn pair_outcome(n: &Node, is_const: bool, pre: RunState, post: RunState, out: Option<Value>) -> bool
    decreases n, 0nat,
{
    let id = identifier_of(n.children@[0].token)->0;
    n.children@.len() >= 2 && exists|mid: RunState, o: Option<Value>|
        {
            &&& #[trigger] between(mid, o)
            &&& evaluation(&n.children@[1], pre, mid, o)
            &&& o is None ==> out is None && post == mid
            &&& o is Some ==> {
                &&& out is Some == (if is_const {
                    can_declare_const(&mid.scopes@.last(), id)
                } else {
                    can_assign(&mid.scopes@.last(), &mid.store, id)
                })
                &&& bound_outcome(mid, post, id, o->0, is_const, out is Some)
            }
        }
}

/// An `if` form run from item `i` in `mode` (0 after a skipped body, 1
/// expecting a condition, 2 expecting the body to run, 3 expecting a body
/// to skip), starting in `pre`: conditions are evaluated in turn, the body
/// after the first true one is evaluated and yields the result; a failing
/// or non-boolean condition fails the form; Null when no body runs.
pub open spec fn if_run(n: &Node, i: int, mode: int, pre: RunState, post: RunState, out: Option<Value>) -> bool
    decreases n, 0nat, n.children@.len() - i,
{
    if i < 0 || i >= n.children@.len() {
        post == pre && out == Some(Value::Null)
    } else if mode == 0 {
        if if_keyword(node_view(&n.children@[i])) == 0 {
            evaluation(&n.children@[i], pre, post, out)
        } else {
            if_run(n, i + 1, if_keyword(node_view(&n.children@[i])), pre, post, out)
        }
    } else if mode == 1 {
        exists|mid: RunState, o: Option<Value>|
            {
                &&& #[trigger] between(mid, o)
                &&& evaluation(&n.children@[i], pre, mid, o)
                &&& o is None ==> out is None && post == mid
                &&& o == Some(Value::Boolean(true)) ==> if_run(n, i + 1, 2, mid, post, out)
                &&& o == Some(Value::Boolean(false)) ==> if_run(n, i + 1, 3, mid, post, out)
                &&& (o is Some && !(o->0 is Boolean)) ==> out is None && post == mid
            }
    } else if mode == 3 {
        if_run(n, i + 1, 0, pre, post, out)
    } else {
        evaluation(&n.children@[i], pre, post, out)
    }
}

/// What `if` on its call form yields (`None` for an error) and leaves behind.
pub open spec fn if_form_outcome(n: &Node, pre: RunState, post: RunState, out: Option<Value>) -> bool
    decreases n, 1nat,
{
    &&& (n.children@.len() < 2 ==> out is None && post == pre)
    &&& (n.children@.len() >= 2 ==> if_run(n, 0, 1, pre, post, out))
    &&& (n.children@.len() >= 2 ==> match if_outcome(node_view(n).children, &pre, 0, 1) {
                Some(Some(v)) => out is Some && out->0@ == v && post == pre,
                Some(None) => out is None,
                None => true,
            })
}

/// The body of a `times` form (its second child) run `k` times from
/// `pre`, each run in the environment the one before left: `out` is
/// `Some(Null)` if every run succeeded, `None` once one failed, after
/// which no run follows.
pub open spec fn repeat_body(n: &Node, k: int, pre: RunState, post: RunState, out: Option<Value>) -> bool
    decreases n, 0nat, if k > 0 { k } else { 0 },
{
    if k <= 0 || n.children@.len() != 2 {
        post == pre && out == Some(Value::Null)
    } else {
        exists|mid: RunState, o: Option<Value>|
            {
                &&& #[trigger] between(mid, o)
                &&& repeat_body(n, k - 1, pre, mid, o)
                &&& o is None ==> out is None && post == mid
                &&& o is Some ==> exists|o2: Option<Value>|
                    #[trigger] between(post, o2) && evaluation(&n.children@[1], mid, post, o2) && out == (
                    if o2 is None {
                        None::<Value>
                    } else {
                        Some(Value::Null)
                    })
            }
    }
}

/// A `times` form with any count tree: the count is evaluated; an integer
/// count runs the body that many times; anything else fails.
pub open spec fn times_run(n: &Node, pre: RunState, post: RunState, out: Option<Value>) -> bool
    decreases n, 1nat, 0nat,
{
    n.children@.len() == 2 && exists|mid: RunState, o: Option<Value>|
        {
            &&& #[trigger] between(mid, o)
            &&& evaluation(&n.children@[0], pre, mid, o)
            &&& o is None ==> out is None && post == mid
            &&& (o is Some && !(o->0 is Integer)) ==> out is None && post == mid
            &&& (o is Some && o->0 is Integer) ==> repeat_body(n, o->0->Integer_0 as int, mid, post, out)
        }
}

proof fn lemma_repeat_failure_stays(n: &Node, j: int, k: int, pre: RunState, post: RunState)
    requires
        1 <= j <= k,
        n.children@.len() == 2,
        repeat_body(n, j, pre, post, None),
    ensures
        repeat_body(n, k, pre, post, None),
    decreases k - j,
{
    if j < k {
        assert(between(post, None));
        assert(repeat_body(n, j + 1, pre, post, None));
        lemma_repeat_failure_stays(n, j + 1, k, pre, post);
    }
}

/// What `times` on its call form yields (`None` for an error) and leaves behind.
pub open spec fn times_outcome(n: &Node, pre: RunState, post: RunState, out: Option<Value>) -> bool
    decreases n, 1nat, 1nat,
{
    &&& (n.children@.len() != 2 ==> out is None && post == pre)
    &&& (n.children@.len() == 2 ==> times_run(n, pre, post, out))
    &&& (out is Some ==> out->0 == Value::Null)
    &&& (n.children@.len() == 2 ==> match pure_value(node_view(&n.children@[0]), &pre) {
                Some(ValueView::Integer(c)) => c <= 0 ==> out is Some && post == pre,
                Some(_) => out is None && post == pre,
                None => true,
            })
}

/// What `def-struct` on its call form yields (`None` for an error) and leaves behind.
pub open spec fn def_struct_outcome(n: &Node, pre: RunState, post: RunState, out: Option<Value>) -> bool {
    &&& (n.children@.len() == 0 ==> out is None && post == pre)
    &&& (out is Some ==> out->0 == Value::Null)
    &&& (out is Some == (n.children@.len() >= 1 && all_identifiers(n) && distinct(
                declared_members(n),
            )))
    &&& (out is Some ==> post.scopes@.last().template(
                identifier_of(n.children@[0].token)->0,
            ) == Some(declared_members(n)))
    &&& (out is None ==> post == pre)
    &&& (out is Some ==> {
        &&& post.store == pre.store
        &&& post.output == pre.output
        &&& post.scopes@.len() == pre.scopes@.len()
        &&& post.template(identifier_of(n.children@[0].token)->0) == Some(declared_members(n))
        &&& forall|x: Seq<char>| #[trigger] post.value(x) == pre.value(x)
        &&& forall|x: Seq<char>|
            x != identifier_of(n.children@[0].token)->0 ==> #[trigger] post.template(x) == pre.template(x)
    })
}

/// What `get-member` on its call form yields (`None` for an error) and leaves behind.
pub open spec fn get_member_outcome(n: &Node, pre: RunState, post: RunState, out: Option<Value>) -> bool {
    &&& (post == pre)
    &&& (n.children@.len() != 2 ==> out is None)
    &&& (n.children@.len() == 2 ==> match (
                identifier_of(n.children@[0].token),
                identifier_of(n.children@[1].token),
            ) {
                (Some(s), Some(m)) => match pre.value(s) {
                    Some(Value::Structure(instance)) => instance.wf() && instance.lives_in(
                        &pre.store,
                    ) ==> match instance.member(m) {
                        Some(v) => out is Some && out->0@ == pre.store.value_of(v)@,
                        None => out is None,
                    },
                    _ => out is None,
                },
                _ => out is None,
            })
}

/// Writing `v` to member `m` of the record bound to `s`, from `mid`.
pub open spec fn member_write(s: Seq<char>, m: Seq<char>, mid: RunState, post: RunState, v: Value, out: Option<Value>) -> bool {
    match mid.value(s) {
        Some(Value::Structure(instance)) => if instance.wf() && instance.lives_in(&mid.store) {
            match instance.member(m) {
                Some(c) => if mid.store.const_of(c) {
                    out is None && post == mid
                } else {
                    &&& out == Some(Value::Null)
                    &&& post.scopes == mid.scopes
                    &&& post.output == mid.output
                    &&& VariableStore::wrote(&mid.store, &post.store, c, v)
                },
                None => out is None && post == mid,
            }
        } else {
            out is None && post == mid
        },
        _ => out is None && post == mid,
    }
}

/// A `set-member` form with any value tree: the value is evaluated, then
/// written to the member.
pub open spec fn set_member_run(n: &Node, pre: RunState, post: RunState, out: Option<Value>) -> bool
    decreases n, 0nat,
{
    n.children@.len() == 3 && match (identifier_of(n.children@[0].token), identifier_of(n.children@[1].token)) {
        (Some(s), Some(m)) => exists|mid: RunState, o: Option<Value>|
            {
                &&& #[trigger] between(mid, o)
                &&& evaluation(&n.children@[2], pre, mid, o)
                &&& o is None ==> out is None && post == mid
                &&& o is Some ==> member_write(s, m, mid, post, o->0, out)
            },
        _ => out is None && post == pre,
    }
}

/// What `set-member` on its call form yields (`None` for an error) and leaves behind.
pub open spec fn set_member_outcome(n: &Node, pre: RunState, post: RunState, out: Option<Value>) -> bool
    decreases n, 1nat,
{
    &&& (n.children@.len() == 3 ==> set_member_run(n, pre, post, out))
    &&& (n.children@.len() != 3 ==> out is None && post == pre)
    &&& (out is Some ==> out->0 == Value::Null)
    &&& (n.children@.len() == 3 && pure_value(node_view(&n.children@[2]), &pre) is Some
                ==> match (
                identifier_of(n.children@[0].token),
                identifier_of(n.children@[1].token),
            ) {
                (Some(s), Some(m)) => match pre.value(s) {
                    Some(Value::Structure(instance)) => instance.wf() && instance.lives_in(
                        &pre.store,
                    ) ==> match instance.member(m) {
                        Some(v) => if pre.store.const_of(v) {
                            out is None
                        } else {
                            out is Some && post.store.value_of(v)@ == pure_value(
                                node_view(&n.children@[2]),
                                &pre,
                            )->0 && forall|c: int|
                                0 <= c < pre.store.cells@.len() && c != v.index ==> #[trigger] post.store.cells@[c]
                                    == pre.store.cells@[c]
                        },
                        None => out is None,
                    },
                    _ => out is None,
                },
                _ => out is None,
            })
    &&& (n.children@.len() == 3 && pure_value(node_view(&n.children@[2]), &pre) is Some ==> {
        &&& post.scopes == pre.scopes
        &&& post.output == pre.output
        &&& post.store.cells@.len() == pre.store.cells@.len()
        &&& out is None ==> post == pre
    })
}

/// What the built-in macro `m` yields and leaves behind on the call form
/// `n`; nothing is said of a host macro.
pub open spec fn macro_outcome(m: NativeMacro, n: &Node, pre: RunState, post: RunState, out: Option<Value>) -> bool
    decreases n, 2nat,
{
    match m {
        NativeMacro::Const => assign_outcome(n, true, pre, post, out),
        NativeMacro::Assign => assign_outcome(n, false, pre, post, out),
        NativeMacro::If => if_form_outcome(n, pre, post, out),
        NativeMacro::Times => times_outcome(n, pre, post, out),
        NativeMacro::DefStruct => def_struct_outcome(n, pre, post, out),
        NativeMacro::GetMember => get_member_outcome(n, pre, post, out),
        NativeMacro::SetMember => set_member_outcome(n, pre, post, out),
        NativeMacro::Host(_) => true,
    }
}

impl Node {
    pub fn new(token: Option<Token>) -> (r: Self)
        ensures
            r.token == token,
            r.children@.len() == 0,
    {
        Node { token, children: Vec::new() }
    }

    pub fn add_child(&mut self, child: Node)
        ensures
            final(self).token == old(self).token,
            final(self).children@ == old(self).children@.push(child),
            node_view(final(self)) == (NodeView {
                token: node_view(old(self)).token,
                children: node_view(old(self)).children.push(node_view(&child)),
            }),
    {
        let ghost before = self.children;
        self.children.push(child);
        proof {
            lemma_node_views_prefix(&before, &self.children, before@.len() as int);
            assert(node_view(self).children =~= node_view(old(self)).children.push(node_view(&child)));
        }
    }

    pub fn get_token(&self) -> (r: &Option<Token>)
        ensures
            r == self.token,
    {
        &self.token
    }

    pub fn get_children(&self) -> (r: &Vec<Node>)
        ensures
            r == self.children,
    {
        &self.children
    }

    /// Evaluates the tree against the environment.
    ///
    /// A node without token or children is Null. A node without a token
    /// evaluates its children left to right and yields the last value. A
    /// leaf literal is itself. A leaf identifier is, in this order: a new
    /// instance of the record template of that name; the call of the
    /// function or macro bound to it, with no arguments; the value bound to
    /// it; `true` or `false`. A call form calls the function (on its
    /// evaluated children) or the macro (on the node itself) that its head
    /// names, or builds a record instance.
    pub fn evaluate<F: Host>(&self, run_state: &mut RunState, floats: &F) -> (r: Result<Value, Error>)
        requires
            old(run_state).wf(),
        ensures
            final(run_state).wf(),
            evaluation(self, *old(run_state), *final(run_state), ok_part(r)),
            r is Err ==> r->Err_0.token is Some,
        decreases self, 5nat,
    {
        proof {
            lemma_node_views_index(&self.children, self.children@.len() as int);
        }
        match &self.token {
            Some(token) => {
                if self.children.len() > 0 {
                    self.evaluate_token_with_children(run_state, token, floats)
                } else {
                    self.evaluate_leaf_node(run_state, token, floats)
                }
            },
            None => {
                if self.children.len() == 0 {
                    Ok(Value::Null)
                } else if self.children.len() == 1 {
                    proof {
                        vstd::std_specs::vec::axiom_vec_index_decreases(self.children, 0);
                        let cv = node_view(self).children;
                        if pure_values(cv, old(run_state), 1) is Some {
                            assert(pure_values(cv, old(run_state), 0) == Some(Seq::<ValueView>::empty()));
                        }
                    }
                    self.children[0].evaluate(run_state, floats)
                } else {
                    let ghost cv = node_view(self).children;
                    let ghost n = self.children@.len() as int;
                    let mut last_value = Value::Null;
                    let mut i: usize = 0;
                    while i < self.children.len()
                        invariant
                            run_state.wf(),
                            self.token is None,
                            self.children@.len() > 1,
                            i <= self.children@.len(),
                            n == self.children@.len(),
                            cv == node_view(self).children,
                            cv.len() == n,
                            forall|k: int| 0 <= k < n ==> #[trigger] cv[k] == node_view(&self.children@[k]),
                            pure_values(cv, old(run_state), n) is Some ==> *run_state == *old(run_state)
                                && (i > 0 ==> last_value@ == pure_values(cv, old(run_state), i as int)->0.last()),
                            i == 0 ==> *run_state == *old(run_state),
                            i >= 1 ==> group_evaluation(&self.children, i as int, *old(run_state), *run_state, Some(last_value)),
                        decreases self.children@.len() - i,
                    {
                        let ghost mid = *run_state;
                        let ghost prev = last_value;
                        proof {
                            vstd::std_specs::vec::axiom_vec_index_decreases(self.children, i as int);
                            if pure_values(cv, old(run_state), n) is Some {
                                lemma_pure_values_prefix(cv, old(run_state), i + 1, n);
                            }
                        }
                        match self.children[i].evaluate(run_state, floats) {
                            Ok(value) => {
                                proof {
                                    if i >= 1 {
                                        lemma_group_step(&self.children, i as int + 1, *old(run_state), mid, Some(prev), *run_state, Some(value));
                                    }
                                }
                                last_value = value;
                            },
                            Err(error) => {
                                proof {
                                    if i >= 1 {
                                        lemma_group_step(&self.children, i as int + 1, *old(run_state), mid, Some(prev), *run_state, None);
                                    }
                                    lemma_group_failure_stays(&self.children, i as int + 1, n, *old(run_state), *run_state);
                                }
                                return Err(error);
                            },
                        }
                        i += 1;
                    }
                    Ok(last_value)
                }
            },
        }
    }

    /// A fresh instance of the template: one new, writable, Null cell per
    /// member.
    fn instantiate(run_state: &mut RunState, template: &StructureTemplate) -> (r: Value)
        requires
            old(run_state).wf(),
        ensures
            final(run_state).wf(),
            fresh_instance(*old(run_state), *final(run_state), r, template@),
    {
        let ghost old_store = run_state.store;
        let instance = StructureInstance::from_template(template, &mut run_state.store);
        proof {
            assert forall|i: int| 0 <= i < run_state.scopes@.len() implies (#[trigger] run_state.scopes@[i]).lives_in(&run_state.store) by {
                assert(old(run_state).scopes@[i].lives_in(&old_store));
                crate::run_state::lemma_scope_lives_on(&run_state.scopes@[i], &old_store, &run_state.store);
            }
        }
        Value::Structure(instance)
    }

    pub fn evaluate_leaf_node<F: Host>(&self, run_state: &mut RunState, token: &Token, floats: &F) -> (r: Result<Value, Error>)
        requires
            old(run_state).wf(),
            self.token == Some(*token),
            self.children@.len() == 0,
        ensures
            final(run_state).wf(),
            match token.token_type {
                TokenType::Integer(i) => r is Ok && r->Ok_0 == Value::Integer(i) && *final(run_state)
                    == *old(run_state),
                TokenType::String(s) => r is Ok && r->Ok_0@ == ValueView::String(s@)
                    && *final(run_state) == *old(run_state),
                TokenType::Float(_) => r is Ok ==> r->Ok_0 is Float,
                TokenType::Identifier(id) => match old(run_state).template(id@) {
                    Some(t) => r is Ok && fresh_instance(*old(run_state), *final(run_state), r->Ok_0, t),
                    None => match old(run_state).value(id@) {
                        Some(v) => !v.is_callable() ==> r is Ok && r->Ok_0@ == v@ && *final(run_state) == *old(run_state),
                        None => if id@ == word_true() {
                            r is Ok && r->Ok_0 == Value::Boolean(true) && *final(run_state)
                                == *old(run_state)
                        } else if id@ == word_false() {
                            r is Ok && r->Ok_0 == Value::Boolean(false) && *final(run_state)
                                == *old(run_state)
                        } else {
                            r is Err && *final(run_state) == *old(run_state)
                        },
                    },
                },
                _ => r is Err,
            },
            pure_value(node_view(self), old(run_state)) is Some ==> r is Ok && r->Ok_0@ == pure_value(
                node_view(self),
                old(run_state),
            )->0 && *final(run_state) == *old(run_state),
            match identifier_of(self.token) {
                Some(id) => old(run_state).template(id) is None ==> match old(run_state).value(id) {
                    Some(Value::NativeMacro(m)) => macro_outcome(m, self, *old(run_state), *final(run_state), ok_part(r)),
                    _ => true,
                },
                None => true,
            },
            r is Err ==> r->Err_0.token is Some,
            function_clause(self, *old(run_state), *final(run_state), ok_part(r)),
        decreases self, 4nat,
    {
        proof {
            lemma_node_views_index(&self.children, self.children@.len() as int);
        }
        match &token.token_type {
            TokenType::Identifier(identifier) => self.evaluate_leaf_identifer(run_state, token, identifier, floats),
            TokenType::Integer(integer) => Ok(Value::Integer(*integer)),
            TokenType::Float(text) => match floats.parse(text) {
                Some(f) => Ok(Value::Float(f)),
                None => Err(error_at("invalid float literal", &self.token)),
            },
            TokenType::String(string) => Ok(Value::String(string.clone())),
            TokenType::LBracket | TokenType::RBracket => Err(error_at("unexpected bracket token", &self.token)),
        }
    }

    pub fn evaluate_leaf_identifer<F: Host>(&self, run_state: &mut RunState, token: &Token, identifier: &String, floats: &F) -> (r: Result<Value, Error>)
        requires
            old(run_state).wf(),
            self.token == Some(*token),
            token.token_type == TokenType::Identifier(*identifier),
            self.children@.len() == 0,
        ensures
            final(run_state).wf(),
            match old(run_state).template(identifier@) {
                Some(t) => r is Ok && fresh_instance(*old(run_state), *final(run_state), r->Ok_0, t),
                None => match old(run_state).value(identifier@) {
                    Some(v) => !v.is_callable() ==> r is Ok && r->Ok_0@ == v@ && *final(run_state)
                        == *old(run_state),
                    None => if identifier@ == word_true() {
                        r is Ok && r->Ok_0 == Value::Boolean(true) && *final(run_state)
                            == *old(run_state)
                    } else if identifier@ == word_false() {
                        r is Ok && r->Ok_0 == Value::Boolean(false) && *final(run_state)
                            == *old(run_state)
                    } else {
                        r is Err && *final(run_state) == *old(run_state)
                    },
                },
            },
            pure_value(node_view(self), old(run_state)) is Some ==> r is Ok && r->Ok_0@ == pure_value(
                node_view(self),
                old(run_state),
            )->0 && *final(run_state) == *old(run_state),
            match identifier_of(self.token) {
                Some(id) => old(run_state).template(id) is None ==> match old(run_state).value(id) {
                    Some(Value::NativeMacro(m)) => macro_outcome(m, self, *old(run_state), *final(run_state), ok_part(r)),
                    _ => true,
                },
                None => true,
            },
            r is Err ==> r->Err_0.token is Some,
            function_clause(self, *old(run_state), *final(run_state), ok_part(r)),
        decreases self, 3nat,
    {
        proof {
            lemma_node_views_index(&self.children, self.children@.len() as int);
        }
        if let Some(template) = run_state.find_structure_template(identifier) {
            return Ok(Self::instantiate(run_state, &template));
        }
        match run_state.find_local(identifier) {
            Some(Value::NativeFunction(function)) => self.evaluate_native_function(run_state, function, token, floats),
            Some(Value::NativeMacro(native_macro)) => with_call_token(self.call_macro(run_state, native_macro, floats), token),
            Some(value) => Ok(value),
            None => {
                if is_true_word(identifier) {
                    Ok(Value::Boolean(true))
                } else if is_false_word(identifier) {
                    Ok(Value::Boolean(false))
                } else {
                    let mut message = String::from_str("could not find identifier: \"");
                    push_string(&mut message, identifier);
                    push_str(&mut message, "\"");
                    Err(error_at(message.as_str(), &self.token))
                }
            },
        }
    }

    pub fn evaluate_token_with_children<F: Host>(&self, run_state: &mut RunState, token: &Token, floats: &F) -> (r: Result<Value, Error>)
        requires
            old(run_state).wf(),
            self.token == Some(*token),
            self.children@.len() > 0,
        ensures
            final(run_state).wf(),
            match identifier_of(self.token) {
                Some(id) => match old(run_state).template(id) {
                    Some(t) => r is Ok && fresh_instance(*old(run_state), *final(run_state), r->Ok_0, t),
                    None => match old(run_state).value(id) {
                        Some(v) => !v.is_callable() ==> r is Err && *final(run_state) == *old(run_state),
                        None => r is Err && *final(run_state) == *old(run_state),
                    },
                },
                None => r is Err && *final(run_state) == *old(run_state),
            },
            pure_value(node_view(self), old(run_state)) is Some ==> r is Ok && r->Ok_0@ == pure_value(
                node_view(self),
                old(run_state),
            )->0 && *final(run_state) == *old(run_state),
            match identifier_of(self.token) {
                Some(id) => old(run_state).template(id) is None ==> match old(run_state).value(id) {
                    Some(Value::NativeMacro(m)) => macro_outcome(m, self, *old(run_state), *final(run_state), ok_part(r)),
                    _ => true,
                },
                None => true,
            },
            r is Err ==> r->Err_0.token is Some,
            function_clause(self, *old(run_state), *final(run_state), ok_part(r)),
        decreases self, 4nat,
    {
        proof {
            lemma_node_views_index(&self.children, self.children@.len() as int);
        }
        match &token.token_type {
            TokenType::Identifier(identifier) => self.evaluate_branch_identifier(run_state, token, identifier, floats),
            _ => Err(error_at("must be a function or macro", &self.token)),
        }
    }

    /// A call form whose head is an identifier: a record template of that
    /// name builds an instance; a function is called on the evaluated
    /// children; a macro is handed the node.
    pub fn evaluate_branch_identifier<F: Host>(&self, run_state: &mut RunState, token: &Token, identifier: &String, floats: &F) -> (r: Result<Value, Error>)
        requires
            old(run_state).wf(),
            self.token == Some(*token),
            token.token_type == TokenType::Identifier(*identifier),
            self.children@.len() > 0,
        ensures
            final(run_state).wf(),
            match old(run_state).template(identifier@) {
                Some(t) => r is Ok && fresh_instance(*old(run_state), *final(run_state), r->Ok_0, t),
                None => match old(run_state).value(identifier@) {
                    Some(v) => !v.is_callable() ==> r is Err && *final(run_state) == *old(run_state),
                    None => r is Err && *final(run_state) == *old(run_state),
                },
            },
            pure_value(node_view(self), old(run_state)) is Some ==> r is Ok && r->Ok_0@ == pure_value(
                node_view(self),
                old(run_state),
            )->0 && *final(run_state) == *old(run_state),
            match identifier_of(self.token) {
                Some(id) => old(run_state).template(id) is None ==> match old(run_state).value(id) {
                    Some(Value::NativeMacro(m)) => macro_outcome(m, self, *old(run_state), *final(run_state), ok_part(r)),
                    _ => true,
                },
                None => true,
            },
            r is Err ==> r->Err_0.token is Some,
            function_clause(self, *old(run_state), *final(run_state), ok_part(r)),
        decreases self, 3nat,
    {
        proof {
            lemma_node_views_index(&self.children, self.children@.len() as int);
        }
        if let Some(template) = run_state.find_structure_template(identifier) {
            return Ok(Self::instantiate(run_state, &template));
        }
        match run_state.find_local(identifier) {
            Some(Value::NativeFunction(function)) => self.evaluate_native_function(run_state, function, token, floats),
            Some(Value::NativeMacro(native_macro)) => with_call_token(self.call_macro(run_state, native_macro, floats), token),
            Some(_) => Err(error_at("must be a function or macro", &self.token)),
            None => {
                let mut message = String::from_str("could not find identifier: \"");
                push_string(&mut message, identifier);
                push_str(&mut message, "\"");
                Err(error_at(message.as_str(), &self.token))
            },
        }
    }

    /// Evaluates the children left to right, then calls the function on
    /// their values; an error from the function is given the call's token
    /// unless it already has one.
    pub fn evaluate_native_function<F: Host>(&self, run_state: &mut RunState, function: NativeFunction, token: &Token, floats: &F) -> (r: Result<Value, Error>)
        requires
            old(run_state).wf(),
        ensures
            final(run_state).wf(),
            pure_values(node_view(self).children, old(run_state), self.children@.len() as int) is Some
                && pure_call(
                function,
                pure_values(node_view(self).children, old(run_state), self.children@.len() as int)->0,
            ) is Some ==> r is Ok && r->Ok_0@ == pure_call(
                function,
                pure_values(node_view(self).children, old(run_state), self.children@.len() as int)->0,
            )->0 && *final(run_state) == *old(run_state),
            r is Err ==> r->Err_0.token is Some,
            native_call(self, function, *old(run_state), *final(run_state), ok_part(r)),
        decreases self, 2nat,
    {
        let ghost cv = node_view(self).children;
        let ghost n = self.children@.len() as int;
        proof {
            lemma_node_views_index(&self.children, n);
        }
        let mut args: Vec<Value> = Vec::new();
        let mut i: usize = 0;
        while i < self.children.len()
            invariant
                run_state.wf(),
                i <= self.children@.len(),
                n == self.children@.len(),
                cv == node_view(self).children,
                cv.len() == n,
                forall|k: int| 0 <= k < n ==> #[trigger] cv[k] == node_view(&self.children@[k]),
                pure_values(cv, old(run_state), n) is Some ==> *run_state == *old(run_state)
                    && views_of(args@) == pure_values(cv, old(run_state), i as int)->0,
                args_done(&self.children, i as int, *old(run_state), *run_state, Some(args@)),
            decreases self.children@.len() - i,
        {
            proof {
                vstd::std_specs::vec::axiom_vec_index_decreases(self.children, i as int);
                if pure_values(cv, old(run_state), n) is Some {
                    lemma_pure_values_prefix(cv, old(run_state), i + 1, n);
                    lemma_pure_values_prefix(cv, old(run_state), i as int, n);
                }
            }
            let ghost before = args@;
            let ghost s_i = *run_state;
            let c = self.children[i].evaluate(run_state, floats);
            proof {
                assert(between_args(s_i, Some(before)));
                assert(between(*run_state, ok_part(c)));
                assert(args_done(&self.children, i + 1, *old(run_state), *run_state, match c {
                    Ok(v) => Some(before.push(v)),
                    Err(_) => None,
                }));
                if c is Err {
                    lemma_args_failure_stays(&self.children, i + 1, n, *old(run_state), *run_state);
                    assert(between_args(*run_state, None));
                }
            }
            match c {
                Ok(value) => {
                    args.push(value);
                    proof {
                        if pure_values(cv, old(run_state), n) is Some {
                            assert(views_of(args@) =~= views_of(before).push(value@));
                        }
                    }
                },
                Err(error) => {
                    return Err(error);
                },
            }
            i += 1;
        }
        proof {
            if pure_values(cv, old(run_state), n) is Some {
                lemma_pure_values_len(cv, old(run_state), n);
                let vs = pure_values(cv, old(run_state), n)->0;
                crate::value::lemma_views_upto_len(&args, args@.len() as int);
                assert(crate::value::views_upto(&args, args@.len() as int) =~= vs);
                assert forall|k: int| 0 <= k < vs.len() implies vs[k] == (#[trigger] args@[k])@ by {
                    assert(views_of(args@)[k] == args@[k]@);
                }
                assert((forall|k: int| 0 <= k < vs.len() ==> plain(#[trigger] vs[k])) == all_plain(args@));
            }
        }
        let ghost mid = *run_state;
        let ghost vals = args@;
        proof {
            assert(between_args(mid, Some(vals)));
        }
        with_call_token(call_function(function, args, run_state, floats), token)
    }

    fn call_macro<F: Host>(&self, run_state: &mut RunState, native_macro: NativeMacro, floats: &F) -> (r: Result<Value, Error>)
        requires
            old(run_state).wf(),
        ensures
            final(run_state).wf(),
            macro_outcome(native_macro, self, *old(run_state), *final(run_state), ok_part(r)),
        decreases self, 2nat,
    {
        match native_macro {
            NativeMacro::Const => self.macro_assign(run_state, true, floats),
            NativeMacro::Assign => self.macro_assign(run_state, false, floats),
            NativeMacro::If => self.macro_if(run_state, floats),
            NativeMacro::Times => self.macro_times(run_state, floats),
            NativeMacro::DefStruct => self.macro_def_struct(run_state),
            NativeMacro::GetMember => self.macro_get_member(run_state),
            NativeMacro::SetMember => self.macro_set_member(run_state, floats),
            NativeMacro::Host(id) => {
                let r = floats.call_macro(id, run_state, self);
                if run_state.check_wf() {
                    r
                } else {
                    // the host broke the environment's invariant: start afresh
                    *run_state = RunState::new_empty();
                    Err(Error::new(String::from_str("host macro left the environment inconsistent"), None))
                }
            },
        }
    }

    /// `(set id value id value ...)` and `(const ...)`: binds each pair in
    /// the innermost scope, left to right, evaluating each value just
    /// before its binding; yields Null.
    fn macro_assign<F: Host>(&self, run_state: &mut RunState, is_const: bool, floats: &F) -> (r: Result<Value, Error>)
        requires
            old(run_state).wf(),
        ensures
            final(run_state).wf(),
            assign_outcome(self, is_const, *old(run_state), *final(run_state), ok_part(r)),
        decreases self, 1nat,
    {
        let ghost single = single_binding(self, old(run_state));
        let ghost id = identifier_of(self.children@[0].token)->0;
        let ghost v = pure_value(node_view(&self.children@[1]), old(run_state))->0;
        let ghost allowed = if is_const {
            can_declare_const(&old(run_state).scopes@.last(), id)
        } else {
            can_assign(&old(run_state).scopes@.last(), &old(run_state).store, id)
        };
        let ghost pair = self.children@.len() == 2 && identifier_of(self.children@[0].token) is Some;
        let ghost mut w_mid: RunState = *old(run_state);
        let ghost mut w_o: Option<Value> = None;
        let args = &self.children;
        if args.len() < 2 {
            return Err(Error::new(String::from_str("requires at least two arguments"), None));
        }
        let mut i: usize = 0;
        while i < args.len()
            invariant
                run_state.wf(),
                args == self.children,
                args@.len() >= 2,
                i % 2 == 0,
                i <= args@.len(),
                single == single_binding(self, old(run_state)),
                single ==> args@.len() == 2 && id == identifier_of(self.children@[0].token)->0
                    && v == pure_value(node_view(&self.children@[1]), old(run_state))->0,
                single ==> allowed == (if is_const {
                    can_declare_const(&old(run_state).scopes@.last(), id)
                } else {
                    can_assign(&old(run_state).scopes@.last(), &old(run_state).store, id)
                }),
                single && i == 0 ==> *run_state == *old(run_state),
                single && i == 2 ==> allowed && run_state.scopes@.last().local(id) is Some
                    && run_state.store.value_of(run_state.scopes@.last().local(id)->0)@ == v,
                pair == (self.children@.len() == 2 && identifier_of(self.children@[0].token) is Some),
                i == 0 ==> *run_state == *old(run_state),
                pairs_done(self, is_const, i as int, *old(run_state), *run_state, Some(Value::Null)),
                pair ==> id == identifier_of(self.children@[0].token)->0,
                pair && i == 0 ==> *run_state == *old(run_state),
                pair && i == 2 ==> {
                    &&& evaluation(&self.children@[1], *old(run_state), w_mid, w_o)
                    &&& w_o is Some
                    &&& (if is_const {
                        can_declare_const(&w_mid.scopes@.last(), id)
                    } else {
                        can_assign(&w_mid.scopes@.last(), &w_mid.store, id)
                    })
                    &&& bound_outcome(w_mid, *run_state, id, w_o->0, is_const, true)
                },
            decreases args@.len() - i,
        {
            let ghost s_i = *run_state;
            let identifier = match get_identifier(&args[i]) {
                Ok(identifier) => identifier,
                Err(error) => {
                    proof {
                        if i + 2 <= args@.len() {
                            lemma_pair_step(self, is_const, i + 2, *old(run_state), s_i, s_i, None, s_i, None);
                            lemma_pairs_failure_ends(self, is_const, i + 2, *old(run_state), s_i);
                        } else {
                            assert(between(s_i, Some(Value::Null)));
                        }
                    }
                    return Err(error);
                },
            };
            if i + 1 >= args.len() {
                proof {
                    assert(between(s_i, Some(Value::Null)));
                }
                let mut message = String::from_str("identifier: \"");
                push_string(&mut message, identifier);
                push_str(&mut message, "\" requires corresponding value");
                return Err(error_at(message.as_str(), &self.token));
            }
            proof {
                vstd::std_specs::vec::axiom_vec_index_decreases(self.children, i + 1);
            }
            let value = match args[i + 1].evaluate(run_state, floats) {
                Ok(value) => value,
                Err(error) => {
                    proof {
                        if pair {
                            assert(between(*run_state, None));
                        }
                        lemma_pair_step(self, is_const, i + 2, *old(run_state), s_i, *run_state, None, *run_state, None);
                        lemma_pairs_failure_ends(self, is_const, i + 2, *old(run_state), *run_state);
                    }
                    return Err(error);
                },
            };
            let ghost mid2 = *run_state;
            proof {
                w_mid = *run_state;
                w_o = Some(value);
            }
            let ghost value_view_keep = value;
            let result = if is_const {
                run_state.set_const(identifier, value)
            } else {
                run_state.set_local(identifier, value)
            };
            if let Err(mut error) = result {
                if let Some(token) = &self.token {
                    error.set_token(token.clone());
                }
                proof {
                    if pair {
                        assert(between(w_mid, w_o));
                    }
                    lemma_pair_step(self, is_const, i + 2, *old(run_state), s_i, mid2, Some(value_view_keep), *run_state, None);
                    lemma_pairs_failure_ends(self, is_const, i + 2, *old(run_state), *run_state);
                }
                return Err(error);
            }
            proof {
                lemma_pair_step(self, is_const, i + 2, *old(run_state), s_i, mid2, Some(value_view_keep), *run_state, Some(Value::Null));
            }
            i += 2;
        }
        proof {
            if pair {
                assert(between(w_mid, w_o));
            }
        }
        Ok(Value::Null)
    }

    /// `(if c1 b1 elif c2 b2 ... else b)`: evaluates the conditions in turn
    /// and the body after the first true one; a body after a false
    /// condition is skipped; `elif` (or `elseif`) brings another condition,
    /// `else` the last body; anything else met after a skipped body is
    /// evaluated and yielded. Null when no body runs.
    fn macro_if<F: Host>(&self, run_state: &mut RunState, floats: &F) -> (r: Result<Value, Error>)
        requires
            old(run_state).wf(),
        ensures
            final(run_state).wf(),
            if_form_outcome(self, *old(run_state), *final(run_state), ok_part(r)),
        decreases self, 1nat,
    {
        let ghost cv = node_view(self).children;
        let ghost goal = if_outcome(cv, old(run_state), 0, 1);
        proof {
            lemma_node_views_index(&self.children, self.children@.len() as int);
        }
        let args = &self.children;
        if args.len() < 2 {
            return Err(error_at("requires at least two arguments", &self.token));
        }
        // 0: after a skipped body, 1: condition, 2: body, 3: skip
        let mut mode: u8 = 1;
        let mut i: usize = 0;
        while i < args.len()
            invariant
                run_state.wf(),
                args == self.children,
                args@.len() >= 2,
                i <= args@.len(),
                mode <= 3,
                cv == node_view(self).children,
                cv.len() == args@.len(),
                forall|k: int| 0 <= k < cv.len() ==> #[trigger] cv[k] == node_view(&self.children@[k]),
                goal == if_outcome(cv, old(run_state), 0, 1),
                goal is Some ==> *run_state == *old(run_state) && if_outcome(cv, old(run_state), i as int, mode as int) == goal,
                forall|p: RunState, o: Option<Value>|
                    #[trigger] if_run(self, i as int, mode as int, *run_state, p, o) ==> if_run(self, 0, 1, *old(run_state), p, o),
            decreases args@.len() - i,
        {
            let ghost s_i = *run_state;
            let ghost m_i = mode as int;
            proof {
                vstd::std_specs::vec::axiom_vec_index_decreases(self.children, i as int);
            }
            let node = &args[i];
            if mode == 0 {
                let keyword = match get_identifier(node) {
                    Ok(identifier) => {
                        if is_word_elif(identifier) {
                            1u8
                        } else if is_word_else(identifier) {
                            2u8
                        } else {
                            0u8
                        }
                    },
                    Err(_) => 0u8,
                };
                if keyword == 0 {
                    let r = node.evaluate(run_state, floats);
                    proof {
                        assert(if_run(self, i as int, 0, s_i, *run_state, ok_part(r)));
                    }
                    return r;
                }
                mode = keyword;
                proof {
                    assert forall|p: RunState, o: Option<Value>|
                        #[trigger] if_run(self, i + 1, mode as int, s_i, p, o) implies if_run(self, 0, 1, *old(run_state), p, o) by {
                        assert(if_run(self, i as int, 0, s_i, p, o));
                    }
                }
            } else if mode == 1 {
                let c = node.evaluate(run_state, floats);
                let ghost mid = *run_state;
                let ghost oc = ok_part(c);
                match c {
                    Ok(Value::Boolean(true)) => {
                        mode = 2;
                        proof {
                            assert forall|p: RunState, o: Option<Value>|
                                #[trigger] if_run(self, i + 1, 2, mid, p, o) implies if_run(self, 0, 1, *old(run_state), p, o) by {
                                assert(between(mid, oc));
                                assert(if_run(self, i as int, 1, s_i, p, o));
                            }
                        }
                    },
                    Ok(Value::Boolean(false)) => {
                        mode = 3;
                        proof {
                            assert forall|p: RunState, o: Option<Value>|
                                #[trigger] if_run(self, i + 1, 3, mid, p, o) implies if_run(self, 0, 1, *old(run_state), p, o) by {
                                assert(between(mid, oc));
                                assert(if_run(self, i as int, 1, s_i, p, o));
                            }
                        }
                    },
                    Ok(_) => {
                        proof {
                            assert(between(mid, oc));
                            assert(if_run(self, i as int, 1, s_i, mid, None));
                        }
                        return Err(error_at("condition must be a boolean", &node.token));
                    },
                    Err(error) => {
                        proof {
                            assert(between(mid, oc));
                            assert(if_run(self, i as int, 1, s_i, mid, None));
                        }
                        return Err(error);
                    },
                }
            } else if mode == 3 {
                mode = 0;
                proof {
                    assert forall|p: RunState, o: Option<Value>|
                        #[trigger] if_run(self, i + 1, 0, s_i, p, o) implies if_run(self, 0, 1, *old(run_state), p, o) by {
                        assert(if_run(self, i as int, 3, s_i, p, o));
                    }
                }
            } else {
                let r = node.evaluate(run_state, floats);
                proof {
                    assert(if_run(self, i as int, 2, s_i, *run_state, ok_part(r)));
                }
                return r;
            }
            i += 1;
        }
        proof {
            assert(if_run(self, i as int, mode as int, *run_state, *run_state, Some(Value::Null)));
        }
        Ok(Value::Null)
    }

    /// `(times n body)`: evaluates `n` (an integer) and then the body that
    /// many times; yields Null.
    fn macro_times<F: Host>(&self, run_state: &mut RunState, floats: &F) -> (r: Result<Value, Error>)
        requires
            old(run_state).wf(),
        ensures
            final(run_state).wf(),
            times_outcome(self, *old(run_state), *final(run_state), ok_part(r)),
        decreases self, 1nat,
    {
        let args = &self.children;
        if args.len() != 2 {
            return Err(error_at("takes two arguments", &self.token));
        }
        proof {
            vstd::std_specs::vec::axiom_vec_index_decreases(self.children, 0);
            vstd::std_specs::vec::axiom_vec_index_decreases(self.children, 1);
        }
        let c = args[0].evaluate(run_state, floats);
        let ghost mid = *run_state;
        let ghost oc = ok_part(c);
        let count = match c {
            Ok(Value::Integer(count)) => count,
            Ok(_) => {
                proof {
                    assert(between(mid, oc));
                }
                return Err(error_at("count must be an integer", &self.token));
            },
            Err(error) => {
                proof {
                    assert(between(mid, oc));
                }
                return Err(error);
            },
        };
        let mut k: i64 = 0;
        while k < count
            invariant
                run_state.wf(),
                args == self.children,
                args@.len() == 2,
                decreases_to!(self => self.children@[1]),
                0 <= k,
                k == 0 ==> *run_state == *old(run_state) || pure_value(node_view(&self.children@[0]), old(run_state)) is None,
                count <= 0 ==> k == 0,
                evaluation(&self.children@[0], *old(run_state), mid, oc),
                oc == Some(Value::Integer(count)),
                count > 0 ==> k <= count,
                repeat_body(self, k as int, mid, *run_state, Some(Value::Null)),
                pure_value(node_view(&self.children@[0]), old(run_state)) is Some ==> pure_value(
                    node_view(&self.children@[0]),
                    old(run_state),
                ) == Some(ValueView::Integer(count)),
            decreases count - k,
        {
            let ghost s_k = *run_state;
            let b = args[1].evaluate(run_state, floats);
            proof {
                assert(between(s_k, Some(Value::Null)));
                assert(between(*run_state, ok_part(b)));
                if b is Err {
                    assert(repeat_body(self, k + 1, mid, *run_state, None));
                    lemma_repeat_failure_stays(self, k + 1, count as int, mid, *run_state);
                    assert(between(mid, oc));
                } else {
                    assert(repeat_body(self, k + 1, mid, *run_state, Some(Value::Null)));
                }
            }
            match b {
                Ok(_) => {},
                Err(error) => {
                    return Err(error);
                },
            }
            k += 1;
        }
        proof {
            assert(between(mid, oc));
        }
        Ok(Value::Null)
    }

    /// `(def-struct name member ...)`: binds a record template with those
    /// members in the innermost scope; a repeated member is an error.
    fn macro_def_struct(&self, run_state: &mut RunState) -> (r: Result<Value, Error>)
        requires
            old(run_state).wf(),
        ensures
            final(run_state).wf(),
            def_struct_outcome(self, *old(run_state), *final(run_state), ok_part(r)),
    {
        let children = &self.children;
        if children.len() == 0 {
            return Err(error_at("structure must have identifier", &self.token));
        }
        let structure_identifier = match get_identifier(&children[0]) {
            Ok(identifier) => identifier,
            Err(error) => {
                return Err(error);
            },
        };
        let ghost all = declared_members(self);
        let mut structure_template = StructureTemplate::new();
        let mut i: usize = 1;
        while i < children.len()
            invariant
                structure_template.wf(),
                1 <= i <= children@.len(),
                children == self.children,
                run_state.wf(),
                *run_state == *old(run_state),
                identifier_of(children@[0].token) == Some(structure_identifier@),
                all == declared_members(self),
                forall|k: int| 0 <= k < i ==> (#[trigger] identifier_of(children@[k].token)) is Some,
                structure_template@ == all.subrange(0, i - 1),
            decreases children@.len() - i,
        {
            let member_identifier = match get_identifier(&children[i]) {
                Ok(identifier) => identifier,
                Err(error) => {
                    return Err(error);
                },
            };
            let ghost before = structure_template@;
            let ghost before_members = structure_template.members@;
            if let Err(error) = structure_template.add_member(member_identifier) {
                proof {
                    assert(exists|j: int| 0 <= j < before_members.len() && before_members[j]@ == member_identifier@);
                    let j = choose|j: int| 0 <= j < before_members.len() && before_members[j]@ == member_identifier@;
                    assert(before[j] == before_members[j]@);
                    assert(before.len() == i - 1);
                    assert(all.len() == children@.len() - 1);
                    assert(all.subrange(0, i - 1)[j] == all[j]);
                    assert(all[j] == before[j]);
                    assert(all[i - 1] == member_identifier@);
                    assert(!distinct(all));
                }
                return Err(error);
            }
            proof {
                assert(all[i - 1] == member_identifier@);
                assert(forall|j: int| 0 <= j < before_members.len() ==> before_members[j]@ != member_identifier@);
                assert(structure_template.members@ == before_members.push(*member_identifier));
                assert(structure_template@ =~= before.push(member_identifier@));
                assert(structure_template@ =~= all.subrange(0, i as int));
            }
            i += 1;
        }
        proof {
            assert(all.subrange(0, children@.len() - 1) =~= all);
        }
        run_state.set_structure_template(structure_identifier, structure_template);
        Ok(Value::Null)
    }

    /// `(get-member record member)`: a copy of the member's value.
    fn macro_get_member(&self, run_state: &mut RunState) -> (r: Result<Value, Error>)
        requires
            old(run_state).wf(),
        ensures
            get_member_outcome(self, *old(run_state), *final(run_state), ok_part(r)),
    {
        let children = &self.children;
        if children.len() != 2 {
            return Err(error_at("requires two arguments", &self.token));
        }
        let structure_identifier = match get_identifier(&children[0]) {
            Ok(identifier) => identifier,
            Err(error) => {
                return Err(error);
            },
        };
        let member_identifier = match get_identifier(&children[1]) {
            Ok(identifier) => identifier,
            Err(error) => {
                return Err(error);
            },
        };
        match run_state.find_local(structure_identifier) {
            Some(Value::Structure(structure)) => {
                if !Self::instance_lives(&structure, run_state) {
                    return Err(error_at("structure belongs to another environment", &self.token));
                }
                match structure.get_member(member_identifier, &run_state.store) {
                    Some(value) => Ok(value),
                    None => {
                        let mut message = String::from_str("structure does not have member: \"");
                        push_string(&mut message, member_identifier);
                        push_str(&mut message, "\"");
                        Err(error_at(message.as_str(), &self.token))
                    },
                }
            },
            Some(_) => {
                let mut message = String::from_str("structure identifier: \"");
                push_string(&mut message, structure_identifier);
                push_str(&mut message, "\" is not a structure");
                Err(error_at(message.as_str(), &self.token))
            },
            None => {
                let mut message = String::from_str("could not find local: \"");
                push_string(&mut message, structure_identifier);
                push_str(&mut message, "\"");
                Err(error_at(message.as_str(), &self.token))
            },
        }
    }

    /// Whether every member cell of the instance is a cell of this
    /// environment.
    fn instance_lives(instance: &StructureInstance, run_state: &RunState) -> (r: bool)
        ensures
            r == (instance.wf() && instance.lives_in(&run_state.store)),
    {
        if instance.names.len() != instance.members.len() {
            return false;
        }
        let mut a: usize = 0;
        while a < instance.members.len()
            invariant
                a <= instance.members@.len(),
                forall|i: int, j: int|
                    0 <= i < j < instance.members@.len() && i < a ==> (#[trigger] instance.members@[i]).index
                        != (#[trigger] instance.members@[j]).index,
            decreases instance.members@.len() - a,
        {
            let mut b: usize = a + 1;
            while b < instance.members.len()
                invariant
                    a < b <= instance.members@.len(),
                    forall|i: int, j: int|
                        0 <= i < j < instance.members@.len() && i < a ==> (#[trigger] instance.members@[i]).index
                            != (#[trigger] instance.members@[j]).index,
                    forall|j: int| a < j < b ==> instance.members@[a as int].index != (#[trigger] instance.members@[j]).index,
                decreases instance.members@.len() - b,
            {
                if instance.members[a].index == instance.members[b].index {
                    return false;
                }
                b += 1;
            }
            a += 1;
        }
        let mut i: usize = 0;
        while i < instance.members.len()
            invariant
                i <= instance.members@.len(),
                forall|k: int| 0 <= k < i ==> run_state.store.holds(#[trigger] instance.members@[k]),
            decreases instance.members@.len() - i,
        {
            if instance.members[i].index >= run_state.store.cells.len() {
                return false;
            }
            i += 1;
        }
        true
    }

    /// `(set-member record member value)`: evaluates the value and writes
    /// it to the member; yields Null.
    fn macro_set_member<F: Host>(&self, run_state: &mut RunState, floats: &F) -> (r: Result<Value, Error>)
        requires
            old(run_state).wf(),
        ensures
            final(run_state).wf(),
            set_member_outcome(self, *old(run_state), *final(run_state), ok_part(r)),
        decreases self, 1nat,
    {
        let children = &self.children;
        if children.len() != 3 {
            return Err(error_at("requires three arguments", &self.token));
        }
        let structure_identifier = match get_identifier(&children[0]) {
            Ok(identifier) => identifier,
            Err(error) => {
                return Err(error);
            },
        };
        let member_identifier = match get_identifier(&children[1]) {
            Ok(identifier) => identifier,
            Err(error) => {
                return Err(error);
            },
        };
        proof {
            vstd::std_specs::vec::axiom_vec_index_decreases(self.children, 2);
        }
        let v = children[2].evaluate(run_state, floats);
        let ghost mid = *run_state;
        let ghost ov = ok_part(v);
        proof {
            assert(between(mid, ov));
        }
        let value = match v {
            Ok(value) => value,
            Err(error) => {
                return Err(error);
            },
        };
        match run_state.find_local(structure_identifier) {
            Some(Value::Structure(structure)) => {
                if !Self::instance_lives(&structure, run_state) {
                    return Err(error_at("structure belongs to another environment", &self.token));
                }
                proof {
                    let found = run_state.value(structure_identifier@);
                    if found is Some && found->0 is Structure {
                        let instance = found->0->Structure_0;
                        assert(names(structure.names@) == names(instance.names@));
                        assert(structure.members@ == instance.members@);
                        assert(structure.member(member_identifier@) == instance.member(member_identifier@));
                    }
                }
                let ghost old_store = run_state.store;
                let ghost written = value;
                let result = structure.set_member(member_identifier, value, &mut run_state.store);
                proof {
                    if result is Ok {
                        crate::structure::lemma_position_in(names(structure.names@), member_identifier@);
                        let var = structure.member(member_identifier@)->0;
                        assert(old_store.holds(var));
                        assert(run_state.store.value_of(var) == written);
                    }
                }
                proof {
                    assert forall|i: int| 0 <= i < run_state.scopes@.len() implies (#[trigger] run_state.scopes@[i]).lives_in(&run_state.store) by {
                        assert(run_state.scopes@[i].lives_in(&old_store));
                        crate::run_state::lemma_scope_lives_on(&run_state.scopes@[i], &old_store, &run_state.store);
                    }
                }
                match result {
                    Ok(()) => Ok(Value::Null),
                    Err(error) => Err(error),
                }
            },
            Some(_) => {
                let mut message = String::from_str("structure identifier: \"");
                push_string(&mut message, structure_identifier);
                push_str(&mut message, "\" is not a structure");
                Err(error_at(message.as_str(), &self.token))
            },
            None => {
                let mut message = String::from_str("could not find local: \"");
                push_string(&mut message, structure_identifier);
                push_str(&mut message, "\"");
                Err(error_at(message.as_str(), &self.token))
            },
        }
    }
}

/// Calls a built-in function on evaluated arguments.
pub fn call_function<F: Host>(function: NativeFunction, args: Vec<Value>, run_state: &mut RunState, floats: &F) -> (r: Result<Value, Error>)
    requires
        old(run_state).wf(),
    ensures
        final(run_state).wf(),
        final(run_state).scopes == old(run_state).scopes,
        final(run_state).store == old(run_state).store,
        function == NativeFunction::List ==> r is Ok && r->Ok_0 == Value::List(args),
        function == NativeFunction::Add ==> arithmetic_outcome(Operator::Add, args@, r),
        function == NativeFunction::Sub ==> arithmetic_outcome(Operator::Sub, args@, r),
        function == NativeFunction::Mul ==> arithmetic_outcome(Operator::Mul, args@, r),
        function == NativeFunction::Div ==> arithmetic_outcome(Operator::Div, args@, r),
        function == NativeFunction::Format ==> r is Ok && r->Ok_0 is String && (all_plain(args@)
            ==> r->Ok_0@ == ValueView::String(rendered_all(views_of(args@)))),
        function == NativeFunction::Throw ==> r is Err && r->Err_0.token is None && (all_plain(args@)
            ==> r->Err_0.message@ == rendered_all(views_of(args@))),
        function == NativeFunction::Print ==> r is Ok && r->Ok_0 == Value::Null && (all_plain(args@)
            ==> final(run_state).output@ == old(run_state).output@ + rendered_all(views_of(args@))),
        function == NativeFunction::Println ==> r is Ok && r->Ok_0 == Value::Null && (all_plain(args@)
            ==> final(run_state).output@ == old(run_state).output@ + rendered_all(views_of(args@))
            + seq!['\n']),
        function != NativeFunction::Print && function != NativeFunction::Println ==> final(run_state).output
            == old(run_state).output,
        function_outcome(function, args@, *old(run_state), *final(run_state), ok_part(r)),
{
    match function {
        NativeFunction::List => {
            proof {
                crate::value::lemma_views_upto_len(&args, args@.len() as int);
                assert(crate::value::views_upto(&args, args@.len() as int) =~= views_of(args@));
            }
            Ok(Value::List(args))
        },
        NativeFunction::Add | NativeFunction::Sub | NativeFunction::Mul | NativeFunction::Div => {
            let r = arithmetic(if function == NativeFunction::Add {
                Operator::Add
            } else if function == NativeFunction::Sub {
                Operator::Sub
            } else if function == NativeFunction::Mul {
                Operator::Mul
            } else {
                Operator::Div
            }, &args, floats);
            proof {
                assert(arithmetic_outcome(operator_of(function), args@, r));
            }
            r
        },
        NativeFunction::Format => Ok(Value::String(format_string(&args, &run_state.store, floats))),
        NativeFunction::Print => std_print_print(args, run_state, floats),
        NativeFunction::Println => std_print_println(args, run_state, floats),
        NativeFunction::Throw => Err(Error::new(format_string(&args, &run_state.store, floats), None)),
        NativeFunction::Host(id) => floats.call_function(id, args),
    }
}

} // verus!
