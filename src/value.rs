//! Runtime values.

use crate::error::Error;
use crate::node::Node;
use crate::run_state::RunState;
use crate::structure::{names, StructureInstance};
use crate::variable::Variable;
use vstd::prelude::*;

verus! {

/// A 64-bit IEEE-754 binary floating-point number, held as its bit pattern.
#[derive(Debug, Clone, Copy, PartialEq, Eq, Structural)]
pub struct Float {
    pub bits: u64,
}

impl Float {
    pub fn from_bits(bits: u64) -> (r: Float)
        ensures
            r.bits == bits,
    {
        Float { bits }
    }

    pub fn to_bits(self) -> (r: u64)
        ensures
            r == self.bits,
    {
        self.bits
    }

    /// The same number with the opposite sign: IEEE-754 negation flips the
    /// sign bit and nothing else.
    pub open spec fn negate_spec(self) -> Float {
        Float { bits: negated_bits(self.bits) }
    }

    pub fn negate(self) -> (r: Float)
        ensures
            r == self.negate_spec(),
    {
        Float { bits: self.bits ^ 0x8000_0000_0000_0000u64 }
    }
}

pub open spec fn negated_bits(b: u64) -> u64 {
    b ^ 0x8000_0000_0000_0000u64
}

/// The four arithmetic operators.
#[derive(Debug, Clone, Copy, PartialEq, Eq, Structural)]
pub enum Operator {
    Add,
    Sub,
    Mul,
    Div,
}

/// What the embedding program provides: floating-point work (reading a
/// float literal, arithmetic, conversions to and from integers as Rust's
/// `as` converts, and rendering), and its own functions and macros, which
/// it binds with `RunState::expose_function` and `RunState::expose_macro`
/// as `NativeFunction::Host(id)` and `NativeMacro::Host(id)`.
pub trait Host {
    /// Calls the host's function `id` on the evaluated arguments.
    fn call_function(&self, id: u64, args: Vec<Value>) -> Result<Value, Error>;

    /// Runs the host's macro `id` on its unevaluated call form; it may
    /// evaluate parts of the form with `Node::evaluate`.
    fn call_macro(&self, id: u64, run_state: &mut RunState, node: &Node) -> Result<Value, Error>;

    /// The number that a float literal denotes, if the text is one.
    fn parse(&self, text: &String) -> Option<Float>;

    fn from_integer(&self, i: i64) -> Float;

    /// Rounds toward zero, saturating at the ends of `i64`; NaN is 0.
    fn to_integer(&self, x: Float) -> i64;

    fn arithmetic(&self, op: Operator, x: Float, y: Float) -> Float;

    /// Decimal text with at least one fractional digit.
    fn render(&self, x: Float) -> String;
}

/// A built-in function: it receives its arguments already evaluated.
#[derive(Debug, Clone, Copy, PartialEq, Eq, Structural)]
pub enum NativeFunction {
    List,
    Add,
    Sub,
    Mul,
    Div,
    Format,
    Print,
    Println,
    Throw,
    /// A function of the embedding program, by its number.
    Host(u64),
}

/// A built-in macro: it receives its call form unevaluated.
#[derive(Debug, Clone, Copy, PartialEq, Eq, Structural)]
pub enum NativeMacro {
    Const,
    Assign,
    If,
    Times,
    DefStruct,
    GetMember,
    SetMember,
    /// A macro of the embedding program, by its number.
    Host(u64),
}

/// A runtime value. `==` compares floats by their bit patterns and
/// records by their member cells (two handles to the same cells are equal).
#[derive(Debug, PartialEq)]
pub enum Value {
    Null,
    Boolean(bool),
    Integer(i64),
    Float(Float),
    String(String),
    List(Vec<Value>),
    NativeFunction(NativeFunction),
    NativeMacro(NativeMacro),
    Structure(StructureInstance),
}

/// The mathematical form of a value: texts as character sequences, lists
/// as sequences.
pub enum ValueView {
    Null,
    Boolean(bool),
    Integer(i64),
    Float(Float),
    String(Seq<char>),
    List(Seq<ValueView>),
    NativeFunction(NativeFunction),
    NativeMacro(NativeMacro),
    Structure(Seq<Seq<char>>, Seq<Variable>),
}

/// The views of the first `n` values of `l`.
pub open spec fn views_upto(l: &Vec<Value>, n: int) -> Seq<ValueView>
    decreases l, 0nat, n,
{
    if n <= 0 || n > l@.len() {
        Seq::empty()
    } else {
        views_upto(l, n - 1).push(value_view(&l@[n - 1]))
    }
}

/// The view of a value.
pub open spec fn value_view(v: &Value) -> ValueView
    decreases v, 1nat,
{
    match v {
        Value::Null => ValueView::Null,
        Value::Boolean(b) => ValueView::Boolean(*b),
        Value::Integer(i) => ValueView::Integer(*i),
        Value::Float(f) => ValueView::Float(*f),
        Value::String(s) => ValueView::String(s@),
        Value::List(l) => ValueView::List(views_upto(l, l@.len() as int)),
        Value::NativeFunction(f) => ValueView::NativeFunction(*f),
        Value::NativeMacro(m) => ValueView::NativeMacro(*m),
        Value::Structure(s) => ValueView::Structure(names(s.names@), s.members@),
    }
}

impl View for Value {
    type V = ValueView;

    open spec fn view(&self) -> ValueView {
        value_view(self)
    }
}

impl Value {
    pub open spec fn is_callable(&self) -> bool {
        self is NativeFunction || self is NativeMacro
    }
}

pub proof fn lemma_views_upto_len(l: &Vec<Value>, n: int)
    requires
        0 <= n <= l@.len(),
    ensures
        views_upto(l, n).len() == n,
        forall|i: int| 0 <= i < n ==> #[trigger] views_upto(l, n)[i] == l@[i]@,
    decreases n,
{
    if n > 0 {
        lemma_views_upto_len(l, n - 1);
    }
}

proof fn lemma_views_upto_same(a: &Vec<Value>, b: &Vec<Value>, n: int)
    requires
        0 <= n <= a@.len(),
        a@.len() == b@.len(),
        forall|i: int| 0 <= i < a@.len() ==> (#[trigger] a@[i])@ == b@[i]@,
    ensures
        views_upto(a, n) == views_upto(b, n),
    decreases n,
{
    if n > 0 {
        lemma_views_upto_same(a, b, n - 1);
    }
}

pub fn clone_values(v: &Vec<Value>) -> (r: Vec<Value>)
    ensures
        r@.len() == v@.len(),
        forall|i: int| 0 <= i < v@.len() ==> (#[trigger] r@[i])@ == v@[i]@,
    decreases v, 0nat,
{
    let mut r: Vec<Value> = Vec::new();
    let mut i: usize = 0;
    while i < v.len()
        invariant
            i <= v@.len(),
            r@.len() == i,
            forall|k: int| 0 <= k < i ==> (#[trigger] r@[k])@ == v@[k]@,
        decreases v@.len() - i,
    {
        proof {
            vstd::std_specs::vec::axiom_vec_index_decreases(*v, i as int);
        }
        r.push(v[i].clone());
        i += 1;
    }
    r
}

impl Clone for Value {
    fn clone(&self) -> (r: Self)
        ensures
            r@ == self@,
        decreases self, 1nat,
    {
        match self {
            Value::Null => Value::Null,
            Value::Boolean(b) => Value::Boolean(*b),
            Value::Integer(i) => Value::Integer(*i),
            Value::Float(f) => Value::Float(*f),
            Value::String(s) => Value::String(s.clone()),
            Value::List(l) => {
                let c = clone_values(l);
                let r = Value::List(c);
                proof {
                    lemma_views_upto_same(&c, l, c@.len() as int);
                }
                r
            },
            Value::NativeFunction(f) => Value::NativeFunction(*f),
            Value::NativeMacro(m) => Value::NativeMacro(*m),
            Value::Structure(s) => {
                let r = Value::Structure(s.clone());
                assert(r@ == self@);
                r
            },
        }
    }
}

impl Default for Value {
    fn default() -> (r: Self)
        ensures
            r == Value::Null,
    {
        Value::Null
    }
}

} // verus!
