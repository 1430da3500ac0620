//! The standard vocabulary's strict functions: arithmetic, lists, text.

use crate::error::Error;
use crate::run_state::RunState;
use crate::structure::StructureInstance;
use crate::text::{decimal, push_decimal, push_str, push_string};
use crate::value::{Host, NativeFunction, NativeMacro, Operator, Value, ValueView};
use crate::variable::VariableStore;
use vstd::prelude::*;
use vstd::string::StringExecFns;

verus! {

pub open spec fn abs(x: int) -> int {
    if x < 0 {
        -x
    } else {
        x
    }
}

/// Integer division rounding toward zero, as Rust's `/` on integers does.
pub open spec fn trunc_div(x: int, y: int) -> int {
    if (x < 0) == (y < 0) {
        abs(x) / abs(y)
    } else {
        -(abs(x) / abs(y))
    }
}

/// One step of integer arithmetic; `None` when it divides by zero or the
/// result does not fit in `i64`.
pub open spec fn integer_step(op: Operator, x: i64, y: i64) -> Option<i64> {
    let v: int = match op {
        Operator::Add => x + y,
        Operator::Sub => x - y,
        Operator::Mul => x * y,
        Operator::Div => if y == 0 {
            0
        } else {
            trunc_div(x as int, y as int)
        },
    };
    if op == Operator::Div && y == 0 {
        None
    } else if i64::MIN <= v <= i64::MAX {
        Some(v as i64)
    } else {
        None
    }
}

/// Left-to-right accumulation of `ys` onto `seed`.
pub open spec fn fold_integers(op: Operator, seed: i64, ys: Seq<i64>) -> Option<i64>
    decreases ys.len(),
{
    if ys.len() == 0 {
        Some(seed)
    } else {
        match fold_integers(op, seed, ys.drop_last()) {
            Some(acc) => integer_step(op, acc, ys.last()),
            None => None,
        }
    }
}

/// One step of integer arithmetic, checked.
pub fn apply_integers(op: Operator, x: i64, y: i64) -> (r: Option<i64>)
    ensures
        r == integer_step(op, x, y),
{
    let a = x as i128;
    let b = y as i128;
    let v: i128 = match op {
        Operator::Add => a + b,
        Operator::Sub => a - b,
        Operator::Mul => {
            assert(-9223372036854775808 * 9223372036854775808 <= a * b <= 9223372036854775808
                * 9223372036854775808) by (nonlinear_arith)
                requires
                    -9223372036854775808 <= a <= 9223372036854775807,
                    -9223372036854775808 <= b <= 9223372036854775807,
            ;
            a * b
        },
        Operator::Div => {
            if y == 0 {
                return None;
            }
            let ua: u128 = if a < 0 { (-a) as u128 } else { a as u128 };
            let ub: u128 = if b < 0 { (-b) as u128 } else { b as u128 };
            let q = ua / ub;
            assert(q <= ua) by (nonlinear_arith)
                requires
                    ub >= 1,
                    q == ua / ub,
            ;
            if (a < 0) == (b < 0) {
                q as i128
            } else {
                -(q as i128)
            }
        },
    };
    if -9223372036854775808 <= v && v <= 9223372036854775807 {
        Some(v as i64)
    } else {
        None
    }
}

/// All of the values are integers.
pub open spec fn all_integers(vs: Seq<ValueView>) -> bool {
    forall|i: int| 0 <= i < vs.len() ==> (#[trigger] vs[i]) is Integer
}

pub open spec fn integers_of(vs: Seq<ValueView>) -> Seq<i64> {
    vs.map_values(|v: ValueView| v->Integer_0)
}

pub open spec fn views_of(vs: Seq<Value>) -> Seq<ValueView> {
    vs.map_values(|v: Value| v@)
}

pub open spec fn is_number(v: ValueView) -> bool {
    v is Integer || v is Float
}

/// The seed of an accumulation with two or more operands: 0 for addition,
/// 1 for multiplication, the first operand for subtraction and division.
pub open spec fn seeded(op: Operator) -> bool {
    op == Operator::Add || op == Operator::Mul
}

pub open spec fn seed_of(op: Operator) -> i64 {
    if op == Operator::Add {
        0
    } else {
        1
    }
}

/// The operands that are folded onto the seed.
pub open spec fn operands(op: Operator, vs: Seq<ValueView>) -> Seq<ValueView> {
    if seeded(op) {
        vs
    } else {
        vs.drop_first()
    }
}

/// The outcome of integer-only arithmetic on two or more operands.
pub open spec fn integer_arithmetic(op: Operator, vs: Seq<ValueView>) -> Option<i64> {
    let seed = if seeded(op) {
        seed_of(op)
    } else {
        vs[0]->Integer_0
    };
    fold_integers(op, seed, integers_of(operands(op, vs)))
}

/// The error for an operand that is not a number.
pub fn get_non_num_type_error(function_name: &str) -> (r: Error)
    ensures
        r.token is None,
{
    let mut message = String::from_str("non numerical type in function \"");
    push_str(&mut message, function_name);
    push_str(&mut message, "\"");
    Error::new(message, None)
}

fn overflow(function_name: &str) -> (r: Error) {
    let mut message = String::from_str("arithmetic failed in function \"");
    push_str(&mut message, function_name);
    push_str(&mut message, "\": division by zero or integer overflow");
    Error::new(message, None)
}

fn operator_name(op: Operator) -> &'static str {
    match op {
        Operator::Add => "+",
        Operator::Sub => "-",
        Operator::Mul => "*",
        Operator::Div => "/",
    }
}

/// One accumulation step on values: the result keeps the type of the
/// accumulator; an integer accumulator takes a float operand truncated.
fn accumulate<F: Host>(op: Operator, acc: Value, arg: &Value, floats: &F) -> (r: Result<Value, Error>)
    requires
        acc is Integer || acc is Float,
    ensures
        acc is Integer && arg is Integer ==> match integer_step(op, acc->Integer_0, arg->Integer_0) {
            Some(v) => r is Ok && r->Ok_0 == Value::Integer(v),
            None => r is Err,
        },
        !is_number(arg@) ==> r is Err,
        r is Ok ==> (acc is Integer ==> r->Ok_0 is Integer) && (acc is Float ==> r->Ok_0 is Float),
        acc is Float && is_number(arg@) ==> r is Ok,
{
    match (acc, arg) {
        (Value::Integer(x), Value::Integer(y)) => match apply_integers(op, x, *y) {
            Some(v) => Ok(Value::Integer(v)),
            None => Err(overflow(operator_name(op))),
        },
        (Value::Integer(x), Value::Float(y)) => match apply_integers(op, x, floats.to_integer(*y)) {
            Some(v) => Ok(Value::Integer(v)),
            None => Err(overflow(operator_name(op))),
        },
        (Value::Float(x), Value::Integer(y)) => Ok(
            Value::Float(floats.arithmetic(op, x, floats.from_integer(*y))),
        ),
        (Value::Float(x), Value::Float(y)) => Ok(Value::Float(floats.arithmetic(op, x, *y))),
        _ => Err(get_non_num_type_error(operator_name(op))),
    }
}

/// What arithmetic over `args` yields. With no operands: Null. With one:
/// addition and multiplication give it back, subtraction and division
/// negate a number and reject anything else. With two or more: integers
/// accumulate exactly left to right onto the seed, failing on overflow or
/// division by zero; a non-number fails; the result keeps the seed's type.
pub open spec fn arithmetic_outcome(op: Operator, args: Seq<Value>, r: Result<Value, Error>) -> bool {
    &&& (args.len() == 0 ==> r is Ok && r->Ok_0 == Value::Null)
    &&& (args.len() == 1 && seeded(op) ==> r is Ok && r->Ok_0@ == args[0]@)
    &&& (args.len() == 1 && !seeded(op) ==> match args[0] {
            Value::Integer(x) => if x == i64::MIN {
                r is Err
            } else {
                r is Ok && r->Ok_0 == Value::Integer((-x) as i64)
            },
            Value::Float(x) => r is Ok && r->Ok_0 == Value::Float(x.negate_spec()),
            _ => r is Err,
        })
    &&& (args.len() >= 2 && all_integers(views_of(args)) ==> match integer_arithmetic(
            op,
            views_of(args),
        ) {
            Some(v) => r is Ok && r->Ok_0 == Value::Integer(v),
            None => r is Err,
        })
    &&& (args.len() >= 2 && (exists|i: int| 0 <= i < args.len() && !is_number(#[trigger] args[i]@))
            ==> r is Err)
    &&& (args.len() >= 2 && r is Ok && (seeded(op) || args[0] is Integer) ==> r->Ok_0 is Integer)
    &&& (args.len() >= 2 && r is Ok && !seeded(op) && args[0] is Float ==> r->Ok_0 is Float)
    &&& (args.len() >= 2 && !seeded(op) && args[0] is Float && (forall|i: int|
        0 <= i < args.len() ==> is_number(#[trigger] args[i]@)) ==> r is Ok && r->Ok_0 is Float)
}

/// Arithmetic over any number of operands. With none the result is Null.
/// With one, addition and multiplication give it back unchanged, and
/// subtraction and division negate it. With two or more, the operands are
/// accumulated left to right onto the seed; the seed's type is kept.
pub fn arithmetic<F: Host>(op: Operator, args: &Vec<Value>, floats: &F) -> (r: Result<Value, Error>)
    ensures
        arithmetic_outcome(op, args@, r),
{
    let n = args.len();
    if n == 0 {
        return Ok(Value::Null);
    }
    if n == 1 {
        if op == Operator::Add || op == Operator::Mul {
            return Ok(args[0].clone());
        }
        return match &args[0] {
            Value::Integer(x) => if *x == i64::MIN {
                Err(overflow(operator_name(op)))
            } else {
                Ok(Value::Integer(-*x))
            },
            Value::Float(x) => Ok(Value::Float(x.negate())),
            _ => Err(get_non_num_type_error(operator_name(op))),
        };
    }
    let ghost vs = views_of(args@);
    let ghost ops = operands(op, vs);
    let start: usize = if op == Operator::Add || op == Operator::Mul { 0 } else { 1 };
    let mut acc: Value = if op == Operator::Add {
        Value::Integer(0)
    } else if op == Operator::Mul {
        Value::Integer(1)
    } else {
        match &args[0] {
            Value::Integer(x) => Value::Integer(*x),
            Value::Float(x) => Value::Float(*x),
            _ => {
                return Err(get_non_num_type_error(operator_name(op)));
            },
        }
    };
    let ghost seed: i64 = if seeded(op) { seed_of(op) } else { vs[0]->Integer_0 };
    let mut i: usize = start;
    while i < n
        invariant
            n == args@.len(),
            n >= 2,
            start == (if seeded(op) { 0usize } else { 1usize }),
            start <= i <= n,
            vs == views_of(args@),
            ops == operands(op, vs),
            acc is Integer || acc is Float,
            seeded(op) || args@[0] is Integer ==> acc is Integer,
            !seeded(op) && args@[0] is Float ==> acc is Float,
            !seeded(op) && args@[0] is Integer ==> seed == args@[0]->Integer_0,
            seeded(op) ==> seed == seed_of(op),
            forall|k: int| start <= k < i ==> is_number(#[trigger] args@[k]@),
            all_integers(vs) ==> acc is Integer && fold_integers(
                op,
                seed,
                integers_of(ops).subrange(0, i - start),
            ) == Some(acc->Integer_0),
        decreases n - i,
    {
        let ghost before = acc;
        let next = accumulate(op, acc, &args[i], floats);
        match next {
            Ok(v) => {
                acc = v;
            },
            Err(e) => {
                proof {
                    if all_integers(vs) {
                        lemma_fold_fails_on(op, seed, integers_of(ops), i - start);
                    }
                }
                return Err(e);
            },
        }
        proof {
            if all_integers(vs) {
                let p = integers_of(ops).subrange(0, i + 1 - start);
                assert(p.drop_last() =~= integers_of(ops).subrange(0, i - start));
                assert(p.last() == args@[i as int]->Integer_0);
            }
        }
        i += 1;
    }
    proof {
        if all_integers(vs) {
            assert(integers_of(ops).subrange(0, n - start) =~= integers_of(ops));
        }
    }
    Ok(acc)
}

/// An accumulation that fails at some step fails as a whole.
proof fn lemma_fold_fails_on(op: Operator, seed: i64, ys: Seq<i64>, k: int)
    requires
        0 <= k < ys.len(),
        fold_integers(op, seed, ys.subrange(0, k)) is Some,
        integer_step(op, fold_integers(op, seed, ys.subrange(0, k))->0, ys[k]) is None,
    ensures
        fold_integers(op, seed, ys) is None,
    decreases ys.len() - k,
{
    let p = ys.subrange(0, k + 1);
    assert(p.drop_last() =~= ys.subrange(0, k));
    lemma_fold_stays_failed(op, seed, ys, k + 1);
}

proof fn lemma_fold_stays_failed(op: Operator, seed: i64, ys: Seq<i64>, k: int)
    requires
        0 <= k <= ys.len(),
        fold_integers(op, seed, ys.subrange(0, k)) is None,
    ensures
        fold_integers(op, seed, ys) is None,
    decreases ys.len() - k,
{
    if k < ys.len() {
        let p = ys.subrange(0, k + 1);
        assert(p.drop_last() =~= ys.subrange(0, k));
        lemma_fold_stays_failed(op, seed, ys, k + 1);
    } else {
        assert(ys.subrange(0, k) =~= ys);
    }
}


/// The value holds no float and no record, at any depth: its text is fixed
/// by the value alone.
pub open spec fn plain(v: ValueView) -> bool
    decreases v,
{
    match v {
        ValueView::Float(_) => false,
        ValueView::Structure(_, _) => false,
        ValueView::List(items) => forall|i: int| 0 <= i < items.len() ==> plain(#[trigger] items[i]),
        _ => true,
    }
}

/// The text of a plain value: `()` for Null, `true` or `false`, decimal
/// integers, strings as they are, and `(list a b ...)` for lists.
pub open spec fn rendered(v: ValueView) -> Seq<char>
    decreases v, 1nat,
{
    match v {
        ValueView::Null => seq!['(', ')'],
        ValueView::Boolean(b) => if b {
            seq!['t', 'r', 'u', 'e']
        } else {
            seq!['f', 'a', 'l', 's', 'e']
        },
        ValueView::Integer(i) => decimal(i as int),
        ValueView::String(s) => s,
        ValueView::List(items) => seq!['(', 'l', 'i', 's', 't', ' '] + rendered_items(items, items.len() as int)
            + seq![')'],
        ValueView::NativeFunction(_) => seq!['N', 'a', 't', 'i', 'v', 'e', 'F', 'u', 'n', 'c', 't', 'i', 'o', 'n'],
        ValueView::NativeMacro(_) => seq!['N', 'a', 't', 'i', 'v', 'e', 'M', 'a', 'c', 'r', 'o'],
        _ => Seq::empty(),
    }
}

/// The texts of the first `n` items, separated by single spaces.
pub open spec fn rendered_items(items: Seq<ValueView>, n: int) -> Seq<char>
    decreases items, 0nat, n,
{
    if n <= 0 || n > items.len() {
        Seq::empty()
    } else if n == 1 {
        rendered(items[0])
    } else {
        rendered_items(items, n - 1) + seq![' '] + rendered(items[n - 1])
    }
}

/// The texts of a sequence of plain values, one after another.
pub open spec fn rendered_all(vs: Seq<ValueView>) -> Seq<char>
    decreases vs.len(),
{
    if vs.len() == 0 {
        Seq::empty()
    } else {
        rendered_all(vs.drop_last()) + rendered(vs.last())
    }
}

fn push_literal(out: &mut String, t: &str)
    ensures
        final(out)@ == old(out)@ + t@,
{
    push_str(out, t);
}

/// Appends the texts of the items, separated by single spaces.
fn render_items<F: Host>(items: &Vec<Value>, out: &mut String, store: &VariableStore, floats: &F, depth: u8)
    ensures
        (forall|k: int| 0 <= k < items@.len() ==> plain(#[trigger] items@[k]@)) ==> final(out)@
            == old(out)@ + rendered_items(views_of(items@), items@.len() as int),
    decreases depth, items, 0nat,
{
    let ghost start = out@;
    let ghost vs = views_of(items@);
    let mut i: usize = 0;
    while i < items.len()
        invariant
            i <= items@.len(),
            vs == views_of(items@),
            (forall|k: int| 0 <= k < items@.len() ==> plain(#[trigger] items@[k]@)) ==> out@ == start
                + rendered_items(vs, i as int),
        decreases items@.len() - i,
    {
        proof {
            vstd::std_specs::vec::axiom_vec_index_decreases(*items, i as int);
        }
        if i > 0 {
            push_literal(out, " ");
        }
        render_value(&items[i], out, store, floats, depth);
        proof {
            if forall|k: int| 0 <= k < items@.len() ==> plain(#[trigger] items@[k]@) {
                assert(vs[i as int] == items@[i as int]@);
                assert(plain(items@[i as int]@));
                reveal_strlit(" ");
                if i == 0 {
                    assert(out@ =~= start + rendered_items(vs, 1));
                } else {
                    assert(out@ =~= start + rendered_items(vs, i + 1));
                }
            }
        }
        i += 1;
    }
}

/// Appends the text of `v`. A record shows its members and their values;
/// a record met inside a record shows as `{...}`.
pub fn render_value<F: Host>(v: &Value, out: &mut String, store: &VariableStore, floats: &F, depth: u8)
    ensures
        plain(v@) ==> final(out)@ == old(out)@ + rendered(v@),
    decreases depth, v,
{
    match v {
        Value::Null => {
            push_literal(out, "()");
            proof { reveal_strlit("()"); }
            assert(out@ =~= old(out)@ + rendered(v@));
        },
        Value::Boolean(b) => {
            if *b {
                push_literal(out, "true");
                proof { reveal_strlit("true"); }
            } else {
                push_literal(out, "false");
                proof { reveal_strlit("false"); }
            }
            assert(out@ =~= old(out)@ + rendered(v@));
        },
        Value::Integer(i) => {
            push_decimal(out, *i);
        },
        Value::Float(f) => {
            let text = floats.render(*f);
            push_string(out, &text);
        },
        Value::String(s) => {
            push_string(out, s);
        },
        Value::List(items) => {
            push_literal(out, "(list ");
            let ghost start = out@;
            render_items(items, out, store, floats, depth);
            push_literal(out, ")");
            proof {
                reveal_strlit("(list ");
                reveal_strlit(")");
                crate::value::lemma_views_upto_len(items, items@.len() as int);
                if plain(v@) {
                    assert(v@->List_0 =~= views_of(items@));
                    assert forall|k: int| 0 <= k < items@.len() implies plain(#[trigger] items@[k]@) by {
                        assert(v@->List_0[k] == items@[k]@);
                    }
                    assert(out@ =~= old(out)@ + rendered(v@));
                }
            }
        },
        Value::NativeFunction(_) => {
            push_literal(out, "NativeFunction");
            proof { reveal_strlit("NativeFunction"); }
            assert(out@ =~= old(out)@ + rendered(v@));
        },
        Value::NativeMacro(_) => {
            push_literal(out, "NativeMacro");
            proof { reveal_strlit("NativeMacro"); }
            assert(out@ =~= old(out)@ + rendered(v@));
        },
        Value::Structure(s) => {
            if depth == 0 {
                push_literal(out, "{...}");
            } else {
                push_literal(out, "{");
                let mut i: usize = 0;
                while i < s.names.len() && i < s.members.len()
                    invariant
                        depth > 0,
                    decreases s.names@.len() - i,
                {
                    if i > 0 {
                        push_literal(out, ", ");
                    }
                    push_literal(out, "\"");
                    push_string(out, &s.names[i]);
                    push_literal(out, "\": ");
                    let member = s.members[i];
                    if member.index < store.cells.len() {
                        let member_value = member.get(store);
                        render_value(&member_value, out, store, floats, depth - 1);
                    }
                    i += 1;
                }
                push_literal(out, "}");
            }
        },
    }
}

/// Every value is plain.
pub open spec fn all_plain(vs: Seq<Value>) -> bool {
    forall|i: int| 0 <= i < vs.len() ==> plain(#[trigger] vs[i]@)
}

/// The texts of all the values, one after another.
pub fn format_string<F: Host>(args: &Vec<Value>, store: &VariableStore, floats: &F) -> (r: String)
    ensures
        all_plain(args@) ==> r@ == rendered_all(views_of(args@)),
{
    let mut out = String::new();
    let mut i: usize = 0;
    while i < args.len()
        invariant
            i <= args@.len(),
            (forall|k: int| 0 <= k < args@.len() ==> plain(#[trigger] args@[k]@)) ==> out@
                == rendered_all(views_of(args@.subrange(0, i as int))),
        decreases args@.len() - i,
    {
        let ghost before = out@;
        render_value(&args[i], &mut out, store, floats, 2);
        proof {
            let p = views_of(args@.subrange(0, i + 1));
            assert(p.drop_last() =~= views_of(args@.subrange(0, i as int)));
            assert(p.last() == args@[i as int]@);
        }
        i += 1;
    }
    proof {
        assert(args@.subrange(0, args@.len() as int) =~= args@);
    }
    out
}

/// The text of a list: `(list ` then the items separated by spaces, then `)`.
pub fn list_to_string<F: Host>(list: &Vec<Value>, store: &VariableStore, floats: &F) -> (r: String)
    ensures
        all_plain(list@) ==> r@ == seq!['(', 'l', 'i', 's', 't', ' '] + rendered_items(
            views_of(list@),
            list@.len() as int,
        ) + seq![')'],
{
    let mut out = String::new();
    push_literal(&mut out, "(list ");
    render_items(list, &mut out, store, floats, 2);
    push_literal(&mut out, ")");
    proof {
        reveal_strlit("(list ");
        reveal_strlit(")");
        if all_plain(list@) {
            assert(out@ =~= seq!['(', 'l', 'i', 's', 't', ' '] + rendered_items(views_of(list@), list@.len() as int)
                + seq![')']);
        }
    }
    out
}

/// `print`: appends the text of the values to the environment's output.
pub fn std_print_print<F: Host>(args: Vec<Value>, run_state: &mut RunState, floats: &F) -> (r: Result<Value, Error>)
    requires
        old(run_state).wf(),
    ensures
        final(run_state).wf(),
        final(run_state).scopes == old(run_state).scopes,
        final(run_state).store == old(run_state).store,
        r is Ok && r->Ok_0 == Value::Null,
        all_plain(args@) ==> final(run_state).output@ == old(run_state).output@ + rendered_all(views_of(args@)),
{
    let text = format_string(&args, &run_state.store, floats);
    push_string(&mut run_state.output, &text);
    Ok(Value::Null)
}

/// `println`: as `print`, then a newline.
pub fn std_print_println<F: Host>(args: Vec<Value>, run_state: &mut RunState, floats: &F) -> (r: Result<Value, Error>)
    requires
        old(run_state).wf(),
    ensures
        final(run_state).wf(),
        final(run_state).scopes == old(run_state).scopes,
        final(run_state).store == old(run_state).store,
        r is Ok && r->Ok_0 == Value::Null,
        all_plain(args@) ==> final(run_state).output@ == old(run_state).output@ + rendered_all(views_of(args@))
            + seq!['\n'],
{
    let _ = std_print_print(args, run_state, floats);
    push_str(&mut run_state.output, "\n");
    proof {
        reveal_strlit("\n");
    }
    Ok(Value::Null)
}

} // verus!
