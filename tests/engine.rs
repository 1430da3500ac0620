use ryol::error::{Error, EvalError};
use ryol::node::Node;
use ryol::eval;
use ryol::run_state::RunState;
use ryol::structure::{StructureInstance, StructureTemplate};
use ryol::value::{Float, Host, NativeFunction, NativeMacro, Operator, Value};
use ryol::variable::VariableStore;

struct Floats;

impl Host for Floats {
    fn call_function(&self, id: u64, args: Vec<Value>) -> Result<Value, Error> {
        match id {
            // the number of arguments
            0 => Ok(Value::Integer(args.len() as i64)),
            _ => Err(Error::new(format!("no host function {}", id), None)),
        }
    }

    fn call_macro(&self, id: u64, run_state: &mut RunState, node: &Node) -> Result<Value, Error> {
        match id {
            // evaluates its last child twice, yielding the second value
            0 => match node.get_children().last() {
                Some(child) => {
                    child.evaluate(run_state, self)?;
                    child.evaluate(run_state, self)
                }
                None => Ok(Value::Null),
            },
            _ => Err(Error::new(format!("no host macro {}", id), None)),
        }
    }

    fn parse(&self, text: &String) -> Option<Float> {
        text.parse::<f64>().ok().map(|f| Float::from_bits(f.to_bits()))
    }

    fn from_integer(&self, i: i64) -> Float {
        Float::from_bits((i as f64).to_bits())
    }

    fn to_integer(&self, x: Float) -> i64 {
        f64::from_bits(x.to_bits()) as i64
    }

    fn arithmetic(&self, op: Operator, x: Float, y: Float) -> Float {
        let a = f64::from_bits(x.to_bits());
        let b = f64::from_bits(y.to_bits());
        let r = match op {
            Operator::Add => a + b,
            Operator::Sub => a - b,
            Operator::Mul => a * b,
            Operator::Div => a / b,
        };
        Float::from_bits(r.to_bits())
    }

    fn render(&self, x: Float) -> String {
        let f = f64::from_bits(x.to_bits());
        if f % 1.0 == 0.0 {
            format!("{:.1}", f)
        } else {
            format!("{}", f)
        }
    }
}

fn run(source: &str) -> Result<Value, EvalError> {
    eval(source, &Floats)
}

fn float(f: f64) -> Value {
    Value::Float(Float::from_bits(f.to_bits()))
}

fn text(s: &str) -> Value {
    Value::String(s.to_string())
}

#[test]
fn basic_basic_literals_tests() {
    assert_eq!(run("true").unwrap(), Value::Boolean(true));
    assert_eq!(run("false").unwrap(), Value::Boolean(false));
    assert_eq!(run("1").unwrap(), Value::Integer(1));
    assert_eq!(run("1.5").unwrap(), float(1.5));
    assert_eq!(run("\"asdf\"").unwrap(), text("asdf"));
}

#[test]
fn node_basic_literals_tests() {
    assert_eq!(run("true").unwrap(), Value::Boolean(true));
    assert_eq!(run("false").unwrap(), Value::Boolean(false));
    assert_eq!(run("1").unwrap(), Value::Integer(1));
    assert_eq!(run("1.5").unwrap(), float(1.5));
    assert_eq!(run("\"asdf\"").unwrap(), text("asdf"));
}

#[test]
fn basic_global_variable_test() {
    let mut run_state = RunState::new();
    let value = Value::Integer(5);

    run_state.expose("x", value.clone()).unwrap();
    assert_eq!(run_state.eval("x", &Floats).unwrap(), value.clone());
    assert_eq!(run_state.eval("(x)", &Floats).unwrap(), value);
    assert_eq!(run_state.eval("((x))", &Floats).unwrap(), value);
}

#[test]
fn node_global_variable_test() {
    let mut run_state = RunState::new();
    let value = Value::Integer(5);

    run_state.expose("x", value.clone()).unwrap();
    assert_eq!(run_state.eval("x", &Floats).unwrap(), value.clone());
    assert_eq!(run_state.eval("(x)", &Floats).unwrap(), value);
    assert_eq!(run_state.eval("((x))", &Floats).unwrap(), value);
}

#[test]
fn variable_set_tests() {
    // syntax
    assert!(run("(set)").is_err());
    assert!(run("(set x)").is_err());
    assert!(run("(set x 1 y)").is_err());
    assert!(run("(set x 1)").is_ok());
    assert!(run("set x 1 y 2").is_ok());
    assert!(run("(set x 1 y 2)").is_ok());

    let mut run_state = RunState::new();
    let identifier = "x".to_string();
    let value = Value::Integer(5);

    // should return null when setting value
    assert_eq!(run_state.eval("set x 5", &Floats).unwrap(), Value::Null);

    // should exist
    assert!(run_state.get_local_scope_mut().local_exists(&identifier));

    // should have the correct value
    assert_eq!(
        run_state
            .get_local_scope()
            .get_local(&identifier, run_state.get_store())
            .unwrap(),
        value
    );

    assert_eq!(
        run_state.eval("(set x 5) (+ x x)", &Floats).unwrap(),
        Value::Integer(5 + 5)
    );
}

#[test]
fn if_tests() {
    assert!(run("(if)").is_err());
    assert!(run("(if true)").is_err());
    assert!(run("(if false)").is_err());
    assert!(run("(if 5)").is_err());
    assert!(run("(if 5 5)").is_err());

    assert_eq!(run("(if false 5)").unwrap(), Value::Null);
    assert_eq!(run("(if true 5)").unwrap(), Value::Integer(5));

    assert_eq!(run("(if true 5 6)").unwrap(), Value::Integer(5));
    assert_eq!(run("(if false 5 6)").unwrap(), Value::Integer(6));
    assert_eq!(run("(if true 5 else 6)").unwrap(), Value::Integer(5));
    assert_eq!(run("(if false 5 else 6)").unwrap(), Value::Integer(6));

    assert_eq!(run("(if false 5 elif false 6 else 7)").unwrap(), Value::Integer(7));
    assert_eq!(run("(if false 5 elif true 6 else 7)").unwrap(), Value::Integer(6));
    assert_eq!(run("(if true 5 elif false 6 else 7)").unwrap(), Value::Integer(5));
    assert_eq!(run("(if true 5 elif true 6 else 7)").unwrap(), Value::Integer(5));

    assert_eq!(
        run("(if false 5 elif false 6 elif false 7 else 8)").unwrap(),
        Value::Integer(8)
    );
    assert_eq!(
        run("(if false 5 elif false 6 elif true 7 else 8)").unwrap(),
        Value::Integer(7)
    );
    assert_eq!(
        run("(if false 5 elif true 6 elif false 7 else 8)").unwrap(),
        Value::Integer(6)
    );
    assert_eq!(
        run("(if false 5 elif true 6 elif true 7 else 8)").unwrap(),
        Value::Integer(6)
    );
    assert_eq!(
        run("(if true 5 elif false 6 elif false 7 else 8)").unwrap(),
        Value::Integer(5)
    );
    assert_eq!(
        run("(if true 5 elif false 6 elif true 7 else 8)").unwrap(),
        Value::Integer(5)
    );
    assert_eq!(
        run("(if true 5 elif true 6 elif false 7 else 8)").unwrap(),
        Value::Integer(5)
    );
    assert_eq!(
        run("(if true 5 elif true 6 elif true 7 else 8)").unwrap(),
        Value::Integer(5)
    );
}

#[test]
fn times_tests() {
    let source = r#"
        (set x 0)
        (times 5 (set x (+ x 1)))
        x
    "#;

    assert_eq!(run(source).unwrap(), Value::Integer(5));
}

#[test]
fn variable_list_tests() {
    assert_eq!(run("(list)").unwrap(), Value::List(Vec::new()));
    assert_eq!(run("(list 5)").unwrap(), Value::List(vec![Value::Integer(5)]));
    assert_eq!(
        run("(list 5 1)").unwrap(),
        Value::List(vec![Value::Integer(5), Value::Integer(1)])
    );
    assert_eq!(
        run("(list 5 \"asdf\")").unwrap(),
        Value::List(vec![Value::Integer(5), text("asdf")])
    );
}

#[test]
fn addition_tests() {
    assert_eq!(run("(+ 1 1)").unwrap(), Value::Integer(1 + 1));
    assert_eq!(run("(+ 1 2)").unwrap(), Value::Integer(1 + 2));
    assert_eq!(run("(+ 1 2 3)").unwrap(), Value::Integer(1 + 2 + 3));
    assert_eq!(run("(+ 1 (+ 2 3))").unwrap(), Value::Integer(1 + (2 + 3)));
}

#[test]
fn subtraction_tests() {
    assert_eq!(run("(- 3 2)").unwrap(), Value::Integer(3 - 2));
    assert_eq!(run("(- 2 3)").unwrap(), Value::Integer(2 - 3));
    assert_eq!(run("(- 1 2 3)").unwrap(), Value::Integer(1 - 2 - 3));
}

#[test]
fn multiplication_tests() {
    assert_eq!(run("(* 1 1)").unwrap(), Value::Integer(1 * 1));
    assert_eq!(run("(* 1 2)").unwrap(), Value::Integer(1 * 2));
    assert_eq!(run("(* 1 2 3)").unwrap(), Value::Integer(1 * 2 * 3));
    assert_eq!(run("(* 100 100)").unwrap(), Value::Integer(100 * 100));
}

#[test]
fn division_tests() {
    assert_eq!(run("(/ 3 2)").unwrap(), Value::Integer(3 / 2));
    assert_eq!(run("(/ 2 3)").unwrap(), Value::Integer(2 / 3));
    assert_eq!(run("(/ 1 2 3)").unwrap(), Value::Integer(1 / 2 / 3));
}

#[test]
fn basic_maths_eval_tests() {
    assert_eq!(run("(+ 1 1)").unwrap(), Value::Integer(1 + 1));
    assert_eq!(run("(+ 1 2)").unwrap(), Value::Integer(1 + 2));
    assert_eq!(run("(+ 1 2 3)").unwrap(), Value::Integer(1 + 2 + 3));
    assert_eq!(run("(+ 1 (+ 2 3))").unwrap(), Value::Integer(1 + (2 + 3)));
    assert_eq!(run("(- 3 2)").unwrap(), Value::Integer(3 - 2));
    assert_eq!(run("(- 2 3)").unwrap(), Value::Integer(2 - 3));
    assert_eq!(run("(- 1 2 3)").unwrap(), Value::Integer(1 - 2 - 3));
    assert_eq!(run("(* 1 1)").unwrap(), Value::Integer(1 * 1));
    assert_eq!(run("(* 1 2)").unwrap(), Value::Integer(1 * 2));
    assert_eq!(run("(* 1 2 3)").unwrap(), Value::Integer(1 * 2 * 3));
    assert_eq!(run("(* 100 100)").unwrap(), Value::Integer(100 * 100));
    assert_eq!(run("(/ 3 2)").unwrap(), Value::Integer(3 / 2));
    assert_eq!(run("(/ 2 3)").unwrap(), Value::Integer(2 / 3));
    assert_eq!(run("(/ 1 2 3)").unwrap(), Value::Integer(1 / 2 / 3));
}

#[test]
fn format_basic_tests() {
    assert_eq!(run("(format ())").unwrap(), text("()"));
    assert_eq!(run("(format true)").unwrap(), text("true"));
    assert_eq!(run("(format false)").unwrap(), text("false"));
    assert_eq!(run("(format 1)").unwrap(), text("1"));
    assert_eq!(run("(format 2)").unwrap(), text("2"));
    assert_eq!(run("(format 1.5)").unwrap(), text("1.5"));
    assert_eq!(run("(format 1.0)").unwrap(), text("1.0"));
    assert_eq!(run("(format 2.0)").unwrap(), text("2.0"));
    assert_eq!(run("(format \"asdf\")").unwrap(), text("asdf"));
    assert_eq!(run("(format \"fdsa\")").unwrap(), text("fdsa"));
    assert_eq!(run("(format (list 1 2 3)").unwrap(), text("(list 1 2 3)"));
}

#[test]
fn format_combined_tests() {
    assert_eq!(run("(format 1 2)").unwrap(), text("12"));
    assert_eq!(run("(format 1 \" \" 2)").unwrap(), text("1 2"));
    assert_eq!(run("(const msg \"asdf\") (format msg)").unwrap(), text("asdf"));
}

#[test]
fn structure_definition_syntax() {
    assert!(run("(def-struct)").is_err());
    assert!(run("(def-struct none)").is_ok());
    assert!(run("(def-struct vec1d x)").is_ok());
    assert!(run("(def-struct vec2d x y)").is_ok());
    assert!(run("(def-struct vec3d x y z)").is_ok());
}

fn member(instance: &StructureInstance, name: &str, run_state: &RunState) -> Option<Value> {
    instance.get_member(&name.to_string(), run_state.get_store())
}

#[test]
fn structure_standard_usage() {
    let mut vec2d_template = StructureTemplate::new();
    vec2d_template.add_member(&"x".to_string()).unwrap();
    vec2d_template.add_member(&"y".to_string()).unwrap();
    let mut store = VariableStore::new();
    let vec2d = StructureInstance::from_template(&vec2d_template, &mut store);

    assert_eq!(run("(def-struct vec2d x y)").unwrap(), Value::default());

    // an instance has the template's members, each Null
    let mut run_state = RunState::new();
    match run_state.eval("(def-struct vec2d x y) (vec2d)", &Floats).unwrap() {
        Value::Structure(instance) => {
            assert_eq!(instance.names, vec2d.names);
            assert_eq!(member(&instance, "x", &run_state), Some(Value::Null));
            assert_eq!(member(&instance, "y", &run_state), Some(Value::Null));
        }
        other => panic!("expected a structure, got {:?}", other),
    }

    assert!(run("(def-struct vec2d x y) (set v (vec2d)) (set-member v z 2)").is_err());

    assert_eq!(
        run("(def-struct vec2d x y) (set v (vec2d)) (set-member v x 2) (get-member v x)").unwrap(),
        Value::Integer(2)
    );
    assert_eq!(
        run("(def-struct vec2d x y) (set v (vec2d)) (set-member v y 3) (get-member v y)").unwrap(),
        Value::Integer(3)
    );
    assert_eq!(
        run("(def-struct vec2d x y) (set v (vec2d)) (set-member v x 2) (set-member v y 3) (get-member v x)").unwrap(),
        Value::Integer(2)
    );
    assert_eq!(
        run("(def-struct vec2d x y) (set v (vec2d)) (set-member v x 2) (set-member v y 3) (get-member v y)").unwrap(),
        Value::Integer(3)
    );
}

#[test]
fn over_nested_groups_around_a_binding() {
    let mut run_state = RunState::new();
    run_state.expose("x", Value::Integer(5)).unwrap();
    assert_eq!(run_state.eval("x", &Floats).unwrap(), Value::Integer(5));
    assert_eq!(run_state.eval("(x)", &Floats).unwrap(), Value::Integer(5));
    assert_eq!(run_state.eval("((x))", &Floats).unwrap(), Value::Integer(5));
    assert_eq!(run_state.eval("((x)))", &Floats).unwrap(), Value::Integer(5));
    assert_eq!(run_state.eval("(((x", &Floats).unwrap(), Value::Integer(5));
}

#[test]
fn empty_group_is_null() {
    assert_eq!(run("()").unwrap(), Value::Null);
    assert_eq!(run("").unwrap(), Value::Null);
}

#[test]
fn forms_run_left_to_right() {
    assert_eq!(run("(const msg \"a\") (format msg)").unwrap(), text("a"));
    assert_eq!(run("(set x 1) (set x (+ x 1)) (set x (* x 10)) x").unwrap(), Value::Integer(20));
}

#[test]
fn accumulation_seeds_and_operand_types() {
    // single operands
    assert_eq!(run("(+ 7)").unwrap(), Value::Integer(7));
    assert_eq!(run("(+ \"a\")").unwrap(), text("a"));
    assert_eq!(run("(- 7)").unwrap(), Value::Integer(-7));
    assert_eq!(run("(* 7)").unwrap(), Value::Integer(7));
    assert_eq!(run("(+)").unwrap(), Value::Null);
    // an integer seed keeps the result an integer, truncating floats
    assert_eq!(run("(+ 1.5 2)").unwrap(), Value::Integer(3));
    assert_eq!(run("(+ 1 2.9)").unwrap(), Value::Integer(3));
    assert_eq!(run("(* 2 2.5)").unwrap(), Value::Integer(4));
    assert_eq!(run("(- 10 2.5)").unwrap(), Value::Integer(8));
    // a float first operand keeps subtraction and division in floats
    assert_eq!(run("(- 10.5 2)").unwrap(), float(8.5));
    assert_eq!(run("(/ 7.0 2)").unwrap(), float(3.5));
    assert_eq!(run("(- 1.5)").unwrap(), float(-1.5));
    // left to right
    assert_eq!(run("(- 20 5 3)").unwrap(), Value::Integer(12));
    assert_eq!(run("(/ 100 5 2)").unwrap(), Value::Integer(10));
    assert_eq!(run("(/ -7 2)").unwrap(), Value::Integer(-3));
}

#[test]
fn arithmetic_errors() {
    assert!(run("(+ 1 \"a\")").is_err());
    assert!(run("(/ 1 0)").is_err());
    assert!(run("(+ 9223372036854775807 1)").is_err());
    assert!(run("(- -9223372036854775808)").is_err());
    assert!(run("(* 4611686018427387904 2)").is_err());
}

#[test]
fn const_bindings() {
    assert!(run("(const a 1) (const a 2)").is_err());
    assert!(run("(const a 1) (set a 2)").is_err());
    assert_eq!(run("(set a 1) (set a 2) (set a 3) a").unwrap(), Value::Integer(3));
    let mut run_state = RunState::new();
    run_state.eval("(set a 1)", &Floats).unwrap();
    assert_eq!(run_state.eval("a", &Floats).unwrap(), Value::Integer(1));
    run_state.eval("(set a 2)", &Floats).unwrap();
    assert_eq!(run_state.eval("a", &Floats).unwrap(), Value::Integer(2));
    assert!(run_state.eval("(const a 3)", &Floats).is_err());
    assert_eq!(run_state.eval("a", &Floats).unwrap(), Value::Integer(2));
}

#[test]
fn record_members() {
    assert_eq!(
        run("(def-struct p x y) (set v (p)) (set-member v x 2) (get-member v x)").unwrap(),
        Value::Integer(2)
    );
    assert!(run("(def-struct p x y) (set v (p)) (set-member v z 1)").is_err());
    assert!(run("(def-struct p x x)").is_err());
    assert!(run("(def-struct p x) (set v 1) (get-member v x)").is_err());
    assert!(run("(get-member nothing x)").is_err());
}

#[test]
fn record_instances_are_independent() {
    assert_eq!(
        run("(def-struct p x) (set a (p)) (set b (p)) (set-member a x 1) (set-member b x 2) (get-member a x)")
            .unwrap(),
        Value::Integer(1)
    );
    assert_eq!(
        run("(def-struct p x) (set a (p)) (set b (p)) (set-member a x 1) (get-member b x)").unwrap(),
        Value::Null
    );
    // a copied instance shares its members
    assert_eq!(
        run("(def-struct p x) (set a (p)) (set b a) (set-member b x 7) (get-member a x)").unwrap(),
        Value::Integer(7)
    );
}

#[test]
fn identifier_resolution_order() {
    // a template is preferred over a variable of the same name
    let mut run_state = RunState::new();
    run_state.eval("(set p 1) (def-struct p x)", &Floats).unwrap();
    assert!(matches!(run_state.eval("p", &Floats).unwrap(), Value::Structure(_)));
    // a binding named true shadows the literal
    assert_eq!(run("(set true 5) true").unwrap(), Value::Integer(5));
    assert!(run("nothing").is_err());
    assert!(run("(5 1)").is_err());
    assert!(run("(set y 3) (y 1)").is_err());
}

#[test]
fn callables_evaluate_and_compare_by_identity() {
    assert_eq!(run("+").unwrap(), Value::Null);
    assert_eq!(run("list").unwrap(), Value::List(Vec::new()));
    let mut run_state = RunState::new();
    run_state.expose_function("sum", NativeFunction::Add).unwrap();
    assert_eq!(run_state.eval("(sum 2 3)", &Floats).unwrap(), Value::Integer(5));
    assert_eq!(Value::NativeFunction(NativeFunction::Add), Value::NativeFunction(NativeFunction::Add));
    assert_ne!(Value::NativeFunction(NativeFunction::Add), Value::NativeFunction(NativeFunction::Sub));
}

#[test]
fn throw_and_print() {
    match run("(throw \"bad \" 1)") {
        Err(EvalError::RuntimeError(error)) => {
            assert_eq!(error.get_message(), "bad 1");
            assert!(error.token.is_some());
        }
        other => panic!("expected a runtime error, got {:?}", other),
    }
    let mut run_state = RunState::new();
    run_state.eval("(print 1 \" \" 2) (println \"x\")", &Floats).unwrap();
    assert_eq!(run_state.output, "1 2x\n");
    assert!(matches!(run("\"\\q\""), Err(EvalError::TokeniserError(_))));
}

#[test]
fn list_rendering() {
    assert_eq!(run("(format (list))").unwrap(), text("(list )"));
    assert_eq!(run("(format (list 1 (list 2 \"a\")))").unwrap(), text("(list 1 (list 2 a))"));
    assert_eq!(run("(format -12)").unwrap(), text("-12"));
}

#[test]
fn host_functions_and_macros() {
    let mut run_state = RunState::new();
    run_state.expose_function("count", NativeFunction::Host(0)).unwrap();
    run_state.expose_macro("twice", NativeMacro::Host(0)).unwrap();
    assert_eq!(run_state.eval("(count 1 2 3)", &Floats).unwrap(), Value::Integer(3));
    assert_eq!(
        run_state.eval("(set n 0) (twice (set n (+ n 1))) n", &Floats).unwrap(),
        Value::Integer(2)
    );
    run_state.expose_function("missing", NativeFunction::Host(9)).unwrap();
    match run_state.eval("(missing)", &Floats) {
        Err(EvalError::RuntimeError(error)) => assert!(error.token.is_some()),
        other => panic!("expected a runtime error, got {:?}", other),
    }
}

#[test]
fn const_cells_refuse_writes() {
    let mut store = VariableStore::new();
    let fixed = ryol::variable::Variable::new_const(&mut store, Value::Integer(1));
    let free = ryol::variable::Variable::new(&mut store, Value::Integer(1));
    assert!(fixed.set(&mut store, Value::Integer(2)).is_err());
    assert_eq!(fixed.get(&store), Value::Integer(1));
    assert!(free.set(&mut store, Value::Integer(2)).is_ok());
    assert_eq!(free.get(&store), Value::Integer(2));
}

#[test]
fn several_pairs_and_macro_items() {
    assert_eq!(run("(set x 1 y 2) (+ x y)").unwrap(), Value::Integer(3));
    // the first pair is bound before the missing value is found
    let mut run_state = RunState::new();
    assert!(run_state.eval("(set x 1 y)", &Floats).is_err());
    assert_eq!(run_state.eval("x", &Floats).unwrap(), Value::Integer(1));
    // a macro form as an if body
    assert_eq!(run("(if true (set z 4) else 0) z").unwrap(), Value::Integer(4));
    // a failing form stops the rest of the group
    let mut run_state = RunState::new();
    assert!(run_state.eval("(set a 1) (nothing) (set a 2)", &Floats).is_err());
    assert_eq!(run_state.eval("a", &Floats).unwrap(), Value::Integer(1));
}
