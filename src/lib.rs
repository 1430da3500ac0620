//! An embeddable, parenthesised expression language: a lexer, a tree
//! builder, a tree-walking evaluator and the scope, variable and record
//! model that the evaluator runs against.
//!
//! The embedding program supplies floating-point work through
//! [`value::Host`]; everything else is done here. Printing appends to
//! the environment's `output`, which the embedding program shows.

pub mod cmd_options;
pub mod error;
pub mod node;
pub mod parser;
pub mod run_state;
pub mod stdlib;
pub mod structure;
pub mod text;
pub mod tokeniser;
pub mod value;
pub mod variable;

use error::EvalError;
use run_state::RunState;
use value::{Host, Value};
use vstd::prelude::*;

verus! {

/// Evaluates `source` in a fresh environment that holds the standard
/// vocabulary.
pub fn eval<F: Host>(source: &str, floats: &F) -> (r: Result<Value, EvalError>)
    requires
        source@.len() < usize::MAX,
    ensures
        tokeniser::lex(source@) is Err ==> r is Err && r->Err_0 is TokeniserError,
        tokeniser::lex(source@) is Err ==> r->Err_0->TokeniserError_0.line() == tokeniser::lex(source@)->Err_0.0
            && r->Err_0->TokeniserError_0.col() == tokeniser::lex(source@)->Err_0.1,
        tokeniser::lex(source@) is Ok ==> !(r is Err && r->Err_0 is TokeniserError),
        tokeniser::lex(source@) is Ok ==> !(r is Err && r->Err_0 is ParserError),
        forall|rs: RunState|
            run_state::standard_environment(&rs) && tokeniser::lex(source@) is Ok && node::pure_value(
                parser::parse_from(tokeniser::lex(source@)->Ok_0, 0).0,
                &rs,
            ) is Some ==> r is Ok && r->Ok_0@ == node::pure_value(
                parser::parse_from(tokeniser::lex(source@)->Ok_0, 0).0,
                &rs,
            )->0,
        tokeniser::lex(source@) is Ok ==> exists|rs: RunState, after: RunState, tree: node::Node|
            run_state::standard_environment(&rs) && node::node_view(&tree) == parser::parse_from(
                tokeniser::lex(source@)->Ok_0,
                0,
            ).0 && #[trigger] node::evaluation(&tree, rs, after, run_state::eval_value(r)),
{
    let mut run_state = RunState::new();
    let ghost fresh = run_state;
    let r = run_state.eval(source, floats);
    proof {
        assert forall|rs: RunState|
            run_state::standard_environment(&rs) && tokeniser::lex(source@) is Ok
                implies node::pure_value(parser::parse_from(tokeniser::lex(source@)->Ok_0, 0).0, &rs)
                == node::pure_value(parser::parse_from(tokeniser::lex(source@)->Ok_0, 0).0, &fresh) by {
            node::lemma_standard_environments_agree(&rs, &fresh);
            node::lemma_pure_value_same_bindings(parser::parse_from(tokeniser::lex(source@)->Ok_0, 0).0, &rs, &fresh);
        }
    }
    r
}

} // verus!
