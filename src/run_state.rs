//! Scopes and the environment: named variables and record templates.

use crate::error::{Error, EvalError};
use crate::node::{evaluation, node_view, pure_value, Node};
use crate::parser::{parse, parse_from};
use crate::tokeniser::{lex, tokenise};
use crate::structure::{find_name, lemma_first_position, names, position_in, StructureTemplate};
use crate::text::push_string;
use crate::value::{Host, NativeFunction, NativeMacro, Value};
use crate::variable::{Variable, VariableInstance, VariableStore};
use vstd::prelude::*;
use vstd::string::StringExecFns;

verus! {

/// One scope: variables by name and record templates by name.
#[derive(Debug)]
pub struct Scope {
    pub local_names: Vec<String>,
    pub locals: Vec<Variable>,
    pub template_names: Vec<String>,
    pub templates: Vec<StructureTemplate>,
}

/// `set_const` can bind `id`: the scope does not bind it yet.
pub open spec fn can_declare_const(scope: &Scope, id: Seq<char>) -> bool {
    scope.local(id) is None
}

/// `set_local` can bind `id`: it is unbound, or bound to a writable variable.
pub open spec fn can_assign(scope: &Scope, store: &VariableStore, id: Seq<char>) -> bool {
    match scope.local(id) {
        Some(v) => !store.const_of(v),
        None => true,
    }
}

impl Scope {
    pub open spec fn wf(&self) -> bool {
        &&& self.local_names@.len() == self.locals@.len()
        &&& self.template_names@.len() == self.templates@.len()
        &&& forall|i: int| 0 <= i < self.templates@.len() ==> (#[trigger] self.templates@[i]).wf()
    }

    /// Every variable of the scope is a cell of `store`.
    pub open spec fn lives_in(&self, store: &VariableStore) -> bool {
        forall|i: int| 0 <= i < self.locals@.len() ==> store.holds(#[trigger] self.locals@[i])
    }

    /// The variable bound to `id` in this scope.
    pub open spec fn local(&self, id: Seq<char>) -> Option<Variable> {
        match position_in(names(self.local_names@), id) {
            Some(i) => Some(self.locals@[i]),
            None => None,
        }
    }

    /// The member names of the template bound to `id` in this scope.
    pub open spec fn template(&self, id: Seq<char>) -> Option<Seq<Seq<char>>> {
        match position_in(names(self.template_names@), id) {
            Some(i) => Some(self.templates@[i]@),
            None => None,
        }
    }

    pub fn new() -> (r: Self)
        ensures
            r.wf(),
            r.locals@.len() == 0,
            forall|id: Seq<char>| r.local(id) is None && r.template(id) is None,
    {
        Self {
            local_names: Vec::new(),
            locals: Vec::new(),
            template_names: Vec::new(),
            templates: Vec::new(),
        }
    }

    fn find_local_index(&self, identifier: &String) -> (r: Option<usize>)
        requires
            self.wf(),
        ensures
            match self.local(identifier@) {
                Some(v) => r is Some && r->0 < self.locals@.len() && self.locals@[r->0 as int] == v,
                None => r is None,
            },
    {
        proof {
            crate::structure::lemma_position_in(names(self.local_names@), identifier@);
        }
        match find_name(&self.local_names, identifier) {
            Some(i) => {
                proof {
                    lemma_first_position(names(self.local_names@), identifier@, i as int);
                }
                Some(i)
            },
            None => None,
        }
    }

    pub fn local_exists(&self, identifier: &String) -> (r: bool)
        requires
            self.wf(),
        ensures
            r == self.local(identifier@) is Some,
    {
        self.find_local_index(identifier).is_some()
    }

    /// The variable bound to `identifier`, if any.
    pub fn get_variable(&self, identifier: &String) -> (r: Option<Variable>)
        requires
            self.wf(),
        ensures
            r == self.local(identifier@),
    {
        match self.find_local_index(identifier) {
            Some(i) => Some(self.locals[i]),
            None => None,
        }
    }

    /// A copy of the value bound to `identifier`, if any.
    pub fn get_local(&self, identifier: &String, store: &VariableStore) -> (r: Option<Value>)
        requires
            self.wf(),
            self.lives_in(store),
        ensures
            match self.local(identifier@) {
                Some(v) => r is Some && r->0@ == store.value_of(v)@,
                None => r is None,
            },
    {
        match self.find_local_index(identifier) {
            Some(i) => Some(self.locals[i].get(store)),
            None => None,
        }
    }

    fn bind(&mut self, identifier: &String, variable: Variable)
        requires
            old(self).wf(),
            old(self).local(identifier@) is None,
        ensures
            final(self).wf(),
            final(self).local(identifier@) == Some(variable),
            forall|id: Seq<char>| id != identifier@ ==> final(self).local(id) == old(self).local(id),
            final(self).locals@ == old(self).locals@.push(variable),
            final(self).template_names == old(self).template_names,
            final(self).templates == old(self).templates,
    {
        let ghost old_names = names(self.local_names@);
        proof {
            crate::structure::lemma_position_in(old_names, identifier@);
        }
        self.local_names.push(identifier.clone());
        self.locals.push(variable);
        proof {
            let nn = names(self.local_names@);
            assert(nn.drop_last() =~= old_names);
            assert(nn.last() == identifier@);
            assert forall|id: Seq<char>| id != identifier@ implies self.local(id) == old(self).local(
                id,
            ) by {
                crate::structure::lemma_position_in(old_names, id);
            }
        }
    }

    /// Declares a const binding; fails if `identifier` is already bound in
    /// this scope, const or not.
    pub fn set_const(&mut self, identifier: &String, value: Value, store: &mut VariableStore) -> (r: Result<(), Error>)
        requires
            old(self).wf(),
            old(self).lives_in(old(store)),
        ensures
            final(self).wf(),
            final(self).lives_in(final(store)),
            r is Ok == can_declare_const(old(self), identifier@),
            match old(self).local(identifier@) {
                Some(_) => r is Err && *final(self) == *old(self) && *final(store) == *old(store),
                None => r is Ok && final(self).local(identifier@) == Some(
                    Variable { index: old(store).cells@.len() as usize },
                ) && VariableStore::grew(
                    old(store),
                    final(store),
                    (VariableInstance { value, is_const: true }),
                ) && forall|id: Seq<char>|
                    id != identifier@ ==> final(self).local(id) == old(self).local(id),
            },
            final(self).template_names == old(self).template_names,
            final(self).templates == old(self).templates,
            final(store).cells@.len() >= old(store).cells@.len(),
    {
        if self.local_exists(identifier) {
            let mut message = String::from_str("can not set const: \"");
            push_string(&mut message, identifier);
            push_string(&mut message, &String::from_str("\" as it is already defined"));
            return Err(Error::new(message, None));
        }
        let variable = Variable::new_const(store, value);
        self.bind(identifier, variable);
        proof {
            assert forall|i: int| 0 <= i < self.locals@.len() implies store.holds(
                #[trigger] self.locals@[i],
            ) by {
                if i < old(self).locals@.len() {
                    assert(old(store).holds(old(self).locals@[i]));
                }
            }
        }
        Ok(())
    }

    /// Declares or updates a binding: a new binding is writable; an
    /// existing writable one is updated in place, so every holder of its
    /// variable sees the new value; an existing const one is an error.
    pub fn set_local(&mut self, identifier: &String, value: Value, store: &mut VariableStore) -> (r: Result<(), Error>)
        requires
            old(self).wf(),
            old(self).lives_in(old(store)),
        ensures
            final(self).wf(),
            final(self).lives_in(final(store)),
            r is Ok == can_assign(old(self), old(store), identifier@),
            match old(self).local(identifier@) {
                Some(v) => if old(store).const_of(v) {
                    r is Err && *final(self) == *old(self) && *final(store) == *old(store)
                } else {
                    r is Ok && *final(self) == *old(self) && VariableStore::wrote(
                        old(store),
                        final(store),
                        v,
                        value,
                    )
                },
                None => r is Ok && final(self).local(identifier@) == Some(
                    Variable { index: old(store).cells@.len() as usize },
                ) && VariableStore::grew(
                    old(store),
                    final(store),
                    (VariableInstance { value, is_const: false }),
                ) && forall|id: Seq<char>|
                    id != identifier@ ==> final(self).local(id) == old(self).local(id),
            },
            final(self).template_names == old(self).template_names,
            final(self).templates == old(self).templates,
            final(store).cells@.len() >= old(store).cells@.len(),
    {
        match self.find_local_index(identifier) {
            Some(i) => {
                let variable = self.locals[i];
                if variable.is_const(store) {
                    let mut message = String::from_str("variable: \"");
                    push_string(&mut message, identifier);
                    push_string(&mut message, &String::from_str("\" is const"));
                    Err(Error::new(message, None))
                } else {
                    let _ = variable.set(store, value);
                    Ok(())
                }
            },
            None => {
                let variable = Variable::new(store, value);
                self.bind(identifier, variable);
                proof {
                    assert forall|i: int| 0 <= i < self.locals@.len() implies store.holds(
                        #[trigger] self.locals@[i],
                    ) by {
                        if i < old(self).locals@.len() {
                            assert(old(store).holds(old(self).locals@[i]));
                        }
                    }
                }
                Ok(())
            },
        }
    }

    fn find_template_index(&self, identifier: &String) -> (r: Option<usize>)
        requires
            self.wf(),
        ensures
            match position_in(names(self.template_names@), identifier@) {
                Some(i) => r is Some && r->0 as int == i && i < self.templates@.len(),
                None => r is None,
            },
    {
        proof {
            crate::structure::lemma_position_in(names(self.template_names@), identifier@);
        }
        match find_name(&self.template_names, identifier) {
            Some(i) => {
                proof {
                    lemma_first_position(names(self.template_names@), identifier@, i as int);
                }
                Some(i)
            },
            None => None,
        }
    }

    /// Binds a record template, replacing any of the same name.
    pub fn set_structure_template(&mut self, identifier: &String, structure_template: StructureTemplate)
        requires
            old(self).wf(),
            structure_template.wf(),
        ensures
            final(self).wf(),
            final(self).template(identifier@) == Some(structure_template@),
            forall|id: Seq<char>| id != identifier@ ==> final(self).template(id) == old(self).template(id),
            final(self).local_names == old(self).local_names,
            final(self).locals == old(self).locals,
    {
        let ghost old_names = names(self.template_names@);
        proof {
            crate::structure::lemma_position_in(old_names, identifier@);
        }
        match self.find_template_index(identifier) {
            Some(i) => {
                self.templates.set(i, structure_template);
                proof {
                    assert(names(self.template_names@) == old_names);
                    assert forall|id: Seq<char>| id != identifier@ implies self.template(id) == old(self).template(id) by {
                        crate::structure::lemma_position_in(old_names, id);
                    }
                }
            },
            None => {
                self.template_names.push(identifier.clone());
                self.templates.push(structure_template);
                proof {
                    let nn = names(self.template_names@);
                    assert(nn.drop_last() =~= old_names);
                    assert(nn.last() == identifier@);
                    assert forall|id: Seq<char>| id != identifier@ implies self.template(id) == old(self).template(id) by {
                        crate::structure::lemma_position_in(old_names, id);
                        assert(nn.last() != id);
                        assert(position_in(nn, id) == position_in(old_names, id));
                    }
                }
            },
        }
    }

    pub fn structure_template_exists(&self, identifier: &String) -> (r: bool)
        requires
            self.wf(),
        ensures
            r == self.template(identifier@) is Some,
    {
        self.find_template_index(identifier).is_some()
    }

    pub fn get_structure_template(&self, identifier: &String) -> (r: Option<&StructureTemplate>)
        requires
            self.wf(),
        ensures
            match self.template(identifier@) {
                Some(t) => r is Some && r->0@ == t && r->0.wf(),
                None => r is None,
            },
    {
        match self.find_template_index(identifier) {
            Some(i) => Some(&self.templates[i]),
            None => None,
        }
    }
}

} // verus!

verus! {

pub open spec fn word_const() -> Seq<char> {
    seq!['c', 'o', 'n', 's', 't']
}

pub open spec fn word_set() -> Seq<char> {
    seq!['s', 'e', 't']
}

pub open spec fn word_if() -> Seq<char> {
    seq!['i', 'f']
}

pub open spec fn word_times() -> Seq<char> {
    seq!['t', 'i', 'm', 'e', 's']
}

pub open spec fn word_list() -> Seq<char> {
    seq!['l', 'i', 's', 't']
}

pub open spec fn word_plus() -> Seq<char> {
    seq!['+']
}

pub open spec fn word_minus() -> Seq<char> {
    seq!['-']
}

pub open spec fn word_times_sign() -> Seq<char> {
    seq!['*']
}

pub open spec fn word_slash() -> Seq<char> {
    seq!['/']
}

pub open spec fn word_multiplication_sign() -> Seq<char> {
    seq!['×']
}

pub open spec fn word_division_sign() -> Seq<char> {
    seq!['÷']
}

pub open spec fn word_print() -> Seq<char> {
    seq!['p', 'r', 'i', 'n', 't']
}

pub open spec fn word_println() -> Seq<char> {
    seq!['p', 'r', 'i', 'n', 't', 'l', 'n']
}

pub open spec fn word_throw() -> Seq<char> {
    seq!['t', 'h', 'r', 'o', 'w']
}

pub open spec fn word_format() -> Seq<char> {
    seq!['f', 'o', 'r', 'm', 'a', 't']
}

pub open spec fn word_def_struct() -> Seq<char> {
    seq!['d', 'e', 'f', '-', 's', 't', 'r', 'u', 'c', 't']
}

pub open spec fn word_get_member() -> Seq<char> {
    seq!['g', 'e', 't', '-', 'm', 'e', 'm', 'b', 'e', 'r']
}

pub open spec fn word_set_member() -> Seq<char> {
    seq!['s', 'e', 't', '-', 'm', 'e', 'm', 'b', 'e', 'r']
}

proof fn lemma_prefix_trans(a: Seq<VariableInstance>, b: Seq<VariableInstance>, c: Seq<VariableInstance>)
    requires
        a.len() <= b.len() <= c.len(),
        b.subrange(0, a.len() as int) == a,
        c.subrange(0, b.len() as int) == b,
    ensures
        c.subrange(0, a.len() as int) == a,
{
    assert(c.subrange(0, a.len() as int) =~= b.subrange(0, a.len() as int));
}

/// Binds the control macros: `const`, `set`, `if` and `times`.
pub fn add_basic_lib(run_state: &mut RunState) -> (r: Result<(), Error>)
    requires
        old(run_state).wf(),
    ensures
        final(run_state).wf(),
        final(run_state).scopes@.len() == old(run_state).scopes@.len(),
        final(run_state).output == old(run_state).output,
        forall|id: Seq<char>| final(run_state).scopes@[0].template(id) == old(run_state).scopes@[0].template(id),
        (old(run_state).scopes@[0].local(word_const()) is None && old(run_state).scopes@[0].local(word_set()) is None && old(run_state).scopes@[0].local(word_if()) is None && old(run_state).scopes@[0].local(word_times()) is None) ==> (r is Ok
            && global_value(final(run_state), word_const()) == Some(Value::NativeMacro(NativeMacro::Const))
            && global_value(final(run_state), word_set()) == Some(Value::NativeMacro(NativeMacro::Assign))
            && global_value(final(run_state), word_if()) == Some(Value::NativeMacro(NativeMacro::If))
            && global_value(final(run_state), word_times()) == Some(Value::NativeMacro(NativeMacro::Times))
            && (forall|id: Seq<char>| id != word_const() && id != word_set() && id != word_if() && id != word_times() ==> final(run_state).scopes@[0].local(id) == old(run_state).scopes@[0].local(id))
            && final(run_state).store.cells@.len() >= old(run_state).store.cells@.len()
            && final(run_state).store.cells@.subrange(0, old(run_state).store.cells@.len() as int) == old(run_state).store.cells@),
{
    proof {
        reveal_strlit("const");
        assert("const"@ =~= word_const());
        reveal_strlit("set");
        assert("set"@ =~= word_set());
        reveal_strlit("if");
        assert("if"@ =~= word_if());
        reveal_strlit("times");
        assert("times"@ =~= word_times());
        assert(word_const().len() != word_set().len());
        assert(word_const().len() != word_if().len());
        assert(word_const()[0] != word_times()[0]);
        assert(word_set().len() != word_if().len());
        assert(word_set().len() != word_times().len());
        assert(word_if().len() != word_times().len());
    }
    let ghost s0 = *run_state;
    run_state.expose_macro("const", NativeMacro::Const)?;
    let ghost s1 = *run_state;
    run_state.expose_macro("set", NativeMacro::Assign)?;
    let ghost s2 = *run_state;
    run_state.expose_macro("if", NativeMacro::If)?;
    let ghost s3 = *run_state;
    run_state.expose_macro("times", NativeMacro::Times)?;
    let ghost s4 = *run_state;
    proof {
        if s0.scopes@[0].local(word_const()) is None && s0.scopes@[0].local(word_set()) is None && s0.scopes@[0].local(word_if()) is None && s0.scopes@[0].local(word_times()) is None {
            lemma_prefix_trans(s0.store.cells@, s1.store.cells@, s2.store.cells@);
            lemma_prefix_trans(s0.store.cells@, s2.store.cells@, s3.store.cells@);
            lemma_prefix_trans(s0.store.cells@, s3.store.cells@, s4.store.cells@);
            lemma_prefix_trans(s1.store.cells@, s2.store.cells@, s3.store.cells@);
            lemma_prefix_trans(s1.store.cells@, s3.store.cells@, s4.store.cells@);
            lemma_global_value_kept(&s1, &s4, word_const());
            lemma_prefix_trans(s2.store.cells@, s3.store.cells@, s4.store.cells@);
            lemma_global_value_kept(&s2, &s4, word_set());
            lemma_global_value_kept(&s3, &s4, word_if());
        }
    }
    Ok(())
}

/// Binds `list`.
pub fn add_list_lib(run_state: &mut RunState) -> (r: Result<(), Error>)
    requires
        old(run_state).wf(),
    ensures
        final(run_state).wf(),
        final(run_state).scopes@.len() == old(run_state).scopes@.len(),
        final(run_state).output == old(run_state).output,
        forall|id: Seq<char>| final(run_state).scopes@[0].template(id) == old(run_state).scopes@[0].template(id),
        (old(run_state).scopes@[0].local(word_list()) is None) ==> (r is Ok
            && global_value(final(run_state), word_list()) == Some(Value::NativeFunction(NativeFunction::List))
            && (forall|id: Seq<char>| id != word_list() ==> final(run_state).scopes@[0].local(id) == old(run_state).scopes@[0].local(id))
            && final(run_state).store.cells@.len() >= old(run_state).store.cells@.len()
            && final(run_state).store.cells@.subrange(0, old(run_state).store.cells@.len() as int) == old(run_state).store.cells@),
{
    proof {
        reveal_strlit("list");
        assert("list"@ =~= word_list());
    }
    let ghost s0 = *run_state;
    run_state.expose_function("list", NativeFunction::List)?;
    let ghost s1 = *run_state;
    proof {
        if s0.scopes@[0].local(word_list()) is None {
        }
    }
    Ok(())
}

/// Binds the arithmetic operators `+ - * /`, and `×` and `÷` for `*` and `/`.
pub fn add_maths_lib(run_state: &mut RunState) -> (r: Result<(), Error>)
    requires
        old(run_state).wf(),
    ensures
        final(run_state).wf(),
        final(run_state).scopes@.len() == old(run_state).scopes@.len(),
        final(run_state).output == old(run_state).output,
        forall|id: Seq<char>| final(run_state).scopes@[0].template(id) == old(run_state).scopes@[0].template(id),
        (old(run_state).scopes@[0].local(word_plus()) is None && old(run_state).scopes@[0].local(word_minus()) is None && old(run_state).scopes@[0].local(word_times_sign()) is None && old(run_state).scopes@[0].local(word_slash()) is None && old(run_state).scopes@[0].local(word_multiplication_sign()) is None && old(run_state).scopes@[0].local(word_division_sign()) is None) ==> (r is Ok
            && global_value(final(run_state), word_plus()) == Some(Value::NativeFunction(NativeFunction::Add))
            && global_value(final(run_state), word_minus()) == Some(Value::NativeFunction(NativeFunction::Sub))
            && global_value(final(run_state), word_times_sign()) == Some(Value::NativeFunction(NativeFunction::Mul))
            && global_value(final(run_state), word_slash()) == Some(Value::NativeFunction(NativeFunction::Div))
            && global_value(final(run_state), word_multiplication_sign()) == Some(Value::NativeFunction(NativeFunction::Mul))
            && global_value(final(run_state), word_division_sign()) == Some(Value::NativeFunction(NativeFunction::Div))
            && (forall|id: Seq<char>| id != word_plus() && id != word_minus() && id != word_times_sign() && id != word_slash() && id != word_multiplication_sign() && id != word_division_sign() ==> final(run_state).scopes@[0].local(id) == old(run_state).scopes@[0].local(id))
            && final(run_state).store.cells@.len() >= old(run_state).store.cells@.len()
            && final(run_state).store.cells@.subrange(0, old(run_state).store.cells@.len() as int) == old(run_state).store.cells@),
{
    proof {
        reveal_strlit("+");
        assert("+"@ =~= word_plus());
        reveal_strlit("-");
        assert("-"@ =~= word_minus());
        reveal_strlit("*");
        assert("*"@ =~= word_times_sign());
        reveal_strlit("/");
        assert("/"@ =~= word_slash());
        reveal_strlit("×");
        assert("×"@ =~= word_multiplication_sign());
        reveal_strlit("÷");
        assert("÷"@ =~= word_division_sign());
        assert(word_plus()[0] != word_minus()[0]);
        assert(word_plus()[0] != word_times_sign()[0]);
        assert(word_plus()[0] != word_slash()[0]);
        assert(word_plus()[0] != word_multiplication_sign()[0]);
        assert(word_plus()[0] != word_division_sign()[0]);
        assert(word_minus()[0] != word_times_sign()[0]);
        assert(word_minus()[0] != word_slash()[0]);
        assert(word_minus()[0] != word_multiplication_sign()[0]);
        assert(word_minus()[0] != word_division_sign()[0]);
        assert(word_times_sign()[0] != word_slash()[0]);
        assert(word_times_sign()[0] != word_multiplication_sign()[0]);
        assert(word_times_sign()[0] != word_division_sign()[0]);
        assert(word_slash()[0] != word_multiplication_sign()[0]);
        assert(word_slash()[0] != word_division_sign()[0]);
        assert(word_multiplication_sign()[0] != word_division_sign()[0]);
    }
    let ghost s0 = *run_state;
    run_state.expose_function("+", NativeFunction::Add)?;
    let ghost s1 = *run_state;
    run_state.expose_function("-", NativeFunction::Sub)?;
    let ghost s2 = *run_state;
    run_state.expose_function("*", NativeFunction::Mul)?;
    let ghost s3 = *run_state;
    run_state.expose_function("/", NativeFunction::Div)?;
    let ghost s4 = *run_state;
    run_state.expose_function("×", NativeFunction::Mul)?;
    let ghost s5 = *run_state;
    run_state.expose_function("÷", NativeFunction::Div)?;
    let ghost s6 = *run_state;
    proof {
        if s0.scopes@[0].local(word_plus()) is None && s0.scopes@[0].local(word_minus()) is None && s0.scopes@[0].local(word_times_sign()) is None && s0.scopes@[0].local(word_slash()) is None && s0.scopes@[0].local(word_multiplication_sign()) is None && s0.scopes@[0].local(word_division_sign()) is None {
            lemma_prefix_trans(s0.store.cells@, s1.store.cells@, s2.store.cells@);
            lemma_prefix_trans(s0.store.cells@, s2.store.cells@, s3.store.cells@);
            lemma_prefix_trans(s0.store.cells@, s3.store.cells@, s4.store.cells@);
            lemma_prefix_trans(s0.store.cells@, s4.store.cells@, s5.store.cells@);
            lemma_prefix_trans(s0.store.cells@, s5.store.cells@, s6.store.cells@);
            lemma_prefix_trans(s1.store.cells@, s2.store.cells@, s3.store.cells@);
            lemma_prefix_trans(s1.store.cells@, s3.store.cells@, s4.store.cells@);
            lemma_prefix_trans(s1.store.cells@, s4.store.cells@, s5.store.cells@);
            lemma_prefix_trans(s1.store.cells@, s5.store.cells@, s6.store.cells@);
            lemma_global_value_kept(&s1, &s6, word_plus());
            lemma_prefix_trans(s2.store.cells@, s3.store.cells@, s4.store.cells@);
            lemma_prefix_trans(s2.store.cells@, s4.store.cells@, s5.store.cells@);
            lemma_prefix_trans(s2.store.cells@, s5.store.cells@, s6.store.cells@);
            lemma_global_value_kept(&s2, &s6, word_minus());
            lemma_prefix_trans(s3.store.cells@, s4.store.cells@, s5.store.cells@);
            lemma_prefix_trans(s3.store.cells@, s5.store.cells@, s6.store.cells@);
            lemma_global_value_kept(&s3, &s6, word_times_sign());
            lemma_prefix_trans(s4.store.cells@, s5.store.cells@, s6.store.cells@);
            lemma_global_value_kept(&s4, &s6, word_slash());
            lemma_global_value_kept(&s5, &s6, word_multiplication_sign());
        }
    }
    Ok(())
}

/// Binds `print` and `println`.
pub fn add_print_lib(run_state: &mut RunState) -> (r: Result<(), Error>)
    requires
        old(run_state).wf(),
    ensures
        final(run_state).wf(),
        final(run_state).scopes@.len() == old(run_state).scopes@.len(),
        final(run_state).output == old(run_state).output,
        forall|id: Seq<char>| final(run_state).scopes@[0].template(id) == old(run_state).scopes@[0].template(id),
        (old(run_state).scopes@[0].local(word_print()) is None && old(run_state).scopes@[0].local(word_println()) is None) ==> (r is Ok
            && global_value(final(run_state), word_print()) == Some(Value::NativeFunction(NativeFunction::Print))
            && global_value(final(run_state), word_println()) == Some(Value::NativeFunction(NativeFunction::Println))
            && (forall|id: Seq<char>| id != word_print() && id != word_println() ==> final(run_state).scopes@[0].local(id) == old(run_state).scopes@[0].local(id))
            && final(run_state).store.cells@.len() >= old(run_state).store.cells@.len()
            && final(run_state).store.cells@.subrange(0, old(run_state).store.cells@.len() as int) == old(run_state).store.cells@),
{
    proof {
        reveal_strlit("print");
        assert("print"@ =~= word_print());
        reveal_strlit("println");
        assert("println"@ =~= word_println());
        assert(word_print().len() != word_println().len());
    }
    let ghost s0 = *run_state;
    run_state.expose_function("print", NativeFunction::Print)?;
    let ghost s1 = *run_state;
    run_state.expose_function("println", NativeFunction::Println)?;
    let ghost s2 = *run_state;
    proof {
        if s0.scopes@[0].local(word_print()) is None && s0.scopes@[0].local(word_println()) is None {
            lemma_prefix_trans(s0.store.cells@, s1.store.cells@, s2.store.cells@);
            lemma_global_value_kept(&s1, &s2, word_print());
        }
    }
    Ok(())
}

/// Binds `throw`.
pub fn add_throw_lib(run_state: &mut RunState) -> (r: Result<(), Error>)
    requires
        old(run_state).wf(),
    ensures
        final(run_state).wf(),
        final(run_state).scopes@.len() == old(run_state).scopes@.len(),
        final(run_state).output == old(run_state).output,
        forall|id: Seq<char>| final(run_state).scopes@[0].template(id) == old(run_state).scopes@[0].template(id),
        (old(run_state).scopes@[0].local(word_throw()) is None) ==> (r is Ok
            && global_value(final(run_state), word_throw()) == Some(Value::NativeFunction(NativeFunction::Throw))
            && (forall|id: Seq<char>| id != word_throw() ==> final(run_state).scopes@[0].local(id) == old(run_state).scopes@[0].local(id))
            && final(run_state).store.cells@.len() >= old(run_state).store.cells@.len()
            && final(run_state).store.cells@.subrange(0, old(run_state).store.cells@.len() as int) == old(run_state).store.cells@),
{
    proof {
        reveal_strlit("throw");
        assert("throw"@ =~= word_throw());
    }
    let ghost s0 = *run_state;
    run_state.expose_function("throw", NativeFunction::Throw)?;
    let ghost s1 = *run_state;
    proof {
        if s0.scopes@[0].local(word_throw()) is None {
        }
    }
    Ok(())
}

/// Binds `format`.
pub fn add_string_lib(run_state: &mut RunState) -> (r: Result<(), Error>)
    requires
        old(run_state).wf(),
    ensures
        final(run_state).wf(),
        final(run_state).scopes@.len() == old(run_state).scopes@.len(),
        final(run_state).output == old(run_state).output,
        forall|id: Seq<char>| final(run_state).scopes@[0].template(id) == old(run_state).scopes@[0].template(id),
        (old(run_state).scopes@[0].local(word_format()) is None) ==> (r is Ok
            && global_value(final(run_state), word_format()) == Some(Value::NativeFunction(NativeFunction::Format))
            && (forall|id: Seq<char>| id != word_format() ==> final(run_state).scopes@[0].local(id) == old(run_state).scopes@[0].local(id))
            && final(run_state).store.cells@.len() >= old(run_state).store.cells@.len()
            && final(run_state).store.cells@.subrange(0, old(run_state).store.cells@.len() as int) == old(run_state).store.cells@),
{
    proof {
        reveal_strlit("format");
        assert("format"@ =~= word_format());
    }
    let ghost s0 = *run_state;
    run_state.expose_function("format", NativeFunction::Format)?;
    let ghost s1 = *run_state;
    proof {
        if s0.scopes@[0].local(word_format()) is None {
        }
    }
    Ok(())
}

/// Binds the record macros `def-struct`, `get-member` and `set-member`.
pub fn add_structure_lib(run_state: &mut RunState) -> (r: Result<(), Error>)
    requires
        old(run_state).wf(),
    ensures
        final(run_state).wf(),
        final(run_state).scopes@.len() == old(run_state).scopes@.len(),
        final(run_state).output == old(run_state).output,
        forall|id: Seq<char>| final(run_state).scopes@[0].template(id) == old(run_state).scopes@[0].template(id),
        (old(run_state).scopes@[0].local(word_def_struct()) is None && old(run_state).scopes@[0].local(word_get_member()) is None && old(run_state).scopes@[0].local(word_set_member()) is None) ==> (r is Ok
            && global_value(final(run_state), word_def_struct()) == Some(Value::NativeMacro(NativeMacro::DefStruct))
            && global_value(final(run_state), word_get_member()) == Some(Value::NativeMacro(NativeMacro::GetMember))
            && global_value(final(run_state), word_set_member()) == Some(Value::NativeMacro(NativeMacro::SetMember))
            && (forall|id: Seq<char>| id != word_def_struct() && id != word_get_member() && id != word_set_member() ==> final(run_state).scopes@[0].local(id) == old(run_state).scopes@[0].local(id))
            && final(run_state).store.cells@.len() >= old(run_state).store.cells@.len()
            && final(run_state).store.cells@.subrange(0, old(run_state).store.cells@.len() as int) == old(run_state).store.cells@),
{
    proof {
        reveal_strlit("def-struct");
        assert("def-struct"@ =~= word_def_struct());
        reveal_strlit("get-member");
        assert("get-member"@ =~= word_get_member());
        reveal_strlit("set-member");
        assert("set-member"@ =~= word_set_member());
        assert(word_def_struct()[0] != word_get_member()[0]);
        assert(word_def_struct()[0] != word_set_member()[0]);
        assert(word_get_member()[0] != word_set_member()[0]);
    }
    let ghost s0 = *run_state;
    run_state.expose_macro("def-struct", NativeMacro::DefStruct)?;
    let ghost s1 = *run_state;
    run_state.expose_macro("get-member", NativeMacro::GetMember)?;
    let ghost s2 = *run_state;
    run_state.expose_macro("set-member", NativeMacro::SetMember)?;
    let ghost s3 = *run_state;
    proof {
        if s0.scopes@[0].local(word_def_struct()) is None && s0.scopes@[0].local(word_get_member()) is None && s0.scopes@[0].local(word_set_member()) is None {
            lemma_prefix_trans(s0.store.cells@, s1.store.cells@, s2.store.cells@);
            lemma_prefix_trans(s0.store.cells@, s2.store.cells@, s3.store.cells@);
            lemma_prefix_trans(s1.store.cells@, s2.store.cells@, s3.store.cells@);
            lemma_global_value_kept(&s1, &s3, word_def_struct());
            lemma_global_value_kept(&s2, &s3, word_get_member());
        }
    }
    Ok(())
}

/// One of the names of the standard vocabulary.
pub open spec fn vocabulary_word(id: Seq<char>) -> bool {
    ||| id == word_const()
    ||| id == word_set()
    ||| id == word_if()
    ||| id == word_times()
    ||| id == word_list()
    ||| id == word_plus()
    ||| id == word_minus()
    ||| id == word_times_sign()
    ||| id == word_slash()
    ||| id == word_multiplication_sign()
    ||| id == word_division_sign()
    ||| id == word_print()
    ||| id == word_println()
    ||| id == word_throw()
    ||| id == word_format()
    ||| id == word_def_struct()
    ||| id == word_get_member()
    ||| id == word_set_member()
}

/// A fresh environment: one scope, the standard vocabulary bound, no other
/// name and no template bound, nothing printed.
pub open spec fn standard_environment(rs: &RunState) -> bool {
    &&& rs.wf()
    &&& rs.scopes@.len() == 1
    &&& vocabulary_resolves(rs)
    &&& forall|id: Seq<char>| !vocabulary_word(id) ==> rs.value(id) is None
    &&& forall|id: Seq<char>| rs.template(id) is None
    &&& rs.output@.len() == 0
}

/// None of the standard names is bound in the global scope.
pub open spec fn vocabulary_unbound(rs: &RunState) -> bool {
    &&& rs.scopes@[0].local(word_const()) is None
    &&& rs.scopes@[0].local(word_set()) is None
    &&& rs.scopes@[0].local(word_if()) is None
    &&& rs.scopes@[0].local(word_times()) is None
    &&& rs.scopes@[0].local(word_list()) is None
    &&& rs.scopes@[0].local(word_plus()) is None
    &&& rs.scopes@[0].local(word_minus()) is None
    &&& rs.scopes@[0].local(word_times_sign()) is None
    &&& rs.scopes@[0].local(word_slash()) is None
    &&& rs.scopes@[0].local(word_multiplication_sign()) is None
    &&& rs.scopes@[0].local(word_division_sign()) is None
    &&& rs.scopes@[0].local(word_print()) is None
    &&& rs.scopes@[0].local(word_println()) is None
    &&& rs.scopes@[0].local(word_throw()) is None
    &&& rs.scopes@[0].local(word_format()) is None
    &&& rs.scopes@[0].local(word_def_struct()) is None
    &&& rs.scopes@[0].local(word_get_member()) is None
    &&& rs.scopes@[0].local(word_set_member()) is None
}

/// Each standard name is bound in the global scope to its built-in.
pub open spec fn vocabulary_bound(rs: &RunState) -> bool {
    &&& global_value(rs, word_const()) == Some(Value::NativeMacro(NativeMacro::Const))
    &&& global_value(rs, word_set()) == Some(Value::NativeMacro(NativeMacro::Assign))
    &&& global_value(rs, word_if()) == Some(Value::NativeMacro(NativeMacro::If))
    &&& global_value(rs, word_times()) == Some(Value::NativeMacro(NativeMacro::Times))
    &&& global_value(rs, word_list()) == Some(Value::NativeFunction(NativeFunction::List))
    &&& global_value(rs, word_plus()) == Some(Value::NativeFunction(NativeFunction::Add))
    &&& global_value(rs, word_minus()) == Some(Value::NativeFunction(NativeFunction::Sub))
    &&& global_value(rs, word_times_sign()) == Some(Value::NativeFunction(NativeFunction::Mul))
    &&& global_value(rs, word_slash()) == Some(Value::NativeFunction(NativeFunction::Div))
    &&& global_value(rs, word_multiplication_sign()) == Some(Value::NativeFunction(NativeFunction::Mul))
    &&& global_value(rs, word_division_sign()) == Some(Value::NativeFunction(NativeFunction::Div))
    &&& global_value(rs, word_print()) == Some(Value::NativeFunction(NativeFunction::Print))
    &&& global_value(rs, word_println()) == Some(Value::NativeFunction(NativeFunction::Println))
    &&& global_value(rs, word_throw()) == Some(Value::NativeFunction(NativeFunction::Throw))
    &&& global_value(rs, word_format()) == Some(Value::NativeFunction(NativeFunction::Format))
    &&& global_value(rs, word_def_struct()) == Some(Value::NativeMacro(NativeMacro::DefStruct))
    &&& global_value(rs, word_get_member()) == Some(Value::NativeMacro(NativeMacro::GetMember))
    &&& global_value(rs, word_set_member()) == Some(Value::NativeMacro(NativeMacro::SetMember))
}

/// Each standard name resolves to its built-in.
pub open spec fn vocabulary_resolves(rs: &RunState) -> bool {
    &&& rs.value(word_const()) == Some(Value::NativeMacro(NativeMacro::Const))
    &&& rs.value(word_set()) == Some(Value::NativeMacro(NativeMacro::Assign))
    &&& rs.value(word_if()) == Some(Value::NativeMacro(NativeMacro::If))
    &&& rs.value(word_times()) == Some(Value::NativeMacro(NativeMacro::Times))
    &&& rs.value(word_list()) == Some(Value::NativeFunction(NativeFunction::List))
    &&& rs.value(word_plus()) == Some(Value::NativeFunction(NativeFunction::Add))
    &&& rs.value(word_minus()) == Some(Value::NativeFunction(NativeFunction::Sub))
    &&& rs.value(word_times_sign()) == Some(Value::NativeFunction(NativeFunction::Mul))
    &&& rs.value(word_slash()) == Some(Value::NativeFunction(NativeFunction::Div))
    &&& rs.value(word_multiplication_sign()) == Some(Value::NativeFunction(NativeFunction::Mul))
    &&& rs.value(word_division_sign()) == Some(Value::NativeFunction(NativeFunction::Div))
    &&& rs.value(word_print()) == Some(Value::NativeFunction(NativeFunction::Print))
    &&& rs.value(word_println()) == Some(Value::NativeFunction(NativeFunction::Println))
    &&& rs.value(word_throw()) == Some(Value::NativeFunction(NativeFunction::Throw))
    &&& rs.value(word_format()) == Some(Value::NativeFunction(NativeFunction::Format))
    &&& rs.value(word_def_struct()) == Some(Value::NativeMacro(NativeMacro::DefStruct))
    &&& rs.value(word_get_member()) == Some(Value::NativeMacro(NativeMacro::GetMember))
    &&& rs.value(word_set_member()) == Some(Value::NativeMacro(NativeMacro::SetMember))
}

/// Binds the whole standard vocabulary in the global scope.
pub fn add_std_lib(run_state: &mut RunState) -> (r: Result<(), Error>)
    requires
        old(run_state).wf(),
    ensures
        final(run_state).wf(),
        final(run_state).scopes@.len() == old(run_state).scopes@.len(),
        final(run_state).output == old(run_state).output,
        forall|id: Seq<char>| final(run_state).scopes@[0].template(id) == old(run_state).scopes@[0].template(id),
        vocabulary_unbound(old(run_state)) ==> r is Ok && vocabulary_bound(final(run_state)),
        vocabulary_unbound(old(run_state)) ==> forall|id: Seq<char>|
            !vocabulary_word(id) ==> final(run_state).scopes@[0].local(id) == old(run_state).scopes@[0].local(id),
{
    proof {
        assert(word_const().len() != word_list().len());
        assert(word_set().len() != word_list().len());
        assert(word_if().len() != word_list().len());
        assert(word_times().len() != word_list().len());
        assert(word_const().len() != word_plus().len());
        assert(word_const().len() != word_minus().len());
        assert(word_const().len() != word_times_sign().len());
        assert(word_const().len() != word_slash().len());
        assert(word_const().len() != word_multiplication_sign().len());
        assert(word_const().len() != word_division_sign().len());
        assert(word_set().len() != word_plus().len());
        assert(word_set().len() != word_minus().len());
        assert(word_set().len() != word_times_sign().len());
        assert(word_set().len() != word_slash().len());
        assert(word_set().len() != word_multiplication_sign().len());
        assert(word_set().len() != word_division_sign().len());
        assert(word_if().len() != word_plus().len());
        assert(word_if().len() != word_minus().len());
        assert(word_if().len() != word_times_sign().len());
        assert(word_if().len() != word_slash().len());
        assert(word_if().len() != word_multiplication_sign().len());
        assert(word_if().len() != word_division_sign().len());
        assert(word_times().len() != word_plus().len());
        assert(word_times().len() != word_minus().len());
        assert(word_times().len() != word_times_sign().len());
        assert(word_times().len() != word_slash().len());
        assert(word_times().len() != word_multiplication_sign().len());
        assert(word_times().len() != word_division_sign().len());
        assert(word_const()[0] != word_print()[0]);
        assert(word_const().len() != word_println().len());
        assert(word_set().len() != word_print().len());
        assert(word_set().len() != word_println().len());
        assert(word_if().len() != word_print().len());
        assert(word_if().len() != word_println().len());
        assert(word_times()[0] != word_print()[0]);
        assert(word_times().len() != word_println().len());
        assert(word_const()[0] != word_throw()[0]);
        assert(word_set().len() != word_throw().len());
        assert(word_if().len() != word_throw().len());
        assert(word_times()[1] != word_throw()[1]);
        assert(word_const().len() != word_format().len());
        assert(word_set().len() != word_format().len());
        assert(word_if().len() != word_format().len());
        assert(word_times().len() != word_format().len());
        assert(word_const().len() != word_def_struct().len());
        assert(word_const().len() != word_get_member().len());
        assert(word_const().len() != word_set_member().len());
        assert(word_set().len() != word_def_struct().len());
        assert(word_set().len() != word_get_member().len());
        assert(word_set().len() != word_set_member().len());
        assert(word_if().len() != word_def_struct().len());
        assert(word_if().len() != word_get_member().len());
        assert(word_if().len() != word_set_member().len());
        assert(word_times().len() != word_def_struct().len());
        assert(word_times().len() != word_get_member().len());
        assert(word_times().len() != word_set_member().len());
        assert(word_list().len() != word_plus().len());
        assert(word_list().len() != word_minus().len());
        assert(word_list().len() != word_times_sign().len());
        assert(word_list().len() != word_slash().len());
        assert(word_list().len() != word_multiplication_sign().len());
        assert(word_list().len() != word_division_sign().len());
        assert(word_list().len() != word_print().len());
        assert(word_list().len() != word_println().len());
        assert(word_list().len() != word_throw().len());
        assert(word_list().len() != word_format().len());
        assert(word_list().len() != word_def_struct().len());
        assert(word_list().len() != word_get_member().len());
        assert(word_list().len() != word_set_member().len());
        assert(word_plus().len() != word_print().len());
        assert(word_plus().len() != word_println().len());
        assert(word_minus().len() != word_print().len());
        assert(word_minus().len() != word_println().len());
        assert(word_times_sign().len() != word_print().len());
        assert(word_times_sign().len() != word_println().len());
        assert(word_slash().len() != word_print().len());
        assert(word_slash().len() != word_println().len());
        assert(word_multiplication_sign().len() != word_print().len());
        assert(word_multiplication_sign().len() != word_println().len());
        assert(word_division_sign().len() != word_print().len());
        assert(word_division_sign().len() != word_println().len());
        assert(word_plus().len() != word_throw().len());
        assert(word_minus().len() != word_throw().len());
        assert(word_times_sign().len() != word_throw().len());
        assert(word_slash().len() != word_throw().len());
        assert(word_multiplication_sign().len() != word_throw().len());
        assert(word_division_sign().len() != word_throw().len());
        assert(word_plus().len() != word_format().len());
        assert(word_minus().len() != word_format().len());
        assert(word_times_sign().len() != word_format().len());
        assert(word_slash().len() != word_format().len());
        assert(word_multiplication_sign().len() != word_format().len());
        assert(word_division_sign().len() != word_format().len());
        assert(word_plus().len() != word_def_struct().len());
        assert(word_plus().len() != word_get_member().len());
        assert(word_plus().len() != word_set_member().len());
        assert(word_minus().len() != word_def_struct().len());
        assert(word_minus().len() != word_get_member().len());
        assert(word_minus().len() != word_set_member().len());
        assert(word_times_sign().len() != word_def_struct().len());
        assert(word_times_sign().len() != word_get_member().len());
        assert(word_times_sign().len() != word_set_member().len());
        assert(word_slash().len() != word_def_struct().len());
        assert(word_slash().len() != word_get_member().len());
        assert(word_slash().len() != word_set_member().len());
        assert(word_multiplication_sign().len() != word_def_struct().len());
        assert(word_multiplication_sign().len() != word_get_member().len());
        assert(word_multiplication_sign().len() != word_set_member().len());
        assert(word_division_sign().len() != word_def_struct().len());
        assert(word_division_sign().len() != word_get_member().len());
        assert(word_division_sign().len() != word_set_member().len());
        assert(word_print()[0] != word_throw()[0]);
        assert(word_println().len() != word_throw().len());
        assert(word_print().len() != word_format().len());
        assert(word_println().len() != word_format().len());
        assert(word_print().len() != word_def_struct().len());
        assert(word_print().len() != word_get_member().len());
        assert(word_print().len() != word_set_member().len());
        assert(word_println().len() != word_def_struct().len());
        assert(word_println().len() != word_get_member().len());
        assert(word_println().len() != word_set_member().len());
        assert(word_throw().len() != word_format().len());
        assert(word_throw().len() != word_def_struct().len());
        assert(word_throw().len() != word_get_member().len());
        assert(word_throw().len() != word_set_member().len());
        assert(word_format().len() != word_def_struct().len());
        assert(word_format().len() != word_get_member().len());
        assert(word_format().len() != word_set_member().len());
    }
    let ghost s0 = *run_state;
    add_basic_lib(run_state)?;
    let ghost s1 = *run_state;
    add_list_lib(run_state)?;
    let ghost s2 = *run_state;
    add_maths_lib(run_state)?;
    let ghost s3 = *run_state;
    add_print_lib(run_state)?;
    let ghost s4 = *run_state;
    add_throw_lib(run_state)?;
    let ghost s5 = *run_state;
    add_string_lib(run_state)?;
    let ghost s6 = *run_state;
    add_structure_lib(run_state)?;
    let ghost s7 = *run_state;
    proof {
        if vocabulary_unbound(&s0) {
            lemma_prefix_trans(s0.store.cells@, s1.store.cells@, s2.store.cells@);
            lemma_prefix_trans(s0.store.cells@, s2.store.cells@, s3.store.cells@);
            lemma_prefix_trans(s0.store.cells@, s3.store.cells@, s4.store.cells@);
            lemma_prefix_trans(s0.store.cells@, s4.store.cells@, s5.store.cells@);
            lemma_prefix_trans(s0.store.cells@, s5.store.cells@, s6.store.cells@);
            lemma_prefix_trans(s0.store.cells@, s6.store.cells@, s7.store.cells@);
            lemma_prefix_trans(s1.store.cells@, s2.store.cells@, s3.store.cells@);
            lemma_prefix_trans(s1.store.cells@, s3.store.cells@, s4.store.cells@);
            lemma_prefix_trans(s1.store.cells@, s4.store.cells@, s5.store.cells@);
            lemma_prefix_trans(s1.store.cells@, s5.store.cells@, s6.store.cells@);
            lemma_prefix_trans(s1.store.cells@, s6.store.cells@, s7.store.cells@);
            lemma_global_value_kept(&s1, &s7, word_const());
            lemma_global_value_kept(&s1, &s7, word_set());
            lemma_global_value_kept(&s1, &s7, word_if());
            lemma_global_value_kept(&s1, &s7, word_times());
            lemma_prefix_trans(s2.store.cells@, s3.store.cells@, s4.store.cells@);
            lemma_prefix_trans(s2.store.cells@, s4.store.cells@, s5.store.cells@);
            lemma_prefix_trans(s2.store.cells@, s5.store.cells@, s6.store.cells@);
            lemma_prefix_trans(s2.store.cells@, s6.store.cells@, s7.store.cells@);
            lemma_global_value_kept(&s2, &s7, word_list());
            lemma_prefix_trans(s3.store.cells@, s4.store.cells@, s5.store.cells@);
            lemma_prefix_trans(s3.store.cells@, s5.store.cells@, s6.store.cells@);
            lemma_prefix_trans(s3.store.cells@, s6.store.cells@, s7.store.cells@);
            lemma_global_value_kept(&s3, &s7, word_plus());
            lemma_global_value_kept(&s3, &s7, word_minus());
            lemma_global_value_kept(&s3, &s7, word_times_sign());
            lemma_global_value_kept(&s3, &s7, word_slash());
            lemma_global_value_kept(&s3, &s7, word_multiplication_sign());
            lemma_global_value_kept(&s3, &s7, word_division_sign());
            lemma_prefix_trans(s4.store.cells@, s5.store.cells@, s6.store.cells@);
            lemma_prefix_trans(s4.store.cells@, s6.store.cells@, s7.store.cells@);
            lemma_global_value_kept(&s4, &s7, word_print());
            lemma_global_value_kept(&s4, &s7, word_println());
            lemma_prefix_trans(s5.store.cells@, s6.store.cells@, s7.store.cells@);
            lemma_global_value_kept(&s5, &s7, word_throw());
            lemma_global_value_kept(&s6, &s7, word_format());
        }
    }
    Ok(())
}

/// The value bound to `id` in the global scope.
pub open spec fn global_value(rs: &RunState, id: Seq<char>) -> Option<Value> {
    match rs.scopes@[0].local(id) {
        Some(v) => Some(rs.store.value_of(v)),
        None => None,
    }
}

/// A global binding survives a change that keeps it and only appends cells.
pub proof fn lemma_global_value_kept(a: &RunState, b: &RunState, id: Seq<char>)
    requires
        a.wf(),
        b.scopes@[0].local(id) == a.scopes@[0].local(id),
        b.store.cells@.len() >= a.store.cells@.len(),
        b.store.cells@.subrange(0, a.store.cells@.len() as int) == a.store.cells@,
    ensures
        global_value(b, id) == global_value(a, id),
{
    if a.scopes@[0].local(id) is Some {
        let s = a.scopes@[0];
        crate::structure::lemma_position_in(names(s.local_names@), id);
        assert(s.lives_in(&a.store));
        let v = s.local(id)->0;
        assert(a.store.holds(v));
        assert(b.store.cells@.subrange(0, a.store.cells@.len() as int)[v.index as int] == b.store.cells@[v.index as int]);
    }
}

/// Lookups in `b` agree with `a` for `id` when every scope binds `id` to
/// the same variable and the cells of `a` are kept.
pub proof fn lemma_lookup_kept(a: &RunState, b: &RunState, id: Seq<char>, n: int)
    requires
        a.wf(),
        0 <= n <= a.scopes@.len(),
        a.scopes@.len() == b.scopes@.len(),
        forall|j: int| 0 <= j < a.scopes@.len() ==> (#[trigger] b.scopes@[j]).local(id) == a.scopes@[j].local(id),
        b.store.cells@.len() >= a.store.cells@.len(),
        b.store.cells@.subrange(0, a.store.cells@.len() as int) == a.store.cells@,
    ensures
        find_var_in(b.scopes@, n, id) == find_var_in(a.scopes@, n, id),
        find_var_in(a.scopes@, n, id) is Some ==> b.store.value_of(find_var_in(a.scopes@, n, id)->0)
            == a.store.value_of(find_var_in(a.scopes@, n, id)->0),
    decreases n,
{
    if n > 0 {
        lemma_lookup_kept(a, b, id, n - 1);
        a.lemma_find_var(id, n);
        if find_var_in(a.scopes@, n, id) is Some {
            let v = find_var_in(a.scopes@, n, id)->0;
            assert(b.store.cells@.subrange(0, a.store.cells@.len() as int)[v.index as int] == b.store.cells@[v.index as int]);
        }
    }
}

/// Template lookups agree when every scope binds the same templates.
pub proof fn lemma_templates_kept(a: &RunState, b: &RunState, id: Seq<char>, n: int)
    requires
        0 <= n <= a.scopes@.len(),
        a.scopes@.len() == b.scopes@.len(),
        forall|j: int| 0 <= j < a.scopes@.len() ==> (#[trigger] b.scopes@[j]).template(id) == a.scopes@[j].template(id),
    ensures
        find_template_in(b.scopes@, n, id) == find_template_in(a.scopes@, n, id),
    decreases n,
{
    if n > 0 {
        lemma_templates_kept(a, b, id, n - 1);
    }
}

/// What binding `id` to `v` in the innermost scope of `pre` leaves in
/// `post`, where `ok` tells whether it succeeded: on failure nothing
/// changes; on success `id` resolves to `v` in a cell that is const
/// exactly for `const`, templates stay, and when `id` was not yet bound
/// there every other name keeps its value.
pub open spec fn bound_outcome(pre: RunState, post: RunState, id: Seq<char>, v: Value, is_const: bool, ok: bool) -> bool {
    &&& post.scopes@.len() == pre.scopes@.len()
    &&& post.output == pre.output
    &&& !ok ==> post.scopes@ == pre.scopes@ && post.store == pre.store
    &&& ok ==> post.value(id) == Some(v) && post.store.const_of(post.variable(id)->0) == is_const
    &&& ok ==> post.scopes@.last().local(id) is Some && post.variable(id) == post.scopes@.last().local(id)
    &&& ok && pre.scopes@.last().local(id) is None ==> post.variable(id)->0.index == pre.store.cells@.len()
        && post.store.cells@.len() == pre.store.cells@.len() + 1
    &&& ok ==> forall|x: Seq<char>| #[trigger] post.template(x) == pre.template(x)
    &&& ok && pre.scopes@.last().local(id) is None ==> forall|x: Seq<char>|
        x != id ==> #[trigger] post.value(x) == pre.value(x)
}

/// `set_in_scope` on the innermost scope gives `bound_outcome`.
proof fn lemma_bound_outcome(pre: &RunState, post: &RunState, k: int, id: Seq<char>, ok: bool)
    requires
        pre.wf(),
        post.wf(),
        k == pre.scopes@.len() - 1,
        post.scopes@.len() == pre.scopes@.len(),
        !ok ==> post.scopes@ == pre.scopes@ && post.store == pre.store,
        ok ==> post.scopes@[k].local(id) is Some,
        forall|j: int| 0 <= j < pre.scopes@.len() && j != k ==> post.scopes@[j] == pre.scopes@[j],
        forall|x: Seq<char>| x != id ==> post.scopes@[k].local(x) == pre.scopes@[k].local(x),
        forall|x: Seq<char>| post.scopes@[k].template(x) == pre.scopes@[k].template(x),
        pre.scopes@[k].local(id) is None ==> post.store.cells@.subrange(0, pre.store.cells@.len() as int) == pre.store.cells@,
        post.store.cells@.len() >= pre.store.cells@.len(),
        ok && pre.scopes@[k].local(id) is None ==> post.scopes@[k].local(id)->0.index == pre.store.cells@.len()
            && post.store.cells@.len() == pre.store.cells@.len() + 1,
    ensures
        ok ==> post.variable(id) == post.scopes@[k].local(id),
        ok && pre.scopes@[k].local(id) is None ==> post.variable(id)->0.index == pre.store.cells@.len()
            && post.store.cells@.len() == pre.store.cells@.len() + 1,
        ok ==> forall|x: Seq<char>| #[trigger] post.template(x) == pre.template(x),
        ok && pre.scopes@[k].local(id) is None ==> forall|x: Seq<char>|
            x != id ==> #[trigger] post.value(x) == pre.value(x),
{
    if ok {
        assert(post.scopes@.last() == post.scopes@[k]);
        assert forall|x: Seq<char>| #[trigger] post.template(x) == pre.template(x) by {
            lemma_templates_kept(pre, post, x, pre.scopes@.len() as int);
        }
        if pre.scopes@[k].local(id) is None {
            assert forall|x: Seq<char>| x != id implies #[trigger] post.value(x) == pre.value(x) by {
                lemma_lookup_kept(pre, post, x, pre.scopes@.len() as int);
            }
        }
    }
}

/// The value of an evaluation's result, or `None` for any failure.
pub open spec fn eval_value(r: Result<Value, EvalError>) -> Option<Value> {
    match r {
        Ok(v) => Some(v),
        Err(_) => None,
    }
}

/// A name bound by `set_const` can be bound again neither by `set_const`
/// nor by `set_local`.
pub proof fn law_const_binding_is_final(
    s0: &Scope,
    st0: &VariableStore,
    s1: &Scope,
    st1: &VariableStore,
    id: Seq<char>,
    value: Value,
)
    requires
        can_declare_const(s0, id),
        s1.local(id) == Some(Variable { index: st0.cells@.len() as usize }),
        VariableStore::grew(st0, st1, (VariableInstance { value, is_const: true })),
    ensures
        !can_declare_const(s1, id),
        !can_assign(s1, st1, id),
{
    assert(st0.cells.len() == st0.cells@.len());
}

/// Writing a writable binding leaves it writable and holding the new
/// value, so writes can be repeated and each read sees the latest one.
pub proof fn law_assignment_reads_back(
    s: &Scope,
    st0: &VariableStore,
    st1: &VariableStore,
    id: Seq<char>,
    value: Value,
)
    requires
        s.local(id) is Some,
        st0.holds(s.local(id)->0),
        can_assign(s, st0, id),
        VariableStore::wrote(st0, st1, s.local(id)->0, value),
    ensures
        can_assign(s, st1, id),
        st1.value_of(s.local(id)->0) == value,
{
}

/// Every variable of `scope` that lives in `a` lives in the larger `b`.
pub proof fn lemma_scope_lives_on(scope: &Scope, a: &VariableStore, b: &VariableStore)
    requires
        scope.lives_in(a),
        a.cells@.len() <= b.cells@.len(),
    ensures
        scope.lives_in(b),
{
    assert forall|i: int| 0 <= i < scope.locals@.len() implies b.holds(#[trigger] scope.locals@[i]) by {
        assert(a.holds(scope.locals@[i]));
    }
}

/// The environment: a stack of scopes, innermost last, over one store of
/// variable cells, and the text that printing has produced.
#[derive(Debug)]
pub struct RunState {
    pub scopes: Vec<Scope>,
    pub store: VariableStore,
    pub output: String,
}

/// The variable bound to `id` in the first `n` scopes, innermost first.
pub open spec fn find_var_in(scopes: Seq<Scope>, n: int, id: Seq<char>) -> Option<Variable>
    decreases n,
{
    if n <= 0 {
        None
    } else {
        match scopes[n - 1].local(id) {
            Some(v) => Some(v),
            None => find_var_in(scopes, n - 1, id),
        }
    }
}

/// The template bound to `id` in the first `n` scopes, innermost first.
pub open spec fn find_template_in(scopes: Seq<Scope>, n: int, id: Seq<char>) -> Option<Seq<Seq<char>>>
    decreases n,
{
    if n <= 0 {
        None
    } else {
        match scopes[n - 1].template(id) {
            Some(t) => Some(t),
            None => find_template_in(scopes, n - 1, id),
        }
    }
}

impl RunState {
    pub open spec fn wf(&self) -> bool {
        &&& self.scopes@.len() >= 1
        &&& forall|i: int| 0 <= i < self.scopes@.len() ==> (#[trigger] self.scopes@[i]).wf()
        &&& forall|i: int| 0 <= i < self.scopes@.len() ==> (#[trigger] self.scopes@[i]).lives_in(&self.store)
    }

    /// The variable that `id` resolves to: the innermost binding.
    pub open spec fn variable(&self, id: Seq<char>) -> Option<Variable> {
        find_var_in(self.scopes@, self.scopes@.len() as int, id)
    }

    /// The template that `id` resolves to: the innermost binding.
    pub open spec fn template(&self, id: Seq<char>) -> Option<Seq<Seq<char>>> {
        find_template_in(self.scopes@, self.scopes@.len() as int, id)
    }

    /// The current value of the variable that `id` resolves to.
    pub open spec fn value(&self, id: Seq<char>) -> Option<Value> {
        match self.variable(id) {
            Some(v) => Some(self.store.value_of(v)),
            None => None,
        }
    }

    /// An environment with one empty global scope.
    pub fn new_empty() -> (r: Self)
        ensures
            r.wf(),
            r.scopes@.len() == 1,
            r.store.cells@.len() == 0,
            r.output@.len() == 0,
            forall|id: Seq<char>| r.variable(id) is None && r.template(id) is None,
    {
        let mut scopes: Vec<Scope> = Vec::new();
        scopes.push(Scope::new());
        let r = RunState { scopes, store: VariableStore::new(), output: String::new() };
        proof {
            assert forall|id: Seq<char>| r.variable(id) is None && r.template(id) is None by {
                assert(find_var_in(r.scopes@, 0, id) is None);
                assert(find_template_in(r.scopes@, 0, id) is None);
            }
        }
        r
    }

    /// An environment with the standard vocabulary bound in its global scope.
    pub fn new() -> (r: Self)
        ensures
            r.wf(),
            r.scopes@.len() == 1,
            standard_environment(&r),
    {
        let mut r = Self::new_empty();
        proof {
            assert forall|id: Seq<char>| r.scopes@[0].local(id) is None && r.scopes@[0].template(id) is None by {
                assert(r.variable(id) is None);
                assert(r.template(id) is None);
            }
        }
        let _ = add_std_lib(&mut r);
        proof {
            assert forall|id: Seq<char>| r.value(id) == global_value(&r, id) by {
                assert(find_var_in(r.scopes@, 0, id) is None);
            }
            assert forall|id: Seq<char>| r.template(id) is None by {
                assert(find_template_in(r.scopes@, 0, id) is None);
            }
        }
        r
    }

    pub proof fn lemma_find_var(&self, id: Seq<char>, n: int)
        requires
            0 <= n <= self.scopes@.len(),
            self.wf(),
        ensures
            find_var_in(self.scopes@, n, id) is Some ==> self.store.holds(find_var_in(self.scopes@, n, id)->0),
        decreases n,
    {
        if n > 0 {
            self.lemma_find_var(id, n - 1);
            let s = self.scopes@[n - 1];
            crate::structure::lemma_position_in(names(s.local_names@), id);
            assert(s.lives_in(&self.store));
        }
    }

    /// Whether the environment is well formed; used after a host macro has
    /// had the environment in its hands.
    pub fn check_wf(&self) -> (r: bool)
        ensures
            r == self.wf(),
    {
        if self.scopes.len() == 0 {
            return false;
        }
        let mut k: usize = 0;
        while k < self.scopes.len()
            invariant
                k <= self.scopes@.len(),
                forall|i: int| 0 <= i < k ==> (#[trigger] self.scopes@[i]).wf(),
                forall|i: int| 0 <= i < k ==> (#[trigger] self.scopes@[i]).lives_in(&self.store),
            decreases self.scopes@.len() - k,
        {
            let scope = &self.scopes[k];
            if scope.local_names.len() != scope.locals.len() || scope.template_names.len()
                != scope.templates.len() {
                return false;
            }
            let mut j: usize = 0;
            while j < scope.locals.len()
                invariant
                    k < self.scopes@.len(),
                    *scope == self.scopes@[k as int],
                    j <= scope.locals@.len(),
                    forall|i: int| 0 <= i < j ==> self.store.holds(#[trigger] scope.locals@[i]),
                decreases scope.locals@.len() - j,
            {
                if scope.locals[j].index >= self.store.cells.len() {
                    assert(!self.scopes@[k as int].lives_in(&self.store));
                    return false;
                }
                j += 1;
            }
            let mut t: usize = 0;
            while t < scope.templates.len()
                invariant
                    k < self.scopes@.len(),
                    *scope == self.scopes@[k as int],
                    t <= scope.templates@.len(),
                    forall|i: int| 0 <= i < t ==> (#[trigger] scope.templates@[i]).wf(),
                decreases scope.templates@.len() - t,
            {
                if !scope.templates[t].check_wf() {
                    assert(!self.scopes@[k as int].wf());
                    return false;
                }
                t += 1;
            }
            k += 1;
        }
        true
    }

    /// The variable that `identifier` resolves to, searching from the
    /// innermost scope outwards.
    pub fn find_variable(&self, identifier: &String) -> (r: Option<Variable>)
        requires
            self.wf(),
        ensures
            r == self.variable(identifier@),
            r is Some ==> self.store.holds(r->0),
    {
        proof {
            self.lemma_find_var(identifier@, self.scopes@.len() as int);
        }
        let mut n = self.scopes.len();
        while n > 0
            invariant
                n <= self.scopes@.len(),
                self.wf(),
                find_var_in(self.scopes@, n as int, identifier@) == self.variable(identifier@),
            decreases n,
        {
            match self.scopes[n - 1].get_variable(identifier) {
                Some(v) => {
                    proof {
                        let sc = self.scopes@[n - 1];
                        crate::structure::lemma_position_in(names(sc.local_names@), identifier@);
                        assert(sc.lives_in(&self.store));
                    }
                    return Some(v);
                },
                None => {},
            }
            n -= 1;
        }
        None
    }

    /// A copy of the value that `identifier` resolves to.
    pub fn find_local(&self, identifier: &String) -> (r: Option<Value>)
        requires
            self.wf(),
        ensures
            match self.value(identifier@) {
                Some(v) => r is Some && r->0@ == v@,
                None => r is None,
            },
    {
        match self.find_variable(identifier) {
            Some(v) => Some(v.get(&self.store)),
            None => None,
        }
    }

    /// A copy of the template that `identifier` resolves to, searching from
    /// the innermost scope outwards.
    pub fn find_structure_template(&self, identifier: &String) -> (r: Option<StructureTemplate>)
        requires
            self.wf(),
        ensures
            match self.template(identifier@) {
                Some(t) => r is Some && r->0@ == t && r->0.wf(),
                None => r is None,
            },
    {
        let mut n = self.scopes.len();
        while n > 0
            invariant
                n <= self.scopes@.len(),
                self.wf(),
                find_template_in(self.scopes@, n as int, identifier@) == self.template(identifier@),
            decreases n,
        {
            match self.scopes[n - 1].get_structure_template(identifier) {
                Some(t) => {
                    let c = t.clone();
                    assert(c@ =~= t@);
                    return Some(c);
                },
                None => {},
            }
            n -= 1;
        }
        None
    }

    pub fn get_global_scope(&self) -> (r: &Scope)
        requires
            self.wf(),
        ensures
            r == self.scopes@[0],
    {
        &self.scopes[0]
    }

    pub fn get_local_scope(&self) -> (r: &Scope)
        requires
            self.wf(),
        ensures
            r == self.scopes@.last(),
    {
        &self.scopes[self.scopes.len() - 1]
    }

    /// The global scope, for changing in place. Its variables must stay
    /// cells of this environment's store.
    pub fn get_global_scope_mut(&mut self) -> (r: &mut Scope)
        requires
            old(self).wf(),
        ensures
            *r == old(self).scopes@[0],
            final(self).scopes@ == old(self).scopes@.update(0, *final(r)),
            final(self).store == old(self).store,
            final(self).output == old(self).output,
    {
        &mut self.scopes[0]
    }

    /// The innermost scope, for changing in place. Its variables must stay
    /// cells of this environment's store.
    pub fn get_local_scope_mut(&mut self) -> (r: &mut Scope)
        requires
            old(self).wf(),
        ensures
            *r == old(self).scopes@.last(),
            final(self).scopes@ == old(self).scopes@.update(old(self).scopes@.len() - 1, *final(r)),
            final(self).store == old(self).store,
            final(self).output == old(self).output,
    {
        let k = self.scopes.len() - 1;
        &mut self.scopes[k]
    }

    pub fn get_store(&self) -> (r: &VariableStore)
        ensures
            r == self.store,
    {
        &self.store
    }

    /// Declares or updates `identifier` in scope `k` (see `Scope::set_local`).
    fn set_in_scope(&mut self, k: usize, identifier: &String, value: Value, is_const: bool) -> (r: Result<(), Error>)
        requires
            old(self).wf(),
            k < old(self).scopes@.len(),
        ensures
            final(self).wf(),
            final(self).scopes@.len() == old(self).scopes@.len(),
            final(self).output == old(self).output,
            final(self).store.cells@.len() >= old(self).store.cells@.len(),
            r is Ok == (if is_const {
                can_declare_const(&old(self).scopes@[k as int], identifier@)
            } else {
                can_assign(&old(self).scopes@[k as int], &old(self).store, identifier@)
            }),
            r is Ok ==> final(self).scopes@[k as int].local(identifier@) is Some && final(self).store.value_of(
                final(self).scopes@[k as int].local(identifier@)->0,
            ) == value && final(self).store.const_of(final(self).scopes@[k as int].local(identifier@)->0)
                == is_const,
            r is Err ==> final(self).scopes@ == old(self).scopes@ && final(self).store == old(self).store,
            forall|j: int| 0 <= j < old(self).scopes@.len() && j != k ==> final(self).scopes@[j] == old(self).scopes@[j],
            forall|id: Seq<char>| id != identifier@ ==> final(self).scopes@[k as int].local(id) == old(self).scopes@[k as int].local(id),
            forall|id: Seq<char>| final(self).scopes@[k as int].template(id) == old(self).scopes@[k as int].template(id),
            r is Ok && old(self).scopes@[k as int].local(identifier@) is None ==> final(self).scopes@[k as int].local(
                identifier@,
            )->0.index == old(self).store.cells@.len() && final(self).store.cells@.len() == old(self).store.cells@.len() + 1,
            old(self).scopes@[k as int].local(identifier@) is None ==> final(self).store.cells@.subrange(
                0,
                old(self).store.cells@.len() as int,
            ) == old(self).store.cells@,
    {
        let ghost old_store = self.store;
        let mut scope = Scope::new();
        self.scopes.set_and_swap(k, &mut scope);
        proof {
            assert(scope == old(self).scopes@[k as int]);
        }
        proof {
            assert(old_store.cells.len() == old_store.cells@.len());
        }
        let ghost old_scope = scope;
        let r = if is_const {
            scope.set_const(identifier, value, &mut self.store)
        } else {
            scope.set_local(identifier, value, &mut self.store)
        };
        proof {
            if r is Ok {
                let var = scope.local(identifier@)->0;
                match old_scope.local(identifier@) {
                    Some(v) => {
                        crate::structure::lemma_position_in(names(old_scope.local_names@), identifier@);
                        assert(old_store.holds(v));
                        assert(var == v);
                        assert(self.store.cells@[v.index as int].value == value);
                    },
                    None => {
                        assert(var.index == old_store.cells@.len());
                        assert(self.store.cells@[var.index as int].value == value);
                    },
                }
            }
        }
        proof {
            if old_scope.local(identifier@) is None {
                assert(self.store.cells@.subrange(0, old_store.cells@.len() as int) =~= old_store.cells@);
            }
        }
        self.scopes.set(k, scope);
        proof {
            if r is Err {
                assert(self.scopes@ =~= old(self).scopes@);
            }
            assert forall|i: int| 0 <= i < self.scopes@.len() implies (#[trigger] self.scopes@[i]).lives_in(&self.store) by {
                if i != k {
                    assert(old(self).scopes@[i].lives_in(&old_store));
                    lemma_scope_lives_on(&self.scopes@[i], &old_store, &self.store);
                }
            }
        }
        r
    }

    /// Declares or updates `identifier` in the innermost scope.
    pub fn set_local(&mut self, identifier: &String, value: Value) -> (r: Result<(), Error>)
        requires
            old(self).wf(),
        ensures
            final(self).wf(),
            final(self).scopes@.len() == old(self).scopes@.len(),
            r is Ok == can_assign(&old(self).scopes@.last(), &old(self).store, identifier@),
            r is Ok ==> final(self).scopes@.last().local(identifier@) is Some && final(self).store.value_of(
                final(self).scopes@.last().local(identifier@)->0,
            ) == value,
            r is Err ==> final(self).scopes@ == old(self).scopes@ && final(self).store == old(self).store,
            bound_outcome(*old(self), *final(self), identifier@, value, false, r is Ok),
    {
        let k = self.scopes.len() - 1;
        let ghost pre = *self;
        let r = self.set_in_scope(k, identifier, value, false);
        proof {
            lemma_bound_outcome(&pre, self, k as int, identifier@, r is Ok);
        }
        r
    }

    /// Declares a const `identifier` in the innermost scope.
    pub fn set_const(&mut self, identifier: &String, value: Value) -> (r: Result<(), Error>)
        requires
            old(self).wf(),
        ensures
            final(self).wf(),
            final(self).scopes@.len() == old(self).scopes@.len(),
            r is Ok == can_declare_const(&old(self).scopes@.last(), identifier@),
            r is Ok ==> final(self).scopes@.last().local(identifier@) is Some && final(self).store.value_of(
                final(self).scopes@.last().local(identifier@)->0,
            ) == value && final(self).store.const_of(final(self).scopes@.last().local(identifier@)->0),
            r is Err ==> final(self).scopes@ == old(self).scopes@ && final(self).store == old(self).store,
            bound_outcome(*old(self), *final(self), identifier@, value, true, r is Ok),
    {
        let k = self.scopes.len() - 1;
        let ghost pre = *self;
        let r = self.set_in_scope(k, identifier, value, true);
        proof {
            lemma_bound_outcome(&pre, self, k as int, identifier@, r is Ok);
        }
        r
    }

    /// Binds a record template in the innermost scope.
    pub fn set_structure_template(&mut self, identifier: &String, structure_template: StructureTemplate)
        requires
            old(self).wf(),
            structure_template.wf(),
        ensures
            final(self).wf(),
            final(self).scopes@.len() == old(self).scopes@.len(),
            final(self).store == old(self).store,
            final(self).output == old(self).output,
            final(self).scopes@.last().template(identifier@) == Some(structure_template@),
            final(self).template(identifier@) == Some(structure_template@),
            forall|x: Seq<char>| #[trigger] final(self).value(x) == old(self).value(x),
            forall|x: Seq<char>| x != identifier@ ==> #[trigger] final(self).template(x) == old(self).template(x),
    {
        let ghost t = structure_template@;
        let k = self.scopes.len() - 1;
        let mut scope = Scope::new();
        self.scopes.set_and_swap(k, &mut scope);
        scope.set_structure_template(identifier, structure_template);
        self.scopes.set(k, scope);
        proof {
            assert forall|i: int| 0 <= i < self.scopes@.len() implies (#[trigger] self.scopes@[i]).lives_in(&self.store) by {
                assert(old(self).scopes@[i].lives_in(&self.store));
            }
            assert(self.scopes@.last() == self.scopes@[k as int]);
            assert(find_template_in(self.scopes@, self.scopes@.len() as int, identifier@) == Some(t));
            assert forall|x: Seq<char>| #[trigger] self.value(x) == old(self).value(x) by {
                assert forall|j: int| 0 <= j < old(self).scopes@.len() implies (#[trigger] self.scopes@[j]).local(x)
                    == old(self).scopes@[j].local(x) by {
                    if j == k {
                        assert(self.scopes@[j].local_names == old(self).scopes@[j].local_names);
                    }
                }
                assert(self.store.cells@.subrange(0, old(self).store.cells@.len() as int) =~= old(self).store.cells@);
                lemma_lookup_kept(old(self), self, x, self.scopes@.len() as int);
            }
            assert forall|x: Seq<char>| x != identifier@ implies #[trigger] self.template(x) == old(self).template(x) by {
                lemma_templates_kept(old(self), self, x, self.scopes@.len() as int);
            }
        }
    }

    /// Lexes, builds and evaluates `source` in this environment.
    pub fn eval<F: Host>(&mut self, source: &str, floats: &F) -> (r: Result<Value, EvalError>)
        requires
            old(self).wf(),
            source@.len() < usize::MAX,
        ensures
            final(self).wf(),
            lex(source@) is Err ==> r is Err && r->Err_0 is TokeniserError && *final(self) == *old(self),
            lex(source@) is Err ==> r->Err_0->TokeniserError_0.line() == lex(source@)->Err_0.0
                && r->Err_0->TokeniserError_0.col() == lex(source@)->Err_0.1,
            lex(source@) is Ok ==> !(r is Err && r->Err_0 is TokeniserError),
            lex(source@) is Ok ==> !(r is Err && r->Err_0 is ParserError),
            lex(source@) is Ok && pure_value(parse_from(lex(source@)->Ok_0, 0).0, old(self)) is Some ==> r is Ok
                && r->Ok_0@ == pure_value(parse_from(lex(source@)->Ok_0, 0).0, old(self))->0 && *final(self)
                == *old(self),
            lex(source@) is Ok ==> exists|tree: Node|
                node_view(&tree) == parse_from(lex(source@)->Ok_0, 0).0 && #[trigger] evaluation(
                    &tree,
                    *old(self),
                    *final(self),
                    eval_value(r),
                ),
    {
        match tokenise(source) {
            Ok(tokens) => match parse(tokens) {
                Ok(parent_node) => match parent_node.evaluate(self, floats) {
                    Ok(value) => Ok(value),
                    Err(runtime_error) => Err(EvalError::RuntimeError(runtime_error)),
                },
                Err(parser_error) => Err(EvalError::ParserError(parser_error)),
            },
            Err(tokeniser_error) => Err(EvalError::TokeniserError(tokeniser_error)),
        }
    }

    /// Binds `value` to `name` in the global scope; fails if the name is
    /// bound there to a const.
    pub fn expose(&mut self, name: &str, value: Value) -> (r: Result<(), Error>)
        requires
            old(self).wf(),
        ensures
            final(self).wf(),
            final(self).scopes@.len() == old(self).scopes@.len(),
            r is Ok == can_assign(&old(self).scopes@[0], &old(self).store, name@),
            r is Ok ==> global_value(final(self), name@) == Some(value),
            final(self).store.cells@.len() >= old(self).store.cells@.len(),
            final(self).output == old(self).output,
            forall|id: Seq<char>| id != name@ ==> final(self).scopes@[0].local(id) == old(self).scopes@[0].local(id),
            forall|id: Seq<char>| final(self).scopes@[0].template(id) == old(self).scopes@[0].template(id),
            r is Err ==> final(self).scopes@ == old(self).scopes@ && final(self).store == old(self).store,
            old(self).scopes@[0].local(name@) is None ==> final(self).store.cells@.subrange(
                0,
                old(self).store.cells@.len() as int,
            ) == old(self).store.cells@,
    {
        let name = String::from_str(name);
        self.set_in_scope(0, &name, value, false)
    }

    pub fn expose_function(&mut self, name: &str, function: NativeFunction) -> (r: Result<(), Error>)
        requires
            old(self).wf(),
        ensures
            final(self).wf(),
            final(self).scopes@.len() == old(self).scopes@.len(),
            r is Ok == can_assign(&old(self).scopes@[0], &old(self).store, name@),
            r is Ok ==> global_value(final(self), name@) == Some(Value::NativeFunction(function)),
            final(self).store.cells@.len() >= old(self).store.cells@.len(),
            final(self).output == old(self).output,
            forall|id: Seq<char>| id != name@ ==> final(self).scopes@[0].local(id) == old(self).scopes@[0].local(id),
            forall|id: Seq<char>| final(self).scopes@[0].template(id) == old(self).scopes@[0].template(id),
            r is Err ==> final(self).scopes@ == old(self).scopes@ && final(self).store == old(self).store,
            old(self).scopes@[0].local(name@) is None ==> final(self).store.cells@.subrange(
                0,
                old(self).store.cells@.len() as int,
            ) == old(self).store.cells@,
    {
        self.expose(name, Value::NativeFunction(function))
    }

    pub fn expose_macro(&mut self, name: &str, native_macro: NativeMacro) -> (r: Result<(), Error>)
        requires
            old(self).wf(),
        ensures
            final(self).wf(),
            final(self).scopes@.len() == old(self).scopes@.len(),
            r is Ok == can_assign(&old(self).scopes@[0], &old(self).store, name@),
            r is Ok ==> global_value(final(self), name@) == Some(Value::NativeMacro(native_macro)),
            final(self).store.cells@.len() >= old(self).store.cells@.len(),
            final(self).output == old(self).output,
            forall|id: Seq<char>| id != name@ ==> final(self).scopes@[0].local(id) == old(self).scopes@[0].local(id),
            forall|id: Seq<char>| final(self).scopes@[0].template(id) == old(self).scopes@[0].template(id),
            r is Err ==> final(self).scopes@ == old(self).scopes@ && final(self).store == old(self).store,
            old(self).scopes@[0].local(name@) is None ==> final(self).store.cells@.subrange(
                0,
                old(self).store.cells@.len() as int,
            ) == old(self).store.cells@,
    {
        self.expose(name, Value::NativeMacro(native_macro))
    }
}

} // verus!
