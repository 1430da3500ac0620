//! Variables: shared, mutable binding cells.
//!
//! Every cell lives in a `VariableStore`; a `Variable` is a handle to one
//! cell. Copies of a handle reach the same cell, so a write through one is
//! seen through all.

use crate::error::Error;
use crate::value::Value;
use vstd::prelude::*;
use vstd::string::StringExecFns;

verus! {

/// One binding cell: its value, and whether it may be written.
#[derive(Debug)]
pub struct VariableInstance {
    pub value: Value,
    pub is_const: bool,
}

impl VariableInstance {
    pub fn new(value: Value) -> (r: Self)
        ensures
            r.value == value,
            !r.is_const,
    {
        Self { value, is_const: false }
    }

    pub fn new_const(value: Value) -> (r: Self)
        ensures
            r.value == value,
            r.is_const,
    {
        Self { value, is_const: true }
    }

    /// Writes the value; a const cell cannot be written and is left as it is.
    pub fn set(&mut self, value: Value) -> (r: Result<(), Error>)
        ensures
            r is Ok == !old(self).is_const,
            r is Ok ==> final(self).value == value,
            r is Err ==> *final(self) == *old(self),
            final(self).is_const == old(self).is_const,
    {
        if self.is_const {
            return Err(Error::new(String::from_str("variable is const"), None));
        }
        self.value = value;
        Ok(())
    }

    pub fn get(&self) -> (r: &Value)
        ensures
            r == self.value,
    {
        &self.value
    }

    pub fn is_const(&self) -> (r: bool)
        ensures
            r == self.is_const,
    {
        self.is_const
    }
}

/// The cells of one environment.
#[derive(Debug)]
pub struct VariableStore {
    pub cells: Vec<VariableInstance>,
}

impl VariableStore {
    pub fn new() -> (r: Self)
        ensures
            r.cells@.len() == 0,
    {
        VariableStore { cells: Vec::new() }
    }

    pub open spec fn holds(&self, var: Variable) -> bool {
        var.index < self.cells@.len()
    }

    pub open spec fn value_of(&self, var: Variable) -> Value {
        self.cells@[var.index as int].value
    }

    pub open spec fn const_of(&self, var: Variable) -> bool {
        self.cells@[var.index as int].is_const
    }

    /// `new` has one more cell than `old`, `cell`, and keeps every other.
    pub open spec fn grew(old: &Self, new: &Self, cell: VariableInstance) -> bool {
        new.cells@ == old.cells@.push(cell)
    }

    /// `new` is `old` with the value of `var` replaced.
    pub open spec fn wrote(old: &Self, new: &Self, var: Variable, value: Value) -> bool {
        new.cells@ == old.cells@.update(
            var.index as int,
            VariableInstance { value, is_const: old.cells@[var.index as int].is_const },
        )
    }
}

/// A handle to a cell of a `VariableStore`.
#[derive(Debug, Clone, Copy, PartialEq, Eq, Structural)]
pub struct Variable {
    pub index: usize,
}

impl Variable {
    /// A fresh, writable cell holding `value`.
    pub fn new(store: &mut VariableStore, value: Value) -> (r: Variable)
        ensures
            VariableStore::grew(old(store), final(store), (VariableInstance { value, is_const: false })),
            r.index == old(store).cells@.len(),
    {
        let index = store.cells.len();
        store.cells.push(VariableInstance::new(value));
        Variable { index }
    }

    /// A fresh cell holding `value` that can never be written.
    pub fn new_const(store: &mut VariableStore, value: Value) -> (r: Variable)
        ensures
            VariableStore::grew(old(store), final(store), (VariableInstance { value, is_const: true })),
            r.index == old(store).cells@.len(),
    {
        let index = store.cells.len();
        store.cells.push(VariableInstance::new_const(value));
        Variable { index }
    }

    /// Writes the value; fails, changing nothing, when the cell is const or
    /// not a cell of `store`.
    pub fn set(&self, store: &mut VariableStore, value: Value) -> (r: Result<(), Error>)
        ensures
            r is Ok == (old(store).holds(*self) && !old(store).const_of(*self)),
            r is Ok ==> VariableStore::wrote(old(store), final(store), *self, value),
            r is Err ==> *final(store) == *old(store),
    {
        if self.index >= store.cells.len() {
            return Err(Error::new(String::from_str("variable belongs to another environment"), None));
        }
        if store.cells[self.index].is_const() {
            return Err(Error::new(String::from_str("variable is const"), None));
        }
        store.cells.set(self.index, VariableInstance::new(value));
        Ok(())
    }

    /// A copy of the current value.
    pub fn get(&self, store: &VariableStore) -> (r: Value)
        requires
            store.holds(*self),
        ensures
            r@ == store.value_of(*self)@,
    {
        store.cells[self.index].get().clone()
    }

    pub fn is_const(&self, store: &VariableStore) -> (r: bool)
        requires
            store.holds(*self),
        ensures
            r == store.const_of(*self),
    {
        store.cells[self.index].is_const()
    }
}

} // verus!
