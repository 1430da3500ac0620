//! Records: templates that name members, and instances built from them.

use crate::error::Error;
use crate::text::push_string;
use crate::value::Value;
use crate::variable::{Variable, VariableInstance, VariableStore};
use vstd::prelude::*;
use vstd::string::StringExecFns;

verus! {

/// The member names as character sequences.
pub open spec fn names(members: Seq<String>) -> Seq<Seq<char>> {
    members.map_values(|m: String| m@)
}

/// Index of the first entry named `id`, if any.
pub open spec fn position_in(keys: Seq<Seq<char>>, id: Seq<char>) -> Option<int>
    decreases keys.len(),
{
    if keys.len() == 0 {
        None
    } else if keys.last() == id {
        match position_in(keys.drop_last(), id) {
            Some(i) => Some(i),
            None => Some(keys.len() - 1),
        }
    } else {
        position_in(keys.drop_last(), id)
    }
}

pub proof fn lemma_position_in(keys: Seq<Seq<char>>, id: Seq<char>)
    ensures
        match position_in(keys, id) {
            Some(i) => 0 <= i < keys.len() && keys[i] == id && forall|j: int|
                0 <= j < i ==> keys[j] != id,
            None => forall|j: int| 0 <= j < keys.len() ==> keys[j] != id,
        },
    decreases keys.len(),
{
    if keys.len() > 0 {
        let d = keys.drop_last();
        lemma_position_in(d, id);
        assert(forall|j: int| 0 <= j < d.len() ==> d[j] == keys[j]);
    }
}

/// Finds the first position of `id` among `keys`.
pub fn find_name(keys: &Vec<String>, id: &String) -> (r: Option<usize>)
    ensures
        match r {
            Some(i) => i < keys@.len() && keys@[i as int]@ == id@ && forall|j: int|
                0 <= j < i ==> keys@[j]@ != id@,
            None => forall|j: int| 0 <= j < keys@.len() ==> keys@[j]@ != id@,
        },
{
    let mut i: usize = 0;
    while i < keys.len()
        invariant
            i <= keys@.len(),
            forall|j: int| 0 <= j < i ==> keys@[j]@ != id@,
        decreases keys@.len() - i,
    {
        if keys[i] == *id {
            return Some(i);
        }
        i += 1;
    }
    None
}

/// A record template: a set of distinct member names.
#[derive(Debug)]
pub struct StructureTemplate {
    pub members: Vec<String>,
}

impl StructureTemplate {
    pub open spec fn view(&self) -> Seq<Seq<char>> {
        names(self.members@)
    }

    /// The member names are distinct.
    pub open spec fn wf(&self) -> bool {
        forall|i: int, j: int|
            0 <= i < j < self.members@.len() ==> self.members@[i]@ != self.members@[j]@
    }

    /// Whether the member names are distinct.
    pub fn check_wf(&self) -> (r: bool)
        ensures
            r == self.wf(),
    {
        let mut i: usize = 0;
        while i < self.members.len()
            invariant
                i <= self.members@.len(),
                forall|a: int, b: int|
                    0 <= a < b < self.members@.len() && a < i ==> self.members@[a]@ != self.members@[b]@,
            decreases self.members@.len() - i,
        {
            let mut j: usize = i + 1;
            while j < self.members.len()
                invariant
                    i < j <= self.members@.len(),
                    forall|a: int, b: int|
                        0 <= a < b < self.members@.len() && a < i ==> self.members@[a]@ != self.members@[b]@,
                    forall|b: int| i < b < j ==> self.members@[i as int]@ != self.members@[b]@,
                decreases self.members@.len() - j,
            {
                if self.members[i] == self.members[j] {
                    return false;
                }
                j += 1;
            }
            i += 1;
        }
        true
    }

    pub fn new() -> (r: Self)
        ensures
            r.members@.len() == 0,
            r.wf(),
    {
        Self { members: Vec::new() }
    }

    /// Adds a member; fails if one of that name is already there.
    pub fn add_member(&mut self, identifier: &String) -> (r: Result<(), Error>)
        requires
            old(self).wf(),
        ensures
            final(self).wf(),
            (exists|i: int| 0 <= i < old(self).members@.len() && old(self).members@[i]@ == identifier@)
                ==> r is Err && final(self).members@ == old(self).members@,
            (forall|i: int| 0 <= i < old(self).members@.len() ==> old(self).members@[i]@ != identifier@)
                ==> r is Ok && final(self).members@ == old(self).members@.push(*identifier),
    {
        if let Some(_) = find_name(&self.members, identifier) {
            let mut message = String::from_str("member identifier \"");
            push_string(&mut message, identifier);
            push_string(&mut message, &String::from_str("\" in struct already exists"));
            return Err(Error::new(message, None));
        }
        self.members.push(identifier.clone());
        Ok(())
    }

    pub fn get_members(&self) -> (r: &Vec<String>)
        ensures
            r == self.members,
    {
        &self.members
    }
}

impl Clone for StructureTemplate {
    fn clone(&self) -> (r: Self)
        ensures
            r.members@ == self.members@,
    {
        let mut members: Vec<String> = Vec::new();
        let mut i: usize = 0;
        while i < self.members.len()
            invariant
                i <= self.members@.len(),
                members@ == self.members@.subrange(0, i as int),
            decreases self.members@.len() - i,
        {
            members.push(self.members[i].clone());
            i += 1;
            assert(members@ =~= self.members@.subrange(0, i as int));
        }
        assert(members@ =~= self.members@);
        StructureTemplate { members }
    }
}

/// A record instance: one variable per member of the template it was built
/// from.
#[derive(Debug, PartialEq)]
pub struct StructureInstance {
    pub names: Vec<String>,
    pub members: Vec<Variable>,
}

impl Clone for StructureInstance {
    /// Another handle to the same member cells.
    fn clone(&self) -> (r: Self)
        ensures
            r.names@ == self.names@,
            r.members@ == self.members@,
    {
        let mut names: Vec<String> = Vec::new();
        let mut i: usize = 0;
        while i < self.names.len()
            invariant
                i <= self.names@.len(),
                names@ == self.names@.subrange(0, i as int),
            decreases self.names@.len() - i,
        {
            names.push(self.names[i].clone());
            i += 1;
            assert(names@ =~= self.names@.subrange(0, i as int));
        }
        let mut members: Vec<Variable> = Vec::new();
        let mut i: usize = 0;
        while i < self.members.len()
            invariant
                i <= self.members@.len(),
                members@ == self.members@.subrange(0, i as int),
            decreases self.members@.len() - i,
        {
            members.push(self.members[i]);
            i += 1;
            assert(members@ =~= self.members@.subrange(0, i as int));
        }
        assert(names@ =~= self.names@);
        assert(members@ =~= self.members@);
        StructureInstance { names, members }
    }
}

impl StructureInstance {
    /// The names and the member cells correspond one to one, and no two
    /// members share a cell.
    pub open spec fn wf(&self) -> bool {
        &&& self.names@.len() == self.members@.len()
        &&& forall|i: int, j: int|
            0 <= i < j < self.members@.len() ==> (#[trigger] self.members@[i]).index != (
            #[trigger] self.members@[j]).index
    }

    /// The cell of member `id`, if the instance has that member.
    pub open spec fn member(&self, id: Seq<char>) -> Option<Variable> {
        match position_in(names(self.names@), id) {
            Some(i) => Some(self.members@[i]),
            None => None,
        }
    }

    /// Each member cell is a cell of `store`.
    pub open spec fn lives_in(&self, store: &VariableStore) -> bool {
        forall|i: int| 0 <= i < self.members@.len() ==> store.holds(#[trigger] self.members@[i])
    }

    /// One fresh, writable, `Null` cell per member of the template.
    pub fn from_template(structure_template: &StructureTemplate, store: &mut VariableStore) -> (r: Self)
        ensures
            r.wf(),
            r.lives_in(final(store)),
            names(r.names@) == structure_template@,
            r.members@.len() == structure_template.members@.len(),
            final(store).cells@.len() == old(store).cells@.len() + r.members@.len(),
            final(store).cells@.subrange(0, old(store).cells@.len() as int) == old(store).cells@,
            forall|i: int| 0 <= i < r.members@.len() ==> (#[trigger] r.members@[i]).index == old(store).cells@.len() + i,
            forall|i: int| old(store).cells@.len() <= i < final(store).cells@.len() ==>
                (#[trigger] final(store).cells@[i]) == (VariableInstance { value: Value::Null, is_const: false }),
    {
        let template = structure_template.clone();
        let ghost start = store.cells@.len();
        let mut members: Vec<Variable> = Vec::new();
        let mut i: usize = 0;
        while i < template.members.len()
            invariant
                i <= template.members@.len(),
                members@.len() == i,
                store.cells@.len() == start + i,
                store.cells@.subrange(0, start as int) == old(store).cells@,
                start == old(store).cells@.len(),
                forall|k: int| 0 <= k < i ==> (#[trigger] members@[k]).index == start + k,
                forall|k: int| start <= k < store.cells@.len() ==>
                    (#[trigger] store.cells@[k]) == (VariableInstance { value: Value::Null, is_const: false }),
            decreases template.members@.len() - i,
        {
            let ghost before = store.cells@;
            let v = Variable::new(store, Value::Null);
            members.push(v);
            i += 1;
            assert(store.cells@.subrange(0, start as int) =~= before.subrange(0, start as int));
        }
        let r = StructureInstance { names: template.members, members };
        assert(names(r.names@) =~= structure_template@);
        r
    }

    pub fn has_member(&self, identifier: &String) -> (r: bool)
        requires
            self.wf(),
        ensures
            r == self.member(identifier@) is Some,
    {
        proof {
            lemma_position_in(names(self.names@), identifier@);
        }
        match find_name(&self.names, identifier) {
            Some(i) => {
                proof { lemma_first_position(names(self.names@), identifier@, i as int); }
                true
            },
            None => false,
        }
    }

    /// A copy of the value of member `identifier`, if there is one.
    pub fn get_member(&self, identifier: &String, store: &VariableStore) -> (r: Option<Value>)
        requires
            self.wf(),
            self.lives_in(store),
        ensures
            match self.member(identifier@) {
                Some(v) => r is Some && r->0@ == store.value_of(v)@,
                None => r is None,
            },
    {
        proof {
            lemma_position_in(names(self.names@), identifier@);
        }
        match find_name(&self.names, identifier) {
            Some(i) => {
                proof { lemma_first_position(names(self.names@), identifier@, i as int); }
                Some(self.members[i].get(store))
            },
            None => None,
        }
    }

    /// Writes member `identifier`; fails if there is no such member or it
    /// is const.
    pub fn set_member(&self, identifier: &String, value: Value, store: &mut VariableStore) -> (r: Result<(), Error>)
        requires
            self.wf(),
            self.lives_in(old(store)),
        ensures
            match self.member(identifier@) {
                Some(v) => if old(store).const_of(v) {
                    r is Err && *final(store) == *old(store)
                } else {
                    r is Ok && VariableStore::wrote(old(store), final(store), v, value)
                },
                None => r is Err && *final(store) == *old(store),
            },
            final(store).cells@.len() == old(store).cells@.len(),
            forall|w: Variable|
                old(store).holds(w) && (self.member(identifier@) is None || w.index != self.member(
                    identifier@,
                )->0.index) ==> #[trigger] final(store).value_of(w) == old(store).value_of(w),
    {
        proof {
            lemma_position_in(names(self.names@), identifier@);
        }
        match find_name(&self.names, identifier) {
            Some(i) => {
                proof { lemma_first_position(names(self.names@), identifier@, i as int); }
                let member = self.members[i];
                if member.is_const(store) {
                    let mut message = String::from_str("member: \"");
                    push_string(&mut message, identifier);
                    push_string(&mut message, &String::from_str("\" is const"));
                    Err(Error::new(message, None))
                } else {
                    let _ = member.set(store, value);
                    Ok(())
                }
            },
            None => {
                let mut message = String::from_str("member: \"");
                push_string(&mut message, identifier);
                push_string(&mut message, &String::from_str("\" does not exist"));
                Err(Error::new(message, None))
            },
        }
    }
}

/// Two instances built one after the other from one template have separate
/// cells: writing a member of the first leaves the second's unchanged.
pub proof fn law_instances_are_independent(
    a: &StructureInstance,
    b: &StructureInstance,
    st0: &VariableStore,
    st1: &VariableStore,
    st2: &VariableStore,
    st3: &VariableStore,
    id: Seq<char>,
    value: Value,
)
    requires
        a.wf(),
        b.wf(),
        forall|i: int| 0 <= i < a.members@.len() ==> (#[trigger] a.members@[i]).index == st0.cells@.len() + i,
        st1.cells@.len() == st0.cells@.len() + a.members@.len(),
        forall|i: int| 0 <= i < b.members@.len() ==> (#[trigger] b.members@[i]).index == st1.cells@.len() + i,
        st2.cells@.len() == st1.cells@.len() + b.members@.len(),
        a.member(id) is Some,
        b.member(id) is Some,
        st2.holds(a.member(id)->0),
        VariableStore::wrote(st2, st3, a.member(id)->0, value),
    ensures
        st3.value_of(b.member(id)->0) == st2.value_of(b.member(id)->0),
{
    lemma_position_in(names(a.names@), id);
    lemma_position_in(names(b.names@), id);
}

/// After `set_member` writes a member, `get_member` of that member gives the
/// value written, and the other members keep theirs.
pub proof fn law_member_reads_back(
    instance: &StructureInstance,
    st0: &VariableStore,
    st1: &VariableStore,
    id: Seq<char>,
    other: Seq<char>,
    value: Value,
)
    requires
        instance.wf(),
        instance.lives_in(st0),
        instance.member(id) is Some,
        !st0.const_of(instance.member(id)->0),
        VariableStore::wrote(st0, st1, instance.member(id)->0, value),
        instance.member(other) is Some,
        other != id,
    ensures
        instance.lives_in(st1),
        st1.value_of(instance.member(id)->0) == value,
        st1.value_of(instance.member(other)->0) == st0.value_of(instance.member(other)->0),
{
    lemma_position_in(names(instance.names@), id);
    lemma_position_in(names(instance.names@), other);
    let a = instance.member(id)->0;
    let b = instance.member(other)->0;
    assert(st0.holds(a));
    assert(st0.holds(b));
    let pa = position_in(names(instance.names@), id)->0;
    let pb = position_in(names(instance.names@), other)->0;
    assert(pa != pb);
    assert(a.index != b.index);
}

/// A position found by a front-to-back search is the first position.
pub proof fn lemma_first_position(keys: Seq<Seq<char>>, id: Seq<char>, i: int)
    requires
        0 <= i < keys.len(),
        keys[i] == id,
        forall|j: int| 0 <= j < i ==> keys[j] != id,
    ensures
        position_in(keys, id) == Some(i),
    decreases keys.len(),
{
    lemma_position_in(keys, id);
    if keys.len() > 0 && i < keys.len() - 1 {
        lemma_first_position(keys.drop_last(), id, i);
    } else if keys.len() > 0 {
        lemma_position_in(keys.drop_last(), id);
    }
}

} // verus!
