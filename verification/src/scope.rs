//! The scope store: the variables, one scope per active call, and the table
//! of functions.

use crate::value::{Operand, Value};
use vstd::hash_map::StringHashMap;
use vstd::prelude::*;

verus! {

/// One scope: the values of the names bound in it.
pub type Scope = Map<Seq<char>, Value>;

/// The value of `name` in a sequence of scopes, the innermost scope last:
/// that of the innermost scope that binds the name.
pub open spec fn lookup(scopes: Seq<Scope>, name: Seq<char>) -> Option<Value>
    decreases scopes.len(),
{
    if scopes.len() == 0 {
        None
    } else if scopes.last().contains_key(name) {
        Some(scopes.last()[name])
    } else {
        lookup(scopes.drop_last(), name)
    }
}

/// The scopes after binding `name` to `value` in the innermost one.
pub open spec fn bind(scopes: Seq<Scope>, name: Seq<char>, value: Value) -> Seq<Scope>
    recommends
        scopes.len() > 0,
{
    scopes.update(scopes.len() - 1, scopes.last().insert(name, value))
}

/// The variables and the functions of one run.
///
/// There is always at least one scope: the global one, which is the first
/// and stays for the whole run.
pub struct VarStore {
    global: StringHashMap<Operand>,
    locals: Vec<StringHashMap<Operand>>,
    funcs: StringHashMap<usize>,
}

/// What a scope of the store stands for.
pub open spec fn scope_of(m: Map<Seq<char>, Operand>) -> Scope {
    m.map_values(|o: Operand| o@)
}

impl VarStore {
    /// The scopes, the global one first and the innermost one last.
    pub closed spec fn scopes(&self) -> Seq<Scope> {
        seq![scope_of(self.global@)] + Seq::new(
            self.locals@.len(),
            |i: int| scope_of(self.locals@[i]@),
        )
    }

    /// The table of functions: for each name the cursor in front of the
    /// opening brace of its body.
    pub closed spec fn funcs(&self) -> Map<Seq<char>, usize> {
        self.funcs@
    }

    /// A store with an empty global scope and no functions.
    pub fn new() -> (vs: VarStore)
        ensures
            vs.scopes() == seq![Map::<Seq<char>, Value>::empty()],
            vs.funcs() == Map::<Seq<char>, usize>::empty(),
    {
        let vs = VarStore {
            global: StringHashMap::new(),
            locals: Vec::new(),
            funcs: StringHashMap::new(),
        };
        assert(scope_of(vs.global@) =~= Map::<Seq<char>, Value>::empty());
        vs
    }

    /// The global scope is always there.
    pub proof fn lemma_global_scope(&self)
        ensures
            self.scopes().len() >= 1,
    {
    }

    /// The number of scopes that calls have opened: all but the global one.
    pub fn depth(&self) -> (n: usize)
        ensures
            n + 1 == self.scopes().len(),
    {
        self.locals.len()
    }

    /// A copy of the value of `name`: the scopes are searched from the
    /// innermost to the global one, and the first that binds the name decides.
    pub fn get_var(&self, name: &str) -> (r: Option<Operand>)
        ensures
            match lookup(self.scopes(), name@) {
                Some(v) => r matches Some(o) && o@ == v,
                None => r is None,
            },
    {
        let mut i = self.locals.len();
        assert(self.scopes().take(i + 1) =~= self.scopes());
        while i > 0
            invariant
                i <= self.locals@.len(),
                lookup(self.scopes(), name@) == lookup(self.scopes().take(i + 1), name@),
            decreases i,
        {
            assert(self.scopes().take(i + 1).drop_last() =~= self.scopes().take(i as int));
            match self.locals[i - 1].get(name) {
                Some(v) => {
                    return Some(v.clone());
                },
                None => {},
            }
            i -= 1;
        }
        assert(self.scopes().take(1).drop_last() =~= Seq::<Scope>::empty());
        assert(lookup(Seq::<Scope>::empty(), name@) is None);
        match self.global.get(name) {
            Some(v) => Some(v.clone()),
            None => None,
        }
    }

    /// Binds `name` to `val` in the innermost scope. No outer scope changes,
    /// even where it binds the same name.
    pub fn set_var(&mut self, name: String, val: Operand)
        ensures
            final(self).scopes() == bind(old(self).scopes(), name@, val@),
            final(self).funcs() == old(self).funcs(),
    {
        let n = self.locals.len();
        if n == 0 {
            self.global.insert(name, val);
            assert(scope_of(self.global@) =~= scope_of(old(self).global@).insert(name@, val@));
        } else {
            self.locals[n - 1].insert(name, val);
            assert(scope_of(self.locals@[n - 1]@) =~= scope_of(old(self).locals@[n - 1]@).insert(
                name@,
                val@,
            ));
        }
    }

    /// Opens a new, empty innermost scope.
    pub fn new_scope(&mut self)
        ensures
            final(self).scopes() == old(self).scopes().push(Map::<Seq<char>, Value>::empty()),
            final(self).funcs() == old(self).funcs(),
    {
        self.locals.push(StringHashMap::new());
        assert(scope_of(self.locals@.last()@) =~= Map::<Seq<char>, Value>::empty());
    }

    /// Drops the innermost scope. The global scope cannot be dropped.
    pub fn destroy_scope(&mut self)
        requires
            old(self).scopes().len() > 1,
        ensures
            final(self).scopes() == old(self).scopes().drop_last(),
            final(self).funcs() == old(self).funcs(),
    {
        self.locals.pop();
    }

    /// Enters the function `name` with the cursor `pos` in the table. An
    /// earlier entry of that name is replaced.
    pub fn set_func(&mut self, name: String, pos: usize)
        ensures
            final(self).funcs() == old(self).funcs().insert(name@, pos),
            final(self).scopes() == old(self).scopes(),
    {
        self.funcs.insert(name, pos);
    }

    /// The cursor that the table holds for the function `name`.
    pub fn get_func(&self, name: &str) -> (r: Option<usize>)
        ensures
            r == (if self.funcs().contains_key(name@) {
                Some(self.funcs()[name@])
            } else {
                None
            }),
    {
        match self.funcs.get(name) {
            Some(pos) => Some(*pos),
            None => None,
        }
    }
}

} // verus!
