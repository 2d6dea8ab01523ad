//! The environment: the complete mutable state of a running program. It
//! owns the binding table, the stack of active scopes, and the loaded
//! program. Name resolution walks the active scopes from the innermost out
//! to the global scope `0`; later bindings of one name in one scope shadow
//! earlier ones. Entering a block pushes a fresh scope id from a counter
//! that never hands a value out twice, so bindings left behind by a popped
//! scope can never be found again.

use vstd::prelude::*;
use crate::chars::{chars_eq, copy_chars};
use crate::expression::{Expression, ExprV, duplicate_expression, value_view};
use crate::value::{Value, ValueV, duplicate_value};
use crate::tokenizer::sat_inc64;

verus! {

/// The key of one binding: the owning scope and the name.
#[derive(Debug)]
pub struct VariableId(pub u64, pub Vec<char>);

/// The mathematical image of a `VariableId`.
#[verifier::ext_equal]
pub struct VarIdV {
    pub scope: u64,
    pub name: Seq<char>,
}

impl View for VariableId {
    type V = VarIdV;

    open spec fn view(&self) -> VarIdV {
        VarIdV { scope: self.0, name: self.1@ }
    }
}

/// The views of the binding table.
pub open spec fn vals_view(s: Seq<(VariableId, Value)>) -> Seq<(VarIdV, ValueV)> {
    s.map_values(|p: (VariableId, Value)| (p.0@, value_view(p.1)))
}

/// The latest binding of `name` in one scope, if any.
pub open spec fn find_in(vals: Seq<(VarIdV, ValueV)>, scope: u64, name: Seq<char>) -> Option<
    ValueV,
>
    decreases vals.len(),
{
    if vals.len() == 0 {
        Option::None
    } else if vals.last().0.scope == scope && vals.last().0.name == name {
        Option::Some(vals.last().1)
    } else {
        find_in(vals.drop_last(), scope, name)
    }
}

/// Resolution along a scope chain, innermost scope last.
pub open spec fn lookup_chain(
    vals: Seq<(VarIdV, ValueV)>,
    scopes: Seq<u64>,
    name: Seq<char>,
) -> Option<ValueV>
    decreases scopes.len(),
{
    if scopes.len() == 0 {
        Option::None
    } else {
        match find_in(vals, scopes.last(), name) {
            Option::Some(v) => Option::Some(v),
            Option::None => lookup_chain(vals, scopes.drop_last(), name),
        }
    }
}

/// The mathematical image of an `Environment`.
#[verifier::ext_equal]
pub struct EnvV {
    pub vals: Seq<(VarIdV, ValueV)>,
    pub scopes: Seq<u64>,
    pub next_scope: u64,
    pub code: ExprV,
}

/// What a name denotes in an environment.
pub open spec fn env_lookup(e: EnvV, name: Seq<char>) -> Option<ValueV> {
    lookup_chain(e.vals, e.scopes, name)
}

/// An environment with one more binding in the given scope.
pub open spec fn env_define(e: EnvV, scope: u64, name: Seq<char>, v: ValueV) -> EnvV {
    EnvV { vals: e.vals.push((VarIdV { scope, name }, v)), ..e }
}

/// The environment: binding table, active scope chain, scope counter and
/// the loaded program.
#[derive(Debug)]
pub struct Environment {
    pub values: Vec<(VariableId, Value)>,
    pub scope_stack: Vec<u64>,
    pub next_scope: u64,
    pub code: Expression,
}

impl View for Environment {
    type V = EnvV;

    open spec fn view(&self) -> EnvV {
        EnvV {
            vals: vals_view(self.values@),
            scopes: self.scope_stack@,
            next_scope: self.next_scope,
            code: self.code@,
        }
    }
}

impl Environment {
    /// The state of a fresh environment.
    pub open spec fn new_spec() -> EnvV {
        EnvV {
            vals: Seq::empty(),
            scopes: seq![0u64],
            next_scope: 1,
            code: ExprV::VALUE(ValueV::NULL),
        }
    }

    /// The global scope is always at the bottom of the chain, and the
    /// binding views line up with the bindings.
    pub open spec fn wf(&self) -> bool {
        &&& self.scope_stack@.len() >= 1
        &&& self.scope_stack@[0] == 0
        &&& vals_view(self.values@).len() == self.values@.len()
        &&& forall|k: int|
            0 <= k < self.values@.len() ==> #[trigger] vals_view(self.values@)[k] == (
            self.values@[k].0@,
            value_view(self.values@[k].1),
            )
    }

    /// A fresh environment: only the global scope, no bindings, no
    /// program.
    pub fn new() -> (r: Environment)
        ensures
            r.wf(),
            r@.vals == Seq::<(VarIdV, ValueV)>::empty(),
            r@.scopes == seq![0u64],
            r@.next_scope == 1,
            r@.code == ExprV::VALUE(ValueV::NULL),
    {
        let mut scope_stack: Vec<u64> = Vec::new();
        scope_stack.push(0);
        let r = Environment {
            values: Vec::new(),
            scope_stack,
            next_scope: 1,
            code: Expression::VALUE(Value::NULL),
        };
        proof {
            crate::expression::lemma_value_null_view();
            assert(r@.vals =~= Seq::<(VarIdV, ValueV)>::empty());
            assert(r@.scopes =~= seq![0u64]);
        }
        r
    }

    /// The innermost active scope.
    pub fn current_scope(&self) -> (s: u64)
        requires
            self.wf(),
        ensures
            s == self@.scopes.last(),
    {
        self.scope_stack[self.scope_stack.len() - 1]
    }

    /// Installs a binding in the given scope, shadowing any earlier
    /// binding of the same name there.
    pub fn define(&mut self, scope: u64, name: Vec<char>, value: Value)
        requires
            old(self).wf(),
        ensures
            final(self).wf(),
            final(self)@ == env_define(old(self)@, scope, name@, value@),
    {
        let ghost vp = self.values@;
        self.values.push((VariableId(scope, name), value));
        proof {
            assert forall|k: int| 0 <= k < self.values@.len() implies #[trigger] vals_view(
                self.values@,
            )[k] == (self.values@[k].0@, value_view(self.values@[k].1)) by {}
            assert(vals_view(self.values@) =~= vals_view(vp).push(
                (self@.vals.last().0, self@.vals.last().1),
            ));
            assert(final(self)@ =~= env_define(old(self)@, scope, name@, value@));
        }
    }

    /// Resolves a name along the active scope chain, innermost first; the
    /// result is a copy of the stored value.
    pub fn lookup(&self, name: &Vec<char>) -> (r: Option<Value>)
        requires
            self.wf(),
        ensures
            match r {
                Option::Some(v) => env_lookup(self@, name@) == Option::Some(v@),
                Option::None => env_lookup(self@, name@) is None,
            },
    {
        let ghost valsv = vals_view(self.values@);
        let ghost scopesv = self.scope_stack@;
        let mut s: usize = self.scope_stack.len();
        proof {
            assert(scopesv.take(scopesv.len() as int) =~= scopesv);
        }
        while s > 0
            invariant
                self.wf(),
                s <= scopesv.len(),
                valsv == vals_view(self.values@),
                scopesv == self.scope_stack@,
                lookup_chain(valsv, scopesv, name@) == lookup_chain(
                    valsv,
                    scopesv.take(s as int),
                    name@,
                ),
            decreases s,
        {
            s = s - 1;
            let scope = self.scope_stack[s];
            let mut t: usize = self.values.len();
            proof {
                assert(valsv.take(valsv.len() as int) =~= valsv);
            }
            while t > 0
                invariant
                    self.wf(),
                    t <= self.values@.len(),
                    valsv == vals_view(self.values@),
                    scopesv == self.scope_stack@,
                    s < scopesv.len(),
                    scope == scopesv[s as int],
                    lookup_chain(valsv, scopesv, name@) == lookup_chain(
                        valsv,
                        scopesv.take(s as int + 1),
                        name@,
                    ),
                    find_in(valsv, scope, name@) == find_in(valsv.take(t as int), scope, name@),
                decreases t,
            {
                t = t - 1;
                let hit = self.values[t].0.0 == scope && chars_eq(&self.values[t].0.1, name);
                proof {
                    assert(valsv.take(t as int + 1).last() == valsv[t as int]);
                    assert(valsv.take(t as int + 1).drop_last() =~= valsv.take(t as int));
                    assert(valsv[t as int] == (self.values@[t as int].0@, value_view(
                        self.values@[t as int].1,
                    )));
                }
                if hit {
                    let v = duplicate_value(&self.values[t].1);
                    proof {
                        assert(find_in(valsv, scope, name@) == Option::Some(valsv[t as int].1));
                        assert(scopesv.take(s as int + 1).last() == scopesv[s as int]);
                        assert(lookup_chain(valsv, scopesv.take(s as int + 1), name@)
                            == Option::Some(valsv[t as int].1));
                    }
                    return Option::Some(v);
                }
            }
            proof {
                assert(valsv.take(0) =~= Seq::<(VarIdV, ValueV)>::empty());
                assert(find_in(valsv, scope, name@) is None);
                assert(scopesv.take(s as int + 1).last() == scopesv[s as int]);
                assert(scopesv.take(s as int + 1).drop_last() =~= scopesv.take(s as int));
            }
        }
        proof {
            assert(scopesv.take(0) =~= Seq::<u64>::empty());
        }
        Option::None
    }

    /// Enters a fresh scope and returns its id. Ids are handed out from a
    /// counter that saturates at the top of its range, which no real
    /// program reaches.
    pub fn push_scope(&mut self) -> (s: u64)
        requires
            old(self).wf(),
        ensures
            final(self).wf(),
            s == old(self)@.next_scope,
            final(self)@ == (EnvV {
                scopes: old(self)@.scopes.push(old(self)@.next_scope),
                next_scope: sat_inc64(old(self)@.next_scope),
                ..old(self)@
            }),
    {
        let s = self.next_scope;
        self.scope_stack.push(s);
        if self.next_scope < u64::MAX {
            self.next_scope = self.next_scope + 1;
        }
        s
    }

    /// Leaves the innermost scope. Its bindings stay in the table but can
    /// no longer be resolved, since scope ids are not reused.
    pub fn pop_scope(&mut self)
        requires
            old(self).wf(),
            old(self)@.scopes.len() > 1,
        ensures
            final(self).wf(),
            final(self)@ == (EnvV { scopes: old(self)@.scopes.drop_last(), ..old(self)@ }),
    {
        let _ = self.scope_stack.pop();
    }

    /// A full, independent copy: mutating the copy never affects this
    /// environment. The interactive loop evaluates against such a copy and
    /// commits it only on success.
    pub fn snapshot(&self) -> (r: Environment)
        requires
            self.wf(),
        ensures
            r.wf(),
            r@ == self@,
    {
        let mut values: Vec<(VariableId, Value)> = Vec::new();
        let mut i: usize = 0;
        while i < self.values.len()
            invariant
                self.wf(),
                i <= self.values@.len(),
                values@.len() == i,
                forall|j: int|
                    #![trigger values@[j]]
                    0 <= j < i ==> values@[j].0@ == self.values@[j].0@ && value_view(
                        values@[j].1,
                    ) == value_view(self.values@[j].1),
            decreases self.values@.len() - i,
        {
            let id = VariableId(self.values[i].0.0, copy_chars(&self.values[i].0.1));
            let v = duplicate_value(&self.values[i].1);
            values.push((id, v));
            i = i + 1;
        }
        let mut scope_stack: Vec<u64> = Vec::new();
        let mut k: usize = 0;
        while k < self.scope_stack.len()
            invariant
                k <= self.scope_stack@.len(),
                scope_stack@ == self.scope_stack@.take(k as int),
            decreases self.scope_stack@.len() - k,
        {
            scope_stack.push(self.scope_stack[k]);
            k = k + 1;
            proof {
                assert(scope_stack@ =~= self.scope_stack@.take(k as int));
            }
        }
        proof {
            assert(scope_stack@ =~= self.scope_stack@);
        }
        let r = Environment {
            values,
            scope_stack,
            next_scope: self.next_scope,
            code: duplicate_expression(&self.code),
        };
        proof {
            assert(vals_view(r.values@) =~= vals_view(self.values@));
            assert(r@ =~= self@);
        }
        r
    }
}

} // verus!
