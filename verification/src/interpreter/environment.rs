use crate::interpreter::value::{Value, ValueView};
use vstd::hash_map::StringHashMap;
use vstd::prelude::*;

verus! {

/// The bindings of one scope: the value of each name that the scope defines.
pub type Scope = Map<Seq<char>, ValueView>;

/// The values of the bindings that a scope stores.
pub open spec fn scope_view(values: Map<Seq<char>, Value>) -> Scope {
    values.map_values(|value: Value| value@)
}

/// The binding of `name` that is nearest in the chain `scopes`, which runs
/// from the innermost scope outward, or nothing where no scope defines it.
pub open spec fn lookup(scopes: Seq<Scope>, name: Seq<char>) -> Option<ValueView>
    decreases scopes.len(),
{
    if scopes.len() == 0 {
        None
    } else if scopes[0].contains_key(name) {
        Some(scopes[0][name])
    } else {
        lookup(scopes.drop_first(), name)
    }
}

/// The chain after `name` is bound to `value` in its innermost scope.
pub open spec fn defined(scopes: Seq<Scope>, name: Seq<char>, value: ValueView) -> Seq<Scope>
    recommends
        scopes.len() > 0,
{
    scopes.update(0, scopes[0].insert(name, value))
}

/// The chain after the nearest binding of `name` is changed to `value`; the
/// chain itself where no scope defines `name`.
pub open spec fn assigned(scopes: Seq<Scope>, name: Seq<char>, value: ValueView) -> Seq<Scope>
    decreases scopes.len(),
{
    if scopes.len() == 0 {
        scopes
    } else if scopes[0].contains_key(name) {
        scopes.update(0, scopes[0].insert(name, value))
    } else {
        seq![scopes[0]] + assigned(scopes.drop_first(), name, value)
    }
}

/// The message that reports `name` as undefined.
pub open spec fn undefined_variable(name: Seq<char>) -> Seq<char> {
    "Undefined variable '"@ + name + "'"@
}

/// The message that reports `name` as undefined.
pub fn undefined_variable_message(name: &str) -> (message: String)
    ensures
        message@ == undefined_variable(name@),
{
    let mut message = String::from_str("Undefined variable '");
    message.append(name);
    message.append("'");
    message
}

/// Whether `part` stands somewhere in `text`.
pub open spec fn holds_text(text: Seq<char>, part: Seq<char>) -> bool {
    exists|at: int|
        0 <= at && at + part.len() <= text.len() && #[trigger] text.subrange(
            at,
            at + part.len(),
        ) == part
}

/// The message that reports a name as undefined holds the name.
pub proof fn lemma_message_names_variable(name: Seq<char>)
    ensures
        holds_text(undefined_variable(name), name),
{
    reveal_strlit("Undefined variable '");
    reveal_strlit("'");
    let message = undefined_variable(name);
    assert(message.subrange(20, 20 + name.len() as int) =~= name);
}

/// A name is bound to the value with which it was last defined.
pub proof fn lemma_define_then_get(scopes: Seq<Scope>, name: Seq<char>, value: ValueView)
    requires
        scopes.len() > 0,
    ensures
        lookup(defined(scopes, name, value), name) == Some(value),
{
}

/// Defining a name leaves the bindings of every other name as they were.
pub proof fn lemma_define_keeps_others(
    scopes: Seq<Scope>,
    name: Seq<char>,
    value: ValueView,
    other: Seq<char>,
)
    requires
        scopes.len() > 0,
        other != name,
    ensures
        lookup(defined(scopes, name, value), other) == lookup(scopes, other),
{
    assert(defined(scopes, name, value).drop_first() =~= scopes.drop_first());
}

/// A name that some scope defines is bound to the value that was last
/// assigned to it.
pub proof fn lemma_assign_then_get(scopes: Seq<Scope>, name: Seq<char>, value: ValueView)
    requires
        lookup(scopes, name) is Some,
    ensures
        lookup(assigned(scopes, name, value), name) == Some(value),
    decreases scopes.len(),
{
    if scopes.len() > 0 && !scopes[0].contains_key(name) {
        lemma_assign_then_get(scopes.drop_first(), name, value);
        let after = assigned(scopes, name, value);
        assert(after.drop_first() =~= assigned(scopes.drop_first(), name, value));
    }
}

/// Assigning to a name that no scope defines binds nothing: the chain stays
/// as it was, the name stays undefined, and the failure's message holds the
/// name.
pub proof fn lemma_assign_undefined(scopes: Seq<Scope>, name: Seq<char>, value: ValueView)
    requires
        lookup(scopes, name) is None,
    ensures
        assigned(scopes, name, value) == scopes,
        lookup(assigned(scopes, name, value), name) is None,
        holds_text(undefined_variable(name), name),
    decreases scopes.len(),
{
    lemma_message_names_variable(name);
    if scopes.len() > 0 {
        lemma_assign_undefined(scopes.drop_first(), name, value);
        assert(seq![scopes[0]] + scopes.drop_first() =~= scopes);
    }
}

/// A scope of variables, with the scope that encloses it, if there is one.
pub struct Environment {
    values: StringHashMap<Value>,
    parent: Option<Box<Environment>>,
}

impl Environment {
    /// The chain of scopes, from this one outward to the global scope.
    pub closed spec fn scopes(self) -> Seq<Scope>
        decreases self,
    {
        seq![scope_view(self.values@)] + match self.parent {
            Some(parent) => parent.scopes(),
            None => Seq::empty(),
        }
    }

    /// A global scope without bindings.
    pub fn new() -> (env: Environment)
        ensures
            env@ == seq![Map::<Seq<char>, ValueView>::empty()],
    {
        let env = Environment { values: StringHashMap::new(), parent: None };
        proof {
            assert(scope_view(env.values@) =~= Map::<Seq<char>, ValueView>::empty());
            assert(env.scopes() =~= seq![Map::<Seq<char>, ValueView>::empty()]);
        }
        env
    }

    /// A scope without bindings inside `parent`.
    pub fn withParent(parent: Environment) -> (env: Environment)
        ensures
            env@ == seq![Map::<Seq<char>, ValueView>::empty()] + parent@,
    {
        let env = Environment { values: StringHashMap::new(), parent: Some(Box::new(parent)) };
        proof {
            assert(scope_view(env.values@) =~= Map::<Seq<char>, ValueView>::empty());
        }
        env
    }

    /// Binds `name` to `value` in this scope, whether or not the scope or one
    /// that encloses it already defines `name`.
    pub fn define(&mut self, name: String, value: Value)
        ensures
            final(self)@ == defined(old(self)@, name@, value@),
    {
        self.values.insert(name, value);
        proof {
            assert(scope_view(self.values@) =~= scope_view(old(self).values@).insert(
                name@,
                value@,
            ));
            assert(self.scopes() =~= defined(old(self).scopes(), name@, value@));
        }
    }

    /// The nearest binding of `name`, or nothing where no scope of the chain
    /// defines it.
    pub fn get(&self, name: &str) -> (found: Option<&Value>)
        ensures
            match found {
                Some(value) => lookup(self@, name@) == Some(value@),
                None => lookup(self@, name@) is None,
            },
        decreases self,
    {
        proof {
            self.lemma_scopes();
        }
        if let Some(v) = self.values.get(name) {
            assert(lookup(self.scopes(), name@) == Some(v@));
            Some(v)
        } else if let Some(parent) = &self.parent {
            assert(lookup(self.scopes(), name@) == lookup(parent.scopes(), name@));
            parent.get(name)
        } else {
            assert(lookup(self.scopes().drop_first(), name@) is None);
            None
        }
    }

    /// Changes the nearest binding of `name` to `value`. Where no scope of the
    /// chain defines `name`, nothing is bound and the call fails.
    pub fn assign(&mut self, name: &str, value: Value) -> (result: Result<(), String>)
        ensures
            match result {
                Ok(_) => {
                    &&& lookup(old(self)@, name@) is Some
                    &&& final(self)@ == assigned(old(self)@, name@, value@)
                },
                Err(message) => {
                    &&& lookup(old(self)@, name@) is None
                    &&& final(self)@ == old(self)@
                    &&& message@ == undefined_variable(name@)
                },
            },
        decreases *old(self),
    {
        proof {
            self.lemma_scopes();
        }
        if self.values.contains_key(name) {
            self.values.insert(name.to_string(), value);
            proof {
                broadcast use vstd::string::group_string_axioms;

                assert(scope_view(self.values@) =~= scope_view(old(self).values@).insert(
                    name@,
                    value@,
                ));
                assert(self.scopes() =~= assigned(old(self).scopes(), name@, value@));
            }
            Ok(())
        } else if let Some(parent) = &mut self.parent {
            let ghost outer = parent.scopes();
            assert(lookup(old(self).scopes(), name@) == lookup(outer, name@));
            assert(assigned(old(self).scopes(), name@, value@) == seq![old(self).scopes()[0]]
                + assigned(outer, name@, value@));
            let result = parent.assign(name, value);
            proof {
                self.lemma_scopes();
                assert(self.scopes() =~= seq![self.scopes()[0]] + parent.scopes());
                assert(old(self).scopes() =~= seq![old(self).scopes()[0]] + outer);
            }
            result
        } else {
            assert(lookup(old(self).scopes().drop_first(), name@) is None);
            Err(undefined_variable_message(name))
        }
    }

    /// The chain of an environment holds at least the environment's own scope.
    pub proof fn lemma_has_scope(self)
        ensures
            self@.len() > 0,
    {
        self.lemma_scopes();
    }

    /// The chain begins with this scope and goes on with the chain of the
    /// enclosing one.
    proof fn lemma_scopes(self)
        ensures
            self.scopes().len() > 0,
            self.scopes()[0] == scope_view(self.values@),
            self.scopes().drop_first() == match self.parent {
                Some(parent) => parent.scopes(),
                None => Seq::empty(),
            },
    {
        let rest = match self.parent {
            Some(parent) => parent.scopes(),
            None => Seq::empty(),
        };
        assert(self.scopes().drop_first() =~= rest);
    }
}

impl View for Environment {
    type V = Seq<Scope>;

    closed spec fn view(&self) -> Seq<Scope> {
        self.scopes()
    }
}

} // verus!
