//! Environments: the scopes that exist at run time, each a list of bindings
//! and a link to the scope around it.
//!
//! Scopes live in one arena and are addressed by index, so that closures and
//! call frames can share a scope and see each other's writes.

use vstd::prelude::*;
use crate::runtime::control_flow::{ControlFlow, Outcome, Signal};
use crate::runtime::function::EnvRef;
use crate::runtime::runtime_error::{RuntimeError, RuntimeErrorView};
use crate::runtime::value::{Value, ValueView};
use crate::text::{push_text, str_equals};

verus! {

/// A name and the value bound to it.
#[derive(Debug)]
pub struct Binding<'a> {
    pub name: String,
    pub value: Value<'a>,
}

/// The mathematical content of a [`Binding`].
pub struct BindingView {
    pub name: Seq<char>,
    pub value: ValueView,
}

impl<'a> View for Binding<'a> {
    type V = BindingView;

    open spec fn view(&self) -> BindingView {
        BindingView { name: self.name@, value: self.value@ }
    }
}

/// One scope instance: its bindings and the scope around it.
#[derive(Debug)]
pub struct Scope<'a> {
    pub enclosing: Option<EnvRef>,
    pub bindings: Vec<Binding<'a>>,
}

/// The mathematical content of a [`Scope`].
pub struct ScopeView {
    pub enclosing: Option<nat>,
    pub bindings: Seq<BindingView>,
}

impl<'a> View for Scope<'a> {
    type V = ScopeView;

    open spec fn view(&self) -> ScopeView {
        ScopeView {
            enclosing: match self.enclosing {
                Some(p) => Some(p as nat),
                None => None,
            },
            bindings: self.bindings@.map_values(|b: Binding<'a>| b@),
        }
    }
}

/// The first position at or after `from` where `bindings` binds `name`.
pub open spec fn position(bindings: Seq<BindingView>, name: Seq<char>, from: int) -> Option<int>
    decreases bindings.len() - from,
{
    if from < 0 || from >= bindings.len() {
        None
    } else if bindings[from].name == name {
        Some(from)
    } else {
        position(bindings, name, from + 1)
    }
}

impl ScopeView {
    /// An empty scope inside `enclosing`.
    pub open spec fn empty(enclosing: Option<nat>) -> ScopeView {
        ScopeView { enclosing, bindings: Seq::empty() }
    }

    /// Where the scope binds `name`, if it does.
    pub open spec fn find(self, name: Seq<char>) -> Option<int> {
        position(self.bindings, name, 0)
    }

    /// Whether the scope itself binds `name`.
    pub open spec fn binds(self, name: Seq<char>) -> bool {
        self.find(name) is Some
    }

    /// The value the scope itself binds to `name`.
    pub open spec fn lookup(self, name: Seq<char>) -> Option<ValueView> {
        match self.find(name) {
            Some(i) => Some(self.bindings[i].value),
            None => None,
        }
    }

    /// The scope with `name` bound to `value`: in place of an earlier binding
    /// of the name, or else as a new binding.
    pub open spec fn define(self, name: Seq<char>, value: ValueView) -> ScopeView {
        ScopeView {
            enclosing: self.enclosing,
            bindings: match self.find(name) {
                Some(i) => self.bindings.update(i, BindingView { name, value }),
                None => self.bindings.push(BindingView { name, value }),
            },
        }
    }
}

/// A found position lies inside the bindings, at or after the start, holds
/// the name, and no earlier position from the start does.
pub proof fn lemma_position(bindings: Seq<BindingView>, name: Seq<char>, from: int)
    requires
        0 <= from,
    ensures
        match position(bindings, name, from) {
            Some(i) => from <= i < bindings.len() && bindings[i].name == name && forall|j: int|
                from <= j < i ==> bindings[j].name != name,
            None => forall|j: int| from <= j < bindings.len() ==> bindings[j].name != name,
        },
    decreases bindings.len() - from,
{
    if from < bindings.len() && bindings[from].name != name {
        lemma_position(bindings, name, from + 1);
    }
}

/// The scopes reached from `scope` by exactly `distance` steps outward.
pub open spec fn ancestor(scopes: Seq<ScopeView>, scope: int, distance: nat) -> Option<int>
    decreases distance,
{
    if scope < 0 || scope >= scopes.len() {
        None
    } else if distance == 0 {
        Some(scope)
    } else {
        match scopes[scope].enclosing {
            Some(p) => ancestor(scopes, p as int, (distance - 1) as nat),
            None => None,
        }
    }
}

/// The nearest scope, from `scope` outward, that binds `name`. The walk
/// follows links to older scopes only, so it ends.
pub open spec fn defining_scope(scopes: Seq<ScopeView>, scope: int, name: Seq<char>) -> Option<int>
    decreases scope,
{
    if scope < 0 || scope >= scopes.len() {
        None
    } else if scopes[scope].binds(name) {
        Some(scope)
    } else {
        match scopes[scope].enclosing {
            Some(p) => if p < scope {
                defining_scope(scopes, p as int, name)
            } else {
                None
            },
            None => None,
        }
    }
}

/// The message for a name that no scope binds.
pub open spec fn undefined_message(name: Seq<char>) -> Seq<char> {
    "Undefined variable '"@ + name + "'."@
}

/// The error for a name that no scope binds.
pub open spec fn undefined(name: Seq<char>, line: nat) -> Signal {
    Signal::RuntimeError(RuntimeErrorView { line, message: undefined_message(name) })
}

/// The value of `name` as seen from `scope`: that of the nearest scope that
/// binds it.
pub open spec fn get(scopes: Seq<ScopeView>, scope: int, name: Seq<char>, line: nat) -> Outcome {
    match defining_scope(scopes, scope, name) {
        Some(s) => Ok(scopes[s].lookup(name).unwrap()),
        None => Err(undefined(name, line)),
    }
}

/// The value that the scope `distance` steps out from `scope` itself binds
/// to `name`.
pub open spec fn get_at(
    scopes: Seq<ScopeView>,
    scope: int,
    distance: nat,
    name: Seq<char>,
    line: nat,
) -> Outcome {
    match ancestor(scopes, scope, distance) {
        Some(s) => match scopes[s].lookup(name) {
            Some(v) => Ok(v),
            None => Err(undefined(name, line)),
        },
        None => Err(undefined(name, line)),
    }
}

/// The scopes after `name` is bound to `value` in `scope` itself.
pub open spec fn define(
    scopes: Seq<ScopeView>,
    scope: int,
    name: Seq<char>,
    value: ValueView,
) -> Seq<ScopeView> {
    if 0 <= scope < scopes.len() {
        scopes.update(scope, scopes[scope].define(name, value))
    } else {
        scopes
    }
}

/// The scopes after `value` is assigned to `name` as seen from `scope`: the
/// nearest scope that binds the name takes the value.
pub open spec fn assign(
    scopes: Seq<ScopeView>,
    scope: int,
    name: Seq<char>,
    value: ValueView,
    line: nat,
) -> Result<Seq<ScopeView>, Signal> {
    match defining_scope(scopes, scope, name) {
        Some(s) => Ok(define(scopes, s, name, value)),
        None => Err(undefined(name, line)),
    }
}

/// The scopes after `value` is assigned to `name` in the scope `distance`
/// steps out from `scope`, which must bind the name itself.
pub open spec fn assign_at(
    scopes: Seq<ScopeView>,
    scope: int,
    distance: nat,
    name: Seq<char>,
    value: ValueView,
    line: nat,
) -> Result<Seq<ScopeView>, Signal> {
    match ancestor(scopes, scope, distance) {
        Some(s) => if scopes[s].binds(name) {
            Ok(define(scopes, s, name, value))
        } else {
            Err(undefined(name, line))
        },
        None => Err(undefined(name, line)),
    }
}

impl<'a> Scope<'a> {
    /// Where the scope binds `name`, if it does.
    pub fn find(&self, name: &str) -> (r: Option<usize>)
        ensures
            match r {
                Some(i) => self@.find(name@) == Some(i as int) && i < self.bindings.len(),
                None => self@.find(name@).is_none(),
            },
    {
        let mut i: usize = 0;
        while i < self.bindings.len()
            invariant
                i <= self.bindings.len(),
                position(self@.bindings, name@, i as int) == self@.find(name@),
            decreases self.bindings.len() - i,
        {
            if str_equals(self.bindings[i].name.as_str(), name) {
                return Some(i);
            }
            i = i + 1;
        }
        None
    }

    /// Binds `name` to `value`, in place of an earlier binding of the name if
    /// there is one.
    pub fn define(&mut self, name: String, value: Value<'a>)
        ensures
            final(self)@ == old(self)@.define(name@, value@),
    {
        match self.find(name.as_str()) {
            Some(i) => {
                self.bindings.set(i, Binding { name, value });
                assert(self@.bindings =~= old(self)@.define(name@, value@).bindings);
            },
            None => {
                self.bindings.push(Binding { name, value });
                assert(self@.bindings =~= old(self)@.define(name@, value@).bindings);
            },
        }
    }
}

/// The scopes of a running program.
#[derive(Debug)]
pub struct Environment<'a> {
    pub scopes: Vec<Scope<'a>>,
}

impl<'a> View for Environment<'a> {
    type V = Seq<ScopeView>;

    open spec fn view(&self) -> Seq<ScopeView> {
        self.scopes@.map_values(|s: Scope<'a>| s@)
    }
}

/// The error for a name that no scope binds.
pub fn undefined_variable<'a>(name: &str, line: usize) -> (r: ControlFlow<'a>)
    ensures
        r@ == undefined(name@, line as nat),
{
    let mut message = String::new();
    push_text(&mut message, "Undefined variable '");
    push_text(&mut message, name);
    push_text(&mut message, "'.");
    assert(message@ =~= undefined_message(name@));
    ControlFlow::RuntimeError(RuntimeError::new(line, message))
}

impl<'a> Environment<'a> {
    /// An environment that holds one empty scope, the global one, at index
    /// zero.
    pub fn new() -> (r: Self)
        ensures
            r@ == seq![ScopeView::empty(None)],
    {
        let mut scopes: Vec<Scope<'a>> = Vec::new();
        scopes.push(Scope { enclosing: None, bindings: Vec::new() });
        let r = Environment { scopes };
        assert(r@ =~= seq![ScopeView::empty(None)]) by {
            assert(r.scopes@[0]@.bindings =~= Seq::<BindingView>::empty());
        }
        r
    }

    /// Adds an empty scope inside `enclosing` and returns its handle.
    pub fn new_scope(&mut self, enclosing: Option<EnvRef>) -> (r: EnvRef)
        ensures
            r == old(self)@.len(),
            final(self)@ == old(self)@.push(
                ScopeView::empty(
                    match enclosing {
                        Some(p) => Some(p as nat),
                        None => None,
                    },
                ),
            ),
    {
        let handle = self.scopes.len();
        let scope = Scope { enclosing, bindings: Vec::new() };
        assert(scope@.bindings =~= Seq::<BindingView>::empty());
        self.scopes.push(scope);
        assert(self@ =~= old(self)@.push(scope@));
        handle
    }

    /// The number of scopes.
    pub fn len(&self) -> (r: usize)
        ensures
            r == self@.len(),
    {
        self.scopes.len()
    }

    /// Binds `name` to `value` in `scope` itself, shadowing an earlier
    /// binding of the name there. Nothing happens if there is no such scope.
    pub fn define(&mut self, scope: EnvRef, name: String, value: Value<'a>)
        ensures
            final(self)@ == define(old(self)@, scope as int, name@, value@),
    {
        if scope < self.scopes.len() {
            let ghost before = self.scopes@[scope as int]@;
            self.scopes[scope].define(name, value);
            assert(self@ =~= define(old(self)@, scope as int, name@, value@));
        }
    }

    /// The scope reached from `scope` by exactly `distance` steps outward.
    pub fn ancestor(&self, scope: EnvRef, distance: usize) -> (r: Option<EnvRef>)
        ensures
            match r {
                Some(s) => ancestor(self@, scope as int, distance as nat) == Some(s as int) && s
                    < self@.len(),
                None => ancestor(self@, scope as int, distance as nat).is_none(),
            },
    {
        let mut at = scope;
        let mut left = distance;
        loop
            invariant
                ancestor(self@, at as int, left as nat) == ancestor(
                    self@,
                    scope as int,
                    distance as nat,
                ),
            decreases left,
        {
            if at >= self.scopes.len() {
                return None;
            }
            if left == 0 {
                return Some(at);
            }
            match self.scopes[at].enclosing {
                Some(p) => {
                    at = p;
                    left = left - 1;
                },
                None => {
                    return None;
                },
            }
        }
    }

    /// The nearest scope, from `scope` outward, that binds `name`.
    pub fn defining_scope(&self, scope: EnvRef, name: &str) -> (r: Option<EnvRef>)
        ensures
            match r {
                Some(s) => defining_scope(self@, scope as int, name@) == Some(s as int) && s
                    < self@.len() && self@[s as int].binds(name@),
                None => defining_scope(self@, scope as int, name@).is_none(),
            },
    {
        let mut at = scope;
        loop
            invariant
                defining_scope(self@, at as int, name@) == defining_scope(
                    self@,
                    scope as int,
                    name@,
                ),
            decreases at,
        {
            if at >= self.scopes.len() {
                return None;
            }
            if self.scopes[at].find(name).is_some() {
                return Some(at);
            }
            match self.scopes[at].enclosing {
                Some(p) => {
                    if p < at {
                        at = p;
                    } else {
                        return None;
                    }
                },
                None => {
                    return None;
                },
            }
        }
    }

    /// The value of `name` as seen from `scope`; an error if no scope on the
    /// way out binds it.
    pub fn get(&self, scope: EnvRef, name: &str, line: usize) -> (r: Result<
        Value<'a>,
        ControlFlow<'a>,
    >)
        ensures
            crate::runtime::control_flow::outcome_view(r) == get(
                self@,
                scope as int,
                name@,
                line as nat,
            ),
    {
        match self.defining_scope(scope, name) {
            Some(s) => match self.scopes[s].find(name) {
                Some(i) => Ok(self.scopes[s].bindings[i].value.clone()),
                None => Err(undefined_variable(name, line)),
            },
            None => Err(undefined_variable(name, line)),
        }
    }

    /// The value that the scope `distance` steps out from `scope` itself
    /// binds to `name`; an error if there is no such scope or it does not
    /// bind the name.
    pub fn get_at(&self, scope: EnvRef, distance: usize, name: &str, line: usize) -> (r: Result<
        Value<'a>,
        ControlFlow<'a>,
    >)
        ensures
            crate::runtime::control_flow::outcome_view(r) == get_at(
                self@,
                scope as int,
                distance as nat,
                name@,
                line as nat,
            ),
    {
        match self.ancestor(scope, distance) {
            Some(s) => match self.scopes[s].find(name) {
                Some(i) => Ok(self.scopes[s].bindings[i].value.clone()),
                None => Err(undefined_variable(name, line)),
            },
            None => Err(undefined_variable(name, line)),
        }
    }

    /// Assigns `value` to `name` in the nearest scope, from `scope` outward,
    /// that binds it; an error, and no change, if none does.
    pub fn assign(&mut self, scope: EnvRef, name: &str, value: Value<'a>, line: usize) -> (r:
        Result<(), ControlFlow<'a>>)
        ensures
            match r {
                Ok(_) => assign(old(self)@, scope as int, name@, value@, line as nat) == Ok::<
                    Seq<ScopeView>,
                    Signal,
                >(final(self)@),
                Err(e) => assign(old(self)@, scope as int, name@, value@, line as nat) == Err::<
                    Seq<ScopeView>,
                    Signal,
                >(e@) && final(self)@ == old(self)@,
            },
    {
        match self.defining_scope(scope, name) {
            Some(s) => {
                let mut owned = String::new();
                push_text(&mut owned, name);
                assert(owned@ =~= name@);
                self.define(s, owned, value);
                Ok(())
            },
            None => Err(undefined_variable(name, line)),
        }
    }

    /// Assigns `value` to `name` in the scope `distance` steps out from
    /// `scope`; an error, and no change, if there is no such scope or it
    /// does not bind the name itself.
    pub fn assign_at(
        &mut self,
        scope: EnvRef,
        distance: usize,
        name: &str,
        value: Value<'a>,
        line: usize,
    ) -> (r: Result<(), ControlFlow<'a>>)
        ensures
            match r {
                Ok(_) => assign_at(
                    old(self)@,
                    scope as int,
                    distance as nat,
                    name@,
                    value@,
                    line as nat,
                ) == Ok::<Seq<ScopeView>, Signal>(final(self)@),
                Err(e) => assign_at(
                    old(self)@,
                    scope as int,
                    distance as nat,
                    name@,
                    value@,
                    line as nat,
                ) == Err::<Seq<ScopeView>, Signal>(e@) && final(self)@ == old(self)@,
            },
    {
        match self.ancestor(scope, distance) {
            Some(s) => {
                if self.scopes[s].find(name).is_some() {
                    let mut owned = String::new();
                    push_text(&mut owned, name);
                    assert(owned@ =~= name@);
                    self.define(s, owned, value);
                    Ok(())
                } else {
                    Err(undefined_variable(name, line))
                }
            },
            None => Err(undefined_variable(name, line)),
        }
    }
}

} // verus!
