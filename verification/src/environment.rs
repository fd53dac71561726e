//! Scopes: mappings from names to values, each with a link to the scope that
//! encloses it.
//!
//! All scopes of a run live in one [`Environment`] and are known by their
//! index in it. A scope is created after the scope that encloses it, so the
//! links lead to smaller indices. A function value holds the index of the
//! scope it was created in; scopes are never removed, so that index stays
//! good for as long as the function lives.

use vstd::prelude::*;
use crate::ident::Ident;
use crate::value::{Callable, NativeFunction, SpecCallable, SpecValue, Value};

verus! {

/// The mathematical value of a scope.
pub struct SpecScope {
    /// The index of the enclosing scope.
    pub enclosing: Option<nat>,
    /// The values that the scope binds, by name.
    pub values: Map<Seq<char>, SpecValue>,
}

/// The index of the first scope, from `scope` outward along the links, that
/// binds `name`.
pub open spec fn holder(scopes: Seq<SpecScope>, scope: nat, name: Seq<char>) -> Option<nat>
    decreases scope,
{
    if scope >= scopes.len() {
        None
    } else if scopes[scope as int].values.contains_key(name) {
        Some(scope)
    } else {
        match scopes[scope as int].enclosing {
            Some(parent) => if parent < scope {
                holder(scopes, parent, name)
            } else {
                None
            },
            None => None,
        }
    }
}

/// The value of `name` as seen from `scope`: that of the first scope, from
/// `scope` outward, that binds `name`.
pub open spec fn lookup(scopes: Seq<SpecScope>, scope: nat, name: Seq<char>) -> Option<
    SpecValue,
> {
    match holder(scopes, scope, name) {
        Some(at) => Some(scopes[at as int].values[name]),
        None => None,
    }
}

/// The scopes after `name` has been bound to `value` in `scope` itself.
pub open spec fn defined(scopes: Seq<SpecScope>, scope: nat, name: Seq<char>, value: SpecValue)
    -> Seq<SpecScope> {
    scopes.update(
        scope as int,
        SpecScope {
            enclosing: scopes[scope as int].enclosing,
            values: scopes[scope as int].values.insert(name, value),
        },
    )
}

/// The scopes after `value` has been assigned to `name` as seen from `scope`:
/// the first scope, from `scope` outward, that binds `name` now binds it to
/// `value`. `None` where no scope binds `name`.
pub open spec fn assigned(scopes: Seq<SpecScope>, scope: nat, name: Seq<char>, value: SpecValue)
    -> Option<Seq<SpecScope>> {
    match holder(scopes, scope, name) {
        Some(at) => Some(defined(scopes, at, name, value)),
        None => None,
    }
}

/// The scopes with one more, empty scope, which `enclosing` encloses.
pub open spec fn enclosed(scopes: Seq<SpecScope>, enclosing: nat) -> Seq<SpecScope> {
    scopes.push(SpecScope { enclosing: Some(enclosing), values: Map::empty() })
}

/// The host function `clock`, which takes no arguments.
pub open spec fn clock_function() -> SpecValue {
    SpecValue::Function(SpecCallable::Native { name: "clock"@, parameters: Seq::empty() })
}

/// The host function `random`, which takes no arguments.
pub open spec fn random_function() -> SpecValue {
    SpecValue::Function(SpecCallable::Native { name: "random"@, parameters: Seq::empty() })
}

/// The scopes at the start of a run: the global scope alone, which binds the
/// host functions `clock` and `random`.
pub open spec fn initial_scopes() -> Seq<SpecScope> {
    seq![
        SpecScope {
            enclosing: None,
            values: Map::empty().insert("clock"@, clock_function()).insert(
                "random"@,
                random_function(),
            ),
        },
    ]
}

/// A lookup goes to the scope itself first, and to the enclosing scope only
/// where the scope itself does not bind the name.
pub proof fn lemma_lookup_starts_locally(scopes: Seq<SpecScope>, scope: nat, name: Seq<char>)
    requires
        scope < scopes.len(),
    ensures
        scopes[scope as int].values.contains_key(name) ==> lookup(scopes, scope, name) == Some(
            scopes[scope as int].values[name],
        ),
        !scopes[scope as int].values.contains_key(name) ==> lookup(scopes, scope, name)
            == match scopes[scope as int].enclosing {
            Some(parent) => if parent < scope {
                lookup(scopes, parent, name)
            } else {
                None
            },
            None => None,
        },
{
}

/// The scope that holds a name for a lookup exists and binds the name.
pub proof fn lemma_holder_binds(scopes: Seq<SpecScope>, scope: nat, name: Seq<char>)
    ensures
        holder(scopes, scope, name) matches Some(at) ==> at <= scope && at < scopes.len()
            && scopes[at as int].values.contains_key(name),
    decreases scope,
{
    if scope < scopes.len() && !scopes[scope as int].values.contains_key(name) {
        match scopes[scope as int].enclosing {
            Some(parent) => {
                if parent < scope {
                    lemma_holder_binds(scopes, parent, name);
                }
            },
            None => {},
        }
    }
}

/// What is defined in a scope is what a lookup from that scope finds,
/// whatever an enclosing scope binds the name to.
pub proof fn lemma_define_then_lookup(
    scopes: Seq<SpecScope>,
    scope: nat,
    name: Seq<char>,
    value: SpecValue,
)
    requires
        scope < scopes.len(),
    ensures
        lookup(defined(scopes, scope, name, value), scope, name) == Some(value),
{
}

/// Defining leaves the scopes as many as they were, and changes none but
/// the one it defines in.
pub proof fn lemma_define_is_local(
    scopes: Seq<SpecScope>,
    scope: nat,
    name: Seq<char>,
    value: SpecValue,
    other: nat,
)
    requires
        scope < scopes.len(),
        other < scopes.len(),
        other != scope,
    ensures
        defined(scopes, scope, name, value).len() == scopes.len(),
        defined(scopes, scope, name, value)[other as int] == scopes[other as int],
        defined(scopes, scope, name, value)[scope as int].enclosing
            == scopes[scope as int].enclosing,
{
}

/// Shadowing does not leak out: what is defined in a scope changes no lookup
/// from a scope that was created before it.
pub proof fn lemma_define_does_not_leak(
    scopes: Seq<SpecScope>,
    scope: nat,
    name: Seq<char>,
    value: SpecValue,
    from: nat,
    any: Seq<char>,
)
    requires
        from < scope < scopes.len(),
    ensures
        lookup(defined(scopes, scope, name, value), from, any) == lookup(scopes, from, any),
    decreases from,
{
    let after = defined(scopes, scope, name, value);
    assert(after[from as int] == scopes[from as int]);
    if !scopes[from as int].values.contains_key(any) {
        match scopes[from as int].enclosing {
            Some(parent) => {
                if parent < from {
                    lemma_define_does_not_leak(scopes, scope, name, value, parent, any);
                }
            },
            None => {},
        }
    }
    lemma_holder_binds(scopes, from, any);
    lemma_holder_binds(after, from, any);
}

/// Assigning never declares: it succeeds exactly where a lookup of the name
/// succeeds, and the name then has the assigned value.
pub proof fn lemma_assign_needs_a_binding(
    scopes: Seq<SpecScope>,
    scope: nat,
    name: Seq<char>,
    value: SpecValue,
)
    ensures
        assigned(scopes, scope, name, value) is Some <==> lookup(scopes, scope, name) is Some,
        assigned(scopes, scope, name, value) matches Some(after) ==> after.len() == scopes.len()
            && lookup(after, scope, name) == Some(value) && (forall|i: int|
            0 <= i < scopes.len() ==> (#[trigger] after[i]).values.dom() == scopes[i].values.dom()
                && after[i].enclosing == scopes[i].enclosing),
{
    lemma_holder_binds(scopes, scope, name);
    match holder(scopes, scope, name) {
        Some(at) => {
            let after = defined(scopes, at, name, value);
            lemma_holder_unchanged(scopes, at, name, value, scope);
            assert forall|i: int| 0 <= i < scopes.len() implies (#[trigger] after[i]).values.dom()
                == scopes[i].values.dom() && after[i].enclosing == scopes[i].enclosing by {
                if i == at {
                    assert(after[i].values.dom() =~= scopes[i].values.dom());
                }
            }
        },
        None => {},
    }
}

/// A new value for a name in the scope that holds it leaves the holder of
/// the name what it was.
pub proof fn lemma_holder_unchanged(
    scopes: Seq<SpecScope>,
    at: nat,
    name: Seq<char>,
    value: SpecValue,
    from: nat,
)
    requires
        at < scopes.len(),
        scopes[at as int].values.contains_key(name),
    ensures
        holder(defined(scopes, at, name, value), from, name) == holder(scopes, from, name),
    decreases from,
{
    let after = defined(scopes, at, name, value);
    if from < scopes.len() {
        if from != at {
            assert(after[from as int] == scopes[from as int]);
        }
        if !scopes[from as int].values.contains_key(name) {
            match scopes[from as int].enclosing {
                Some(parent) => {
                    if parent < from {
                        lemma_holder_unchanged(scopes, at, name, value, parent);
                    }
                },
                None => {},
            }
        }
    }
}

/// A scope that has just been created binds nothing itself: a lookup from it
/// finds what a lookup from the scope that encloses it finds.
pub proof fn lemma_enclosed_sees_enclosing(
    scopes: Seq<SpecScope>,
    enclosing: nat,
    name: Seq<char>,
)
    requires
        enclosing < scopes.len(),
    ensures
        lookup(enclosed(scopes, enclosing), scopes.len(), name) == lookup(
            scopes,
            enclosing,
            name,
        ),
{
    lemma_push_keeps_lookups(scopes, enclosing, enclosing, name);
}

/// One more scope changes no lookup from the scopes that were there.
pub proof fn lemma_push_keeps_lookups(
    scopes: Seq<SpecScope>,
    enclosing: nat,
    from: nat,
    name: Seq<char>,
)
    requires
        from < scopes.len(),
    ensures
        holder(enclosed(scopes, enclosing), from, name) == holder(scopes, from, name),
        lookup(enclosed(scopes, enclosing), from, name) == lookup(scopes, from, name),
    decreases from,
{
    let after = enclosed(scopes, enclosing);
    assert(after[from as int] == scopes[from as int]);
    if !scopes[from as int].values.contains_key(name) {
        match scopes[from as int].enclosing {
            Some(parent) => {
                if parent < from {
                    lemma_push_keeps_lookups(scopes, enclosing, parent, name);
                }
            },
            None => {},
        }
    }
    lemma_holder_binds(scopes, from, name);
}

/// A name with the value bound to it.
#[derive(Debug)]
pub struct Binding {
    pub name: String,
    pub value: Value,
}

/// The mapping that a sequence of bindings stands for: each binding in turn
/// binds its name, a later one in place of an earlier one of the same name.
pub open spec fn bindings_map(bindings: Seq<Binding>) -> Map<Seq<char>, SpecValue>
    decreases bindings.len(),
{
    if bindings.len() == 0 {
        Map::empty()
    } else {
        bindings_map(bindings.drop_last()).insert(bindings.last().name@, bindings.last().value@)
    }
}

/// The index of the last binding of `name`.
pub open spec fn last_binding(bindings: Seq<Binding>, name: Seq<char>) -> Option<int>
    decreases bindings.len(),
{
    if bindings.len() == 0 {
        None
    } else if bindings.last().name@ == name {
        Some(bindings.len() - 1)
    } else {
        last_binding(bindings.drop_last(), name)
    }
}

/// The mapping binds exactly the names that have a binding, each to the
/// value of its last binding.
pub proof fn lemma_bindings_map(bindings: Seq<Binding>, name: Seq<char>)
    ensures
        bindings_map(bindings).contains_key(name) <==> last_binding(bindings, name) is Some,
        last_binding(bindings, name) matches Some(at) ==> 0 <= at < bindings.len()
            && bindings[at].name@ == name && bindings_map(bindings)[name] == bindings[at].value@,
    decreases bindings.len(),
{
    if bindings.len() > 0 {
        lemma_bindings_map(bindings.drop_last(), name);
    }
}

/// A new value in place of the one of the last binding of a name binds that
/// name to the new value and leaves the other names as they are.
pub proof fn lemma_bindings_map_update(bindings: Seq<Binding>, at: int, binding: Binding)
    requires
        last_binding(bindings, binding.name@) == Some(at),
    ensures
        0 <= at < bindings.len(),
        bindings_map(bindings.update(at, binding)) == bindings_map(bindings).insert(
            binding.name@,
            binding.value@,
        ),
    decreases bindings.len(),
{
    lemma_bindings_map(bindings, binding.name@);
    let updated = bindings.update(at, binding);
    if at == bindings.len() - 1 {
        assert(updated.drop_last() =~= bindings.drop_last());
        assert(bindings_map(updated) =~= bindings_map(bindings).insert(
            binding.name@,
            binding.value@,
        ));
    } else {
        lemma_bindings_map_update(bindings.drop_last(), at, binding);
        assert(updated.drop_last() =~= bindings.drop_last().update(at, binding));
        assert(updated.last() == bindings.last());
        assert(bindings_map(updated) =~= bindings_map(bindings).insert(
            binding.name@,
            binding.value@,
        ));
    }
}

/// One more binding binds its name to its value.
pub proof fn lemma_bindings_map_push(bindings: Seq<Binding>, binding: Binding)
    ensures
        bindings_map(bindings.push(binding)) == bindings_map(bindings).insert(
            binding.name@,
            binding.value@,
        ),
{
    assert(bindings.push(binding).drop_last() =~= bindings);
}

/// A scope: its bindings, and the index of the scope that encloses it.
#[derive(Debug)]
pub struct Scope {
    pub enclosing: Option<usize>,
    pub bindings: Vec<Binding>,
}

impl View for Scope {
    type V = SpecScope;

    open spec fn view(&self) -> SpecScope {
        SpecScope {
            enclosing: match self.enclosing {
                Some(parent) => Some(parent as nat),
                None => None,
            },
            values: bindings_map(self.bindings@),
        }
    }
}

/// The views of a sequence of scopes, in order.
pub open spec fn scopes_view(scopes: Seq<Scope>) -> Seq<SpecScope> {
    Seq::new(scopes.len(), |i: int| scopes[i]@)
}

/// The index of the last binding of `name` in `bindings`.
fn find(bindings: &Vec<Binding>, name: &String) -> (r: Option<usize>)
    ensures
        match r {
            Some(at) => last_binding(bindings@, name@) == Some(at as int),
            None => last_binding(bindings@, name@) is None,
        },
{
    let mut i: usize = bindings.len();
    assert(bindings@.take(i as int) =~= bindings@);
    while i > 0
        invariant
            i <= bindings.len(),
            last_binding(bindings@, name@) == last_binding(bindings@.take(i as int), name@),
        decreases i,
    {
        proof {
            assert(bindings@.take(i as int).drop_last() =~= bindings@.take(i - 1));
        }
        if bindings[i - 1].name == *name {
            return Some(i - 1);
        }
        i = i - 1;
    }
    None
}

impl Clone for Binding {
    fn clone(&self) -> (r: Self)
        ensures
            r.name@ == self.name@,
            r.value@ == self.value@,
    {
        Binding { name: self.name.clone(), value: self.value.clone() }
    }
}

/// Bindings that agree, one by one, in names and values stand for the same
/// mapping.
pub proof fn lemma_bindings_map_agrees(a: Seq<Binding>, b: Seq<Binding>)
    requires
        a.len() == b.len(),
        forall|i: int|
            0 <= i < a.len() ==> (#[trigger] a[i]).name@ == b[i].name@ && a[i].value@
                == b[i].value@,
    ensures
        bindings_map(a) == bindings_map(b),
    decreases a.len(),
{
    if a.len() > 0 {
        lemma_bindings_map_agrees(a.drop_last(), b.drop_last());
    }
}

impl Clone for Scope {
    fn clone(&self) -> (r: Self)
        ensures
            r@ == self@,
    {
        let mut bindings: Vec<Binding> = Vec::new();
        let mut i: usize = 0;
        while i < self.bindings.len()
            invariant
                i <= self.bindings.len(),
                bindings.len() == i,
                forall|k: int|
                    0 <= k < i ==> (#[trigger] bindings[k]).name@ == self.bindings[k].name@
                        && bindings[k].value@ == self.bindings[k].value@,
            decreases self.bindings.len() - i,
        {
            bindings.push(self.bindings[i].clone());
            i = i + 1;
        }
        proof {
            lemma_bindings_map_agrees(bindings@, self.bindings@);
        }
        Scope { enclosing: self.enclosing, bindings }
    }
}

/// The scopes of a run. The scope with the index 0 is the global scope.
#[derive(Debug)]
pub struct Environment {
    scopes: Vec<Scope>,
}

impl View for Environment {
    type V = Seq<SpecScope>;

    closed spec fn view(&self) -> Seq<SpecScope> {
        scopes_view(self.scopes@)
    }
}

impl Clone for Environment {
    fn clone(&self) -> (r: Self)
        ensures
            r@ == self@,
    {
        let mut scopes: Vec<Scope> = Vec::new();
        let mut i: usize = 0;
        while i < self.scopes.len()
            invariant
                i <= self.scopes.len(),
                scopes.len() == i,
                forall|k: int| 0 <= k < i ==> (#[trigger] scopes[k])@ == self.scopes[k]@,
            decreases self.scopes.len() - i,
        {
            scopes.push(self.scopes[i].clone());
            i = i + 1;
        }
        assert(scopes_view(scopes@) =~= scopes_view(self.scopes@));
        Environment { scopes }
    }
}

/// The index of the global scope.
pub const GLOBAL: usize = 0;

impl Environment {
    /// Whether the scope with the index `scope` exists.
    pub open spec fn has_scope(&self, scope: usize) -> bool {
        scope < self@.len()
    }

    /// The environment at the start of a run: the global scope alone, in
    /// which the host functions `clock` and `random` are defined.
    pub fn new() -> (r: Environment)
        ensures
            r@ == initial_scopes(),
    {
        let mut bindings: Vec<Binding> = Vec::new();
        let clock = Binding {
            name: "clock".to_owned(),
            value: Value::Function(Callable::Native(NativeFunction::new("clock", Vec::new()))),
        };
        let random = Binding {
            name: "random".to_owned(),
            value: Value::Function(Callable::Native(NativeFunction::new("random", Vec::new()))),
        };
        proof {
            lemma_bindings_map_push(bindings@, clock);
            lemma_bindings_map_push(bindings@.push(clock), random);
            assert(bindings_map(bindings@) =~= Map::empty());
            assert(crate::ident::names_view(Seq::<Ident>::empty()) =~= Seq::<Seq<char>>::empty());
        }
        bindings.push(clock);
        bindings.push(random);
        let mut scopes: Vec<Scope> = Vec::new();
        scopes.push(Scope { enclosing: None, bindings });
        assert(scopes_view(scopes@) =~= initial_scopes());
        Environment { scopes }
    }

    /// How many scopes there are.
    pub fn len(&self) -> (r: usize)
        ensures
            r == self@.len(),
    {
        self.scopes.len()
    }

    /// Adds an empty scope that the scope `enclosing` encloses, and returns
    /// its index.
    pub fn new_enclosing(&mut self, enclosing: usize) -> (r: usize)
        requires
            old(self).has_scope(enclosing),
        ensures
            final(self)@ == enclosed(old(self)@, enclosing as nat),
            r == old(self)@.len(),
            final(self).has_scope(r),
    {
        let index = self.scopes.len();
        self.scopes.push(Scope { enclosing: Some(enclosing), bindings: Vec::new() });
        proof {
            assert(bindings_map(Seq::<Binding>::empty()) =~= Map::empty());
            assert(scopes_view(self.scopes@) =~= enclosed(
                scopes_view(old(self).scopes@),
                enclosing as nat,
            ));
        }
        index
    }

    /// Binds `name` to `value` in the scope `scope` itself, whatever that
    /// scope or an enclosing one has bound `name` to.
    pub fn define(&mut self, scope: usize, name: &str, value: Value)
        requires
            old(self).has_scope(scope),
        ensures
            final(self)@ == defined(old(self)@, scope as nat, name@, value@),
            final(self)@.len() == old(self)@.len(),
    {
        let binding = Binding { name: name.to_owned(), value };
        proof {
            lemma_bindings_map_push(self.scopes[scope as int].bindings@, binding);
        }
        self.scopes[scope].bindings.push(binding);
        proof {
            assert(scopes_view(self.scopes@) =~= defined(
                scopes_view(old(self).scopes@),
                scope as nat,
                name@,
                value@,
            ));
        }
    }

    /// The index of the first scope, from `scope` outward, that binds `name`,
    /// with the index of the binding in it.
    fn locate(&self, scope: usize, name: &String) -> (r: Option<(usize, usize)>)
        ensures
            match r {
                Some((at, index)) => holder(self@, scope as nat, name@) == Some(at as nat)
                    && at < self.scopes.len() && last_binding(
                    self.scopes[at as int].bindings@,
                    name@,
                ) == Some(index as int) && index < self.scopes[at as int].bindings.len(),
                None => holder(self@, scope as nat, name@) is None,
            },
    {
        let mut current: usize = scope;
        loop
            invariant
                holder(self@, current as nat, name@) == holder(self@, scope as nat, name@),
            decreases current,
        {
            if current >= self.scopes.len() {
                return None;
            }
            proof {
                lemma_bindings_map(self.scopes[current as int].bindings@, name@);
            }
            match find(&self.scopes[current].bindings, name) {
                Some(index) => {
                    return Some((current, index));
                },
                None => {},
            }
            match self.scopes[current].enclosing {
                Some(parent) => {
                    if parent < current {
                        current = parent;
                    } else {
                        return None;
                    }
                },
                None => {
                    return None;
                },
            }
        }
    }

    /// The value of `name` as seen from the scope `scope`, or `None` where no
    /// scope from `scope` outward binds `name`.
    pub fn get(&self, scope: usize, name: &str) -> (r: Option<Value>)
        ensures
            match r {
                Some(value) => lookup(self@, scope as nat, name@) == Some(value@),
                None => lookup(self@, scope as nat, name@) is None,
            },
    {
        let name = name.to_owned();
        match self.locate(scope, &name) {
            Some((at, index)) => {
                proof {
                    lemma_bindings_map(self.scopes[at as int].bindings@, name@);
                }
                Some(self.scopes[at].bindings[index].value.clone())
            },
            None => None,
        }
    }

    /// Assigns `value` to `name` as seen from the scope `scope`: the first
    /// scope, from `scope` outward, that binds `name` then binds it to
    /// `value`. Where no scope binds `name` nothing changes and the result is
    /// `false`: assigning never declares.
    pub fn assign(&mut self, scope: usize, name: &str, value: Value) -> (r: bool)
        ensures
            match assigned(old(self)@, scope as nat, name@, value@) {
                Some(scopes) => r && final(self)@ == scopes,
                None => !r && final(self)@ == old(self)@,
            },
            final(self)@.len() == old(self)@.len(),
    {
        let name = name.to_owned();
        match self.locate(scope, &name) {
            Some((at, index)) => {
                let binding = Binding { name, value };
                proof {
                    lemma_bindings_map_update(
                        self.scopes[at as int].bindings@,
                        index as int,
                        binding,
                    );
                }
                self.scopes[at].bindings[index] = binding;
                proof {
                    assert(scopes_view(self.scopes@) =~= defined(
                        scopes_view(old(self).scopes@),
                        at as nat,
                        name@,
                        value@,
                    ));
                }
                true
            },
            None => false,
        }
    }

    /// Whether a scope from `scope` outward binds `name`.
    pub fn has(&self, scope: usize, name: &str) -> (r: bool)
        ensures
            r == lookup(self@, scope as nat, name@) is Some,
    {
        let name = name.to_owned();
        self.locate(scope, &name).is_some()
    }

    /// The names that the scope `scope` itself binds, each with its value;
    /// a name that was bound more than once comes once, with its last value.
    pub fn contents(&self, scope: usize) -> (r: Vec<Binding>)
        requires
            self.has_scope(scope),
        ensures
            bindings_map(r@) == self@[scope as int].values,
            forall|i: int, j: int|
                0 <= i < j < r.len() ==> (#[trigger] r[i]).name@ != (#[trigger] r[j]).name@,
    {
        let bindings = &self.scopes[scope].bindings;
        let mut result: Vec<Binding> = Vec::new();
        let mut i: usize = 0;
        assert(bindings@.take(0) =~= Seq::<Binding>::empty());
        while i < bindings.len()
            invariant
                i <= bindings.len(),
                bindings_map(result@) == bindings_map(bindings@.take(i as int)),
                forall|a: int, b: int|
                    0 <= a < b < result.len() ==> (#[trigger] result[a]).name@
                        != (#[trigger] result[b]).name@,
            decreases bindings.len() - i,
        {
            let binding = bindings[i].clone();
            proof {
                assert(bindings@.take(i + 1).drop_last() =~= bindings@.take(i as int));
                lemma_bindings_map(result@, binding.name@);
            }
            match find(&result, &binding.name) {
                Some(at) => {
                    proof {
                        lemma_bindings_map_update(result@, at as int, binding);
                    }
                    result[at] = binding;
                },
                None => {
                    proof {
                        lemma_bindings_map_push(result@, binding);
                        assert forall|a: int| 0 <= a < result.len() implies (#[trigger] result[a]).name@
                            != binding.name@ by {
                            lemma_no_binding(result@, binding.name@, a);
                        }
                    }
                    result.push(binding);
                },
            }
            i = i + 1;
        }
        assert(bindings@.take(bindings.len() as int) =~= bindings@);
        result
    }
}

/// Where a name has no last binding it has no binding.
pub proof fn lemma_no_binding(bindings: Seq<Binding>, name: Seq<char>, at: int)
    requires
        last_binding(bindings, name) is None,
        0 <= at < bindings.len(),
    ensures
        bindings[at].name@ != name,
    decreases bindings.len(),
{
    if at < bindings.len() - 1 {
        lemma_no_binding(bindings.drop_last(), name, at);
    }
}

} // verus!
