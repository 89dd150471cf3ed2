use crate::value::{Value, ValueView};
use vstd::hash_map::StringHashMap;
use vstd::prelude::*;

verus! {

/// What one scope holds: the value of each name that it defines.
pub type ScopeView = Map<Seq<char>, ValueView>;

/// The mathematical content of an [`Environment`]: its scopes from the
/// outermost to the current one, which is the last. There is always a
/// current scope.
pub struct Scopes {
    pub chain: Seq<ScopeView>,
}

impl Scopes {
    /// A single empty scope.
    pub open spec fn root() -> Scopes {
        Scopes { chain: seq![Map::empty()] }
    }

    /// The number of scopes.
    pub open spec fn depth(self) -> nat {
        self.chain.len()
    }

    /// The current scope.
    pub open spec fn current(self) -> ScopeView {
        self.chain.last()
    }

    /// The scopes around the current one.
    pub open spec fn outer(self) -> Scopes {
        Scopes { chain: self.chain.drop_last() }
    }

    /// The chain with a new, empty current scope.
    pub open spec fn enter(self) -> Scopes {
        Scopes { chain: self.chain.push(Map::empty()) }
    }

    /// Whether some scope of the chain defines `name`.
    pub open spec fn defines(self, name: Seq<char>) -> bool {
        exists|i: int| 0 <= i < self.chain.len() && #[trigger] self.chain[i].contains_key(name)
    }

    /// The index of the nearest scope that defines `name`: the search starts
    /// at the current scope and goes outward. It is -1 where no scope
    /// defines the name.
    pub open spec fn owner(self, name: Seq<char>) -> int
        decreases self.chain.len(),
    {
        if self.chain.len() == 0 {
            -1
        } else if self.current().contains_key(name) {
            self.chain.len() - 1
        } else {
            self.outer().owner(name)
        }
    }

    /// The value that a read of `name` yields: that of the nearest scope
    /// that defines it, and `Nothing` where none does.
    pub open spec fn lookup(self, name: Seq<char>) -> ValueView {
        let i = self.owner(name);
        if i >= 0 {
            self.chain[i][name]
        } else {
            ValueView::Nothing
        }
    }

    /// The chain after `name` was bound to `value` in the current scope.
    pub open spec fn define(self, name: Seq<char>, value: ValueView) -> Scopes {
        Scopes {
            chain: self.chain.update(self.chain.len() - 1, self.current().insert(name, value)),
        }
    }

    /// The chain after `value` was written to `name` in the nearest scope
    /// that defines it. Where no scope does, the chain is unchanged.
    pub open spec fn assign(self, name: Seq<char>, value: ValueView) -> Scopes {
        let i = self.owner(name);
        if i >= 0 {
            Scopes { chain: self.chain.update(i, self.chain[i].insert(name, value)) }
        } else {
            self
        }
    }

    /// The nearest scope that defines a name is the one that no scope
    /// further in hides.
    pub proof fn lemma_owner_found(self, name: Seq<char>, i: int)
        requires
            0 <= i < self.chain.len(),
            self.chain[i].contains_key(name),
            forall|j: int|
                i < j < self.chain.len() ==> !(#[trigger] self.chain[j]).contains_key(name),
        ensures
            self.owner(name) == i,
        decreases self.chain.len(),
    {
        if i < self.chain.len() - 1 {
            self.outer().lemma_owner_found(name, i);
        }
    }

    /// A name that no scope defines has no owner, and conversely.
    pub proof fn lemma_owner_range(self, name: Seq<char>)
        ensures
            -1 <= self.owner(name) < self.chain.len(),
            self.owner(name) >= 0 <==> self.defines(name),
            self.owner(name) >= 0 ==> self.chain[self.owner(name)].contains_key(name),
            forall|j: int|
                self.owner(name) < j < self.chain.len() ==> !(#[trigger] self.chain[j])
                    .contains_key(name),
        decreases self.chain.len(),
    {
        if self.chain.len() > 0 {
            let outer = self.outer();
            outer.lemma_owner_range(name);
            assert forall|j: int| self.owner(name) < j < self.chain.len() implies !(
            #[trigger] self.chain[j]).contains_key(name) by {
                if j < self.chain.len() - 1 {
                    assert(outer.chain[j] == self.chain[j]);
                }
            }
        }
    }

    /// Which scope owns a name depends only on which scopes define it.
    pub proof fn lemma_owner_by_domains(self, other: Scopes, name: Seq<char>)
        requires
            self.chain.len() == other.chain.len(),
            forall|j: int|
                0 <= j < self.chain.len() ==> (#[trigger] self.chain[j]).contains_key(name)
                    == other.chain[j].contains_key(name),
        ensures
            self.owner(name) == other.owner(name),
        decreases self.chain.len(),
    {
        if self.chain.len() > 0 {
            self.outer().lemma_owner_by_domains(other.outer(), name);
        }
    }

    /// Binding a name in the current scope: a read of the name then yields
    /// the value, whatever the enclosing scopes hold, and every other name
    /// reads as before.
    pub proof fn law_define_then_lookup(self, name: Seq<char>, value: ValueView, other: Seq<char>)
        requires
            self.depth() >= 1,
        ensures
            self.define(name, value).lookup(name) == value,
            other != name ==> self.define(name, value).lookup(other) == self.lookup(other),
    {
        if other != name {
            self.lemma_owner_by_domains(self.define(name, value), other);
            self.lemma_owner_range(other);
        }
    }

    /// A write through the chain: a read of the name then yields the value,
    /// every other name reads as before, and every name is still owned by
    /// the scope that owned it. Reads and writes search alike.
    pub proof fn law_assign_then_lookup(self, name: Seq<char>, value: ValueView, other: Seq<char>)
        requires
            self.defines(name),
        ensures
            self.assign(name, value).lookup(name) == value,
            self.assign(name, value).owner(other) == self.owner(other),
            self.assign(name, value).depth() == self.depth(),
            other != name ==> self.assign(name, value).lookup(other) == self.lookup(other),
    {
        let after = self.assign(name, value);
        self.lemma_owner_range(name);
        self.lemma_owner_range(other);
        self.lemma_owner_by_domains(after, name);
        self.lemma_owner_by_domains(after, other);
    }

    /// Shadowing. A name that is bound in a new scope hides the binding
    /// that an enclosing scope has for it: reads yield the inner value, and
    /// writes go to the inner binding. Once the new scope is left, the
    /// chain is what it was before the scope was entered.
    pub proof fn law_inner_binding_shadows(
        self,
        name: Seq<char>,
        inner: ValueView,
        written: ValueView,
    )
        requires
            self.depth() >= 1,
        ensures
            self.enter().define(name, inner).lookup(name) == inner,
            self.enter().define(name, inner).outer() == self,
            self.enter().define(name, inner).assign(name, written).lookup(name) == written,
            self.enter().define(name, inner).assign(name, written).outer() == self,
    {
        let bound = self.enter().define(name, inner);
        assert(bound.outer().chain =~= self.chain);
        assert(bound.assign(name, written).outer().chain =~= self.chain);
    }

    /// A write in an inner scope to a name that only enclosing scopes
    /// define reaches the enclosing binding, and is read after the inner
    /// scope is left.
    pub proof fn law_write_outlives_scope(self, name: Seq<char>, value: ValueView)
        requires
            self.defines(name),
        ensures
            self.enter().assign(name, value).outer() == self.assign(name, value),
            self.enter().assign(name, value).outer().lookup(name) == value,
    {
        let entered = self.enter();
        self.lemma_owner_range(name);
        assert(entered.outer().chain =~= self.chain);
        assert(entered.assign(name, value).outer().chain =~= self.assign(name, value).chain);
        self.law_assign_then_lookup(name, value, name);
    }
}

/// What a scope holds, each value by its view.
pub open spec fn scope_view(scope: StringHashMap<Value>) -> ScopeView {
    scope@.map_values(|value: Value| value@)
}

/// A chain of scopes: the current one and those that enclose it.
pub struct Environment {
    /// The current scope.
    pub vals: StringHashMap<Value>,
    /// The enclosing scopes, the outermost first.
    pub enclosing: Vec<StringHashMap<Value>>,
}

impl View for Environment {
    type V = Scopes;

    open spec fn view(&self) -> Scopes {
        Scopes {
            chain: self.enclosing@.map_values(|scope: StringHashMap<Value>| scope_view(scope)).push(
                scope_view(self.vals),
            ),
        }
    }
}

impl Environment {
    /// A chain of one empty scope.
    pub fn new() -> (env: Self)
        ensures
            env@ == Scopes::root(),
    {
        let env = Self { vals: StringHashMap::new(), enclosing: Vec::new() };
        assert(scope_view(env.vals) =~= Map::empty());
        assert(env@.chain =~= Scopes::root().chain);
        env
    }

    /// A chain with a new, empty current scope around which `environment`
    /// stands.
    pub fn with_ref(environment: Environment) -> (env: Self)
        ensures
            env@ == environment@.enter(),
    {
        let Environment { vals, enclosing } = environment;
        let mut enclosing = enclosing;
        enclosing.push(vals);
        let env = Self { vals: StringHashMap::new(), enclosing };
        assert(scope_view(env.vals) =~= Map::empty());
        assert(env@.chain =~= environment@.enter().chain);
        env
    }

    /// Whether the current scope is the outermost one.
    pub fn is_root(&self) -> (root: bool)
        ensures
            root == (self@.depth() == 1),
    {
        self.enclosing.len() == 0
    }

    /// Opens a new, empty current scope inside the present one.
    pub fn enter(&mut self)
        ensures
            final(self)@ == old(self)@.enter(),
    {
        let mut scope = StringHashMap::new();
        std::mem::swap(&mut self.vals, &mut scope);
        self.enclosing.push(scope);
        assert(scope_view(self.vals) =~= Map::empty());
        assert(self@.chain =~= old(self)@.enter().chain);
    }

    /// Discards the current scope with all that it defines; the scope around
    /// it is current again.
    pub fn leave(&mut self)
        requires
            old(self)@.depth() > 1,
        ensures
            final(self)@ == old(self)@.outer(),
    {
        let scope = self.enclosing.pop();
        self.vals = scope.unwrap();
        assert(self@.chain =~= old(self)@.outer().chain);
    }

    /// The position in the chain of the nearest scope that defines `name`.
    fn owner(&self, name: &str) -> (found: Option<usize>)
        ensures
            match found {
                Some(i) => i == self@.owner(name@),
                None => self@.owner(name@) == -1,
            },
    {
        let ghost scopes = self@;
        if self.vals.contains_key(name) {
            return Some(self.enclosing.len());
        }
        let mut i = self.enclosing.len();
        while i > 0
            invariant
                i <= self.enclosing.len(),
                scopes == self@,
                forall|j: int|
                    i <= j < scopes.chain.len() ==> !(#[trigger] scopes.chain[j]).contains_key(
                        name@,
                    ),
            decreases i,
        {
            i -= 1;
            if self.enclosing[i].contains_key(name) {
                proof {
                    scopes.lemma_owner_found(name@, i as int);
                }
                return Some(i);
            }
        }
        proof {
            scopes.lemma_owner_range(name@);
        }
        None
    }

    /// Whether some scope of the chain defines `name`.
    pub fn is_defined(&self, name: &str) -> (found: bool)
        ensures
            found == self@.defines(name@),
    {
        proof {
            self@.lemma_owner_range(name@);
        }
        self.owner(name).is_some()
    }

    /// Reads `name`: the value that the nearest scope defining it holds,
    /// the search starting at the current scope and going outward, or
    /// `Nothing` where no scope defines it. The chain is left as it was.
    pub fn get_var(&mut self, name: String) -> (value: Value)
        ensures
            *final(self) == *old(self),
            value@ == old(self)@.lookup(name@),
    {
        proof {
            self@.lemma_owner_range(name@);
        }
        match self.owner(name.as_str()) {
            Some(i) => {
                let scope = if i < self.enclosing.len() {
                    &self.enclosing[i]
                } else {
                    &self.vals
                };
                match scope.get(name.as_str()) {
                    Some(value) => value.clone(),
                    None => Value::Nothing,
                }
            },
            None => Value::Nothing,
        }
    }

    /// Writes `value` to `name` in the nearest scope that defines it, the
    /// search going as that of [`Environment::get_var`]; which scope owns
    /// the name does not change. Some scope of the chain has to define the
    /// name.
    pub fn assign(&mut self, name: String, value: Value)
        requires
            old(self)@.defines(name@),
        ensures
            final(self)@ == old(self)@.assign(name@, value@),
    {
        proof {
            self@.lemma_owner_range(name@);
        }
        match self.owner(name.as_str()) {
            Some(i) => {
                if i < self.enclosing.len() {
                    let ghost before = self.enclosing[i as int];
                    self.enclosing[i].insert(name, value);
                    assert(scope_view(self.enclosing[i as int]) =~= scope_view(before).insert(
                        name@,
                        value@,
                    ));
                } else {
                    self.define(name, value);
                }
                assert(self@.chain =~= old(self)@.assign(name@, value@).chain);
            },
            None => vstd::pervasive::unreached(),
        }
    }

    /// Binds `name` to `value` in the current scope, whether or not the
    /// scope or an enclosing one already defines it.
    pub fn define(&mut self, name: String, value: Value)
        ensures
            final(self)@ == old(self)@.define(name@, value@),
    {
        self.vals.insert(name, value);
        assert(scope_view(self.vals) =~= scope_view(old(self).vals).insert(name@, value@));
        assert(self@.chain =~= old(self)@.define(name@, value@).chain);
    }
}

} // verus!
