use vstd::prelude::*;

use crate::environment::scope::{Scope, ScopeStack, ScopeView};
use crate::type_var::{str_eq, Place, PlaceView, Ty, TypeVar};

pub mod scope;

verus! {

/// What an `Environment` holds: every scope ever created, and the live stack of
/// scopes as indices into them, innermost last.
pub struct EnvView {
    pub scopes: Seq<ScopeView>,
    pub live: Seq<usize>,
}

/// The type bound to a place in the first of the live scopes `live[0..n]` that
/// binds it, searching from the innermost.
pub open spec fn binding_in(e: EnvView, n: int, p: PlaceView) -> Option<Ty>
    decreases n,
{
    if n <= 0 {
        None
    } else {
        let sc = e.scopes[e.live[n - 1] as int];
        if sc.bindings.contains_key(p) {
            Some(sc.bindings[p])
        } else {
            binding_in(e, n - 1, p)
        }
    }
}

/// The place an identifier resolves to in the first of the live scopes
/// `live[0..n]` that knows it, searching from the innermost.
pub open spec fn var_in(e: EnvView, n: int, v: Seq<char>) -> Option<PlaceView>
    decreases n,
{
    if n <= 0 {
        None
    } else {
        let sc = e.scopes[e.live[n - 1] as int];
        if sc.vars.contains_key(v) {
            Some(sc.vars[v])
        } else {
            var_in(e, n - 1, v)
        }
    }
}

pub open spec fn lookup_binding(e: EnvView, p: PlaceView) -> Option<Ty> {
    binding_in(e, e.live.len() as int, p)
}

pub open spec fn lookup_var(e: EnvView, v: Seq<char>) -> Option<PlaceView> {
    var_in(e, e.live.len() as int, v)
}

/// The type of an identifier: the type bound at the place it resolves to.
pub open spec fn var_type(e: EnvView, v: Seq<char>) -> Option<Ty> {
    match lookup_var(e, v) {
        Some(p) => lookup_binding(e, p),
        None => None,
    }
}

/// The environment after binding a place to a type in the innermost live scope.
pub open spec fn with_binding(e: EnvView, p: PlaceView, t: Ty) -> EnvView {
    if e.live.len() == 0 {
        e
    } else {
        let top = e.live.last() as int;
        let sc = e.scopes[top];
        EnvView {
            scopes: e.scopes.update(
                top,
                ScopeView { name: sc.name, bindings: sc.bindings.insert(p, t), vars: sc.vars },
            ),
            live: e.live,
        }
    }
}

/// The environment after letting an identifier resolve to a place in the innermost live scope.
pub open spec fn with_var(e: EnvView, v: Seq<char>, p: PlaceView) -> EnvView {
    if e.live.len() == 0 {
        e
    } else {
        let top = e.live.last() as int;
        let sc = e.scopes[top];
        EnvView {
            scopes: e.scopes.update(
                top,
                ScopeView { name: sc.name, bindings: sc.bindings, vars: sc.vars.insert(v, p) },
            ),
            live: e.live,
        }
    }
}

pub open spec fn has_scope(e: EnvView, name: Seq<char>) -> bool {
    exists|i: int| 0 <= i < e.scopes.len() && e.scopes[i].name == name
}

pub open spec fn scope_index(e: EnvView, name: Seq<char>) -> int {
    choose|i: int| 0 <= i < e.scopes.len() && e.scopes[i].name == name
}

pub open spec fn empty_scope(name: Seq<char>) -> ScopeView {
    ScopeView {
        name,
        bindings: Map::<PlaceView, Ty>::empty(),
        vars: Map::<Seq<char>, PlaceView>::empty(),
    }
}

/// The environment after entering the scope of the given name: the existing scope of
/// that name is pushed again, with what it holds, or else a new empty one is created.
pub open spec fn entered(e: EnvView, name: Seq<char>) -> EnvView {
    if has_scope(e, name) {
        EnvView { scopes: e.scopes, live: e.live.push(scope_index(e, name) as usize) }
    } else {
        EnvView {
            scopes: e.scopes.push(empty_scope(name)),
            live: e.live.push(e.scopes.len() as usize),
        }
    }
}

/// The environment with its live stack cut back to the given depth.
pub open spec fn cut_to(e: EnvView, depth: int) -> EnvView {
    if 0 <= depth < e.live.len() {
        EnvView { scopes: e.scopes, live: e.live.subrange(0, depth) }
    } else {
        e
    }
}

/// After a place is bound to a type and an identifier made to resolve to it, the
/// identifier has that type, whenever some scope is live.
pub proof fn lemma_define_lookup(e: EnvView, v: Seq<char>, p: PlaceView, t: Ty)
    requires
        Environment::live_ok(e),
        e.live.len() > 0,
    ensures
        var_type(with_var(with_binding(e, p, t), v, p), v) == Some(t),
{
    let top = e.live.last() as int;
    assert(e.live[e.live.len() - 1] < e.scopes.len());
    let e2 = with_var(with_binding(e, p, t), v, p);
    assert(e2.scopes[top].vars.contains_key(v));
    assert(e2.scopes[top].bindings.contains_key(p));
}

/// Track identifiers, places and their types over nested scopes.
pub struct Environment {
    /// stack of live scopes
    live_scopes: ScopeStack,
    /// every scope that has been used
    scopes: Vec<Scope>,
}

/// Handed out when a scope is entered; giving it back leaves that scope.
pub struct ScopeGuard {
    depth: usize,
}

impl ScopeGuard {
    /// The depth of the live stack before the scope was entered.
    pub closed spec fn depth(&self) -> int {
        self.depth as int
    }
}

impl View for Environment {
    type V = EnvView;

    closed spec fn view(&self) -> EnvView {
        EnvView { scopes: self.scopes@.map_values(|s: Scope| s@), live: self.live_scopes@ }
    }
}

impl Environment {
    /// Each scope is well formed, scope names are distinct, and the live stack
    /// points into the registry.
    pub closed spec fn wf(&self) -> bool {
        &&& forall|i: int| 0 <= i < self.scopes@.len() ==> #[trigger] self.scopes@[i].wf()
        &&& forall|i: int, j: int|
            0 <= i < self.scopes@.len() && 0 <= j < self.scopes@.len() && self.scopes@[i]@.name
                == self.scopes@[j]@.name ==> i == j
        &&& forall|k: int|
            0 <= k < self.live_scopes@.len() ==> #[trigger] self.live_scopes@[k]
                < self.scopes@.len()
    }

    pub open spec fn live_ok(e: EnvView) -> bool {
        forall|k: int| 0 <= k < e.live.len() ==> #[trigger] e.live[k] < e.scopes.len()
    }

    proof fn lemma_view(&self)
        requires
            self.wf(),
        ensures
            self@.scopes.len() == self.scopes@.len(),
            Self::live_ok(self@),
            forall|i: int| 0 <= i < self.scopes@.len() ==> #[trigger] self@.scopes[i] == self.scopes@[i]@,
    {
    }

    /// What a well-formed environment shows: its live stack points into the
    /// registry and no two scopes share a name.
    pub proof fn lemma_wf(&self)
        requires
            self.wf(),
        ensures
            Self::live_ok(self@),
            forall|i: int, j: int|
                0 <= i < self@.scopes.len() && 0 <= j < self@.scopes.len() && self@.scopes[i].name
                    == self@.scopes[j].name ==> i == j,
    {
        self.lemma_view();
    }

    /// A new environment holding one live scope of the given name.
    pub fn new(name: &str) -> (r: Environment)
        ensures
            r.wf(),
            r@ == (EnvView { scopes: seq![empty_scope(name@)], live: seq![0usize] }),
    {
        let mut env = Environment { live_scopes: ScopeStack::new(), scopes: Vec::new() };
        assert(env@.scopes =~= Seq::<ScopeView>::empty());
        env.create_scope(name);
        assert(env@.scopes =~= seq![empty_scope(name@)]);
        assert(env@.live =~= seq![0usize]);
        env
    }

    /// Bind a place to a type in the current (innermost) scope.
    pub fn insert_binding(&mut self, pl: Place, ty: TypeVar)
        requires
            old(self).wf(),
        ensures
            final(self).wf(),
            final(self)@ == with_binding(old(self)@, pl@, ty@),
    {
        let n = self.live_scopes.len();
        if n == 0 {
            return;
        }
        let top = self.live_scopes.get(n - 1);
        let ghost k = pl@;
        let ghost t = ty@;
        let mut sc = self.scopes.remove(top);
        sc.insert_binding(pl, ty);
        self.scopes.insert(top, sc);
        proof {
            let e = with_binding(old(self)@, k, t);
            assert(self@.scopes =~= e.scopes);
        }
    }

    /// Let an identifier resolve to a place in the current (innermost) scope.
    pub fn insert_var(&mut self, var: &str, pl: Place)
        requires
            old(self).wf(),
        ensures
            final(self).wf(),
            final(self)@ == with_var(old(self)@, var@, pl@),
    {
        let n = self.live_scopes.len();
        if n == 0 {
            return;
        }
        let top = self.live_scopes.get(n - 1);
        let ghost p = pl@;
        let mut sc = self.scopes.remove(top);
        sc.insert_var(var, pl);
        self.scopes.insert(top, sc);
        proof {
            let e = with_var(old(self)@, var@, p);
            assert(self@.scopes =~= e.scopes);
        }
    }

    /// The type bound to a place, searching the live scopes from the innermost.
    pub fn lookup_binding(&self, pl: &Place) -> (r: Option<TypeVar>)
        requires
            self.wf(),
        ensures
            r matches Some(t) ==> lookup_binding(self@, pl@) == Some(t@),
            r is None ==> lookup_binding(self@, pl@) is None,
    {
        proof {
            self.lemma_view();
        }
        let mut n = self.live_scopes.len();
        while n > 0
            invariant
                n <= self@.live.len(),
                self.wf(),
                binding_in(self@, n as int, pl@) == lookup_binding(self@, pl@),
            decreases n,
        {
            let idx = self.live_scopes.get(n - 1);
            proof {
                self.lemma_view();
            }
            match self.scopes[idx].lookup_place(pl) {
                Some(t) => {
                    return Some(t);
                },
                None => {},
            }
            n = n - 1;
        }
        None
    }

    /// The place an identifier resolves to, searching the live scopes from the innermost.
    pub fn lookup_var(&self, var: &str) -> (r: Option<Place>)
        requires
            self.wf(),
        ensures
            r matches Some(p) ==> lookup_var(self@, var@) == Some(p@),
            r is None ==> lookup_var(self@, var@) is None,
    {
        proof {
            self.lemma_view();
        }
        let mut n = self.live_scopes.len();
        while n > 0
            invariant
                n <= self@.live.len(),
                self.wf(),
                var_in(self@, n as int, var@) == lookup_var(self@, var@),
            decreases n,
        {
            let idx = self.live_scopes.get(n - 1);
            proof {
                self.lemma_view();
            }
            match self.scopes[idx].lookup_var(var) {
                Some(p) => {
                    return Some(p);
                },
                None => {},
            }
            n = n - 1;
        }
        None
    }

    /// The type of an identifier such as a variable or function name.
    pub fn var_type(&self, var: &str) -> (r: Option<TypeVar>)
        requires
            self.wf(),
        ensures
            r matches Some(t) ==> var_type(self@, var@) == Some(t@),
            r is None ==> var_type(self@, var@) is None,
    {
        match self.lookup_var(var) {
            Some(p) => self.lookup_binding(&p),
            None => None,
        }
    }

    fn find_scope(&self, name: &str) -> (r: Option<usize>)
        requires
            self.wf(),
        ensures
            r matches Some(i) ==> i < self@.scopes.len() && self@.scopes[i as int].name == name@,
            r is None ==> !has_scope(self@, name@),
    {
        proof {
            self.lemma_view();
        }
        let mut i: usize = 0;
        while i < self.scopes.len()
            invariant
                self.wf(),
                0 <= i <= self.scopes@.len(),
                forall|j: int| 0 <= j < i ==> self@.scopes[j].name != name@,
            decreases self.scopes.len() - i,
        {
            if str_eq(self.scopes[i].name().as_str(), name) {
                return Some(i);
            }
            i = i + 1;
        }
        None
    }

    fn create_scope(&mut self, name: &str)
        requires
            old(self).wf(),
            !has_scope(old(self)@, name@),
        ensures
            final(self).wf(),
            final(self)@ == (EnvView {
                scopes: old(self)@.scopes.push(empty_scope(name@)),
                live: old(self)@.live.push(old(self)@.scopes.len() as usize),
            }),
    {
        proof {
            self.lemma_view();
        }
        let new_scope = Scope::new(name);
        let id = self.scopes.len();
        self.scopes.push(new_scope);
        self.live_scopes.push(id);
        proof {
            let s = self.scopes@;
            assert forall|i: int, j: int|
                0 <= i < s.len() && 0 <= j < s.len() && s[i]@.name == s[j]@.name implies i == j by {
                if i < id && j == id {
                    assert(old(self)@.scopes[i].name == name@);
                }
                if j < id && i == id {
                    assert(old(self)@.scopes[j].name == name@);
                }
            }
            assert(self@.scopes =~= old(self)@.scopes.push(empty_scope(name@)));
        }
    }

    /// Push the scope of the given name, creating it on first use. Give the guard
    /// back to `release` to leave the scope.
    pub fn enter_scope(&mut self, name: &str) -> (g: ScopeGuard)
        requires
            old(self).wf(),
        ensures
            final(self).wf(),
            final(self)@ == entered(old(self)@, name@),
            g.depth() == old(self)@.live.len(),
    {
        let depth = self.live_scopes.len();
        match self.find_scope(name) {
            Some(i) => {
                proof {
                    self.lemma_view();
                    assert(has_scope(self@, name@));
                    let j = scope_index(self@, name@);
                    assert(self.scopes@[j]@.name == self.scopes@[i as int]@.name);
                }
                self.live_scopes.push(i);
            },
            None => {
                self.create_scope(name);
            },
        }
        ScopeGuard { depth }
    }

    /// Leave the innermost live scope.
    pub fn leave_scope(&mut self)
        requires
            old(self).wf(),
        ensures
            final(self).wf(),
            final(self)@ == cut_to(old(self)@, old(self)@.live.len() - 1),
    {
        self.live_scopes.pop();
        proof {
            if old(self)@.live.len() > 0 {
                assert(self@.live =~= old(self)@.live.subrange(0, old(self)@.live.len() - 1));
            }
        }
    }

    /// Leave every scope entered since the guard was handed out.
    pub fn release(&mut self, guard: ScopeGuard)
        requires
            old(self).wf(),
        ensures
            final(self).wf(),
            final(self)@ == cut_to(old(self)@, guard.depth()),
    {
        self.live_scopes.truncate(guard.depth);
        proof {
            if guard.depth() < old(self)@.live.len() {
                assert(self@.live =~= old(self)@.live.subrange(0, guard.depth()));
            } else {
                assert(self@.live =~= old(self)@.live);
            }
        }
    }

    /// How many scopes are live.
    pub fn live_depth(&self) -> (r: usize)
        ensures
            r == self@.live.len(),
    {
        self.live_scopes.len()
    }

    /// How many scopes have been created.
    pub fn scope_count(&self) -> (r: usize)
        ensures
            r == self@.scopes.len(),
    {
        self.scopes.len()
    }

    /// The scope at an index of the registry.
    pub fn scope(&self, i: usize) -> (r: &Scope)
        requires
            i < self@.scopes.len(),
        ensures
            r@ == self@.scopes[i as int],
    {
        &self.scopes[i]
    }
}

} // verus!
