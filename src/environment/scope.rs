use vstd::prelude::*;

use crate::type_var::{place_text, ty_text, Place, PlaceView, Ty, TypeVar};

verus! {

/// What a `Scope` holds: its name, the types bound at each place, and the place
/// that each identifier currently resolves to.
pub struct ScopeView {
    pub name: Seq<char>,
    pub bindings: Map<PlaceView, Ty>,
    pub vars: Map<Seq<char>, PlaceView>,
}

/// The map that a list of (place, type) entries with distinct places stands for.
pub open spec fn binding_map(s: Seq<(Place, TypeVar)>) -> Map<PlaceView, Ty> {
    Map::new(
        |k: PlaceView| exists|i: int| 0 <= i < s.len() && s[i].0@ == k,
        |k: PlaceView| s[choose|i: int| 0 <= i < s.len() && s[i].0@ == k].1@,
    )
}

/// The map that a list of (identifier, place) entries with distinct identifiers stands for.
pub open spec fn var_map(s: Seq<(String, Place)>) -> Map<Seq<char>, PlaceView> {
    Map::new(
        |k: Seq<char>| exists|i: int| 0 <= i < s.len() && s[i].0@ == k,
        |k: Seq<char>| s[choose|i: int| 0 <= i < s.len() && s[i].0@ == k].1@,
    )
}

pub open spec fn distinct_places(s: Seq<(Place, TypeVar)>) -> bool {
    forall|i: int, j: int| 0 <= i < s.len() && 0 <= j < s.len() && s[i].0@ == s[j].0@ ==> i == j
}

pub open spec fn distinct_names(s: Seq<(String, Place)>) -> bool {
    forall|i: int, j: int| 0 <= i < s.len() && 0 <= j < s.len() && s[i].0@ == s[j].0@ ==> i == j
}

pub open spec fn binding_line(e: (Place, TypeVar)) -> Seq<char> {
    place_text(e.0@) + " -> "@ + ty_text(e.1@)
}

pub open spec fn var_line(e: (String, Place)) -> Seq<char> {
    e.0@ + " -> "@ + place_text(e.1@)
}

/// A scope as lines of text: a heading with its name, then each binding, then
/// each identifier with its place.
pub open spec fn scope_lines(
    name: Seq<char>,
    bs: Seq<(Place, TypeVar)>,
    vs: Seq<(String, Place)>,
) -> Seq<Seq<char>> {
    seq!["--- Scope [name: "@ + name + "]---"@, "Bindings"@] + bs.map_values(
        |e: (Place, TypeVar)| binding_line(e),
    ) + seq!["Var Place Map"@] + vs.map_values(|e: (String, Place)| var_line(e))
}

/// A named binding table.
pub struct Scope {
    name: String,
    /// each place in the source and the type bound to it
    bindings: Vec<(Place, TypeVar)>,
    /// each identifier and the place of its current value
    var_place_map: Vec<(String, Place)>,
}

impl View for Scope {
    type V = ScopeView;

    closed spec fn view(&self) -> ScopeView {
        ScopeView {
            name: self.name@,
            bindings: binding_map(self.bindings@),
            vars: var_map(self.var_place_map@),
        }
    }
}

impl Scope {
    /// Places and identifiers are each held once.
    pub closed spec fn wf(&self) -> bool {
        distinct_places(self.bindings@) && distinct_names(self.var_place_map@)
    }

    pub fn new(name: &str) -> (r: Scope)
        ensures
            r.wf(),
            r@.name == name@,
            r@.bindings == Map::<PlaceView, Ty>::empty(),
            r@.vars == Map::<Seq<char>, PlaceView>::empty(),
    {
        let r = Scope { name: name.to_string(), bindings: Vec::new(), var_place_map: Vec::new() };
        assert(binding_map(r.bindings@) =~= Map::<PlaceView, Ty>::empty());
        assert(var_map(r.var_place_map@) =~= Map::<Seq<char>, PlaceView>::empty());
        r
    }

    pub fn name(&self) -> (r: &String)
        ensures
            r@ == self@.name,
    {
        &self.name
    }

    fn find_place(&self, pl: &Place) -> (r: Option<usize>)
        ensures
            r matches Some(i) ==> i < self.bindings@.len() && self.bindings@[i as int].0@ == pl@,
            r is None ==> forall|i: int|
                0 <= i < self.bindings@.len() ==> self.bindings@[i].0@ != pl@,
    {
        let mut i: usize = 0;
        while i < self.bindings.len()
            invariant
                0 <= i <= self.bindings@.len(),
                forall|j: int| 0 <= j < i ==> self.bindings@[j].0@ != pl@,
            decreases self.bindings.len() - i,
        {
            if self.bindings[i].0.same(pl) {
                return Some(i);
            }
            i = i + 1;
        }
        None
    }

    fn find_var(&self, var: &str) -> (r: Option<usize>)
        ensures
            r matches Some(i) ==> i < self.var_place_map@.len() && self.var_place_map@[i as int].0@
                == var@,
            r is None ==> forall|i: int|
                0 <= i < self.var_place_map@.len() ==> self.var_place_map@[i].0@ != var@,
    {
        let mut i: usize = 0;
        while i < self.var_place_map.len()
            invariant
                0 <= i <= self.var_place_map@.len(),
                forall|j: int| 0 <= j < i ==> self.var_place_map@[j].0@ != var@,
            decreases self.var_place_map.len() - i,
        {
            if crate::type_var::str_eq(self.var_place_map[i].0.as_str(), var) {
                return Some(i);
            }
            i = i + 1;
        }
        None
    }

    /// Bind a place to a type, replacing what was bound there before.
    pub fn insert_binding(&mut self, pl: Place, ty: TypeVar)
        requires
            old(self).wf(),
        ensures
            final(self).wf(),
            final(self)@.name == old(self)@.name,
            final(self)@.vars == old(self)@.vars,
            final(self)@.bindings == old(self)@.bindings.insert(pl@, ty@),
    {
        let ghost k = pl@;
        let ghost old_s = self.bindings@;
        match self.find_place(&pl) {
            Some(i) => {
                self.bindings.set(i, (pl, ty));
                let ghost s = self.bindings@;
                assert forall|a: int, b: int|
                    0 <= a < s.len() && 0 <= b < s.len() && s[a].0@ == s[b].0@ implies a == b by {
                    assert(s[a].0@ == old_s[a].0@);
                    assert(s[b].0@ == old_s[b].0@);
                }
                assert forall|q: PlaceView| #[trigger] binding_map(s).contains_key(q) == old(self)@.bindings.insert(k, ty@).contains_key(q) by {
                    if exists|j: int| 0 <= j < s.len() && s[j].0@ == q {
                        let j = choose|j: int| 0 <= j < s.len() && s[j].0@ == q;
                        assert(old_s[j].0@ == q);
                    }
                    if exists|j: int| 0 <= j < old_s.len() && old_s[j].0@ == q {
                        let j = choose|j: int| 0 <= j < old_s.len() && old_s[j].0@ == q;
                        assert(s[j].0@ == q);
                    }
                    if q == k {
                        assert(s[i as int].0@ == q);
                    }
                }
                assert(binding_map(s) =~= old(self)@.bindings.insert(k, ty@));
            },
            None => {
                self.bindings.push((pl, ty));
                let ghost s = self.bindings@;
                assert(s[old_s.len() as int].0@ == k);
                assert forall|q: PlaceView| #[trigger] binding_map(s).contains_key(q) == old(self)@.bindings.insert(k, ty@).contains_key(q) by {
                    if exists|j: int| 0 <= j < s.len() && s[j].0@ == q {
                        let j = choose|j: int| 0 <= j < s.len() && s[j].0@ == q;
                        if j < old_s.len() {
                            assert(old_s[j].0@ == q);
                        }
                    }
                    if exists|j: int| 0 <= j < old_s.len() && old_s[j].0@ == q {
                        let j = choose|j: int| 0 <= j < old_s.len() && old_s[j].0@ == q;
                        assert(s[j].0@ == q);
                    }
                }
                assert forall|q: PlaceView| #[trigger] binding_map(s).contains_key(q) && q != k implies binding_map(s)[q] == binding_map(old_s)[q] by {
                    let j = choose|j: int| 0 <= j < s.len() && s[j].0@ == q;
                    let j2 = choose|j: int| 0 <= j < old_s.len() && old_s[j].0@ == q;
                    assert(s[j2].0@ == q);
                }
                assert(binding_map(s) =~= old(self)@.bindings.insert(k, ty@));
            },
        }
    }

    /// The type bound at a place in this scope.
    pub fn lookup_place(&self, pl: &Place) -> (r: Option<TypeVar>)
        requires
            self.wf(),
        ensures
            r matches Some(t) ==> self@.bindings.contains_key(pl@) && t@ == self@.bindings[pl@],
            r is None ==> !self@.bindings.contains_key(pl@),
    {
        match self.find_place(pl) {
            Some(i) => Some(self.bindings[i].1.duplicate()),
            None => None,
        }
    }

    /// Let an identifier resolve to a place from now on.
    pub fn insert_var(&mut self, var: &str, pl: Place)
        requires
            old(self).wf(),
        ensures
            final(self).wf(),
            final(self)@.name == old(self)@.name,
            final(self)@.bindings == old(self)@.bindings,
            final(self)@.vars == old(self)@.vars.insert(var@, pl@),
    {
        let ghost k = var@;
        let ghost v = pl@;
        let ghost old_s = self.var_place_map@;
        match self.find_var(var) {
            Some(i) => {
                let name = self.var_place_map[i].0.clone();
                self.var_place_map.set(i, (name, pl));
                let ghost s = self.var_place_map@;
                assert forall|a: int, b: int|
                    0 <= a < s.len() && 0 <= b < s.len() && s[a].0@ == s[b].0@ implies a == b by {
                    assert(s[a].0@ == old_s[a].0@);
                    assert(s[b].0@ == old_s[b].0@);
                }
                assert forall|q: Seq<char>| #[trigger] var_map(s).contains_key(q) == old(self)@.vars.insert(k, v).contains_key(q) by {
                    if exists|j: int| 0 <= j < s.len() && s[j].0@ == q {
                        let j = choose|j: int| 0 <= j < s.len() && s[j].0@ == q;
                        assert(old_s[j].0@ == q);
                    }
                    if exists|j: int| 0 <= j < old_s.len() && old_s[j].0@ == q {
                        let j = choose|j: int| 0 <= j < old_s.len() && old_s[j].0@ == q;
                        assert(s[j].0@ == q);
                    }
                    if q == k {
                        assert(s[i as int].0@ == q);
                    }
                }
                assert(var_map(s) =~= old(self)@.vars.insert(k, v));
            },
            None => {
                self.var_place_map.push((var.to_string(), pl));
                let ghost s = self.var_place_map@;
                assert(s[old_s.len() as int].0@ == k);
                assert forall|q: Seq<char>| #[trigger] var_map(s).contains_key(q) == old(self)@.vars.insert(k, v).contains_key(q) by {
                    if exists|j: int| 0 <= j < s.len() && s[j].0@ == q {
                        let j = choose|j: int| 0 <= j < s.len() && s[j].0@ == q;
                        if j < old_s.len() {
                            assert(old_s[j].0@ == q);
                        }
                    }
                    if exists|j: int| 0 <= j < old_s.len() && old_s[j].0@ == q {
                        let j = choose|j: int| 0 <= j < old_s.len() && old_s[j].0@ == q;
                        assert(s[j].0@ == q);
                    }
                }
                assert forall|q: Seq<char>| #[trigger] var_map(s).contains_key(q) && q != k implies var_map(s)[q] == var_map(old_s)[q] by {
                    let j = choose|j: int| 0 <= j < s.len() && s[j].0@ == q;
                    let j2 = choose|j: int| 0 <= j < old_s.len() && old_s[j].0@ == q;
                    assert(s[j2].0@ == q);
                }
                assert(var_map(s) =~= old(self)@.vars.insert(k, v));
            },
        }
    }

    /// The place an identifier currently resolves to in this scope.
    pub fn lookup_var(&self, var: &str) -> (r: Option<Place>)
        requires
            self.wf(),
        ensures
            r matches Some(p) ==> self@.vars.contains_key(var@) && p@ == self@.vars[var@],
            r is None ==> !self@.vars.contains_key(var@),
    {
        match self.find_var(var) {
            Some(i) => Some(self.var_place_map[i].1.duplicate()),
            None => None,
        }
    }

    /// The entries of the binding table, in the order they were first made.
    pub closed spec fn binding_list(&self) -> Seq<(Place, TypeVar)> {
        self.bindings@
    }

    /// The entries of the identifier table, in the order they were first made.
    pub closed spec fn var_list(&self) -> Seq<(String, Place)> {
        self.var_place_map@
    }

    pub fn binding_entries(&self) -> (r: &Vec<(Place, TypeVar)>)
        ensures
            r@ == self.binding_list(),
            binding_map(r@) == self@.bindings,
    {
        &self.bindings
    }

    pub fn var_entries(&self) -> (r: &Vec<(String, Place)>)
        ensures
            r@ == self.var_list(),
            var_map(r@) == self@.vars,
    {
        &self.var_place_map
    }

    /// The scope as lines of text: its name, each binding, each identifier.
    pub fn describe(&self) -> (r: Vec<String>)
        ensures
            r@.map_values(|l: String| l@) == scope_lines(self@.name, self.binding_list(), self.var_list()),
    {
        let mut out: Vec<String> = Vec::new();
        let mut head = String::from_str("--- Scope [name: ");
        head.append(self.name.as_str());
        head.append("]---");
        out.push(head);
        out.push(String::from_str("Bindings"));
        let ghost first = out@.map_values(|l: String| l@);
        assert(first =~= seq!["--- Scope [name: "@ + self@.name + "]---"@, "Bindings"@]);
        let mut i: usize = 0;
        while i < self.bindings.len()
            invariant
                0 <= i <= self.bindings@.len(),
                out@.map_values(|l: String| l@) == first + self.bindings@.take(i as int).map_values(
                    |e: (Place, TypeVar)| binding_line(e),
                ),
            decreases self.bindings.len() - i,
        {
            let mut l = self.bindings[i].0.to_text();
            l.append(" -> ");
            let t = self.bindings[i].1.to_text();
            l.append(t.as_str());
            let ghost prev = out@.map_values(|l: String| l@);
            assert(l@ == binding_line(self.bindings@[i as int]));
            out.push(l);
            proof {
                assert(out@.map_values(|l: String| l@) =~= prev.push(binding_line(self.bindings@[i as int])));
                assert(self.bindings@.take(i + 1).map_values(|e: (Place, TypeVar)| binding_line(e))
                    =~= self.bindings@.take(i as int).map_values(|e: (Place, TypeVar)| binding_line(e)).push(
                    binding_line(self.bindings@[i as int])));
                assert(out@.map_values(|l: String| l@) =~= first + self.bindings@.take(i + 1).map_values(
                    |e: (Place, TypeVar)| binding_line(e)));
            }
            i = i + 1;
        }
        assert(self.bindings@.take(i as int) =~= self.bindings@);
        out.push(String::from_str("Var Place Map"));
        let ghost second = out@.map_values(|l: String| l@);
        assert(second =~= first + self.bindings@.map_values(|e: (Place, TypeVar)| binding_line(e)) + seq!["Var Place Map"@]);
        let mut j: usize = 0;
        while j < self.var_place_map.len()
            invariant
                0 <= j <= self.var_place_map@.len(),
                out@.map_values(|l: String| l@) == second + self.var_place_map@.take(j as int).map_values(
                    |e: (String, Place)| var_line(e),
                ),
            decreases self.var_place_map.len() - j,
        {
            let mut l = self.var_place_map[j].0.clone();
            l.append(" -> ");
            let t = self.var_place_map[j].1.to_text();
            l.append(t.as_str());
            let ghost prev = out@.map_values(|l: String| l@);
            assert(l@ == var_line(self.var_place_map@[j as int]));
            out.push(l);
            proof {
                assert(out@.map_values(|l: String| l@) =~= prev.push(var_line(self.var_place_map@[j as int])));
                assert(self.var_place_map@.take(j + 1).map_values(|e: (String, Place)| var_line(e))
                    =~= self.var_place_map@.take(j as int).map_values(|e: (String, Place)| var_line(e)).push(
                    var_line(self.var_place_map@[j as int])));
                assert(out@.map_values(|l: String| l@) =~= second + self.var_place_map@.take(j + 1).map_values(
                    |e: (String, Place)| var_line(e)));
            }
            j = j + 1;
        }
        assert(self.var_place_map@.take(j as int) =~= self.var_place_map@);
        out
    }
}

/// The stack of live scopes, each given by its index in the registry.
pub struct ScopeStack {
    stack: Vec<usize>,
}

impl View for ScopeStack {
    type V = Seq<usize>;

    closed spec fn view(&self) -> Seq<usize> {
        self.stack@
    }
}

impl ScopeStack {
    pub fn new() -> (r: ScopeStack)
        ensures
            r@ == Seq::<usize>::empty(),
    {
        ScopeStack { stack: Vec::new() }
    }

    pub fn len(&self) -> (r: usize)
        ensures
            r == self@.len(),
    {
        self.stack.len()
    }

    pub fn get(&self, i: usize) -> (r: usize)
        requires
            i < self@.len(),
        ensures
            r == self@[i as int],
    {
        self.stack[i]
    }

    pub fn push(&mut self, id: usize)
        ensures
            final(self)@ == old(self)@.push(id),
    {
        self.stack.push(id);
    }

    pub fn pop(&mut self) -> (r: Option<usize>)
        ensures
            old(self)@.len() == 0 ==> r is None && final(self)@ == old(self)@,
            old(self)@.len() > 0 ==> r == Some(old(self)@.last()) && final(self)@
                == old(self)@.drop_last(),
    {
        self.stack.pop()
    }

    pub fn truncate(&mut self, depth: usize)
        ensures
            depth <= old(self)@.len() ==> final(self)@ == old(self)@.subrange(0, depth as int),
            depth > old(self)@.len() ==> final(self)@ == old(self)@,
    {
        self.stack.truncate(depth);
    }
}

} // verus!
