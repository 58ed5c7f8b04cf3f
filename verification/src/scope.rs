//! The hierarchical scope tree. Scopes live in an arena and point at their
//! parents by index, so a nested checking context can fork a child scope
//! without copying or owning its enclosing environment. A name binds to an
//! entity; binding fails if the name is already bound in the same scope,
//! while shadowing an ancestor's binding is permitted.

use vstd::prelude::*;
use crate::ast::names_view;
use crate::interner::CanonicalTypeId;

verus! {

/// What a name is bound to within a scope.
#[derive(Clone, Copy, Debug, PartialEq, Eq, Structural)]
pub enum Entity {
    /// A bound type parameter: its placeholder (or sentinel) identifier.
    TypeParameter { id: CanonicalTypeId },
    /// The declaration currently under construction: its canonical identifier
    /// and the number of type parameters it declares.
    SelfType { id: CanonicalTypeId, arity: usize },
}

/// One scope: a non-owning parent link into the arena, the absolute module
/// path of the code it belongs to, and its name bindings in binding order.
pub struct Scope {
    pub parent: Option<usize>,
    pub mod_path: Vec<String>,
    pub bindings: Vec<(String, Entity)>,
}

/// The mathematical value of a [`Scope`].
pub struct ScopeView {
    pub parent: Option<usize>,
    pub mod_path: Seq<Seq<char>>,
    pub bindings: Seq<(Seq<char>, Entity)>,
}

/// Name bindings as character sequences paired with their entities.
pub open spec fn bindings_view(bs: Seq<(String, Entity)>) -> Seq<(Seq<char>, Entity)> {
    bs.map_values(|b: (String, Entity)| (b.0@, b.1))
}

impl View for Scope {
    type V = ScopeView;

    open spec fn view(&self) -> ScopeView {
        ScopeView {
            parent: self.parent,
            mod_path: names_view(self.mod_path@),
            bindings: bindings_view(self.bindings@),
        }
    }
}

/// Every parent link points strictly downwards in the arena: the tree is
/// acyclic and walking it terminates.
pub open spec fn arena_wf(ss: Seq<ScopeView>) -> bool {
    forall|i: int|
        0 <= i < ss.len() ==> (#[trigger] ss[i].parent matches Some(p) ==> p < i)
}

/// The entity the earliest binding of `name` at or after position `i` holds.
pub open spec fn find_from(bs: Seq<(Seq<char>, Entity)>, i: int, name: Seq<char>) -> Option<
    Entity,
>
    decreases bs.len() - i,
{
    if i < 0 || i >= bs.len() {
        None
    } else if bs[i].0 == name {
        Some(bs[i].1)
    } else {
        find_from(bs, i + 1, name)
    }
}

/// Whether `name` is bound in this very scope (ancestors not consulted).
pub open spec fn bound_in(s: ScopeView, name: Seq<char>) -> bool {
    find_from(s.bindings, 0, name) is Some
}

/// What looking a name up from scope `scope` returns: the nearest binding,
/// walking parent links towards the root.
pub open spec fn lookup_spec(ss: Seq<ScopeView>, scope: int, name: Seq<char>) -> Option<Entity>
    decreases scope,
{
    if 0 <= scope < ss.len() && arena_wf(ss) {
        match find_from(ss[scope].bindings, 0, name) {
            Some(e) => Some(e),
            None => match ss[scope].parent {
                Some(p) => lookup_spec(ss, p as int, name),
                None => None,
            },
        }
    } else {
        None
    }
}

/// The earliest self-type binding at or after position `i`, whatever its name.
pub open spec fn find_self_from(bs: Seq<(Seq<char>, Entity)>, i: int) -> Option<Entity>
    decreases bs.len() - i,
{
    if i < 0 || i >= bs.len() {
        None
    } else if bs[i].1 is SelfType {
        Some(bs[i].1)
    } else {
        find_self_from(bs, i + 1)
    }
}

/// The self-type binding visible from scope `scope`, nearest first.
pub open spec fn self_type_spec(ss: Seq<ScopeView>, scope: int) -> Option<Entity>
    decreases scope,
{
    if 0 <= scope < ss.len() && arena_wf(ss) {
        match find_self_from(ss[scope].bindings, 0) {
            Some(e) => Some(e),
            None => match ss[scope].parent {
                Some(p) => self_type_spec(ss, p as int),
                None => None,
            },
        }
    } else {
        None
    }
}

/// The canonical identifier an entity carries, as a plain index.
pub open spec fn entity_id(e: Entity) -> int {
    match e {
        Entity::TypeParameter { id } => id.index as int,
        Entity::SelfType { id, .. } => id.index as int,
    }
}

/// Every binding of the scope carries an identifier below `n`: the scope
/// points only into an interner that holds at least `n` descriptors.
pub open spec fn scope_ids_bounded(s: ScopeView, n: int) -> bool {
    forall|j: int| 0 <= j < s.bindings.len() ==> entity_id(#[trigger] s.bindings[j].1) < n
}

/// Every scope of the arena is bounded by `n`.
pub open spec fn arena_ids_bounded(ss: Seq<ScopeView>, n: int) -> bool {
    forall|i: int| 0 <= i < ss.len() ==> scope_ids_bounded(#[trigger] ss[i], n)
}

/// A bound on the arena's identifiers survives the interner growing.
pub proof fn lemma_bounded_monotone(ss: Seq<ScopeView>, n1: int, n2: int)
    requires
        arena_ids_bounded(ss, n1),
        n1 <= n2,
    ensures
        arena_ids_bounded(ss, n2),
{
    assert forall|i: int| 0 <= i < ss.len() implies scope_ids_bounded(#[trigger] ss[i], n2) by {
        assert(scope_ids_bounded(ss[i], n1));
        assert forall|j: int|
            0 <= j < ss[i].bindings.len() implies entity_id(
            #[trigger] ss[i].bindings[j].1,
        ) < n2 by {
            assert(entity_id(ss[i].bindings[j].1) < n1);
        }
    }
}

/// A binding found in a bounded binding list is bounded.
proof fn lemma_find_from_bounded(bs: Seq<(Seq<char>, Entity)>, i: int, name: Seq<char>, n: int)
    requires
        forall|j: int| 0 <= j < bs.len() ==> entity_id(#[trigger] bs[j].1) < n,
    ensures
        find_from(bs, i, name) matches Some(e) ==> entity_id(e) < n,
    decreases bs.len() - i,
{
    if 0 <= i < bs.len() && !(bs[i].0 == name) {
        lemma_find_from_bounded(bs, i + 1, name, n);
    }
}

/// What lookup hands out of a bounded arena is bounded: the entity points
/// into the interner.
pub proof fn lemma_lookup_bounded(ss: Seq<ScopeView>, scope: int, name: Seq<char>, n: int)
    requires
        arena_ids_bounded(ss, n),
    ensures
        lookup_spec(ss, scope, name) matches Some(e) ==> entity_id(e) < n,
    decreases scope,
{
    if 0 <= scope < ss.len() && arena_wf(ss) {
        assert(scope_ids_bounded(ss[scope], n));
        lemma_find_from_bounded(ss[scope].bindings, 0, name, n);
        match ss[scope].parent {
            Some(p) => lemma_lookup_bounded(ss, p as int, name, n),
            None => {},
        }
    }
}

/// Binding a bounded entity into a bounded arena keeps it bounded.
pub proof fn lemma_bounded_bind(ss: Seq<ScopeView>, i: int, name: Seq<char>, e: Entity, n: int)
    requires
        arena_ids_bounded(ss, n),
        0 <= i < ss.len(),
        entity_id(e) < n,
    ensures
        arena_ids_bounded(ss.update(i, scope_with(ss[i], name, e)), n),
{
    let ss2 = ss.update(i, scope_with(ss[i], name, e));
    assert forall|q: int| 0 <= q < ss2.len() implies scope_ids_bounded(#[trigger] ss2[q], n) by {
        if q == i {
            let s2 = ss2[q];
            assert(scope_ids_bounded(ss[i], n));
            assert forall|j: int|
                0 <= j < s2.bindings.len() implies entity_id(#[trigger] s2.bindings[j].1) < n by {
                if j < ss[i].bindings.len() {
                    assert(entity_id(ss[i].bindings[j].1) < n);
                } else {
                    assert(s2.bindings[j].1 == e);
                }
            }
        } else {
            assert(ss2[q] == ss[q]);
            assert(scope_ids_bounded(ss[q], n));
        }
    }
}

/// Appending a bounded scope to a bounded arena keeps it bounded.
pub proof fn lemma_bounded_push_scope(ss: Seq<ScopeView>, sv: ScopeView, n: int)
    requires
        arena_ids_bounded(ss, n),
        scope_ids_bounded(sv, n),
    ensures
        arena_ids_bounded(ss.push(sv), n),
{
    let ss2 = ss.push(sv);
    assert forall|q: int| 0 <= q < ss2.len() implies scope_ids_bounded(#[trigger] ss2[q], n) by {
        if q < ss.len() {
            assert(ss2[q] == ss[q]);
            assert(scope_ids_bounded(ss[q], n));
        } else {
            assert(ss2[q] == sv);
        }
    }
}

/// `s` with one more binding appended.
pub open spec fn scope_with(s: ScopeView, name: Seq<char>, entity: Entity) -> ScopeView {
    ScopeView { bindings: s.bindings.push((name, entity)), ..s }
}

/// The child scope a fork of `parent_scope` creates.
pub open spec fn forked_view(parent_scope: ScopeView, parent: usize) -> ScopeView {
    ScopeView {
        parent: Some(parent),
        mod_path: parent_scope.mod_path,
        bindings: Seq::empty(),
    }
}

/// The arena holding every scope of one checking context.
pub struct ScopeArena {
    scopes: Vec<Scope>,
}

impl View for ScopeArena {
    type V = Seq<ScopeView>;

    closed spec fn view(&self) -> Seq<ScopeView> {
        self.scopes@.map_values(|s: Scope| s@)
    }
}

impl ScopeArena {
    /// A fresh arena holding one root scope for the module at `mod_path`
    /// (absolute, root-relative). The root has no parent and no bindings.
    pub fn new(mod_path: Vec<String>) -> (r: ScopeArena)
        ensures
            arena_wf(r@),
            r@.len() == 1,
            r@[0].parent is None,
            r@[0].mod_path == names_view(mod_path@),
            r@[0].bindings == Seq::<(Seq<char>, Entity)>::empty(),
    {
        let root = Scope { parent: None, mod_path, bindings: Vec::new() };
        let mut scopes = Vec::new();
        scopes.push(root);
        let r = ScopeArena { scopes };
        proof {
            assert(r@.len() == 1);
            assert(r@[0].bindings =~= Seq::<(Seq<char>, Entity)>::empty());
        }
        r
    }

    /// How many scopes the arena holds.
    pub fn len(&self) -> (n: usize)
        ensures
            n == self@.len(),
    {
        self.scopes.len()
    }

    /// The absolute module path of `scope`.
    pub fn mod_path(&self, scope: usize) -> (r: &Vec<String>)
        requires
            scope < self@.len(),
        ensures
            names_view(r@) == self@[scope as int].mod_path,
    {
        &self.scopes[scope].mod_path
    }

    /// Scoped acquisition: a new, empty child of `parent`, for the duration
    /// of one nested check. The child inherits the parent's module path.
    pub fn fork(&mut self, parent: usize) -> (c: usize)
        requires
            arena_wf(old(self)@),
            parent < old(self)@.len(),
        ensures
            arena_wf(final(self)@),
            c == old(self)@.len(),
            final(self)@ == old(self)@.push(forked_view(old(self)@[parent as int], parent)),
    {
        let c = self.scopes.len();
        let mod_path = self.scopes[parent].mod_path.clone();
        let child = Scope { parent: Some(parent), mod_path, bindings: Vec::new() };
        self.scopes.push(child);
        proof {
            let cv = self.scopes@[c as int]@;
            let fv = forked_view(old(self)@[parent as int], parent);
            assert(cv.mod_path =~= fv.mod_path);
            assert(cv.bindings =~= fv.bindings);
            assert(self@ =~= old(self)@.push(fv));
        }
        c
    }

    /// Discard the scopes a nested check created: shrink the arena back to
    /// its first `n` scopes.
    pub fn release(&mut self, n: usize)
        requires
            n <= old(self)@.len(),
        ensures
            final(self)@ == old(self)@.subrange(0, n as int),
    {
        self.scopes.truncate(n);
        proof {
            assert(self@ =~= old(self)@.subrange(0, n as int));
        }
    }

    /// Bind `name` to `entity` in `scope`. Fails, changing nothing, exactly
    /// when `name` is already bound in this very scope; binding a name an
    /// ancestor scope binds (shadowing) is permitted.
    pub fn bind(&mut self, scope: usize, name: String, entity: Entity) -> (r: bool)
        requires
            scope < old(self)@.len(),
        ensures
            r == !bound_in(old(self)@[scope as int], name@),
            r ==> final(self)@ == old(self)@.update(
                scope as int,
                scope_with(old(self)@[scope as int], name@, entity),
            ),
            !r ==> final(self)@ == old(self)@,
    {
        let sc = &mut self.scopes[scope];
        let dup = find_entity(&sc.bindings, &name).is_some();
        if dup {
            proof {
                assert(self@ =~= old(self)@);
            }
            false
        } else {
            sc.bindings.push((name, entity));
            proof {
                assert(bindings_view(sc.bindings@) =~= scope_with(
                    old(self)@[scope as int],
                    name@,
                    entity,
                ).bindings);
                assert(self@ =~= old(self)@.update(
                    scope as int,
                    scope_with(old(self)@[scope as int], name@, entity),
                ));
            }
            true
        }
    }

    /// Look `name` up from `scope`, walking parent links towards the root;
    /// the nearest binding wins.
    pub fn lookup(&self, scope: usize, name: &String) -> (r: Option<Entity>)
        requires
            arena_wf(self@),
            scope < self@.len(),
        ensures
            r == lookup_spec(self@, scope as int, name@),
    {
        let mut cur: usize = scope;
        loop
            invariant
                arena_wf(self@),
                cur < self@.len(),
                lookup_spec(self@, scope as int, name@) == lookup_spec(self@, cur as int, name@),
            decreases cur,
        {
            match find_entity(&self.scopes[cur].bindings, name) {
                Some(e) => {
                    return Some(e);
                },
                None => {},
            }
            match self.scopes[cur].parent {
                Some(p) => {
                    cur = p;
                },
                None => {
                    return None;
                },
            }
        }
    }

    /// The binding that represents the declaration currently under
    /// construction, if a self type is visible from `scope`.
    pub fn self_type(&self, scope: usize) -> (r: Option<Entity>)
        requires
            arena_wf(self@),
            scope < self@.len(),
        ensures
            r == self_type_spec(self@, scope as int),
    {
        let mut cur: usize = scope;
        loop
            invariant
                arena_wf(self@),
                cur < self@.len(),
                self_type_spec(self@, scope as int) == self_type_spec(self@, cur as int),
            decreases cur,
        {
            match find_self(&self.scopes[cur].bindings) {
                Some(e) => {
                    return Some(e);
                },
                None => {},
            }
            match self.scopes[cur].parent {
                Some(p) => {
                    cur = p;
                },
                None => {
                    return None;
                },
            }
        }
    }
}

/// The earliest binding of `name` in one scope's binding list.
fn find_entity(bs: &Vec<(String, Entity)>, name: &String) -> (r: Option<Entity>)
    ensures
        r == find_from(bindings_view(bs@), 0, name@),
{
    let ghost bv = bindings_view(bs@);
    let mut j: usize = 0;
    while j < bs.len()
        invariant
            bv == bindings_view(bs@),
            j <= bs.len(),
            find_from(bv, 0, name@) == find_from(bv, j as int, name@),
        decreases bs.len() - j,
    {
        if bs[j].0 == *name {
            return Some(bs[j].1);
        }
        j += 1;
    }
    None
}

/// The earliest self-type binding in one scope's binding list.
fn find_self(bs: &Vec<(String, Entity)>) -> (r: Option<Entity>)
    ensures
        r == find_self_from(bindings_view(bs@), 0),
{
    let ghost bv = bindings_view(bs@);
    let mut j: usize = 0;
    while j < bs.len()
        invariant
            bv == bindings_view(bs@),
            j <= bs.len(),
            find_self_from(bv, 0) == find_self_from(bv, j as int),
        decreases bs.len() - j,
    {
        if matches!(bs[j].1, Entity::SelfType { .. }) {
            return Some(bs[j].1);
        }
        j += 1;
    }
    None
}

} // verus!
