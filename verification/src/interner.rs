//! The shared type interner. It deduplicates type descriptors into canonical
//! identifiers: structurally equal descriptors always receive the same
//! identifier, across every declaration checked in one session. It also owns
//! the error-recovery sentinel, interned only against proof that a diagnostic
//! was recorded.

use vstd::prelude::*;
use crate::ast::{names_view, CallPath, PathView, PrimitiveType};
use sway_error::handler::ErrorEmitted;

verus! {

/// An opaque handle into the interner; equal handles mean structurally equal
/// descriptors.
#[derive(Clone, Copy, Debug, PartialEq, Eq, Structural)]
pub struct CanonicalTypeId {
    pub index: usize,
}

/// A type, written out structurally: what the interner deduplicates.
pub enum TypeDescriptor {
    /// The unit type, payload of a variant that carries nothing.
    Unit,
    /// A built-in type.
    Primitive { kind: PrimitiveType },
    /// The placeholder type of a bound type parameter.
    Placeholder { name: String },
    /// A declared sum type, identified by its absolute path.
    Declared { path: CallPath },
    /// A generic sum type applied to explicit arguments.
    Applied { base: CanonicalTypeId, args: Vec<CanonicalTypeId> },
    /// The sentinel standing in for a type that failed to resolve.
    ErrorRecovery,
}

/// The mathematical value of a [`TypeDescriptor`].
pub enum DescView {
    Unit,
    Primitive { kind: PrimitiveType },
    Placeholder { name: Seq<char> },
    Declared { path: PathView },
    Applied { base: int, args: Seq<int> },
    ErrorRecovery,
}

/// The identifiers a descriptor's arguments hold, as plain integers.
pub open spec fn ids_view(ids: Seq<CanonicalTypeId>) -> Seq<int> {
    ids.map_values(|id: CanonicalTypeId| id.index as int)
}

impl View for TypeDescriptor {
    type V = DescView;

    open spec fn view(&self) -> DescView {
        match self {
            TypeDescriptor::Unit => DescView::Unit,
            TypeDescriptor::Primitive { kind } => DescView::Primitive { kind: *kind },
            TypeDescriptor::Placeholder { name } => DescView::Placeholder { name: name@ },
            TypeDescriptor::Declared { path } => DescView::Declared { path: path@ },
            TypeDescriptor::Applied { base, args } => DescView::Applied {
                base: base.index as int,
                args: ids_view(args@),
            },
            TypeDescriptor::ErrorRecovery => DescView::ErrorRecovery,
        }
    }
}

/// No two entries of the interner are structurally equal.
pub open spec fn interner_wf(tys: Seq<DescView>) -> bool {
    forall|i: int, j: int|
        0 <= i < tys.len() && 0 <= j < tys.len() && tys[i] == tys[j] ==> i == j
}

/// The index at which a deduplicated interner holds `d`; meaningful only when
/// `tys.contains(d)`, and then unique under [`interner_wf`].
pub open spec fn interned_id(tys: Seq<DescView>, d: DescView) -> int {
    choose|i: int| 0 <= i < tys.len() && tys[i] == d
}

/// What interning `d` does: an interner that already holds `d` is left as it
/// is and hands out the existing identifier; otherwise `d` is appended.
pub open spec fn intern_spec(tys: Seq<DescView>, d: DescView) -> (Seq<DescView>, int) {
    if tys.contains(d) {
        (tys, interned_id(tys, d))
    } else {
        (tys.push(d), tys.len() as int)
    }
}

/// The session-scoped interner: one per compilation run, shared by every
/// declaration checked in that run.
pub struct TypeInterner {
    descriptors: Vec<TypeDescriptor>,
}

impl View for TypeInterner {
    type V = Seq<DescView>;

    closed spec fn view(&self) -> Seq<DescView> {
        self.descriptors@.map_values(|d: TypeDescriptor| d@)
    }
}

impl TypeInterner {
    /// A fresh interner, holding nothing.
    pub fn new() -> (r: TypeInterner)
        ensures
            r@ == Seq::<DescView>::empty(),
            interner_wf(r@),
    {
        let r = TypeInterner { descriptors: Vec::new() };
        proof {
            assert(r@ =~= Seq::<DescView>::empty());
        }
        r
    }

    /// How many descriptors the interner holds.
    pub fn len(&self) -> (n: usize)
        ensures
            n == self@.len(),
    {
        self.descriptors.len()
    }

    /// The descriptor a canonical identifier stands for.
    pub fn descriptor(&self, id: CanonicalTypeId) -> (d: &TypeDescriptor)
        requires
            id.index < self@.len(),
        ensures
            d@ == self@[id.index as int],
    {
        &self.descriptors[id.index]
    }

    /// Deduplicating insertion: the returned identifier points at `d`, and is
    /// the identifier every structurally equal descriptor maps to.
    pub fn intern(&mut self, d: TypeDescriptor) -> (r: CanonicalTypeId)
        requires
            interner_wf(old(self)@),
        ensures
            interner_wf(final(self)@),
            (final(self)@, r.index as int) == intern_spec(old(self)@, d@),
            old(self)@.is_prefix_of(final(self)@),
            r.index < final(self)@.len(),
            final(self)@[r.index as int] == d@,
    {
        let mut i: usize = 0;
        while i < self.descriptors.len()
            invariant
                self.descriptors@ == old(self).descriptors@,
                self@ == old(self)@,
                interner_wf(self@),
                i <= self.descriptors.len(),
                forall|j: int| 0 <= j < i ==> self@[j] != d@,
            decreases self.descriptors.len() - i,
        {
            if desc_eq(&self.descriptors[i], &d) {
                proof {
                    assert(self@[i as int] == d@);
                    assert(self@.contains(d@));
                    let k = interned_id(self@, d@);
                    assert(0 <= k < self@.len() && self@[k] == d@);
                    assert(k == i as int) by {
                        assert(interner_wf(self@));
                    }
                    assert(self@.is_prefix_of(self@)) by {
                        assert(self@ =~= self@.subrange(0, self@.len() as int));
                    }
                }
                return CanonicalTypeId { index: i };
            }
            i += 1;
        }
        proof {
            assert(forall|j: int| 0 <= j < self@.len() ==> self@[j] != d@);
            assert(!self@.contains(d@));
        }
        let n = self.descriptors.len();
        self.descriptors.push(d);
        proof {
            assert(self@ =~= old(self)@.push(self.descriptors@[n as int]@));
            assert(old(self)@.is_prefix_of(self@)) by {
                assert(old(self)@ =~= self@.subrange(0, old(self)@.len() as int));
            }
        }
        CanonicalTypeId { index: n }
    }

    /// The error-recovery sentinel, handed out only against the token proving
    /// that the diagnostic which caused it was already recorded.
    pub fn error_recovery_id(&mut self, _reported: ErrorEmitted) -> (r: CanonicalTypeId)
        requires
            interner_wf(old(self)@),
        ensures
            interner_wf(final(self)@),
            (final(self)@, r.index as int) == intern_spec(old(self)@, DescView::ErrorRecovery),
            old(self)@.is_prefix_of(final(self)@),
            r.index < final(self)@.len(),
            final(self)@[r.index as int] == DescView::ErrorRecovery,
    {
        self.intern(TypeDescriptor::ErrorRecovery)
    }

    /// Whether `id` is the error-recovery sentinel; downstream phases
    /// special-case it to avoid cascading diagnostics.
    pub fn is_error_recovery(&self, id: CanonicalTypeId) -> (r: bool)
        ensures
            r == (id.index < self@.len() && self@[id.index as int] == DescView::ErrorRecovery),
    {
        if id.index < self.descriptors.len() {
            matches!(self.descriptors[id.index], TypeDescriptor::ErrorRecovery)
        } else {
            false
        }
    }
}

/// A prefix of a prefix is a prefix.
pub proof fn lemma_prefix_trans(a: Seq<DescView>, b: Seq<DescView>, c: Seq<DescView>)
    requires
        a.is_prefix_of(b),
        b.is_prefix_of(c),
    ensures
        a.is_prefix_of(c),
{
    assert(a =~= c.subrange(0, a.len() as int));
}

/// Whether two name lists spell the same names.
fn strings_eq(a: &Vec<String>, b: &Vec<String>) -> (r: bool)
    ensures
        r == (names_view(a@) == names_view(b@)),
{
    let ghost av = names_view(a@);
    let ghost bv = names_view(b@);
    if a.len() != b.len() {
        proof {
            assert(av.len() != bv.len());
        }
        return false;
    }
    let mut i: usize = 0;
    while i < a.len()
        invariant
            a@.len() == b@.len(),
            i <= a.len(),
            av == names_view(a@),
            bv == names_view(b@),
            forall|j: int| 0 <= j < i ==> av[j] == bv[j],
        decreases a.len() - i,
    {
        if !(a[i] == b[i]) {
            proof {
                assert(av[i as int] != bv[i as int]);
            }
            return false;
        }
        i += 1;
    }
    proof {
        assert(av =~= bv);
    }
    true
}

/// Whether two argument lists hold the same canonical identifiers.
fn ids_eq(a: &Vec<CanonicalTypeId>, b: &Vec<CanonicalTypeId>) -> (r: bool)
    ensures
        r == (ids_view(a@) == ids_view(b@)),
{
    let ghost av = ids_view(a@);
    let ghost bv = ids_view(b@);
    if a.len() != b.len() {
        proof {
            assert(av.len() != bv.len());
        }
        return false;
    }
    let mut i: usize = 0;
    while i < a.len()
        invariant
            a@.len() == b@.len(),
            i <= a.len(),
            av == ids_view(a@),
            bv == ids_view(b@),
            forall|j: int| 0 <= j < i ==> av[j] == bv[j],
        decreases a.len() - i,
    {
        if a[i].index != b[i].index {
            proof {
                assert(av[i as int] != bv[i as int]);
            }
            return false;
        }
        i += 1;
    }
    proof {
        assert(av =~= bv);
    }
    true
}

/// Whether two call paths are the same absolute path.
pub fn path_eq(a: &CallPath, b: &CallPath) -> (r: bool)
    ensures
        r == (a@ == b@),
{
    let prefixes_eq = strings_eq(&a.prefixes, &b.prefixes);
    let names_eq = a.name == b.name;
    prefixes_eq && names_eq
}

/// Whether two descriptors are structurally equal, that is, have the same
/// mathematical value.
pub fn desc_eq(a: &TypeDescriptor, b: &TypeDescriptor) -> (r: bool)
    ensures
        r == (a@ == b@),
{
    match (a, b) {
        (TypeDescriptor::Unit, TypeDescriptor::Unit) => true,
        (TypeDescriptor::Primitive { kind: ka }, TypeDescriptor::Primitive { kind: kb }) => {
            *ka == *kb
        },
        (TypeDescriptor::Placeholder { name: na }, TypeDescriptor::Placeholder { name: nb }) => {
            *na == *nb
        },
        (TypeDescriptor::Declared { path: pa }, TypeDescriptor::Declared { path: pb }) => {
            path_eq(pa, pb)
        },
        (
            TypeDescriptor::Applied { base: ba, args: aa },
            TypeDescriptor::Applied { base: bb, args: ab },
        ) => {
            let bases_eq = ba.index == bb.index;
            let args_eq = ids_eq(aa, ab);
            bases_eq && args_eq
        },
        (TypeDescriptor::ErrorRecovery, TypeDescriptor::ErrorRecovery) => true,
        _ => false,
    }
}

} // verus!
