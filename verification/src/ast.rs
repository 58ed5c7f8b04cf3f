//! The syntax-level input of the checker, as the parser hands it over, and the
//! fully-qualified call path that the checker produces.

use vstd::prelude::*;

verus! {

/// A half-open range of offsets into the source text of the compilation unit.
#[derive(Clone, Copy, Debug, PartialEq, Eq, Structural)]
pub struct Span {
    pub start: u64,
    pub end: u64,
}

/// Visibility of a declaration, copied verbatim from input to output.
#[derive(Clone, Copy, Debug, PartialEq, Eq, Structural)]
pub enum Visibility {
    Public,
    Private,
}

/// Built-in types; a reference to one resolves without consulting the scope.
#[derive(Clone, Copy, Debug, PartialEq, Eq, Structural)]
pub enum PrimitiveType {
    Bool,
    U8,
    U16,
    U32,
    U64,
    Str,
}

/// A syntactic reference to a type, as written in a variant's payload.
pub enum TypeReference {
    /// The payload of a variant that carries nothing: the unit type.
    Unit,
    /// A built-in type.
    Primitive { kind: PrimitiveType },
    /// The `Self` form: the declaration currently under construction.
    SelfType,
    /// A type named in source, with its explicit generic arguments, if any.
    Named { name: String, args: Vec<TypeReference> },
}

/// A declared type parameter: its name and the names of the traits its
/// instantiations must implement.
pub struct TypeParameter {
    pub name: String,
    pub constraints: Vec<String>,
    pub span: Span,
}

/// One alternative of the sum type, before checking. The tag is the explicit
/// discriminant; the checker copies it verbatim and never renumbers.
pub struct Variant {
    pub name: String,
    pub payload: TypeReference,
    pub tag: u64,
    pub span: Span,
    pub attributes: Vec<String>,
}

/// A sum-type declaration as produced by parsing, immutable from then on.
pub struct Declaration {
    pub name: String,
    pub type_parameters: Vec<TypeParameter>,
    pub variants: Vec<Variant>,
    pub span: Span,
    pub attributes: Vec<String>,
    pub visibility: Visibility,
}

/// A fully-qualified, module-root-relative path: the module segments and the
/// terminal name. A checked declaration's path is always absolute.
pub struct CallPath {
    pub prefixes: Vec<String>,
    pub name: String,
}

/// The mathematical value of a `CallPath`: its segments as character
/// sequences.
pub struct PathView {
    pub prefixes: Seq<Seq<char>>,
    pub name: Seq<char>,
}

impl View for CallPath {
    type V = PathView;

    open spec fn view(&self) -> PathView {
        PathView { prefixes: names_view(self.prefixes@), name: self.name@ }
    }
}

/// A list of names as character sequences.
pub open spec fn names_view(names: Seq<String>) -> Seq<Seq<char>> {
    names.map_values(|s: String| s@)
}

/// A copy of a name list; `String::clone` returns its argument's value, so
/// the copy equals the original.
pub fn clone_strings(v: &Vec<String>) -> (r: Vec<String>)
    ensures
        r@ == v@,
{
    let mut r: Vec<String> = Vec::new();
    let mut i: usize = 0;
    while i < v.len()
        invariant
            i <= v.len(),
            r@.len() == i,
            forall|j: int| 0 <= j < i ==> r@[j] == v@[j],
        decreases v.len() - i,
    {
        r.push(v[i].clone());
        i += 1;
    }
    proof {
        assert(r@ =~= v@);
    }
    r
}

} // verus!
