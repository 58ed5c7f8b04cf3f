//! The laws of the checker, stated and proved over the same specification
//! functions that the executable functions' contracts use: completeness of
//! the output when nothing fails, conservation between dropped variants and
//! recorded diagnostics, idempotence of resolution through the shared
//! interner, resolution of self-references, and path qualification.

use vstd::prelude::*;
use crate::ast::{Declaration, PathView, TypeReference};
use crate::checker::{check_params_spec, check_variants_spec, type_check_spec};
use crate::interner::{intern_spec, interned_id, interner_wf, lemma_prefix_trans, CanonicalTypeId, DescView};
use crate::resolver::{resolve_args_spec, resolve_spec, ArgsOut, ResolveOut};
use crate::scope::{
    arena_wf, find_from, forked_view, lookup_spec, scope_with, Entity, ScopeView,
};

verus! {

/// Interning extends the interner by at most the new descriptor, keeps it
/// deduplicated, and hands out an identifier that points at the descriptor.
proof fn lemma_intern_props(tys: Seq<DescView>, d: DescView)
    requires
        interner_wf(tys),
    ensures
        ({
            let (t, i) = intern_spec(tys, d);
            &&& tys.is_prefix_of(t)
            &&& interner_wf(t)
            &&& 0 <= i < t.len()
            &&& t[i] == d
            &&& i <= tys.len()
        }),
{
    if tys.contains(d) {
        let k = interned_id(tys, d);
        assert(0 <= k < tys.len() && tys[k] == d);
        assert(tys.is_prefix_of(tys)) by {
            assert(tys =~= tys.subrange(0, tys.len() as int));
        }
    } else {
        let t = tys.push(d);
        assert(tys.is_prefix_of(t)) by {
            assert(tys =~= t.subrange(0, tys.len() as int));
        }
        assert(interner_wf(t)) by {
            assert forall|i: int, j: int|
                0 <= i < t.len() && 0 <= j < t.len() && t[i] == t[j] implies i == j by {
                if i < tys.len() && j == tys.len() {
                    assert(tys[i] == d);
                    assert(tys.contains(d));
                }
                if j < tys.len() && i == tys.len() {
                    assert(tys[j] == d);
                    assert(tys.contains(d));
                }
            }
        }
    }
}

/// Once a descriptor is interned, every later state of the interner hands
/// out the same identifier for it and is left unchanged.
proof fn lemma_intern_stable(tys: Seq<DescView>, d: DescView, later: Seq<DescView>)
    requires
        interner_wf(tys),
        intern_spec(tys, d).0.is_prefix_of(later),
        interner_wf(later),
    ensures
        intern_spec(later, d) == (later, intern_spec(tys, d).1),
{
    lemma_intern_props(tys, d);
    let (t, i) = intern_spec(tys, d);
    assert(later[i] == t[i]);
    assert(later.contains(d));
    let k = interned_id(later, d);
    assert(0 <= k < later.len() && later[k] == d);
    assert(k == i);
}

/// Resolution only appends to the interner and keeps it deduplicated.
proof fn lemma_resolve_extends(
    ss: Seq<ScopeView>,
    scope: int,
    self_ty: Option<CanonicalTypeId>,
    enforce: bool,
    tys: Seq<DescView>,
    tr: TypeReference,
)
    requires
        interner_wf(tys),
    ensures
        ({
            let o = resolve_spec(ss, scope, self_ty, enforce, tys, tr);
            tys.is_prefix_of(o.tys) && interner_wf(o.tys)
        }),
    decreases tr, 0int,
{
    assert(tys.is_prefix_of(tys)) by {
        assert(tys =~= tys.subrange(0, tys.len() as int));
    }
    match tr {
        TypeReference::Unit => {
            lemma_intern_props(tys, DescView::Unit);
        },
        TypeReference::Primitive { kind } => {
            lemma_intern_props(tys, DescView::Primitive { kind });
        },
        TypeReference::SelfType => {},
        TypeReference::Named { name, args } => {
            match lookup_spec(ss, scope, name@) {
                Some(Entity::SelfType { id, arity }) => {
                    if args@.len() == arity as int && arity != 0 {
                        lemma_args_extends(
                            ss,
                            scope,
                            self_ty,
                            enforce,
                            tys,
                            args@,
                            0,
                            Seq::empty(),
                        );
                        let ar = resolve_args_spec(
                            ss,
                            scope,
                            self_ty,
                            enforce,
                            tys,
                            args@,
                            0,
                            Seq::empty(),
                        );
                        match ar.res {
                            Ok(ids) => {
                                lemma_intern_props(
                                    ar.tys,
                                    DescView::Applied { base: id.index as int, args: ids },
                                );
                                lemma_prefix_trans(
                                    tys,
                                    ar.tys,
                                    intern_spec(
                                        ar.tys,
                                        DescView::Applied { base: id.index as int, args: ids },
                                    ).0,
                                );
                            },
                            Err(_) => {},
                        }
                    }
                },
                _ => {},
            }
        },
    }
}

/// Resolving an argument list only appends to the interner and keeps it
/// deduplicated.
proof fn lemma_args_extends(
    ss: Seq<ScopeView>,
    scope: int,
    self_ty: Option<CanonicalTypeId>,
    enforce: bool,
    tys: Seq<DescView>,
    args: Seq<TypeReference>,
    i: int,
    acc: Seq<int>,
)
    requires
        interner_wf(tys),
    ensures
        ({
            let o = resolve_args_spec(ss, scope, self_ty, enforce, tys, args, i, acc);
            tys.is_prefix_of(o.tys) && interner_wf(o.tys)
        }),
    decreases args, args.len() - i,
{
    assert(tys.is_prefix_of(tys)) by {
        assert(tys =~= tys.subrange(0, tys.len() as int));
    }
    if 0 <= i < args.len() {
        lemma_resolve_extends(ss, scope, self_ty, enforce, tys, args[i]);
        let out = resolve_spec(ss, scope, self_ty, enforce, tys, args[i]);
        match out.res {
            Ok(id) => {
                lemma_args_extends(
                    ss,
                    scope,
                    self_ty,
                    enforce,
                    out.tys,
                    args,
                    i + 1,
                    acc.push(id),
                );
                let o = resolve_args_spec(
                    ss,
                    scope,
                    self_ty,
                    enforce,
                    out.tys,
                    args,
                    i + 1,
                    acc.push(id),
                );
                lemma_prefix_trans(tys, out.tys, o.tys);
            },
            Err(_) => {},
        }
    }
}

/// Interning idempotence of resolution: a type reference that resolved once
/// resolves to the identical canonical identifier against every later state
/// of the shared interner — in particular when the same reference recurs in
/// another variant, with any interning in between — and the later resolution
/// interns nothing new and records nothing.
pub proof fn lemma_resolution_idempotent(
    ss: Seq<ScopeView>,
    scope: int,
    self_ty: Option<CanonicalTypeId>,
    enforce: bool,
    tys: Seq<DescView>,
    tr: TypeReference,
    later: Seq<DescView>,
)
    requires
        interner_wf(tys),
        resolve_spec(ss, scope, self_ty, enforce, tys, tr).res is Ok,
        resolve_spec(ss, scope, self_ty, enforce, tys, tr).tys.is_prefix_of(later),
        interner_wf(later),
    ensures
        resolve_spec(ss, scope, self_ty, enforce, later, tr) == (ResolveOut {
            tys: later,
            res: resolve_spec(ss, scope, self_ty, enforce, tys, tr).res,
        }),
    decreases tr, 0int,
{
    let o = resolve_spec(ss, scope, self_ty, enforce, tys, tr);
    match tr {
        TypeReference::Unit => {
            lemma_intern_stable(tys, DescView::Unit, later);
        },
        TypeReference::Primitive { kind } => {
            lemma_intern_stable(tys, DescView::Primitive { kind }, later);
        },
        TypeReference::SelfType => {},
        TypeReference::Named { name, args } => {
            match lookup_spec(ss, scope, name@) {
                Some(Entity::SelfType { id, arity }) => {
                    if args@.len() == arity as int && arity != 0 {
                        let ar = resolve_args_spec(
                            ss,
                            scope,
                            self_ty,
                            enforce,
                            tys,
                            args@,
                            0,
                            Seq::empty(),
                        );
                        lemma_args_extends(
                            ss,
                            scope,
                            self_ty,
                            enforce,
                            tys,
                            args@,
                            0,
                            Seq::empty(),
                        );
                        match ar.res {
                            Ok(ids) => {
                                let d = DescView::Applied { base: id.index as int, args: ids };
                                lemma_intern_props(ar.tys, d);
                                lemma_prefix_trans(ar.tys, intern_spec(ar.tys, d).0, later);
                                lemma_args_idempotent(
                                    ss,
                                    scope,
                                    self_ty,
                                    enforce,
                                    tys,
                                    args@,
                                    0,
                                    Seq::empty(),
                                    later,
                                );
                                lemma_intern_stable(ar.tys, d, later);
                            },
                            Err(_) => {},
                        }
                    }
                },
                _ => {},
            }
        },
    }
}

/// The argument-list form of [`lemma_resolution_idempotent`].
proof fn lemma_args_idempotent(
    ss: Seq<ScopeView>,
    scope: int,
    self_ty: Option<CanonicalTypeId>,
    enforce: bool,
    tys: Seq<DescView>,
    args: Seq<TypeReference>,
    i: int,
    acc: Seq<int>,
    later: Seq<DescView>,
)
    requires
        interner_wf(tys),
        resolve_args_spec(ss, scope, self_ty, enforce, tys, args, i, acc).res is Ok,
        resolve_args_spec(ss, scope, self_ty, enforce, tys, args, i, acc).tys.is_prefix_of(
            later,
        ),
        interner_wf(later),
    ensures
        resolve_args_spec(ss, scope, self_ty, enforce, later, args, i, acc) == (ArgsOut {
            tys: later,
            res: resolve_args_spec(ss, scope, self_ty, enforce, tys, args, i, acc).res,
        }),
    decreases args, args.len() - i,
{
    if 0 <= i < args.len() {
        let out = resolve_spec(ss, scope, self_ty, enforce, tys, args[i]);
        lemma_resolve_extends(ss, scope, self_ty, enforce, tys, args[i]);
        match out.res {
            Ok(id) => {
                lemma_args_extends(
                    ss,
                    scope,
                    self_ty,
                    enforce,
                    out.tys,
                    args,
                    i + 1,
                    acc.push(id),
                );
                let rest = resolve_args_spec(
                    ss,
                    scope,
                    self_ty,
                    enforce,
                    out.tys,
                    args,
                    i + 1,
                    acc.push(id),
                );
                lemma_prefix_trans(out.tys, rest.tys, later);
                lemma_resolution_idempotent(
                    ss,
                    scope,
                    self_ty,
                    enforce,
                    tys,
                    args[i],
                    later,
                );
                lemma_args_idempotent(
                    ss,
                    scope,
                    self_ty,
                    enforce,
                    out.tys,
                    args,
                    i + 1,
                    acc.push(id),
                    later,
                );
            },
            Err(_) => {},
        }
    }
}

/// Over the variant fold: diagnostics only accumulate, every step yields
/// exactly one checked variant or exactly one diagnostic, and where nothing
/// is recorded the fold keeps every variant, in order, names and tags
/// verbatim.
proof fn lemma_variants_fold(
    ss: Seq<ScopeView>,
    scope: int,
    self_ty: Option<CanonicalTypeId>,
    tys: Seq<DescView>,
    vs: Seq<crate::ast::Variant>,
    i: int,
    diags: Seq<crate::diagnostics::DiagView>,
    out: Seq<crate::checker::CheckedVariantView>,
)
    requires
        0 <= i <= vs.len(),
    ensures
        ({
            let o = check_variants_spec(ss, scope, self_ty, tys, vs, i, diags, out);
            &&& o.diags.len() >= diags.len()
            &&& o.vars.len() + o.diags.len() == out.len() + diags.len() + (vs.len() - i)
            &&& (o.diags == diags ==> {
                &&& o.vars.len() == out.len() + (vs.len() - i)
                &&& (forall|j: int| 0 <= j < out.len() ==> o.vars[j] == out[j])
                &&& (forall|j: int|
                    i <= j < vs.len() ==> o.vars[out.len() + (j - i)].name == vs[j].name@
                        && o.vars[out.len() + (j - i)].tag == vs[j].tag)
            })
        }),
    decreases vs.len() - i,
{
    if i < vs.len() {
        let v = vs[i];
        let r = resolve_spec(ss, scope, self_ty, true, tys, v.payload);
        let o = check_variants_spec(ss, scope, self_ty, tys, vs, i, diags, out);
        match r.res {
            Ok(id) => {
                let cv = crate::checker::CheckedVariantView {
                    name: v.name@,
                    payload: id,
                    tag: v.tag,
                    span: v.span,
                    attributes: crate::ast::names_view(v.attributes@),
                };
                lemma_variants_fold(ss, scope, self_ty, r.tys, vs, i + 1, diags, out.push(cv));
                assert(o == check_variants_spec(
                    ss,
                    scope,
                    self_ty,
                    r.tys,
                    vs,
                    i + 1,
                    diags,
                    out.push(cv),
                ));
                if o.diags == diags {
                    assert forall|j: int| 0 <= j < out.len() implies o.vars[j] == out[j] by {
                        assert(o.vars[j] == out.push(cv)[j]);
                    }
                    assert forall|j: int|
                        i <= j < vs.len() implies o.vars[out.len() + (j - i)].name == vs[j].name@
                            && o.vars[out.len() + (j - i)].tag == vs[j].tag by {
                        if j == i {
                            assert(o.vars[out.len() + (j - i)] == out.push(cv)[out.len() as int]);
                        } else {
                            assert(o.vars[(out.push(cv).len() as int) + (j - (i + 1))].name == vs[
                                j
                            ].name@);
                            assert(o.vars[(out.push(cv).len() as int) + (j - (i + 1))].tag == vs[
                                j
                            ].tag);
                            assert(out.len() + (j - i) == (out.push(cv).len() as int) + (j - (i
                                + 1)));
                        }
                    }
                }
            },
            Err(d) => {
                lemma_variants_fold(ss, scope, self_ty, r.tys, vs, i + 1, diags.push(d), out);
                assert(o.diags.len() >= diags.push(d).len());
            },
        }
    }
}

/// For any declaration whose check records no diagnostic, the output holds
/// exactly the input's variants: the same count, in the same order, with the
/// same names and the same tags.
pub proof fn lemma_all_variants_kept(
    ss: Seq<ScopeView>,
    scope: usize,
    traits: Seq<Seq<char>>,
    tys: Seq<DescView>,
    decl: Declaration,
)
    ensures
        ({
            let out = type_check_spec(ss, scope, traits, tys, decl);
            out.diags.len() == 0 ==> {
                &&& out.decl.variants.len() == decl.variants@.len()
                &&& (forall|j: int|
                    0 <= j < decl.variants@.len() ==> out.decl.variants[j].name
                        == decl.variants@[j].name@ && out.decl.variants[j].tag
                        == decl.variants@[j].tag)
            }
        }),
{
    let out = type_check_spec(ss, scope, traits, tys, decl);
    let path = PathView { prefixes: ss[scope as int].mod_path, name: decl.name@ };
    let (tys1, self_id) = intern_spec(tys, DescView::Declared { path });
    let self_cid = CanonicalTypeId { index: self_id as usize };
    let arity = decl.type_parameters@.len() as usize;
    let sv0 = scope_with(
        forked_view(ss[scope as int], scope),
        decl.name@,
        Entity::SelfType { id: self_cid, arity },
    );
    let pout = check_params_spec(
        traits,
        tys1,
        sv0,
        decl.type_parameters@,
        0,
        Seq::empty(),
        Seq::empty(),
    );
    let vd: Seq<crate::diagnostics::DiagView> = Seq::empty();
    lemma_variants_fold(
        ss.push(pout.sv),
        ss.len() as int,
        Some(self_cid),
        pout.tys,
        decl.variants@,
        0,
        vd,
        Seq::empty(),
    );
    if out.diags.len() == 0 {
        let vout = check_variants_spec(
            ss.push(pout.sv),
            ss.len() as int,
            Some(self_cid),
            pout.tys,
            decl.variants@,
            0,
            vd,
            Seq::empty(),
        );
        assert(vout.diags =~= vd);
    }
}

/// Variants are conserved: for a declaration without type parameters, the
/// checked variants and the recorded diagnostics together count the input's
/// variants — each variant either reaches the output or costs exactly one
/// diagnostic. A declaration with exactly one failing variant thus comes out
/// with one variant fewer and one diagnostic recorded.
pub proof fn lemma_variant_conservation(
    ss: Seq<ScopeView>,
    scope: usize,
    traits: Seq<Seq<char>>,
    tys: Seq<DescView>,
    decl: Declaration,
)
    requires
        decl.type_parameters@.len() == 0,
    ensures
        ({
            let out = type_check_spec(ss, scope, traits, tys, decl);
            out.decl.variants.len() + out.diags.len() == decl.variants@.len()
        }),
{
    let path = PathView { prefixes: ss[scope as int].mod_path, name: decl.name@ };
    let (tys1, self_id) = intern_spec(tys, DescView::Declared { path });
    let self_cid = CanonicalTypeId { index: self_id as usize };
    let sv0 = scope_with(
        forked_view(ss[scope as int], scope),
        decl.name@,
        Entity::SelfType { id: self_cid, arity: 0 },
    );
    let pout = check_params_spec(
        traits,
        tys1,
        sv0,
        decl.type_parameters@,
        0,
        Seq::empty(),
        Seq::empty(),
    );
    let vd: Seq<crate::diagnostics::DiagView> = Seq::empty();
    lemma_variants_fold(
        ss.push(pout.sv),
        ss.len() as int,
        Some(self_cid),
        pout.tys,
        decl.variants@,
        0,
        vd,
        Seq::empty(),
    );
    let out = type_check_spec(ss, scope, traits, tys, decl);
    assert(out.diags =~= check_variants_spec(
        ss.push(pout.sv),
        ss.len() as int,
        Some(self_cid),
        pout.tys,
        decl.variants@,
        0,
        vd,
        Seq::empty(),
    ).diags);
}

/// Self-reference: in the scope the checker sets up for a declaration
/// without type parameters, a payload that names the declaration itself
/// resolves — through the self-type binding — to the declaration's own
/// canonical identifier, which stands for the declaration and is not the
/// error-recovery sentinel, rather than failing as an undeclared forward
/// reference, and records nothing.
pub proof fn lemma_self_reference(
    ss: Seq<ScopeView>,
    scope: usize,
    traits: Seq<Seq<char>>,
    tys: Seq<DescView>,
    decl: Declaration,
    tr: TypeReference,
)
    requires
        arena_wf(ss),
        scope < ss.len(),
        interner_wf(tys),
        tys.len() < usize::MAX,
        decl.type_parameters@.len() == 0,
        tr matches TypeReference::Named { name, args } && name@ == decl.name@ && args@.len() == 0,
    ensures
        ({
            let path = PathView { prefixes: ss[scope as int].mod_path, name: decl.name@ };
            let (tys1, self_id) = intern_spec(tys, DescView::Declared { path });
            let self_cid = CanonicalTypeId { index: self_id as usize };
            let sv0 = scope_with(
                forked_view(ss[scope as int], scope),
                decl.name@,
                Entity::SelfType { id: self_cid, arity: 0 },
            );
            let pout = check_params_spec(
                traits,
                tys1,
                sv0,
                decl.type_parameters@,
                0,
                Seq::empty(),
                Seq::empty(),
            );
            &&& 0 <= self_id < tys1.len()
            &&& tys1[self_id] == DescView::Declared { path }
            &&& tys1[self_id] != DescView::ErrorRecovery
            &&& forall|t: Seq<DescView>|
                #[trigger] resolve_spec(
                    ss.push(pout.sv),
                    ss.len() as int,
                    Some(self_cid),
                    true,
                    t,
                    tr,
                ) == (ResolveOut { tys: t, res: Ok(self_id) })
        }),
{
    let path = PathView { prefixes: ss[scope as int].mod_path, name: decl.name@ };
    let (tys1, self_id) = intern_spec(tys, DescView::Declared { path });
    lemma_intern_id_in_range(tys, DescView::Declared { path });
    lemma_intern_props(tys, DescView::Declared { path });
    let self_cid = CanonicalTypeId { index: self_id as usize };
    let fv = forked_view(ss[scope as int], scope);
    let sv0 = scope_with(fv, decl.name@, Entity::SelfType { id: self_cid, arity: 0 });
    let pout = check_params_spec(
        traits,
        tys1,
        sv0,
        decl.type_parameters@,
        0,
        Seq::empty(),
        Seq::empty(),
    );
    assert(pout.sv == sv0);
    let ss1 = ss.push(sv0);
    assert(arena_wf(ss1)) by {
        assert forall|i: int|
            0 <= i < ss1.len() implies (#[trigger] ss1[i].parent matches Some(p) ==> p < i) by {
            if i < ss.len() {
                assert(ss1[i] == ss[i]);
            }
        }
    }
    assert(sv0.bindings[0] == (decl.name@, Entity::SelfType { id: self_cid, arity: 0 }));
    assert(find_from(sv0.bindings, 0, decl.name@) == Some(
        Entity::SelfType { id: self_cid, arity: 0 },
    ));
    assert(lookup_spec(ss1, ss.len() as int, decl.name@) == Some(
        Entity::SelfType { id: self_cid, arity: 0 },
    ));
    assert(self_cid.index as int == self_id);
    assert forall|t: Seq<DescView>|
        #[trigger] resolve_spec(ss1, ss.len() as int, Some(self_cid), true, t, tr)
            == (ResolveOut { tys: t, res: Ok(self_id) }) by {
        let o = resolve_spec(ss1, ss.len() as int, Some(self_cid), true, t, tr);
        assert(o.tys == t && o.res == Ok::<int, crate::diagnostics::DiagView>(self_id));
    }
}

/// The identifier interning hands out never exceeds the interner's size,
/// so it survives the round trip through a machine-word index.
proof fn lemma_intern_id_in_range(tys: Seq<DescView>, d: DescView)
    ensures
        0 <= intern_spec(tys, d).1 <= tys.len(),
{
    if tys.contains(d) {
        let k = interned_id(tys, d);
        assert(0 <= k < tys.len() && tys[k] == d);
    }
}

/// Path correctness: whatever the nesting depth of the module the check runs
/// in, the output's path is the scope's absolute module path with the
/// declaration's own name as its terminal segment.
pub proof fn lemma_path_qualification(
    ss: Seq<ScopeView>,
    scope: usize,
    traits: Seq<Seq<char>>,
    tys: Seq<DescView>,
    decl: Declaration,
)
    ensures
        type_check_spec(ss, scope, traits, tys, decl).decl.path.prefixes == ss[
            scope as int
        ].mod_path,
        type_check_spec(ss, scope, traits, tys, decl).decl.path.name == decl.name@,
{
}

/// The interner as it stands before the variant fold reaches step `k`,
/// having started at `tys` before step `i`.
pub open spec fn variants_state(
    ss: Seq<ScopeView>,
    scope: int,
    self_ty: Option<CanonicalTypeId>,
    tys: Seq<DescView>,
    vs: Seq<crate::ast::Variant>,
    i: int,
    k: int,
) -> Seq<DescView>
    decreases k - i,
{
    if k <= i {
        tys
    } else {
        let prev = variants_state(ss, scope, self_ty, tys, vs, i, k - 1);
        resolve_spec(ss, scope, self_ty, true, prev, vs[k - 1].payload).tys
    }
}

/// The fold's final interner is the state after its last step, and every
/// intermediate state extends the ones before it and stays deduplicated.
proof fn lemma_variants_state_extends(
    ss: Seq<ScopeView>,
    scope: int,
    self_ty: Option<CanonicalTypeId>,
    tys: Seq<DescView>,
    vs: Seq<crate::ast::Variant>,
    i: int,
    k: int,
)
    requires
        interner_wf(tys),
        0 <= i <= k <= vs.len(),
    ensures
        interner_wf(variants_state(ss, scope, self_ty, tys, vs, i, k)),
        tys.is_prefix_of(variants_state(ss, scope, self_ty, tys, vs, i, k)),
    decreases k - i,
{
    assert(tys.is_prefix_of(tys)) by {
        assert(tys =~= tys.subrange(0, tys.len() as int));
    }
    if k > i {
        lemma_variants_state_extends(ss, scope, self_ty, tys, vs, i, k - 1);
        let prev = variants_state(ss, scope, self_ty, tys, vs, i, k - 1);
        lemma_resolve_extends(ss, scope, self_ty, true, prev, vs[k - 1].payload);
        lemma_prefix_trans(
            tys,
            prev,
            resolve_spec(ss, scope, self_ty, true, prev, vs[k - 1].payload).tys,
        );
    }
}

/// Interning idempotence across one declaration: where two variants carry the
/// same payload type reference and the earlier one resolves, the later one
/// resolves too — at its own, later state of the shared interner — to the
/// identical canonical identifier, and interns nothing new.
pub proof fn lemma_two_variants_same_id(
    ss: Seq<ScopeView>,
    scope: int,
    self_ty: Option<CanonicalTypeId>,
    tys: Seq<DescView>,
    vs: Seq<crate::ast::Variant>,
    a: int,
    b: int,
)
    requires
        interner_wf(tys),
        0 <= a < b < vs.len(),
        vs[a].payload == vs[b].payload,
        ({
            let sa = variants_state(ss, scope, self_ty, tys, vs, 0, a);
            resolve_spec(ss, scope, self_ty, true, sa, vs[a].payload).res is Ok
        }),
    ensures
        ({
            let sa = variants_state(ss, scope, self_ty, tys, vs, 0, a);
            let sb = variants_state(ss, scope, self_ty, tys, vs, 0, b);
            resolve_spec(ss, scope, self_ty, true, sb, vs[b].payload) == (ResolveOut {
                tys: sb,
                res: resolve_spec(ss, scope, self_ty, true, sa, vs[a].payload).res,
            })
        }),
{
    let sa = variants_state(ss, scope, self_ty, tys, vs, 0, a);
    lemma_variants_state_extends(ss, scope, self_ty, tys, vs, 0, a);
    let oa = resolve_spec(ss, scope, self_ty, true, sa, vs[a].payload);
    assert(oa.tys == variants_state(ss, scope, self_ty, tys, vs, 0, a + 1));
    lemma_state_prefix_chain(ss, scope, self_ty, tys, vs, a + 1, b);
    let sb = variants_state(ss, scope, self_ty, tys, vs, 0, b);
    lemma_resolution_idempotent(
        ss,
        scope,
        self_ty,
        true,
        sa,
        vs[a].payload,
        sb,
    );
}

/// Later fold states extend earlier ones.
proof fn lemma_state_prefix_chain(
    ss: Seq<ScopeView>,
    scope: int,
    self_ty: Option<CanonicalTypeId>,
    tys: Seq<DescView>,
    vs: Seq<crate::ast::Variant>,
    j: int,
    k: int,
)
    requires
        interner_wf(tys),
        0 <= j <= k <= vs.len(),
    ensures
        variants_state(ss, scope, self_ty, tys, vs, 0, j).is_prefix_of(
            variants_state(ss, scope, self_ty, tys, vs, 0, k),
        ),
        interner_wf(variants_state(ss, scope, self_ty, tys, vs, 0, k)),
    decreases k - j,
{
    lemma_variants_state_extends(ss, scope, self_ty, tys, vs, 0, j);
    let sj = variants_state(ss, scope, self_ty, tys, vs, 0, j);
    assert(sj.is_prefix_of(sj)) by {
        assert(sj =~= sj.subrange(0, sj.len() as int));
    }
    if k > j {
        lemma_state_prefix_chain(ss, scope, self_ty, tys, vs, j, k - 1);
        let prev = variants_state(ss, scope, self_ty, tys, vs, 0, k - 1);
        lemma_variants_state_extends(ss, scope, self_ty, tys, vs, 0, k - 1);
        lemma_resolve_extends(ss, scope, self_ty, true, prev, vs[k - 1].payload);
        lemma_prefix_trans(sj, prev, variants_state(ss, scope, self_ty, tys, vs, 0, k));
    }
}


/// One fold step shifts the starting state: the state reached from `tys`
/// equals the state reached from the first step's result, one step later.
proof fn lemma_state_shift(
    ss: Seq<ScopeView>,
    scope: int,
    self_ty: Option<CanonicalTypeId>,
    tys: Seq<DescView>,
    vs: Seq<crate::ast::Variant>,
    i: int,
    k: int,
)
    requires
        0 <= i < k <= vs.len(),
    ensures
        variants_state(ss, scope, self_ty, tys, vs, i, k) == variants_state(
            ss,
            scope,
            self_ty,
            resolve_spec(ss, scope, self_ty, true, tys, vs[i].payload).tys,
            vs,
            i + 1,
            k,
        ),
    decreases k - i,
{
    if k > i + 1 {
        lemma_state_shift(ss, scope, self_ty, tys, vs, i, k - 1);
    } else {
        assert(variants_state(ss, scope, self_ty, tys, vs, i, i) == tys);
        let step = resolve_spec(ss, scope, self_ty, true, tys, vs[i].payload).tys;
        assert(variants_state(ss, scope, self_ty, step, vs, i + 1, i + 1) == step);
    }
}

/// The interner the variant fold ends with is the state after its last step:
/// the states of [`variants_state`] are the states the checker walks through.
pub proof fn lemma_fold_interner_state(
    ss: Seq<ScopeView>,
    scope: int,
    self_ty: Option<CanonicalTypeId>,
    tys: Seq<DescView>,
    vs: Seq<crate::ast::Variant>,
    i: int,
    diags: Seq<crate::diagnostics::DiagView>,
    out: Seq<crate::checker::CheckedVariantView>,
)
    requires
        0 <= i <= vs.len(),
    ensures
        check_variants_spec(ss, scope, self_ty, tys, vs, i, diags, out).tys == variants_state(
            ss,
            scope,
            self_ty,
            tys,
            vs,
            i,
            vs.len() as int,
        ),
    decreases vs.len() - i,
{
    if i < vs.len() {
        let r = resolve_spec(ss, scope, self_ty, true, tys, vs[i].payload);
        lemma_state_shift(ss, scope, self_ty, tys, vs, i, vs.len() as int);
        match r.res {
            Ok(id) => {
                let cv = crate::checker::CheckedVariantView {
                    name: vs[i].name@,
                    payload: id,
                    tag: vs[i].tag,
                    span: vs[i].span,
                    attributes: crate::ast::names_view(vs[i].attributes@),
                };
                lemma_fold_interner_state(
                    ss,
                    scope,
                    self_ty,
                    r.tys,
                    vs,
                    i + 1,
                    diags,
                    out.push(cv),
                );
            },
            Err(d) => {
                lemma_fold_interner_state(ss, scope, self_ty, r.tys, vs, i + 1, diags.push(d), out);
            },
        }
    }
}


/// Where every remaining step resolves, the variant fold records nothing and
/// appends every variant, names verbatim.
proof fn lemma_all_steps_ok(
    ss: Seq<ScopeView>,
    scope: int,
    self_ty: Option<CanonicalTypeId>,
    tys: Seq<DescView>,
    vs: Seq<crate::ast::Variant>,
    i: int,
    diags: Seq<crate::diagnostics::DiagView>,
    out: Seq<crate::checker::CheckedVariantView>,
)
    requires
        0 <= i <= vs.len(),
        forall|k: int|
            i <= k < vs.len() ==> resolve_spec(
                ss,
                scope,
                self_ty,
                true,
                #[trigger] variants_state(ss, scope, self_ty, tys, vs, i, k),
                vs[k].payload,
            ).res is Ok,
    ensures
        ({
            let o = check_variants_spec(ss, scope, self_ty, tys, vs, i, diags, out);
            &&& o.diags == diags
            &&& o.vars.len() == out.len() + (vs.len() - i)
            &&& (forall|q: int| 0 <= q < out.len() ==> o.vars[q] == out[q])
            &&& (forall|k: int|
                i <= k < vs.len() ==> o.vars[out.len() + (k - i)].name == vs[k].name@)
        }),
    decreases vs.len() - i,
{
    if i < vs.len() {
        assert(variants_state(ss, scope, self_ty, tys, vs, i, i) == tys);
        let r = resolve_spec(ss, scope, self_ty, true, tys, vs[i].payload);
        let o = check_variants_spec(ss, scope, self_ty, tys, vs, i, diags, out);
        match r.res {
            Ok(id) => {
                let cv = crate::checker::CheckedVariantView {
                    name: vs[i].name@,
                    payload: id,
                    tag: vs[i].tag,
                    span: vs[i].span,
                    attributes: crate::ast::names_view(vs[i].attributes@),
                };
                assert forall|k: int|
                    i + 1 <= k < vs.len() implies resolve_spec(
                    ss,
                    scope,
                    self_ty,
                    true,
                    #[trigger] variants_state(ss, scope, self_ty, r.tys, vs, i + 1, k),
                    vs[k].payload,
                ).res is Ok by {
                    lemma_state_shift(ss, scope, self_ty, tys, vs, i, k);
                }
                lemma_all_steps_ok(ss, scope, self_ty, r.tys, vs, i + 1, diags, out.push(cv));
                assert(o == check_variants_spec(
                    ss,
                    scope,
                    self_ty,
                    r.tys,
                    vs,
                    i + 1,
                    diags,
                    out.push(cv),
                ));
                assert forall|q: int| 0 <= q < out.len() implies o.vars[q] == out[q] by {
                    assert(o.vars[q] == out.push(cv)[q]);
                }
                assert forall|k: int|
                    i <= k < vs.len() implies o.vars[out.len() + (k - i)].name == vs[k].name@ by {
                    if k == i {
                        assert(o.vars[out.len() + (k - i)] == out.push(cv)[out.len() as int]);
                    } else {
                        assert(o.vars[(out.push(cv).len() as int) + (k - (i + 1))].name == vs[
                            k
                        ].name@);
                        assert(out.len() + (k - i) == (out.push(cv).len() as int) + (k - (i + 1)));
                    }
                }
            },
            Err(_) => {
                assert(false);
            },
        }
    }
}

/// Where exactly the step at `f` fails, the fold drops exactly that variant:
/// one diagnostic, one variant fewer, and — the names at and after `i` being
/// distinct from the failing one's — its name absent from what is appended.
proof fn lemma_one_step_fails(
    ss: Seq<ScopeView>,
    scope: int,
    self_ty: Option<CanonicalTypeId>,
    tys: Seq<DescView>,
    vs: Seq<crate::ast::Variant>,
    i: int,
    diags: Seq<crate::diagnostics::DiagView>,
    out: Seq<crate::checker::CheckedVariantView>,
    f: int,
)
    requires
        0 <= i <= f < vs.len(),
        forall|k: int|
            i <= k < vs.len() && k != f ==> resolve_spec(
                ss,
                scope,
                self_ty,
                true,
                #[trigger] variants_state(ss, scope, self_ty, tys, vs, i, k),
                vs[k].payload,
            ).res is Ok,
        resolve_spec(
            ss,
            scope,
            self_ty,
            true,
            variants_state(ss, scope, self_ty, tys, vs, i, f),
            vs[f].payload,
        ).res is Err,
        forall|k: int| i <= k < vs.len() && k != f ==> vs[k].name@ != vs[f].name@,
        forall|q: int| 0 <= q < out.len() ==> out[q].name != vs[f].name@,
    ensures
        ({
            let o = check_variants_spec(ss, scope, self_ty, tys, vs, i, diags, out);
            &&& o.diags.len() == diags.len() + 1
            &&& o.vars.len() == out.len() + (vs.len() - i) - 1
            &&& (forall|q: int|
                0 <= q < o.vars.len() ==> #[trigger] o.vars[q].name != vs[f].name@)
        }),
    decreases vs.len() - i,
{
    assert(variants_state(ss, scope, self_ty, tys, vs, i, i) == tys);
    let r = resolve_spec(ss, scope, self_ty, true, tys, vs[i].payload);
    let o = check_variants_spec(ss, scope, self_ty, tys, vs, i, diags, out);
    if i == f {
        match r.res {
            Err(d) => {
                assert forall|k: int|
                    i + 1 <= k < vs.len() implies resolve_spec(
                    ss,
                    scope,
                    self_ty,
                    true,
                    #[trigger] variants_state(ss, scope, self_ty, r.tys, vs, i + 1, k),
                    vs[k].payload,
                ).res is Ok by {
                    lemma_state_shift(ss, scope, self_ty, tys, vs, i, k);
                }
                lemma_all_steps_ok(ss, scope, self_ty, r.tys, vs, i + 1, diags.push(d), out);
                assert(o == check_variants_spec(
                    ss,
                    scope,
                    self_ty,
                    r.tys,
                    vs,
                    i + 1,
                    diags.push(d),
                    out,
                ));
                assert forall|q: int|
                    0 <= q < o.vars.len() implies #[trigger] o.vars[q].name != vs[f].name@ by {
                    if q < out.len() {
                        assert(o.vars[q] == out[q]);
                    } else {
                        let k = i + 1 + (q - out.len());
                        assert(o.vars[out.len() + (k - (i + 1))].name == vs[k].name@);
                        assert(out.len() + (k - (i + 1)) == q);
                        assert(vs[k].name@ != vs[f].name@);
                    }
                }
            },
            Ok(_) => {
                assert(false);
            },
        }
    } else {
        match r.res {
            Ok(id) => {
                let cv = crate::checker::CheckedVariantView {
                    name: vs[i].name@,
                    payload: id,
                    tag: vs[i].tag,
                    span: vs[i].span,
                    attributes: crate::ast::names_view(vs[i].attributes@),
                };
                assert forall|k: int|
                    i + 1 <= k < vs.len() && k != f implies resolve_spec(
                    ss,
                    scope,
                    self_ty,
                    true,
                    #[trigger] variants_state(ss, scope, self_ty, r.tys, vs, i + 1, k),
                    vs[k].payload,
                ).res is Ok by {
                    lemma_state_shift(ss, scope, self_ty, tys, vs, i, k);
                }
                lemma_state_shift(ss, scope, self_ty, tys, vs, i, f);
                assert(cv.name != vs[f].name@);
                lemma_one_step_fails(ss, scope, self_ty, r.tys, vs, i + 1, diags, out.push(cv), f);
                assert(o == check_variants_spec(
                    ss,
                    scope,
                    self_ty,
                    r.tys,
                    vs,
                    i + 1,
                    diags,
                    out.push(cv),
                ));
            },
            Err(_) => {
                assert(false);
            },
        }
    }
}

/// A declaration without type parameters whose variants bear pairwise
/// distinct names, exactly one of which fails to resolve at its step of the
/// check: the output holds one variant fewer, exactly one diagnostic is
/// recorded, and the failed variant's name is absent from the output.
pub proof fn lemma_single_failure_drops_only_that_variant(
    ss: Seq<ScopeView>,
    scope: usize,
    traits: Seq<Seq<char>>,
    tys: Seq<DescView>,
    decl: Declaration,
    f: int,
)
    requires
        decl.type_parameters@.len() == 0,
        0 <= f < decl.variants@.len(),
        forall|a: int, b: int|
            0 <= a < b < decl.variants@.len() ==> decl.variants@[a].name@ != decl.variants@[
                b
            ].name@,
        ({
            let path = PathView { prefixes: ss[scope as int].mod_path, name: decl.name@ };
            let (tys1, self_id) = intern_spec(tys, DescView::Declared { path });
            let self_cid = CanonicalTypeId { index: self_id as usize };
            let sv0 = scope_with(
                forked_view(ss[scope as int], scope),
                decl.name@,
                Entity::SelfType { id: self_cid, arity: 0 },
            );
            let ss1 = ss.push(sv0);
            &&& (forall|k: int|
                0 <= k < decl.variants@.len() && k != f ==> resolve_spec(
                    ss1,
                    ss.len() as int,
                    Some(self_cid),
                    true,
                    #[trigger] variants_state(
                        ss1,
                        ss.len() as int,
                        Some(self_cid),
                        tys1,
                        decl.variants@,
                        0,
                        k,
                    ),
                    decl.variants@[k].payload,
                ).res is Ok)
            &&& resolve_spec(
                ss1,
                ss.len() as int,
                Some(self_cid),
                true,
                variants_state(
                    ss1,
                    ss.len() as int,
                    Some(self_cid),
                    tys1,
                    decl.variants@,
                    0,
                    f,
                ),
                decl.variants@[f].payload,
            ).res is Err
        }),
    ensures
        ({
            let out = type_check_spec(ss, scope, traits, tys, decl);
            &&& out.decl.variants.len() + 1 == decl.variants@.len()
            &&& out.diags.len() == 1
            &&& (forall|q: int|
                0 <= q < out.decl.variants.len() ==> #[trigger] out.decl.variants[q].name
                    != decl.variants@[f].name@)
        }),
{
    let path = PathView { prefixes: ss[scope as int].mod_path, name: decl.name@ };
    let (tys1, self_id) = intern_spec(tys, DescView::Declared { path });
    let self_cid = CanonicalTypeId { index: self_id as usize };
    let sv0 = scope_with(
        forked_view(ss[scope as int], scope),
        decl.name@,
        Entity::SelfType { id: self_cid, arity: 0 },
    );
    let pout = check_params_spec(
        traits,
        tys1,
        sv0,
        decl.type_parameters@,
        0,
        Seq::empty(),
        Seq::empty(),
    );
    assert(pout.sv == sv0 && pout.tys == tys1 && pout.diags == Seq::<
        crate::diagnostics::DiagView,
    >::empty());
    let ss1 = ss.push(sv0);
    assert forall|k: int|
        0 <= k < decl.variants@.len() && k != f implies decl.variants@[k].name@ != decl.variants@[
        f
    ].name@ by {
        if k < f {
            assert(decl.variants@[k].name@ != decl.variants@[f].name@);
        }
    }
    lemma_one_step_fails(
        ss1,
        ss.len() as int,
        Some(self_cid),
        tys1,
        decl.variants@,
        0,
        Seq::empty(),
        Seq::empty(),
        f,
    );
    let out = type_check_spec(ss, scope, traits, tys, decl);
    assert(out.diags =~= check_variants_spec(
        ss1,
        ss.len() as int,
        Some(self_cid),
        tys1,
        decl.variants@,
        0,
        Seq::empty(),
        Seq::empty(),
    ).diags);
}

} // verus!
