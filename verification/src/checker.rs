//! The declaration checker: the sequential pipeline that turns a parsed
//! sum-type declaration into a fully-qualified checked declaration. It forks
//! a scope for the declaration, binds the self type and the type parameters,
//! resolves every variant's payload, qualifies the path, and assembles the
//! output. The check is total: every failure is recorded as a diagnostic and
//! folded into the output (a failed type parameter is retained with the
//! error-recovery sentinel substituted, a failed variant is dropped), never
//! propagated.

use vstd::prelude::*;
use crate::ast::{
    clone_strings, names_view, CallPath, Declaration, PathView, Span, TypeParameter, Variant,
    Visibility,
};
use crate::diagnostics::{emit_error, handler_errors, DiagView, Diagnostic};
use crate::interner::{
    intern_spec, interner_wf, lemma_prefix_trans, CanonicalTypeId, DescView, TypeDescriptor,
    TypeInterner,
};
use crate::scope::{
    arena_ids_bounded, arena_wf, bound_in, forked_view, lemma_bounded_bind,
    lemma_bounded_monotone, lemma_bounded_push_scope, scope_ids_bounded, scope_with,
    self_type_spec, Entity, ScopeArena, ScopeView,
};
use crate::resolver::{resolve, resolve_spec};
use sway_error::handler::{ErrorEmitted, Handler};

verus! {

/// A checked type parameter: its placeholder identifier, or the
/// error-recovery sentinel where binding or constraint validation failed.
pub struct CheckedTypeParameter {
    pub name: String,
    pub constraints: Vec<String>,
    pub id: CanonicalTypeId,
    pub span: Span,
}

/// The mathematical value of a [`CheckedTypeParameter`].
pub struct CheckedTypeParameterView {
    pub name: Seq<char>,
    pub constraints: Seq<Seq<char>>,
    pub id: int,
    pub span: Span,
}

impl View for CheckedTypeParameter {
    type V = CheckedTypeParameterView;

    open spec fn view(&self) -> CheckedTypeParameterView {
        CheckedTypeParameterView {
            name: self.name@,
            constraints: names_view(self.constraints@),
            id: self.id.index as int,
            span: self.span,
        }
    }
}

/// A checked variant: its payload resolved to a canonical identifier, its
/// tag copied verbatim from the input.
pub struct CheckedVariant {
    pub name: String,
    pub payload: CanonicalTypeId,
    pub tag: u64,
    pub span: Span,
    pub attributes: Vec<String>,
}

/// The mathematical value of a [`CheckedVariant`].
pub struct CheckedVariantView {
    pub name: Seq<char>,
    pub payload: int,
    pub tag: u64,
    pub span: Span,
    pub attributes: Seq<Seq<char>>,
}

impl View for CheckedVariant {
    type V = CheckedVariantView;

    open spec fn view(&self) -> CheckedVariantView {
        CheckedVariantView {
            name: self.name@,
            payload: self.payload.index as int,
            tag: self.tag,
            span: self.span,
            attributes: names_view(self.attributes@),
        }
    }
}

/// The checked declaration: what later compilation phases consume. Its path
/// is absolute, its variants keep input order, and the input declaration is
/// discarded after checking.
pub struct CheckedDeclaration {
    pub call_path: CallPath,
    pub type_parameters: Vec<CheckedTypeParameter>,
    pub variants: Vec<CheckedVariant>,
    pub span: Span,
    pub attributes: Vec<String>,
    pub visibility: Visibility,
}

/// The mathematical value of a [`CheckedDeclaration`].
pub struct DeclView {
    pub path: PathView,
    pub type_parameters: Seq<CheckedTypeParameterView>,
    pub variants: Seq<CheckedVariantView>,
    pub span: Span,
    pub attributes: Seq<Seq<char>>,
    pub visibility: Visibility,
}

/// Checked type parameters as their mathematical values.
pub open spec fn tparams_view(ps: Seq<CheckedTypeParameter>) -> Seq<CheckedTypeParameterView> {
    ps.map_values(|p: CheckedTypeParameter| p@)
}

/// Checked variants as their mathematical values.
pub open spec fn cvariants_view(vs: Seq<CheckedVariant>) -> Seq<CheckedVariantView> {
    vs.map_values(|v: CheckedVariant| v@)
}

impl View for CheckedDeclaration {
    type V = DeclView;

    open spec fn view(&self) -> DeclView {
        DeclView {
            path: self.call_path@,
            type_parameters: tparams_view(self.type_parameters@),
            variants: cvariants_view(self.variants@),
            span: self.span,
            attributes: names_view(self.attributes@),
            visibility: self.visibility,
        }
    }
}

/// The context one declaration is checked in: the scope tree, the scope the
/// declaration stands in, and the names of the traits that are declared (what
/// a type parameter's constraints may refer to).
pub struct TypeCheckContext {
    pub scopes: ScopeArena,
    pub scope: usize,
    pub known_traits: Vec<String>,
}

/// The context's scope tree is acyclic and its current scope exists.
pub open spec fn ctx_wf(c: TypeCheckContext) -> bool {
    arena_wf(c.scopes@) && c.scope < c.scopes@.len()
}

impl TypeCheckContext {
    /// A context rooted at the module with the given absolute path, knowing
    /// the given trait names.
    pub fn new(mod_path: Vec<String>, known_traits: Vec<String>) -> (r: TypeCheckContext)
        ensures
            ctx_wf(r),
            r.scope == 0,
            r.scopes@.len() == 1,
            r.scopes@[0].parent is None,
            r.scopes@[0].mod_path == names_view(mod_path@),
            r.scopes@[0].bindings == Seq::<(Seq<char>, Entity)>::empty(),
            r.known_traits == known_traits,
            arena_ids_bounded(r.scopes@, 0),
    {
        let r = TypeCheckContext { scopes: ScopeArena::new(mod_path), scope: 0, known_traits };
        proof {
            assert(scope_ids_bounded(r.scopes@[0], 0));
        }
        r
    }

    /// The self type visible from the current scope, if a declaration is
    /// under construction.
    pub fn self_type(&self) -> (r: Option<CanonicalTypeId>)
        requires
            ctx_wf(*self),
        ensures
            r == (match self_type_spec(self.scopes@, self.scope as int) {
                Some(Entity::SelfType { id, .. }) => Some(id),
                _ => None::<CanonicalTypeId>,
            }),
    {
        match self.scopes.self_type(self.scope) {
            Some(Entity::SelfType { id, .. }) => Some(id),
            _ => None,
        }
    }
}

/// The index of the first constraint in `cs[i..]` that names no known trait.
pub open spec fn first_unknown(traits: Seq<Seq<char>>, cs: Seq<Seq<char>>, i: int) -> Option<int>
    decreases cs.len() - i,
{
    if i < 0 || i >= cs.len() {
        None
    } else if !traits.contains(cs[i]) {
        Some(i)
    } else {
        first_unknown(traits, cs, i + 1)
    }
}

/// The outcome of binding the type parameters: the interner and the
/// declaration scope afterwards, the diagnostics recorded, and the checked
/// parameters, one for each input parameter.
pub struct ParamsOut {
    pub tys: Seq<DescView>,
    pub sv: ScopeView,
    pub diags: Seq<DiagView>,
    pub params: Seq<CheckedTypeParameterView>,
}

/// What checking the type parameters `ps[i..]` does, in input order. A
/// parameter whose constraints validate is interned as a placeholder; one
/// with an unknown constraint is recorded and retained with the
/// error-recovery sentinel. Binding the name fails only against an earlier
/// binding of the same name; the duplicate is recorded, the scope is left
/// unchanged, and the parameter too is retained with the sentinel
/// substituted. Every parameter is attempted; none blocks the ones after it.
pub open spec fn check_params_spec(
    traits: Seq<Seq<char>>,
    tys: Seq<DescView>,
    sv: ScopeView,
    ps: Seq<TypeParameter>,
    i: int,
    diags: Seq<DiagView>,
    out: Seq<CheckedTypeParameterView>,
) -> ParamsOut
    decreases ps.len() - i,
{
    if i < 0 || i >= ps.len() {
        ParamsOut { tys, sv, diags, params: out }
    } else {
        let p = ps[i];
        let cs = names_view(p.constraints@);
        let (tys1, id1, diags1) = match first_unknown(traits, cs, 0) {
            None => {
                let (t, id) = intern_spec(tys, DescView::Placeholder { name: p.name@ });
                (t, id, diags)
            },
            Some(ci) => {
                let d = DiagView::ConstraintViolation { param: p.name@, constraint: cs[ci] };
                let (t, id) = intern_spec(tys, DescView::ErrorRecovery);
                (t, id, diags.push(d))
            },
        };
        let entity = Entity::TypeParameter { id: CanonicalTypeId { index: id1 as usize } };
        let (tys2, id2, sv1, diags2) = if bound_in(sv, p.name@) {
            let d = DiagView::DuplicateDeclaration { name: p.name@ };
            let (t, sid) = intern_spec(tys1, DescView::ErrorRecovery);
            (t, sid, sv, diags1.push(d))
        } else {
            (tys1, id1, scope_with(sv, p.name@, entity), diags1)
        };
        let cp = CheckedTypeParameterView { name: p.name@, constraints: cs, id: id2, span: p.span };
        check_params_spec(traits, tys2, sv1, ps, i + 1, diags2, out.push(cp))
    }
}

/// The outcome of checking the variants: the interner afterwards, the
/// diagnostics recorded, and the checked variants that resolved.
pub struct VariantsOut {
    pub tys: Seq<DescView>,
    pub diags: Seq<DiagView>,
    pub vars: Seq<CheckedVariantView>,
}

/// What checking the variants `vs[i..]` does, in input order, with explicit
/// arguments enforced. A variant that resolves is appended with its tag
/// copied verbatim; one that fails is recorded by the resolver and dropped
/// entirely — no placeholder. Every variant is attempted.
pub open spec fn check_variants_spec(
    ss: Seq<ScopeView>,
    scope: int,
    self_ty: Option<CanonicalTypeId>,
    tys: Seq<DescView>,
    vs: Seq<Variant>,
    i: int,
    diags: Seq<DiagView>,
    out: Seq<CheckedVariantView>,
) -> VariantsOut
    decreases vs.len() - i,
{
    if i < 0 || i >= vs.len() {
        VariantsOut { tys, diags, vars: out }
    } else {
        let v = vs[i];
        let r = resolve_spec(ss, scope, self_ty, true, tys, v.payload);
        match r.res {
            Ok(id) => {
                let cv = CheckedVariantView {
                    name: v.name@,
                    payload: id,
                    tag: v.tag,
                    span: v.span,
                    attributes: names_view(v.attributes@),
                };
                check_variants_spec(ss, scope, self_ty, r.tys, vs, i + 1, diags, out.push(cv))
            },
            Err(d) => check_variants_spec(ss, scope, self_ty, r.tys, vs, i + 1, diags.push(d), out),
        }
    }
}

/// The outcome of checking one declaration: the interner afterwards, the
/// diagnostics recorded, in order, and the checked declaration.
pub struct DeclCheckOut {
    pub tys: Seq<DescView>,
    pub diags: Seq<DiagView>,
    pub decl: DeclView,
}

/// What checking `decl` from `scope` does: fork a scope, intern and bind the
/// self type, bind the type parameters, check the variants with explicit
/// arguments enforced, qualify the path, assemble the output. The path is
/// absolute: the scope's module path with the declaration's own name
/// appended.
pub open spec fn type_check_spec(
    ss: Seq<ScopeView>,
    scope: usize,
    traits: Seq<Seq<char>>,
    tys: Seq<DescView>,
    decl: Declaration,
) -> DeclCheckOut {
    let path = PathView { prefixes: ss[scope as int].mod_path, name: decl.name@ };
    let (tys1, self_id) = intern_spec(tys, DescView::Declared { path });
    let self_cid = CanonicalTypeId { index: self_id as usize };
    let arity = decl.type_parameters@.len() as usize;
    let sv0 = scope_with(
        forked_view(ss[scope as int], scope),
        decl.name@,
        Entity::SelfType { id: self_cid, arity },
    );
    let pout = check_params_spec(
        traits,
        tys1,
        sv0,
        decl.type_parameters@,
        0,
        Seq::empty(),
        Seq::empty(),
    );
    let vout = check_variants_spec(
        ss.push(pout.sv),
        ss.len() as int,
        Some(self_cid),
        pout.tys,
        decl.variants@,
        0,
        Seq::empty(),
        Seq::empty(),
    );
    DeclCheckOut {
        tys: vout.tys,
        diags: pout.diags + vout.diags,
        decl: DeclView {
            path,
            type_parameters: pout.params,
            variants: vout.vars,
            span: decl.span,
            attributes: names_view(decl.attributes@),
            visibility: decl.visibility,
        },
    }
}

impl CheckedVariant {
    /// Check one variant: resolve its payload from the declaration's scope,
    /// substituting `self_ty` for the self type, with explicit arguments
    /// enforced. On failure the resolver has recorded the diagnostic and the
    /// variant is dropped: the caller receives only the token. A payload that
    /// resolves carries an identifier the shared interner produced.
    pub fn type_check(
        handler: &mut Handler,
        ctx: &TypeCheckContext,
        interner: &mut TypeInterner,
        variant: &Variant,
        self_ty: Option<CanonicalTypeId>,
    ) -> (r: Result<CheckedVariant, ErrorEmitted>)
        requires
            ctx_wf(*ctx),
            interner_wf(old(interner)@),
            arena_ids_bounded(ctx.scopes@, old(interner)@.len() as int),
            self_ty matches Some(sid) ==> sid.index < old(interner)@.len(),
        ensures
            interner_wf(final(interner)@),
            old(interner)@.is_prefix_of(final(interner)@),
            ({
                let out = resolve_spec(
                    ctx.scopes@,
                    ctx.scope as int,
                    self_ty,
                    true,
                    old(interner)@,
                    variant.payload,
                );
                final(interner)@ == out.tys && match (r, out.res) {
                    (Ok(cv), Ok(id)) => cv@ == (CheckedVariantView {
                        name: variant.name@,
                        payload: id,
                        tag: variant.tag,
                        span: variant.span,
                        attributes: names_view(variant.attributes@),
                    }) && cv.payload.index < final(interner)@.len() && handler_errors(
                        *final(handler),
                    ) == handler_errors(*old(handler)),
                    (Err(_), Err(d)) => handler_errors(*final(handler)) == handler_errors(
                        *old(handler),
                    ).push(d),
                    _ => false,
                }
            }),
    {
        match resolve(
            handler,
            &ctx.scopes,
            ctx.scope,
            interner,
            &variant.payload,
            self_ty,
            variant.span,
            true,
        ) {
            Ok(id) => Ok(
                CheckedVariant {
                    name: variant.name.clone(),
                    payload: id,
                    tag: variant.tag,
                    span: variant.span,
                    attributes: clone_strings(&variant.attributes),
                },
            ),
            Err(t) => Err(t),
        }
    }
}

/// The index of the first constraint in `cs` that names no trait in `traits`.
fn first_unknown_constraint(traits: &Vec<String>, cs: &Vec<String>) -> (r: Option<usize>)
    ensures
        ({
            let s = first_unknown(names_view(traits@), names_view(cs@), 0);
            match (r, s) {
                (Some(a), Some(b)) => a as int == b && a < cs@.len(),
                (None, None) => true,
                _ => false,
            }
        }),
{
    let ghost tv = names_view(traits@);
    let ghost cv = names_view(cs@);
    let mut i: usize = 0;
    while i < cs.len()
        invariant
            i <= cs.len(),
            tv == names_view(traits@),
            cv == names_view(cs@),
            first_unknown(tv, cv, 0) == first_unknown(tv, cv, i as int),
        decreases cs.len() - i,
    {
        if !contains_name(traits, &cs[i]) {
            return Some(i);
        }
        i += 1;
    }
    None
}

/// Whether `n` spells one of the names in `names`.
fn contains_name(names: &Vec<String>, n: &String) -> (r: bool)
    ensures
        r == names_view(names@).contains(n@),
{
    let ghost nv = names_view(names@);
    let mut i: usize = 0;
    while i < names.len()
        invariant
            i <= names.len(),
            nv == names_view(names@),
            forall|j: int| 0 <= j < i ==> nv[j] != n@,
        decreases names.len() - i,
    {
        if names[i] == *n {
            proof {
                assert(nv[i as int] == n@);
            }
            return true;
        }
        i += 1;
    }
    proof {
        assert(!nv.contains(n@));
    }
    false
}

impl CheckedDeclaration {
    /// Check one declaration, per the pipeline of [`type_check_spec`]. The
    /// operation is total: it returns the checked declaration for every
    /// input, the diagnostics of whatever failed inside it having been
    /// recorded through `handler`. Every identifier the output carries was
    /// produced by the shared interner: each indexes the interner as the
    /// check leaves it. The context is handed back as it was: the
    /// declaration's scope never persists past the check.
    #[verifier::loop_isolation(false)]
    pub fn type_check(
        handler: &mut Handler,
        ctx: &mut TypeCheckContext,
        interner: &mut TypeInterner,
        decl: Declaration,
    ) -> (r: Result<CheckedDeclaration, ErrorEmitted>)
        requires
            ctx_wf(*old(ctx)),
            interner_wf(old(interner)@),
            arena_ids_bounded(old(ctx).scopes@, old(interner)@.len() as int),
        ensures
            ctx_wf(*final(ctx)),
            final(ctx).scopes@ == old(ctx).scopes@,
            final(ctx).scope == old(ctx).scope,
            final(ctx).known_traits == old(ctx).known_traits,
            interner_wf(final(interner)@),
            old(interner)@.is_prefix_of(final(interner)@),
            r is Ok,
            ({
                let out = type_check_spec(
                    old(ctx).scopes@,
                    old(ctx).scope,
                    names_view(old(ctx).known_traits@),
                    old(interner)@,
                    decl,
                );
                &&& final(interner)@ == out.tys
                &&& handler_errors(*final(handler)) == handler_errors(*old(handler)) + out.diags
                &&& match r {
                    Ok(cd) => cd@ == out.decl,
                    Err(_) => false,
                }
                &&& forall|j: int|
                    0 <= j < out.decl.type_parameters.len() ==> 0 <= #[trigger] out.decl
                        .type_parameters[j].id < final(interner)@.len()
                &&& forall|j: int|
                    0 <= j < out.decl.variants.len() ==> 0 <= #[trigger] out.decl.variants[j].payload
                        < final(interner)@.len()
            }),
    {
        let ghost ss0 = ctx.scopes@;
        let ghost traits_v = names_view(ctx.known_traits@);
        let ghost tysin = interner@;
        let ghost h0 = handler_errors(*handler);
        let ghost gout = type_check_spec(ss0, ctx.scope, traits_v, tysin, decl);

        // Step 1: a scope of the declaration's own, forked from the caller's.
        let caller_scope = ctx.scope;
        let base = ctx.scopes.len();
        let fork = ctx.scopes.fork(caller_scope);
        ctx.scope = fork;
        proof {
            assert(scope_ids_bounded(forked_view(ss0[caller_scope as int], caller_scope), tysin.len() as int));
            lemma_bounded_push_scope(
                ss0,
                forked_view(ss0[caller_scope as int], caller_scope),
                tysin.len() as int,
            );
        }

        // Qualify the path: the module path is absolute, so appending the
        // local name keeps it absolute.
        let prefixes_for_self = clone_strings(ctx.scopes.mod_path(fork));
        let prefixes_out = clone_strings(ctx.scopes.mod_path(fork));
        let self_path = CallPath { prefixes: prefixes_for_self, name: decl.name.clone() };
        let ghost path_v = PathView { prefixes: ss0[caller_scope as int].mod_path, name: decl.name@ };
        proof {
            assert(self_path@ == path_v);
        }

        // The self type: interned, then bound, so variants can reference the
        // declaration under construction before it is assembled.
        let self_id = interner.intern(TypeDescriptor::Declared { path: self_path });
        let arity = decl.type_parameters.len();
        let ghost fv = forked_view(ss0[caller_scope as int], caller_scope);
        let ghost sv0 = scope_with(
            fv,
            decl.name@,
            Entity::SelfType { id: self_id, arity },
        );
        proof {
            lemma_bounded_monotone(ctx.scopes@, tysin.len() as int, interner@.len() as int);
        }
        let bound = ctx.scopes.bind(
            fork,
            decl.name.clone(),
            Entity::SelfType { id: self_id, arity },
        );
        proof {
            assert(!bound_in(fv, decl.name@));
            assert(bound);
            lemma_bounded_bind(
                ss0.push(fv),
                fork as int,
                decl.name@,
                Entity::SelfType { id: self_id, arity },
                interner@.len() as int,
            );
            assert(ctx.scopes@ =~= ss0.push(sv0));
        }
        let ghost tys1 = interner@;

        // Step 2: the type parameters, in input order, each attempted
        // independently of the others' failures.
        let mut checked_params: Vec<CheckedTypeParameter> = Vec::new();
        let ghost mut gdiags: Seq<DiagView> = Seq::empty();
        proof {
            assert(tparams_view(checked_params@) =~= Seq::<CheckedTypeParameterView>::empty());
            assert(tys1.is_prefix_of(tys1)) by {
                assert(tys1 =~= tys1.subrange(0, tys1.len() as int));
            }
        }
        let mut i: usize = 0;
        while i < decl.type_parameters.len()
            invariant
                i <= decl.type_parameters.len(),
                interner_wf(interner@),
                ctx.scope == fork,
                ctx.known_traits == old(ctx).known_traits,
                ctx.scopes@.len() == ss0.len() + 1,
                arena_wf(ctx.scopes@),
                ctx.scopes@ == ss0.push(ctx.scopes@[fork as int]),
                tys1.is_prefix_of(interner@),
                arena_ids_bounded(ctx.scopes@, interner@.len() as int),
                forall|q: int|
                    0 <= q < checked_params@.len() ==> (#[trigger] checked_params@[q]).id.index
                        < interner@.len(),
                handler_errors(*handler) == h0 + gdiags,
                check_params_spec(
                    traits_v,
                    tys1,
                    sv0,
                    decl.type_parameters@,
                    0,
                    Seq::empty(),
                    Seq::empty(),
                ) == check_params_spec(
                    traits_v,
                    interner@,
                    ctx.scopes@[fork as int],
                    decl.type_parameters@,
                    i as int,
                    gdiags,
                    tparams_view(checked_params@),
                ),
            decreases decl.type_parameters.len() - i,
        {
            let ghost sv_prev = ctx.scopes@[fork as int];
            let ghost arena_prev = ctx.scopes@;
            let ghost tys_prev = interner@;
            let ghost gd_prev = gdiags;
            let ghost out_prev = tparams_view(checked_params@);
            let p = &decl.type_parameters[i];
            let bad = first_unknown_constraint(&ctx.known_traits, &p.constraints);
            let id0 = match bad {
                None => interner.intern(TypeDescriptor::Placeholder { name: p.name.clone() }),
                Some(ci) => {
                    let d = Diagnostic::ConstraintViolation {
                        param: p.name.clone(),
                        constraint: p.constraints[ci].clone(),
                        span: p.span,
                    };
                    let ghost dv = d@;
                    let tok = emit_error(handler, d);
                    proof {
                        gdiags = gdiags.push(dv);
                    }
                    interner.error_recovery_id(tok)
                },
            };
            proof {
                lemma_bounded_monotone(ctx.scopes@, tys_prev.len() as int, interner@.len() as int);
            }
            let ok = ctx.scopes.bind(fork, p.name.clone(), Entity::TypeParameter { id: id0 });
            proof {
                if ok {
                    lemma_bounded_bind(
                        arena_prev,
                        fork as int,
                        p.name@,
                        Entity::TypeParameter { id: id0 },
                        interner@.len() as int,
                    );
                }
            }
            let ghost tys_bind = interner@;
            let id = if ok {
                id0
            } else {
                let d2 = Diagnostic::DuplicateDeclaration { name: p.name.clone(), span: p.span };
                let ghost dv2 = d2@;
                let tok2 = emit_error(handler, d2);
                proof {
                    gdiags = gdiags.push(dv2);
                }
                interner.error_recovery_id(tok2)
            };
            proof {
                lemma_bounded_monotone(ctx.scopes@, tys_bind.len() as int, interner@.len() as int);
            }
            checked_params.push(
                CheckedTypeParameter {
                    name: p.name.clone(),
                    constraints: clone_strings(&p.constraints),
                    id,
                    span: p.span,
                },
            );
            proof {
                if tys_bind == interner@ {
                    assert(tys_bind.is_prefix_of(interner@)) by {
                        assert(tys_bind =~= interner@.subrange(0, tys_bind.len() as int));
                    }
                }
                lemma_prefix_trans(tys_prev, tys_bind, interner@);
                lemma_prefix_trans(tys1, tys_prev, interner@);
                assert forall|q: int|
                    0 <= q < checked_params@.len() implies (#[trigger] checked_params@[q]).id.index
                    < interner@.len() by {
                    if q < checked_params@.len() - 1 {
                        assert(checked_params@[q].id.index < tys_prev.len());
                    }
                }
                assert(id == CanonicalTypeId { index: id.index as int as usize });
                assert(tparams_view(checked_params@) =~= out_prev.push(
                    checked_params@[checked_params@.len() - 1]@,
                ));
                assert(ctx.scopes@ =~= ss0.push(ctx.scopes@[fork as int]));
                assert(check_params_spec(
                    traits_v,
                    tys_prev,
                    sv_prev,
                    decl.type_parameters@,
                    i as int,
                    gd_prev,
                    out_prev,
                ) == check_params_spec(
                    traits_v,
                    interner@,
                    ctx.scopes@[fork as int],
                    decl.type_parameters@,
                    i as int + 1,
                    gdiags,
                    tparams_view(checked_params@),
                ));
            }
            i += 1;
        }
        let ghost pout = check_params_spec(
            traits_v,
            tys1,
            sv0,
            decl.type_parameters@,
            0,
            Seq::empty(),
            Seq::empty(),
        );
        proof {
            assert(pout.tys == interner@);
            assert(pout.sv == ctx.scopes@[fork as int]);
            assert(pout.diags == gdiags);
            assert(pout.params == tparams_view(checked_params@));
        }

        // Step 3: the variants, in input order, each attempted whatever
        // became of the ones before it.
        let ghost ss1 = ctx.scopes@;
        let ghost h_mid = handler_errors(*handler);
        let ghost tys_mid = interner@;
        let mut variants_buf: Vec<CheckedVariant> = Vec::new();
        let ghost mut gvd: Seq<DiagView> = Seq::empty();
        proof {
            assert(cvariants_view(variants_buf@) =~= Seq::<CheckedVariantView>::empty());
            assert(tys_mid.is_prefix_of(tys_mid)) by {
                assert(tys_mid =~= tys_mid.subrange(0, tys_mid.len() as int));
            }
        }
        let mut k: usize = 0;
        while k < decl.variants.len()
            invariant
                k <= decl.variants.len(),
                interner_wf(interner@),
                ctx.scopes@ == ss1,
                ctx.scope == fork,
                ctx.known_traits == old(ctx).known_traits,
                ctx_wf(*ctx),
                tys_mid.is_prefix_of(interner@),
                arena_ids_bounded(ss1, interner@.len() as int),
                self_id.index < interner@.len(),
                forall|q: int|
                    0 <= q < variants_buf@.len() ==> (#[trigger] variants_buf@[q]).payload.index
                        < interner@.len(),
                handler_errors(*handler) == h_mid + gvd,
                check_variants_spec(
                    ss1,
                    fork as int,
                    Some(self_id),
                    tys_mid,
                    decl.variants@,
                    0,
                    Seq::empty(),
                    Seq::empty(),
                ) == check_variants_spec(
                    ss1,
                    fork as int,
                    Some(self_id),
                    interner@,
                    decl.variants@,
                    k as int,
                    gvd,
                    cvariants_view(variants_buf@),
                ),
            decreases decl.variants.len() - k,
        {
            let ghost tys_prev = interner@;
            let ghost gvd_prev = gvd;
            let ghost out_prev = cvariants_view(variants_buf@);
            let ghost rk = resolve_spec(
                ss1,
                fork as int,
                Some(self_id),
                true,
                tys_prev,
                decl.variants@[k as int].payload,
            );
            match CheckedVariant::type_check(handler, ctx, interner, &decl.variants[k], Some(
                self_id,
            )) {
                Ok(cv) => {
                    variants_buf.push(cv);
                    proof {
                        assert(cvariants_view(variants_buf@) =~= out_prev.push(
                            variants_buf@[variants_buf@.len() - 1]@,
                        ));
                    }
                },
                Err(_) => {
                    proof {
                        let dg = match rk.res {
                            Err(d) => d,
                            Ok(_) => vstd::pervasive::arbitrary(),
                        };
                        gvd = gvd.push(dg);
                    }
                },
            }
            proof {
                lemma_prefix_trans(tys_mid, tys_prev, interner@);
                lemma_bounded_monotone(ss1, tys_prev.len() as int, interner@.len() as int);
                assert forall|q: int|
                    0 <= q < variants_buf@.len() implies (#[trigger] variants_buf@[q]).payload.index
                    < interner@.len() by {
                    if q < out_prev.len() {
                        assert(variants_buf@[q].payload.index < tys_prev.len());
                    }
                }
                assert(check_variants_spec(
                    ss1,
                    fork as int,
                    Some(self_id),
                    tys_prev,
                    decl.variants@,
                    k as int,
                    gvd_prev,
                    out_prev,
                ) == check_variants_spec(
                    ss1,
                    fork as int,
                    Some(self_id),
                    interner@,
                    decl.variants@,
                    k as int + 1,
                    gvd,
                    cvariants_view(variants_buf@),
                ));
            }
            k += 1;
        }
        let ghost vout = check_variants_spec(
            ss1,
            fork as int,
            Some(self_id),
            tys_mid,
            decl.variants@,
            0,
            Seq::empty(),
            Seq::empty(),
        );
        proof {
            assert(vout.tys == interner@);
            assert(vout.diags == gvd);
            assert(vout.vars == cvariants_view(variants_buf@));
        }

        // Steps 4 and 5: assemble the declaration under its qualified path,
        // and hand the caller's context back as it was.
        let checked = CheckedDeclaration {
            call_path: CallPath { prefixes: prefixes_out, name: decl.name },
            type_parameters: checked_params,
            variants: variants_buf,
            span: decl.span,
            attributes: decl.attributes,
            visibility: decl.visibility,
        };
        ctx.scopes.release(base);
        ctx.scope = caller_scope;
        proof {
            assert(ctx.scopes@ =~= ss0);
            assert(handler_errors(*handler) =~= h0 + (gdiags + gvd));
            lemma_prefix_trans(tysin, tys1, tys_mid);
            lemma_prefix_trans(tysin, tys_mid, interner@);
            assert(checked@.path == gout.decl.path);
            assert(checked@ == gout.decl);
            assert forall|j: int|
                0 <= j < gout.decl.type_parameters.len() implies 0 <= #[trigger] gout.decl
                .type_parameters[j].id < interner@.len() by {
                assert(gout.decl.type_parameters[j] == checked_params@[j]@);
                assert(checked_params@[j].id.index < tys_mid.len());
            }
            assert forall|j: int|
                0 <= j < gout.decl.variants.len() implies 0 <= #[trigger] gout.decl.variants[j]
                .payload < interner@.len() by {
                assert(gout.decl.variants[j] == variants_buf@[j]@);
            }
        }
        Ok(checked)
    }
}

} // verus!
