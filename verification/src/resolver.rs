//! The type resolver: it takes a syntactic type reference to a canonical
//! identifier, reading the scope's bindings and the self-type of the
//! declaration under construction. On any failure it records one diagnostic
//! through the handler and hands the caller the `ErrorEmitted` token — it
//! never aborts the caller. Resolution performs no inference: where explicit
//! arguments are enforced, a generic type written without them fails.

use vstd::prelude::*;
use crate::ast::{Span, TypeReference};
use crate::diagnostics::{emit_error, handler_errors, DiagView, Diagnostic};
use crate::interner::{
    ids_view, intern_spec, interner_wf, lemma_prefix_trans, CanonicalTypeId, DescView,
    TypeDescriptor, TypeInterner,
};
use crate::scope::{
    arena_ids_bounded, arena_wf, lemma_bounded_monotone, lemma_lookup_bounded, lookup_spec, Entity,
    ScopeArena, ScopeView,
};
use sway_error::handler::{ErrorEmitted, Handler};

verus! {

/// The outcome of resolving one type reference: the interner contents
/// afterwards, and either the canonical identifier or the one diagnostic that
/// the resolver recorded.
pub struct ResolveOut {
    pub tys: Seq<DescView>,
    pub res: Result<int, DiagView>,
}

/// The outcome of resolving a list of explicit type arguments.
pub struct ArgsOut {
    pub tys: Seq<DescView>,
    pub res: Result<Seq<int>, DiagView>,
}

/// What resolving `tr` from `scope` returns and what it adds to the interner.
/// `self_ty` is substituted where `tr` is the `Self` form; a name bound to
/// the self type resolves to the enclosing declaration, applied to its
/// explicit arguments where it is generic.
pub open spec fn resolve_spec(
    ss: Seq<ScopeView>,
    scope: int,
    self_ty: Option<CanonicalTypeId>,
    enforce: bool,
    tys: Seq<DescView>,
    tr: TypeReference,
) -> ResolveOut
    decreases tr, 0int,
{
    match tr {
        TypeReference::Unit => {
            let (t, i) = intern_spec(tys, DescView::Unit);
            ResolveOut { tys: t, res: Ok(i) }
        },
        TypeReference::Primitive { kind } => {
            let (t, i) = intern_spec(tys, DescView::Primitive { kind });
            ResolveOut { tys: t, res: Ok(i) }
        },
        TypeReference::SelfType => match self_ty {
            Some(id) => ResolveOut { tys, res: Ok(id.index as int) },
            None => ResolveOut {
                tys,
                res: Err(DiagView::TypeResolutionFailure { name: "Self"@ }),
            },
        },
        TypeReference::Named { name, args } => match lookup_spec(ss, scope, name@) {
            Some(Entity::TypeParameter { id }) => {
                if args@.len() == 0 {
                    ResolveOut { tys, res: Ok(id.index as int) }
                } else {
                    ResolveOut { tys, res: Err(DiagView::TypeResolutionFailure { name: name@ }) }
                }
            },
            Some(Entity::SelfType { id, arity }) => {
                if args@.len() == arity as int && arity == 0 {
                    ResolveOut { tys, res: Ok(id.index as int) }
                } else if args@.len() == arity as int {
                    let ar = resolve_args_spec(ss, scope, self_ty, enforce, tys, args@, 0, Seq::empty());
                    match ar.res {
                        Ok(ids) => {
                            let (t, i) = intern_spec(
                                ar.tys,
                                DescView::Applied { base: id.index as int, args: ids },
                            );
                            ResolveOut { tys: t, res: Ok(i) }
                        },
                        Err(d) => ResolveOut { tys: ar.tys, res: Err(d) },
                    }
                } else if args@.len() == 0 && enforce {
                    ResolveOut { tys, res: Err(DiagView::MissingTypeArguments { name: name@ }) }
                } else if args@.len() == 0 {
                    ResolveOut { tys, res: Ok(id.index as int) }
                } else {
                    ResolveOut { tys, res: Err(DiagView::TypeResolutionFailure { name: name@ }) }
                }
            },
            None => ResolveOut { tys, res: Err(DiagView::TypeResolutionFailure { name: name@ }) },
        },
    }
}

/// What resolving the arguments `args[i..]` in order returns, `acc` holding
/// the identifiers of the arguments already resolved. The first failure wins;
/// the arguments before it stay interned.
pub open spec fn resolve_args_spec(
    ss: Seq<ScopeView>,
    scope: int,
    self_ty: Option<CanonicalTypeId>,
    enforce: bool,
    tys: Seq<DescView>,
    args: Seq<TypeReference>,
    i: int,
    acc: Seq<int>,
) -> ArgsOut
    decreases args, args.len() - i,
{
    if i < 0 || i >= args.len() {
        ArgsOut { tys, res: Ok(acc) }
    } else {
        let out = resolve_spec(ss, scope, self_ty, enforce, tys, args[i]);
        match out.res {
            Ok(id) => resolve_args_spec(ss, scope, self_ty, enforce, out.tys, args, i + 1, acc.push(id)),
            Err(d) => ArgsOut { tys: out.tys, res: Err(d) },
        }
    }
}

/// Resolve the type reference `tr` from `scope`, substituting `self_ty` for
/// the `Self` form; `span` is the source position the diagnostic of a failure
/// carries. On success nothing is recorded and the identifier indexes the
/// interner; on failure exactly one diagnostic is recorded and the returned
/// token proves it.
#[verifier::loop_isolation(false)]
pub fn resolve(
    handler: &mut Handler,
    arena: &ScopeArena,
    scope: usize,
    interner: &mut TypeInterner,
    tr: &TypeReference,
    self_ty: Option<CanonicalTypeId>,
    span: Span,
    enforce_explicit_args: bool,
) -> (r: Result<CanonicalTypeId, ErrorEmitted>)
    requires
        arena_wf(arena@),
        scope < arena@.len(),
        interner_wf(old(interner)@),
        arena_ids_bounded(arena@, old(interner)@.len() as int),
        self_ty matches Some(sid) ==> sid.index < old(interner)@.len(),
    ensures
        interner_wf(final(interner)@),
        old(interner)@.is_prefix_of(final(interner)@),
        ({
            let out = resolve_spec(
                arena@,
                scope as int,
                self_ty,
                enforce_explicit_args,
                old(interner)@,
                *tr,
            );
            final(interner)@ == out.tys && match (r, out.res) {
                (Ok(id), Ok(i)) => id.index as int == i && id.index < final(interner)@.len()
                    && handler_errors(*final(handler)) == handler_errors(*old(handler)),
                (Err(_), Err(d)) => handler_errors(*final(handler)) == handler_errors(
                    *old(handler),
                ).push(d),
                _ => false,
            }
        }),
    decreases *tr,
{
    proof {
        assert(old(interner)@.is_prefix_of(old(interner)@)) by {
            assert(old(interner)@ =~= old(interner)@.subrange(0, old(interner)@.len() as int));
        }
    }
    match tr {
        TypeReference::Unit => Ok(interner.intern(TypeDescriptor::Unit)),
        TypeReference::Primitive { kind } => Ok(
            interner.intern(TypeDescriptor::Primitive { kind: *kind }),
        ),
        TypeReference::SelfType => match self_ty {
            Some(id) => Ok(id),
            None => {
                let d = Diagnostic::TypeResolutionFailure { name: String::from_str("Self"), span };
                Err(emit_error(handler, d))
            },
        },
        TypeReference::Named { name, args } => {
            let looked = arena.lookup(scope, name);
            proof {
                lemma_lookup_bounded(arena@, scope as int, name@, old(interner)@.len() as int);
            }
            match looked {
                Some(Entity::TypeParameter { id }) => {
                    if args.len() == 0 {
                        Ok(id)
                    } else {
                        let d = Diagnostic::TypeResolutionFailure { name: name.clone(), span };
                        Err(emit_error(handler, d))
                    }
                },
                Some(Entity::SelfType { id, arity }) => {
                    if args.len() == arity && arity == 0 {
                        Ok(id)
                    } else if args.len() == arity {
                        let ghost tys0 = interner@;
                        let mut ids: Vec<CanonicalTypeId> = Vec::new();
                        let mut j: usize = 0;
                        proof {
                            assert(ids_view(ids@) =~= Seq::<int>::empty());
                        }
                        while j < args.len()
                            invariant
                                j <= args.len(),
                                ids@.len() == j,
                                interner_wf(interner@),
                                tys0.is_prefix_of(interner@),
                                arena_ids_bounded(arena@, interner@.len() as int),
                                handler_errors(*handler) == handler_errors(*old(handler)),
                                resolve_args_spec(
                                    arena@,
                                    scope as int,
                                    self_ty,
                                    enforce_explicit_args,
                                    tys0,
                                    args@,
                                    0,
                                    Seq::empty(),
                                ) == resolve_args_spec(
                                    arena@,
                                    scope as int,
                                    self_ty,
                                    enforce_explicit_args,
                                    interner@,
                                    args@,
                                    j as int,
                                    ids_view(ids@),
                                ),
                            decreases args.len() - j,
                        {
                            let ghost s_prev = interner@;
                            let ghost acc_prev = ids_view(ids@);
                            proof {
                                match self_ty {
                                    Some(sid) => {
                                        assert(sid.index < interner@.len());
                                    },
                                    None => {},
                                }
                            }
                            match resolve(
                                handler,
                                arena,
                                scope,
                                interner,
                                &args[j],
                                self_ty,
                                span,
                                enforce_explicit_args,
                            ) {
                                Ok(aid) => {
                                    ids.push(aid);
                                    proof {
                                        lemma_prefix_trans(tys0, s_prev, interner@);
                                        lemma_bounded_monotone(
                                            arena@,
                                            s_prev.len() as int,
                                            interner@.len() as int,
                                        );
                                        assert(ids_view(ids@) =~= acc_prev.push(aid.index as int));
                                        assert(resolve_args_spec(
                                            arena@,
                                            scope as int,
                                            self_ty,
                                            enforce_explicit_args,
                                            s_prev,
                                            args@,
                                            j as int,
                                            acc_prev,
                                        ) == resolve_args_spec(
                                            arena@,
                                            scope as int,
                                            self_ty,
                                            enforce_explicit_args,
                                            interner@,
                                            args@,
                                            j as int + 1,
                                            ids_view(ids@),
                                        ));
                                    }
                                },
                                Err(t) => {
                                    proof {
                                        lemma_prefix_trans(tys0, s_prev, interner@);
                                    }
                                    return Err(t);
                                },
                            }
                            j += 1;
                        }
                        let ghost s_end = interner@;
                        let r = interner.intern(TypeDescriptor::Applied { base: id, args: ids });
                        proof {
                            lemma_prefix_trans(tys0, s_end, interner@);
                        }
                        Ok(r)
                    } else if args.len() == 0 && enforce_explicit_args {
                        let d = Diagnostic::MissingTypeArguments { name: name.clone(), span };
                        Err(emit_error(handler, d))
                    } else if args.len() == 0 {
                        Ok(id)
                    } else {
                        let d = Diagnostic::TypeResolutionFailure { name: name.clone(), span };
                        Err(emit_error(handler, d))
                    }
                },
                None => {
                    let d = Diagnostic::TypeResolutionFailure { name: name.clone(), span };
                    Err(emit_error(handler, d))
                },
            }
        },
    }
}

} // verus!
