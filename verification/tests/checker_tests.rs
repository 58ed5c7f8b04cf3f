use enum_check::ast::{
    CallPath, Declaration, PrimitiveType, Span, TypeParameter, TypeReference, Variant, Visibility,
};
use enum_check::checker::{CheckedDeclaration, TypeCheckContext};
use enum_check::diagnostics::{emit_error, new_handler, Diagnostic};
use enum_check::interner::{TypeDescriptor, TypeInterner};
use sway_error::error::CompileError;

fn span(start: u64, end: u64) -> Span {
    Span { start, end }
}

fn variant(name: &str, payload: TypeReference, tag: u64) -> Variant {
    Variant {
        name: name.to_string(),
        payload,
        tag,
        span: span(0, 0),
        attributes: Vec::new(),
    }
}

fn param(name: &str) -> TypeParameter {
    TypeParameter { name: name.to_string(), constraints: Vec::new(), span: span(0, 0) }
}

fn named(name: &str) -> TypeReference {
    TypeReference::Named { name: name.to_string(), args: Vec::new() }
}

fn decl(
    name: &str,
    type_parameters: Vec<TypeParameter>,
    variants: Vec<Variant>,
) -> Declaration {
    Declaration {
        name: name.to_string(),
        type_parameters,
        variants,
        span: span(0, 10),
        attributes: Vec::new(),
        visibility: Visibility::Public,
    }
}

fn ctx_at(path: &[&str]) -> TypeCheckContext {
    let mod_path: Vec<String> = path.iter().map(|s| s.to_string()).collect();
    TypeCheckContext::new(mod_path, Vec::new())
}

fn check(
    ctx: &mut TypeCheckContext,
    interner: &mut TypeInterner,
    d: Declaration,
) -> (CheckedDeclaration, Vec<CompileError>) {
    let mut handler = new_handler();
    let checked = CheckedDeclaration::type_check(&mut handler, ctx, interner, d)
        .expect("checking is total");
    let (errors, _, _) = handler.consume();
    (checked, errors)
}

#[test]
fn scenario_option_keeps_both_variants() {
    let mut ctx = ctx_at(&["core", "option"]);
    let mut interner = TypeInterner::new();
    let d = decl(
        "Option",
        vec![param("T")],
        vec![variant("None", TypeReference::Unit, 0), variant("Some", named("T"), 1)],
    );
    let (checked, errors) = check(&mut ctx, &mut interner, d);
    assert_eq!(errors.len(), 0);
    assert_eq!(checked.variants.len(), 2);
    assert_eq!(checked.variants[0].name, "None");
    assert_eq!(checked.variants[1].name, "Some");
    assert_eq!(checked.variants[0].tag, 0);
    assert_eq!(checked.variants[1].tag, 1);
    // `Some`'s payload is the placeholder interned for parameter `T`.
    let t_placeholder = interner.intern(TypeDescriptor::Placeholder { name: "T".to_string() });
    assert_eq!(checked.variants[1].payload, t_placeholder);
    assert_eq!(checked.type_parameters.len(), 1);
    assert_eq!(checked.type_parameters[0].id, t_placeholder);
}

#[test]
fn scenario_bad_drops_unresolved_variant_and_records_one_failure() {
    let mut ctx = ctx_at(&["app"]);
    let mut interner = TypeInterner::new();
    let d = decl("Bad", Vec::new(), vec![variant("X", named("Unknown"), 0)]);
    let (checked, errors) = check(&mut ctx, &mut interner, d);
    assert_eq!(checked.variants.len(), 0);
    assert_eq!(errors.len(), 1);
    assert!(matches!(
        &errors[0],
        CompileError::UnknownTypeName { name, .. } if name == "Unknown"
    ));
    // A declaration whose every variant fails is still produced, variant-less.
    assert_eq!(checked.call_path.name, "Bad");
}

#[test]
fn scenario_same_primitive_in_two_modules_shares_one_id() {
    let mut interner = TypeInterner::new();
    let mut ctx_a = ctx_at(&["alpha"]);
    let mut ctx_b = ctx_at(&["beta"]);
    let da = decl(
        "Left",
        Vec::new(),
        vec![variant("V", TypeReference::Primitive { kind: PrimitiveType::U64 }, 0)],
    );
    let db = decl(
        "Right",
        Vec::new(),
        vec![variant("W", TypeReference::Primitive { kind: PrimitiveType::U64 }, 0)],
    );
    let (ca, ea) = check(&mut ctx_a, &mut interner, da);
    let (cb, eb) = check(&mut ctx_b, &mut interner, db);
    assert_eq!(ea.len(), 0);
    assert_eq!(eb.len(), 0);
    assert_eq!(ca.variants[0].payload, cb.variants[0].payload);
}

#[test]
fn resolving_the_same_reference_twice_yields_one_id() {
    let mut ctx = ctx_at(&["m"]);
    let mut interner = TypeInterner::new();
    let d = decl(
        "Pairish",
        vec![param("T")],
        vec![variant("A", named("T"), 0), variant("B", named("T"), 1)],
    );
    let (checked, errors) = check(&mut ctx, &mut interner, d);
    assert_eq!(errors.len(), 0);
    assert_eq!(checked.variants[0].payload, checked.variants[1].payload);
}

#[test]
fn self_reference_resolves_through_the_self_binding() {
    let mut ctx = ctx_at(&["m"]);
    let mut interner = TypeInterner::new();
    let d = decl(
        "Tree",
        Vec::new(),
        vec![variant("Leaf", TypeReference::Unit, 0), variant("Node", named("Tree"), 1)],
    );
    let (checked, errors) = check(&mut ctx, &mut interner, d);
    assert_eq!(errors.len(), 0);
    assert_eq!(checked.variants.len(), 2);
    let self_id = interner.intern(TypeDescriptor::Declared {
        path: CallPath { prefixes: vec!["m".to_string()], name: "Tree".to_string() },
    });
    assert_eq!(checked.variants[1].payload, self_id);
}

#[test]
fn generic_self_application_resolves_with_explicit_arguments() {
    let mut ctx = ctx_at(&["m"]);
    let mut interner = TypeInterner::new();
    let cons_payload = TypeReference::Named {
        name: "List".to_string(),
        args: vec![named("T")],
    };
    let d = decl(
        "List",
        vec![param("T")],
        vec![variant("Nil", TypeReference::Unit, 0), variant("Cons", cons_payload, 1)],
    );
    let (checked, errors) = check(&mut ctx, &mut interner, d);
    assert_eq!(errors.len(), 0);
    assert_eq!(checked.variants.len(), 2);
    let self_id = interner.intern(TypeDescriptor::Declared {
        path: CallPath { prefixes: vec!["m".to_string()], name: "List".to_string() },
    });
    let t_id = interner.intern(TypeDescriptor::Placeholder { name: "T".to_string() });
    let applied = interner.intern(TypeDescriptor::Applied { base: self_id, args: vec![t_id] });
    assert_eq!(checked.variants[1].payload, applied);
}

#[test]
fn output_path_is_absolute_at_any_nesting_depth() {
    let mut ctx = ctx_at(&["a", "b", "c", "d"]);
    let mut interner = TypeInterner::new();
    let d = decl("Deep", Vec::new(), vec![variant("V", TypeReference::Unit, 0)]);
    let (checked, errors) = check(&mut ctx, &mut interner, d);
    assert_eq!(errors.len(), 0);
    assert_eq!(checked.call_path.prefixes, vec!["a", "b", "c", "d"]);
    assert_eq!(checked.call_path.name, "Deep");
}

#[test]
fn duplicate_type_parameter_gets_the_sentinel_and_is_kept() {
    let mut ctx = ctx_at(&["m"]);
    let mut interner = TypeInterner::new();
    let d = decl(
        "Pair",
        vec![param("T"), param("T")],
        vec![variant("Both", named("T"), 0)],
    );
    let (checked, errors) = check(&mut ctx, &mut interner, d);
    assert_eq!(errors.len(), 1);
    assert!(matches!(&errors[0], CompileError::MultipleDefinitionsOfName { .. }));
    // Both parameters are retained; the duplicate one carries the sentinel.
    assert_eq!(checked.type_parameters.len(), 2);
    assert!(!interner.is_error_recovery(checked.type_parameters[0].id));
    assert!(interner.is_error_recovery(checked.type_parameters[1].id));
    // The scope keeps the first binding: the variant resolves to its placeholder.
    assert_eq!(checked.variants.len(), 1);
    let t_placeholder = interner.intern(TypeDescriptor::Placeholder { name: "T".to_string() });
    assert_eq!(checked.variants[0].payload, t_placeholder);
}

#[test]
fn unknown_constraint_keeps_parameter_with_sentinel() {
    let mod_path = vec!["m".to_string()];
    let mut ctx = TypeCheckContext::new(mod_path, vec!["Order".to_string()]);
    let mut interner = TypeInterner::new();
    let p = TypeParameter {
        name: "T".to_string(),
        constraints: vec!["Frobnicate".to_string()],
        span: span(1, 2),
    };
    let d = decl("Holder", vec![p], vec![variant("Val", named("T"), 0)]);
    let mut handler = new_handler();
    let checked = CheckedDeclaration::type_check(&mut handler, &mut ctx, &mut interner, d)
        .expect("checking is total");
    let (errors, _, _) = handler.consume();
    assert_eq!(errors.len(), 1);
    assert!(matches!(
        &errors[0],
        CompileError::TraitConstraintMissing { param, trait_name, .. }
            if param == "T" && trait_name == "Frobnicate"
    ));
    // The failed parameter is retained, with the sentinel substituted, and a
    // variant naming it resolves to that sentinel rather than failing again.
    assert_eq!(checked.type_parameters.len(), 1);
    assert!(interner.is_error_recovery(checked.type_parameters[0].id));
    assert_eq!(checked.variants.len(), 1);
    assert!(interner.is_error_recovery(checked.variants[0].payload));
}

#[test]
fn known_constraint_validates() {
    let mod_path = vec!["m".to_string()];
    let mut ctx = TypeCheckContext::new(mod_path, vec!["Order".to_string()]);
    let mut interner = TypeInterner::new();
    let p = TypeParameter {
        name: "T".to_string(),
        constraints: vec!["Order".to_string()],
        span: span(1, 2),
    };
    let d = decl("Sorted", vec![p], vec![variant("V", named("T"), 0)]);
    let mut handler = new_handler();
    let checked = CheckedDeclaration::type_check(&mut handler, &mut ctx, &mut interner, d)
        .expect("checking is total");
    let (errors, _, _) = handler.consume();
    assert_eq!(errors.len(), 0);
    assert!(!interner.is_error_recovery(checked.type_parameters[0].id));
}

#[test]
fn generic_self_without_arguments_is_missing_type_arguments() {
    let mut ctx = ctx_at(&["m"]);
    let mut interner = TypeInterner::new();
    let d = decl(
        "Wrapper",
        vec![param("T")],
        vec![variant("Rec", named("Wrapper"), 0), variant("Ok2", named("T"), 1)],
    );
    let (checked, errors) = check(&mut ctx, &mut interner, d);
    assert_eq!(errors.len(), 1);
    assert!(matches!(
        &errors[0],
        CompileError::NeedsTypeArguments { name, .. } if name.as_str() == "Wrapper"
    ));
    // The failing variant is dropped entirely; the later one is still checked.
    assert_eq!(checked.variants.len(), 1);
    assert_eq!(checked.variants[0].name, "Ok2");
    assert_eq!(checked.variants[0].tag, 1);
}

#[test]
fn parameter_with_arguments_fails_resolution() {
    let mut ctx = ctx_at(&["m"]);
    let mut interner = TypeInterner::new();
    let payload = TypeReference::Named {
        name: "T".to_string(),
        args: vec![TypeReference::Primitive { kind: PrimitiveType::Bool }],
    };
    let d = decl("Odd", vec![param("T")], vec![variant("V", payload, 0)]);
    let (checked, errors) = check(&mut ctx, &mut interner, d);
    assert_eq!(errors.len(), 1);
    assert!(matches!(
        &errors[0],
        CompileError::UnknownTypeName { name, .. } if name == "T"
    ));
    assert_eq!(checked.variants.len(), 0);
}

#[test]
fn tags_are_copied_verbatim_and_never_renumbered() {
    let mut ctx = ctx_at(&["m"]);
    let mut interner = TypeInterner::new();
    let d = decl(
        "Sparse",
        Vec::new(),
        vec![
            variant("A", TypeReference::Unit, 5),
            variant("B", TypeReference::Unit, 2),
            variant("C", TypeReference::Unit, 9),
        ],
    );
    let (checked, errors) = check(&mut ctx, &mut interner, d);
    assert_eq!(errors.len(), 0);
    let tags: Vec<u64> = checked.variants.iter().map(|v| v.tag).collect();
    assert_eq!(tags, vec![5, 2, 9]);
}

#[test]
fn empty_declaration_checks_to_an_empty_declaration() {
    let mut ctx = ctx_at(&["m"]);
    let mut interner = TypeInterner::new();
    let d = decl("Never", Vec::new(), Vec::new());
    let (checked, errors) = check(&mut ctx, &mut interner, d);
    assert_eq!(errors.len(), 0);
    assert_eq!(checked.variants.len(), 0);
    assert_eq!(checked.type_parameters.len(), 0);
    assert_eq!(checked.call_path.name, "Never");
}

#[test]
fn interner_deduplicates_structurally_equal_descriptors() {
    let mut interner = TypeInterner::new();
    let a = interner.intern(TypeDescriptor::Placeholder { name: "T".to_string() });
    let b = interner.intern(TypeDescriptor::Primitive { kind: PrimitiveType::Bool });
    let c = interner.intern(TypeDescriptor::Placeholder { name: "T".to_string() });
    let e = interner.intern(TypeDescriptor::Placeholder { name: "U".to_string() });
    assert_eq!(a, c);
    assert_ne!(a, b);
    assert_ne!(a, e);
    assert_eq!(interner.len(), 3);
}

#[test]
fn emitted_errors_reach_the_handler() {
    let mut handler = new_handler();
    let token = emit_error(
        &mut handler,
        Diagnostic::DuplicateDeclaration { name: "x".to_string(), span: span(3, 4) },
    );
    let mut interner = TypeInterner::new();
    let sentinel = interner.error_recovery_id(token);
    assert!(interner.is_error_recovery(sentinel));
    let (errors, _, _) = handler.consume();
    assert_eq!(errors.len(), 1);
    assert!(matches!(
        &errors[0],
        CompileError::MultipleDefinitionsOfName { name } if name.as_str() == "x"
    ));
}

#[test]
fn context_is_handed_back_unchanged() {
    let mut ctx = ctx_at(&["m"]);
    let mut interner = TypeInterner::new();
    let before = ctx.scopes.len();
    let d = decl("Thing", vec![param("T")], vec![variant("V", named("T"), 0)]);
    let (_, errors) = check(&mut ctx, &mut interner, d);
    assert_eq!(errors.len(), 0);
    assert_eq!(ctx.scopes.len(), before);
    assert_eq!(ctx.scope, 0);
}

#[test]
fn the_self_form_is_substituted_with_the_self_type() {
    let mut ctx = ctx_at(&["m"]);
    let mut interner = TypeInterner::new();
    let d = decl(
        "Knot",
        Vec::new(),
        vec![variant("Tie", TypeReference::SelfType, 0)],
    );
    let (checked, errors) = check(&mut ctx, &mut interner, d);
    assert_eq!(errors.len(), 0);
    let self_id = interner.intern(TypeDescriptor::Declared {
        path: CallPath { prefixes: vec!["m".to_string()], name: "Knot".to_string() },
    });
    assert_eq!(checked.variants[0].payload, self_id);
}
