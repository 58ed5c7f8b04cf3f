use enum_check::interner::{TypeDescriptor, TypeInterner};
use enum_check::scope::{Entity, ScopeArena};

#[test]
fn binding_twice_in_one_scope_fails_and_changes_nothing() {
    let mut interner = TypeInterner::new();
    let id = interner.intern(TypeDescriptor::Unit);
    let mut arena = ScopeArena::new(vec!["m".to_string()]);
    assert!(arena.bind(0, "T".to_string(), Entity::TypeParameter { id }));
    assert!(!arena.bind(0, "T".to_string(), Entity::TypeParameter { id }));
    assert_eq!(arena.lookup(0, &"T".to_string()), Some(Entity::TypeParameter { id }));
}

#[test]
fn shadowing_an_ancestor_binding_is_permitted() {
    let mut interner = TypeInterner::new();
    let outer = interner.intern(TypeDescriptor::Unit);
    let inner = interner.intern(TypeDescriptor::Placeholder { name: "T".to_string() });
    let mut arena = ScopeArena::new(vec!["m".to_string()]);
    assert!(arena.bind(0, "T".to_string(), Entity::TypeParameter { id: outer }));
    let child = arena.fork(0);
    assert!(arena.bind(child, "T".to_string(), Entity::TypeParameter { id: inner }));
    // The nearest binding wins; the ancestor's is intact.
    assert_eq!(arena.lookup(child, &"T".to_string()), Some(Entity::TypeParameter { id: inner }));
    assert_eq!(arena.lookup(0, &"T".to_string()), Some(Entity::TypeParameter { id: outer }));
}

#[test]
fn lookup_walks_parent_links() {
    let mut interner = TypeInterner::new();
    let id = interner.intern(TypeDescriptor::Unit);
    let mut arena = ScopeArena::new(vec!["m".to_string()]);
    assert!(arena.bind(0, "T".to_string(), Entity::TypeParameter { id }));
    let child = arena.fork(0);
    let grandchild = arena.fork(child);
    assert_eq!(arena.lookup(grandchild, &"T".to_string()), Some(Entity::TypeParameter { id }));
    assert_eq!(arena.lookup(grandchild, &"U".to_string()), None);
}

#[test]
fn self_type_finds_the_nearest_self_binding() {
    let mut interner = TypeInterner::new();
    let id = interner.intern(TypeDescriptor::Unit);
    let mut arena = ScopeArena::new(vec!["m".to_string()]);
    let child = arena.fork(0);
    assert_eq!(arena.self_type(child), None);
    assert!(arena.bind(child, "Tree".to_string(), Entity::SelfType { id, arity: 0 }));
    assert_eq!(arena.self_type(child), Some(Entity::SelfType { id, arity: 0 }));
    // The parent scope is not affected by the child's binding.
    assert_eq!(arena.self_type(0), None);
}

#[test]
fn forked_scope_inherits_the_module_path() {
    let mut arena = ScopeArena::new(vec!["a".to_string(), "b".to_string()]);
    let child = arena.fork(0);
    assert_eq!(arena.mod_path(child), &vec!["a".to_string(), "b".to_string()]);
}
