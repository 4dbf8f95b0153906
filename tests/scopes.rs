use plang::scopes::Scopes;

#[test]
fn name_visible_inside_block_and_nested_blocks() {
    let mut s = Scopes::new();
    assert_eq!(s.depth(), 1);
    s.push_scope();
    s.declare("x".to_string());
    assert!(s.is_visible("x"));
    s.push_scope();
    assert!(s.is_visible("x"));
    s.pop_scope();
    s.pop_scope();
    assert!(!s.is_visible("x"));
    assert_eq!(s.resolve("x"), None);
}

#[test]
fn inner_declaration_shadows_outer() {
    let mut s = Scopes::new();
    s.declare("x".to_string());
    assert_eq!(s.resolve("x"), Some(0));
    s.push_scope();
    s.declare("x".to_string());
    assert_eq!(s.resolve("x"), Some(1));
    s.push_scope();
    assert_eq!(s.resolve("x"), Some(1));
    s.pop_scope();
    s.pop_scope();
    assert_eq!(s.resolve("x"), Some(0));
}
