use sysy_compiler::symtable::{ScopeEntry, SymTable};

#[test]
fn symtable_insert_then_get() {
    let mut st = SymTable::new();
    st.insert(String::from("a"), ScopeEntry::Const(3));
    assert_eq!(st.get("a"), Some(&ScopeEntry::Const(3)));
    assert_eq!(st.get("b"), None);
}

#[test]
fn symtable_inner_scope_shadows_outer() {
    let mut st = SymTable::new();
    st.insert(String::from("x"), ScopeEntry::Const(1));
    st.push_scope();
    st.insert(String::from("x"), ScopeEntry::Var(7));
    assert_eq!(st.get("x"), Some(&ScopeEntry::Var(7)));
    st.pop_scope();
    assert_eq!(st.get("x"), Some(&ScopeEntry::Const(1)));
}

#[test]
fn symtable_outer_names_visible_inside() {
    let mut st = SymTable::new();
    st.insert(String::from("y"), ScopeEntry::Var(2));
    st.push_scope();
    st.push_scope();
    assert_eq!(st.get("y"), Some(&ScopeEntry::Var(2)));
    assert_eq!(st.get("z"), None);
}

#[test]
fn symtable_inner_names_forgotten_after_pop() {
    let mut st = SymTable::new();
    st.push_scope();
    st.insert(String::from("t"), ScopeEntry::Const(9));
    assert_eq!(st.get("t"), Some(&ScopeEntry::Const(9)));
    st.pop_scope();
    assert_eq!(st.get("t"), None);
}

#[test]
fn symtable_value_cache_is_independent_of_scopes() {
    let mut st = SymTable::new();
    st.push_scope();
    st.value_cache.insert(4, 10);
    st.pop_scope();
    assert_eq!(st.value_cache.get(&4), Some(&10));
}

#[test]
fn symtable_lookup_after_a_sequence_of_operations() {
    // The most recent insert of `x` whose scope is still open is found.
    let mut st = SymTable::new();
    st.insert(String::from("x"), ScopeEntry::Const(1));
    st.push_scope();
    st.insert(String::from("x"), ScopeEntry::Const(2));
    st.push_scope();
    assert_eq!(st.get("x"), Some(&ScopeEntry::Const(2)));
    st.pop_scope();
    st.pop_scope();
    assert_eq!(st.get("x"), Some(&ScopeEntry::Const(1)));
    st.pop_scope();
    assert_eq!(st.get("x"), None);
    st.push_scope();
    assert_eq!(st.get("x"), None);
}
