use minic::scope::{Scope, ScopeError, ScopeStack, Symbol, SymbolKind, Type};

fn name(s: &str) -> String {
    String::from(s)
}

#[test]
fn balanced_scope_pair_forgets_inner_names() {
    let mut st = ScopeStack::new();
    st.enter_scope();
    st.enter_scope();
    assert!(st.insert_variable(name("inner"), Type::Int, true, true).is_ok());
    assert!(st.lookup_variable(&name("inner")).is_ok());
    st.exit_scope();
    assert_eq!(
        st.lookup_variable(&name("inner")).err(),
        Some(ScopeError::UndeclaredIdentifier)
    );
}

#[test]
fn shadowing_inner_hides_outer_until_popped() {
    let mut st = ScopeStack::new();
    st.enter_scope();
    assert!(st.insert_variable(name("x"), Type::Int, true, true).is_ok());
    st.enter_scope();
    assert!(st.insert_variable(name("x"), Type::Bool, true, true).is_ok());
    let inner = st.lookup_variable(&name("x")).unwrap();
    assert_eq!(inner.ty, Some(Type::Bool));
    assert_eq!(inner.scope_level, 1);
    st.exit_scope();
    let outer = st.lookup_variable(&name("x")).unwrap();
    assert_eq!(outer.ty, Some(Type::Int));
    assert_eq!(outer.scope_level, 0);
}

#[test]
fn second_insert_of_same_name_fails_and_keeps_first() {
    let mut st = ScopeStack::new();
    st.enter_scope();
    assert!(st.insert_variable(name("x"), Type::Int, true, true).is_ok());
    assert_eq!(
        st.insert_variable(name("x"), Type::Float, false, false),
        Err(ScopeError::VariableRedefinition)
    );
    let sym = st.lookup_variable(&name("x")).unwrap();
    assert_eq!(sym.ty, Some(Type::Int));
    assert!(matches!(sym.kind, SymbolKind::Variable { mutable: true }));
}

#[test]
fn prototype_then_matching_definition_upgrades_in_place() {
    let mut st = ScopeStack::new();
    st.enter_scope();
    assert!(st
        .insert_function_prototype(name("f"), vec![Type::Int, Type::Float], Type::Bool)
        .is_ok());
    assert_eq!(
        st.lookup_function(&name("f")).err(),
        Some(ScopeError::UndefinedFunctionCalled)
    );
    assert!(st
        .insert_function_definition(name("f"), vec![Type::Int, Type::Float], Type::Bool)
        .is_ok());
    let sym = st.lookup_function(&name("f")).unwrap();
    match &sym.kind {
        SymbolKind::Function { params, return_type, defined } => {
            assert_eq!(params, &vec![Type::Int, Type::Float]);
            assert_eq!(*return_type, Type::Bool);
            assert!(*defined);
        }
        _ => panic!("expected a function binding"),
    }
    assert_eq!(
        st.insert_function_definition(name("f"), vec![Type::Int, Type::Float], Type::Bool),
        Err(ScopeError::FunctionRedefinition)
    );
}

#[test]
fn prototype_merge_matrix() {
    let mut st = ScopeStack::new();
    st.enter_scope();
    assert!(st.insert_function_prototype(name("p"), vec![Type::Int], Type::Void).is_ok());
    assert_eq!(
        st.insert_function_prototype(name("p"), vec![Type::Int], Type::Void),
        Err(ScopeError::FunctionPrototypeRedefinition)
    );
    assert_eq!(
        st.insert_function_prototype(name("p"), vec![Type::Float], Type::Void),
        Err(ScopeError::FunctionSignatureConflict)
    );
    assert_eq!(
        st.insert_function_definition(name("p"), vec![Type::Bool], Type::Void),
        Err(ScopeError::FunctionSignatureConflict)
    );
    assert!(st.insert_function_definition(name("p"), vec![Type::Int], Type::Void).is_ok());
    assert_eq!(
        st.insert_function_prototype(name("p"), vec![Type::Int], Type::Void),
        Err(ScopeError::FunctionRedefinitionAsPrototype)
    );
    // a name clash with a variable is a variable redefinition
    assert!(st.insert_variable(name("v"), Type::Int, true, true).is_ok());
    assert_eq!(
        st.insert_function_prototype(name("v"), vec![], Type::Void),
        Err(ScopeError::VariableRedefinition)
    );
    assert_eq!(
        st.insert_function_definition(name("v"), vec![], Type::Void),
        Err(ScopeError::VariableRedefinition)
    );
}

#[test]
fn lookup_variable_rejects_functions_and_uninitialized() {
    let mut st = ScopeStack::new();
    st.enter_scope();
    assert!(st.insert_function_definition(name("f"), vec![], Type::Void).is_ok());
    assert_eq!(
        st.lookup_variable(&name("f")).err(),
        Some(ScopeError::FoundButWrongKind)
    );
    assert!(st.insert_variable(name("u"), Type::Int, true, false).is_ok());
    assert_eq!(
        st.lookup_variable(&name("u")).err(),
        Some(ScopeError::VariableUsedBeforeInit)
    );
}

#[test]
fn lookup_function_rejects_variables_and_absent_names() {
    let mut st = ScopeStack::new();
    st.enter_scope();
    assert!(st.insert_variable(name("x"), Type::Int, true, true).is_ok());
    assert_eq!(
        st.lookup_function(&name("x")).err(),
        Some(ScopeError::FoundButWrongKind)
    );
    assert_eq!(
        st.lookup_function(&name("missing")).err(),
        Some(ScopeError::UndefinedFunctionCalled)
    );
}

#[test]
fn insert_without_scope_reports_no_current_scope() {
    let mut st = ScopeStack::new();
    assert_eq!(
        st.insert_variable(name("x"), Type::Int, true, true),
        Err(ScopeError::NoCurrentScope)
    );
    assert_eq!(
        st.insert_function_prototype(name("f"), vec![], Type::Void),
        Err(ScopeError::NoCurrentScope)
    );
    assert_eq!(
        st.insert_function_definition(name("f"), vec![], Type::Void),
        Err(ScopeError::NoCurrentScope)
    );
}

#[test]
fn mark_initialized_follows_lookup_rules() {
    let mut st = ScopeStack::new();
    st.enter_scope();
    assert!(st.insert_variable(name("x"), Type::Int, true, false).is_ok());
    assert!(st.insert_function_definition(name("f"), vec![], Type::Void).is_ok());
    assert!(st.mark_initialized(&name("x")).is_ok());
    assert!(st.lookup_variable(&name("x")).is_ok());
    assert_eq!(
        st.mark_initialized(&name("f")),
        Err(ScopeError::FoundButWrongKind)
    );
    assert_eq!(
        st.mark_initialized(&name("missing")),
        Err(ScopeError::UndeclaredIdentifier)
    );
}

#[test]
fn variable_exists_only_for_variables_and_parameters() {
    let mut st = ScopeStack::new();
    st.enter_scope();
    assert!(st.insert_variable(name("x"), Type::Int, true, false).is_ok());
    assert!(st.insert_function_definition(name("f"), vec![], Type::Void).is_ok());
    assert!(st.variable_exists(&name("x")));
    assert!(!st.variable_exists(&name("f")));
    assert!(!st.variable_exists(&name("missing")));
}

#[test]
fn current_level_counts_nesting_from_zero() {
    let mut st = ScopeStack::new();
    assert_eq!(st.current_level(), 0);
    st.enter_scope();
    assert_eq!(st.current_level(), 0);
    st.enter_scope();
    assert_eq!(st.current_level(), 1);
    st.enter_scope();
    assert_eq!(st.current_level(), 2);
    st.exit_scope();
    assert_eq!(st.current_level(), 1);
}

#[test]
fn loop_depth_tracks_break_legality() {
    let mut st = ScopeStack::new();
    assert!(!st.in_loop());
    st.enter_loop();
    assert!(st.in_loop());
    st.enter_loop();
    st.exit_loop();
    assert!(st.in_loop());
    st.exit_loop();
    assert!(!st.in_loop());
}

#[test]
fn lookup_symbol_any_returns_innermost_of_any_kind() {
    let mut st = ScopeStack::new();
    st.enter_scope();
    assert!(st.insert_function_definition(name("f"), vec![], Type::Void).is_ok());
    let sym = st.lookup_symbol_any(&name("f")).unwrap();
    assert!(matches!(sym.kind, SymbolKind::Function { .. }));
    assert!(st.lookup_symbol_any(&name("missing")).is_none());
}

#[test]
fn symbol_constructors_fill_the_fields() {
    let v = Symbol::new_variable(name("a"), Type::Int, true, 3, false);
    assert_eq!(v.name, "a");
    assert!(matches!(v.kind, SymbolKind::Variable { mutable: true }));
    assert_eq!(v.scope_level, 3);
    assert_eq!(v.ty, Some(Type::Int));
    assert!(!v.initialized);

    let p = Symbol::new_parameter(name("b"), Type::Float, 1);
    assert!(matches!(p.kind, SymbolKind::Parameter));
    assert!(p.initialized);

    let proto = Symbol::new_function_prototype(name("f"), vec![Type::Int], Type::Bool, 0);
    match &proto.kind {
        SymbolKind::Function { defined, .. } => assert!(!defined),
        _ => panic!("expected a function binding"),
    }
    assert_eq!(proto.ty, Some(Type::Bool));

    let def = Symbol::new_function_definition(name("g"), vec![], Type::Void, 0);
    match &def.kind {
        SymbolKind::Function { defined, .. } => assert!(defined),
        _ => panic!("expected a function binding"),
    }

    let sc = Scope::new(2);
    let _ = sc;
}
