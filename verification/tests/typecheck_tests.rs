use minic::ast::{BinOp, Decl, Expr, Param, Program, Stmt, UnOp};
use minic::scope::{ScopeError, ScopeStack, Type};
use minic::typechecker::{analyze_stmt, perform_semantic_analysis, visit_expr, TypeChkError};

fn ident(s: &str) -> Expr {
    Expr::Identifier(String::from(s))
}

fn intlit(s: &str) -> Expr {
    Expr::IntLit(String::from(s))
}

fn floatlit(s: &str) -> Expr {
    Expr::FloatLit(String::from(s))
}

fn boolean(b: bool) -> Expr {
    Expr::BoolLit(b)
}

fn strlit(s: &str) -> Expr {
    Expr::StrLit(String::from(s))
}

fn binary(l: Expr, op: BinOp, r: Expr) -> Expr {
    Expr::Binary { left: Box::new(l), op, right: Box::new(r) }
}

#[test]
fn literals_have_their_fixed_types() {
    let st = ScopeStack::new();
    assert_eq!(visit_expr(&intlit("1"), &st), Ok(Type::Int));
    assert_eq!(visit_expr(&floatlit("1.5"), &st), Ok(Type::Float));
    assert_eq!(visit_expr(&boolean(true), &st), Ok(Type::Bool));
    assert_eq!(visit_expr(&strlit("hi"), &st), Ok(Type::String));
}

#[test]
fn int_plus_int_is_int_and_float_dominates() {
    let st = ScopeStack::new();
    assert_eq!(
        visit_expr(&binary(intlit("3"), BinOp::Add, intlit("4")), &st),
        Ok(Type::Int)
    );
    assert_eq!(
        visit_expr(&binary(intlit("3"), BinOp::Add, floatlit("4.0")), &st),
        Ok(Type::Float)
    );
    assert_eq!(
        visit_expr(&binary(floatlit("3.0"), BinOp::Mul, intlit("4")), &st),
        Ok(Type::Float)
    );
}

#[test]
fn declaration_registers_the_annotated_type() {
    // int x = 3 + 4;  then  float y = 3 + 4.0;
    let mut st = ScopeStack::new();
    st.enter_scope();
    let mut serrs = Vec::new();
    let mut terrs = Vec::new();
    let dx = Stmt::Let {
        name: String::from("x"),
        type_annot: Some(Type::Int),
        value: binary(intlit("3"), BinOp::Add, intlit("4")),
    };
    analyze_stmt(&dx, &mut st, &mut serrs, &mut terrs, None);
    let dy = Stmt::Let {
        name: String::from("y"),
        type_annot: Some(Type::Float),
        value: binary(intlit("3"), BinOp::Add, floatlit("4.0")),
    };
    analyze_stmt(&dy, &mut st, &mut serrs, &mut terrs, None);
    assert!(serrs.is_empty());
    assert!(terrs.is_empty());
    assert_eq!(st.lookup_variable(&String::from("x")).unwrap().ty, Some(Type::Int));
    assert_eq!(st.lookup_variable(&String::from("y")).unwrap().ty, Some(Type::Float));
    assert_eq!(visit_expr(&ident("x"), &st), Ok(Type::Int));
    assert_eq!(visit_expr(&ident("y"), &st), Ok(Type::Float));
}

#[test]
fn non_bool_if_condition_is_flagged() {
    let mut st = ScopeStack::new();
    st.enter_scope();
    let mut serrs = Vec::new();
    let mut terrs = Vec::new();
    let s = Stmt::If {
        condition: binary(intlit("1"), BinOp::Add, intlit("1")),
        then_branch: Box::new(Stmt::Block(vec![])),
        else_branch: None,
    };
    analyze_stmt(&s, &mut st, &mut serrs, &mut terrs, None);
    assert_eq!(terrs, vec![TypeChkError::NonBooleanCondStmt]);
}

#[test]
fn bool_if_condition_is_not_flagged() {
    let mut st = ScopeStack::new();
    st.enter_scope();
    let mut serrs = Vec::new();
    let mut terrs = Vec::new();
    let s = Stmt::If {
        condition: boolean(true),
        then_branch: Box::new(Stmt::Block(vec![])),
        else_branch: None,
    };
    analyze_stmt(&s, &mut st, &mut serrs, &mut terrs, None);
    assert!(terrs.is_empty());
}

#[test]
fn break_outside_loop_is_flagged_inside_while_is_not() {
    let mut st = ScopeStack::new();
    st.enter_scope();
    let mut serrs = Vec::new();
    let mut terrs = Vec::new();
    analyze_stmt(&Stmt::Break, &mut st, &mut serrs, &mut terrs, None);
    assert_eq!(terrs, vec![TypeChkError::ErroneousBreak]);

    let mut terrs2 = Vec::new();
    let w = Stmt::While {
        condition: boolean(true),
        body: Box::new(Stmt::Block(vec![Stmt::Break])),
    };
    analyze_stmt(&w, &mut st, &mut serrs, &mut terrs2, None);
    assert!(terrs2.is_empty());
}

#[test]
fn unary_operator_rules() {
    let st = ScopeStack::new();
    assert_eq!(
        visit_expr(&Expr::Unary { op: UnOp::Neg, operand: Box::new(intlit("1")) }, &st),
        Ok(Type::Int)
    );
    assert_eq!(
        visit_expr(&Expr::Unary { op: UnOp::Neg, operand: Box::new(floatlit("1.0")) }, &st),
        Ok(Type::Float)
    );
    assert_eq!(
        visit_expr(&Expr::Unary { op: UnOp::Neg, operand: Box::new(boolean(true)) }, &st),
        Err(TypeChkError::AttemptedAddOpOnNonNumeric)
    );
    assert_eq!(
        visit_expr(&Expr::Unary { op: UnOp::Not, operand: Box::new(boolean(true)) }, &st),
        Ok(Type::Bool)
    );
    assert_eq!(
        visit_expr(&Expr::Unary { op: UnOp::Not, operand: Box::new(intlit("1")) }, &st),
        Err(TypeChkError::AttemptedBoolOpOnNonBools)
    );
}

#[test]
fn binary_operator_rules() {
    let st = ScopeStack::new();
    assert_eq!(
        visit_expr(&binary(boolean(true), BinOp::Add, intlit("1")), &st),
        Err(TypeChkError::AttemptedAddOpOnNonNumeric)
    );
    assert_eq!(
        visit_expr(&binary(boolean(true), BinOp::Pow, intlit("1")), &st),
        Err(TypeChkError::AttemptedExponentiationOfNonNumeric)
    );
    assert_eq!(
        visit_expr(&binary(intlit("2"), BinOp::Pow, intlit("3")), &st),
        Ok(Type::Int)
    );
    assert_eq!(
        visit_expr(&binary(boolean(true), BinOp::And, intlit("1")), &st),
        Err(TypeChkError::AttemptedBoolOpOnNonBools)
    );
    assert_eq!(
        visit_expr(&binary(boolean(true), BinOp::Or, boolean(false)), &st),
        Ok(Type::Bool)
    );
    assert_eq!(
        visit_expr(&binary(floatlit("1.0"), BinOp::Shl, intlit("1")), &st),
        Err(TypeChkError::AttemptedShiftOnNonInt)
    );
    assert_eq!(
        visit_expr(&binary(intlit("4"), BinOp::Shr, intlit("1")), &st),
        Ok(Type::Int)
    );
    assert_eq!(
        visit_expr(&binary(intlit("1"), BinOp::Eq, strlit("a")), &st),
        Err(TypeChkError::ExpressionTypeMismatch)
    );
    assert_eq!(
        visit_expr(&binary(intlit("1"), BinOp::Lt, intlit("2")), &st),
        Ok(Type::Bool)
    );
    assert_eq!(
        visit_expr(&binary(intlit("1"), BinOp::Le, intlit("1")), &st),
        Ok(Type::Bool)
    );
}

#[test]
fn unresolved_identifier_is_erroneous_var_decl() {
    let st = ScopeStack::new();
    assert_eq!(
        visit_expr(&ident("nope"), &st),
        Err(TypeChkError::ErroneousVarDecl)
    );
}

#[test]
fn grouping_passes_the_inner_type_through() {
    let st = ScopeStack::new();
    assert_eq!(
        visit_expr(&Expr::Grouping(Box::new(binary(intlit("1"), BinOp::Add, intlit("2")))), &st),
        Ok(Type::Int)
    );
}

#[test]
fn call_checks_arity_and_argument_types() {
    let mut st = ScopeStack::new();
    st.enter_scope();
    assert!(st
        .insert_function_definition(String::from("f"), vec![Type::Int, Type::Bool], Type::Float)
        .is_ok());
    let call = |args: Vec<Expr>| Expr::Call {
        callee: Box::new(ident("f")),
        args,
    };
    assert_eq!(
        visit_expr(&call(vec![intlit("1"), boolean(true)]), &st),
        Ok(Type::Float)
    );
    assert_eq!(
        visit_expr(&call(vec![intlit("1")]), &st),
        Err(TypeChkError::FnCallParamCount)
    );
    assert_eq!(
        visit_expr(&call(vec![intlit("1"), intlit("2")]), &st),
        Err(TypeChkError::FnCallParamType)
    );
    assert_eq!(
        visit_expr(
            &Expr::Call { callee: Box::new(ident("missing")), args: vec![] },
            &st
        ),
        Err(TypeChkError::ErroneousVarDecl)
    );
}

#[test]
fn return_type_must_match_the_declared_one() {
    let mut st = ScopeStack::new();
    st.enter_scope();
    let mut serrs = Vec::new();
    let mut terrs = Vec::new();
    analyze_stmt(
        &Stmt::Return(Some(boolean(true))),
        &mut st,
        &mut serrs,
        &mut terrs,
        Some(Type::Int),
    );
    assert_eq!(terrs, vec![TypeChkError::ErroneousReturnType]);

    let mut terrs2 = Vec::new();
    analyze_stmt(
        &Stmt::Return(Some(intlit("1"))),
        &mut st,
        &mut serrs,
        &mut terrs2,
        Some(Type::Int),
    );
    assert!(terrs2.is_empty());

    let mut terrs3 = Vec::new();
    analyze_stmt(&Stmt::Return(None), &mut st, &mut serrs, &mut terrs3, Some(Type::Int));
    assert_eq!(terrs3, vec![TypeChkError::ErroneousReturnType]);

    let mut terrs4 = Vec::new();
    analyze_stmt(&Stmt::Return(None), &mut st, &mut serrs, &mut terrs4, Some(Type::Void));
    assert!(terrs4.is_empty());
}

#[test]
fn whole_program_analysis_collects_both_lists() {
    // fn bool flag(int n) { return n < 0; }
    // int x = 3 + 4;
    // if (x + 1) { break; }
    let program = Program {
        declarations: vec![
            Decl::Function {
                name: String::from("flag"),
                params: vec![Param { name: String::from("n"), param_type: Type::Int }],
                return_type: Some(Type::Bool),
                body: Box::new(Stmt::Block(vec![Stmt::Return(Some(binary(
                    ident("n"),
                    BinOp::Lt,
                    intlit("0"),
                )))])),
            },
            Decl::GlobalVar {
                name: String::from("x"),
                type_annot: Some(Type::Int),
                value: Some(binary(intlit("3"), BinOp::Add, intlit("4"))),
            },
            Decl::Stmt(Stmt::If {
                condition: binary(ident("x"), BinOp::Add, intlit("1")),
                then_branch: Box::new(Stmt::Block(vec![Stmt::Break])),
                else_branch: None,
            }),
        ],
    };
    let (serrs, terrs) = perform_semantic_analysis(&program);
    assert!(serrs.is_empty());
    assert_eq!(
        terrs,
        vec![TypeChkError::NonBooleanCondStmt, TypeChkError::ErroneousBreak]
    );
}

#[test]
fn redefinitions_surface_in_the_scope_error_list() {
    let program = Program {
        declarations: vec![
            Decl::GlobalVar { name: String::from("x"), type_annot: Some(Type::Int), value: None },
            Decl::GlobalVar { name: String::from("x"), type_annot: Some(Type::Int), value: None },
            Decl::Function {
                name: String::from("f"),
                params: vec![],
                return_type: None,
                body: Box::new(Stmt::Block(vec![])),
            },
            Decl::Function {
                name: String::from("f"),
                params: vec![],
                return_type: None,
                body: Box::new(Stmt::Block(vec![])),
            },
        ],
    };
    let (serrs, _terrs) = perform_semantic_analysis(&program);
    assert_eq!(
        serrs,
        vec![ScopeError::VariableRedefinition, ScopeError::FunctionRedefinition]
    );
}

#[test]
fn declaration_initializer_does_not_see_its_own_name() {
    // let x = x;  -- the initializer is checked before the binding exists
    let mut st = ScopeStack::new();
    st.enter_scope();
    let mut serrs = Vec::new();
    let mut terrs = Vec::new();
    let s = Stmt::Let {
        name: String::from("x"),
        type_annot: Some(Type::Int),
        value: ident("x"),
    };
    analyze_stmt(&s, &mut st, &mut serrs, &mut terrs, None);
    assert_eq!(serrs, vec![ScopeError::UndeclaredIdentifier]);
    assert_eq!(terrs, vec![TypeChkError::ErroneousVarDecl]);
}

#[test]
fn for_statement_opens_its_own_scope_and_loop() {
    let mut st = ScopeStack::new();
    st.enter_scope();
    let mut serrs = Vec::new();
    let mut terrs = Vec::new();
    let f = Stmt::For {
        init: Some(Box::new(Stmt::Let {
            name: String::from("i"),
            type_annot: Some(Type::Int),
            value: intlit("0"),
        })),
        condition: Some(binary(ident("i"), BinOp::Lt, intlit("10"))),
        increment: Some(binary(ident("i"), BinOp::Assign, binary(ident("i"), BinOp::Add, intlit("1")))),
        body: Box::new(Stmt::Block(vec![Stmt::Break])),
    };
    analyze_stmt(&f, &mut st, &mut serrs, &mut terrs, None);
    assert!(serrs.is_empty());
    assert!(terrs.is_empty());
    // the loop variable's scope was popped again
    assert_eq!(
        st.lookup_variable(&String::from("i")).err(),
        Some(ScopeError::UndeclaredIdentifier)
    );
}

#[test]
fn calling_a_function_notes_the_callee_is_not_a_variable() {
    // resolving the callee first as a variable fails with the wrong-kind
    // error before the call itself resolves fine; both lists record it
    let program = Program {
        declarations: vec![
            Decl::Function {
                name: String::from("f"),
                params: vec![],
                return_type: Some(Type::Int),
                body: Box::new(Stmt::Block(vec![Stmt::Return(Some(intlit("1")))])),
            },
            Decl::Stmt(Stmt::Expr(Expr::Call {
                callee: Box::new(ident("f")),
                args: vec![],
            })),
        ],
    };
    let (serrs, terrs) = perform_semantic_analysis(&program);
    assert_eq!(serrs, vec![ScopeError::FoundButWrongKind]);
    assert_eq!(terrs, vec![TypeChkError::ErroneousVarDecl]);
}

#[test]
fn non_bool_while_condition_is_flagged() {
    let mut st = ScopeStack::new();
    st.enter_scope();
    let mut serrs = Vec::new();
    let mut terrs = Vec::new();
    let w = Stmt::While {
        condition: intlit("1"),
        body: Box::new(Stmt::Block(vec![])),
    };
    analyze_stmt(&w, &mut st, &mut serrs, &mut terrs, None);
    assert_eq!(terrs, vec![TypeChkError::NonBooleanCondStmt]);
}

#[test]
fn inner_error_is_reported_at_every_enclosing_level() {
    // (true + 1) + 2 reports the inner failure once for the inner node
    // and once when it propagates to the whole expression
    let st = ScopeStack::new();
    let mut st2 = ScopeStack::new();
    st2.enter_scope();
    let mut serrs = Vec::new();
    let mut terrs = Vec::new();
    let e = binary(binary(boolean(true), BinOp::Add, intlit("1")), BinOp::Add, intlit("2"));
    assert_eq!(
        visit_expr(&e, &st),
        Err(TypeChkError::AttemptedAddOpOnNonNumeric)
    );
    analyze_stmt(&Stmt::Expr(e), &mut st2, &mut serrs, &mut terrs, None);
    assert_eq!(
        terrs,
        vec![
            TypeChkError::AttemptedAddOpOnNonNumeric,
            TypeChkError::AttemptedAddOpOnNonNumeric
        ]
    );
}

#[test]
fn return_with_value_in_void_function_is_flagged() {
    // the presence of a value must match a Void return type
    let mut st = ScopeStack::new();
    st.enter_scope();
    let mut serrs = Vec::new();
    let mut terrs = Vec::new();
    analyze_stmt(
        &Stmt::Return(Some(intlit("1"))),
        &mut st,
        &mut serrs,
        &mut terrs,
        Some(Type::Void),
    );
    assert_eq!(terrs, vec![TypeChkError::ErroneousReturnType]);

    // an Unknown declared return type stays permissive
    let mut terrs2 = Vec::new();
    analyze_stmt(
        &Stmt::Return(Some(intlit("1"))),
        &mut st,
        &mut serrs,
        &mut terrs2,
        Some(Type::Unknown),
    );
    assert!(terrs2.is_empty());

    // a function without a declared return type returns Void
    let program = Program {
        declarations: vec![Decl::Function {
            name: String::from("noise"),
            params: vec![],
            return_type: None,
            body: Box::new(Stmt::Block(vec![Stmt::Return(Some(intlit("1")))])),
        }],
    };
    let (pserrs, pterrs) = perform_semantic_analysis(&program);
    assert!(pserrs.is_empty());
    assert_eq!(pterrs, vec![TypeChkError::ErroneousReturnType]);
}

#[test]
fn top_level_clash_records_the_error_the_insert_returned() {
    // a function declared after a same-named global clashes with a
    // variable binding, and that is the kind recorded
    let program = Program {
        declarations: vec![
            Decl::GlobalVar { name: String::from("x"), type_annot: Some(Type::Int), value: None },
            Decl::Function {
                name: String::from("x"),
                params: vec![],
                return_type: None,
                body: Box::new(Stmt::Block(vec![])),
            },
        ],
    };
    let (serrs, _terrs) = perform_semantic_analysis(&program);
    assert_eq!(serrs, vec![ScopeError::VariableRedefinition]);

    // and a global declared after a same-named function likewise
    let program2 = Program {
        declarations: vec![
            Decl::Function {
                name: String::from("g"),
                params: vec![],
                return_type: None,
                body: Box::new(Stmt::Block(vec![])),
            },
            Decl::GlobalVar { name: String::from("g"), type_annot: Some(Type::Int), value: None },
        ],
    };
    let (serrs2, _terrs2) = perform_semantic_analysis(&program2);
    assert_eq!(serrs2, vec![ScopeError::VariableRedefinition]);
}
