use minic::ast::{BinOp, Expr, Stmt, UnOp};
use minic::ir_generator::IRGenerator;
use minic::quad::{usize_to_dec, Op, Operand, Quad};

fn ident(s: &str) -> Expr {
    Expr::Identifier(String::from(s))
}

fn intlit(s: &str) -> Expr {
    Expr::IntLit(String::from(s))
}

fn binary(l: Expr, op: BinOp, r: Expr) -> Expr {
    Expr::Binary { left: Box::new(l), op, right: Box::new(r) }
}

fn assign(name: &str, value: Expr) -> Stmt {
    Stmt::Expr(binary(ident(name), BinOp::Assign, value))
}

fn name_op(s: &str) -> Operand {
    Operand::Name(String::from(s))
}

#[test]
fn if_else_lowers_to_exactly_six_instructions() {
    // if (cond) { a = 1; } else { a = 2; }
    let stmt = Stmt::If {
        condition: ident("cond"),
        then_branch: Box::new(Stmt::Block(vec![assign("a", intlit("1"))])),
        else_branch: Some(Box::new(Stmt::Block(vec![assign("a", intlit("2"))]))),
    };
    let mut g = IRGenerator::new();
    let quads = g.generate(&vec![stmt]);
    assert_eq!(quads.len(), 6);
    assert_eq!(
        quads[0],
        Quad { op: Op::IfFalse, arg1: name_op("cond"), arg2: Operand::Empty, result: Operand::Label(1) }
    );
    assert_eq!(
        quads[1],
        Quad { op: Op::Copy, arg1: name_op("1"), arg2: Operand::Empty, result: name_op("a") }
    );
    assert_eq!(
        quads[2],
        Quad { op: Op::Goto, arg1: Operand::Empty, arg2: Operand::Empty, result: Operand::Label(0) }
    );
    assert_eq!(
        quads[3],
        Quad { op: Op::Label, arg1: Operand::Empty, arg2: Operand::Empty, result: Operand::Label(1) }
    );
    assert_eq!(
        quads[4],
        Quad { op: Op::Copy, arg1: name_op("2"), arg2: Operand::Empty, result: name_op("a") }
    );
    assert_eq!(
        quads[5],
        Quad { op: Op::Label, arg1: Operand::Empty, arg2: Operand::Empty, result: Operand::Label(0) }
    );
    // no duplicate label names within the call
    assert_ne!(quads[3].result, quads[5].result);
}

#[test]
fn if_without_else_branches_to_the_single_join_label() {
    let stmt = Stmt::If {
        condition: ident("c"),
        then_branch: Box::new(assign("a", intlit("1"))),
        else_branch: None,
    };
    let mut g = IRGenerator::new();
    let quads = g.generate(&vec![stmt]);
    assert_eq!(quads.len(), 3);
    assert_eq!(
        quads[0],
        Quad { op: Op::IfFalse, arg1: name_op("c"), arg2: Operand::Empty, result: Operand::Label(0) }
    );
    assert_eq!(
        quads[2],
        Quad { op: Op::Label, arg1: Operand::Empty, arg2: Operand::Empty, result: Operand::Label(0) }
    );
}

#[test]
fn temporaries_are_unique_and_counters_reset_across_calls() {
    // x = (a + b) * (c + d);
    let expr = binary(
        binary(ident("a"), BinOp::Add, ident("b")),
        BinOp::Mul,
        binary(ident("c"), BinOp::Add, ident("d")),
    );
    let program = vec![assign("x", expr)];
    let mut g = IRGenerator::new();
    let first = g.generate(&program);
    assert_eq!(first.len(), 4);
    assert_eq!(first[0].result, Operand::Temp(0));
    assert_eq!(first[1].result, Operand::Temp(1));
    assert_eq!(first[2].result, Operand::Temp(2));
    assert_eq!(
        first[2],
        Quad { op: Op::Mul, arg1: Operand::Temp(0), arg2: Operand::Temp(1), result: Operand::Temp(2) }
    );
    assert_eq!(first[3].result, name_op("x"));
    // a second run on the same generator starts counting from zero again
    let second = g.generate(&program);
    assert_eq!(first, second);
}

#[test]
fn break_in_while_jumps_to_the_loop_end_label() {
    // while (cond) { x = 1; break; }
    let stmt = Stmt::While {
        condition: ident("cond"),
        body: Box::new(Stmt::Block(vec![assign("x", intlit("1")), Stmt::Break])),
    };
    let mut g = IRGenerator::new();
    let quads = g.generate(&vec![stmt]);
    // label _L0; if_false cond _L1; x = 1; goto _L1; goto _L0; _L1:
    assert_eq!(quads.len(), 6);
    assert_eq!(quads[0].op, Op::Label);
    assert_eq!(quads[0].result, Operand::Label(0));
    assert_eq!(
        quads[1],
        Quad { op: Op::IfFalse, arg1: name_op("cond"), arg2: Operand::Empty, result: Operand::Label(1) }
    );
    // the break's jump target equals the label emitted after the loop body
    assert_eq!(
        quads[3],
        Quad { op: Op::Goto, arg1: Operand::Empty, arg2: Operand::Empty, result: Operand::Label(1) }
    );
    assert_eq!(
        quads[4],
        Quad { op: Op::Goto, arg1: Operand::Empty, arg2: Operand::Empty, result: Operand::Label(0) }
    );
    assert_eq!(quads[5].op, Op::Label);
    assert_eq!(quads[5].result, Operand::Label(1));
}

#[test]
fn while_re_evaluates_its_condition_each_iteration() {
    // while (a < b) { }  -- the comparison sits between the start label
    // and the conditional branch, inside the loop
    let stmt = Stmt::While {
        condition: binary(ident("a"), BinOp::Lt, ident("b")),
        body: Box::new(Stmt::Block(vec![])),
    };
    let mut g = IRGenerator::new();
    let quads = g.generate(&vec![stmt]);
    assert_eq!(quads.len(), 5);
    assert_eq!(quads[0].op, Op::Label);
    assert_eq!(
        quads[1],
        Quad { op: Op::Lt, arg1: name_op("a"), arg2: name_op("b"), result: Operand::Temp(0) }
    );
    assert_eq!(quads[2].op, Op::IfFalse);
    assert_eq!(quads[3].op, Op::Goto);
    assert_eq!(quads[3].result, Operand::Label(0));
    assert_eq!(quads[4].op, Op::Label);
}

#[test]
fn call_lowers_arguments_left_to_right_then_lands_in_a_temp() {
    // x = f(a + b, c);
    let call = Expr::Call {
        callee: Box::new(ident("f")),
        args: vec![binary(ident("a"), BinOp::Add, ident("b")), ident("c")],
    };
    let mut g = IRGenerator::new();
    let quads = g.generate(&vec![assign("x", call)]);
    assert_eq!(quads.len(), 3);
    assert_eq!(
        quads[0],
        Quad { op: Op::Add, arg1: name_op("a"), arg2: name_op("b"), result: Operand::Temp(0) }
    );
    assert_eq!(
        quads[1],
        Quad { op: Op::Call, arg1: name_op("f"), arg2: Operand::Empty, result: Operand::Temp(1) }
    );
    assert_eq!(
        quads[2],
        Quad { op: Op::Copy, arg1: Operand::Temp(1), arg2: Operand::Empty, result: name_op("x") }
    );
}

#[test]
fn let_and_return_and_unary_lowering() {
    let program = vec![
        Stmt::Let {
            name: String::from("n"),
            type_annot: None,
            value: Expr::Unary { op: UnOp::Neg, operand: Box::new(ident("m")) },
        },
        Stmt::Return(Some(ident("n"))),
        Stmt::Return(None),
    ];
    let mut g = IRGenerator::new();
    let quads = g.generate(&program);
    assert_eq!(quads.len(), 4);
    assert_eq!(
        quads[0],
        Quad { op: Op::Neg, arg1: name_op("m"), arg2: Operand::Empty, result: Operand::Temp(0) }
    );
    assert_eq!(
        quads[1],
        Quad { op: Op::Copy, arg1: Operand::Temp(0), arg2: Operand::Empty, result: name_op("n") }
    );
    assert_eq!(
        quads[2],
        Quad { op: Op::Ret, arg1: name_op("n"), arg2: Operand::Empty, result: Operand::Empty }
    );
    assert_eq!(
        quads[3],
        Quad { op: Op::Ret, arg1: Operand::Empty, arg2: Operand::Empty, result: Operand::Empty }
    );
}

#[test]
fn boolean_literals_are_their_own_place() {
    let mut g = IRGenerator::new();
    let quads = g.generate(&vec![assign("b", Expr::BoolLit(true))]);
    assert_eq!(
        quads[0],
        Quad { op: Op::Copy, arg1: name_op("true"), arg2: Operand::Empty, result: name_op("b") }
    );
}

#[test]
fn break_outside_a_loop_emits_nothing() {
    let mut g = IRGenerator::new();
    let quads = g.generate(&vec![Stmt::Break]);
    assert!(quads.is_empty());
}

#[test]
fn continue_with_no_enclosing_loop_emits_nothing() {
    let mut g = IRGenerator::new();
    g.generate_continue_stmt();
    assert!(g.quads().is_empty());
}

#[test]
fn statement_level_generation_appends_to_the_quad_list() {
    let mut g = IRGenerator::new();
    g.generate_statement(&assign("a", intlit("1")));
    g.generate_statement(&assign("b", intlit("2")));
    assert_eq!(g.quads().len(), 2);
    assert_eq!(g.quads()[0].result, name_op("a"));
    assert_eq!(g.quads()[1].result, name_op("b"));
}

#[test]
fn unhandled_operators_become_the_marked_placeholder() {
    assert_eq!(IRGenerator::token_type_to_op(BinOp::Add), Op::Add);
    assert_eq!(IRGenerator::token_type_to_op(BinOp::Ne), Op::Ne);
    assert_eq!(IRGenerator::token_type_to_op(BinOp::Pow), Op::Unhandled);
    assert_eq!(IRGenerator::token_type_to_op(BinOp::Shl), Op::Unhandled);
    let mut g = IRGenerator::new();
    let quads = g.generate(&vec![Stmt::Expr(binary(ident("a"), BinOp::Pow, ident("b")))]);
    assert_eq!(quads[0].op, Op::Unhandled);
    assert_eq!(
        quads[0].to_string(),
        "/* Unhandled Quad: op_unhandled a b _t0 */"
    );
}

#[test]
fn quads_render_in_their_stable_textual_form() {
    let copy = Quad::new(Op::Copy, name_op("y"), Operand::Empty, name_op("x"));
    assert_eq!(copy.to_string(), "x = y");
    let goto = Quad::new(Op::Goto, Operand::Empty, Operand::Empty, Operand::Label(2));
    assert_eq!(goto.to_string(), "goto _L2");
    let iff = Quad::new(Op::IfFalse, name_op("c"), Operand::Empty, Operand::Label(0));
    assert_eq!(iff.to_string(), "if_false c goto _L0");
    let add = Quad::new(Op::Add, name_op("a"), name_op("b"), Operand::Temp(3));
    assert_eq!(add.to_string(), "_t3 = a + b");
    let le = Quad::new(Op::Le, name_op("a"), name_op("b"), Operand::Temp(0));
    assert_eq!(le.to_string(), "_t0 = a <= b");
    let andq = Quad::new(Op::And, name_op("p"), name_op("q"), Operand::Temp(1));
    assert_eq!(andq.to_string(), "_t1 = p && q");
    let neg = Quad::new(Op::Neg, name_op("v"), Operand::Empty, Operand::Temp(0));
    assert_eq!(neg.to_string(), "_t0 = neg v");
    let notq = Quad::new(Op::Not, name_op("v"), Operand::Empty, Operand::Temp(0));
    assert_eq!(notq.to_string(), "_t0 = not v");
    let ret = Quad::new(Op::Ret, name_op("v"), Operand::Empty, Operand::Empty);
    assert_eq!(ret.to_string(), "return v");
    let ret_empty = Quad::new(Op::Ret, Operand::Empty, Operand::Empty, Operand::Empty);
    assert_eq!(ret_empty.to_string(), "return ");
    let label = Quad::new(Op::Label, Operand::Empty, Operand::Empty, Operand::Label(7));
    assert_eq!(label.to_string(), "_L7:");
    let call = Quad::new(Op::Call, name_op("f"), Operand::Empty, Operand::Temp(0));
    assert_eq!(call.to_string(), "/* Unhandled Quad: call f  _t0 */");
}

#[test]
fn decimal_rendering_handles_multi_digit_numbers() {
    assert_eq!(usize_to_dec(0), "0");
    assert_eq!(usize_to_dec(9), "9");
    assert_eq!(usize_to_dec(10), "10");
    assert_eq!(usize_to_dec(907), "907");
    let t = Quad::new(Op::Copy, Operand::Temp(12), Operand::Empty, name_op("x"));
    assert_eq!(t.to_string(), "x = _t12");
}

#[test]
fn for_statements_are_not_lowered() {
    let f = Stmt::For {
        init: None,
        condition: None,
        increment: None,
        body: Box::new(Stmt::Block(vec![assign("x", intlit("1"))])),
    };
    let mut g = IRGenerator::new();
    let quads = g.generate(&vec![f]);
    assert!(quads.is_empty());
}

#[test]
fn empty_program_generates_nothing() {
    let mut g = IRGenerator::new();
    let quads = g.generate(&vec![]);
    assert!(quads.is_empty());
}
