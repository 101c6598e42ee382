//! Static type checking, paired with scope population.
//!
//! Every check is stated twice: once as a spec function that gives the
//! typing rules mathematically, and once as executable code proved to
//! return exactly what the rules say. Checking never aborts: each failure
//! is recorded and traversal continues with a safe fallback, so one bad
//! expression never hides its siblings.

use vstd::prelude::*;
use crate::ast::{BinOp, Decl, Expr, Param, Program, Stmt, UnOp};
use crate::ast::{expr_size, stmt_size, stmts_size, lemma_stmts_size_elem};
use crate::scope::{ScopeError, ScopeStack, StackV, SymbolKind, SymbolKindV, Type};
use crate::scope::{enter_scope_spec, exit_scope_spec, function_lookup_spec, insert_definition_spec, insert_variable_spec, stack_wf, variable_lookup_spec};

verus! {

/// Failures found by the type checker.
#[derive(Clone, Copy, Debug, PartialEq, Eq, Structural)]
pub enum TypeChkError {
    ErroneousVarDecl,
    FnCallParamCount,
    FnCallParamType,
    ErroneousReturnType,
    ExpressionTypeMismatch,
    ExpectedBooleanExpression,
    ErroneousBreak,
    NonBooleanCondStmt,
    EmptyExpression,
    AttemptedBoolOpOnNonBools,
    AttemptedBitOpOnNonNumeric,
    AttemptedShiftOnNonInt,
    AttemptedAddOpOnNonNumeric,
    AttemptedExponentiationOfNonNumeric,
    ReturnStmtNotFound,
}

/// Is the type one of the two arithmetic ones?
pub open spec fn is_numeric(t: Type) -> bool {
    t == Type::Int || t == Type::Float
}

/// Typing rule for a unary operator applied to an operand of type `t`.
pub open spec fn unary_rule(op: UnOp, t: Type) -> Result<Type, TypeChkError> {
    match op {
        UnOp::Neg => if is_numeric(t) {
            Ok(t)
        } else {
            Err(TypeChkError::AttemptedAddOpOnNonNumeric)
        },
        UnOp::Not => if t == Type::Bool {
            Ok(Type::Bool)
        } else {
            Err(TypeChkError::AttemptedBoolOpOnNonBools)
        },
    }
}

/// Typing rule for a binary operator on operand types `lt` and `rt`.
/// Arithmetic takes two numeric operands and is Float as soon as one side
/// is; comparisons demand equal known types, with `Unknown` a wildcard,
/// and are always Bool.
pub open spec fn binary_rule(op: BinOp, lt: Type, rt: Type) -> Result<Type, TypeChkError> {
    match op {
        BinOp::Add | BinOp::Sub | BinOp::Mul | BinOp::Div | BinOp::Mod => if !is_numeric(lt)
            || !is_numeric(rt) {
            Err(TypeChkError::AttemptedAddOpOnNonNumeric)
        } else if lt == Type::Float || rt == Type::Float {
            Ok(Type::Float)
        } else {
            Ok(Type::Int)
        },
        BinOp::Pow => if !is_numeric(lt) || !is_numeric(rt) {
            Err(TypeChkError::AttemptedExponentiationOfNonNumeric)
        } else if lt == Type::Float || rt == Type::Float {
            Ok(Type::Float)
        } else {
            Ok(Type::Int)
        },
        BinOp::And | BinOp::Or => if lt != Type::Bool || rt != Type::Bool {
            Err(TypeChkError::AttemptedBoolOpOnNonBools)
        } else {
            Ok(Type::Bool)
        },
        BinOp::Shl | BinOp::Shr => if lt != Type::Int || rt != Type::Int {
            Err(TypeChkError::AttemptedShiftOnNonInt)
        } else {
            Ok(Type::Int)
        },
        BinOp::Eq | BinOp::Ne | BinOp::Lt | BinOp::Gt | BinOp::Le | BinOp::Ge => if lt
            == Type::Unknown || rt == Type::Unknown {
            Ok(Type::Bool)
        } else if lt != rt {
            Err(TypeChkError::ExpressionTypeMismatch)
        } else {
            Ok(Type::Bool)
        },
        BinOp::Assign => Ok(Type::Unknown),
    }
}

/// The type of an expression against a scope stack, or the first failure
/// found in evaluation order.
pub open spec fn type_of_expr(e: Expr, s: StackV) -> Result<Type, TypeChkError>
    decreases e,
{
    match e {
        Expr::Identifier(n) => match variable_lookup_spec(s, n@) {
            Ok(sym) => Ok(
                match sym.ty {
                    Some(t) => t,
                    None => Type::Unknown,
                },
            ),
            Err(_) => Err(TypeChkError::ErroneousVarDecl),
        },
        Expr::IntLit(_) => Ok(Type::Int),
        Expr::FloatLit(_) => Ok(Type::Float),
        Expr::BoolLit(_) => Ok(Type::Bool),
        Expr::StrLit(_) => Ok(Type::String),
        Expr::Unary { op, operand } => match type_of_expr(*operand, s) {
            Err(e) => Err(e),
            Ok(t) => unary_rule(op, t),
        },
        Expr::Binary { left, op, right } => match type_of_expr(*left, s) {
            Err(e) => Err(e),
            Ok(lt) => match type_of_expr(*right, s) {
                Err(e) => Err(e),
                Ok(rt) => binary_rule(op, lt, rt),
            },
        },
        Expr::Call { callee, args } => match *callee {
            Expr::Identifier(n) => match function_lookup_spec(s, n@) {
                Err(_) => Err(TypeChkError::ErroneousVarDecl),
                Ok(sym) => match sym.kind {
                    SymbolKindV::Function { params, return_type, .. } => if params.len()
                        != args@.len() {
                        Err(TypeChkError::FnCallParamCount)
                    } else {
                        match check_args(args@, params, s) {
                            Err(e) => Err(e),
                            Ok(_) => Ok(return_type),
                        }
                    },
                    _ => Err(TypeChkError::ErroneousVarDecl),
                },
            },
            _ => match type_of_expr(*callee, s) {
                Err(e) => Err(e),
                Ok(_) => match type_of_exprs(args@, s) {
                    Err(e) => Err(e),
                    Ok(_) => Ok(Type::Unknown),
                },
            },
        },
        Expr::Grouping(inner) => type_of_expr(*inner, s),
    }
}

/// Check call arguments, left to right, against the declared parameter
/// types; `Unknown` on either side is a wildcard.
pub open spec fn check_args(args: Seq<Expr>, params: Seq<Type>, s: StackV) -> Result<(), TypeChkError>
    decreases args,
{
    if args.len() == 0 {
        Ok(())
    } else {
        match type_of_expr(args[0], s) {
            Err(e) => Err(e),
            Ok(at) => {
                let pt = if params.len() > 0 {
                    params[0]
                } else {
                    Type::Unknown
                };
                if pt != Type::Unknown && at != Type::Unknown && pt != at {
                    Err(TypeChkError::FnCallParamType)
                } else {
                    check_args(args.drop_first(), params.drop_first(), s)
                }
            },
        }
    }
}

/// Type each expression in order, stopping at the first failure.
pub open spec fn type_of_exprs(es: Seq<Expr>, s: StackV) -> Result<(), TypeChkError>
    decreases es,
{
    if es.len() == 0 {
        Ok(())
    } else {
        match type_of_expr(es[0], s) {
            Err(e) => Err(e),
            Ok(_) => type_of_exprs(es.drop_first(), s),
        }
    }
}

/// Compute the type of `expr`: exactly what the `type_of_expr` rules say.
pub fn visit_expr(expr: &Expr, scope_stack: &ScopeStack) -> (r: Result<Type, TypeChkError>)
    requires
        stack_wf(scope_stack@),
    ensures
        r == type_of_expr(*expr, scope_stack@),
    decreases *expr, 0int,
{
    match expr {
        Expr::Identifier(n) => match scope_stack.lookup_variable(n) {
            Ok(sym) => match sym.ty {
                Some(t) => Ok(t),
                None => Ok(Type::Unknown),
            },
            Err(_) => Err(TypeChkError::ErroneousVarDecl),
        },
        Expr::IntLit(_) => Ok(Type::Int),
        Expr::FloatLit(_) => Ok(Type::Float),
        Expr::BoolLit(_) => Ok(Type::Bool),
        Expr::StrLit(_) => Ok(Type::String),
        Expr::Unary { op, operand } => match visit_expr(&**operand, scope_stack) {
            Err(e) => Err(e),
            Ok(t) => match op {
                UnOp::Neg => {
                    if matches!(t, Type::Int | Type::Float) {
                        Ok(t)
                    } else {
                        Err(TypeChkError::AttemptedAddOpOnNonNumeric)
                    }
                },
                UnOp::Not => {
                    if t == Type::Bool {
                        Ok(Type::Bool)
                    } else {
                        Err(TypeChkError::AttemptedBoolOpOnNonBools)
                    }
                },
            },
        },
        Expr::Binary { left, op, right } => match visit_expr(&**left, scope_stack) {
            Err(e) => Err(e),
            Ok(lt) => match visit_expr(&**right, scope_stack) {
                Err(e) => Err(e),
                Ok(rt) => apply_binary_rule(*op, lt, rt),
            },
        },
        Expr::Call { callee, args } => match &**callee {
            Expr::Identifier(n) => match scope_stack.lookup_function(n) {
                Err(_) => Err(TypeChkError::ErroneousVarDecl),
                Ok(sym) => match &sym.kind {
                    SymbolKind::Function { params, return_type, .. } => {
                        if params.len() != args.len() {
                            Err(TypeChkError::FnCallParamCount)
                        } else {
                            let chk = visit_args_from(args, params, 0, scope_stack);
                            proof {
                                assert(args@.skip(0) =~= args@);
                                assert(params@.skip(0) =~= params@);
                            }
                            match chk {
                                Err(e) => Err(e),
                                Ok(_) => Ok(*return_type),
                            }
                        }
                    },
                    _ => Err(TypeChkError::ErroneousVarDecl),
                },
            },
            _ => match visit_expr(&**callee, scope_stack) {
                Err(e) => Err(e),
                Ok(_) => {
                    let chk = visit_exprs_from(args, 0, scope_stack);
                    proof {
                        assert(args@.skip(0) =~= args@);
                    }
                    match chk {
                        Err(e) => Err(e),
                        Ok(_) => Ok(Type::Unknown),
                    }
                },
            },
        },
        Expr::Grouping(inner) => visit_expr(&**inner, scope_stack),
    }
}

/// Executable form of `binary_rule`.
fn apply_binary_rule(op: BinOp, lt: Type, rt: Type) -> (r: Result<Type, TypeChkError>)
    ensures
        r == binary_rule(op, lt, rt),
{
    match op {
        BinOp::Add | BinOp::Sub | BinOp::Mul | BinOp::Div | BinOp::Mod => {
            if !(matches!(lt, Type::Int | Type::Float)) || !(matches!(rt, Type::Int | Type::Float)) {
                Err(TypeChkError::AttemptedAddOpOnNonNumeric)
            } else if lt == Type::Float || rt == Type::Float {
                Ok(Type::Float)
            } else {
                Ok(Type::Int)
            }
        },
        BinOp::Pow => {
            if !(matches!(lt, Type::Int | Type::Float)) || !(matches!(rt, Type::Int | Type::Float)) {
                Err(TypeChkError::AttemptedExponentiationOfNonNumeric)
            } else if lt == Type::Float || rt == Type::Float {
                Ok(Type::Float)
            } else {
                Ok(Type::Int)
            }
        },
        BinOp::And | BinOp::Or => {
            if lt != Type::Bool || rt != Type::Bool {
                Err(TypeChkError::AttemptedBoolOpOnNonBools)
            } else {
                Ok(Type::Bool)
            }
        },
        BinOp::Shl | BinOp::Shr => {
            if lt != Type::Int || rt != Type::Int {
                Err(TypeChkError::AttemptedShiftOnNonInt)
            } else {
                Ok(Type::Int)
            }
        },
        BinOp::Eq | BinOp::Ne | BinOp::Lt | BinOp::Gt | BinOp::Le | BinOp::Ge => {
            if lt == Type::Unknown || rt == Type::Unknown {
                Ok(Type::Bool)
            } else if lt != rt {
                Err(TypeChkError::ExpressionTypeMismatch)
            } else {
                Ok(Type::Bool)
            }
        },
        BinOp::Assign => Ok(Type::Unknown),
    }
}


/// Check the arguments from position `i` on.
fn visit_args_from(args: &Vec<Expr>, params: &Vec<Type>, i: usize, scope_stack: &ScopeStack) -> (r: Result<(), TypeChkError>)
    requires
        stack_wf(scope_stack@),
        i <= args.len(),
        params.len() == args.len(),
    ensures
        r == check_args(args@.skip(i as int), params@.skip(i as int), scope_stack@),
    decreases args@, args@.len() - i,
{
    if i == args.len() {
        assert(args@.skip(i as int) =~= Seq::<Expr>::empty());
        Ok(())
    } else {
        proof {
            assert(args@.skip(i as int)[0] == args@[i as int]);
        }
        match visit_expr(&args[i], scope_stack) {
            Err(e) => Err(e),
            Ok(at) => {
                let pt = params[i];
                proof {
                    assert(params@.skip(i as int)[0] == params@[i as int]);
                }
                if pt != Type::Unknown && at != Type::Unknown && pt != at {
                    Err(TypeChkError::FnCallParamType)
                } else {
                    let r = visit_args_from(args, params, i + 1, scope_stack);
                    proof {
                        assert(args@.skip(i as int).drop_first() =~= args@.skip(i as int + 1));
                        assert(params@.skip(i as int).drop_first() =~= params@.skip(i as int + 1));
                    }
                    r
                }
            },
        }
    }
}

/// Joint state of one semantic-analysis run: the scope stack and the two
/// ordered diagnostic lists.
#[verifier::ext_equal]
pub ghost struct SemState {
    pub stack: StackV,
    pub serrs: Seq<ScopeError>,
    pub terrs: Seq<TypeChkError>,
}

/// Scope errors recorded while resolving `e`, in evaluation order.
pub open spec fn expr_scope_errs(e: Expr, s: StackV) -> Seq<ScopeError>
    decreases e,
{
    match e {
        Expr::Identifier(n) => match variable_lookup_spec(s, n@) {
            Ok(_) => seq![],
            Err(er) => seq![er],
        },
        Expr::Unary { operand, .. } => expr_scope_errs(*operand, s),
        Expr::Binary { left, right, .. } => expr_scope_errs(*left, s) + expr_scope_errs(*right, s),
        Expr::Call { callee, args } => expr_scope_errs(*callee, s) + exprs_scope_errs(args@, s) + (
        match *callee {
            Expr::Identifier(n) => match function_lookup_spec(s, n@) {
                Ok(_) => seq![],
                Err(er) => seq![er],
            },
            _ => seq![],
        }),
        Expr::Grouping(inner) => expr_scope_errs(*inner, s),
        _ => seq![],
    }
}

/// Scope errors of a sequence of expressions, in order.
pub open spec fn exprs_scope_errs(es: Seq<Expr>, s: StackV) -> Seq<ScopeError>
    decreases es,
{
    if es.len() == 0 {
        seq![]
    } else {
        expr_scope_errs(es[0], s) + exprs_scope_errs(es.drop_first(), s)
    }
}

/// The one type error, if any, that typing `e` as a whole yields.
pub open spec fn expr_top_type_err(e: Expr, s: StackV) -> Seq<TypeChkError> {
    match type_of_expr(e, s) {
        Ok(_) => seq![],
        Err(er) => seq![er],
    }
}

/// Type errors recorded while analyzing `e`: each subexpression is visited
/// on its own, then the whole expression, so an inner failure is reported
/// at every enclosing level it propagates through.
pub open spec fn expr_type_errs(e: Expr, s: StackV) -> Seq<TypeChkError>
    decreases e,
{
    (match e {
        Expr::Unary { operand, .. } => expr_type_errs(*operand, s),
        Expr::Binary { left, right, .. } => expr_type_errs(*left, s) + expr_type_errs(*right, s),
        Expr::Call { callee, args } => expr_type_errs(*callee, s) + exprs_type_errs(args@, s),
        Expr::Grouping(inner) => expr_type_errs(*inner, s),
        _ => seq![],
    }) + expr_top_type_err(e, s)
}

/// Type errors of a sequence of expressions, in order.
pub open spec fn exprs_type_errs(es: Seq<Expr>, s: StackV) -> Seq<TypeChkError>
    decreases es,
{
    if es.len() == 0 {
        seq![]
    } else {
        expr_type_errs(es[0], s) + exprs_type_errs(es.drop_first(), s)
    }
}

/// Effect of analyzing one expression: the stack is untouched and both
/// diagnostic lists grow by the errors the expression yields.
pub open spec fn analyze_expr_spec(e: Expr, st: SemState) -> SemState {
    SemState {
        stack: st.stack,
        serrs: st.serrs + expr_scope_errs(e, st.stack),
        terrs: st.terrs + expr_type_errs(e, st.stack),
    }
}

/// Type errors a statement condition yields: its own failure, or
/// `NonBooleanCondStmt` when it types to something other than Bool.
pub open spec fn cond_type_errs(c: Expr, s: StackV) -> Seq<TypeChkError> {
    match type_of_expr(c, s) {
        Ok(t) => if t != Type::Bool {
            seq![TypeChkError::NonBooleanCondStmt]
        } else {
            seq![]
        },
        Err(er) => seq![er],
    }
}

/// Effect of analyzing one statement: scope population and both
/// diagnostic lists, exactly as the checking rules say.
pub open spec fn analyze_stmt_spec(s: Stmt, st: SemState, ret: Option<Type>) -> SemState
    decreases s,
{
    match s {
        Stmt::Expr(e) => analyze_expr_spec(e, st),
        Stmt::Let { name, type_annot, value } => {
            let st1 = analyze_expr_spec(value, st);
            let ty = match type_annot {
                Some(t) => t,
                None => Type::Void,
            };
            let (stk2, r) = insert_variable_spec(st1.stack, name@, ty, false, true);
            SemState {
                stack: stk2,
                serrs: match r {
                    Ok(_) => st1.serrs,
                    Err(er) => st1.serrs.push(er),
                },
                terrs: st1.terrs,
            }
        },
        Stmt::Block(stmts) => {
            let st1 = SemState { stack: enter_scope_spec(st.stack), serrs: st.serrs, terrs: st.terrs };
            let st2 = analyze_stmts_spec(stmts@, st1, ret);
            SemState { stack: exit_scope_spec(st2.stack), serrs: st2.serrs, terrs: st2.terrs }
        },
        Stmt::Return(opt) => match opt {
            Some(e) => {
                let (ty, terrs1) = match type_of_expr(e, st.stack) {
                    Ok(t) => (t, st.terrs),
                    Err(er) => (Type::Void, st.terrs.push(er)),
                };
                let terrs2 = match ret {
                    Some(expected) => if expected == Type::Void {
                        // a value is present though the function returns nothing
                        terrs1.push(TypeChkError::ErroneousReturnType)
                    } else if expected != Type::Unknown && expected != ty {
                        terrs1.push(TypeChkError::ErroneousReturnType)
                    } else {
                        terrs1
                    },
                    None => terrs1,
                };
                SemState { stack: st.stack, serrs: st.serrs, terrs: terrs2 }
            },
            None => {
                let terrs2 = match ret {
                    Some(expected) => if expected != Type::Void && expected != Type::Unknown {
                        st.terrs.push(TypeChkError::ErroneousReturnType)
                    } else {
                        st.terrs
                    },
                    None => st.terrs,
                };
                SemState { stack: st.stack, serrs: st.serrs, terrs: terrs2 }
            },
        },
        Stmt::Break => if st.stack.loop_depth == 0 {
            SemState {
                stack: st.stack,
                serrs: st.serrs,
                terrs: st.terrs.push(TypeChkError::ErroneousBreak),
            }
        } else {
            st
        },
        Stmt::If { condition, then_branch, else_branch } => {
            let st1 = SemState {
                stack: st.stack,
                serrs: st.serrs,
                terrs: st.terrs + cond_type_errs(condition, st.stack),
            };
            let st2 = analyze_stmt_spec(*then_branch, st1, ret);
            match else_branch {
                Some(e) => analyze_stmt_spec(*e, st2, ret),
                None => st2,
            }
        },
        Stmt::While { condition, body } => {
            let st1 = SemState {
                stack: st.stack,
                serrs: st.serrs,
                terrs: st.terrs + cond_type_errs(condition, st.stack),
            };
            let st2 = SemState {
                stack: StackV { frames: st1.stack.frames, loop_depth: st1.stack.loop_depth + 1 },
                serrs: st1.serrs,
                terrs: st1.terrs,
            };
            let st3 = analyze_stmt_spec(*body, st2, ret);
            SemState {
                stack: StackV {
                    frames: st3.stack.frames,
                    loop_depth: (st3.stack.loop_depth - 1) as nat,
                },
                serrs: st3.serrs,
                terrs: st3.terrs,
            }
        },
        Stmt::For { init, condition, increment, body } => {
            let st1 = SemState {
                stack: StackV {
                    frames: enter_scope_spec(st.stack).frames,
                    loop_depth: st.stack.loop_depth + 1,
                },
                serrs: st.serrs,
                terrs: st.terrs,
            };
            let st2 = match init {
                Some(i) => analyze_stmt_spec(*i, st1, ret),
                None => st1,
            };
            let st3 = match condition {
                Some(c) => SemState {
                    stack: st2.stack,
                    serrs: st2.serrs,
                    terrs: st2.terrs + cond_type_errs(c, st2.stack),
                },
                None => st2,
            };
            let st4 = match increment {
                Some(ic) => analyze_expr_spec(ic, st3),
                None => st3,
            };
            let st5 = analyze_stmt_spec(*body, st4, ret);
            SemState {
                stack: StackV {
                    frames: exit_scope_spec(st5.stack).frames,
                    loop_depth: (st5.stack.loop_depth - 1) as nat,
                },
                serrs: st5.serrs,
                terrs: st5.terrs,
            }
        },
    }
}

/// Effect of analyzing a sequence of statements, in order.
pub open spec fn analyze_stmts_spec(ss: Seq<Stmt>, st: SemState, ret: Option<Type>) -> SemState
    decreases ss,
{
    if ss.len() == 0 {
        st
    } else {
        analyze_stmts_spec(ss.drop_first(), analyze_stmt_spec(ss[0], st, ret), ret)
    }
}

/// Analyzing a statement keeps the stack well formed, restores the frame
/// count and loop depth, and only appends to the diagnostic lists.
pub proof fn lemma_analyze_stmt_preserves(s: Stmt, st: SemState, ret: Option<Type>)
    requires
        stack_wf(st.stack),
    ensures
        ({
            let post = analyze_stmt_spec(s, st, ret);
            &&& stack_wf(post.stack)
            &&& post.stack.frames.len() == st.stack.frames.len()
            &&& post.stack.loop_depth == st.stack.loop_depth
            &&& post.serrs.len() >= st.serrs.len()
            &&& post.terrs.len() >= st.terrs.len()
            &&& (forall|i: int| 0 <= i < st.serrs.len() ==> post.serrs[i] == st.serrs[i])
            &&& (forall|i: int| 0 <= i < st.terrs.len() ==> post.terrs[i] == st.terrs[i])
        }),
    decreases s,
{
    match s {
        Stmt::Expr(_) => {},
        Stmt::Let { name, type_annot, value } => {
            let st1 = analyze_expr_spec(value, st);
            let ty = match type_annot {
                Some(t) => t,
                None => Type::Void,
            };
            crate::scope::lemma_insert_variable_preserves(st1.stack, name@, ty, false, true);
        },
        Stmt::Block(stmts) => {
            let st1 = SemState { stack: enter_scope_spec(st.stack), serrs: st.serrs, terrs: st.terrs };
            crate::scope::lemma_enter_scope_preserves(st.stack);
            lemma_analyze_stmts_preserves(stmts@, st1, ret);
            let st2 = analyze_stmts_spec(stmts@, st1, ret);
            crate::scope::lemma_exit_scope_preserves(st2.stack);
        },
        Stmt::Return(_) => {},
        Stmt::Break => {},
        Stmt::If { condition, then_branch, else_branch } => {
            let st1 = SemState {
                stack: st.stack,
                serrs: st.serrs,
                terrs: st.terrs + cond_type_errs(condition, st.stack),
            };
            lemma_analyze_stmt_preserves(*then_branch, st1, ret);
            let st2 = analyze_stmt_spec(*then_branch, st1, ret);
            match else_branch {
                Some(e) => {
                    lemma_analyze_stmt_preserves(*e, st2, ret);
                },
                None => {},
            }
        },
        Stmt::While { condition, body } => {
            let st1 = SemState {
                stack: st.stack,
                serrs: st.serrs,
                terrs: st.terrs + cond_type_errs(condition, st.stack),
            };
            let st2 = SemState {
                stack: StackV { frames: st1.stack.frames, loop_depth: st1.stack.loop_depth + 1 },
                serrs: st1.serrs,
                terrs: st1.terrs,
            };
            lemma_analyze_stmt_preserves(*body, st2, ret);
        },
        Stmt::For { init, condition, increment, body } => {
            let st1 = SemState {
                stack: StackV {
                    frames: enter_scope_spec(st.stack).frames,
                    loop_depth: st.stack.loop_depth + 1,
                },
                serrs: st.serrs,
                terrs: st.terrs,
            };
            crate::scope::lemma_enter_scope_preserves(st.stack);
            let st2 = match init {
                Some(i) => {
                    lemma_analyze_stmt_preserves(*i, st1, ret);
                    analyze_stmt_spec(*i, st1, ret)
                },
                None => st1,
            };
            let st3 = match condition {
                Some(c) => SemState {
                    stack: st2.stack,
                    serrs: st2.serrs,
                    terrs: st2.terrs + cond_type_errs(c, st2.stack),
                },
                None => st2,
            };
            let st4 = match increment {
                Some(ic) => analyze_expr_spec(ic, st3),
                None => st3,
            };
            lemma_analyze_stmt_preserves(*body, st4, ret);
            let st5 = analyze_stmt_spec(*body, st4, ret);
            crate::scope::lemma_exit_scope_preserves(st5.stack);
        },
    }
}

/// Sequence version of `lemma_analyze_stmt_preserves`.
pub proof fn lemma_analyze_stmts_preserves(ss: Seq<Stmt>, st: SemState, ret: Option<Type>)
    requires
        stack_wf(st.stack),
    ensures
        ({
            let post = analyze_stmts_spec(ss, st, ret);
            &&& stack_wf(post.stack)
            &&& post.stack.frames.len() == st.stack.frames.len()
            &&& post.stack.loop_depth == st.stack.loop_depth
            &&& post.serrs.len() >= st.serrs.len()
            &&& post.terrs.len() >= st.terrs.len()
            &&& (forall|i: int| 0 <= i < st.serrs.len() ==> post.serrs[i] == st.serrs[i])
            &&& (forall|i: int| 0 <= i < st.terrs.len() ==> post.terrs[i] == st.terrs[i])
        }),
    decreases ss,
{
    if ss.len() > 0 {
        lemma_analyze_stmt_preserves(ss[0], st, ret);
        lemma_analyze_stmts_preserves(ss.drop_first(), analyze_stmt_spec(ss[0], st, ret), ret);
    }
}

/// Type each expression from position `i` on, stopping at the first
/// failure.
fn visit_exprs_from(args: &Vec<Expr>, i: usize, scope_stack: &ScopeStack) -> (r: Result<(), TypeChkError>)
    requires
        stack_wf(scope_stack@),
        i <= args.len(),
    ensures
        r == type_of_exprs(args@.skip(i as int), scope_stack@),
    decreases args@, args@.len() - i,
{
    if i == args.len() {
        assert(args@.skip(i as int) =~= Seq::<Expr>::empty());
        Ok(())
    } else {
        proof {
            assert(args@.skip(i as int)[0] == args@[i as int]);
        }
        match visit_expr(&args[i], scope_stack) {
            Err(e) => Err(e),
            Ok(_) => {
                let r = visit_exprs_from(args, i + 1, scope_stack);
                proof {
                    assert(args@.skip(i as int).drop_first() =~= args@.skip(i as int + 1));
                }
                r
            },
        }
    }
}


/// Record the scope and type errors of one expression, in order; the
/// scope stack is only read.
pub fn analyze_expr(expr: &Expr, scope_stack: &ScopeStack, scope_errors: &mut Vec<ScopeError>, typechk_errors: &mut Vec<TypeChkError>)
    requires
        stack_wf(scope_stack@),
    ensures
        final(scope_errors)@ == old(scope_errors)@ + expr_scope_errs(*expr, scope_stack@),
        final(typechk_errors)@ == old(typechk_errors)@ + expr_type_errs(*expr, scope_stack@),
    decreases *expr, 0int,
{
    let ghost s = scope_stack@;
    match expr {
        Expr::Identifier(n) => {
            match scope_stack.lookup_variable(n) {
                Err(e) => {
                    scope_errors.push(e);
                    proof {
                        assert(scope_errors@ =~= old(scope_errors)@ + expr_scope_errs(*expr, s));
                    }
                },
                Ok(_) => {
                    proof {
                        assert(scope_errors@ =~= old(scope_errors)@ + expr_scope_errs(*expr, s));
                    }
                },
            }
        },
        Expr::Unary { operand, .. } => {
            analyze_expr(&**operand, scope_stack, scope_errors, typechk_errors);
        },
        Expr::Binary { left, right, .. } => {
            analyze_expr(&**left, scope_stack, scope_errors, typechk_errors);
            analyze_expr(&**right, scope_stack, scope_errors, typechk_errors);
            proof {
                assert(scope_errors@ =~= old(scope_errors)@ + expr_scope_errs(*expr, s));
                assert(typechk_errors@ =~= old(typechk_errors)@ + (expr_type_errs(**left, s)
                    + expr_type_errs(**right, s)));
            }
        },
        Expr::Call { callee, args } => {
            analyze_expr(&**callee, scope_stack, scope_errors, typechk_errors);
            analyze_exprs_from(args, 0, scope_stack, scope_errors, typechk_errors);
            proof {
                assert(args@.skip(0) =~= args@);
            }
            match &**callee {
                Expr::Identifier(n) => {
                    match scope_stack.lookup_function(n) {
                        Err(e) => {
                            scope_errors.push(e);
                        },
                        Ok(_) => {},
                    }
                },
                _ => {},
            }
            proof {
                assert(scope_errors@ =~= old(scope_errors)@ + expr_scope_errs(*expr, s));
                assert(typechk_errors@ =~= old(typechk_errors)@ + (expr_type_errs(**callee, s)
                    + exprs_type_errs(args@, s)));
            }
        },
        Expr::Grouping(inner) => {
            analyze_expr(&**inner, scope_stack, scope_errors, typechk_errors);
        },
        _ => {
            proof {
                assert(scope_errors@ =~= old(scope_errors)@ + expr_scope_errs(*expr, s));
            }
        },
    }
    let ghost terrs_mid = typechk_errors@;
    match visit_expr(expr, scope_stack) {
        Err(e) => {
            typechk_errors.push(e);
            proof {
                assert(typechk_errors@ =~= terrs_mid + expr_top_type_err(*expr, s));
            }
        },
        Ok(_) => {
            proof {
                assert(typechk_errors@ =~= terrs_mid + expr_top_type_err(*expr, s));
            }
        },
    }
    proof {
        assert(typechk_errors@ =~= old(typechk_errors)@ + expr_type_errs(*expr, s));
        assert(scope_errors@ =~= old(scope_errors)@ + expr_scope_errs(*expr, s));
    }
}

/// Record the errors of each expression from position `i` on, in order.
fn analyze_exprs_from(args: &Vec<Expr>, i: usize, scope_stack: &ScopeStack, scope_errors: &mut Vec<ScopeError>, typechk_errors: &mut Vec<TypeChkError>)
    requires
        stack_wf(scope_stack@),
        i <= args.len(),
    ensures
        final(scope_errors)@ == old(scope_errors)@ + exprs_scope_errs(args@.skip(i as int), scope_stack@),
        final(typechk_errors)@ == old(typechk_errors)@ + exprs_type_errs(args@.skip(i as int), scope_stack@),
    decreases args@, args@.len() - i,
{
    let ghost s = scope_stack@;
    if i == args.len() {
        proof {
            assert(args@.skip(i as int) =~= Seq::<Expr>::empty());
            assert(scope_errors@ =~= old(scope_errors)@ + exprs_scope_errs(args@.skip(i as int), s));
            assert(typechk_errors@ =~= old(typechk_errors)@ + exprs_type_errs(args@.skip(i as int), s));
        }
    } else {
        proof {
            assert(args@.skip(i as int)[0] == args@[i as int]);
        }
        analyze_expr(&args[i], scope_stack, scope_errors, typechk_errors);
        analyze_exprs_from(args, i + 1, scope_stack, scope_errors, typechk_errors);
        proof {
            assert(args@.skip(i as int).drop_first() =~= args@.skip(i as int + 1));
            assert(scope_errors@ =~= old(scope_errors)@ + exprs_scope_errs(args@.skip(i as int), s));
            assert(typechk_errors@ =~= old(typechk_errors)@ + exprs_type_errs(args@.skip(i as int), s));
        }
    }
}

/// Analyze one statement: populate scopes and record both kinds of
/// diagnostics, exactly as `analyze_stmt_spec` says. Checking never
/// aborts; failed parts fall back to `Unknown`/`Void` so siblings are
/// still checked.
#[verifier::rlimit(60)]
pub fn analyze_stmt(stmt: &Stmt, scope_stack: &mut ScopeStack, scope_errors: &mut Vec<ScopeError>, typechk_errors: &mut Vec<TypeChkError>, current_return_type: Option<Type>)
    requires
        stack_wf(old(scope_stack)@),
        old(scope_stack)@.loop_depth + stmt_size(*stmt) <= usize::MAX,
    ensures
        ({
            let post = analyze_stmt_spec(
                *stmt,
                SemState {
                    stack: old(scope_stack)@,
                    serrs: old(scope_errors)@,
                    terrs: old(typechk_errors)@,
                },
                current_return_type,
            );
            &&& final(scope_stack)@ == post.stack
            &&& final(scope_errors)@ == post.serrs
            &&& final(typechk_errors)@ == post.terrs
        }),
        stack_wf(final(scope_stack)@),
    decreases *stmt,
{
    let ghost st0 = SemState {
        stack: old(scope_stack)@,
        serrs: old(scope_errors)@,
        terrs: old(typechk_errors)@,
    };
    proof {
        lemma_analyze_stmt_preserves(*stmt, st0, current_return_type);
    }
    match stmt {
        Stmt::Expr(e) => {
            analyze_expr(e, scope_stack, scope_errors, typechk_errors);
        },
        Stmt::Let { name, type_annot, value } => {
            analyze_expr(value, scope_stack, scope_errors, typechk_errors);
            let ty = match type_annot {
                Some(t) => *t,
                None => Type::Void,
            };
            match scope_stack.insert_variable(name.clone(), ty, false, true) {
                Err(e) => {
                    scope_errors.push(e);
                },
                Ok(_) => {},
            }
        },
        Stmt::Block(stmts) => {
            scope_stack.enter_scope();
            proof {
                crate::scope::lemma_enter_scope_preserves(st0.stack);
                assert(stmts@.skip(0) =~= stmts@);
            }
            analyze_stmts_from(stmts, 0, scope_stack, scope_errors, typechk_errors, current_return_type);
            proof {
                lemma_analyze_stmts_preserves(
                    stmts@,
                    SemState {
                        stack: enter_scope_spec(st0.stack),
                        serrs: st0.serrs,
                        terrs: st0.terrs,
                    },
                    current_return_type,
                );
            }
            scope_stack.exit_scope();
        },
        Stmt::Return(opt) => {
            match opt {
                Some(e) => {
                    let ty = match visit_expr(e, scope_stack) {
                        Ok(t) => t,
                        Err(er) => {
                            typechk_errors.push(er);
                            Type::Void
                        },
                    };
                    match current_return_type {
                        Some(expected) => {
                            if expected == Type::Void {
                                typechk_errors.push(TypeChkError::ErroneousReturnType);
                            } else if expected != Type::Unknown && expected != ty {
                                typechk_errors.push(TypeChkError::ErroneousReturnType);
                            }
                        },
                        None => {},
                    }
                },
                None => {
                    match current_return_type {
                        Some(expected) => {
                            if expected != Type::Void && expected != Type::Unknown {
                                typechk_errors.push(TypeChkError::ErroneousReturnType);
                            }
                        },
                        None => {},
                    }
                },
            }
        },
        Stmt::Break => {
            if !scope_stack.in_loop() {
                typechk_errors.push(TypeChkError::ErroneousBreak);
            }
        },
        Stmt::If { condition, then_branch, else_branch } => {
            match visit_expr(condition, scope_stack) {
                Ok(t) => {
                    if t != Type::Bool {
                        typechk_errors.push(TypeChkError::NonBooleanCondStmt);
                    }
                },
                Err(e) => {
                    typechk_errors.push(e);
                },
            }
            let ghost st1 = SemState {
                stack: scope_stack@,
                serrs: scope_errors@,
                terrs: typechk_errors@,
            };
            proof {
                assert(st1.terrs =~= st0.terrs + cond_type_errs(*condition, st0.stack));
            }
            analyze_stmt(&**then_branch, scope_stack, scope_errors, typechk_errors, current_return_type);
            proof {
                lemma_analyze_stmt_preserves(**then_branch, st1, current_return_type);
            }
            match else_branch {
                Some(e) => {
                    analyze_stmt(&**e, scope_stack, scope_errors, typechk_errors, current_return_type);
                },
                None => {},
            }
        },
        Stmt::While { condition, body } => {
            match visit_expr(condition, scope_stack) {
                Ok(t) => {
                    if t != Type::Bool {
                        typechk_errors.push(TypeChkError::NonBooleanCondStmt);
                    }
                },
                Err(e) => {
                    typechk_errors.push(e);
                },
            }
            proof {
                assert(typechk_errors@ =~= st0.terrs + cond_type_errs(*condition, st0.stack));
            }
            scope_stack.enter_loop();
            let ghost st2 = SemState {
                stack: scope_stack@,
                serrs: scope_errors@,
                terrs: typechk_errors@,
            };
            analyze_stmt(&**body, scope_stack, scope_errors, typechk_errors, current_return_type);
            proof {
                lemma_analyze_stmt_preserves(**body, st2, current_return_type);
            }
            scope_stack.exit_loop();
        },
        Stmt::For { init, condition, increment, body } => {
            scope_stack.enter_scope();
            scope_stack.enter_loop();
            proof {
                crate::scope::lemma_enter_scope_preserves(st0.stack);
            }
            let ghost st1 = SemState {
                stack: scope_stack@,
                serrs: scope_errors@,
                terrs: typechk_errors@,
            };
            match init {
                Some(i) => {
                    analyze_stmt(&**i, scope_stack, scope_errors, typechk_errors, current_return_type);
                    proof {
                        lemma_analyze_stmt_preserves(**i, st1, current_return_type);
                    }
                },
                None => {},
            }
            let ghost st2 = SemState {
                stack: scope_stack@,
                serrs: scope_errors@,
                terrs: typechk_errors@,
            };
            match condition {
                Some(c) => {
                    match visit_expr(c, scope_stack) {
                        Ok(t) => {
                            if t != Type::Bool {
                                typechk_errors.push(TypeChkError::NonBooleanCondStmt);
                            }
                        },
                        Err(e) => {
                            typechk_errors.push(e);
                        },
                    }
                    proof {
                        assert(typechk_errors@ =~= st2.terrs + cond_type_errs(*c, st2.stack));
                    }
                },
                None => {},
            }
            match increment {
                Some(ic) => {
                    analyze_expr(ic, scope_stack, scope_errors, typechk_errors);
                },
                None => {},
            }
            let ghost st4 = SemState {
                stack: scope_stack@,
                serrs: scope_errors@,
                terrs: typechk_errors@,
            };
            analyze_stmt(&**body, scope_stack, scope_errors, typechk_errors, current_return_type);
            proof {
                lemma_analyze_stmt_preserves(**body, st4, current_return_type);
            }
            scope_stack.exit_scope();
            scope_stack.exit_loop();
        },
    }
}

/// Analyze the statements from position `i` on, in order.
fn analyze_stmts_from(stmts: &Vec<Stmt>, i: usize, scope_stack: &mut ScopeStack, scope_errors: &mut Vec<ScopeError>, typechk_errors: &mut Vec<TypeChkError>, current_return_type: Option<Type>)
    requires
        stack_wf(old(scope_stack)@),
        i <= stmts.len(),
        old(scope_stack)@.loop_depth + stmts_size(stmts@) <= usize::MAX,
    ensures
        ({
            let post = analyze_stmts_spec(
                stmts@.skip(i as int),
                SemState {
                    stack: old(scope_stack)@,
                    serrs: old(scope_errors)@,
                    terrs: old(typechk_errors)@,
                },
                current_return_type,
            );
            &&& final(scope_stack)@ == post.stack
            &&& final(scope_errors)@ == post.serrs
            &&& final(typechk_errors)@ == post.terrs
        }),
        stack_wf(final(scope_stack)@),
    decreases stmts@, stmts@.len() - i,
{
    if i < stmts.len() {
        proof {
            assert(stmts@.skip(i as int)[0] == stmts@[i as int]);
            lemma_stmts_size_elem(stmts@, i as int);
        }
        let ghost cur = SemState {
            stack: scope_stack@,
            serrs: scope_errors@,
            terrs: typechk_errors@,
        };
        analyze_stmt(&stmts[i], scope_stack, scope_errors, typechk_errors, current_return_type);
        proof {
            lemma_analyze_stmt_preserves(stmts@[i as int], cur, current_return_type);
        }
        analyze_stmts_from(stmts, i + 1, scope_stack, scope_errors, typechk_errors, current_return_type);
        proof {
            assert(stmts@.skip(i as int).drop_first() =~= stmts@.skip(i as int + 1));
        }
    } else {
        proof {
            assert(stmts@.skip(i as int) =~= Seq::<Stmt>::empty());
        }
    }
}

/// Node count of one top-level declaration.
pub open spec fn decl_size(d: Decl) -> nat {
    match d {
        Decl::Function { body, .. } => 1 + stmt_size(*body),
        Decl::GlobalVar { value, .. } => 1 + (match value {
            Some(e) => expr_size(e),
            None => 0,
        }),
        Decl::Stmt(s) => 1 + stmt_size(s),
    }
}

/// Total node count of a sequence of declarations.
pub open spec fn decls_size(ds: Seq<Decl>) -> nat
    decreases ds,
{
    if ds.len() == 0 {
        0
    } else {
        decl_size(ds[0]) + decls_size(ds.drop_first())
    }
}

/// Every element of a sequence weighs no more than the whole.
pub proof fn lemma_decls_size_elem(ds: Seq<Decl>, i: int)
    requires
        0 <= i < ds.len(),
    ensures
        decl_size(ds[i]) <= decls_size(ds),
    decreases ds.len(),
{
    if i > 0 {
        lemma_decls_size_elem(ds.drop_first(), i - 1);
        assert(ds.drop_first()[i - 1] == ds[i]);
    }
}

/// Declared parameter types, in order.
pub open spec fn param_types(ps: Seq<Param>) -> Seq<Type> {
    Seq::new(ps.len(), |i: int| ps[i].param_type)
}

/// Effect of binding the parameters in the function's own scope. A clash
/// among parameter names is silently dropped: the first binding stays.
pub open spec fn insert_params_spec(ps: Seq<Param>, stk: StackV) -> StackV
    decreases ps,
{
    if ps.len() == 0 {
        stk
    } else {
        let (stk1, r) = insert_variable_spec(stk, ps[0].name@, ps[0].param_type, false, true);
        insert_params_spec(ps.drop_first(), stk1)
    }
}

/// `insert_params_spec` keeps the stack well formed and leaves the frame
/// count and loop depth alone.
pub proof fn lemma_insert_params_preserves(ps: Seq<Param>, stk: StackV)
    requires
        stack_wf(stk),
    ensures
        ({
            let t = insert_params_spec(ps, stk);
            &&& stack_wf(t)
            &&& t.frames.len() == stk.frames.len()
            &&& t.loop_depth == stk.loop_depth
        }),
    decreases ps,
{
    if ps.len() > 0 {
        crate::scope::lemma_insert_variable_preserves(stk, ps[0].name@, ps[0].param_type, false, true);
        let (stk1, r) = insert_variable_spec(stk, ps[0].name@, ps[0].param_type, false, true);
        lemma_insert_params_preserves(ps.drop_first(), stk1);
    }
}

/// Effect of analyzing one top-level declaration. A global variable is
/// bound in the current scope, then its initializer is analyzed; a
/// function is bound as a definition, and its body is analyzed in a fresh
/// scope holding the parameters; a bare statement is analyzed in place.
/// A clashing top-level name records the error the insertion returned.
pub open spec fn analyze_decl_spec(d: Decl, st: SemState) -> SemState {
    match d {
        Decl::GlobalVar { name, type_annot, value } => {
            let ty = match type_annot {
                Some(t) => t,
                None => Type::Void,
            };
            let (stk1, r) = insert_variable_spec(st.stack, name@, ty, true, value is Some);
            let st1 = SemState {
                stack: stk1,
                serrs: match r {
                    Ok(_) => st.serrs,
                    Err(er) => st.serrs.push(er),
                },
                terrs: st.terrs,
            };
            match value {
                Some(e) => analyze_expr_spec(e, st1),
                None => st1,
            }
        },
        Decl::Function { name, params, return_type, body } => {
            let ptys = param_types(params@);
            let ret = match return_type {
                Some(t) => t,
                None => Type::Void,
            };
            let (stk1, r) = insert_definition_spec(st.stack, name@, ptys, ret);
            match r {
                Err(er) => SemState {
                    stack: stk1,
                    serrs: st.serrs.push(er),
                    terrs: st.terrs,
                },
                Ok(_) => {
                    let stk2 = insert_params_spec(params@, enter_scope_spec(stk1));
                    let st3 = analyze_stmt_spec(
                        *body,
                        SemState { stack: stk2, serrs: st.serrs, terrs: st.terrs },
                        Some(ret),
                    );
                    SemState { stack: exit_scope_spec(st3.stack), serrs: st3.serrs, terrs: st3.terrs }
                },
            }
        },
        Decl::Stmt(s) => analyze_stmt_spec(s, st, None),
    }
}

/// Effect of analyzing the declarations in order.
pub open spec fn analyze_decls_spec(ds: Seq<Decl>, st: SemState) -> SemState
    decreases ds,
{
    if ds.len() == 0 {
        st
    } else {
        analyze_decls_spec(ds.drop_first(), analyze_decl_spec(ds[0], st))
    }
}

/// Analyzing a declaration keeps the stack well formed and restores the
/// frame count and loop depth.
pub proof fn lemma_analyze_decl_preserves(d: Decl, st: SemState)
    requires
        stack_wf(st.stack),
    ensures
        ({
            let post = analyze_decl_spec(d, st);
            &&& stack_wf(post.stack)
            &&& post.stack.frames.len() == st.stack.frames.len()
            &&& post.stack.loop_depth == st.stack.loop_depth
        }),
{
    match d {
        Decl::GlobalVar { name, type_annot, value } => {
            let ty = match type_annot {
                Some(t) => t,
                None => Type::Void,
            };
            crate::scope::lemma_insert_variable_preserves(st.stack, name@, ty, true, value is Some);
        },
        Decl::Function { name, params, return_type, body } => {
            let ptys = param_types(params@);
            let ret = match return_type {
                Some(t) => t,
                None => Type::Void,
            };
            crate::scope::lemma_insert_definition_preserves(st.stack, name@, ptys, ret);
            let (stk1, r) = insert_definition_spec(st.stack, name@, ptys, ret);
            if r is Ok {
                crate::scope::lemma_enter_scope_preserves(stk1);
                lemma_insert_params_preserves(params@, enter_scope_spec(stk1));
                let stk2 = insert_params_spec(params@, enter_scope_spec(stk1));
                lemma_analyze_stmt_preserves(
                    *body,
                    SemState { stack: stk2, serrs: st.serrs, terrs: st.terrs },
                    Some(ret),
                );
                let st3 = analyze_stmt_spec(
                    *body,
                    SemState { stack: stk2, serrs: st.serrs, terrs: st.terrs },
                    Some(ret),
                );
                crate::scope::lemma_exit_scope_preserves(st3.stack);
            }
        },
        Decl::Stmt(s) => {
            lemma_analyze_stmt_preserves(s, st, None);
        },
    }
}

/// Both diagnostic lists of one full analysis run: a global scope is
/// opened, the declarations are analyzed top to bottom, and the global
/// scope is closed again.
pub open spec fn semantic_analysis_spec(p: Program) -> SemState {
    let st0 = SemState {
        stack: enter_scope_spec(StackV { frames: Seq::empty(), loop_depth: 0 }),
        serrs: Seq::empty(),
        terrs: Seq::empty(),
    };
    let st1 = analyze_decls_spec(p.declarations@, st0);
    SemState { stack: exit_scope_spec(st1.stack), serrs: st1.serrs, terrs: st1.terrs }
}

/// Analyze one declaration; the executable counterpart of
/// `analyze_decl_spec`.
pub fn analyze_decl(decl: &Decl, scope_stack: &mut ScopeStack, scope_errors: &mut Vec<ScopeError>, typechk_errors: &mut Vec<TypeChkError>)
    requires
        stack_wf(old(scope_stack)@),
        old(scope_stack)@.loop_depth + decl_size(*decl) <= usize::MAX,
    ensures
        ({
            let post = analyze_decl_spec(
                *decl,
                SemState {
                    stack: old(scope_stack)@,
                    serrs: old(scope_errors)@,
                    terrs: old(typechk_errors)@,
                },
            );
            &&& final(scope_stack)@ == post.stack
            &&& final(scope_errors)@ == post.serrs
            &&& final(typechk_errors)@ == post.terrs
        }),
        stack_wf(final(scope_stack)@),
{
    let ghost st0 = SemState {
        stack: old(scope_stack)@,
        serrs: old(scope_errors)@,
        terrs: old(typechk_errors)@,
    };
    proof {
        lemma_analyze_decl_preserves(*decl, st0);
    }
    match decl {
        Decl::GlobalVar { name, type_annot, value } => {
            let ty = match type_annot {
                Some(t) => *t,
                None => Type::Void,
            };
            let initialized = value.is_some();
            match scope_stack.insert_variable(name.clone(), ty, true, initialized) {
                Err(e) => {
                    scope_errors.push(e);
                },
                Ok(_) => {},
            }
            match value {
                Some(e) => {
                    analyze_expr(e, scope_stack, scope_errors, typechk_errors);
                },
                None => {},
            }
        },
        Decl::Function { name, params, return_type, body } => {
            let mut param_tys: Vec<Type> = Vec::new();
            let mut i: usize = 0;
            while i < params.len()
                invariant
                    i <= params.len(),
                    param_tys@ =~= param_types(params@).take(i as int),
                decreases params.len() - i,
            {
                param_tys.push(params[i].param_type);
                proof {
                    assert(param_tys@ =~= param_types(params@).take(i as int + 1));
                }
                i += 1;
            }
            proof {
                assert(param_types(params@).take(params@.len() as int) =~= param_types(params@));
            }
            let ret = match return_type {
                Some(t) => *t,
                None => Type::Void,
            };
            let inserted = scope_stack.insert_function_definition(name.clone(), param_tys, ret);
            if let Err(e) = inserted {
                scope_errors.push(e);
            } else {
                scope_stack.enter_scope();
                proof {
                    crate::scope::lemma_enter_scope_preserves(
                        insert_definition_spec(st0.stack, name@, param_types(params@), ret).0,
                    );
                }
                let ghost stk_enter = scope_stack@;
                let ghost target = insert_params_spec(params@, stk_enter);
                proof {
                    assert(params@.skip(0) =~= params@);
                }
                let mut j: usize = 0;
                while j < params.len()
                    invariant
                        j <= params.len(),
                        stack_wf(scope_stack@),
                        insert_params_spec(params@.skip(j as int), scope_stack@) == target,
                        scope_stack@.loop_depth == stk_enter.loop_depth,
                        scope_stack@.frames.len() == stk_enter.frames.len(),
                    decreases params.len() - j,
                {
                    proof {
                        assert(params@.skip(j as int)[0] == params@[j as int]);
                        crate::scope::lemma_insert_variable_preserves(
                            scope_stack@,
                            params@[j as int].name@,
                            params@[j as int].param_type,
                            false,
                            true,
                        );
                    }
                    let _ = scope_stack.insert_variable(
                        params[j].name.clone(),
                        params[j].param_type,
                        false,
                        true,
                    );
                    proof {
                        assert(params@.skip(j as int).drop_first() =~= params@.skip(j as int + 1));
                    }
                    j += 1;
                }
                proof {
                    assert(params@.skip(params@.len() as int) =~= Seq::<Param>::empty());
                    lemma_insert_params_preserves(params@, stk_enter);
                }
                let ghost st_body = SemState {
                    stack: scope_stack@,
                    serrs: scope_errors@,
                    terrs: typechk_errors@,
                };
                analyze_stmt(&**body, scope_stack, scope_errors, typechk_errors, Some(ret));
                proof {
                    lemma_analyze_stmt_preserves(**body, st_body, Some(ret));
                }
                scope_stack.exit_scope();
            }
        },
        Decl::Stmt(s) => {
            analyze_stmt(s, scope_stack, scope_errors, typechk_errors, None);
        },
    }
}

/// Run scope resolution and type checking over a whole program and
/// collect the two ordered diagnostic lists; the result is exactly
/// `semantic_analysis_spec`.
pub fn perform_semantic_analysis(program: &Program) -> (r: (Vec<ScopeError>, Vec<TypeChkError>))
    requires
        decls_size(program.declarations@) <= usize::MAX,
    ensures
        r.0@ == semantic_analysis_spec(*program).serrs,
        r.1@ == semantic_analysis_spec(*program).terrs,
{
    let mut scope_stack = ScopeStack::new();
    let mut scope_errors: Vec<ScopeError> = Vec::new();
    let mut typechk_errors: Vec<TypeChkError> = Vec::new();
    scope_stack.enter_scope();
    let ghost st0 = SemState {
        stack: scope_stack@,
        serrs: scope_errors@,
        terrs: typechk_errors@,
    };
    let ghost target = analyze_decls_spec(program.declarations@, st0);
    proof {
        assert(st0.stack =~= enter_scope_spec(StackV { frames: Seq::empty(), loop_depth: 0 }));
        crate::scope::lemma_enter_scope_preserves(StackV { frames: Seq::empty(), loop_depth: 0 });
    }
    let ds = &program.declarations;
    proof {
        assert(ds@.skip(0) =~= ds@);
    }
    let mut i: usize = 0;
    while i < ds.len()
        invariant
            i <= ds.len(),
            stack_wf(scope_stack@),
            scope_stack@.loop_depth == 0,
            scope_stack@.frames.len() == 1,
            decls_size(ds@) <= usize::MAX,
            analyze_decls_spec(
                ds@.skip(i as int),
                SemState { stack: scope_stack@, serrs: scope_errors@, terrs: typechk_errors@ },
            ) == target,
        decreases ds.len() - i,
    {
        proof {
            lemma_decls_size_elem(ds@, i as int);
            assert(ds@.skip(i as int)[0] == ds@[i as int]);
        }
        let ghost cur = SemState {
            stack: scope_stack@,
            serrs: scope_errors@,
            terrs: typechk_errors@,
        };
        analyze_decl(&ds[i], &mut scope_stack, &mut scope_errors, &mut typechk_errors);
        proof {
            lemma_analyze_decl_preserves(ds@[i as int], cur);
            assert(ds@.skip(i as int).drop_first() =~= ds@.skip(i as int + 1));
        }
        i += 1;
    }
    proof {
        assert(ds@.skip(ds@.len() as int) =~= Seq::<Decl>::empty());
    }
    scope_stack.exit_scope();
    (scope_errors, typechk_errors)
}

/// A non-Bool `if` condition surfaces `NonBooleanCondStmt`: analyzing the
/// `if` records it right after the diagnostics already present exactly
/// when the condition types to something other than Bool, and a Bool
/// condition contributes no diagnostic of its own.
pub proof fn lemma_non_bool_if_condition(s: Stmt, st: SemState, ret: Option<Type>)
    requires
        stack_wf(st.stack),
        s is If,
    ensures
        ({
            let post = analyze_stmt_spec(s, st, ret);
            let c = s->If_condition;
            &&& (type_of_expr(c, st.stack) matches Ok(t) && t != Type::Bool ==> {
                &&& post.terrs.len() > st.terrs.len()
                &&& post.terrs[st.terrs.len() as int] == TypeChkError::NonBooleanCondStmt
            })
            &&& (type_of_expr(c, st.stack) == Ok::<Type, TypeChkError>(Type::Bool)
                ==> cond_type_errs(c, st.stack) == Seq::<TypeChkError>::empty())
        }),
{
    match s {
        Stmt::If { condition, then_branch, else_branch } => {
            let st1 = SemState {
                stack: st.stack,
                serrs: st.serrs,
                terrs: st.terrs + cond_type_errs(condition, st.stack),
            };
            lemma_analyze_stmt_preserves(*then_branch, st1, ret);
            let st2 = analyze_stmt_spec(*then_branch, st1, ret);
            match else_branch {
                Some(e) => {
                    lemma_analyze_stmt_preserves(*e, st2, ret);
                },
                None => {},
            }
            match type_of_expr(condition, st.stack) {
                Ok(t) => {
                    if t == Type::Bool {
                        assert(cond_type_errs(condition, st.stack) =~= Seq::<TypeChkError>::empty());
                    } else {
                        assert(st1.terrs[st.terrs.len() as int] == TypeChkError::NonBooleanCondStmt);
                    }
                },
                Err(_) => {},
            }
        },
        _ => {},
    }
}

/// A `break` outside any loop surfaces `ErroneousBreak`, and changes
/// nothing else; inside a loop it is silent.
pub proof fn lemma_break_legality(st: SemState, ret: Option<Type>)
    ensures
        st.stack.loop_depth == 0 ==> analyze_stmt_spec(Stmt::Break, st, ret) == (SemState {
            stack: st.stack,
            serrs: st.serrs,
            terrs: st.terrs.push(TypeChkError::ErroneousBreak),
        }),
        st.stack.loop_depth > 0 ==> analyze_stmt_spec(Stmt::Break, st, ret) == st,
{
}

/// A `break` that is the body of a `while` is not flagged: the loop depth
/// is raised around the body, so the only diagnostics of the whole loop
/// are those of its condition.
pub proof fn lemma_break_inside_while_not_flagged(s: Stmt, st: SemState, ret: Option<Type>)
    requires
        stack_wf(st.stack),
        s is While,
        *(s->While_body) is Break,
    ensures
        analyze_stmt_spec(s, st, ret).terrs == st.terrs + cond_type_errs(s->While_condition, st.stack),
        analyze_stmt_spec(s, st, ret).serrs == st.serrs,
        analyze_stmt_spec(s, st, ret).stack == st.stack,
{
    match s {
        Stmt::While { condition, body } => {
            let st1 = SemState {
                stack: st.stack,
                serrs: st.serrs,
                terrs: st.terrs + cond_type_errs(condition, st.stack),
            };
            let st2 = SemState {
                stack: StackV { frames: st1.stack.frames, loop_depth: st1.stack.loop_depth + 1 },
                serrs: st1.serrs,
                terrs: st1.terrs,
            };
            assert(analyze_stmt_spec(*body, st2, ret) == st2);
            assert(analyze_stmt_spec(s, st, ret).stack =~= st.stack);
        },
        _ => {},
    }
}

} // verus!
