//! Lowering of statements and expressions to three-address code.
//!
//! The generator is specified by a functional model: `gen_stmt_spec` maps
//! a statement and a generator state to the next state, and every
//! executable method is proved to realize that model exactly. Literals and
//! identifiers are their own place and emit nothing; operators lower their
//! operands left to right and then emit one instruction into a fresh
//! temporary; control flow emits branch, jump, and label instructions
//! whose targets are drawn from monotone counters, so they are unique
//! within one generation pass.

use vstd::prelude::*;
use crate::ast::{BinOp, Expr, Stmt, UnOp, expr_size, exprs_size, stmt_size, stmts_size};
use crate::quad::{Op, Operand, OperandV, Quad, QuadV};

verus! {

/// Mathematical model of the generator state: the instructions emitted so
/// far, the two fresh-name counters, and the active break and continue
/// target stacks.
#[verifier::ext_equal]
pub ghost struct IRStateV {
    pub quads: Seq<QuadV>,
    pub temps: nat,
    pub labels: nat,
    pub breaks: Seq<nat>,
    pub continues: Seq<nat>,
}

/// The state a generation pass starts from.
pub open spec fn init_state() -> IRStateV {
    IRStateV {
        quads: Seq::empty(),
        temps: 0,
        labels: 0,
        breaks: Seq::empty(),
        continues: Seq::empty(),
    }
}

/// Append one instruction.
pub open spec fn emit_spec(st: IRStateV, q: QuadV) -> IRStateV {
    IRStateV {
        quads: st.quads.push(q),
        temps: st.temps,
        labels: st.labels,
        breaks: st.breaks,
        continues: st.continues,
    }
}

/// Allocate one temporary.
pub open spec fn bump_temp(st: IRStateV) -> IRStateV {
    IRStateV {
        quads: st.quads,
        temps: st.temps + 1,
        labels: st.labels,
        breaks: st.breaks,
        continues: st.continues,
    }
}

/// An unconditional jump to label `l`.
pub open spec fn goto_quad(l: nat) -> QuadV {
    QuadV { op: Op::Goto, arg1: OperandV::Empty, arg2: OperandV::Empty, result: OperandV::Label(l) }
}

/// A label instruction for label `l`.
pub open spec fn label_quad(l: nat) -> QuadV {
    QuadV { op: Op::Label, arg1: OperandV::Empty, arg2: OperandV::Empty, result: OperandV::Label(l) }
}

/// A conditional-false branch on `c` to label `l`.
pub open spec fn if_false_quad(c: OperandV, l: nat) -> QuadV {
    QuadV { op: Op::IfFalse, arg1: c, arg2: OperandV::Empty, result: OperandV::Label(l) }
}

/// A copy of `v` into `dst`.
pub open spec fn copy_quad(v: OperandV, dst: OperandV) -> QuadV {
    QuadV { op: Op::Copy, arg1: v, arg2: OperandV::Empty, result: dst }
}

/// The opcode a binary operator lowers to; operators the lowering does
/// not handle become the visibly marked placeholder opcode.
pub open spec fn bin_op_code(op: BinOp) -> Op {
    match op {
        BinOp::Add => Op::Add,
        BinOp::Sub => Op::Sub,
        BinOp::Mul => Op::Mul,
        BinOp::Div => Op::Div,
        BinOp::Mod => Op::Mod,
        BinOp::Lt => Op::Lt,
        BinOp::Gt => Op::Gt,
        BinOp::Le => Op::Le,
        BinOp::Ge => Op::Ge,
        BinOp::Eq => Op::Eq,
        BinOp::Ne => Op::Ne,
        BinOp::And => Op::And,
        BinOp::Or => Op::Or,
        _ => Op::Unhandled,
    }
}

/// The opcode a unary operator lowers to.
pub open spec fn un_op_code(op: UnOp) -> Op {
    match op {
        UnOp::Neg => Op::Neg,
        UnOp::Not => Op::Not,
    }
}

/// Lowering a generic binary operation: left, then right, then one
/// instruction into a fresh temporary, which is the result place.
pub open spec fn gen_binary_spec(op: BinOp, left: Expr, right: Expr, st: IRStateV) -> (IRStateV, OperandV)
    decreases expr_size(left) + expr_size(right), 1nat,
{
    let (st1, l) = gen_expr_spec(left, st);
    let (st2, r) = gen_expr_spec(right, st1);
    let t = OperandV::Temp(st2.temps);
    (
        emit_spec(bump_temp(st2), QuadV { op: bin_op_code(op), arg1: l, arg2: r, result: t }),
        t,
    )
}

/// Lowering a unary operation: the operand, then one instruction into a
/// fresh temporary.
pub open spec fn gen_unary_spec(op: UnOp, operand: Expr, st: IRStateV) -> (IRStateV, OperandV)
    decreases expr_size(operand), 1nat,
{
    let (st1, v) = gen_expr_spec(operand, st);
    let t = OperandV::Temp(st1.temps);
    (
        emit_spec(bump_temp(st1), QuadV { op: un_op_code(op), arg1: v, arg2: OperandV::Empty, result: t }),
        t,
    )
}

/// Lowering an assignment: the right-hand side, then a copy into the
/// target name, which is the result place.
pub open spec fn gen_assignment_spec(name: Seq<char>, value: Expr, st: IRStateV) -> (IRStateV, OperandV)
    decreases expr_size(value), 1nat,
{
    let (st1, v) = gen_expr_spec(value, st);
    (emit_spec(st1, copy_quad(v, OperandV::Name(name))), OperandV::Name(name))
}

/// The place an expression lowers to, together with the state after
/// lowering it. Literals and identifiers are their own place; a call
/// lowers its arguments left to right for side-effect order and lands in
/// a fresh temporary.
pub open spec fn gen_expr_spec(e: Expr, st: IRStateV) -> (IRStateV, OperandV)
    decreases expr_size(e), 0nat,
{
    match e {
        Expr::Identifier(n) => (st, OperandV::Name(n@)),
        Expr::IntLit(t) => (st, OperandV::Name(t@)),
        Expr::FloatLit(t) => (st, OperandV::Name(t@)),
        Expr::StrLit(t) => (st, OperandV::Name(t@)),
        Expr::BoolLit(b) => (
            st,
            OperandV::Name(
                if b {
                    "true"@
                } else {
                    "false"@
                },
            ),
        ),
        Expr::Unary { op, operand } => gen_unary_spec(op, *operand, st),
        Expr::Binary { left, op, right } => if op == BinOp::Assign {
            match *left {
                Expr::Identifier(n) => gen_assignment_spec(n@, *right, st),
                _ => gen_binary_spec(op, *left, *right, st),
            }
        } else {
            gen_binary_spec(op, *left, *right, st)
        },
        Expr::Call { callee, args } => {
            let (st1, f) = gen_expr_spec(*callee, st);
            let st2 = gen_args_spec(args@, st1);
            let t = OperandV::Temp(st2.temps);
            (
                emit_spec(
                    bump_temp(st2),
                    QuadV { op: Op::Call, arg1: f, arg2: OperandV::Empty, result: t },
                ),
                t,
            )
        },
        Expr::Grouping(inner) => gen_expr_spec(*inner, st),
    }
}

/// Lower each argument in order; their places are not kept.
pub open spec fn gen_args_spec(es: Seq<Expr>, st: IRStateV) -> IRStateV
    decreases exprs_size(es), es.len(),
{
    if es.len() == 0 {
        st
    } else {
        let (st1, _) = gen_expr_spec(es[0], st);
        gen_args_spec(es.drop_first(), st1)
    }
}

/// Lowering a declaration with an optional initializer: nothing without
/// one, else the initializer and a copy into the name.
pub open spec fn gen_var_decl_spec(name: Seq<char>, expr: Option<Expr>, st: IRStateV) -> IRStateV
    decreases (match expr {
        Some(e) => expr_size(e),
        None => 0,
    }), 1nat,
{
    match expr {
        Some(e) => {
            let (st1, v) = gen_expr_spec(e, st);
            emit_spec(st1, copy_quad(v, OperandV::Name(name)))
        },
        None => st,
    }
}

/// Size of an optional else branch.
pub open spec fn opt_stmt_size(s: Option<Stmt>) -> nat {
    match s {
        Some(s) => stmt_size(s),
        None => 0,
    }
}

/// Lowering `if`: the condition, a conditional-false branch to the else
/// label (the end label when there is no else branch), the then branch;
/// with an else branch, a jump to the end label, the else label and the
/// else branch; finally the one end label.
pub open spec fn gen_if_spec(condition: Expr, then_s: Stmt, else_s: Option<Stmt>, st: IRStateV) -> IRStateV
    decreases expr_size(condition) + stmt_size(then_s) + opt_stmt_size(else_s), 1nat,
{
    let (st1, c) = gen_expr_spec(condition, st);
    match else_s {
        None => {
            let end = st1.labels;
            let st2 = IRStateV {
                quads: st1.quads,
                temps: st1.temps,
                labels: st1.labels + 1,
                breaks: st1.breaks,
                continues: st1.continues,
            };
            let st3 = emit_spec(st2, if_false_quad(c, end));
            let st4 = gen_stmt_spec(then_s, st3);
            emit_spec(st4, label_quad(end))
        },
        Some(els) => {
            let end = st1.labels;
            let else_l = st1.labels + 1;
            let st2 = IRStateV {
                quads: st1.quads,
                temps: st1.temps,
                labels: st1.labels + 2,
                breaks: st1.breaks,
                continues: st1.continues,
            };
            let st3 = emit_spec(st2, if_false_quad(c, else_l));
            let st4 = gen_stmt_spec(then_s, st3);
            let st5 = emit_spec(st4, goto_quad(end));
            let st6 = emit_spec(st5, label_quad(else_l));
            let st7 = gen_stmt_spec(els, st6);
            emit_spec(st7, label_quad(end))
        },
    }
}

/// Lowering `while`: a start label, the condition (re-evaluated every
/// iteration, never hoisted), a conditional-false branch to the end
/// label, the body with the end and start labels pushed as break and
/// continue targets, a jump back to the start, and the end label.
pub open spec fn gen_while_spec(condition: Expr, body: Stmt, st: IRStateV) -> IRStateV
    decreases expr_size(condition) + stmt_size(body), 1nat,
{
    let ls = st.labels;
    let le = st.labels + 1;
    let st1 = IRStateV {
        quads: st.quads,
        temps: st.temps,
        labels: st.labels + 2,
        breaks: st.breaks.push(le),
        continues: st.continues.push(ls),
    };
    let st2 = emit_spec(st1, label_quad(ls));
    let (st3, c) = gen_expr_spec(condition, st2);
    let st4 = emit_spec(st3, if_false_quad(c, le));
    let st5 = gen_stmt_spec(body, st4);
    let st6 = emit_spec(st5, goto_quad(ls));
    let st7 = emit_spec(st6, label_quad(le));
    IRStateV {
        quads: st7.quads,
        temps: st7.temps,
        labels: st7.labels,
        breaks: st7.breaks.drop_last(),
        continues: st7.continues.drop_last(),
    }
}

/// Lowering `break`: a jump to the innermost break target; with no
/// enclosing loop nothing is emitted, which mirrors that such a statement
/// was already reported by semantic analysis.
pub open spec fn gen_break_spec(st: IRStateV) -> IRStateV {
    if st.breaks.len() > 0 {
        emit_spec(st, goto_quad(st.breaks.last()))
    } else {
        st
    }
}

/// Lowering `continue`: a jump to the innermost continue target, if any.
pub open spec fn gen_continue_spec(st: IRStateV) -> IRStateV {
    if st.continues.len() > 0 {
        emit_spec(st, goto_quad(st.continues.last()))
    } else {
        st
    }
}

/// Lowering `return`: the value if present, then one return instruction
/// carrying its place or an empty operand.
pub open spec fn gen_return_spec(expr: Option<Expr>, st: IRStateV) -> IRStateV
    decreases (match expr {
        Some(e) => expr_size(e),
        None => 0,
    }), 1nat,
{
    match expr {
        Some(e) => {
            let (st1, v) = gen_expr_spec(e, st);
            emit_spec(
                st1,
                QuadV { op: Op::Ret, arg1: v, arg2: OperandV::Empty, result: OperandV::Empty },
            )
        },
        None => emit_spec(
            st,
            QuadV {
                op: Op::Ret,
                arg1: OperandV::Empty,
                arg2: OperandV::Empty,
                result: OperandV::Empty,
            },
        ),
    }
}

/// Lowering one statement.
pub open spec fn gen_stmt_spec(s: Stmt, st: IRStateV) -> IRStateV
    decreases stmt_size(s), 0nat,
{
    match s {
        Stmt::Expr(e) => gen_expr_spec(e, st).0,
        Stmt::Let { name, value, .. } => gen_var_decl_spec(name@, Some(value), st),
        Stmt::Block(stmts) => gen_stmts_spec(stmts@, st),
        Stmt::If { condition, then_branch, else_branch } => gen_if_spec(
            condition,
            *then_branch,
            match else_branch {
                Some(b) => Some(*b),
                None => None,
            },
            st,
        ),
        Stmt::While { condition, body } => gen_while_spec(condition, *body, st),
        Stmt::Break => gen_break_spec(st),
        Stmt::Return(expr) => gen_return_spec(expr, st),
        _ => st,
    }
}

/// Lowering statements in order.
pub open spec fn gen_stmts_spec(ss: Seq<Stmt>, st: IRStateV) -> IRStateV
    decreases stmts_size(ss), ss.len(),
{
    if ss.len() == 0 {
        st
    } else {
        gen_stmts_spec(ss.drop_first(), gen_stmt_spec(ss[0], st))
    }
}

/// The whole pass: counters and stacks reset, then each statement in
/// order. Separate calls on the same input give the same instructions.
pub open spec fn gen_program_spec(ss: Seq<Stmt>) -> IRStateV {
    gen_stmts_spec(ss, init_state())
}


/// The state-movement facts `lemma_gen_expr_bounds` establishes.
pub open spec fn expr_move_ok(e: Expr, st: IRStateV) -> bool {
    let (st1, v) = gen_expr_spec(e, st);
    &&& st.temps <= st1.temps <= st.temps + expr_size(e)
    &&& st1.labels == st.labels
    &&& st1.breaks == st.breaks
    &&& st1.continues == st.continues
    &&& st.quads.len() <= st1.quads.len()
    &&& (forall|i: int| 0 <= i < st.quads.len() ==> st1.quads[i] == st.quads[i])
}

/// How lowering one expression moves the state: the temporary counter
/// grows by at most the expression's size, no label is allocated, the
/// target stacks are untouched, and the emitted instructions only grow.
pub proof fn lemma_gen_expr_bounds(e: Expr, st: IRStateV)
    ensures
        expr_move_ok(e, st),
    decreases expr_size(e), 2nat,
{
    match e {
        Expr::Unary { op, operand } => {
            lemma_gen_expr_bounds(*operand, st);
            let (sti, v) = gen_expr_spec(*operand, st);
            assert(gen_expr_spec(e, st) == gen_unary_spec(op, *operand, st));
            let st1 = gen_expr_spec(e, st).0;
            assert(st1 == emit_spec(
                bump_temp(sti),
                QuadV { op: un_op_code(op), arg1: v, arg2: OperandV::Empty, result: OperandV::Temp(sti.temps) },
            ));
            assert forall|i: int| 0 <= i < st.quads.len() implies st1.quads[i] == st.quads[i] by {
                assert(st1.quads[i] == sti.quads[i]);
            }
            assert(expr_move_ok(e, st));
        },
        Expr::Binary { left, op, right } => {
            lemma_gen_expr_bounds(*left, st);
            let (st1, l) = gen_expr_spec(*left, st);
            lemma_gen_expr_bounds(*right, st1);
            let (st2, r) = gen_expr_spec(*right, st1);
            let stb = emit_spec(
                bump_temp(st2),
                QuadV { op: bin_op_code(op), arg1: l, arg2: r, result: OperandV::Temp(st2.temps) },
            );
            assert(gen_binary_spec(op, *left, *right, st).0 == stb);
            assert forall|i: int| 0 <= i < st.quads.len() implies stb.quads[i] == st.quads[i] by {
                assert(stb.quads[i] == st2.quads[i]);
                assert(st2.quads[i] == st1.quads[i]);
            }
            if op == BinOp::Assign {
                match *left {
                    Expr::Identifier(n) => {
                        lemma_gen_expr_bounds(*right, st);
                        let (sta, va) = gen_expr_spec(*right, st);
                        assert(gen_expr_spec(e, st) == gen_assignment_spec(n@, *right, st));
                        assert(gen_expr_spec(e, st).0 == emit_spec(
                            sta,
                            copy_quad(va, OperandV::Name(n@)),
                        ));
                        let stf = gen_expr_spec(e, st).0;
                        assert forall|i: int| 0 <= i < st.quads.len() implies stf.quads[i]
                            == st.quads[i] by {
                            assert(stf.quads[i] == sta.quads[i]);
                        }
                    },
                    _ => {
                        assert(gen_expr_spec(e, st).0 == stb);
                    },
                }
            } else {
                assert(gen_expr_spec(e, st).0 == stb);
            }
            assert(expr_move_ok(e, st));
        },
        Expr::Call { callee, args } => {
            lemma_gen_expr_bounds(*callee, st);
            let (st1, f) = gen_expr_spec(*callee, st);
            lemma_gen_args_bounds(args@, st1);
            let st2 = gen_args_spec(args@, st1);
            let stf = gen_expr_spec(e, st).0;
            assert(stf == emit_spec(
                bump_temp(st2),
                QuadV { op: Op::Call, arg1: f, arg2: OperandV::Empty, result: OperandV::Temp(st2.temps) },
            ));
            assert forall|i: int| 0 <= i < st.quads.len() implies stf.quads[i] == st.quads[i] by {
                assert(stf.quads[i] == st2.quads[i]);
                assert(st2.quads[i] == st1.quads[i]);
            }
            assert(expr_size(e) == 1 + expr_size(*callee) + exprs_size(args@));
            assert(expr_move_ok(e, st));
        },
        Expr::Grouping(inner) => {
            lemma_gen_expr_bounds(*inner, st);
            assert(expr_move_ok(e, st));
        },
        _ => {
            assert(expr_move_ok(e, st));
        },
    }
}

/// Sequence version of `lemma_gen_expr_bounds`.
pub proof fn lemma_gen_args_bounds(es: Seq<Expr>, st: IRStateV)
    ensures
        ({
            let st1 = gen_args_spec(es, st);
            &&& st.temps <= st1.temps <= st.temps + exprs_size(es)
            &&& st1.labels == st.labels
            &&& st1.breaks == st.breaks
            &&& st1.continues == st.continues
            &&& st.quads.len() <= st1.quads.len()
            &&& (forall|i: int| 0 <= i < st.quads.len() ==> st1.quads[i] == st.quads[i])
        }),
    decreases exprs_size(es), es.len() + 2nat,
{
    if es.len() > 0 {
        lemma_gen_expr_bounds(es[0], st);
        let (st1, _) = gen_expr_spec(es[0], st);
        lemma_gen_args_bounds(es.drop_first(), st1);
    }
}

/// How lowering one statement moves the state: each counter grows by at
/// most the statement's size (twice the size for labels), the target
/// stacks are restored, and the emitted instructions only grow.
pub proof fn lemma_gen_stmt_bounds(s: Stmt, st: IRStateV)
    ensures
        ({
            let st1 = gen_stmt_spec(s, st);
            &&& st.temps <= st1.temps <= st.temps + stmt_size(s)
            &&& st.labels <= st1.labels <= st.labels + 2 * stmt_size(s)
            &&& st1.breaks == st.breaks
            &&& st1.continues == st.continues
            &&& st.quads.len() <= st1.quads.len()
            &&& (forall|i: int| 0 <= i < st.quads.len() ==> st1.quads[i] == st.quads[i])
        }),
    decreases stmt_size(s), 2nat,
{
    match s {
        Stmt::Expr(e) => {
            lemma_gen_expr_bounds(e, st);
        },
        Stmt::Let { name, value, .. } => {
            lemma_gen_expr_bounds(value, st);
        },
        Stmt::Block(stmts) => {
            lemma_gen_stmts_bounds(stmts@, st);
        },
        Stmt::If { condition, then_branch, else_branch } => {
            lemma_gen_expr_bounds(condition, st);
            let (st1, c) = gen_expr_spec(condition, st);
            match else_branch {
                None => {
                    let st2 = IRStateV {
                        quads: st1.quads,
                        temps: st1.temps,
                        labels: st1.labels + 1,
                        breaks: st1.breaks,
                        continues: st1.continues,
                    };
                    let st3 = emit_spec(st2, if_false_quad(c, st1.labels));
                    lemma_gen_stmt_bounds(*then_branch, st3);
                },
                Some(els) => {
                    let st2 = IRStateV {
                        quads: st1.quads,
                        temps: st1.temps,
                        labels: st1.labels + 2,
                        breaks: st1.breaks,
                        continues: st1.continues,
                    };
                    let st3 = emit_spec(st2, if_false_quad(c, st1.labels + 1));
                    lemma_gen_stmt_bounds(*then_branch, st3);
                    let st4 = gen_stmt_spec(*then_branch, st3);
                    let st5 = emit_spec(st4, goto_quad(st1.labels));
                    let st6 = emit_spec(st5, label_quad(st1.labels + 1));
                    lemma_gen_stmt_bounds(*els, st6);
                },
            }
        },
        Stmt::While { condition, body } => {
            let ls = st.labels;
            let le = st.labels + 1;
            let st1 = IRStateV {
                quads: st.quads,
                temps: st.temps,
                labels: st.labels + 2,
                breaks: st.breaks.push(le),
                continues: st.continues.push(ls),
            };
            let st2 = emit_spec(st1, label_quad(ls));
            lemma_gen_expr_bounds(condition, st2);
            let (st3, c) = gen_expr_spec(condition, st2);
            let st4 = emit_spec(st3, if_false_quad(c, le));
            lemma_gen_stmt_bounds(*body, st4);
            let st5 = gen_stmt_spec(*body, st4);
            assert(st5.breaks.drop_last() =~= st.breaks);
            assert(st5.continues.drop_last() =~= st.continues);
        },
        Stmt::Return(expr) => {
            match expr {
                Some(e) => {
                    lemma_gen_expr_bounds(e, st);
                },
                None => {},
            }
        },
        _ => {},
    }
}

/// Sequence version of `lemma_gen_stmt_bounds`.
pub proof fn lemma_gen_stmts_bounds(ss: Seq<Stmt>, st: IRStateV)
    ensures
        ({
            let st1 = gen_stmts_spec(ss, st);
            &&& st.temps <= st1.temps <= st.temps + stmts_size(ss)
            &&& st.labels <= st1.labels <= st.labels + 2 * stmts_size(ss)
            &&& st1.breaks == st.breaks
            &&& st1.continues == st.continues
            &&& st.quads.len() <= st1.quads.len()
            &&& (forall|i: int| 0 <= i < st.quads.len() ==> st1.quads[i] == st.quads[i])
        }),
    decreases stmts_size(ss), ss.len() + 2nat,
{
    if ss.len() > 0 {
        lemma_gen_stmt_bounds(ss[0], st);
        lemma_gen_stmts_bounds(ss.drop_first(), gen_stmt_spec(ss[0], st));
    }
}

/// The models of a sequence of instructions.
pub open spec fn quads_view(qs: Seq<Quad>) -> Seq<QuadV> {
    Seq::new(qs.len(), |i: int| qs[i]@)
}

/// The generator: the instructions emitted so far, two fresh-name
/// counters, and the break and continue target stacks kept in strict
/// correspondence with lexical loop nesting.
#[derive(Debug)]
pub struct IRGenerator {
    quads: Vec<Quad>,
    temp_counter: usize,
    label_counter: usize,
    break_targets: Vec<usize>,
    continue_targets: Vec<usize>,
}

impl View for IRGenerator {
    type V = IRStateV;

    closed spec fn view(&self) -> IRStateV {
        IRStateV {
            quads: Seq::new(self.quads@.len(), |i: int| self.quads@[i]@),
            temps: self.temp_counter as nat,
            labels: self.label_counter as nat,
            breaks: Seq::new(self.break_targets@.len(), |i: int| self.break_targets@[i] as nat),
            continues: Seq::new(
                self.continue_targets@.len(),
                |i: int| self.continue_targets@[i] as nat,
            ),
        }
    }
}

impl IRGenerator {
    /// A generator in its starting state.
    pub fn new() -> (g: IRGenerator)
        ensures
            g@ == init_state(),
    {
        let g = IRGenerator {
            quads: Vec::new(),
            temp_counter: 0,
            label_counter: 0,
            break_targets: Vec::new(),
            continue_targets: Vec::new(),
        };
        proof {
            assert(g@ =~~= init_state());
        }
        g
    }

    /// Allocate a fresh temporary.
    fn new_temp(&mut self) -> (t: usize)
        requires
            old(self)@.temps < usize::MAX,
        ensures
            final(self)@ == bump_temp(old(self)@),
            t as nat == old(self)@.temps,
    {
        let t = self.temp_counter;
        self.temp_counter = t + 1;
        proof {
            assert(self@ =~~= bump_temp(old(self)@));
        }
        t
    }

    /// Allocate a fresh label.
    fn new_label(&mut self) -> (l: usize)
        requires
            old(self)@.labels < usize::MAX,
        ensures
            final(self)@ == (IRStateV {
                quads: old(self)@.quads,
                temps: old(self)@.temps,
                labels: old(self)@.labels + 1,
                breaks: old(self)@.breaks,
                continues: old(self)@.continues,
            }),
            l as nat == old(self)@.labels,
    {
        let l = self.label_counter;
        self.label_counter = l + 1;
        proof {
            assert(self@ =~~= (IRStateV {
                quads: old(self)@.quads,
                temps: old(self)@.temps,
                labels: old(self)@.labels + 1,
                breaks: old(self)@.breaks,
                continues: old(self)@.continues,
            }));
        }
        l
    }

    /// Append one instruction.
    fn emit(&mut self, quad: Quad)
        ensures
            final(self)@ == emit_spec(old(self)@, quad@),
    {
        let ghost q = quad@;
        self.quads.push(quad);
        proof {
            assert(self@.quads =~= old(self)@.quads.push(q));
            assert(self@ =~~= emit_spec(old(self)@, q));
        }
    }

    /// Append a label instruction for `label`.
    fn emit_label(&mut self, label: usize)
        ensures
            final(self)@ == emit_spec(old(self)@, label_quad(label as nat)),
    {
        self.emit(Quad::new(Op::Label, Operand::Empty, Operand::Empty, Operand::Label(label)));
    }

    /// The opcode a binary operator lowers to.
    pub fn token_type_to_op(op: BinOp) -> (r: Op)
        ensures
            r == bin_op_code(op),
    {
        match op {
            BinOp::Add => Op::Add,
            BinOp::Sub => Op::Sub,
            BinOp::Mul => Op::Mul,
            BinOp::Div => Op::Div,
            BinOp::Mod => Op::Mod,
            BinOp::Lt => Op::Lt,
            BinOp::Gt => Op::Gt,
            BinOp::Le => Op::Le,
            BinOp::Ge => Op::Ge,
            BinOp::Eq => Op::Eq,
            BinOp::Ne => Op::Ne,
            BinOp::And => Op::And,
            BinOp::Or => Op::Or,
            _ => Op::Unhandled,
        }
    }

    /// Lower one expression and hand back its place.
    pub fn generate_expression(&mut self, expr: &Expr) -> (r: Operand)
        requires
            old(self)@.temps + expr_size(*expr) <= usize::MAX,
        ensures
            ({
                let (st1, v) = gen_expr_spec(*expr, old(self)@);
                &&& final(self)@ == st1
                &&& r@ == v
            }),
        decreases expr_size(*expr), 0nat,
    {
        match expr {
            Expr::Identifier(n) => Operand::Name(n.clone()),
            Expr::IntLit(t) => Operand::Name(t.clone()),
            Expr::FloatLit(t) => Operand::Name(t.clone()),
            Expr::StrLit(t) => Operand::Name(t.clone()),
            Expr::BoolLit(b) => {
                if *b {
                    Operand::Name(String::from_str("true"))
                } else {
                    Operand::Name(String::from_str("false"))
                }
            },
            Expr::Unary { op, operand } => {
                let r = self.generate_unary_op(*op, &**operand);
                proof {
                    assert(gen_expr_spec(*expr, old(self)@) == gen_unary_spec(
                        *op,
                        **operand,
                        old(self)@,
                    ));
                }
                r
            },
            Expr::Binary { left, op, right } => {
                if matches!(op, BinOp::Assign) {
                    match &**left {
                        Expr::Identifier(n) => {
                            let r = self.generate_assignment(n, &**right);
                            proof {
                                assert(gen_expr_spec(*expr, old(self)@) == gen_assignment_spec(
                                    n@,
                                    **right,
                                    old(self)@,
                                ));
                            }
                            r
                        },
                        _ => {
                            let r = self.generate_binary_op(*op, &**left, &**right);
                            proof {
                                assert(gen_expr_spec(*expr, old(self)@) == gen_binary_spec(
                                    *op,
                                    **left,
                                    **right,
                                    old(self)@,
                                ));
                            }
                            r
                        },
                    }
                } else {
                    let r = self.generate_binary_op(*op, &**left, &**right);
                    proof {
                        assert(gen_expr_spec(*expr, old(self)@) == gen_binary_spec(
                            *op,
                            **left,
                            **right,
                            old(self)@,
                        ));
                    }
                    r
                }
            },
            Expr::Call { callee, args } => {
                proof {
                    lemma_gen_expr_bounds(**callee, self@);
                }
                let f = self.generate_expression(&**callee);
                proof {
                    lemma_gen_args_bounds(args@, self@);
                    assert(args@.skip(0) =~= args@);
                }
                self.generate_args_from(args, 0);
                let t = self.new_temp();
                self.emit(Quad::new(Op::Call, f, Operand::Empty, Operand::Temp(t)));
                proof {
                    let (st1, fv) = gen_expr_spec(**callee, old(self)@);
                    let st2 = gen_args_spec(args@, st1);
                    assert(gen_expr_spec(*expr, old(self)@).0 == emit_spec(
                        bump_temp(st2),
                        QuadV {
                            op: Op::Call,
                            arg1: fv,
                            arg2: OperandV::Empty,
                            result: OperandV::Temp(st2.temps),
                        },
                    ));
                }
                Operand::Temp(t)
            },
            Expr::Grouping(inner) => self.generate_expression(&**inner),
        }
    }

    /// Lower each argument from position `i` on, in order.
    fn generate_args_from(&mut self, args: &Vec<Expr>, i: usize)
        requires
            i <= args.len(),
            old(self)@.temps + exprs_size(args@.skip(i as int)) <= usize::MAX,
        ensures
            final(self)@ == gen_args_spec(args@.skip(i as int), old(self)@),
        decreases exprs_size(args@.skip(i as int)), args@.len() - i,
    {
        if i < args.len() {
            proof {
                assert(args@.skip(i as int)[0] == args@[i as int]);
                assert(args@.skip(i as int).drop_first() =~= args@.skip(i as int + 1));
                lemma_gen_expr_bounds(args@[i as int], self@);
            }
            let _ = self.generate_expression(&args[i]);
            self.generate_args_from(args, i + 1);
        } else {
            proof {
                assert(args@.skip(i as int) =~= Seq::<Expr>::empty());
            }
        }
    }

    /// Lower a generic binary operation into a fresh temporary.
    pub fn generate_binary_op(&mut self, op: BinOp, left: &Expr, right: &Expr) -> (r: Operand)
        requires
            old(self)@.temps + expr_size(*left) + expr_size(*right) + 1 <= usize::MAX,
        ensures
            ({
                let (st1, v) = gen_binary_spec(op, *left, *right, old(self)@);
                &&& final(self)@ == st1
                &&& r@ == v
            }),
        decreases expr_size(*left) + expr_size(*right), 1nat,
    {
        proof {
            lemma_gen_expr_bounds(*left, self@);
        }
        let l = self.generate_expression(left);
        proof {
            lemma_gen_expr_bounds(*right, self@);
        }
        let rr = self.generate_expression(right);
        let t = self.new_temp();
        let op_code = Self::token_type_to_op(op);
        self.emit(Quad::new(op_code, l, rr, Operand::Temp(t)));
        Operand::Temp(t)
    }

    /// Lower a unary operation into a fresh temporary.
    pub fn generate_unary_op(&mut self, op: UnOp, operand: &Expr) -> (r: Operand)
        requires
            old(self)@.temps + expr_size(*operand) + 1 <= usize::MAX,
        ensures
            ({
                let (st1, v) = gen_unary_spec(op, *operand, old(self)@);
                &&& final(self)@ == st1
                &&& r@ == v
            }),
        decreases expr_size(*operand), 1nat,
    {
        proof {
            lemma_gen_expr_bounds(*operand, self@);
        }
        let v = self.generate_expression(operand);
        let t = self.new_temp();
        let code = match op {
            UnOp::Neg => Op::Neg,
            UnOp::Not => Op::Not,
        };
        self.emit(Quad::new(code, v, Operand::Empty, Operand::Temp(t)));
        Operand::Temp(t)
    }

    /// Lower an assignment: the right-hand side, then a copy into the
    /// target name, which is the result place.
    pub fn generate_assignment(&mut self, ident: &String, value: &Expr) -> (r: Operand)
        requires
            old(self)@.temps + expr_size(*value) <= usize::MAX,
        ensures
            ({
                let (st1, v) = gen_assignment_spec(ident@, *value, old(self)@);
                &&& final(self)@ == st1
                &&& r@ == v
            }),
        decreases expr_size(*value), 1nat,
    {
        let v = self.generate_expression(value);
        self.emit(Quad::new(Op::Copy, v, Operand::Empty, Operand::Name(ident.clone())));
        Operand::Name(ident.clone())
    }

    /// Lower a declaration with an optional initializer.
    pub fn generate_var_decl(&mut self, ident: &String, expr: Option<&Expr>)
        requires
            old(self)@.temps + (match expr {
                Some(e) => expr_size(*e),
                None => 0,
            }) <= usize::MAX,
        ensures
            final(self)@ == gen_var_decl_spec(
                ident@,
                match expr {
                    Some(e) => Some(*e),
                    None => None,
                },
                old(self)@,
            ),
        decreases (match expr {
            Some(e) => expr_size(*e),
            None => 0,
        }), 1nat,
    {
        match expr {
            Some(e) => {
                let v = self.generate_expression(e);
                self.emit(Quad::new(Op::Copy, v, Operand::Empty, Operand::Name(ident.clone())));
            },
            None => {},
        }
    }

    /// Lower one statement.
    pub fn generate_statement(&mut self, stmt: &Stmt)
        requires
            old(self)@.temps + stmt_size(*stmt) <= usize::MAX,
            old(self)@.labels + 2 * stmt_size(*stmt) <= usize::MAX,
        ensures
            final(self)@ == gen_stmt_spec(*stmt, old(self)@),
        decreases stmt_size(*stmt), 0nat,
    {
        match stmt {
            Stmt::Expr(e) => {
                let _ = self.generate_expression(e);
            },
            Stmt::Let { name, value, .. } => {
                self.generate_var_decl(name, Some(value));
                proof {
                    assert(gen_stmt_spec(*stmt, old(self)@) == gen_var_decl_spec(
                        name@,
                        Some(*value),
                        old(self)@,
                    ));
                }
            },
            Stmt::Block(stmts) => {
                proof {
                    assert(stmts@.skip(0) =~= stmts@);
                }
                self.generate_stmts_from(stmts, 0);
            },
            Stmt::If { condition, then_branch, else_branch } => {
                match else_branch {
                    Some(b) => {
                        self.generate_if_stmt(condition, &**then_branch, Some(&**b));
                    },
                    None => {
                        self.generate_if_stmt(condition, &**then_branch, None);
                    },
                }
            },
            Stmt::While { condition, body } => {
                self.generate_while_stmt(condition, &**body);
            },
            Stmt::Break => {
                self.generate_break_stmt();
            },
            Stmt::Return(e) => {
                match e {
                    Some(e) => {
                        self.generate_return_stmt(Some(e));
                    },
                    None => {
                        self.generate_return_stmt(None);
                    },
                }
            },
            _ => {},
        }
    }

    /// Lower the statements from position `i` on, in order.
    fn generate_stmts_from(&mut self, stmts: &Vec<Stmt>, i: usize)
        requires
            i <= stmts.len(),
            old(self)@.temps + stmts_size(stmts@.skip(i as int)) <= usize::MAX,
            old(self)@.labels + 2 * stmts_size(stmts@.skip(i as int)) <= usize::MAX,
        ensures
            final(self)@ == gen_stmts_spec(stmts@.skip(i as int), old(self)@),
        decreases stmts_size(stmts@.skip(i as int)), stmts@.len() - i,
    {
        if i < stmts.len() {
            proof {
                assert(stmts@.skip(i as int)[0] == stmts@[i as int]);
                assert(stmts@.skip(i as int).drop_first() =~= stmts@.skip(i as int + 1));
                lemma_gen_stmt_bounds(stmts@[i as int], self@);
            }
            self.generate_statement(&stmts[i]);
            self.generate_stmts_from(stmts, i + 1);
        } else {
            proof {
                assert(stmts@.skip(i as int) =~= Seq::<Stmt>::empty());
            }
        }
    }

    /// Lower `if`: condition, conditional-false branch to the else label
    /// (the end label when there is no else branch), then branch, and for
    /// an else branch a jump to the end, the else label, and the branch;
    /// exactly one join label closes the statement.
    pub fn generate_if_stmt(&mut self, condition: &Expr, then_stmt: &Stmt, else_stmt: Option<&Stmt>)
        requires
            old(self)@.temps + expr_size(*condition) + stmt_size(*then_stmt) + (match else_stmt {
                Some(s) => stmt_size(*s),
                None => 0,
            }) + 1 <= usize::MAX,
            old(self)@.labels + 2 * (expr_size(*condition) + stmt_size(*then_stmt) + (match else_stmt {
                Some(s) => stmt_size(*s),
                None => 0,
            }) + 1) <= usize::MAX,
        ensures
            final(self)@ == gen_if_spec(
                *condition,
                *then_stmt,
                match else_stmt {
                    Some(s) => Some(*s),
                    None => None,
                },
                old(self)@,
            ),
        decreases expr_size(*condition) + stmt_size(*then_stmt) + (match else_stmt {
            Some(s) => stmt_size(*s),
            None => 0,
        }), 1nat,
    {
        proof {
            lemma_gen_expr_bounds(*condition, self@);
        }
        let c = self.generate_expression(condition);
        match else_stmt {
            None => {
                let end = self.new_label();
                self.emit(Quad::new(Op::IfFalse, c, Operand::Empty, Operand::Label(end)));
                proof {
                    lemma_gen_stmt_bounds(*then_stmt, self@);
                }
                self.generate_statement(then_stmt);
                self.emit_label(end);
            },
            Some(els) => {
                let end = self.new_label();
                let else_l = self.new_label();
                self.emit(Quad::new(Op::IfFalse, c, Operand::Empty, Operand::Label(else_l)));
                proof {
                    lemma_gen_stmt_bounds(*then_stmt, self@);
                }
                self.generate_statement(then_stmt);
                self.emit(Quad::new(Op::Goto, Operand::Empty, Operand::Empty, Operand::Label(end)));
                self.emit_label(else_l);
                proof {
                    lemma_gen_stmt_bounds(*els, self@);
                }
                self.generate_statement(els);
                self.emit_label(end);
            },
        }
    }

    /// Lower `while`: start label, condition, conditional-false branch to
    /// the end label, body with the end and start labels as break and
    /// continue targets, jump back to the start, end label.
    pub fn generate_while_stmt(&mut self, condition: &Expr, body: &Stmt)
        requires
            old(self)@.temps + expr_size(*condition) + stmt_size(*body) + 1 <= usize::MAX,
            old(self)@.labels + 2 * (expr_size(*condition) + stmt_size(*body) + 1) <= usize::MAX,
        ensures
            final(self)@ == gen_while_spec(*condition, *body, old(self)@),
        decreases expr_size(*condition) + stmt_size(*body), 1nat,
    {
        let ls = self.new_label();
        let le = self.new_label();
        self.break_targets.push(le);
        self.continue_targets.push(ls);
        proof {
            assert(self@.breaks =~= old(self)@.breaks.push(le as nat));
            assert(self@.continues =~= old(self)@.continues.push(ls as nat));
            assert(self@ =~~= (IRStateV {
                quads: old(self)@.quads,
                temps: old(self)@.temps,
                labels: old(self)@.labels + 2,
                breaks: old(self)@.breaks.push(le as nat),
                continues: old(self)@.continues.push(ls as nat),
            }));
        }
        self.emit_label(ls);
        proof {
            lemma_gen_expr_bounds(*condition, self@);
        }
        let c = self.generate_expression(condition);
        self.emit(Quad::new(Op::IfFalse, c, Operand::Empty, Operand::Label(le)));
        proof {
            lemma_gen_stmt_bounds(*body, self@);
        }
        self.generate_statement(body);
        self.emit(Quad::new(Op::Goto, Operand::Empty, Operand::Empty, Operand::Label(ls)));
        self.emit_label(le);
        let ghost before_pop = self@;
        let _ = self.continue_targets.pop();
        let _ = self.break_targets.pop();
        proof {
            assert(self@.breaks =~= before_pop.breaks.drop_last());
            assert(self@.continues =~= before_pop.continues.drop_last());
            assert(self@ =~~= gen_while_spec(*condition, *body, old(self)@));
        }
    }

    /// Lower `break`: a jump to the innermost break target; with no
    /// enclosing loop nothing is emitted.
    pub fn generate_break_stmt(&mut self)
        ensures
            final(self)@ == gen_break_spec(old(self)@),
    {
        if self.break_targets.len() > 0 {
            let target = self.break_targets[self.break_targets.len() - 1];
            self.emit(Quad::new(Op::Goto, Operand::Empty, Operand::Empty, Operand::Label(target)));
        }
    }

    /// Lower `continue`: a jump to the innermost continue target; with no
    /// enclosing loop nothing is emitted.
    pub fn generate_continue_stmt(&mut self)
        ensures
            final(self)@ == gen_continue_spec(old(self)@),
    {
        if self.continue_targets.len() > 0 {
            let target = self.continue_targets[self.continue_targets.len() - 1];
            self.emit(Quad::new(Op::Goto, Operand::Empty, Operand::Empty, Operand::Label(target)));
        }
    }

    /// Lower `return` with an optional value.
    pub fn generate_return_stmt(&mut self, expr: Option<&Expr>)
        requires
            old(self)@.temps + (match expr {
                Some(e) => expr_size(*e),
                None => 0,
            }) <= usize::MAX,
        ensures
            final(self)@ == gen_return_spec(
                match expr {
                    Some(e) => Some(*e),
                    None => None,
                },
                old(self)@,
            ),
        decreases (match expr {
            Some(e) => expr_size(*e),
            None => 0,
        }), 1nat,
    {
        match expr {
            Some(e) => {
                let v = self.generate_expression(e);
                self.emit(Quad::new(Op::Ret, v, Operand::Empty, Operand::Empty));
            },
            None => {
                self.emit(Quad::new(Op::Ret, Operand::Empty, Operand::Empty, Operand::Empty));
            },
        }
    }

    /// Run one whole generation pass: counters and stacks are reset, the
    /// statements are lowered in order, and the emitted instructions are
    /// handed back. Separate calls on the same input give the same
    /// instructions.
    pub fn generate(&mut self, program: &[Stmt]) -> (r: Vec<Quad>)
        requires
            stmts_size(program@) <= usize::MAX,
            2 * stmts_size(program@) <= usize::MAX,
        ensures
            final(self)@ == gen_program_spec(program@),
            quads_view(r@) == gen_program_spec(program@).quads,
    {
        self.quads.clear();
        self.temp_counter = 0;
        self.label_counter = 0;
        self.break_targets.clear();
        self.continue_targets.clear();
        proof {
            assert(self@ =~~= init_state());
            assert(program@.skip(0) =~= program@);
        }
        self.generate_slice_from(program, 0);
        let ghost snap = *self;
        let mut out: Vec<Quad> = Vec::new();
        let mut i: usize = 0;
        while i < self.quads.len()
            invariant
                i <= self.quads.len(),
                *self == snap,
                out@.len() == i,
                forall|j: int| 0 <= j < i ==> out@[j]@ == self@.quads[j],
            decreases self.quads.len() - i,
        {
            let q = crate::quad::clone_quad(&self.quads[i]);
            out.push(q);
            i += 1;
        }
        proof {
            assert(quads_view(out@) =~= self@.quads);
        }
        out
    }

    /// The instructions emitted so far.
    pub fn quads(&self) -> (r: &Vec<Quad>)
        ensures
            quads_view(r@) == self@.quads,
    {
        proof {
            assert(quads_view(self.quads@) =~= self@.quads);
        }
        &self.quads
    }

    /// Lower the statements of a slice from position `i` on.
    fn generate_slice_from(&mut self, program: &[Stmt], i: usize)
        requires
            i <= program@.len(),
            old(self)@.temps + stmts_size(program@.skip(i as int)) <= usize::MAX,
            old(self)@.labels + 2 * stmts_size(program@.skip(i as int)) <= usize::MAX,
        ensures
            final(self)@ == gen_stmts_spec(program@.skip(i as int), old(self)@),
        decreases program@.len() - i,
    {
        if i < program.len() {
            proof {
                assert(program@.skip(i as int)[0] == program@[i as int]);
                assert(program@.skip(i as int).drop_first() =~= program@.skip(i as int + 1));
                lemma_gen_stmt_bounds(program@[i as int], self@);
            }
            let s = vstd::slice::slice_index_get(program, i);
            self.generate_statement(s);
            self.generate_slice_from(program, i + 1);
        } else {
            proof {
                assert(program@.skip(i as int) =~= Seq::<Stmt>::empty());
            }
        }
    }
}

/// Is this instruction a label definition?
pub open spec fn is_label_quad(q: QuadV) -> bool {
    q.op == Op::Label
}

/// The label id of a label instruction.
pub open spec fn label_id(q: QuadV) -> nat {
    match q.result {
        OperandV::Label(n) => n,
        _ => 0,
    }
}

/// The label a jump instruction targets, if it is one.
pub open spec fn jump_target(q: QuadV) -> Option<nat> {
    if q.op == Op::Goto || q.op == Op::IfFalse {
        match q.result {
            OperandV::Label(n) => Some(n),
            _ => None,
        }
    } else {
        None
    }
}

/// The temporary an instruction defines, if any.
pub open spec fn temp_def(q: QuadV) -> Option<nat> {
    match q.result {
        OperandV::Temp(n) => Some(n),
        _ => None,
    }
}

/// All label definitions lie below `bound` and are pairwise distinct.
pub open spec fn labels_wf(quads: Seq<QuadV>, bound: nat) -> bool {
    &&& (forall|i: int|
        0 <= i < quads.len() && is_label_quad(#[trigger] quads[i]) ==> label_id(quads[i]) < bound)
    &&& (forall|i: int, j: int|
        0 <= i < j < quads.len() && is_label_quad(#[trigger] quads[i]) && is_label_quad(
            #[trigger] quads[j],
        ) ==> label_id(quads[i]) != label_id(quads[j]))
}

/// All temporary definitions lie below `bound` and are pairwise distinct.
pub open spec fn temps_wf(quads: Seq<QuadV>, bound: nat) -> bool {
    &&& (forall|i: int|
        0 <= i < quads.len() && (#[trigger] temp_def(quads[i])) is Some ==> temp_def(
            quads[i],
        )->0 < bound)
    &&& (forall|i: int, j: int|
        0 <= i < j < quads.len() && (#[trigger] temp_def(quads[i])) is Some && (#[trigger] temp_def(
            quads[j],
        )) is Some ==> temp_def(quads[i])->0 != temp_def(quads[j])->0)
}

/// Lowering an expression emits no label and no jump, and every
/// temporary it defines is fresh: inside the window the pass opened for
/// it, above everything defined before.
pub proof fn lemma_gen_expr_emits(e: Expr, st: IRStateV)
    requires
        temps_wf(st.quads, st.temps),
    ensures
        ({
            let (st1, v) = gen_expr_spec(e, st);
            &&& temps_wf(st1.quads, st1.temps)
            &&& (forall|i: int|
                st.quads.len() <= i < st1.quads.len() ==> !is_label_quad(#[trigger] st1.quads[i])
                    && jump_target(st1.quads[i]) is None)
        }),
    decreases expr_size(e), 2nat,
{
    lemma_gen_expr_bounds(e, st);
    match e {
        Expr::Unary { op, operand } => {
            lemma_gen_expr_emits(*operand, st);
            lemma_gen_expr_bounds(*operand, st);
            let (sti, v) = gen_expr_spec(*operand, st);
            assert(gen_expr_spec(e, st) == gen_unary_spec(op, *operand, st));
            let st1 = gen_expr_spec(e, st).0;
            assert(st1 == emit_spec(
                bump_temp(sti),
                QuadV {
                    op: un_op_code(op),
                    arg1: v,
                    arg2: OperandV::Empty,
                    result: OperandV::Temp(sti.temps),
                },
            ));
            assert(temps_wf(st1.quads, st1.temps));
        },
        Expr::Binary { left, op, right } => {
            lemma_gen_expr_emits(*left, st);
            lemma_gen_expr_bounds(*left, st);
            let (st1, l) = gen_expr_spec(*left, st);
            lemma_gen_expr_emits(*right, st1);
            lemma_gen_expr_bounds(*right, st1);
            let (st2, r) = gen_expr_spec(*right, st1);
            let stb = emit_spec(
                bump_temp(st2),
                QuadV { op: bin_op_code(op), arg1: l, arg2: r, result: OperandV::Temp(st2.temps) },
            );
            assert(gen_binary_spec(op, *left, *right, st).0 == stb);
            assert(temps_wf(stb.quads, stb.temps));
            if op == BinOp::Assign {
                match *left {
                    Expr::Identifier(n) => {
                        lemma_gen_expr_emits(*right, st);
                        lemma_gen_expr_bounds(*right, st);
                        let (sta, va) = gen_expr_spec(*right, st);
                        assert(gen_expr_spec(e, st) == gen_assignment_spec(n@, *right, st));
                        assert(gen_expr_spec(e, st).0 == emit_spec(
                            sta,
                            copy_quad(va, OperandV::Name(n@)),
                        ));
                        assert(temps_wf(gen_expr_spec(e, st).0.quads, gen_expr_spec(e, st).0.temps));
                    },
                    _ => {
                        assert(gen_expr_spec(e, st).0 == stb);
                    },
                }
            } else {
                assert(gen_expr_spec(e, st).0 == stb);
            }
        },
        Expr::Call { callee, args } => {
            lemma_gen_expr_emits(*callee, st);
            lemma_gen_expr_bounds(*callee, st);
            let (st1, f) = gen_expr_spec(*callee, st);
            lemma_gen_args_emits(args@, st1);
            lemma_gen_args_bounds(args@, st1);
            let st2 = gen_args_spec(args@, st1);
            let stf = gen_expr_spec(e, st).0;
            assert(stf == emit_spec(
                bump_temp(st2),
                QuadV {
                    op: Op::Call,
                    arg1: f,
                    arg2: OperandV::Empty,
                    result: OperandV::Temp(st2.temps),
                },
            ));
            assert(temps_wf(stf.quads, stf.temps));
        },
        Expr::Grouping(inner) => {
            lemma_gen_expr_emits(*inner, st);
        },
        _ => {},
    }
}

/// Sequence version of `lemma_gen_expr_emits`.
pub proof fn lemma_gen_args_emits(es: Seq<Expr>, st: IRStateV)
    requires
        temps_wf(st.quads, st.temps),
    ensures
        ({
            let st1 = gen_args_spec(es, st);
            &&& temps_wf(st1.quads, st1.temps)
            &&& (forall|i: int|
                st.quads.len() <= i < st1.quads.len() ==> !is_label_quad(#[trigger] st1.quads[i])
                    && jump_target(st1.quads[i]) is None)
        }),
    decreases exprs_size(es), es.len() + 2nat,
{
    if es.len() > 0 {
        lemma_gen_expr_emits(es[0], st);
        lemma_gen_expr_bounds(es[0], st);
        let (st1, _) = gen_expr_spec(es[0], st);
        lemma_gen_args_emits(es.drop_first(), st1);
        lemma_gen_args_bounds(es.drop_first(), st1);
    }
}

/// Lowering one statement keeps every label and temporary definition
/// unique: definitions made before stay below the old counters, and the
/// labels defined by this statement lie exactly in the window the
/// counters moved through.
pub proof fn lemma_gen_stmt_fresh(s: Stmt, st: IRStateV)
    requires
        temps_wf(st.quads, st.temps),
        labels_wf(st.quads, st.labels),
    ensures
        ({
            let st1 = gen_stmt_spec(s, st);
            &&& temps_wf(st1.quads, st1.temps)
            &&& labels_wf(st1.quads, st1.labels)
            &&& (forall|i: int|
                st.quads.len() <= i < st1.quads.len() && is_label_quad(#[trigger] st1.quads[i])
                    ==> st.labels <= label_id(st1.quads[i]) < st1.labels)
        }),
    decreases stmt_size(s), 2nat,
{
    lemma_gen_stmt_bounds(s, st);
    match s {
        Stmt::Expr(e) => {
            lemma_gen_expr_emits(e, st);
        },
        Stmt::Let { name, value, .. } => {
            lemma_gen_expr_emits(value, st);
            lemma_gen_expr_bounds(value, st);
            let (sta, v) = gen_expr_spec(value, st);
            assert(gen_stmt_spec(s, st) == emit_spec(sta, copy_quad(v, OperandV::Name(name@))));
        },
        Stmt::Block(stmts) => {
            lemma_gen_stmts_fresh(stmts@, st);
        },
        Stmt::If { condition, then_branch, else_branch } => {
            lemma_gen_expr_emits(condition, st);
            lemma_gen_expr_bounds(condition, st);
            let (st1, c) = gen_expr_spec(condition, st);
            match else_branch {
                None => {
                    let end = st1.labels;
                    let st2 = IRStateV {
                        quads: st1.quads,
                        temps: st1.temps,
                        labels: st1.labels + 1,
                        breaks: st1.breaks,
                        continues: st1.continues,
                    };
                    let st3 = emit_spec(st2, if_false_quad(c, end));
                    assert(temps_wf(st3.quads, st3.temps));
                    assert(labels_wf(st3.quads, st3.labels));
                    lemma_gen_stmt_fresh(*then_branch, st3);
                    lemma_gen_stmt_bounds(*then_branch, st3);
                    let st4 = gen_stmt_spec(*then_branch, st3);
                    let st5 = emit_spec(st4, label_quad(end));
                    assert(gen_stmt_spec(s, st) == st5);
                    assert(temps_wf(st5.quads, st5.temps));
                    assert forall|i: int, j: int|
                        0 <= i < j < st5.quads.len() && is_label_quad(#[trigger] st5.quads[i])
                            && is_label_quad(#[trigger] st5.quads[j]) implies label_id(st5.quads[i])
                        != label_id(st5.quads[j]) by {
                        if j == st5.quads.len() - 1 {
                            if i < st.quads.len() {
                                assert(st5.quads[i] == st.quads[i]);
                            } else {
                                assert(st4.labels >= st3.labels);
                            }
                        }
                    }
                    assert(labels_wf(st5.quads, st5.labels));
                },
                Some(els) => {
                    let end = st1.labels;
                    let else_l = st1.labels + 1;
                    let st2 = IRStateV {
                        quads: st1.quads,
                        temps: st1.temps,
                        labels: st1.labels + 2,
                        breaks: st1.breaks,
                        continues: st1.continues,
                    };
                    let st3 = emit_spec(st2, if_false_quad(c, else_l));
                    assert(temps_wf(st3.quads, st3.temps));
                    assert(labels_wf(st3.quads, st3.labels));
                    lemma_gen_stmt_fresh(*then_branch, st3);
                    lemma_gen_stmt_bounds(*then_branch, st3);
                    let st4 = gen_stmt_spec(*then_branch, st3);
                    let st5 = emit_spec(st4, goto_quad(end));
                    let st6 = emit_spec(st5, label_quad(else_l));
                    assert(temps_wf(st6.quads, st6.temps));
                    assert forall|i: int, j: int|
                        0 <= i < j < st6.quads.len() && is_label_quad(#[trigger] st6.quads[i])
                            && is_label_quad(#[trigger] st6.quads[j]) implies label_id(st6.quads[i])
                        != label_id(st6.quads[j]) by {
                        if j == st6.quads.len() - 1 {
                            if i < st.quads.len() {
                                assert(st6.quads[i] == st.quads[i]);
                            }
                        }
                    }
                    assert(labels_wf(st6.quads, st6.labels));
                    lemma_gen_stmt_fresh(*els, st6);
                    lemma_gen_stmt_bounds(*els, st6);
                    let st7 = gen_stmt_spec(*els, st6);
                    let st8 = emit_spec(st7, label_quad(end));
                    assert(gen_stmt_spec(s, st) == st8);
                    assert(temps_wf(st8.quads, st8.temps));
                    assert forall|i: int, j: int|
                        0 <= i < j < st8.quads.len() && is_label_quad(#[trigger] st8.quads[i])
                            && is_label_quad(#[trigger] st8.quads[j]) implies label_id(st8.quads[i])
                        != label_id(st8.quads[j]) by {
                        if j == st8.quads.len() - 1 {
                            if i < st.quads.len() {
                                assert(st8.quads[i] == st.quads[i]);
                            } else if i < st6.quads.len() {
                                assert(st8.quads[i] == st6.quads[i]);
                            }
                        }
                    }
                    assert(labels_wf(st8.quads, st8.labels));
                    assert forall|i: int|
                        st.quads.len() <= i < st8.quads.len() && is_label_quad(
                            #[trigger] st8.quads[i],
                        ) implies st.labels <= label_id(st8.quads[i]) < st8.labels by {
                        if i < st6.quads.len() - 1 {
                        } else if i == st6.quads.len() - 1 {
                        } else if i < st7.quads.len() {
                        }
                    }
                },
            }
        },
        Stmt::While { condition, body } => {
            let ls = st.labels;
            let le = st.labels + 1;
            let st1 = IRStateV {
                quads: st.quads,
                temps: st.temps,
                labels: st.labels + 2,
                breaks: st.breaks.push(le),
                continues: st.continues.push(ls),
            };
            let st2 = emit_spec(st1, label_quad(ls));
            assert(temps_wf(st2.quads, st2.temps));
            assert forall|i: int, j: int|
                0 <= i < j < st2.quads.len() && is_label_quad(#[trigger] st2.quads[i])
                    && is_label_quad(#[trigger] st2.quads[j]) implies label_id(st2.quads[i])
                != label_id(st2.quads[j]) by {
                if j == st2.quads.len() - 1 {
                    assert(st2.quads[i] == st.quads[i]);
                }
            }
            assert(labels_wf(st2.quads, st2.labels));
            lemma_gen_expr_emits(condition, st2);
            lemma_gen_expr_bounds(condition, st2);
            let (st3, c) = gen_expr_spec(condition, st2);
            let st4 = emit_spec(st3, if_false_quad(c, le));
            assert(temps_wf(st4.quads, st4.temps));
            assert(labels_wf(st4.quads, st4.labels));
            lemma_gen_stmt_fresh(*body, st4);
            lemma_gen_stmt_bounds(*body, st4);
            let st5 = gen_stmt_spec(*body, st4);
            let st6 = emit_spec(st5, goto_quad(ls));
            let st7 = emit_spec(st6, label_quad(le));
            let out = gen_stmt_spec(s, st);
            assert(out.quads == st7.quads && out.temps == st7.temps && out.labels == st7.labels);
            assert(temps_wf(st7.quads, st7.temps));
            assert forall|i: int, j: int|
                0 <= i < j < st7.quads.len() && is_label_quad(#[trigger] st7.quads[i])
                    && is_label_quad(#[trigger] st7.quads[j]) implies label_id(st7.quads[i])
                != label_id(st7.quads[j]) by {
                if j == st7.quads.len() - 1 {
                    if i < st.quads.len() {
                        assert(st7.quads[i] == st.quads[i]);
                    } else if i == st.quads.len() {
                        assert(st7.quads[i] == label_quad(ls));
                    } else if i < st5.quads.len() {
                        assert(st7.quads[i] == st5.quads[i]);
                    }
                }
            }
            assert(labels_wf(st7.quads, st7.labels));
            assert forall|i: int|
                st.quads.len() <= i < out.quads.len() && is_label_quad(#[trigger] out.quads[i])
                    implies st.labels <= label_id(out.quads[i]) < out.labels by {
                if i == st.quads.len() {
                } else if i < st5.quads.len() {
                    assert(out.quads[i] == st5.quads[i]);
                }
            }
        },
        Stmt::Break => {
            if st.breaks.len() > 0 {
                assert(gen_stmt_spec(s, st) == emit_spec(st, goto_quad(st.breaks.last())));
            }
        },
        Stmt::Return(expr) => {
            match expr {
                Some(e) => {
                    lemma_gen_expr_emits(e, st);
                    lemma_gen_expr_bounds(e, st);
                    let (sta, v) = gen_expr_spec(e, st);
                    assert(gen_stmt_spec(s, st) == emit_spec(
                        sta,
                        QuadV {
                            op: Op::Ret,
                            arg1: v,
                            arg2: OperandV::Empty,
                            result: OperandV::Empty,
                        },
                    ));
                },
                None => {},
            }
        },
        _ => {},
    }
}

/// Sequence version of `lemma_gen_stmt_fresh`.
pub proof fn lemma_gen_stmts_fresh(ss: Seq<Stmt>, st: IRStateV)
    requires
        temps_wf(st.quads, st.temps),
        labels_wf(st.quads, st.labels),
    ensures
        ({
            let st1 = gen_stmts_spec(ss, st);
            &&& temps_wf(st1.quads, st1.temps)
            &&& labels_wf(st1.quads, st1.labels)
            &&& (forall|i: int|
                st.quads.len() <= i < st1.quads.len() && is_label_quad(#[trigger] st1.quads[i])
                    ==> st.labels <= label_id(st1.quads[i]) < st1.labels)
        }),
    decreases stmts_size(ss), ss.len() + 2nat,
{
    if ss.len() > 0 {
        lemma_gen_stmt_fresh(ss[0], st);
        lemma_gen_stmt_bounds(ss[0], st);
        let sta = gen_stmt_spec(ss[0], st);
        lemma_gen_stmts_fresh(ss.drop_first(), sta);
        lemma_gen_stmts_bounds(ss.drop_first(), sta);
    }
}

/// Temporaries and labels are unique within one generation pass: over
/// the instructions of one `generate` run, label definitions are
/// pairwise distinct and so are temporary definitions.
pub proof fn lemma_generate_names_unique(ss: Seq<Stmt>)
    ensures
        ({
            let quads = gen_program_spec(ss).quads;
            &&& (forall|i: int, j: int|
                0 <= i < j < quads.len() && is_label_quad(#[trigger] quads[i]) && is_label_quad(
                    #[trigger] quads[j],
                ) ==> label_id(quads[i]) != label_id(quads[j]))
            &&& (forall|i: int, j: int|
                0 <= i < j < quads.len() && (#[trigger] temp_def(quads[i])) is Some && (
                #[trigger] temp_def(quads[j])) is Some ==> temp_def(quads[i])->0 != temp_def(
                    quads[j],
                )->0)
        }),
{
    lemma_gen_stmts_fresh(ss, init_state());
}

/// In `s.push(x)`, an element is `x` itself or one of `s`.
proof fn lemma_push_contains_cases(s: Seq<nat>, x: nat, y: nat)
    requires
        s.push(x).contains(y),
    ensures
        s.contains(y) || x == y,
{
    let idx = choose|i: int| 0 <= i < s.push(x).len() && s.push(x)[i] == y;
    if idx < s.len() {
        assert(s[idx] == y);
    }
}

/// Every jump a statement's lowering emits lands either on a label
/// emitted by the same lowering, or on one of the break or continue
/// targets the enclosing loops promised.
pub proof fn lemma_gen_stmt_jumps(s: Stmt, st: IRStateV)
    requires
        temps_wf(st.quads, st.temps),
        labels_wf(st.quads, st.labels),
    ensures
        ({
            let st1 = gen_stmt_spec(s, st);
            forall|i: int|
                st.quads.len() <= i < st1.quads.len() && (#[trigger] jump_target(st1.quads[i]))
                    is Some ==> {
                    let t = jump_target(st1.quads[i])->0;
                    ||| (exists|j: int|
                        st.quads.len() <= j < st1.quads.len() && is_label_quad(
                            #[trigger] st1.quads[j],
                        ) && label_id(st1.quads[j]) == t)
                    ||| st.breaks.contains(t)
                    ||| st.continues.contains(t)
                }
        }),
    decreases stmt_size(s), 2nat,
{
    lemma_gen_stmt_bounds(s, st);
    let st1 = gen_stmt_spec(s, st);
    match s {
        Stmt::Expr(e) => {
            lemma_gen_expr_emits(e, st);
        },
        Stmt::Let { name, value, .. } => {
            lemma_gen_expr_emits(value, st);
            lemma_gen_expr_bounds(value, st);
            let (sta, v) = gen_expr_spec(value, st);
            assert(gen_stmt_spec(s, st) == emit_spec(sta, copy_quad(v, OperandV::Name(name@))));
        },
        Stmt::Block(stmts) => {
            lemma_gen_stmts_jumps(stmts@, st);
        },
        Stmt::If { condition, then_branch, else_branch } => {
            lemma_gen_expr_emits(condition, st);
            lemma_gen_expr_bounds(condition, st);
            let (sta, c) = gen_expr_spec(condition, st);
            match else_branch {
                None => {
                    let end = sta.labels;
                    let st2 = IRStateV {
                        quads: sta.quads,
                        temps: sta.temps,
                        labels: sta.labels + 1,
                        breaks: sta.breaks,
                        continues: sta.continues,
                    };
                    let st3 = emit_spec(st2, if_false_quad(c, end));
                    assert(temps_wf(st3.quads, st3.temps));
                    assert(labels_wf(st3.quads, st3.labels));
                    lemma_gen_stmt_jumps(*then_branch, st3);
                    lemma_gen_stmt_fresh(*then_branch, st3);
                    lemma_gen_stmt_bounds(*then_branch, st3);
                    let st4 = gen_stmt_spec(*then_branch, st3);
                    let st5 = emit_spec(st4, label_quad(end));
                    assert(gen_stmt_spec(s, st) == st5);
                    let endpos = st5.quads.len() - 1;
                    assert(is_label_quad(st5.quads[endpos]) && label_id(st5.quads[endpos]) == end);
                    assert forall|i: int|
                        st.quads.len() <= i < st5.quads.len() && (#[trigger] jump_target(
                            st5.quads[i],
                        )) is Some implies {
                        let t = jump_target(st5.quads[i])->0;
                        ||| (exists|j: int|
                            st.quads.len() <= j < st5.quads.len() && is_label_quad(
                                #[trigger] st5.quads[j],
                            ) && label_id(st5.quads[j]) == t)
                        ||| st.breaks.contains(t)
                        ||| st.continues.contains(t)
                    } by {
                        let t = jump_target(st5.quads[i])->0;
                        if i < sta.quads.len() {
                            assert(st5.quads[i] == st4.quads[i]);
                            assert(st4.quads[i] == st3.quads[i]);
                            assert(st3.quads[i] == sta.quads[i]);
                        } else if i == st3.quads.len() - 1 {
                            assert(st5.quads[i] == if_false_quad(c, end));
                            assert(is_label_quad(st5.quads[endpos]) && label_id(st5.quads[endpos])
                                == end);
                        } else if i < st4.quads.len() {
                            assert(st5.quads[i] == st4.quads[i]);
                            assert(st3.breaks == st.breaks && st3.continues == st.continues);
                            if exists|j: int|
                                st3.quads.len() <= j < st4.quads.len() && is_label_quad(
                                    #[trigger] st4.quads[j],
                                ) && label_id(st4.quads[j]) == t {
                                let jj = choose|j: int|
                                    st3.quads.len() <= j < st4.quads.len() && is_label_quad(
                                        #[trigger] st4.quads[j],
                                    ) && label_id(st4.quads[j]) == t;
                                assert(st5.quads[jj] == st4.quads[jj]);
                            }
                        }
                    }
                },
                Some(els) => {
                    let end = sta.labels;
                    let else_l = sta.labels + 1;
                    let st2 = IRStateV {
                        quads: sta.quads,
                        temps: sta.temps,
                        labels: sta.labels + 2,
                        breaks: sta.breaks,
                        continues: sta.continues,
                    };
                    let st3 = emit_spec(st2, if_false_quad(c, else_l));
                    assert(temps_wf(st3.quads, st3.temps));
                    assert(labels_wf(st3.quads, st3.labels));
                    lemma_gen_stmt_jumps(*then_branch, st3);
                    lemma_gen_stmt_fresh(*then_branch, st3);
                    lemma_gen_stmt_bounds(*then_branch, st3);
                    let st4 = gen_stmt_spec(*then_branch, st3);
                    let st5 = emit_spec(st4, goto_quad(end));
                    let st6 = emit_spec(st5, label_quad(else_l));
                    assert(temps_wf(st6.quads, st6.temps));
                    assert forall|i: int, j: int|
                        0 <= i < j < st6.quads.len() && is_label_quad(#[trigger] st6.quads[i])
                            && is_label_quad(#[trigger] st6.quads[j]) implies label_id(st6.quads[i])
                        != label_id(st6.quads[j]) by {
                        if j == st6.quads.len() - 1 {
                            if i < st.quads.len() {
                                assert(st6.quads[i] == st.quads[i]);
                            }
                        }
                    }
                    assert(labels_wf(st6.quads, st6.labels));
                    lemma_gen_stmt_jumps(*els, st6);
                    lemma_gen_stmt_fresh(*els, st6);
                    lemma_gen_stmt_bounds(*els, st6);
                    let st7 = gen_stmt_spec(*els, st6);
                    let st8 = emit_spec(st7, label_quad(end));
                    assert(gen_stmt_spec(s, st) == st8);
                    let elsepos = st5.quads.len() as int;
                    assert(st6.quads[elsepos] == label_quad(else_l));
                    assert(st8.quads[elsepos] == label_quad(else_l));
                    let endpos = st8.quads.len() - 1;
                    assert(st8.quads[endpos] == label_quad(end));
                    assert forall|i: int|
                        st.quads.len() <= i < st8.quads.len() && (#[trigger] jump_target(
                            st8.quads[i],
                        )) is Some implies {
                        let t = jump_target(st8.quads[i])->0;
                        ||| (exists|j: int|
                            st.quads.len() <= j < st8.quads.len() && is_label_quad(
                                #[trigger] st8.quads[j],
                            ) && label_id(st8.quads[j]) == t)
                        ||| st.breaks.contains(t)
                        ||| st.continues.contains(t)
                    } by {
                        let t = jump_target(st8.quads[i])->0;
                        if i < sta.quads.len() {
                            assert(st8.quads[i] == st7.quads[i]);
                            assert(st7.quads[i] == st6.quads[i]);
                            assert(st6.quads[i] == st5.quads[i]);
                            assert(st5.quads[i] == st4.quads[i]);
                            assert(st4.quads[i] == st3.quads[i]);
                            assert(st3.quads[i] == sta.quads[i]);
                        } else if i == st3.quads.len() - 1 {
                            assert(st8.quads[i] == st7.quads[i]);
                            assert(st7.quads[i] == st6.quads[i]);
                            assert(st6.quads[i] == st5.quads[i]);
                            assert(st5.quads[i] == st4.quads[i]);
                            assert(st4.quads[i] == st3.quads[i]);
                            assert(st3.quads[i] == if_false_quad(c, else_l));
                            assert(is_label_quad(st8.quads[elsepos]) && label_id(
                                st8.quads[elsepos],
                            ) == else_l);
                        } else if i < st4.quads.len() {
                            assert(st8.quads[i] == st7.quads[i]);
                            assert(st7.quads[i] == st6.quads[i]);
                            assert(st6.quads[i] == st5.quads[i]);
                            assert(st5.quads[i] == st4.quads[i]);
                            assert(st3.breaks == st.breaks && st3.continues == st.continues);
                            if exists|j: int|
                                st3.quads.len() <= j < st4.quads.len() && is_label_quad(
                                    #[trigger] st4.quads[j],
                                ) && label_id(st4.quads[j]) == t {
                                let jj = choose|j: int|
                                    st3.quads.len() <= j < st4.quads.len() && is_label_quad(
                                        #[trigger] st4.quads[j],
                                    ) && label_id(st4.quads[j]) == t;
                                assert(st8.quads[jj] == st7.quads[jj]);
                                assert(st7.quads[jj] == st6.quads[jj]);
                                assert(st6.quads[jj] == st5.quads[jj]);
                                assert(st5.quads[jj] == st4.quads[jj]);
                            }
                        } else if i == st4.quads.len() {
                            assert(st8.quads[i] == st7.quads[i]);
                            assert(st7.quads[i] == st6.quads[i]);
                            assert(st6.quads[i] == st5.quads[i]);
                            assert(st5.quads[i] == goto_quad(end));
                            assert(is_label_quad(st8.quads[endpos]) && label_id(st8.quads[endpos])
                                == end);
                        } else if i == st5.quads.len() {
                            assert(st8.quads[i] == st7.quads[i]);
                            assert(st7.quads[i] == st6.quads[i]);
                            assert(st6.quads[i] == label_quad(else_l));
                        } else if i < st7.quads.len() {
                            assert(st8.quads[i] == st7.quads[i]);
                            assert(st6.breaks == st.breaks && st6.continues == st.continues);
                            if exists|j: int|
                                st6.quads.len() <= j < st7.quads.len() && is_label_quad(
                                    #[trigger] st7.quads[j],
                                ) && label_id(st7.quads[j]) == t {
                                let jj = choose|j: int|
                                    st6.quads.len() <= j < st7.quads.len() && is_label_quad(
                                        #[trigger] st7.quads[j],
                                    ) && label_id(st7.quads[j]) == t;
                                assert(st8.quads[jj] == st7.quads[jj]);
                            }
                        } else {
                            assert(st8.quads[i] == label_quad(end));
                        }
                    }
                },
            }
        },
        Stmt::While { condition, body } => {
            let ls = st.labels;
            let le = st.labels + 1;
            let stw = IRStateV {
                quads: st.quads,
                temps: st.temps,
                labels: st.labels + 2,
                breaks: st.breaks.push(le),
                continues: st.continues.push(ls),
            };
            let st2 = emit_spec(stw, label_quad(ls));
            assert(temps_wf(st2.quads, st2.temps));
            assert forall|i: int, j: int|
                0 <= i < j < st2.quads.len() && is_label_quad(#[trigger] st2.quads[i])
                    && is_label_quad(#[trigger] st2.quads[j]) implies label_id(st2.quads[i])
                != label_id(st2.quads[j]) by {
                if j == st2.quads.len() - 1 {
                    assert(st2.quads[i] == st.quads[i]);
                }
            }
            assert(labels_wf(st2.quads, st2.labels));
            lemma_gen_expr_emits(condition, st2);
            lemma_gen_expr_bounds(condition, st2);
            let (st3, c) = gen_expr_spec(condition, st2);
            let st4 = emit_spec(st3, if_false_quad(c, le));
            assert(temps_wf(st4.quads, st4.temps));
            assert(labels_wf(st4.quads, st4.labels));
            lemma_gen_stmt_jumps(*body, st4);
            lemma_gen_stmt_fresh(*body, st4);
            lemma_gen_stmt_bounds(*body, st4);
            let st5 = gen_stmt_spec(*body, st4);
            let st6 = emit_spec(st5, goto_quad(ls));
            let st7 = emit_spec(st6, label_quad(le));
            assert(st1.quads == st7.quads);
            let lspos = st.quads.len() as int;
            assert(st7.quads[lspos] == label_quad(ls));
            let lepos = st7.quads.len() - 1;
            assert(st7.quads[lepos] == label_quad(le));
            assert forall|i: int|
                st.quads.len() <= i < st7.quads.len() && (#[trigger] jump_target(st7.quads[i]))
                    is Some implies {
                let t = jump_target(st7.quads[i])->0;
                ||| (exists|j: int|
                    st.quads.len() <= j < st7.quads.len() && is_label_quad(#[trigger] st7.quads[j])
                        && label_id(st7.quads[j]) == t)
                ||| st.breaks.contains(t)
                ||| st.continues.contains(t)
            } by {
                let t = jump_target(st7.quads[i])->0;
                if i == st.quads.len() {
                    assert(st7.quads[i] == st6.quads[i]);
                    assert(st6.quads[i] == st5.quads[i]);
                    assert(st5.quads[i] == st4.quads[i]);
                    assert(st4.quads[i] == st3.quads[i]);
                    assert(st3.quads[i] == st2.quads[i]);
                    assert(st2.quads[i] == label_quad(ls));
                } else if i < st3.quads.len() {
                    assert(st7.quads[i] == st6.quads[i]);
                    assert(st6.quads[i] == st5.quads[i]);
                    assert(st5.quads[i] == st4.quads[i]);
                    assert(st4.quads[i] == st3.quads[i]);
                } else if i == st3.quads.len() {
                    assert(st7.quads[i] == st6.quads[i]);
                    assert(st6.quads[i] == st5.quads[i]);
                    assert(st5.quads[i] == st4.quads[i]);
                    assert(st4.quads[i] == if_false_quad(c, le));
                    assert(is_label_quad(st7.quads[lepos]) && label_id(st7.quads[lepos]) == le);
                } else if i < st5.quads.len() {
                    assert(st7.quads[i] == st6.quads[i]);
                    assert(st6.quads[i] == st5.quads[i]);
                    assert(jump_target(st5.quads[i]) is Some);
                    assert(st4.breaks == st.breaks.push(le));
                    assert(st4.continues == st.continues.push(ls));
                    if exists|j: int|
                        st4.quads.len() <= j < st5.quads.len() && is_label_quad(
                            #[trigger] st5.quads[j],
                        ) && label_id(st5.quads[j]) == t {
                        let jj = choose|j: int|
                            st4.quads.len() <= j < st5.quads.len() && is_label_quad(
                                #[trigger] st5.quads[j],
                            ) && label_id(st5.quads[j]) == t;
                        assert(st7.quads[jj] == st6.quads[jj]);
                        assert(st6.quads[jj] == st5.quads[jj]);
                    } else if st4.breaks.contains(t) {
                        lemma_push_contains_cases(st.breaks, le, t);
                        if t == le {
                            assert(is_label_quad(st7.quads[lepos]) && label_id(st7.quads[lepos])
                                == le);
                        }
                    } else {
                        assert(st4.continues.contains(t));
                        lemma_push_contains_cases(st.continues, ls, t);
                        if t == ls {
                            assert(is_label_quad(st7.quads[lspos]) && label_id(st7.quads[lspos])
                                == ls);
                        }
                    }
                } else if i == st5.quads.len() {
                    assert(st7.quads[i] == st6.quads[i]);
                    assert(st6.quads[i] == goto_quad(ls));
                    assert(is_label_quad(st7.quads[lspos]) && label_id(st7.quads[lspos]) == ls);
                } else {
                    assert(st7.quads[i] == label_quad(le));
                }
            }
        },
        Stmt::Break => {
            if st.breaks.len() > 0 {
                assert(gen_stmt_spec(s, st) == emit_spec(st, goto_quad(st.breaks.last())));
                assert(st.breaks[st.breaks.len() - 1] == st.breaks.last());
                assert(st.breaks.contains(st.breaks.last()));
            }
        },
        Stmt::Return(expr) => {
            match expr {
                Some(e) => {
                    lemma_gen_expr_emits(e, st);
                    lemma_gen_expr_bounds(e, st);
                    let (sta, v) = gen_expr_spec(e, st);
                    assert(gen_stmt_spec(s, st) == emit_spec(
                        sta,
                        QuadV {
                            op: Op::Ret,
                            arg1: v,
                            arg2: OperandV::Empty,
                            result: OperandV::Empty,
                        },
                    ));
                },
                None => {},
            }
        },
        _ => {},
    }
}

/// Sequence version of `lemma_gen_stmt_jumps`.
pub proof fn lemma_gen_stmts_jumps(ss: Seq<Stmt>, st: IRStateV)
    requires
        temps_wf(st.quads, st.temps),
        labels_wf(st.quads, st.labels),
    ensures
        ({
            let st1 = gen_stmts_spec(ss, st);
            forall|i: int|
                st.quads.len() <= i < st1.quads.len() && (#[trigger] jump_target(st1.quads[i]))
                    is Some ==> {
                    let t = jump_target(st1.quads[i])->0;
                    ||| (exists|j: int|
                        st.quads.len() <= j < st1.quads.len() && is_label_quad(
                            #[trigger] st1.quads[j],
                        ) && label_id(st1.quads[j]) == t)
                    ||| st.breaks.contains(t)
                    ||| st.continues.contains(t)
                }
        }),
    decreases stmts_size(ss), ss.len() + 2nat,
{
    if ss.len() > 0 {
        lemma_gen_stmt_jumps(ss[0], st);
        lemma_gen_stmt_fresh(ss[0], st);
        lemma_gen_stmt_bounds(ss[0], st);
        let sta = gen_stmt_spec(ss[0], st);
        lemma_gen_stmts_jumps(ss.drop_first(), sta);
        lemma_gen_stmts_bounds(ss.drop_first(), sta);
        let st1 = gen_stmts_spec(ss.drop_first(), sta);
        assert(sta.breaks == st.breaks && sta.continues == st.continues);
        assert forall|i: int|
            st.quads.len() <= i < st1.quads.len() && (#[trigger] jump_target(st1.quads[i]))
                is Some implies {
            let t = jump_target(st1.quads[i])->0;
            ||| (exists|j: int|
                st.quads.len() <= j < st1.quads.len() && is_label_quad(#[trigger] st1.quads[j])
                    && label_id(st1.quads[j]) == t)
            ||| st.breaks.contains(t)
            ||| st.continues.contains(t)
        } by {
            if i < sta.quads.len() {
                assert(st1.quads[i] == sta.quads[i]);
            }
        }
    }
}

/// Every label referenced by a jump in one generation pass is emitted
/// exactly once as a label instruction: a matching label exists, and by
/// `lemma_generate_names_unique` it is the only one with its id.
pub proof fn lemma_generate_jumps_resolved(ss: Seq<Stmt>)
    ensures
        ({
            let quads = gen_program_spec(ss).quads;
            forall|i: int|
                0 <= i < quads.len() && (#[trigger] jump_target(quads[i])) is Some ==> exists|j: int|
                    0 <= j < quads.len() && is_label_quad(#[trigger] quads[j]) && label_id(quads[j])
                        == jump_target(quads[i])->0
        }),
{
    lemma_gen_stmts_jumps(ss, init_state());
}

/// Expressions that are their own place and emit nothing.
pub open spec fn is_own_place(e: Expr) -> bool {
    match e {
        Expr::Identifier(_) => true,
        Expr::IntLit(_) => true,
        Expr::FloatLit(_) => true,
        Expr::StrLit(_) => true,
        Expr::BoolLit(_) => true,
        _ => false,
    }
}

/// The place of an expression that is its own place.
pub open spec fn place_of(e: Expr) -> OperandV {
    match e {
        Expr::Identifier(n) => OperandV::Name(n@),
        Expr::IntLit(t) => OperandV::Name(t@),
        Expr::FloatLit(t) => OperandV::Name(t@),
        Expr::StrLit(t) => OperandV::Name(t@),
        Expr::BoolLit(b) => OperandV::Name(
            if b {
                "true"@
            } else {
                "false"@
            },
        ),
        _ => OperandV::Empty,
    }
}

/// An expression that is its own place lowers to it without emitting.
pub proof fn lemma_own_place(e: Expr, st: IRStateV)
    requires
        is_own_place(e),
    ensures
        gen_expr_spec(e, st) == (st, place_of(e)),
{
}

/// A statement of the shape `x = a;` where `a` is its own place.
pub open spec fn is_simple_assign(s: Stmt) -> bool {
    match s {
        Stmt::Expr(Expr::Binary { left, op, right }) => op == BinOp::Assign && (*left)
            is Identifier && is_own_place(*right),
        _ => false,
    }
}

/// The assigned name of a simple assignment statement.
pub open spec fn assign_target(s: Stmt) -> Seq<char> {
    match s {
        Stmt::Expr(Expr::Binary { left, .. }) => match *left {
            Expr::Identifier(n) => n@,
            _ => Seq::empty(),
        },
        _ => Seq::empty(),
    }
}

/// The right-hand side of a simple assignment statement.
pub open spec fn assign_value(s: Stmt) -> Expr {
    match s {
        Stmt::Expr(Expr::Binary { right, .. }) => *right,
        _ => Expr::BoolLit(false),
    }
}

/// A simple assignment lowers to exactly one copy instruction.
pub proof fn lemma_simple_assign(s: Stmt, st: IRStateV)
    requires
        is_simple_assign(s),
    ensures
        gen_stmt_spec(s, st) == emit_spec(
            st,
            copy_quad(place_of(assign_value(s)), OperandV::Name(assign_target(s))),
        ),
{
    match s {
        Stmt::Expr(e) => {
            match e {
                Expr::Binary { left, op, right } => {
                    match *left {
                        Expr::Identifier(n) => {
                            lemma_own_place(*right, st);
                            assert(gen_expr_spec(e, st) == gen_assignment_spec(n@, *right, st));
                        },
                        _ => {},
                    }
                },
                _ => {},
            }
        },
        _ => {},
    }
}

/// Lowering `if (cond) { a = ...; } else { a = ...; }` with a condition
/// that is its own place yields exactly six instructions in order: a
/// conditional-false branch to a generated else label, the copy of the
/// then branch, an unconditional jump to a generated end label, the else
/// label, the copy of the else branch, and the end label; the two label
/// names differ.
pub proof fn lemma_if_else_lowering_shape(condition: Expr, then_s: Stmt, else_s: Stmt, st: IRStateV)
    requires
        is_own_place(condition),
        is_simple_assign(then_s),
        is_simple_assign(else_s),
    ensures
        ({
            let out = gen_if_spec(condition, then_s, Some(else_s), st);
            let end = st.labels;
            let else_l = st.labels + 1;
            &&& out.quads =~= st.quads.push(if_false_quad(place_of(condition), else_l)).push(
                copy_quad(place_of(assign_value(then_s)), OperandV::Name(assign_target(then_s))),
            ).push(goto_quad(end)).push(label_quad(else_l)).push(
                copy_quad(place_of(assign_value(else_s)), OperandV::Name(assign_target(else_s))),
            ).push(label_quad(end))
            &&& out.quads.len() == st.quads.len() + 6
            &&& else_l != end
            &&& out.labels == st.labels + 2
            &&& out.temps == st.temps
        }),
{
    lemma_own_place(condition, st);
    let (st1, c) = gen_expr_spec(condition, st);
    let end = st1.labels;
    let else_l = st1.labels + 1;
    let st2 = IRStateV {
        quads: st1.quads,
        temps: st1.temps,
        labels: st1.labels + 2,
        breaks: st1.breaks,
        continues: st1.continues,
    };
    let st3 = emit_spec(st2, if_false_quad(c, else_l));
    lemma_simple_assign(then_s, st3);
    let st4 = gen_stmt_spec(then_s, st3);
    let st5 = emit_spec(st4, goto_quad(end));
    let st6 = emit_spec(st5, label_quad(else_l));
    lemma_simple_assign(else_s, st6);
    let st7 = gen_stmt_spec(else_s, st6);
    let st8 = emit_spec(st7, label_quad(end));
    assert(gen_if_spec(condition, then_s, Some(else_s), st) == st8);
}

/// `gen_stmts_spec` splits at any point: the whole run equals running the
/// prefix and then the rest.
pub proof fn lemma_gen_stmts_split(ss: Seq<Stmt>, k: int, st: IRStateV)
    requires
        0 <= k <= ss.len(),
    ensures
        gen_stmts_spec(ss, st) == gen_stmts_spec(ss.skip(k), gen_stmts_spec(ss.take(k), st)),
    decreases k,
{
    if k == 0 {
        assert(ss.take(0) =~= Seq::<Stmt>::empty());
        assert(ss.skip(0) =~= ss);
    } else {
        assert(ss.take(k)[0] == ss[0]);
        let sta = gen_stmt_spec(ss[0], st);
        assert(ss.take(k).drop_first() =~= ss.drop_first().take(k - 1));
        lemma_gen_stmts_split(ss.drop_first(), k - 1, sta);
        assert(ss.drop_first().skip(k - 1) =~= ss.skip(k));
        assert(ss.drop_first().take(k - 1) =~= ss.take(k).drop_first());
    }
}

/// In `while (cond) { ...; break; ... }`, the `break` lowers to a jump
/// whose target is the loop-end label: the label pushed as the break
/// target for the body, and the one the label instruction that closes
/// the loop's lowering carries.
pub proof fn lemma_while_break_targets_loop_end(condition: Expr, body: Stmt, k: int, st: IRStateV)
    requires
        body is Block,
        0 <= k < (body->Block_0)@.len(),
        (body->Block_0)@[k] is Break,
    ensures
        ({
            let ss = (body->Block_0)@;
            let ls = st.labels;
            let le = st.labels + 1;
            let st1 = IRStateV {
                quads: st.quads,
                temps: st.temps,
                labels: st.labels + 2,
                breaks: st.breaks.push(le),
                continues: st.continues.push(ls),
            };
            let st2 = emit_spec(st1, label_quad(ls));
            let (st3, c) = gen_expr_spec(condition, st2);
            let st4 = emit_spec(st3, if_false_quad(c, le));
            let stb = gen_stmts_spec(ss.take(k), st4);
            &&& stb.breaks == st.breaks.push(le)
            &&& gen_stmt_spec(ss[k], stb) == emit_spec(stb, goto_quad(le))
            &&& gen_while_spec(condition, body, st).quads.len() > 0
            &&& gen_while_spec(condition, body, st).quads.last() == label_quad(le)
        }),
{
    let ss = (body->Block_0)@;
    let ls = st.labels;
    let le = st.labels + 1;
    let st1 = IRStateV {
        quads: st.quads,
        temps: st.temps,
        labels: st.labels + 2,
        breaks: st.breaks.push(le),
        continues: st.continues.push(ls),
    };
    let st2 = emit_spec(st1, label_quad(ls));
    lemma_gen_expr_bounds(condition, st2);
    let (st3, c) = gen_expr_spec(condition, st2);
    let st4 = emit_spec(st3, if_false_quad(c, le));
    lemma_gen_stmts_bounds(ss.take(k), st4);
    let stb = gen_stmts_spec(ss.take(k), st4);
    assert(stb.breaks == st.breaks.push(le));
    assert(stb.breaks.len() > 0 && stb.breaks.last() == le);
    assert(gen_stmt_spec(ss[k], stb) == emit_spec(stb, goto_quad(le)));
    let st5 = gen_stmt_spec(body, st4);
    let st6 = emit_spec(st5, goto_quad(ls));
    let st7 = emit_spec(st6, label_quad(le));
    assert(gen_while_spec(condition, body, st).quads == st7.quads);
}

} // verus!
