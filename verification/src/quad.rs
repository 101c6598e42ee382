//! One three-address instruction: an opcode, up to two source operands,
//! and one destination, with a stable textual rendering.

use vstd::prelude::*;
use vstd::string::*;

verus! {

/// Opcode of one instruction. The set is closed, so rendering is
/// exhaustive at compile time instead of falling back at run time.
#[derive(Clone, Copy, Debug, PartialEq, Eq, Structural)]
pub enum Op {
    Copy,
    Add,
    Sub,
    Mul,
    Div,
    Mod,
    Lt,
    Gt,
    Le,
    Ge,
    Eq,
    Ne,
    And,
    Or,
    Neg,
    Not,
    Call,
    Goto,
    IfFalse,
    Ret,
    Label,
    Unhandled,
}

/// One operand: empty, a source-level name or literal spelling, a
/// generated temporary, or a generated label.
#[derive(Debug, PartialEq, Eq)]
pub enum Operand {
    Empty,
    Name(String),
    Temp(usize),
    Label(usize),
}

/// Mathematical model of an `Operand`.
#[verifier::ext_equal]
pub ghost enum OperandV {
    Empty,
    Name(Seq<char>),
    Temp(nat),
    Label(nat),
}

impl View for Operand {
    type V = OperandV;

    open spec fn view(&self) -> OperandV {
        match self {
            Operand::Empty => OperandV::Empty,
            Operand::Name(s) => OperandV::Name(s@),
            Operand::Temp(n) => OperandV::Temp(*n as nat),
            Operand::Label(n) => OperandV::Label(*n as nat),
        }
    }
}

/// One instruction.
#[derive(Debug, PartialEq, Eq)]
pub struct Quad {
    pub op: Op,
    pub arg1: Operand,
    pub arg2: Operand,
    pub result: Operand,
}

/// Mathematical model of a `Quad`.
#[verifier::ext_equal]
pub ghost struct QuadV {
    pub op: Op,
    pub arg1: OperandV,
    pub arg2: OperandV,
    pub result: OperandV,
}

impl View for Quad {
    type V = QuadV;

    open spec fn view(&self) -> QuadV {
        QuadV { op: self.op, arg1: self.arg1@, arg2: self.arg2@, result: self.result@ }
    }
}

/// The decimal digit character for `d`.
pub open spec fn digit_char(d: nat) -> char {
    if d == 0 {
        '0'
    } else if d == 1 {
        '1'
    } else if d == 2 {
        '2'
    } else if d == 3 {
        '3'
    } else if d == 4 {
        '4'
    } else if d == 5 {
        '5'
    } else if d == 6 {
        '6'
    } else if d == 7 {
        '7'
    } else if d == 8 {
        '8'
    } else {
        '9'
    }
}

/// The decimal digits of `n`, most significant first, no leading zeros
/// except for `n == 0` itself.
pub open spec fn dec_digits(n: nat) -> Seq<char>
    decreases n,
{
    if n < 10 {
        seq![digit_char(n)]
    } else {
        dec_digits(n / 10).push(digit_char(n % 10))
    }
}

/// One decimal digit as text.
fn digit_str(d: usize) -> (r: &'static str)
    requires
        d < 10,
    ensures
        r@ == seq![digit_char(d as nat)],
{
    let r: &'static str = match d {
        0 => "0",
        1 => "1",
        2 => "2",
        3 => "3",
        4 => "4",
        5 => "5",
        6 => "6",
        7 => "7",
        8 => "8",
        _ => "9",
    };
    proof {
        reveal_strlit("0");
        reveal_strlit("1");
        reveal_strlit("2");
        reveal_strlit("3");
        reveal_strlit("4");
        reveal_strlit("5");
        reveal_strlit("6");
        reveal_strlit("7");
        reveal_strlit("8");
        reveal_strlit("9");
        assert(r@ =~= seq![digit_char(d as nat)]);
    }
    r
}

/// Render `n` in decimal.
pub fn usize_to_dec(n: usize) -> (r: String)
    ensures
        r@ == dec_digits(n as nat),
    decreases n,
{
    if n < 10 {
        String::from_str(digit_str(n))
    } else {
        proof {
            assert(n / 10 < n) by (nonlinear_arith)
                requires
                    n >= 10,
            ;
        }
        let mut s = usize_to_dec(n / 10);
        let d = digit_str(n % 10);
        s.append(d);
        proof {
            assert(s@ =~= dec_digits(n as nat));
        }
        s
    }
}

/// The text of one operand: a temporary `n` prints as `_tn`, a label `n`
/// as `_Ln`, a name as itself, an empty operand as nothing.
pub open spec fn operand_text(o: OperandV) -> Seq<char> {
    match o {
        OperandV::Empty => Seq::empty(),
        OperandV::Name(s) => s,
        OperandV::Temp(n) => "_t"@ + dec_digits(n),
        OperandV::Label(n) => "_L"@ + dec_digits(n),
    }
}

/// Render one operand.
pub fn operand_to_string(o: &Operand) -> (r: String)
    ensures
        r@ == operand_text(o@),
{
    match o {
        Operand::Empty => {
            let r = String::new();
            proof {
                assert(r@ =~= operand_text(o@));
            }
            r
        },
        Operand::Name(s) => s.clone(),
        Operand::Temp(n) => {
            let mut s = String::from_str("_t");
            let d = usize_to_dec(*n);
            s.append(d.as_str());
            s
        },
        Operand::Label(n) => {
            let mut s = String::from_str("_L");
            let d = usize_to_dec(*n);
            s.append(d.as_str());
            s
        },
    }
}

/// The placeholder name of an opcode that has no dedicated rendering.
pub open spec fn op_placeholder_name(op: Op) -> Seq<char> {
    if op == Op::Call {
        "call"@
    } else {
        "op_unhandled"@
    }
}

/// The symbol of a binary opcode.
pub open spec fn op_symbol(op: Op) -> Seq<char> {
    match op {
        Op::Add => "+"@,
        Op::Sub => "-"@,
        Op::Mul => "*"@,
        Op::Div => "/"@,
        Op::Mod => "%"@,
        Op::Lt => "<"@,
        Op::Gt => ">"@,
        Op::Le => "<="@,
        Op::Ge => ">="@,
        Op::Eq => "=="@,
        Op::Ne => "!="@,
        Op::And => "&&"@,
        Op::Or => "||"@,
        _ => ""@,
    }
}

/// The stable textual form of one instruction: `result = arg1` for a
/// copy, `goto result` for a jump, `if_false arg1 goto result` for a
/// conditional branch, `result = arg1 OP arg2` for a binary operation,
/// `result = neg/not arg1` for a unary one, `return arg1`, `result:` for
/// a label, and a visibly marked placeholder for anything else, never
/// silently dropped.
pub open spec fn render_quad(q: QuadV) -> Seq<char> {
    match q.op {
        Op::Copy => operand_text(q.result) + " = "@ + operand_text(q.arg1),
        Op::Goto => "goto "@ + operand_text(q.result),
        Op::IfFalse => "if_false "@ + operand_text(q.arg1) + " goto "@ + operand_text(q.result),
        Op::Add | Op::Sub | Op::Mul | Op::Div | Op::Mod | Op::Lt | Op::Gt | Op::Le | Op::Ge
            | Op::Eq | Op::Ne | Op::And | Op::Or => operand_text(q.result) + " = "@ + operand_text(
            q.arg1,
        ) + " "@ + op_symbol(q.op) + " "@ + operand_text(q.arg2),
        Op::Neg => operand_text(q.result) + " = neg "@ + operand_text(q.arg1),
        Op::Not => operand_text(q.result) + " = not "@ + operand_text(q.arg1),
        Op::Ret => "return "@ + operand_text(q.arg1),
        Op::Label => operand_text(q.result) + ":"@,
        Op::Call | Op::Unhandled => "/* Unhandled Quad: "@ + op_placeholder_name(q.op) + " "@
            + operand_text(q.arg1) + " "@ + operand_text(q.arg2) + " "@ + operand_text(q.result)
            + " */"@,
    }
}

impl Quad {
    /// Build one instruction.
    pub fn new(op: Op, arg1: Operand, arg2: Operand, result: Operand) -> (q: Quad)
        ensures
            q@ == (QuadV { op, arg1: arg1@, arg2: arg2@, result: result@ }),
    {
        Quad { op, arg1, arg2, result }
    }

    /// Render this instruction in its stable textual form.
    pub fn to_string(&self) -> (r: String)
        ensures
            r@ == render_quad(self@),
    {
        match self.op {
            Op::Copy => {
                let mut s = operand_to_string(&self.result);
                s.append(" = ");
                let a = operand_to_string(&self.arg1);
                s.append(a.as_str());
                s
            },
            Op::Goto => {
                let mut s = String::from_str("goto ");
                let a = operand_to_string(&self.result);
                s.append(a.as_str());
                s
            },
            Op::IfFalse => {
                let mut s = String::from_str("if_false ");
                let a = operand_to_string(&self.arg1);
                s.append(a.as_str());
                s.append(" goto ");
                let b = operand_to_string(&self.result);
                s.append(b.as_str());
                s
            },
            Op::Add | Op::Sub | Op::Mul | Op::Div | Op::Mod | Op::Lt | Op::Gt | Op::Le | Op::Ge
                | Op::Eq | Op::Ne | Op::And | Op::Or => {
                let mut s = operand_to_string(&self.result);
                s.append(" = ");
                let a = operand_to_string(&self.arg1);
                s.append(a.as_str());
                s.append(" ");
                let sym = self.op_symbol_str();
                s.append(sym);
                s.append(" ");
                let b = operand_to_string(&self.arg2);
                s.append(b.as_str());
                s
            },
            Op::Neg => {
                let mut s = operand_to_string(&self.result);
                s.append(" = neg ");
                let a = operand_to_string(&self.arg1);
                s.append(a.as_str());
                s
            },
            Op::Not => {
                let mut s = operand_to_string(&self.result);
                s.append(" = not ");
                let a = operand_to_string(&self.arg1);
                s.append(a.as_str());
                s
            },
            Op::Ret => {
                let mut s = String::from_str("return ");
                let a = operand_to_string(&self.arg1);
                s.append(a.as_str());
                s
            },
            Op::Label => {
                let mut s = operand_to_string(&self.result);
                s.append(":");
                s
            },
            Op::Call | Op::Unhandled => {
                let mut s = String::from_str("/* Unhandled Quad: ");
                if self.op == Op::Call {
                    s.append("call");
                } else {
                    s.append("op_unhandled");
                }
                s.append(" ");
                let a = operand_to_string(&self.arg1);
                s.append(a.as_str());
                s.append(" ");
                let b = operand_to_string(&self.arg2);
                s.append(b.as_str());
                s.append(" ");
                let c = operand_to_string(&self.result);
                s.append(c.as_str());
                s.append(" */");
                s
            },
        }
    }

    /// The symbol of this binary opcode as text.
    fn op_symbol_str(&self) -> (r: &'static str)
        ensures
            r@ == op_symbol(self@.op),
    {
        match self.op {
            Op::Add => "+",
            Op::Sub => "-",
            Op::Mul => "*",
            Op::Div => "/",
            Op::Mod => "%",
            Op::Lt => "<",
            Op::Gt => ">",
            Op::Le => "<=",
            Op::Ge => ">=",
            Op::Eq => "==",
            Op::Ne => "!=",
            Op::And => "&&",
            Op::Or => "||",
            _ => "",
        }
    }
}

/// Copy one operand; the copy is equal to the original.
pub fn clone_operand(o: &Operand) -> (r: Operand)
    ensures
        r == *o,
{
    match o {
        Operand::Empty => Operand::Empty,
        Operand::Name(s) => Operand::Name(s.clone()),
        Operand::Temp(n) => Operand::Temp(*n),
        Operand::Label(n) => Operand::Label(*n),
    }
}

/// Copy one instruction; the copy is equal to the original.
pub fn clone_quad(q: &Quad) -> (r: Quad)
    ensures
        r == *q,
{
    Quad {
        op: q.op,
        arg1: clone_operand(&q.arg1),
        arg2: clone_operand(&q.arg2),
        result: clone_operand(&q.result),
    }
}

} // verus!
