use vstd::arithmetic::div_mod::{lemma_add_mod_noop, lemma_mod_twice};
use vstd::arithmetic::power2::pow2;
use vstd::prelude::*;

use crate::ast::{size, AST};
use crate::codegen::{gen, gen_arith, gen_compare, gen_operands, set_flag, Gen};
use crate::env::Frame;
use crate::instr::{Cond, Instr, Op, Reg};

verus! {

/// The part of the target machine that the code of an expression touches:
/// the registers `r0`, `r1` and `ip`, the operands of the last comparison,
/// and the stack (its top is the last element).
pub struct Machine {
    pub r0: int,
    pub r1: int,
    pub ip: int,
    pub flags: (int, int),
    pub stack: Seq<int>,
}

/// A value reduced to a 32-bit word.
pub open spec fn word(x: int) -> int {
    x % 0x1_0000_0000
}

/// A 32-bit word read as a two's-complement number.
pub open spec fn signed(w: int) -> int {
    if w >= 0x8000_0000 {
        w - 0x1_0000_0000
    } else {
        w
    }
}

/// Whether condition `c` holds after comparing `flags.0` with `flags.1`.
pub open spec fn holds(c: Cond, flags: (int, int)) -> bool {
    let (a, b) = flags;
    match c {
        Cond::Al => true,
        Cond::Eq => a == b,
        Cond::Ne => a != b,
        Cond::Lt => signed(a) < signed(b),
        Cond::Le => signed(a) <= signed(b),
        Cond::Gt => signed(a) > signed(b),
        Cond::Ge => signed(a) >= signed(b),
        Cond::Hs => a >= b,
        Cond::Lo => a < b,
    }
}

/// One instruction's effect; `None` for an instruction outside this model, a
/// pop from a stack too short, or a division by zero (undefined on the target).
pub open spec fn step(m: Machine, i: Instr) -> Option<Machine> {
    match i {
        Instr::LoadImm(Reg::R0, n) => Some(Machine { r0: word(n as int), ..m }),
        Instr::MovImm(c, Reg::R0, n) => Some(
            if holds(c, m.flags) {
                Machine { r0: word(n as int), ..m }
            } else {
                m
            },
        ),
        Instr::Push(
            Reg::R0,
            Reg::Ip,
        ) => Some(Machine { stack: m.stack.push(m.ip).push(m.r0), ..m }),
        Instr::Pop(Reg::R1, Reg::Ip) => if m.stack.len() >= 2 {
            Some(
                Machine {
                    r1: m.stack.last(),
                    ip: m.stack[m.stack.len() - 2],
                    stack: m.stack.take(m.stack.len() - 2),
                    ..m
                },
            )
        } else {
            None
        },
        Instr::Arith(
            Op::Add,
            Reg::R0,
            Reg::R1,
            Reg::R0,
        ) => Some(Machine { r0: word(m.r1 + m.r0), ..m }),
        Instr::Arith(
            Op::Sub,
            Reg::R0,
            Reg::R1,
            Reg::R0,
        ) => Some(Machine { r0: word(m.r1 - m.r0), ..m }),
        Instr::Arith(
            Op::Mul,
            Reg::R0,
            Reg::R1,
            Reg::R0,
        ) => Some(Machine { r0: word(m.r1 * m.r0), ..m }),
        Instr::Arith(Op::Udiv, Reg::R0, Reg::R1, Reg::R0) => if m.r0 != 0 {
            Some(Machine { r0: m.r1 / m.r0, ..m })
        } else {
            None
        },
        Instr::Cmp(Reg::R1, Reg::R0) => Some(Machine { flags: (m.r1, m.r0), ..m }),
        Instr::CmpImm(Reg::R0, n) => Some(Machine { flags: (m.r0, n as int), ..m }),
        _ => None,
    }
}

/// The state after running straight-line code, if every step is modelled.
pub open spec fn run(code: Seq<Instr>, m: Machine) -> Option<Machine>
    decreases code.len(),
{
    if code.len() == 0 {
        Some(m)
    } else {
        match run(code.drop_last(), m) {
            Some(m1) => step(m1, code.last()),
            None => None,
        }
    }
}

/// Expressions built from constants, `!`, `+`, `-`, `*`, `/` and comparisons,
/// where no divisor evaluates to zero.
pub open spec fn pure_expr(e: AST) -> bool
    decreases e,
{
    match e {
        AST::Number(_) => true,
        AST::Boolean(_) => true,
        AST::Null => true,
        AST::Undefined => true,
        AST::Not(t) => pure_expr(*t),
        AST::Add { left, right } => pure_expr(*left) && pure_expr(*right),
        AST::Subtract { left, right } => pure_expr(*left) && pure_expr(*right),
        AST::Multiply { left, right } => pure_expr(*left) && pure_expr(*right),
        AST::Divide { left, right } => pure_expr(*left) && pure_expr(*right) && eval(*right) != 0,
        AST::Equal { left, right } => pure_expr(*left) && pure_expr(*right),
        AST::NotEqual { left, right } => pure_expr(*left) && pure_expr(*right),
        AST::LessThan { left, right } => pure_expr(*left) && pure_expr(*right),
        AST::GreaterThan { left, right } => pure_expr(*left) && pure_expr(*right),
        AST::LessThanEqual { left, right } => pure_expr(*left) && pure_expr(*right),
        AST::GreaterThanEqual { left, right } => pure_expr(*left) && pure_expr(*right),
        _ => false,
    }
}

pub open spec fn bool_word(b: bool) -> int {
    if b {
        1
    } else {
        0
    }
}

/// The 32-bit value of an expression; comparisons are signed and division is
/// unsigned. It is the value of the expression only where `pure_expr` holds;
/// for other nodes (names, calls, statements) it is 0 and means nothing.
pub open spec fn eval(e: AST) -> int
    decreases e,
{
    match e {
        AST::Number(v) => word(v as int),
        AST::Boolean(b) => bool_word(b),
        AST::Not(t) => bool_word(eval(*t) == 0),
        AST::Add { left, right } => word(eval(*left) + eval(*right)),
        AST::Subtract { left, right } => word(eval(*left) - eval(*right)),
        AST::Multiply { left, right } => word(eval(*left) * eval(*right)),
        AST::Divide { left, right } => eval(*left) / eval(*right),
        AST::Equal { left, right } => bool_word(eval(*left) == eval(*right)),
        AST::NotEqual { left, right } => bool_word(eval(*left) != eval(*right)),
        AST::LessThan { left, right } => bool_word(signed(eval(*left)) < signed(eval(*right))),
        AST::GreaterThan { left, right } => bool_word(signed(eval(*left)) > signed(eval(*right))),
        AST::LessThanEqual { left, right } => {
            bool_word(signed(eval(*left)) <= signed(eval(*right)))
        },
        AST::GreaterThanEqual { left, right } => {
            bool_word(signed(eval(*left)) >= signed(eval(*right)))
        },
        _ => 0,
    }
}

/// Running `g`'s code from `m` ends with `v` in `r0` and the stack as it was.
pub open spec fn computes(g: Gen, m: Machine, v: int) -> bool {
    &&& g is Ok
    &&& run(g->Ok_0.code, m) is Some
    &&& run(g->Ok_0.code, m)->Some_0.r0 == v
    &&& run(g->Ok_0.code, m)->Some_0.stack == m.stack
}

proof fn lemma_run_concat(a: Seq<Instr>, b: Seq<Instr>, m: Machine)
    ensures
        run(a + b, m) == match run(a, m) {
            Some(m1) => run(b, m1),
            None => None,
        },
    decreases b.len(),
{
    if b.len() == 0 {
        assert(a + b =~= a);
    } else {
        lemma_run_concat(a, b.drop_last(), m);
        assert((a + b).drop_last() =~= a + b.drop_last());
        assert((a + b).last() == b.last());
    }
}

proof fn lemma_run_single(i: Instr, m: Machine)
    ensures
        run(seq![i], m) == step(m, i),
{
    assert(seq![i].drop_last() =~= Seq::<Instr>::empty());
    assert(run(Seq::<Instr>::empty(), m) == Some(m));
    assert(seq![i].last() == i);
}

/// The code that follows two operands: with the left one in `r1` and the right
/// one in `r0`, `tail` leaves `v` in `r0` and the stack alone.
proof fn lemma_operands_then(
    left: AST,
    right: AST,
    f: Frame,
    c: nat,
    m: Machine,
    tail: Seq<Instr>,
    v: int,
)
    requires
        pure_expr(left),
        pure_expr(right),
        finishes_with(tail, left, right, v),
    ensures
        computes(crate::codegen::then_code(gen_operands(left, right, f, c), tail), m, v),
    decreases size(left) + size(right) + 1, 0nat,
{
    lemma_expr(left, f, c, m);
    let a = gen(left, f, c)->Ok_0;
    let m1 = run(a.code, m)->Some_0;
    lemma_expr(right, a.frame, a.labels, Machine { stack: m1.stack.push(m1.ip).push(m1.r0), ..m1 });
    let b = gen(right, a.frame, a.labels)->Ok_0;
    let push = seq![Instr::Push(Reg::R0, Reg::Ip)];
    let pop = seq![Instr::Pop(Reg::R1, Reg::Ip)];
    let m2 = Machine { stack: m1.stack.push(m1.ip).push(m1.r0), ..m1 };
    lemma_run_single(push[0], m1);
    assert(push =~= seq![Instr::Push(Reg::R0, Reg::Ip)]);
    lemma_run_concat(a.code, push, m);
    let m3 = run(b.code, m2)->Some_0;
    lemma_run_concat(a.code + push, b.code, m);
    lemma_run_single(Instr::Pop(Reg::R1, Reg::Ip), m3);
    lemma_run_concat(a.code + push + b.code, pop, m);
    let m4 = run(pop, m3)->Some_0;
    assert(m3.stack.take(m3.stack.len() - 2) =~= m.stack);
    assert(m4.r1 == eval(left));
    assert(m4.r0 == eval(right));
    lemma_run_concat(a.code + push + b.code + pop, tail, m);
}

/// The code of an expression of constants, `!`, `+`, `-`, `*`, `/` and
/// comparisons leaves the expression's value in `r0` and the stack as it found it.
#[verifier::spinoff_prover]
#[verifier::rlimit(80)]
proof fn lemma_expr(e: AST, f: Frame, c: nat, m: Machine)
    requires
        pure_expr(e),
    ensures
        computes(gen(e, f, c), m, eval(e)),
    decreases size(e), 2nat,
{
    match e {
        AST::Number(v) => lemma_run_single(Instr::LoadImm(Reg::R0, v), m),
        AST::Boolean(b) => {
            lemma_run_single(Instr::MovImm(Cond::Al, Reg::R0, if b { 1 } else { 0 }), m)
        },
        AST::Null => lemma_run_single(Instr::MovImm(Cond::Al, Reg::R0, 0), m),
        AST::Undefined => lemma_run_single(Instr::MovImm(Cond::Al, Reg::R0, 0), m),
        AST::Not(t) => {
            lemma_expr(*t, f, c, m);
            let a = gen(*t, f, c)->Ok_0;
            let m1 = run(a.code, m)->Some_0;
            let tail = seq![Instr::CmpImm(Reg::R0, 0)] + set_flag(Cond::Eq, Cond::Ne);
            lemma_flag_tail(Instr::CmpImm(Reg::R0, 0), Cond::Eq, Cond::Ne, m1);
            lemma_run_concat(a.code, tail, m);
        },
        AST::Add { left, right } => lemma_arith(*left, *right, Op::Add, f, c, m),
        AST::Subtract { left, right } => lemma_arith(*left, *right, Op::Sub, f, c, m),
        AST::Multiply { left, right } => lemma_arith(*left, *right, Op::Mul, f, c, m),
        AST::Divide { left, right } => lemma_arith(*left, *right, Op::Udiv, f, c, m),
        AST::Equal { left, right } => lemma_compare(*left, *right, Cond::Eq, Cond::Ne, f, c, m),
        AST::NotEqual { left, right } => lemma_compare(*left, *right, Cond::Ne, Cond::Eq, f, c, m),
        AST::LessThan { left, right } => lemma_compare(*left, *right, Cond::Lt, Cond::Ge, f, c, m),
        AST::GreaterThan { left, right } => {
            lemma_compare(*left, *right, Cond::Gt, Cond::Le, f, c, m)
        },
        AST::LessThanEqual { left, right } => {
            lemma_compare(*left, *right, Cond::Le, Cond::Gt, f, c, m)
        },
        AST::GreaterThanEqual { left, right } => {
            lemma_compare(*left, *right, Cond::Ge, Cond::Lt, f, c, m)
        },
        _ => {},
    }
}

/// A comparison followed by the two conditional moves of `set_flag`: `r0`
/// becomes 1 where `yes` holds and 0 where `no` holds.
proof fn lemma_flag_tail(cmp: Instr, yes: Cond, no: Cond, m: Machine)
    requires
        step(m, cmp) is Some,
    ensures
        ({
            let m1 = step(m, cmp)->Some_0;
            let r = run(seq![cmp] + set_flag(yes, no), m);
            &&& r is Some
            &&& r->Some_0.stack == m1.stack
            &&& (holds(no, m1.flags) ==> r->Some_0.r0 == 0)
            &&& (holds(yes, m1.flags) && !holds(no, m1.flags) ==> r->Some_0.r0 == 1)
        }),
{
    let m1 = step(m, cmp)->Some_0;
    let y = Instr::MovImm(yes, Reg::R0, 1);
    let n = Instr::MovImm(no, Reg::R0, 0);
    assert(seq![cmp] + set_flag(yes, no) =~= seq![cmp] + seq![y] + seq![n]);
    lemma_run_single(cmp, m);
    lemma_run_concat(seq![cmp], seq![y], m);
    let m2 = step(m1, y)->Some_0;
    lemma_run_single(y, m1);
    lemma_run_concat(seq![cmp] + seq![y], seq![n], m);
    lemma_run_single(n, m2);
}

/// The value of `op` on two words, as the machine computes it (`Udiv` for a
/// nonzero `r`).
pub open spec fn arith_value(op: Op, l: int, r: int) -> int {
    match op {
        Op::Add => word(l + r),
        Op::Sub => word(l - r),
        Op::Mul => word(l * r),
        Op::Udiv => l / r,
        Op::Lsl => word(l * pow2(r as nat)),
    }
}

/// With the left operand in `r1` and the right one in `r0`, `tail` leaves `v`
/// in `r0` and the stack alone.
pub open spec fn finishes_with(tail: Seq<Instr>, left: AST, right: AST, v: int) -> bool {
    forall|m2: Machine|
        m2.r1 == eval(left) && m2.r0 == eval(right) ==> {
            let r = #[trigger] run(tail, m2);
            &&& r is Some
            &&& r->Some_0.r0 == v
            &&& r->Some_0.stack == m2.stack
        }
}

proof fn lemma_arith(left: AST, right: AST, op: Op, f: Frame, c: nat, m: Machine)
    requires
        pure_expr(left),
        pure_expr(right),
        op == Op::Add || op == Op::Sub || op == Op::Mul || op == Op::Udiv,
        op == Op::Udiv ==> eval(right) != 0,
    ensures
        computes(gen_arith(left, right, op, f, c), m, arith_value(op, eval(left), eval(right))),
    decreases size(left) + size(right) + 1, 1nat,
{
    let tail = seq![Instr::Arith(op, Reg::R0, Reg::R1, Reg::R0)];
    let v = arith_value(op, eval(left), eval(right));
    assert forall|m2: Machine| m2.r1 == eval(left) && m2.r0 == eval(right) implies {
        let r = #[trigger] run(tail, m2);
        &&& r is Some
        &&& r->Some_0.r0 == v
        &&& r->Some_0.stack == m2.stack
    } by {
        lemma_run_single(Instr::Arith(op, Reg::R0, Reg::R1, Reg::R0), m2);
    }
    lemma_operands_then(left, right, f, c, m, tail, v);
}

proof fn lemma_compare(left: AST, right: AST, yes: Cond, no: Cond, f: Frame, c: nat, m: Machine)
    requires
        pure_expr(left),
        pure_expr(right),
        forall|p: (int, int)| holds(yes, p) == !holds(no, p),
    ensures
        computes(
            gen_compare(left, right, yes, no, f, c),
            m,
            bool_word(holds(yes, (eval(left), eval(right)))),
        ),
    decreases size(left) + size(right) + 1, 1nat,
{
    let tail = seq![Instr::Cmp(Reg::R1, Reg::R0)] + set_flag(yes, no);
    let v = bool_word(holds(yes, (eval(left), eval(right))));
    assert forall|m2: Machine| m2.r1 == eval(left) && m2.r0 == eval(right) implies {
        let r = #[trigger] run(tail, m2);
        &&& r is Some
        &&& r->Some_0.r0 == v
        &&& r->Some_0.stack == m2.stack
    } by {
        lemma_flag_tail(Instr::Cmp(Reg::R1, Reg::R0), yes, no, m2);
    }
    lemma_operands_then(left, right, f, c, m, tail, v);
}

/// The left operand of an infix operator survives the evaluation of the right
/// one: the code of an expression built from constants, `!`, `+`, `-`, `*`,
/// `/` (by a nonzero divisor) and comparisons, run from any state, leaves the
/// expression's value in `r0` and the stack as it found it, however deeply the
/// operands nest.
pub proof fn law_operands_preserved(e: AST, f: Frame, c: nat, m: Machine)
    requires
        pure_expr(e),
    ensures
        computes(gen(e, f, c), m, eval(e)),
{
    lemma_expr(e, f, c, m);
}

/// `a + (b + c)` leaves `a + b + c`, as a 32-bit word, in `r0`.
pub proof fn law_nested_add(a: u64, b: u64, c: u64, e: AST, f: Frame, n: nat, m: Machine)
    requires
        e == (AST::Add {
            left: Box::new(AST::Number(a)),
            right: Box::new(
                AST::Add { left: Box::new(AST::Number(b)), right: Box::new(AST::Number(c)) },
            ),
        }),
    ensures
        computes(gen(e, f, n), m, word(a + b + c)),
{
    let inner = AST::Add { left: Box::new(AST::Number(b)), right: Box::new(AST::Number(c)) };
    assert(pure_expr(AST::Number(a)) && pure_expr(AST::Number(b)) && pure_expr(AST::Number(c)));
    assert(pure_expr(inner));
    assert(pure_expr(e));
    lemma_expr(e, f, n, m);
    let w = 0x1_0000_0000int;
    assert(eval(AST::Number(b)) == word(b as int) && eval(AST::Number(c)) == word(c as int));
    assert(eval(AST::Number(a)) == word(a as int));
    assert(eval(inner) == word(word(b as int) + word(c as int)));
    assert(eval(e) == word(word(a as int) + eval(inner)));
    lemma_add_mod_noop(b as int, c as int, w);
    lemma_add_mod_noop(a as int, (b + c) as int, w);
    lemma_mod_twice(a as int, w);
    assert(eval(e) == word(a + b + c));
}

} // verus!
