use vstd::prelude::*;

use crate::ast::{lemma_size_seq_elem, size, size_seq, AST};
use crate::env::{declare_in, parameter_frame, Environment, Frame};
use crate::instr::{program_text, render, Cond, Instr, Op, Reg, Routine};

verus! {

/// Why emission of a tree was refused.
#[derive(Debug, PartialEq, Eq)]
pub enum CodeGenError {
    /// A name was read or assigned that the function neither declared nor took
    /// as a parameter.
    UndefinedVariable(String),
    /// A function declares more than four parameters.
    TooManyParameters,
    /// A call passes more than four arguments.
    TooManyArguments,
}

/// What emitting a tree produced: its instructions, the environment after it,
/// and the label counter after it.
pub struct Emitted {
    pub code: Seq<Instr>,
    pub frame: Frame,
    pub labels: nat,
}

/// The outcome of emitting a tree, in the spec of the generator.
pub type Gen = Result<Emitted, CodeGenError>;

/// The largest number of registers that carry arguments.
pub const MAX_ARGS: usize = 4;

/// The character that an assertion prints when it holds (`T`).
pub const PASS_MARK: u8 = 84;

/// The character that an assertion prints when it fails (`F`).
pub const FAIL_MARK: u8 = 70;

/// A successful emission.
pub open spec fn emitted(code: Seq<Instr>, frame: Frame, labels: nat) -> Gen {
    Ok(Emitted { code, frame, labels })
}

/// `g` followed by the instructions `tail`.
pub open spec fn then_code(g: Gen, tail: Seq<Instr>) -> Gen {
    match g {
        Ok(e) => emitted(e.code + tail, e.frame, e.labels),
        Err(x) => Err(x),
    }
}

/// The two operands of an infix operator: the left one is kept on the stack
/// while the right one is evaluated, then popped into `r1`; the right one
/// stays in `r0`.
pub open spec fn gen_operands(left: AST, right: AST, f: Frame, c: nat) -> Gen
    decreases size(left) + size(right) + 1, 0nat,
{
    match gen(left, f, c) {
        Err(x) => Err(x),
        Ok(a) => match gen(right, a.frame, a.labels) {
            Err(x) => Err(x),
            Ok(b) => emitted(
                a.code + seq![Instr::Push(Reg::R0, Reg::Ip)] + b.code + seq![
                    Instr::Pop(Reg::R1, Reg::Ip),
                ],
                b.frame,
                b.labels,
            ),
        },
    }
}

/// Statements emitted one after the other, each in the environment and with
/// the label counter that the one before left.
pub open spec fn gen_statements(s: Seq<AST>, f: Frame, c: nat) -> Gen
    decreases size_seq(s), 0nat,
{
    if s.len() == 0 {
        emitted(Seq::empty(), f, c)
    } else {
        match gen_statements(s.drop_last(), f, c) {
            Err(x) => Err(x),
            Ok(a) => match gen(s.last(), a.frame, a.labels) {
                Err(x) => Err(x),
                Ok(b) => emitted(a.code + b.code, b.frame, b.labels),
            },
        }
    }
}

/// Values emitted one after the other, value `i` stored at `base + first + 4 * i`.
pub open spec fn gen_stored(s: Seq<AST>, base: Reg, first: int, f: Frame, c: nat) -> Gen
    decreases size_seq(s), 0nat,
{
    if s.len() == 0 {
        emitted(Seq::empty(), f, c)
    } else {
        match gen_stored(s.drop_last(), base, first, f, c) {
            Err(x) => Err(x),
            Ok(a) => match gen(s.last(), a.frame, a.labels) {
                Err(x) => Err(x),
                Ok(b) => emitted(
                    a.code + b.code + seq![
                        Instr::Store(Reg::R0, base, (first + 4 * (s.len() - 1)) as i64),
                    ],
                    b.frame,
                    b.labels,
                ),
            },
        }
    }
}

/// The instructions `head` followed by `g`.
pub open spec fn code_then(head: Seq<Instr>, g: Gen) -> Gen {
    match g {
        Ok(e) => emitted(head + e.code, e.frame, e.labels),
        Err(x) => Err(x),
    }
}

/// Sets `r0` to 1 when the flags satisfy `yes` and to 0 when they satisfy `no`.
pub open spec fn set_flag(yes: Cond, no: Cond) -> Seq<Instr> {
    seq![Instr::MovImm(yes, Reg::R0, 1), Instr::MovImm(no, Reg::R0, 0)]
}

/// A comparison of the left operand against the right one.
pub open spec fn gen_compare(left: AST, right: AST, yes: Cond, no: Cond, f: Frame, c: nat) -> Gen
    decreases size(left) + size(right) + 1, 1nat,
{
    then_code(
        gen_operands(left, right, f, c),
        seq![Instr::Cmp(Reg::R1, Reg::R0)] + set_flag(yes, no),
    )
}

/// An arithmetic operation on the left and the right operand.
pub open spec fn gen_arith(left: AST, right: AST, op: Op, f: Frame, c: nat) -> Gen
    decreases size(left) + size(right) + 1, 1nat,
{
    then_code(gen_operands(left, right, f, c), seq![Instr::Arith(op, Reg::R0, Reg::R1, Reg::R0)])
}

/// Saves `fp` and `lr`, points `fp` at the frame, and spills the four
/// argument registers.
pub open spec fn prologue() -> Seq<Instr> {
    seq![Instr::Push(Reg::Fp, Reg::Lr), Instr::MovReg(Reg::Fp, Reg::Sp), Instr::PushArgs]
}

/// Leaves the function with 0 in `r0`, for control that reaches the end.
pub open spec fn epilogue() -> Seq<Instr> {
    seq![
        Instr::MovReg(Reg::Sp, Reg::Fp),
        Instr::MovImm(Cond::Al, Reg::R0, 0),
        Instr::PopFrame,
    ]
}

/// With the array's address in `r1` and the index in `r0`: the item at the
/// index, or 0 where the index is not below the length (compared unsigned).
pub open spec fn lookup_code() -> Seq<Instr> {
    seq![
        Instr::Load(Cond::Al, Reg::R2, Reg::R1, 0),
        Instr::Cmp(Reg::R0, Reg::R2),
        Instr::MovImm(Cond::Hs, Reg::R0, 0),
        Instr::ArithImm(Op::Add, Cond::Lo, Reg::R1, Reg::R1, 4),
        Instr::ArithImm(Op::Lsl, Cond::Lo, Reg::R0, Reg::R0, 2),
        Instr::LoadIndexed(Cond::Lo, Reg::R0, Reg::R1, Reg::R0),
    ]
}

/// Prints the pass mark when `r0` is 1, the fail mark otherwise.
pub open spec fn assert_code() -> Seq<Instr> {
    seq![
        Instr::CmpImm(Reg::R0, 1),
        Instr::MovImm(Cond::Eq, Reg::R0, PASS_MARK as u64),
        Instr::MovImm(Cond::Ne, Reg::R0, FAIL_MARK as u64),
        Instr::CallRoutine(Routine::Putchar),
    ]
}

/// The instructions that a tree compiles to, in environment `f` with label
/// counter `c`; the value of an expression is left in `r0`.
pub open spec fn gen(n: AST, f: Frame, c: nat) -> Gen
    decreases size(n), 2nat,
{
    match n {
        AST::Number(v) => emitted(seq![Instr::LoadImm(Reg::R0, v)], f, c),
        AST::Boolean(b) => emitted(
            seq![Instr::MovImm(Cond::Al, Reg::R0, if b { 1 } else { 0 })],
            f,
            c,
        ),
        AST::Null => emitted(seq![Instr::MovImm(Cond::Al, Reg::R0, 0)], f, c),
        AST::Undefined => emitted(seq![Instr::MovImm(Cond::Al, Reg::R0, 0)], f, c),
        AST::Id(name) => if f.locals.contains_key(name@) {
            emitted(
                seq![
                    Instr::Load(
                        Cond::Al,
                        Reg::R0,
                        Reg::Fp,
                        #[verifier::truncate] (f.locals[name@] as i64),
                    ),
                ],
                f,
                c,
            )
        } else {
            Err(CodeGenError::UndefinedVariable(name))
        },
        AST::Not(t) => then_code(
            gen(*t, f, c),
            seq![Instr::CmpImm(Reg::R0, 0)] + set_flag(Cond::Eq, Cond::Ne),
        ),
        AST::Equal { left, right } => {
            gen_compare(*left, *right, Cond::Eq, Cond::Ne, f, c)
        },
        AST::NotEqual { left, right } => {
            gen_compare(*left, *right, Cond::Ne, Cond::Eq, f, c)
        },
        AST::LessThan { left, right } => {
            gen_compare(*left, *right, Cond::Lt, Cond::Ge, f, c)
        },
        AST::GreaterThan { left, right } => {
            gen_compare(*left, *right, Cond::Gt, Cond::Le, f, c)
        },
        AST::LessThanEqual { left, right } => {
            gen_compare(*left, *right, Cond::Le, Cond::Gt, f, c)
        },
        AST::GreaterThanEqual { left, right } => {
            gen_compare(*left, *right, Cond::Ge, Cond::Lt, f, c)
        },
        AST::Add { left, right } => gen_arith(*left, *right, Op::Add, f, c),
        AST::Subtract { left, right } => gen_arith(*left, *right, Op::Sub, f, c),
        AST::Multiply { left, right } => gen_arith(*left, *right, Op::Mul, f, c),
        AST::Divide { left, right } => gen_arith(*left, *right, Op::Udiv, f, c),
        AST::Call { callee, args } => if args.len() == 0 {
            emitted(seq![Instr::Call(callee)], f, c)
        } else if args.len() == 1 {
            then_code(gen_statements(args@, f, c), seq![Instr::Call(callee)])
        } else if args.len() <= MAX_ARGS {
            then_code(
                code_then(
                    seq![Instr::ArithImm(Op::Sub, Cond::Al, Reg::Sp, Reg::Sp, 16)],
                    gen_stored(args@, Reg::Sp, 0, f, c),
                ),
                seq![Instr::PopArgs, Instr::Call(callee)],
            )
        } else {
            Err(CodeGenError::TooManyArguments)
        },
        AST::Return { term } => then_code(
            gen(*term, f, c),
            seq![Instr::MovReg(Reg::Sp, Reg::Fp), Instr::Pop(Reg::Fp, Reg::Pc)],
        ),
        AST::Block(statements) => gen_statements(statements@, f, c),
        AST::IfNode { conditional, consequence, alternative } => {
            let else_label = #[verifier::truncate] ((c + 1) as u64);
            let end_label = #[verifier::truncate] ((c + 2) as u64);
            match gen(*conditional, f, c + 2) {
                Err(x) => Err(x),
                Ok(a) => match gen(*consequence, a.frame, a.labels) {
                    Err(x) => Err(x),
                    Ok(b) => match gen(*alternative, b.frame, b.labels) {
                        Err(x) => Err(x),
                        Ok(d) => emitted(
                            a.code + seq![
                                Instr::CmpImm(Reg::R0, 0),
                                Instr::Branch(Cond::Eq, else_label),
                            ] + b.code + seq![
                                Instr::Branch(Cond::Al, end_label),
                                Instr::Label(else_label),
                            ] + d.code + seq![Instr::Label(end_label)],
                            d.frame,
                            d.labels,
                        ),
                    },
                },
            }
        },
        AST::While { conditional, body } => {
            let start_label = #[verifier::truncate] ((c + 1) as u64);
            let end_label = #[verifier::truncate] ((c + 2) as u64);
            match gen(*conditional, f, c + 2) {
                Err(x) => Err(x),
                Ok(a) => match gen(*body, a.frame, a.labels) {
                    Err(x) => Err(x),
                    Ok(b) => emitted(
                        seq![Instr::Label(start_label)] + a.code + seq![
                            Instr::CmpImm(Reg::R0, 0),
                            Instr::Branch(Cond::Eq, end_label),
                        ] + b.code + seq![
                            Instr::Branch(Cond::Al, start_label),
                            Instr::Label(end_label),
                        ],
                        b.frame,
                        b.labels,
                    ),
                },
            }
        },
        AST::Var { name, value } => match gen(*value, f, c) {
            Err(x) => Err(x),
            Ok(a) => emitted(
                a.code + seq![Instr::Push(Reg::R0, Reg::Ip)],
                declare_in(a.frame, name@),
                a.labels,
            ),
        },
        AST::Assign { name, value } => match gen(*value, f, c) {
            Err(x) => Err(x),
            Ok(a) => if a.frame.locals.contains_key(name@) {
                emitted(
                    a.code + seq![
                        Instr::Store(
                            Reg::R0,
                            Reg::Fp,
                            #[verifier::truncate] (a.frame.locals[name@] as i64),
                        ),
                    ],
                    a.frame,
                    a.labels,
                )
            } else {
                Err(CodeGenError::UndefinedVariable(name))
            },
        },
        AST::Function { name, parameters, body } => if parameters.len() > MAX_ARGS {
            Err(CodeGenError::TooManyParameters)
        } else {
            match gen(*body, parameter_frame(parameters@), c) {
                Err(x) => Err(x),
                Ok(a) => emitted(
                    seq![Instr::Blank, Instr::Global(name), Instr::Symbol(name)] + prologue()
                        + a.code + epilogue(),
                    f,
                    a.labels,
                ),
            }
        },
        AST::ArrayLiteral(items) => then_code(
            code_then(
                seq![
                    Instr::LoadImm(Reg::R0, (4 * (items.len() + 1)) as u64),
                    Instr::CallRoutine(Routine::Malloc),
                    Instr::Push(Reg::R4, Reg::Ip),
                    Instr::MovReg(Reg::R4, Reg::R0),
                    Instr::LoadImm(Reg::R0, items.len() as u64),
                    Instr::Store(Reg::R0, Reg::R4, 0),
                ],
                gen_stored(items@, Reg::R4, 4, f, c),
            ),
            seq![Instr::MovReg(Reg::R0, Reg::R4), Instr::Pop(Reg::R4, Reg::Ip)],
        ),
        AST::ArrayLookup { array, index } => then_code(
            gen_operands(*array, *index, f, c),
            lookup_code(),
        ),
        AST::ArrayLength(array) => then_code(
            gen(*array, f, c),
            seq![Instr::Load(Cond::Al, Reg::R0, Reg::R0, 0)],
        ),
        AST::Assert(condition) => then_code(gen(*condition, f, c), assert_code()),
        AST::Print(value) => then_code(gen(*value, f, c), seq![Instr::CallRoutine(Routine::Print)]),
    }
}


/// Emission of a tree of `k` nodes stays within the counters' ranges: the label
/// counter has room for two labels per node, and the frame for one slot per node.
pub open spec fn fits(k: nat, f: Frame, c: nat) -> bool {
    &&& c + 2 * k <= u64::MAX
    &&& i64::MIN + 8 * k <= f.next_local_offset
    &&& i64::MIN + 8 * k <= -20
}

/// The outcome `r` of an emission, with the output, environment and label
/// counter after it, is what `g` says.
pub open spec fn emits(
    g: Gen,
    r: Result<(), CodeGenError>,
    out0: Seq<Instr>,
    out1: Seq<Instr>,
    f1: Frame,
    c1: nat,
) -> bool {
    match g {
        Ok(e) => r is Ok && out1 == out0 + e.code && f1 == e.frame && c1 == e.labels,
        Err(x) => r == Err::<(), CodeGenError>(x),
    }
}

/// A successful emission of a tree of `k` nodes used at most two labels and
/// one frame slot per node.
pub open spec fn used_within(
    r: Result<(), CodeGenError>,
    k: nat,
    f0: Frame,
    c0: nat,
    f1: Frame,
    c1: nat,
) -> bool {
    r is Ok ==> c0 <= c1 <= c0 + 2 * k && f1.next_local_offset >= f0.next_local_offset - 8 * k
}

/// An emission of a tree of `k` nodes from environment `f0`, label counter
/// `c0` and output `out0` did what `g` says, within its share of the counters.
pub open spec fn emitted_as(
    g: Gen,
    k: nat,
    r: Result<(), CodeGenError>,
    f0: Frame,
    c0: nat,
    out0: Seq<Instr>,
    f1: Frame,
    c1: nat,
    out1: Seq<Instr>,
) -> bool {
    emits(g, r, out0, out1, f1, c1) && used_within(r, k, f0, c0, f1, c1)
}

/// As `emitted_as`, and a refused emission leaves no trace: the output, the
/// environment and the label counter are as they were before it.
pub open spec fn emitted_or_untouched(
    g: Gen,
    k: nat,
    r: Result<(), CodeGenError>,
    f0: Frame,
    c0: nat,
    out0: Seq<Instr>,
    f1: Frame,
    c1: nat,
    out1: Seq<Instr>,
) -> bool {
    &&& emitted_as(g, k, r, f0, c0, out0, f1, c1, out1)
    &&& r is Err ==> out1 == out0 && f1 == f0 && c1 == c0
}

proof fn lemma_emits_then(
    g: Gen,
    tail: Seq<Instr>,
    r: Result<(), CodeGenError>,
    out0: Seq<Instr>,
    mid: Seq<Instr>,
    out1: Seq<Instr>,
    f1: Frame,
    c1: nat,
)
    requires
        emits(g, r, out0, mid, f1, c1),
        r is Ok ==> out1 == mid + tail,
    ensures
        emits(then_code(g, tail), r, out0, out1, f1, c1),
{
    if r is Ok {
        assert(out1 =~= out0 + (g->Ok_0.code + tail));
    }
}

proof fn lemma_code_then(
    head: Seq<Instr>,
    g: Gen,
    r: Result<(), CodeGenError>,
    out0: Seq<Instr>,
    mid: Seq<Instr>,
    out1: Seq<Instr>,
    f1: Frame,
    c1: nat,
)
    requires
        mid == out0 + head,
        emits(g, r, mid, out1, f1, c1),
    ensures
        emits(code_then(head, g), r, out0, out1, f1, c1),
{
    if r is Ok {
        assert(out1 =~= out0 + (head + g->Ok_0.code));
    }
}

proof fn lemma_size_seq_len(s: Seq<AST>)
    ensures
        s.len() <= size_seq(s),
    decreases s.len(),
{
    if s.len() > 0 {
        lemma_size_seq_len(s.drop_last());
    }
}

proof fn lemma_size_seq_prefix(s: Seq<AST>, i: int)
    requires
        0 <= i <= s.len(),
    ensures
        size_seq(s.take(i)) <= size_seq(s),
        i < s.len() ==> size_seq(s.take(i + 1)) == size_seq(s.take(i)) + size(s[i]) + 1,
        i <= size_seq(s.take(i)),
    decreases s.len(),
{
    lemma_size_seq_len(s.take(i));
    if i < s.len() {
        assert(s.take(i + 1).drop_last() =~= s.take(i));
        assert(s.take(i + 1).last() == s[i]);
        lemma_size_seq_prefix(s.drop_last(), i);
        assert(s.drop_last().take(i) =~= s.take(i));
    } else {
        assert(s.take(i) =~= s);
    }
}

proof fn lemma_statements_err(s: Seq<AST>, k: int, f: Frame, c: nat)
    requires
        0 <= k <= s.len(),
        gen_statements(s.take(k), f, c) is Err,
    ensures
        gen_statements(s, f, c) == gen_statements(s.take(k), f, c),
    decreases s.len(),
{
    if k == s.len() {
        assert(s.take(k) =~= s);
    } else {
        assert(s.drop_last().take(k) =~= s.take(k));
        lemma_statements_err(s.drop_last(), k, f, c);
    }
}

proof fn lemma_stored_err(s: Seq<AST>, base: Reg, first: int, k: int, f: Frame, c: nat)
    requires
        0 <= k <= s.len(),
        gen_stored(s.take(k), base, first, f, c) is Err,
    ensures
        gen_stored(s, base, first, f, c) == gen_stored(s.take(k), base, first, f, c),
    decreases s.len(),
{
    if k == s.len() {
        assert(s.take(k) =~= s);
    } else {
        assert(s.drop_last().take(k) =~= s.take(k));
        lemma_stored_err(s.drop_last(), base, first, k, f, c);
    }
}

/// Appends one instruction.
fn push_code(out: &mut Vec<Instr>, i: Instr)
    ensures
        final(out)@ == old(out)@ + seq![i],
{
    out.push(i);
    assert(out@ =~= old(out)@ + seq![i]);
}

/// The generator: it owns the label counter, so that labels are never reused
/// within one compilation.
pub struct ArmCodeGenerator {
    pub label_counter: u64,
}

impl Default for ArmCodeGenerator {
    fn default() -> (r: ArmCodeGenerator)
        ensures
            r.label_counter == 0,
    {
        ArmCodeGenerator::new()
    }
}

impl ArmCodeGenerator {
    /// A generator whose first label is `.L1`.
    pub fn new() -> (r: ArmCodeGenerator)
        ensures
            r.label_counter == 0,
    {
        ArmCodeGenerator { label_counter: 0 }
    }

    /// A label not handed out before: the counter, once advanced.
    pub fn new_label(&mut self) -> (r: u64)
        requires
            old(self).label_counter < u64::MAX,
        ensures
            final(self).label_counter == old(self).label_counter + 1,
            r == final(self).label_counter,
    {
        self.label_counter = self.label_counter + 1;
        self.label_counter
    }

    /// Emits the instructions of `node` into `out`, in the environment `env`.
    /// Emission is all or nothing: where the tree is refused, nothing is
    /// written and neither `env` nor the label counter changes.
    pub fn emit(&mut self, node: &AST, env: &mut Environment, out: &mut Vec<Instr>) -> (r: Result<
        (),
        CodeGenError,
    >)
        requires
            fits(size(*node), old(env)@, old(self).label_counter as nat),
        ensures
            emitted_or_untouched(
                gen(*node, old(env)@, old(self).label_counter as nat),
                size(*node),
                r,
                old(env)@,
                old(self).label_counter as nat,
                old(out)@,
                final(env)@,
                final(self).label_counter as nat,
                final(out)@,
            ),
    {
        let saved_counter = self.label_counter;
        let saved_env = env.duplicate();
        let mut code: Vec<Instr> = Vec::new();
        match self.emit_node(node, env, &mut code) {
            Ok(()) => {
                out.append(&mut code);
                Ok(())
            },
            Err(x) => {
                *env = saved_env;
                self.label_counter = saved_counter;
                Err(x)
            },
        }
    }

    /// Emits the left operand, keeps it on the stack while the right one is
    /// emitted, then pops it into `r1`. All or nothing, as `emit`.
    pub fn visit_infix_operands(
        &mut self,
        left: &AST,
        right: &AST,
        env: &mut Environment,
        out: &mut Vec<Instr>,
    ) -> (r: Result<(), CodeGenError>)
        requires
            fits(size(*left) + size(*right) + 1, old(env)@, old(self).label_counter as nat),
        ensures
            emitted_or_untouched(
                gen_operands(*left, *right, old(env)@, old(self).label_counter as nat),
                size(*left) + size(*right),
                r,
                old(env)@,
                old(self).label_counter as nat,
                old(out)@,
                final(env)@,
                final(self).label_counter as nat,
                final(out)@,
            ),
    {
        let saved_counter = self.label_counter;
        let saved_env = env.duplicate();
        let mut code: Vec<Instr> = Vec::new();
        match self.infix_operands(left, right, env, &mut code) {
            Ok(()) => {
                out.append(&mut code);
                Ok(())
            },
            Err(x) => {
                *env = saved_env;
                self.label_counter = saved_counter;
                Err(x)
            },
        }
    }

    fn emit_node(&mut self, node: &AST, env: &mut Environment, out: &mut Vec<Instr>) -> (r: Result<
        (),
        CodeGenError,
    >)
        requires
            fits(size(*node), old(env)@, old(self).label_counter as nat),
        ensures
            emitted_as(
                gen(*node, old(env)@, old(self).label_counter as nat),
                size(*node),
                r,
                old(env)@,
                old(self).label_counter as nat,
                old(out)@,
                final(env)@,
                final(self).label_counter as nat,
                final(out)@,
            ),
        decreases size(*node), 3nat,
    {
        match node {
            AST::Number(v) => self.visit_number(*v, out),
            AST::Boolean(b) => self.visit_boolean(*b, out),
            AST::Null => self.visit_null(out),
            AST::Undefined => self.visit_undefined(out),
            AST::Id(name) => self.visit_id(name, env, out),
            AST::Not(term) => self.visit_not(term, env, out),
            AST::Equal { left, right } => {
                self.visit_compare(left, right, Cond::Eq, Cond::Ne, env, out)
            },
            AST::NotEqual { left, right } => {
                self.visit_compare(left, right, Cond::Ne, Cond::Eq, env, out)
            },
            AST::LessThan { left, right } => {
                self.visit_compare(left, right, Cond::Lt, Cond::Ge, env, out)
            },
            AST::GreaterThan { left, right } => {
                self.visit_compare(left, right, Cond::Gt, Cond::Le, env, out)
            },
            AST::LessThanEqual { left, right } => {
                self.visit_compare(left, right, Cond::Le, Cond::Gt, env, out)
            },
            AST::GreaterThanEqual { left, right } => {
                self.visit_compare(left, right, Cond::Ge, Cond::Lt, env, out)
            },
            AST::Add { left, right } => self.visit_arith(left, right, Op::Add, env, out),
            AST::Subtract { left, right } => self.visit_arith(left, right, Op::Sub, env, out),
            AST::Multiply { left, right } => self.visit_arith(left, right, Op::Mul, env, out),
            AST::Divide { left, right } => self.visit_arith(left, right, Op::Udiv, env, out),
            AST::Call { callee, args } => self.visit_call(callee, args, env, out),
            AST::Return { term } => self.visit_return(term, env, out),
            AST::Block(statements) => self.visit_block(statements, env, out),
            AST::IfNode { conditional, consequence, alternative } => self.visit_if(
                conditional,
                consequence,
                alternative,
                env,
                out,
            ),
            AST::While { conditional, body } => self.visit_while(conditional, body, env, out),
            AST::Var { name, value } => self.visit_var(name, value, env, out),
            AST::Assign { name, value } => self.visit_assign(name, value, env, out),
            AST::Function { name, parameters, body } => self.visit_function(
                name,
                parameters,
                body,
                env,
                out,
            ),
            AST::ArrayLiteral(items) => self.visit_array_literal(items, env, out),
            AST::ArrayLookup { array, index } => self.visit_array_lookup(array, index, env, out),
            AST::ArrayLength(array) => self.visit_array_length(array, env, out),
            AST::Assert(condition) => self.visit_assert(condition, env, out),
            AST::Print(value) => self.visit_print(value, env, out),
        }
    }

    /// Loads the number into `r0`.
    fn visit_number(&mut self, v: u64, out: &mut Vec<Instr>) -> (r: Result<(), CodeGenError>)
        ensures
            r is Ok,
            final(out)@ == old(out)@ + seq![Instr::LoadImm(Reg::R0, v)],
            final(self).label_counter == old(self).label_counter,
    {
        push_code(out, Instr::LoadImm(Reg::R0, v));
        Ok(())
    }

    /// Loads 1 for `true` and 0 for `false` into `r0`.
    fn visit_boolean(&mut self, b: bool, out: &mut Vec<Instr>) -> (r: Result<(), CodeGenError>)
        ensures
            r is Ok,
            final(out)@ == old(out)@ + seq![
                Instr::MovImm(Cond::Al, Reg::R0, if b { 1 } else { 0 }),
            ],
            final(self).label_counter == old(self).label_counter,
    {
        push_code(out, Instr::MovImm(Cond::Al, Reg::R0, if b { 1 } else { 0 }));
        Ok(())
    }

    /// `null` is 0.
    fn visit_null(&mut self, out: &mut Vec<Instr>) -> (r: Result<(), CodeGenError>)
        ensures
            r is Ok,
            final(out)@ == old(out)@ + seq![Instr::MovImm(Cond::Al, Reg::R0, 0)],
            final(self).label_counter == old(self).label_counter,
    {
        push_code(out, Instr::MovImm(Cond::Al, Reg::R0, 0));
        Ok(())
    }

    /// `undefined` is 0, like `null`.
    fn visit_undefined(&mut self, out: &mut Vec<Instr>) -> (r: Result<(), CodeGenError>)
        ensures
            r is Ok,
            final(out)@ == old(out)@ + seq![Instr::MovImm(Cond::Al, Reg::R0, 0)],
            final(self).label_counter == old(self).label_counter,
    {
        push_code(out, Instr::MovImm(Cond::Al, Reg::R0, 0));
        Ok(())
    }

    /// Loads a local from its frame slot; refused when the name is not bound.
    fn visit_id(&mut self, name: &String, env: &mut Environment, out: &mut Vec<Instr>) -> (r:
        Result<(), CodeGenError>)
        ensures
            emitted_as(
                gen(AST::Id(*name), old(env)@, old(self).label_counter as nat),
                1,
                r,
                old(env)@,
                old(self).label_counter as nat,
                old(out)@,
                final(env)@,
                final(self).label_counter as nat,
                final(out)@,
            ),
    {
        match env.lookup(name) {
            None => Err(CodeGenError::UndefinedVariable(name.clone())),
            Some(offset) => {
                push_code(out, Instr::Load(Cond::Al, Reg::R0, Reg::Fp, offset));
                Ok(())
            },
        }
    }

    /// 1 where the term is 0, else 0.
    fn visit_not(&mut self, term: &AST, env: &mut Environment, out: &mut Vec<Instr>) -> (r:
        Result<(), CodeGenError>)
        requires
            fits(size(*term) + 1, old(env)@, old(self).label_counter as nat),
        ensures
            emitted_as(
                then_code(
                    gen(*term, old(env)@, old(self).label_counter as nat),
                    seq![Instr::CmpImm(Reg::R0, 0)] + set_flag(Cond::Eq, Cond::Ne),
                ),
                size(*term) + 1,
                r,
                old(env)@,
                old(self).label_counter as nat,
                old(out)@,
                final(env)@,
                final(self).label_counter as nat,
                final(out)@,
            ),
        decreases size(*term) + 1, 1nat,
    {
        let r = self.emit_node(term, env, out);
        let ghost mid = out@;
        if r.is_ok() {
            push_code(out, Instr::CmpImm(Reg::R0, 0));
            self.emit_set_flag(Cond::Eq, Cond::Ne, out);
            assert(out@ =~= mid + (seq![Instr::CmpImm(Reg::R0, 0)] + set_flag(Cond::Eq, Cond::Ne)));
        }
        proof {
            lemma_emits_then(
                gen(*term, old(env)@, old(self).label_counter as nat),
                seq![Instr::CmpImm(Reg::R0, 0)] + set_flag(Cond::Eq, Cond::Ne),
                r,
                old(out)@,
                mid,
                out@,
                env@,
                self.label_counter as nat,
            );
        }
        r
    }

    /// Sets `r0` to 1 or 0 after a comparison, as the flags satisfy `yes` or `no`.
    fn emit_set_flag(&mut self, yes: Cond, no: Cond, out: &mut Vec<Instr>)
        ensures
            final(out)@ == old(out)@ + set_flag(yes, no),
            final(self).label_counter == old(self).label_counter,
    {
        push_code(out, Instr::MovImm(yes, Reg::R0, 1));
        push_code(out, Instr::MovImm(no, Reg::R0, 0));
        assert(out@ =~= old(out)@ + set_flag(yes, no));
    }

    /// Emits the left operand, keeps it on the stack while the right one is
    /// emitted, then pops it into `r1`.
    fn infix_operands(
        &mut self,
        left: &AST,
        right: &AST,
        env: &mut Environment,
        out: &mut Vec<Instr>,
    ) -> (r: Result<(), CodeGenError>)
        requires
            fits(size(*left) + size(*right) + 1, old(env)@, old(self).label_counter as nat),
        ensures
            emitted_as(
                gen_operands(*left, *right, old(env)@, old(self).label_counter as nat),
                size(*left) + size(*right),
                r,
                old(env)@,
                old(self).label_counter as nat,
                old(out)@,
                final(env)@,
                final(self).label_counter as nat,
                final(out)@,
            ),
        decreases size(*left) + size(*right) + 1, 0nat,
    {
        match self.emit_node(left, env, out) {
            Err(x) => return Err(x),
            Ok(()) => {},
        }
        push_code(out, Instr::Push(Reg::R0, Reg::Ip));
        match self.emit_node(right, env, out) {
            Err(x) => return Err(x),
            Ok(()) => {},
        }
        push_code(out, Instr::Pop(Reg::R1, Reg::Ip));
        proof {
            let a = gen(*left, old(env)@, old(self).label_counter as nat)->Ok_0;
            let b = gen(*right, a.frame, a.labels)->Ok_0;
            assert(out@ =~= old(out)@ + (a.code + seq![Instr::Push(Reg::R0, Reg::Ip)] + b.code
                + seq![Instr::Pop(Reg::R1, Reg::Ip)]));
        }
        Ok(())
    }

    /// An arithmetic operator: `op` on the left operand (`r1`) and the right
    /// one (`r0`), into `r0`.
    fn visit_arith(
        &mut self,
        left: &AST,
        right: &AST,
        op: Op,
        env: &mut Environment,
        out: &mut Vec<Instr>,
    ) -> (r: Result<(), CodeGenError>)
        requires
            fits(size(*left) + size(*right) + 1, old(env)@, old(self).label_counter as nat),
        ensures
            emitted_as(
                gen_arith(*left, *right, op, old(env)@, old(self).label_counter as nat),
                size(*left) + size(*right) + 1,
                r,
                old(env)@,
                old(self).label_counter as nat,
                old(out)@,
                final(env)@,
                final(self).label_counter as nat,
                final(out)@,
            ),
        decreases size(*left) + size(*right) + 1, 1nat,
    {
        let r = self.infix_operands(left, right, env, out);
        let ghost mid = out@;
        if r.is_ok() {
            push_code(out, Instr::Arith(op, Reg::R0, Reg::R1, Reg::R0));
        }
        proof {
            lemma_emits_then(
                gen_operands(*left, *right, old(env)@, old(self).label_counter as nat),
                seq![Instr::Arith(op, Reg::R0, Reg::R1, Reg::R0)],
                r,
                old(out)@,
                mid,
                out@,
                env@,
                self.label_counter as nat,
            );
        }
        r
    }

    /// A comparison of the left operand against the right one; `r0` becomes 1
    /// where the flags satisfy `yes`, 0 where they satisfy `no`.
    fn visit_compare(
        &mut self,
        left: &AST,
        right: &AST,
        yes: Cond,
        no: Cond,
        env: &mut Environment,
        out: &mut Vec<Instr>,
    ) -> (r: Result<(), CodeGenError>)
        requires
            fits(size(*left) + size(*right) + 1, old(env)@, old(self).label_counter as nat),
        ensures
            emitted_as(
                gen_compare(*left, *right, yes, no, old(env)@, old(self).label_counter as nat),
                size(*left) + size(*right) + 1,
                r,
                old(env)@,
                old(self).label_counter as nat,
                old(out)@,
                final(env)@,
                final(self).label_counter as nat,
                final(out)@,
            ),
        decreases size(*left) + size(*right) + 1, 1nat,
    {
        let r = self.infix_operands(left, right, env, out);
        let ghost mid = out@;
        if r.is_ok() {
            push_code(out, Instr::Cmp(Reg::R1, Reg::R0));
            self.emit_set_flag(yes, no, out);
            assert(out@ =~= mid + (seq![Instr::Cmp(Reg::R1, Reg::R0)] + set_flag(yes, no)));
        }
        proof {
            lemma_emits_then(
                gen_operands(*left, *right, old(env)@, old(self).label_counter as nat),
                seq![Instr::Cmp(Reg::R1, Reg::R0)] + set_flag(yes, no),
                r,
                old(out)@,
                mid,
                out@,
                env@,
                self.label_counter as nat,
            );
        }
        r
    }

    /// Emits the statements one after the other, in the same environment.
    fn visit_block(
        &mut self,
        statements: &Vec<AST>,
        env: &mut Environment,
        out: &mut Vec<Instr>,
    ) -> (r: Result<(), CodeGenError>)
        requires
            fits(size_seq(statements@), old(env)@, old(self).label_counter as nat),
        ensures
            emitted_as(
                gen_statements(statements@, old(env)@, old(self).label_counter as nat),
                size_seq(statements@),
                r,
                old(env)@,
                old(self).label_counter as nat,
                old(out)@,
                final(env)@,
                final(self).label_counter as nat,
                final(out)@,
            ),
        decreases size_seq(statements@), 1nat,
    {
        let ghost f0 = env@;
        let ghost c0 = self.label_counter as nat;
        let ghost out0 = out@;
        let mut i: usize = 0;
        while i < statements.len()
            invariant
                i <= statements.len(),
                f0 == old(env)@,
                c0 == old(self).label_counter as nat,
                out0 == old(out)@,
                fits(size_seq(statements@), f0, c0),
                emitted_as(
                    gen_statements(statements@.take(i as int), f0, c0),
                    size_seq(statements@.take(i as int)),
                    Ok(()),
                    f0,
                    c0,
                    out0,
                    env@,
                    self.label_counter as nat,
                    out@,
                ),
            decreases statements.len() - i,
        {
            proof {
                lemma_size_seq_prefix(statements@, i as int);
                lemma_size_seq_prefix(statements@, i + 1);
                lemma_size_seq_elem(statements@, i as int);
                assert(statements@.take(i + 1).drop_last() =~= statements@.take(i as int));
                assert(statements@.take(i + 1).last() == statements@[i as int]);
            }
            match self.emit_node(&statements[i], env, out) {
                Err(x) => {
                    proof {
                        lemma_statements_err(statements@, i + 1, f0, c0);
                    }
                    return Err(x);
                },
                Ok(()) => {},
            }
            proof {
                let a = gen_statements(statements@.take(i as int), f0, c0)->Ok_0;
                let b = gen(statements@[i as int], a.frame, a.labels)->Ok_0;
                assert(out@ =~= out0 + (a.code + b.code));
            }
            i = i + 1;
        }
        proof {
            assert(statements@.take(statements.len() as int) =~= statements@);
        }
        Ok(())
    }

    /// Emits the values one after the other, value `i` stored at
    /// `base + first + 4 * i`.
    fn visit_stored(
        &mut self,
        items: &Vec<AST>,
        base: Reg,
        first: i64,
        env: &mut Environment,
        out: &mut Vec<Instr>,
    ) -> (r: Result<(), CodeGenError>)
        requires
            first + 4 * items.len() <= i64::MAX,
            fits(size_seq(items@), old(env)@, old(self).label_counter as nat),
        ensures
            emitted_as(
                gen_stored(items@, base, first as int, old(env)@, old(self).label_counter as nat),
                size_seq(items@),
                r,
                old(env)@,
                old(self).label_counter as nat,
                old(out)@,
                final(env)@,
                final(self).label_counter as nat,
                final(out)@,
            ),
        decreases size_seq(items@), 1nat,
    {
        let ghost f0 = env@;
        let ghost c0 = self.label_counter as nat;
        let ghost out0 = out@;
        proof {
            lemma_size_seq_len(items@);
        }
        let mut i: usize = 0;
        while i < items.len()
            invariant
                i <= items.len() <= size_seq(items@),
                first + 4 * items.len() <= i64::MAX,
                f0 == old(env)@,
                c0 == old(self).label_counter as nat,
                out0 == old(out)@,
                fits(size_seq(items@), f0, c0),
                emitted_as(
                    gen_stored(items@.take(i as int), base, first as int, f0, c0),
                    size_seq(items@.take(i as int)),
                    Ok(()),
                    f0,
                    c0,
                    out0,
                    env@,
                    self.label_counter as nat,
                    out@,
                ),
            decreases items.len() - i,
        {
            proof {
                lemma_size_seq_prefix(items@, i as int);
                lemma_size_seq_prefix(items@, i + 1);
                lemma_size_seq_elem(items@, i as int);
                assert(items@.take(i + 1).drop_last() =~= items@.take(i as int));
                assert(items@.take(i + 1).last() == items@[i as int]);
                assert(items@.take(i + 1).len() == i + 1);
            }
            match self.emit_node(&items[i], env, out) {
                Err(x) => {
                    proof {
                        lemma_stored_err(items@, base, first as int, i + 1, f0, c0);
                    }
                    return Err(x);
                },
                Ok(()) => {},
            }
            let offset: i64 = first + 4 * (i as i64);
            push_code(out, Instr::Store(Reg::R0, base, offset));
            proof {
                let a = gen_stored(items@.take(i as int), base, first as int, f0, c0)->Ok_0;
                let b = gen(items@[i as int], a.frame, a.labels)->Ok_0;
                assert(
                    out@ =~= out0
                        + (a.code + b.code + seq![Instr::Store(Reg::R0, base, offset)])
                );
            }
            i = i + 1;
        }
        proof {
            assert(items@.take(items.len() as int) =~= items@);
        }
        Ok(())
    }

    /// A call: up to four arguments, passed in `r0` to `r3`.
    fn visit_call(
        &mut self,
        callee: &String,
        args: &Vec<AST>,
        env: &mut Environment,
        out: &mut Vec<Instr>,
    ) -> (r: Result<(), CodeGenError>)
        requires
            fits(size_seq(args@) + 1, old(env)@, old(self).label_counter as nat),
        ensures
            emitted_as(
                gen(
                    AST::Call { callee: *callee, args: *args },
                    old(env)@,
                    old(self).label_counter as nat,
                ),
                size_seq(args@) + 1,
                r,
                old(env)@,
                old(self).label_counter as nat,
                old(out)@,
                final(env)@,
                final(self).label_counter as nat,
                final(out)@,
            ),
        decreases size_seq(args@) + 1, 2nat,
    {
        let ghost f0 = env@;
        let ghost c0 = self.label_counter as nat;
        let len = args.len();
        if len == 0 {
            push_code(out, Instr::Call(callee.clone()));
            Ok(())
        } else if len == 1 {
            let r = self.visit_block(args, env, out);
            let ghost mid = out@;
            if r.is_ok() {
                push_code(out, Instr::Call(callee.clone()));
            }
            proof {
                lemma_emits_then(
                    gen_statements(args@, f0, c0),
                    seq![Instr::Call(*callee)],
                    r,
                    old(out)@,
                    mid,
                    out@,
                    env@,
                    self.label_counter as nat,
                );
            }
            r
        } else if len <= MAX_ARGS {
            // Room for the four argument registers, filled in order and then popped.
            push_code(out, Instr::ArithImm(Op::Sub, Cond::Al, Reg::Sp, Reg::Sp, 16));
            let ghost mid0 = out@;
            let r = self.visit_stored(args, Reg::Sp, 0, env, out);
            let ghost mid = out@;
            if r.is_ok() {
                push_code(out, Instr::PopArgs);
                push_code(out, Instr::Call(callee.clone()));
                assert(out@ =~= mid + seq![Instr::PopArgs, Instr::Call(*callee)]);
            }
            proof {
                let head = seq![Instr::ArithImm(Op::Sub, Cond::Al, Reg::Sp, Reg::Sp, 16)];
                lemma_code_then(
                    head,
                    gen_stored(args@, Reg::Sp, 0, f0, c0),
                    r,
                    old(out)@,
                    mid0,
                    mid,
                    env@,
                    self.label_counter as nat,
                );
                lemma_emits_then(
                    code_then(head, gen_stored(args@, Reg::Sp, 0, f0, c0)),
                    seq![Instr::PopArgs, Instr::Call(*callee)],
                    r,
                    old(out)@,
                    mid,
                    out@,
                    env@,
                    self.label_counter as nat,
                );
            }
            r
        } else {
            Err(CodeGenError::TooManyArguments)
        }
    }

    /// Leaves the function with the term's value in `r0`.
    fn visit_return(
        &mut self,
        term: &AST,
        env: &mut Environment,
        out: &mut Vec<Instr>,
    ) -> (r: Result<(), CodeGenError>)
        requires
            fits(size(*term) + 1, old(env)@, old(self).label_counter as nat),
        ensures
            emitted_as(
                then_code(
                    gen(*term, old(env)@, old(self).label_counter as nat),
                    seq![Instr::MovReg(Reg::Sp, Reg::Fp), Instr::Pop(Reg::Fp, Reg::Pc)],
                ),
                size(*term) + 1,
                r,
                old(env)@,
                old(self).label_counter as nat,
                old(out)@,
                final(env)@,
                final(self).label_counter as nat,
                final(out)@,
            ),
        decreases size(*term) + 1, 1nat,
    {
        let r = self.emit_node(term, env, out);
        let ghost mid = out@;
        if r.is_ok() {
            push_code(out, Instr::MovReg(Reg::Sp, Reg::Fp));
            push_code(out, Instr::Pop(Reg::Fp, Reg::Pc));
            assert(
                out@ =~= mid
                    + seq![Instr::MovReg(Reg::Sp, Reg::Fp), Instr::Pop(Reg::Fp, Reg::Pc)]
            );
        }
        proof {
            lemma_emits_then(
                gen(*term, old(env)@, old(self).label_counter as nat),
                seq![Instr::MovReg(Reg::Sp, Reg::Fp), Instr::Pop(Reg::Fp, Reg::Pc)],
                r,
                old(out)@,
                mid,
                out@,
                env@,
                self.label_counter as nat,
            );
        }
        r
    }

    /// Branches to the alternative when the condition is 0; both branches are
    /// always emitted.
    fn visit_if(
        &mut self,
        conditional: &Box<AST>,
        consequence: &Box<AST>,
        alternative: &Box<AST>,
        env: &mut Environment,
        out: &mut Vec<Instr>,
    ) -> (r: Result<(), CodeGenError>)
        requires
            fits(
                size(**conditional) + size(**consequence) + size(**alternative) + 1,
                old(env)@,
                old(self).label_counter as nat,
            ),
        ensures
            emitted_as(
                gen(
                    AST::IfNode {
                        conditional: *conditional,
                        consequence: *consequence,
                        alternative: *alternative,
                    },
                    old(env)@,
                    old(self).label_counter as nat,
                ),
                size(**conditional) + size(**consequence) + size(**alternative) + 1,
                r,
                old(env)@,
                old(self).label_counter as nat,
                old(out)@,
                final(env)@,
                final(self).label_counter as nat,
                final(out)@,
            ),
        decreases size(**conditional) + size(**consequence) + size(**alternative) + 1, 2nat,
    {
        let else_label = self.new_label();
        let end_label = self.new_label();
        match self.emit_node(conditional, env, out) {
            Err(x) => return Err(x),
            Ok(()) => {},
        }
        push_code(out, Instr::CmpImm(Reg::R0, 0));
        push_code(out, Instr::Branch(Cond::Eq, else_label));
        match self.emit_node(consequence, env, out) {
            Err(x) => return Err(x),
            Ok(()) => {},
        }
        push_code(out, Instr::Branch(Cond::Al, end_label));
        push_code(out, Instr::Label(else_label));
        match self.emit_node(alternative, env, out) {
            Err(x) => return Err(x),
            Ok(()) => {},
        }
        push_code(out, Instr::Label(end_label));
        proof {
            let a = gen(**conditional, old(env)@, (old(self).label_counter + 2) as nat)->Ok_0;
            let b = gen(**consequence, a.frame, a.labels)->Ok_0;
            let d = gen(**alternative, b.frame, b.labels)->Ok_0;
            assert(
                out@ =~= old(out)@
                    + (a.code
                        + seq![Instr::CmpImm(Reg::R0, 0), Instr::Branch(Cond::Eq, else_label)]
                        + b.code
                        + seq![Instr::Branch(Cond::Al, end_label), Instr::Label(else_label)]
                        + d.code
                        + seq![Instr::Label(end_label)])
            );
        }
        Ok(())
    }

    /// Tests the condition at the loop's start and leaves when it is 0.
    fn visit_while(
        &mut self,
        conditional: &Box<AST>,
        body: &Box<AST>,
        env: &mut Environment,
        out: &mut Vec<Instr>,
    ) -> (r: Result<(), CodeGenError>)
        requires
            fits(size(**conditional) + size(**body) + 1, old(env)@, old(self).label_counter as nat),
        ensures
            emitted_as(
                gen(
                    AST::While { conditional: *conditional, body: *body },
                    old(env)@,
                    old(self).label_counter as nat,
                ),
                size(**conditional) + size(**body) + 1,
                r,
                old(env)@,
                old(self).label_counter as nat,
                old(out)@,
                final(env)@,
                final(self).label_counter as nat,
                final(out)@,
            ),
        decreases size(**conditional) + size(**body) + 1, 2nat,
    {
        let start_label = self.new_label();
        let end_label = self.new_label();
        push_code(out, Instr::Label(start_label));
        match self.emit_node(conditional, env, out) {
            Err(x) => return Err(x),
            Ok(()) => {},
        }
        push_code(out, Instr::CmpImm(Reg::R0, 0));
        push_code(out, Instr::Branch(Cond::Eq, end_label));
        match self.emit_node(body, env, out) {
            Err(x) => return Err(x),
            Ok(()) => {},
        }
        push_code(out, Instr::Branch(Cond::Al, start_label));
        push_code(out, Instr::Label(end_label));
        proof {
            let a = gen(**conditional, old(env)@, (old(self).label_counter + 2) as nat)->Ok_0;
            let b = gen(**body, a.frame, a.labels)->Ok_0;
            assert(
                out@ =~= old(out)@
                    + (seq![Instr::Label(start_label)]
                        + a.code
                        + seq![Instr::CmpImm(Reg::R0, 0), Instr::Branch(Cond::Eq, end_label)]
                        + b.code
                        + seq![Instr::Branch(Cond::Al, start_label), Instr::Label(end_label)])
            );
        }
        Ok(())
    }

    /// Declares `name`: the value pushed on the stack is its storage.
    fn visit_var(
        &mut self,
        name: &String,
        value: &Box<AST>,
        env: &mut Environment,
        out: &mut Vec<Instr>,
    ) -> (r: Result<(), CodeGenError>)
        requires
            fits(size(**value) + 1, old(env)@, old(self).label_counter as nat),
        ensures
            emitted_as(
                gen(
                    AST::Var { name: *name, value: *value },
                    old(env)@,
                    old(self).label_counter as nat,
                ),
                size(**value) + 1,
                r,
                old(env)@,
                old(self).label_counter as nat,
                old(out)@,
                final(env)@,
                final(self).label_counter as nat,
                final(out)@,
            ),
        decreases size(**value) + 1, 2nat,
    {
        match self.emit_node(value, env, out) {
            Err(x) => return Err(x),
            Ok(()) => {},
        }
        push_code(out, Instr::Push(Reg::R0, Reg::Ip));
        env.declare(name);
        proof {
            let a = gen(**value, old(env)@, old(self).label_counter as nat)->Ok_0;
            assert(out@ =~= old(out)@ + (a.code + seq![Instr::Push(Reg::R0, Reg::Ip)]));
        }
        Ok(())
    }

    /// Stores the value into the slot of a declared name.
    fn visit_assign(
        &mut self,
        name: &String,
        value: &Box<AST>,
        env: &mut Environment,
        out: &mut Vec<Instr>,
    ) -> (r: Result<(), CodeGenError>)
        requires
            fits(size(**value) + 1, old(env)@, old(self).label_counter as nat),
        ensures
            emitted_as(
                gen(
                    AST::Assign { name: *name, value: *value },
                    old(env)@,
                    old(self).label_counter as nat,
                ),
                size(**value) + 1,
                r,
                old(env)@,
                old(self).label_counter as nat,
                old(out)@,
                final(env)@,
                final(self).label_counter as nat,
                final(out)@,
            ),
        decreases size(**value) + 1, 2nat,
    {
        match self.emit_node(value, env, out) {
            Err(x) => return Err(x),
            Ok(()) => {},
        }
        match env.lookup(name) {
            None => Err(CodeGenError::UndefinedVariable(name.clone())),
            Some(offset) => {
                push_code(out, Instr::Store(Reg::R0, Reg::Fp, offset));
                proof {
                    let a = gen(**value, old(env)@, old(self).label_counter as nat)->Ok_0;
                    assert(
                        out@ =~= old(out)@
                            + (a.code + seq![Instr::Store(Reg::R0, Reg::Fp, offset)])
                    );
                }
                Ok(())
            },
        }
    }

    /// Saves `fp` and `lr`, points `fp` at the frame, and spills the four
    /// argument registers.
    pub fn emit_fn_prologue(&mut self, out: &mut Vec<Instr>)
        ensures
            final(out)@ == old(out)@ + prologue(),
            final(self).label_counter == old(self).label_counter,
    {
        push_code(out, Instr::Push(Reg::Fp, Reg::Lr));
        push_code(out, Instr::MovReg(Reg::Fp, Reg::Sp));
        push_code(out, Instr::PushArgs);
        assert(out@ =~= old(out)@ + prologue());
    }

    /// Restores the stack and returns 0 to the caller.
    pub fn emit_fn_epilogue(&mut self, out: &mut Vec<Instr>)
        ensures
            final(out)@ == old(out)@ + epilogue(),
            final(self).label_counter == old(self).label_counter,
    {
        push_code(out, Instr::MovReg(Reg::Sp, Reg::Fp));
        push_code(out, Instr::MovImm(Cond::Al, Reg::R0, 0));
        push_code(out, Instr::PopFrame);
        assert(out@ =~= old(out)@ + epilogue());
    }

    /// A function: a global symbol, the prologue, the body in an environment of
    /// its own, and the epilogue. The enclosing environment is left as it was.
    fn visit_function(
        &mut self,
        name: &String,
        parameters: &Vec<String>,
        body: &Box<AST>,
        env: &mut Environment,
        out: &mut Vec<Instr>,
    ) -> (r: Result<(), CodeGenError>)
        requires
            fits(size(**body) + 1, old(env)@, old(self).label_counter as nat),
        ensures
            emitted_as(
                gen(
                    AST::Function { name: *name, parameters: *parameters, body: *body },
                    old(env)@,
                    old(self).label_counter as nat,
                ),
                size(**body) + 1,
                r,
                old(env)@,
                old(self).label_counter as nat,
                old(out)@,
                final(env)@,
                final(self).label_counter as nat,
                final(out)@,
            ),
        decreases size(**body) + 1, 2nat,
    {
        if parameters.len() > MAX_ARGS {
            return Err(CodeGenError::TooManyParameters);
        }
        push_code(out, Instr::Blank);
        push_code(out, Instr::Global(name.clone()));
        push_code(out, Instr::Symbol(name.clone()));
        self.emit_fn_prologue(out);
        let ghost mid = out@;
        let mut inner = Environment::for_parameters(parameters);
        match self.emit_node(body, &mut inner, out) {
            Err(x) => return Err(x),
            Ok(()) => {},
        }
        self.emit_fn_epilogue(out);
        proof {
            let a = gen(**body, parameter_frame(parameters@), old(self).label_counter as nat)->Ok_0;
            assert(
                out@ =~= old(out)@
                    + (seq![Instr::Blank, Instr::Global(*name), Instr::Symbol(*name)]
                        + prologue()
                        + a.code
                        + epilogue())
            );
        }
        Ok(())
    }

    /// An array on the heap: a length word followed by one word per item; its
    /// address is left in `r0`.
    fn visit_array_literal(
        &mut self,
        items: &Vec<AST>,
        env: &mut Environment,
        out: &mut Vec<Instr>,
    ) -> (r: Result<(), CodeGenError>)
        requires
            fits(size_seq(items@) + 1, old(env)@, old(self).label_counter as nat),
        ensures
            emitted_as(
                gen(AST::ArrayLiteral(*items), old(env)@, old(self).label_counter as nat),
                size_seq(items@) + 1,
                r,
                old(env)@,
                old(self).label_counter as nat,
                old(out)@,
                final(env)@,
                final(self).label_counter as nat,
                final(out)@,
            ),
        decreases size_seq(items@) + 1, 2nat,
    {
        let ghost f0 = env@;
        let ghost c0 = self.label_counter as nat;
        proof {
            lemma_size_seq_len(items@);
        }
        let len = items.len() as u64;
        push_code(out, Instr::LoadImm(Reg::R0, 4 * (len + 1)));
        push_code(out, Instr::CallRoutine(Routine::Malloc));
        push_code(out, Instr::Push(Reg::R4, Reg::Ip));
        push_code(out, Instr::MovReg(Reg::R4, Reg::R0));
        push_code(out, Instr::LoadImm(Reg::R0, len));
        push_code(out, Instr::Store(Reg::R0, Reg::R4, 0));
        let ghost mid0 = out@;
        let r = self.visit_stored(items, Reg::R4, 4, env, out);
        let ghost mid = out@;
        if r.is_ok() {
            push_code(out, Instr::MovReg(Reg::R0, Reg::R4));
            push_code(out, Instr::Pop(Reg::R4, Reg::Ip));
            assert(
                out@ =~= mid
                    + seq![Instr::MovReg(Reg::R0, Reg::R4), Instr::Pop(Reg::R4, Reg::Ip)]
            );
        }
        proof {
            let head = seq![
                Instr::LoadImm(Reg::R0, (4 * (items.len() + 1)) as u64),
                Instr::CallRoutine(Routine::Malloc),
                Instr::Push(Reg::R4, Reg::Ip),
                Instr::MovReg(Reg::R4, Reg::R0),
                Instr::LoadImm(Reg::R0, items.len() as u64),
                Instr::Store(Reg::R0, Reg::R4, 0),
            ];
            assert(mid0 =~= old(out)@ + head);
            lemma_code_then(
                head,
                gen_stored(items@, Reg::R4, 4, f0, c0),
                r,
                old(out)@,
                mid0,
                mid,
                env@,
                self.label_counter as nat,
            );
            lemma_emits_then(
                code_then(head, gen_stored(items@, Reg::R4, 4, f0, c0)),
                seq![Instr::MovReg(Reg::R0, Reg::R4), Instr::Pop(Reg::R4, Reg::Ip)],
                r,
                old(out)@,
                mid,
                out@,
                env@,
                self.label_counter as nat,
            );
        }
        r
    }

    /// The item at an index, or 0 where the index is not below the length
    /// (compared unsigned).
    fn visit_array_lookup(
        &mut self,
        array: &AST,
        index: &AST,
        env: &mut Environment,
        out: &mut Vec<Instr>,
    ) -> (r: Result<(), CodeGenError>)
        requires
            fits(size(*array) + size(*index) + 1, old(env)@, old(self).label_counter as nat),
        ensures
            emitted_as(
                then_code(
                    gen_operands(*array, *index, old(env)@, old(self).label_counter as nat),
                    lookup_code(),
                ),
                size(*array) + size(*index) + 1,
                r,
                old(env)@,
                old(self).label_counter as nat,
                old(out)@,
                final(env)@,
                final(self).label_counter as nat,
                final(out)@,
            ),
        decreases size(*array) + size(*index) + 1, 1nat,
    {
        let r = self.infix_operands(array, index, env, out);
        let ghost mid = out@;
        if r.is_ok() {
            push_code(out, Instr::Load(Cond::Al, Reg::R2, Reg::R1, 0));
            push_code(out, Instr::Cmp(Reg::R0, Reg::R2));
            push_code(out, Instr::MovImm(Cond::Hs, Reg::R0, 0));
            push_code(out, Instr::ArithImm(Op::Add, Cond::Lo, Reg::R1, Reg::R1, 4));
            push_code(out, Instr::ArithImm(Op::Lsl, Cond::Lo, Reg::R0, Reg::R0, 2));
            push_code(out, Instr::LoadIndexed(Cond::Lo, Reg::R0, Reg::R1, Reg::R0));
            assert(out@ =~= mid + lookup_code());
        }
        proof {
            lemma_emits_then(
                gen_operands(*array, *index, old(env)@, old(self).label_counter as nat),
                lookup_code(),
                r,
                old(out)@,
                mid,
                out@,
                env@,
                self.label_counter as nat,
            );
        }
        r
    }

    /// The length word of the array.
    fn visit_array_length(
        &mut self,
        array: &AST,
        env: &mut Environment,
        out: &mut Vec<Instr>,
    ) -> (r: Result<(), CodeGenError>)
        requires
            fits(size(*array) + 1, old(env)@, old(self).label_counter as nat),
        ensures
            emitted_as(
                then_code(
                    gen(*array, old(env)@, old(self).label_counter as nat),
                    seq![Instr::Load(Cond::Al, Reg::R0, Reg::R0, 0)],
                ),
                size(*array) + 1,
                r,
                old(env)@,
                old(self).label_counter as nat,
                old(out)@,
                final(env)@,
                final(self).label_counter as nat,
                final(out)@,
            ),
        decreases size(*array) + 1, 1nat,
    {
        let r = self.emit_node(array, env, out);
        let ghost mid = out@;
        if r.is_ok() {
            push_code(out, Instr::Load(Cond::Al, Reg::R0, Reg::R0, 0));
        }
        proof {
            lemma_emits_then(
                gen(*array, old(env)@, old(self).label_counter as nat),
                seq![Instr::Load(Cond::Al, Reg::R0, Reg::R0, 0)],
                r,
                old(out)@,
                mid,
                out@,
                env@,
                self.label_counter as nat,
            );
        }
        r
    }

    /// Prints the pass mark when the condition is exactly 1, else the fail mark.
    fn visit_assert(
        &mut self,
        condition: &AST,
        env: &mut Environment,
        out: &mut Vec<Instr>,
    ) -> (r: Result<(), CodeGenError>)
        requires
            fits(size(*condition) + 1, old(env)@, old(self).label_counter as nat),
        ensures
            emitted_as(
                then_code(
                    gen(*condition, old(env)@, old(self).label_counter as nat),
                    assert_code(),
                ),
                size(*condition) + 1,
                r,
                old(env)@,
                old(self).label_counter as nat,
                old(out)@,
                final(env)@,
                final(self).label_counter as nat,
                final(out)@,
            ),
        decreases size(*condition) + 1, 1nat,
    {
        let r = self.emit_node(condition, env, out);
        let ghost mid = out@;
        if r.is_ok() {
            push_code(out, Instr::CmpImm(Reg::R0, 1));
            push_code(out, Instr::MovImm(Cond::Eq, Reg::R0, PASS_MARK as u64));
            push_code(out, Instr::MovImm(Cond::Ne, Reg::R0, FAIL_MARK as u64));
            push_code(out, Instr::CallRoutine(Routine::Putchar));
            assert(out@ =~= mid + assert_code());
        }
        proof {
            lemma_emits_then(
                gen(*condition, old(env)@, old(self).label_counter as nat),
                assert_code(),
                r,
                old(out)@,
                mid,
                out@,
                env@,
                self.label_counter as nat,
            );
        }
        r
    }

    /// Hands the value to the runtime's print routine.
    fn visit_print(
        &mut self,
        value: &AST,
        env: &mut Environment,
        out: &mut Vec<Instr>,
    ) -> (r: Result<(), CodeGenError>)
        requires
            fits(size(*value) + 1, old(env)@, old(self).label_counter as nat),
        ensures
            emitted_as(
                then_code(
                    gen(*value, old(env)@, old(self).label_counter as nat),
                    seq![Instr::CallRoutine(Routine::Print)],
                ),
                size(*value) + 1,
                r,
                old(env)@,
                old(self).label_counter as nat,
                old(out)@,
                final(env)@,
                final(self).label_counter as nat,
                final(out)@,
            ),
        decreases size(*value) + 1, 1nat,
    {
        let r = self.emit_node(value, env, out);
        let ghost mid = out@;
        if r.is_ok() {
            push_code(out, Instr::CallRoutine(Routine::Print));
        }
        proof {
            lemma_emits_then(
                gen(*value, old(env)@, old(self).label_counter as nat),
                seq![Instr::CallRoutine(Routine::Print)],
                r,
                old(out)@,
                mid,
                out@,
                env@,
                self.label_counter as nat,
            );
        }
        r
    }
}

/// The environment of code outside any function: no locals, first slot at 0.
pub open spec fn initial_frame() -> Frame {
    Frame { locals: Map::empty(), next_local_offset: 0 }
}

/// A tree small enough that its labels and frame slots cannot run out.
pub open spec fn emittable(n: AST) -> bool {
    fits(size(n), initial_frame(), 0)
}

/// The program that a whole tree compiles to, with a fresh environment and
/// label counter.
pub open spec fn compiled(n: AST) -> Result<Seq<Instr>, CodeGenError> {
    match gen(n, initial_frame(), 0) {
        Ok(e) => Ok(e.code),
        Err(x) => Err(x),
    }
}

/// Compiles a whole tree, with a fresh environment and label counter.
pub fn compile(node: &AST) -> (r: Result<Vec<Instr>, CodeGenError>)
    requires
        emittable(*node),
    ensures
        match compiled(*node) {
            Ok(code) => r is Ok && r->Ok_0@ == code,
            Err(x) => r == Err::<Vec<Instr>, CodeGenError>(x),
        },
{
    let mut generator = ArmCodeGenerator::new();
    let mut env = Environment::new();
    let mut out: Vec<Instr> = Vec::new();
    assert(env@ == initial_frame());
    match generator.emit(node, &mut env, &mut out) {
        Ok(()) => {
            assert(out@ =~= Seq::<Instr>::empty() + out@);
            Ok(out)
        },
        Err(x) => Err(x),
    }
}

/// `r` is what compiling the tree to text gives: its program's text, or the
/// reason it was refused.
pub open spec fn compiles_to(n: AST, r: Result<String, CodeGenError>) -> bool {
    match compiled(n) {
        Ok(code) => r is Ok && r->Ok_0@ == program_text(code),
        Err(x) => r == Err::<String, CodeGenError>(x),
    }
}

/// Compiles a whole tree to assembly text, one instruction or label per line.
pub fn compile_to_text(node: &AST) -> (r: Result<String, CodeGenError>)
    requires
        emittable(*node),
    ensures
        compiles_to(*node, r),
{
    match compile(node) {
        Ok(code) => Ok(render(&code)),
        Err(x) => Err(x),
    }
}

/// The most nodes a tree may have for `emittable` to hold.
pub const MAX_NODES: u64 = 1152921504606846973;

/// The number of nodes in a sequence of trees plus one per tree, if that is at
/// most `budget`.
fn count_seq(s: &Vec<AST>, budget: u64) -> (r: Option<u64>)
    ensures
        match r {
            Some(k) => k == size_seq(s@) && k <= budget,
            None => size_seq(s@) > budget,
        },
    decreases size_seq(s@), 0nat,
{
    let mut total: u64 = 0;
    let mut i: usize = 0;
    while i < s.len()
        invariant
            i <= s.len(),
            total == size_seq(s@.take(i as int)),
            total <= budget,
        decreases s.len() - i,
    {
        proof {
            lemma_size_seq_prefix(s@, i as int);
            lemma_size_seq_prefix(s@, i + 1);
            lemma_size_seq_elem(s@, i as int);
        }
        if total == budget {
            proof {
                assert(size_seq(s@.take(i + 1)) > budget);
            }
            return None;
        }
        match node_count(&s[i], budget - total - 1) {
            None => {
                proof {
                    assert(size_seq(s@.take(i + 1)) > budget);
                }
                return None;
            },
            Some(k) => {
                total = total + k + 1;
            },
        }
        i = i + 1;
    }
    proof {
        assert(s@.take(s.len() as int) =~= s@);
    }
    Some(total)
}

/// The number of nodes in two trees plus one, if that is at most `budget`.
fn count_pair(a: &AST, b: &AST, budget: u64) -> (r: Option<u64>)
    ensures
        match r {
            Some(k) => k == size(*a) + size(*b) + 1 && k <= budget,
            None => size(*a) + size(*b) + 1 > budget,
        },
    decreases size(*a) + size(*b) + 1, 0nat,
{
    if budget == 0 {
        return None;
    }
    match node_count(a, budget - 1) {
        None => None,
        Some(ka) => match node_count(b, budget - 1 - ka) {
            None => None,
            Some(kb) => Some(ka + kb + 1),
        },
    }
}

/// The number of nodes in a tree plus one, if that is at most `budget`.
fn count_one(a: &AST, budget: u64) -> (r: Option<u64>)
    ensures
        match r {
            Some(k) => k == size(*a) + 1 && k <= budget,
            None => size(*a) + 1 > budget,
        },
    decreases size(*a) + 1, 0nat,
{
    if budget == 0 {
        return None;
    }
    match node_count(a, budget - 1) {
        None => None,
        Some(k) => Some(k + 1),
    }
}

/// The number of nodes in a tree, if it is at most `budget`.
pub fn node_count(node: &AST, budget: u64) -> (r: Option<u64>)
    ensures
        match r {
            Some(k) => k == size(*node) && k <= budget,
            None => size(*node) > budget,
        },
    decreases size(*node), 1nat,
{
    match node {
        AST::Not(t) => count_one(t, budget),
        AST::Equal { left, right } => count_pair(left, right, budget),
        AST::NotEqual { left, right } => count_pair(left, right, budget),
        AST::Add { left, right } => count_pair(left, right, budget),
        AST::Subtract { left, right } => count_pair(left, right, budget),
        AST::Multiply { left, right } => count_pair(left, right, budget),
        AST::Divide { left, right } => count_pair(left, right, budget),
        AST::LessThan { left, right } => count_pair(left, right, budget),
        AST::GreaterThan { left, right } => count_pair(left, right, budget),
        AST::LessThanEqual { left, right } => count_pair(left, right, budget),
        AST::GreaterThanEqual { left, right } => count_pair(left, right, budget),
        AST::Call { args, .. } => count_items(args, budget),
        AST::Return { term } => count_one(term, budget),
        AST::Block(statements) => count_items(statements, budget),
        AST::IfNode { conditional, consequence, alternative } => {
            match count_one(alternative, budget) {
                None => None,
                Some(k) => match count_pair(conditional, consequence, budget - k + 1) {
                    None => None,
                    Some(j) => Some(j + (k - 1)),
                },
            }
        },
        AST::Function { body, .. } => count_one(body, budget),
        AST::Var { value, .. } => count_one(value, budget),
        AST::Assign { value, .. } => count_one(value, budget),
        AST::While { conditional, body } => count_pair(conditional, body, budget),
        AST::ArrayLiteral(items) => count_items(items, budget),
        AST::ArrayLookup { array, index } => count_pair(array, index, budget),
        AST::ArrayLength(array) => count_one(array, budget),
        AST::Assert(condition) => count_one(condition, budget),
        AST::Print(value) => count_one(value, budget),
        _ => if budget == 0 {
            None
        } else {
            Some(1)
        },
    }
}

/// The number of nodes in a node holding a sequence, if at most `budget`.
fn count_items(s: &Vec<AST>, budget: u64) -> (r: Option<u64>)
    ensures
        match r {
            Some(k) => k == size_seq(s@) + 1 && k <= budget,
            None => size_seq(s@) + 1 > budget,
        },
    decreases size_seq(s@) + 1, 0nat,
{
    if budget == 0 {
        return None;
    }
    match count_seq(s, budget - 1) {
        None => None,
        Some(k) => Some(k + 1),
    }
}

/// Whether the tree is small enough for `compile` and `compile_to_text`.
pub fn within_limits(node: &AST) -> (r: bool)
    ensures
        r == emittable(*node),
{
    node_count(node, MAX_NODES).is_some()
}

} // verus!
