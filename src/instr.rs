use vstd::prelude::*;
use vstd::string::StringExecFns;

verus! {

/// The registers that generated code names.
#[derive(Debug, Clone, Copy, PartialEq, Eq, Structural)]
pub enum Reg {
    R0,
    R1,
    R2,
    R3,
    R4,
    Ip,
    Fp,
    Sp,
    Lr,
    Pc,
}

/// Condition codes; `Al` executes unconditionally and prints as nothing.
#[derive(Debug, Clone, Copy, PartialEq, Eq, Structural)]
pub enum Cond {
    Al,
    Eq,
    Ne,
    Lt,
    Le,
    Gt,
    Ge,
    Hs,
    Lo,
}

/// Three-operand data-processing operations.
#[derive(Debug, Clone, Copy, PartialEq, Eq, Structural)]
pub enum Op {
    Add,
    Sub,
    Mul,
    Udiv,
    Lsl,
}

/// Routines of the runtime that generated code calls.
#[derive(Debug, Clone, Copy, PartialEq, Eq, Structural)]
pub enum Routine {
    /// Writes the character in `r0`.
    Putchar,
    /// Allocates as many bytes as `r0` holds and returns their address.
    Malloc,
    /// Writes the number in `r0`.
    Print,
}

/// One line of assembly text, in structured form.
#[derive(Debug, PartialEq, Eq)]
pub enum Instr {
    /// An empty line.
    Blank,
    /// `.global name`
    Global(String),
    /// `name:`
    Symbol(String),
    /// `.L<n>:`
    Label(u64),
    /// `ldr rd, =n`: load a 32-bit constant.
    LoadImm(Reg, u64),
    /// `mov<c> rd, #n`
    MovImm(Cond, Reg, u64),
    /// `mov rd, rs`
    MovReg(Reg, Reg),
    /// `ldr<c> rd, [rb, #off]`
    Load(Cond, Reg, Reg, i64),
    /// `ldr<c> rd, [rb, rx]`
    LoadIndexed(Cond, Reg, Reg, Reg),
    /// `str rs, [rb, #off]`
    Store(Reg, Reg, i64),
    /// `push {ra, rb}`
    Push(Reg, Reg),
    /// `pop {ra, rb}`
    Pop(Reg, Reg),
    /// `push {r0, r1, r2, r3}`
    PushArgs,
    /// `pop {r0, r1, r2, r3}`
    PopArgs,
    /// `pop { fp, pc }`: the return at the end of a function's epilogue.
    PopFrame,
    /// `<op> rd, ra, rb`
    Arith(Op, Reg, Reg, Reg),
    /// `<op><c> rd, ra, #n`
    ArithImm(Op, Cond, Reg, Reg, u64),
    /// `cmp ra, rb`
    Cmp(Reg, Reg),
    /// `cmp ra, #n`
    CmpImm(Reg, u64),
    /// `b<c> .L<n>`
    Branch(Cond, u64),
    /// `bl name`
    Call(String),
    /// `bl` to a routine of the runtime.
    CallRoutine(Routine),
}

pub open spec fn digit(d: nat) -> char {
    if d == 0 {
        '0'
    } else if d == 1 {
        '1'
    } else if d == 2 {
        '2'
    } else if d == 3 {
        '3'
    } else if d == 4 {
        '4'
    } else if d == 5 {
        '5'
    } else if d == 6 {
        '6'
    } else if d == 7 {
        '7'
    } else if d == 8 {
        '8'
    } else {
        '9'
    }
}

/// Decimal digits of `n`, most significant first, without leading zeros.
pub open spec fn decimal(n: nat) -> Seq<char>
    decreases n,
{
    if n < 10 {
        seq![digit(n)]
    } else {
        decimal(n / 10) + seq![digit(n % 10)]
    }
}

/// Decimal form of a signed number, with a leading `-` when negative.
pub open spec fn signed_decimal(i: int) -> Seq<char> {
    if i < 0 {
        seq!['-'] + decimal((-i) as nat)
    } else {
        decimal(i as nat)
    }
}

pub open spec fn reg_text(r: Reg) -> Seq<char> {
    match r {
        Reg::R0 => "r0"@,
        Reg::R1 => "r1"@,
        Reg::R2 => "r2"@,
        Reg::R3 => "r3"@,
        Reg::R4 => "r4"@,
        Reg::Ip => "ip"@,
        Reg::Fp => "fp"@,
        Reg::Sp => "sp"@,
        Reg::Lr => "lr"@,
        Reg::Pc => "pc"@,
    }
}

pub open spec fn cond_text(c: Cond) -> Seq<char> {
    match c {
        Cond::Al => ""@,
        Cond::Eq => "eq"@,
        Cond::Ne => "ne"@,
        Cond::Lt => "lt"@,
        Cond::Le => "le"@,
        Cond::Gt => "gt"@,
        Cond::Ge => "ge"@,
        Cond::Hs => "hs"@,
        Cond::Lo => "lo"@,
    }
}

pub open spec fn op_text(o: Op) -> Seq<char> {
    match o {
        Op::Add => "add"@,
        Op::Sub => "sub"@,
        Op::Mul => "mul"@,
        Op::Udiv => "udiv"@,
        Op::Lsl => "lsl"@,
    }
}

pub open spec fn routine_text(r: Routine) -> Seq<char> {
    match r {
        Routine::Putchar => "putchar"@,
        Routine::Malloc => "malloc"@,
        Routine::Print => "print"@,
    }
}

/// The text of one instruction, without the line break.
pub open spec fn line_text(i: Instr) -> Seq<char> {
    match i {
        Instr::Blank => ""@,
        Instr::Global(name) => ".global "@ + name@,
        Instr::Symbol(name) => name@ + ":"@,
        Instr::Label(n) => ".L"@ + decimal(n as nat) + ":"@,
        Instr::LoadImm(rd, n) => "\tldr "@ + reg_text(rd) + ", ="@ + decimal(n as nat),
        Instr::MovImm(c, rd, n) => "\tmov"@ + cond_text(c) + " "@ + reg_text(rd) + ", #"@
            + decimal(n as nat),
        Instr::MovReg(rd, rs) => "\tmov "@ + reg_text(rd) + ", "@ + reg_text(rs),
        Instr::Load(c, rd, rb, off) => "\tldr"@ + cond_text(c) + " "@ + reg_text(rd) + ", ["@
            + reg_text(rb) + ", #"@ + signed_decimal(off as int) + "]"@,
        Instr::LoadIndexed(c, rd, rb, rx) => "\tldr"@ + cond_text(c) + " "@ + reg_text(rd)
            + ", ["@ + reg_text(rb) + ", "@ + reg_text(rx) + "]"@,
        Instr::Store(rs, rb, off) => "\tstr "@ + reg_text(rs) + ", ["@ + reg_text(rb) + ", #"@
            + signed_decimal(off as int) + "]"@,
        Instr::Push(ra, rb) => "\tpush {"@ + reg_text(ra) + ", "@ + reg_text(rb) + "}"@,
        Instr::Pop(ra, rb) => "\tpop {"@ + reg_text(ra) + ", "@ + reg_text(rb) + "}"@,
        Instr::PushArgs => "\tpush {r0, r1, r2, r3}"@,
        Instr::PopArgs => "\tpop {r0, r1, r2, r3}"@,
        Instr::PopFrame => "\tpop { fp, pc }"@,
        Instr::Arith(o, rd, ra, rb) => "\t"@ + op_text(o) + " "@ + reg_text(rd) + ", "@ + reg_text(
            ra,
        ) + ", "@ + reg_text(rb),
        Instr::ArithImm(o, c, rd, ra, n) => "\t"@ + op_text(o) + cond_text(c) + " "@ + reg_text(rd)
            + ", "@ + reg_text(ra) + ", #"@ + decimal(n as nat),
        Instr::Cmp(ra, rb) => "\tcmp "@ + reg_text(ra) + ", "@ + reg_text(rb),
        Instr::CmpImm(ra, n) => "\tcmp "@ + reg_text(ra) + ", #"@ + decimal(n as nat),
        Instr::Branch(c, n) => "\tb"@ + cond_text(c) + " .L"@ + decimal(n as nat),
        Instr::Call(name) => "\tbl "@ + name@,
        Instr::CallRoutine(r) => "\tbl "@ + routine_text(r),
    }
}

/// A program's text: each instruction on a line of its own.
pub open spec fn program_text(code: Seq<Instr>) -> Seq<char>
    decreases code.len(),
{
    if code.len() == 0 {
        Seq::empty()
    } else {
        program_text(code.drop_last()) + line_text(code.last()) + "\n"@
    }
}

fn append_digit(out: &mut String, d: u64)
    requires
        d < 10,
    ensures
        final(out)@ == old(out)@ + seq![digit(d as nat)],
{
    proof {
        reveal_strlit("0");
        reveal_strlit("1");
        reveal_strlit("2");
        reveal_strlit("3");
        reveal_strlit("4");
        reveal_strlit("5");
        reveal_strlit("6");
        reveal_strlit("7");
        reveal_strlit("8");
        reveal_strlit("9");
    }
    match d {
        0 => out.append("0"),
        1 => out.append("1"),
        2 => out.append("2"),
        3 => out.append("3"),
        4 => out.append("4"),
        5 => out.append("5"),
        6 => out.append("6"),
        7 => out.append("7"),
        8 => out.append("8"),
        _ => out.append("9"),
    }
}

/// Appends the decimal digits of `n`.
pub fn append_decimal(out: &mut String, n: u64)
    ensures
        final(out)@ == old(out)@ + decimal(n as nat),
    decreases n,
{
    if n < 10 {
        append_digit(out, n);
    } else {
        append_decimal(out, n / 10);
        append_digit(out, n % 10);
        assert(final(out)@ =~= old(out)@ + decimal(n as nat));
    }
}

/// Appends the decimal form of `i`, with a leading `-` when it is negative.
pub fn append_signed_decimal(out: &mut String, i: i64)
    ensures
        final(out)@ == old(out)@ + signed_decimal(i as int),
{
    if i < 0 {
        proof {
            reveal_strlit("-");
        }
        out.append("-");
        let magnitude: u64 = (-(i + 1)) as u64 + 1;
        append_decimal(out, magnitude);
        assert(final(out)@ =~= old(out)@ + signed_decimal(i as int));
    } else {
        append_decimal(out, i as u64);
    }
}

fn append_reg(out: &mut String, r: Reg)
    ensures
        final(out)@ == old(out)@ + reg_text(r),
{
    match r {
        Reg::R0 => out.append("r0"),
        Reg::R1 => out.append("r1"),
        Reg::R2 => out.append("r2"),
        Reg::R3 => out.append("r3"),
        Reg::R4 => out.append("r4"),
        Reg::Ip => out.append("ip"),
        Reg::Fp => out.append("fp"),
        Reg::Sp => out.append("sp"),
        Reg::Lr => out.append("lr"),
        Reg::Pc => out.append("pc"),
    }
}

fn append_cond(out: &mut String, c: Cond)
    ensures
        final(out)@ == old(out)@ + cond_text(c),
{
    match c {
        Cond::Al => out.append(""),
        Cond::Eq => out.append("eq"),
        Cond::Ne => out.append("ne"),
        Cond::Lt => out.append("lt"),
        Cond::Le => out.append("le"),
        Cond::Gt => out.append("gt"),
        Cond::Ge => out.append("ge"),
        Cond::Hs => out.append("hs"),
        Cond::Lo => out.append("lo"),
    }
}

fn append_op(out: &mut String, o: Op)
    ensures
        final(out)@ == old(out)@ + op_text(o),
{
    match o {
        Op::Add => out.append("add"),
        Op::Sub => out.append("sub"),
        Op::Mul => out.append("mul"),
        Op::Udiv => out.append("udiv"),
        Op::Lsl => out.append("lsl"),
    }
}

fn render_blank(out: &mut String)
    ensures
    final(out)@ == old(out)@ + line_text(Instr::Blank),
{
    let ghost start = out@;
    out.append("");
    assert(out@ =~= start + line_text(Instr::Blank));
}

fn render_global(out: &mut String, name: &String)
    ensures
    final(out)@ == old(out)@ + line_text(Instr::Global(*name)),
{
    let ghost start = out@;
    out.append(".global ");
    out.append(name.as_str());
    assert(out@ =~= start + line_text(Instr::Global(*name)));
}

fn render_symbol(out: &mut String, name: &String)
    ensures
    final(out)@ == old(out)@ + line_text(Instr::Symbol(*name)),
{
    let ghost start = out@;
    out.append(name.as_str());
    out.append(":");
    assert(out@ =~= start + line_text(Instr::Symbol(*name)));
}

fn render_label(out: &mut String, n: u64)
    ensures
    final(out)@ == old(out)@ + line_text(Instr::Label(n)),
{
    let ghost start = out@;
    out.append(".L");
    append_decimal(out, n);
    out.append(":");
    assert(out@ =~= start + line_text(Instr::Label(n)));
}

fn render_load_imm(out: &mut String, rd: Reg, n: u64)
    ensures
    final(out)@ == old(out)@ + line_text(Instr::LoadImm(rd, n)),
{
    let ghost start = out@;
    out.append("\tldr ");
    append_reg(out, rd);
    out.append(", =");
    append_decimal(out, n);
    assert(out@ =~= start + line_text(Instr::LoadImm(rd, n)));
}

fn render_mov_imm(out: &mut String, c: Cond, rd: Reg, n: u64)
    ensures
    final(out)@ == old(out)@ + line_text(Instr::MovImm(c, rd, n)),
{
    let ghost start = out@;
    out.append("\tmov");
    append_cond(out, c);
    out.append(" ");
    append_reg(out, rd);
    out.append(", #");
    append_decimal(out, n);
    assert(out@ =~= start + line_text(Instr::MovImm(c, rd, n)));
}

fn render_mov_reg(out: &mut String, rd: Reg, rs: Reg)
    ensures
    final(out)@ == old(out)@ + line_text(Instr::MovReg(rd, rs)),
{
    let ghost start = out@;
    out.append("\tmov ");
    append_reg(out, rd);
    out.append(", ");
    append_reg(out, rs);
    assert(out@ =~= start + line_text(Instr::MovReg(rd, rs)));
}

fn render_load(out: &mut String, c: Cond, rd: Reg, rb: Reg, off: i64)
    ensures
    final(out)@ == old(out)@ + line_text(Instr::Load(c, rd, rb, off)),
{
    let ghost start = out@;
    out.append("\tldr");
    append_cond(out, c);
    out.append(" ");
    append_reg(out, rd);
    out.append(", [");
    append_reg(out, rb);
    out.append(", #");
    append_signed_decimal(out, off);
    out.append("]");
    assert(out@ =~= start + line_text(Instr::Load(c, rd, rb, off)));
}

fn render_load_indexed(out: &mut String, c: Cond, rd: Reg, rb: Reg, rx: Reg)
    ensures
    final(out)@ == old(out)@ + line_text(Instr::LoadIndexed(c, rd, rb, rx)),
{
    let ghost start = out@;
    out.append("\tldr");
    append_cond(out, c);
    out.append(" ");
    append_reg(out, rd);
    out.append(", [");
    append_reg(out, rb);
    out.append(", ");
    append_reg(out, rx);
    out.append("]");
    assert(out@ =~= start + line_text(Instr::LoadIndexed(c, rd, rb, rx)));
}

fn render_store(out: &mut String, rs: Reg, rb: Reg, off: i64)
    ensures
    final(out)@ == old(out)@ + line_text(Instr::Store(rs, rb, off)),
{
    let ghost start = out@;
    out.append("\tstr ");
    append_reg(out, rs);
    out.append(", [");
    append_reg(out, rb);
    out.append(", #");
    append_signed_decimal(out, off);
    out.append("]");
    assert(out@ =~= start + line_text(Instr::Store(rs, rb, off)));
}

fn render_push(out: &mut String, ra: Reg, rb: Reg)
    ensures
    final(out)@ == old(out)@ + line_text(Instr::Push(ra, rb)),
{
    let ghost start = out@;
    out.append("\tpush {");
    append_reg(out, ra);
    out.append(", ");
    append_reg(out, rb);
    out.append("}");
    assert(out@ =~= start + line_text(Instr::Push(ra, rb)));
}

fn render_pop(out: &mut String, ra: Reg, rb: Reg)
    ensures
    final(out)@ == old(out)@ + line_text(Instr::Pop(ra, rb)),
{
    let ghost start = out@;
    out.append("\tpop {");
    append_reg(out, ra);
    out.append(", ");
    append_reg(out, rb);
    out.append("}");
    assert(out@ =~= start + line_text(Instr::Pop(ra, rb)));
}

fn render_push_args(out: &mut String)
    ensures
    final(out)@ == old(out)@ + line_text(Instr::PushArgs),
{
    let ghost start = out@;
    out.append("\tpush {r0, r1, r2, r3}");
    assert(out@ =~= start + line_text(Instr::PushArgs));
}

fn render_pop_args(out: &mut String)
    ensures
    final(out)@ == old(out)@ + line_text(Instr::PopArgs),
{
    let ghost start = out@;
    out.append("\tpop {r0, r1, r2, r3}");
    assert(out@ =~= start + line_text(Instr::PopArgs));
}

fn render_arith(out: &mut String, o: Op, rd: Reg, ra: Reg, rb: Reg)
    ensures
    final(out)@ == old(out)@ + line_text(Instr::Arith(o, rd, ra, rb)),
{
    let ghost start = out@;
    out.append("\t");
    append_op(out, o);
    out.append(" ");
    append_reg(out, rd);
    out.append(", ");
    append_reg(out, ra);
    out.append(", ");
    append_reg(out, rb);
    assert(out@ =~= start + line_text(Instr::Arith(o, rd, ra, rb)));
}

fn render_arith_imm(out: &mut String, o: Op, c: Cond, rd: Reg, ra: Reg, n: u64)
    ensures
    final(out)@ == old(out)@ + line_text(Instr::ArithImm(o, c, rd, ra, n)),
{
    let ghost start = out@;
    out.append("\t");
    append_op(out, o);
    append_cond(out, c);
    out.append(" ");
    append_reg(out, rd);
    out.append(", ");
    append_reg(out, ra);
    out.append(", #");
    append_decimal(out, n);
    assert(out@ =~= start + line_text(Instr::ArithImm(o, c, rd, ra, n)));
}

fn render_cmp(out: &mut String, ra: Reg, rb: Reg)
    ensures
    final(out)@ == old(out)@ + line_text(Instr::Cmp(ra, rb)),
{
    let ghost start = out@;
    out.append("\tcmp ");
    append_reg(out, ra);
    out.append(", ");
    append_reg(out, rb);
    assert(out@ =~= start + line_text(Instr::Cmp(ra, rb)));
}

fn render_cmp_imm(out: &mut String, ra: Reg, n: u64)
    ensures
    final(out)@ == old(out)@ + line_text(Instr::CmpImm(ra, n)),
{
    let ghost start = out@;
    out.append("\tcmp ");
    append_reg(out, ra);
    out.append(", #");
    append_decimal(out, n);
    assert(out@ =~= start + line_text(Instr::CmpImm(ra, n)));
}

fn render_branch(out: &mut String, c: Cond, n: u64)
    ensures
    final(out)@ == old(out)@ + line_text(Instr::Branch(c, n)),
{
    let ghost start = out@;
    out.append("\tb");
    append_cond(out, c);
    out.append(" .L");
    append_decimal(out, n);
    assert(out@ =~= start + line_text(Instr::Branch(c, n)));
}

fn render_call(out: &mut String, name: &String)
    ensures
    final(out)@ == old(out)@ + line_text(Instr::Call(*name)),
{
    let ghost start = out@;
    out.append("\tbl ");
    out.append(name.as_str());
    assert(out@ =~= start + line_text(Instr::Call(*name)));
}

fn render_call_routine(out: &mut String, r: Routine)
    ensures
        final(out)@ == old(out)@ + line_text(Instr::CallRoutine(r)),
{
    let ghost start = out@;
    out.append("\tbl ");
    match r {
        Routine::Putchar => out.append("putchar"),
        Routine::Malloc => out.append("malloc"),
        Routine::Print => out.append("print"),
    }
    assert(out@ =~= start + line_text(Instr::CallRoutine(r)));
}

fn render_pop_frame(out: &mut String)
    ensures
        final(out)@ == old(out)@ + line_text(Instr::PopFrame),
{
    out.append("\tpop { fp, pc }");
}

impl Instr {
    /// Appends this instruction's text, without the line break.
    pub fn render_into(&self, out: &mut String)
        ensures
            final(out)@ == old(out)@ + line_text(*self),
    {
        match self {
            Instr::Blank => render_blank(out),
            Instr::Global(name) => render_global(out, name),
            Instr::Symbol(name) => render_symbol(out, name),
            Instr::Label(n) => render_label(out, *n),
            Instr::LoadImm(rd, n) => render_load_imm(out, *rd, *n),
            Instr::MovImm(c, rd, n) => render_mov_imm(out, *c, *rd, *n),
            Instr::MovReg(rd, rs) => render_mov_reg(out, *rd, *rs),
            Instr::Load(c, rd, rb, off) => render_load(out, *c, *rd, *rb, *off),
            Instr::LoadIndexed(c, rd, rb, rx) => render_load_indexed(out, *c, *rd, *rb, *rx),
            Instr::Store(rs, rb, off) => render_store(out, *rs, *rb, *off),
            Instr::Push(ra, rb) => render_push(out, *ra, *rb),
            Instr::Pop(ra, rb) => render_pop(out, *ra, *rb),
            Instr::PushArgs => render_push_args(out),
            Instr::PopArgs => render_pop_args(out),
            Instr::PopFrame => render_pop_frame(out),
            Instr::Arith(o, rd, ra, rb) => render_arith(out, *o, *rd, *ra, *rb),
            Instr::ArithImm(o, c, rd, ra, n) => render_arith_imm(out, *o, *c, *rd, *ra, *n),
            Instr::Cmp(ra, rb) => render_cmp(out, *ra, *rb),
            Instr::CmpImm(ra, n) => render_cmp_imm(out, *ra, *n),
            Instr::Branch(c, n) => render_branch(out, *c, *n),
            Instr::Call(name) => render_call(out, name),
            Instr::CallRoutine(r) => render_call_routine(out, *r),
        }
    }
}

/// The text of a program: each instruction followed by a line break.
pub fn render(code: &Vec<Instr>) -> (r: String)
    ensures
        r@ == program_text(code@),
{
    let mut out = String::new();
    let mut i: usize = 0;
    while i < code.len()
        invariant
            i <= code.len(),
            out@ == program_text(code@.take(i as int)),
        decreases code.len() - i,
    {
        code[i].render_into(&mut out);
        out.append("\n");
        proof {
            assert(code@.take(i + 1).drop_last() =~= code@.take(i as int));
        }
        i = i + 1;
    }
    assert(code@.take(code.len() as int) =~= code@);
    out
}

} // verus!
