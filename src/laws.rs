use vstd::prelude::*;
use vstd::set_lib::{lemma_int_range, lemma_len_subset, lemma_subset_equality, set_int_range};

use crate::ast::{size, size_seq, AST};
use crate::codegen::{
    assert_code, code_then, compiles_to, epilogue, gen, gen_arith, gen_compare, gen_operands,
    gen_statements, gen_stored, lookup_code, prologue, set_flag, then_code, CodeGenError, Gen,
};
use crate::env::{declare_in, parameter_frame, Frame};
use crate::instr::{Cond, Instr, Op, Reg, Routine};

verus! {

/// The labels that a piece of code defines, in order.
pub open spec fn label_defs(code: Seq<Instr>) -> Seq<u64>
    decreases code.len(),
{
    if code.len() == 0 {
        Seq::empty()
    } else {
        match code.last() {
            Instr::Label(k) => label_defs(code.drop_last()).push(k),
            _ => label_defs(code.drop_last()),
        }
    }
}

/// The labels that the branches of a piece of code jump to, in order.
pub open spec fn branch_targets(code: Seq<Instr>) -> Seq<u64>
    decreases code.len(),
{
    if code.len() == 0 {
        Seq::empty()
    } else {
        match code.last() {
            Instr::Branch(_, k) => branch_targets(code.drop_last()).push(k),
            _ => branch_targets(code.drop_last()),
        }
    }
}

/// Number of `If` and `While` nodes in a tree.
pub open spec fn branch_count(n: AST) -> nat
    decreases n,
{
    match n {
        AST::Not(t) => branch_count(*t),
        AST::Equal { left, right } => branch_count(*left) + branch_count(*right),
        AST::NotEqual { left, right } => branch_count(*left) + branch_count(*right),
        AST::Add { left, right } => branch_count(*left) + branch_count(*right),
        AST::Subtract { left, right } => branch_count(*left) + branch_count(*right),
        AST::Multiply { left, right } => branch_count(*left) + branch_count(*right),
        AST::Divide { left, right } => branch_count(*left) + branch_count(*right),
        AST::LessThan { left, right } => branch_count(*left) + branch_count(*right),
        AST::GreaterThan { left, right } => branch_count(*left) + branch_count(*right),
        AST::LessThanEqual { left, right } => branch_count(*left) + branch_count(*right),
        AST::GreaterThanEqual { left, right } => branch_count(*left) + branch_count(*right),
        AST::Call { args, .. } => branch_count_seq(args@),
        AST::Return { term } => branch_count(*term),
        AST::Block(statements) => branch_count_seq(statements@),
        AST::IfNode { conditional, consequence, alternative } => 1 + branch_count(*conditional)
            + branch_count(*consequence) + branch_count(*alternative),
        AST::Function { body, .. } => branch_count(*body),
        AST::Var { value, .. } => branch_count(*value),
        AST::Assign { value, .. } => branch_count(*value),
        AST::While { conditional, body } => 1 + branch_count(*conditional) + branch_count(*body),
        AST::ArrayLiteral(items) => branch_count_seq(items@),
        AST::ArrayLookup { array, index } => branch_count(*array) + branch_count(*index),
        AST::ArrayLength(array) => branch_count(*array),
        AST::Assert(condition) => branch_count(*condition),
        AST::Print(value) => branch_count(*value),
        _ => 0,
    }
}

pub open spec fn branch_count_seq(s: Seq<AST>) -> nat
    decreases s,
{
    if s.len() == 0 {
        0
    } else {
        branch_count_seq(s.drop_last()) + branch_count(s.last())
    }
}

pub open spec fn if_node(conditional: AST, consequence: AST, alternative: AST) -> AST {
    AST::IfNode {
        conditional: Box::new(conditional),
        consequence: Box::new(consequence),
        alternative: Box::new(alternative),
    }
}

/// The code defines exactly the labels `lo + 1` to `hi`, each once, and
/// branches only to labels from 1 to `hi`.
pub open spec fn labels_fresh(code: Seq<Instr>, lo: nat, hi: nat) -> bool {
    let d = label_defs(code);
    let t = branch_targets(code);
    &&& d.len() == hi - lo
    &&& lo <= hi
    &&& d.no_duplicates()
    &&& forall|i: int| 0 <= i < d.len() ==> lo < #[trigger] d[i] <= hi
    &&& forall|i: int| 0 <= i < t.len() ==> 1 <= #[trigger] t[i] <= hi
}

/// What holds of every successful emission of a tree with `k` branching nodes
/// from frame `f` and label counter `c`: it uses the labels `c + 1` to
/// `c + 2 * k`, defines each of them once, and never moves the frame cursor up.
pub open spec fn well_labelled(g: Gen, f: Frame, c: nat, k: nat) -> bool {
    g is Ok ==> {
        let e = g->Ok_0;
        &&& e.labels == c + 2 * k
        &&& e.frame.next_local_offset <= f.next_local_offset
        &&& labels_fresh(e.code, c, e.labels)
    }
}

pub open spec fn label_free(s: Seq<Instr>) -> bool {
    forall|i: int| 0 <= i < s.len() ==> !(#[trigger] s[i] is Label)
}

/// Every branch of `s` jumps to a label from 1 to `hi`.
pub open spec fn branches_below(s: Seq<Instr>, hi: nat) -> bool {
    forall|i: int|
        0 <= i < s.len() && #[trigger] s[i] is Branch ==> 1 <= s[i]->Branch_1 <= hi
}

proof fn lemma_targets_concat(a: Seq<Instr>, b: Seq<Instr>)
    ensures
        branch_targets(a + b) == branch_targets(a) + branch_targets(b),
    decreases b.len(),
{
    if b.len() == 0 {
        assert(a + b =~= a);
        assert(branch_targets(b) =~= Seq::<u64>::empty());
        assert(branch_targets(a) + branch_targets(b) =~= branch_targets(a));
    } else {
        lemma_targets_concat(a, b.drop_last());
        assert((a + b).drop_last() =~= a + b.drop_last());
        assert((a + b).last() == b.last());
        match b.last() {
            Instr::Branch(_, k) => {
                assert(branch_targets(a) + branch_targets(b.drop_last()).push(k) =~= (
                branch_targets(a) + branch_targets(b.drop_last())).push(k));
            },
            _ => {},
        }
    }
}

proof fn lemma_branches_below(s: Seq<Instr>, hi: nat)
    requires
        branches_below(s, hi),
    ensures
        forall|i: int|
            0 <= i < branch_targets(s).len() ==> 1 <= #[trigger] branch_targets(s)[i] <= hi,
    decreases s.len(),
{
    if s.len() > 0 {
        let t = s.drop_last();
        assert forall|i: int| 0 <= i < t.len() && #[trigger] t[i] is Branch implies 1
            <= t[i]->Branch_1 <= hi by {
            assert(t[i] == s[i]);
        }
        lemma_branches_below(t, hi);
        assert(s.last() == s[s.len() - 1]);
        let bt = branch_targets(t);
        match s.last() {
            Instr::Branch(_, k) => {
                assert(branch_targets(s) == bt.push(k));
                assert(1 <= k <= hi);
                assert forall|i: int| 0 <= i < bt.push(k).len() implies 1 <= #[trigger] bt.push(
                    k,
                )[i] <= hi by {
                    if i < bt.len() {
                        assert(bt.push(k)[i] == bt[i]);
                    }
                }
            },
            _ => {
                assert(branch_targets(s) == bt);
            },
        }
    }
}

proof fn lemma_defs_concat(a: Seq<Instr>, b: Seq<Instr>)
    ensures
        label_defs(a + b) == label_defs(a) + label_defs(b),
    decreases b.len(),
{
    if b.len() == 0 {
        assert(a + b =~= a);
        assert(label_defs(b) =~= Seq::<u64>::empty());
        assert(label_defs(a) + label_defs(b) =~= label_defs(a));
    } else {
        lemma_defs_concat(a, b.drop_last());
        assert((a + b).drop_last() =~= a + b.drop_last());
        assert((a + b).last() == b.last());
        match b.last() {
            Instr::Label(k) => {
                assert(label_defs(a) + label_defs(b.drop_last()).push(k) =~= (label_defs(a)
                    + label_defs(b.drop_last())).push(k));
            },
            _ => {},
        }
    }
}

proof fn lemma_label_free(s: Seq<Instr>)
    requires
        label_free(s),
    ensures
        label_defs(s) == Seq::<u64>::empty(),
    decreases s.len(),
{
    if s.len() > 0 {
        assert(s.drop_last().len() == s.len() - 1);
        assert forall|i: int| 0 <= i < s.drop_last().len() implies !(
        #[trigger] s.drop_last()[i] is Label) by {
            assert(s.drop_last()[i] == s[i]);
        }
        lemma_label_free(s.drop_last());
        assert(!(s[s.len() - 1] is Label));
    }
}

proof fn lemma_single_label(k: u64)
    ensures
        label_defs(seq![Instr::Label(k)]) == seq![k],
        branch_targets(seq![Instr::Label(k)]) == Seq::<u64>::empty(),
{
    assert(branch_targets(Seq::<Instr>::empty()) == Seq::<u64>::empty());
    assert(seq![Instr::Label(k)].drop_last() =~= Seq::<Instr>::empty());
    assert(label_defs(Seq::<Instr>::empty()) == Seq::<u64>::empty());
    assert(Seq::<u64>::empty().push(k) =~= seq![k]);
}

proof fn lemma_distinct_concat(a: Seq<u64>, b: Seq<u64>)
    requires
        a.no_duplicates(),
        b.no_duplicates(),
        forall|i: int, j: int| 0 <= i < a.len() && 0 <= j < b.len() ==> a[i] != b[j],
    ensures
        (a + b).no_duplicates(),
{
    assert forall|i: int, j: int| 0 <= i < (a + b).len() && 0 <= j < (a + b).len() && i != j
        implies (
    a + b)[i] != (a + b)[j] by {
        if i < a.len() && j >= a.len() {
            assert((a + b)[j] == b[j - a.len()]);
        } else if i >= a.len() && j < a.len() {
            assert((a + b)[i] == b[i - a.len()]);
        } else if i >= a.len() && j >= a.len() {
            assert((a + b)[i] == b[i - a.len()]);
            assert((a + b)[j] == b[j - a.len()]);
        }
    }
}

/// Two consecutive pieces that use consecutive ranges of labels.
proof fn lemma_fresh_concat(a: Seq<Instr>, b: Seq<Instr>, lo: nat, mid: nat, hi: nat)
    requires
        labels_fresh(a, lo, mid),
        labels_fresh(b, mid, hi),
    ensures
        labels_fresh(a + b, lo, hi),
{
    lemma_defs_concat(a, b);
    lemma_targets_concat(a, b);
    let da = label_defs(a);
    let db = label_defs(b);
    let ta = branch_targets(a);
    let tb = branch_targets(b);
    assert forall|i: int| 0 <= i < (ta + tb).len() implies 1 <= #[trigger] (ta + tb)[i] <= hi by {
        if i >= ta.len() {
            assert((ta + tb)[i] == tb[i - ta.len()]);
        }
    }
    lemma_distinct_concat(da, db);
    assert forall|i: int| 0 <= i < (da + db).len() implies lo < #[trigger] (da + db)[i] <= hi by {
        if i >= da.len() {
            assert((da + db)[i] == db[i - da.len()]);
        }
    }
}

proof fn lemma_fresh_free(s: Seq<Instr>, c: nat)
    requires
        label_free(s),
        branches_below(s, c),
    ensures
        labels_fresh(s, c, c),
{
    lemma_label_free(s);
    lemma_branches_below(s, c);
}

proof fn lemma_well_then(g: Gen, tail: Seq<Instr>, f: Frame, c: nat, k: nat)
    requires
        well_labelled(g, f, c, k),
        label_free(tail),
        branches_below(tail, 0),
    ensures
        well_labelled(then_code(g, tail), f, c, k),
{
    if g is Ok {
        let e = g->Ok_0;
        assert(branches_below(tail, e.labels));
        lemma_fresh_free(tail, e.labels);
        lemma_fresh_concat(e.code, tail, c, e.labels, e.labels);
    }
}

proof fn lemma_well_code_then(head: Seq<Instr>, g: Gen, f: Frame, c: nat, k: nat)
    requires
        well_labelled(g, f, c, k),
        label_free(head),
        branches_below(head, 0),
    ensures
        well_labelled(code_then(head, g), f, c, k),
{
    if g is Ok {
        let e = g->Ok_0;
        assert(branches_below(head, c));
        lemma_fresh_free(head, c);
        lemma_fresh_concat(head, e.code, c, c, e.labels);
    }
}

proof fn lemma_operands_labelled(left: AST, right: AST, f: Frame, c: nat)
    requires
        c + 2 * (branch_count(left) + branch_count(right)) <= u64::MAX,
    ensures
        well_labelled(
            gen_operands(left, right, f, c),
            f,
            c,
            branch_count(left) + branch_count(right),
        ),
    decreases size(left) + size(right) + 1, 0nat,
{
    lemma_gen_labelled(left, f, c);
    if gen(left, f, c) is Ok {
        let a = gen(left, f, c)->Ok_0;
        lemma_gen_labelled(right, a.frame, a.labels);
        if gen(right, a.frame, a.labels) is Ok {
            let b = gen(right, a.frame, a.labels)->Ok_0;
            let push = seq![Instr::Push(Reg::R0, Reg::Ip)];
            let pop = seq![Instr::Pop(Reg::R1, Reg::Ip)];
            lemma_fresh_free(push, a.labels);
            lemma_fresh_free(pop, b.labels);
            lemma_fresh_concat(a.code, push, c, a.labels, a.labels);
            lemma_fresh_concat(a.code + push, b.code, c, a.labels, b.labels);
            lemma_fresh_concat(a.code + push + b.code, pop, c, b.labels, b.labels);
        }
    }
}

proof fn lemma_statements_labelled(s: Seq<AST>, f: Frame, c: nat)
    requires
        c + 2 * branch_count_seq(s) <= u64::MAX,
    ensures
        well_labelled(gen_statements(s, f, c), f, c, branch_count_seq(s)),
    decreases size_seq(s), 0nat,
{
    if s.len() == 0 {
        lemma_fresh_free(Seq::empty(), c);
    } else {
        lemma_statements_labelled(s.drop_last(), f, c);
        assert(s.last() == s[s.len() - 1]);
        if gen_statements(s.drop_last(), f, c) is Ok {
            let a = gen_statements(s.drop_last(), f, c)->Ok_0;
            lemma_gen_labelled(s.last(), a.frame, a.labels);
            if gen(s.last(), a.frame, a.labels) is Ok {
                let b = gen(s.last(), a.frame, a.labels)->Ok_0;
                lemma_fresh_concat(a.code, b.code, c, a.labels, b.labels);
            }
        }
    }
}

proof fn lemma_stored_labelled(s: Seq<AST>, base: Reg, first: int, f: Frame, c: nat)
    requires
        c + 2 * branch_count_seq(s) <= u64::MAX,
    ensures
        well_labelled(gen_stored(s, base, first, f, c), f, c, branch_count_seq(s)),
    decreases size_seq(s), 0nat,
{
    if s.len() == 0 {
        lemma_fresh_free(Seq::empty(), c);
    } else {
        lemma_stored_labelled(s.drop_last(), base, first, f, c);
        if gen_stored(s.drop_last(), base, first, f, c) is Ok {
            let a = gen_stored(s.drop_last(), base, first, f, c)->Ok_0;
            lemma_gen_labelled(s.last(), a.frame, a.labels);
            if gen(s.last(), a.frame, a.labels) is Ok {
                let b = gen(s.last(), a.frame, a.labels)->Ok_0;
                let store = seq![Instr::Store(Reg::R0, base, (first + 4 * (s.len() - 1)) as i64)];
                lemma_fresh_concat(a.code, b.code, c, a.labels, b.labels);
                lemma_fresh_free(store, b.labels);
                lemma_fresh_concat(a.code + b.code, store, c, b.labels, b.labels);
            }
        }
    }
}

#[verifier::spinoff_prover]
#[verifier::rlimit(60)]
proof fn lemma_gen_labelled(n: AST, f: Frame, c: nat)
    requires
        c + 2 * branch_count(n) <= u64::MAX,
    ensures
        well_labelled(gen(n, f, c), f, c, branch_count(n)),
    decreases size(n), 2nat,
{
    match n {
        AST::Number(v) => lemma_fresh_free(seq![Instr::LoadImm(Reg::R0, v)], c),
        AST::Boolean(b) => lemma_fresh_free(
            seq![Instr::MovImm(Cond::Al, Reg::R0, if b { 1 } else { 0 })],
            c,
        ),
        AST::Null => lemma_fresh_free(seq![Instr::MovImm(Cond::Al, Reg::R0, 0)], c),
        AST::Undefined => lemma_fresh_free(seq![Instr::MovImm(Cond::Al, Reg::R0, 0)], c),
        AST::Id(name) => {
            if f.locals.contains_key(name@) {
                lemma_fresh_free(gen(n, f, c)->Ok_0.code, c);
            }
        },
        AST::Not(t) => {
            lemma_gen_labelled(*t, f, c);
            lemma_well_then(
                gen(*t, f, c),
                seq![Instr::CmpImm(Reg::R0, 0)] + set_flag(Cond::Eq, Cond::Ne),
                f,
                c,
                branch_count(*t),
            );
        },
        AST::Equal { left, right } => {
            lemma_compare_labelled(*left, *right, Cond::Eq, Cond::Ne, f, c)
        },
        AST::NotEqual { left, right } => {
            lemma_compare_labelled(*left, *right, Cond::Ne, Cond::Eq, f, c)
        },
        AST::LessThan { left, right } => {
            lemma_compare_labelled(*left, *right, Cond::Lt, Cond::Ge, f, c)
        },
        AST::GreaterThan { left, right } => {
            lemma_compare_labelled(*left, *right, Cond::Gt, Cond::Le, f, c)
        },
        AST::LessThanEqual { left, right } => {
            lemma_compare_labelled(*left, *right, Cond::Le, Cond::Gt, f, c)
        },
        AST::GreaterThanEqual { left, right } => {
            lemma_compare_labelled(*left, *right, Cond::Ge, Cond::Lt, f, c)
        },
        AST::Add { left, right } => lemma_arith_labelled(*left, *right, Op::Add, f, c),
        AST::Subtract { left, right } => lemma_arith_labelled(*left, *right, Op::Sub, f, c),
        AST::Multiply { left, right } => lemma_arith_labelled(*left, *right, Op::Mul, f, c),
        AST::Divide { left, right } => lemma_arith_labelled(*left, *right, Op::Udiv, f, c),
        AST::Call { callee, args } => {
            if args.len() == 0 {
                lemma_fresh_free(seq![Instr::Call(callee)], c);
            } else if args.len() == 1 {
                lemma_statements_labelled(args@, f, c);
                lemma_well_then(
                    gen_statements(args@, f, c),
                    seq![Instr::Call(callee)],
                    f,
                    c,
                    branch_count_seq(args@),
                );
            } else if args.len() <= 4 {
                let head = seq![Instr::ArithImm(Op::Sub, Cond::Al, Reg::Sp, Reg::Sp, 16)];
                lemma_stored_labelled(args@, Reg::Sp, 0, f, c);
                lemma_well_code_then(
                    head,
                    gen_stored(args@, Reg::Sp, 0, f, c),
                    f,
                    c,
                    branch_count_seq(args@),
                );
                lemma_well_then(
                    code_then(head, gen_stored(args@, Reg::Sp, 0, f, c)),
                    seq![Instr::PopArgs, Instr::Call(callee)],
                    f,
                    c,
                    branch_count_seq(args@),
                );
            }
        },
        AST::Return { term } => {
            lemma_gen_labelled(*term, f, c);
            lemma_well_then(
                gen(*term, f, c),
                seq![Instr::MovReg(Reg::Sp, Reg::Fp), Instr::Pop(Reg::Fp, Reg::Pc)],
                f,
                c,
                branch_count(*term),
            );
        },
        AST::Block(statements) => lemma_statements_labelled(statements@, f, c),
        AST::IfNode { conditional, consequence, alternative } => {
            lemma_if_labelled(*conditional, *consequence, *alternative, f, c);
        },
        AST::While { conditional, body } => {
            lemma_while_labelled(*conditional, *body, f, c);
        },
        AST::Var { name, value } => {
            lemma_gen_labelled(*value, f, c);
            if gen(*value, f, c) is Ok {
                let a = gen(*value, f, c)->Ok_0;
                let push = seq![Instr::Push(Reg::R0, Reg::Ip)];
                lemma_fresh_free(push, a.labels);
                lemma_fresh_concat(a.code, push, c, a.labels, a.labels);
            }
        },
        AST::Assign { name, value } => {
            lemma_gen_labelled(*value, f, c);
            if gen(*value, f, c) is Ok {
                let a = gen(*value, f, c)->Ok_0;
                if a.frame.locals.contains_key(name@) {
                    let offset = #[verifier::truncate] (a.frame.locals[name@] as i64);
                    let store = seq![Instr::Store(Reg::R0, Reg::Fp, offset)];
                    lemma_fresh_free(store, a.labels);
                    lemma_fresh_concat(a.code, store, c, a.labels, a.labels);
                }
            }
        },
        AST::Function { name, parameters, body } => {
            if parameters.len() <= 4 {
                let pf = crate::env::parameter_frame(parameters@);
                lemma_gen_labelled(*body, pf, c);
                if gen(*body, pf, c) is Ok {
                    let a = gen(*body, pf, c)->Ok_0;
                    let head = seq![Instr::Blank, Instr::Global(name), Instr::Symbol(name)]
                        + prologue();
                    lemma_fresh_free(head, c);
                    lemma_fresh_free(epilogue(), a.labels);
                    lemma_fresh_concat(head, a.code, c, c, a.labels);
                    lemma_fresh_concat(head + a.code, epilogue(), c, a.labels, a.labels);
                }
            }
        },
        AST::ArrayLiteral(items) => {
            let head = seq![
                Instr::LoadImm(Reg::R0, (4 * (items.len() + 1)) as u64),
                Instr::CallRoutine(Routine::Malloc),
                Instr::Push(Reg::R4, Reg::Ip),
                Instr::MovReg(Reg::R4, Reg::R0),
                Instr::LoadImm(Reg::R0, items.len() as u64),
                Instr::Store(Reg::R0, Reg::R4, 0),
            ];
            lemma_stored_labelled(items@, Reg::R4, 4, f, c);
            lemma_well_code_then(
                head,
                gen_stored(items@, Reg::R4, 4, f, c),
                f,
                c,
                branch_count_seq(items@),
            );
            lemma_well_then(
                code_then(head, gen_stored(items@, Reg::R4, 4, f, c)),
                seq![Instr::MovReg(Reg::R0, Reg::R4), Instr::Pop(Reg::R4, Reg::Ip)],
                f,
                c,
                branch_count_seq(items@),
            );
        },
        AST::ArrayLookup { array, index } => {
            lemma_operands_labelled(*array, *index, f, c);
            lemma_well_then(
                gen_operands(*array, *index, f, c),
                lookup_code(),
                f,
                c,
                branch_count(*array) + branch_count(*index),
            );
        },
        AST::ArrayLength(array) => {
            lemma_gen_labelled(*array, f, c);
            lemma_well_then(
                gen(*array, f, c),
                seq![Instr::Load(Cond::Al, Reg::R0, Reg::R0, 0)],
                f,
                c,
                branch_count(*array),
            );
        },
        AST::Assert(condition) => {
            lemma_gen_labelled(*condition, f, c);
            lemma_well_then(gen(*condition, f, c), assert_code(), f, c, branch_count(*condition));
        },
        AST::Print(value) => {
            lemma_gen_labelled(*value, f, c);
            lemma_well_then(
                gen(*value, f, c),
                seq![Instr::CallRoutine(Routine::Print)],
                f,
                c,
                branch_count(*value),
            );
        },
    }
}

proof fn lemma_compare_labelled(left: AST, right: AST, yes: Cond, no: Cond, f: Frame, c: nat)
    requires
        c + 2 * (branch_count(left) + branch_count(right)) <= u64::MAX,
    ensures
        well_labelled(
            gen_compare(left, right, yes, no, f, c),
            f,
            c,
            branch_count(left) + branch_count(right),
        ),
    decreases size(left) + size(right) + 1, 1nat,
{
    lemma_operands_labelled(left, right, f, c);
    lemma_well_then(
        gen_operands(left, right, f, c),
        seq![Instr::Cmp(Reg::R1, Reg::R0)] + set_flag(yes, no),
        f,
        c,
        branch_count(left) + branch_count(right),
    );
}

proof fn lemma_arith_labelled(left: AST, right: AST, op: Op, f: Frame, c: nat)
    requires
        c + 2 * (branch_count(left) + branch_count(right)) <= u64::MAX,
    ensures
        well_labelled(
            gen_arith(left, right, op, f, c),
            f,
            c,
            branch_count(left) + branch_count(right),
        ),
    decreases size(left) + size(right) + 1, 1nat,
{
    lemma_operands_labelled(left, right, f, c);
    lemma_well_then(
        gen_operands(left, right, f, c),
        seq![Instr::Arith(op, Reg::R0, Reg::R1, Reg::R0)],
        f,
        c,
        branch_count(left) + branch_count(right),
    );
}

#[verifier::spinoff_prover]
#[verifier::rlimit(60)]
proof fn lemma_if_labelled(conditional: AST, consequence: AST, alternative: AST, f: Frame, c: nat)
    requires
        c + 2 * (1 + branch_count(conditional) + branch_count(consequence) + branch_count(
            alternative,
        )) <= u64::MAX,
    ensures
        well_labelled(
            gen(
                if_node(conditional, consequence, alternative),
                f,
                c,
            ),
            f,
            c,
            1 + branch_count(conditional) + branch_count(consequence) + branch_count(alternative),
        ),
    decreases size(conditional) + size(consequence) + size(alternative) + 1, 1nat,
{
    let g = gen(
        if_node(conditional, consequence, alternative),
        f,
        c,
    );
    lemma_gen_labelled(conditional, f, c + 2);
    if gen(conditional, f, c + 2) is Ok {
        let a = gen(conditional, f, c + 2)->Ok_0;
        lemma_gen_labelled(consequence, a.frame, a.labels);
        if gen(consequence, a.frame, a.labels) is Ok {
            let b = gen(consequence, a.frame, a.labels)->Ok_0;
            lemma_gen_labelled(alternative, b.frame, b.labels);
            if gen(alternative, b.frame, b.labels) is Ok {
                let d = gen(alternative, b.frame, b.labels)->Ok_0;
                let else_label = (c + 1) as u64;
                let end_label = (c + 2) as u64;
                let p1 = seq![Instr::CmpImm(Reg::R0, 0), Instr::Branch(Cond::Eq, else_label)];
                let p2 = seq![Instr::Branch(Cond::Al, end_label)];
                let l1 = seq![Instr::Label(else_label)];
                let l2 = seq![Instr::Label(end_label)];
                assert(g->Ok_0.code =~= a.code + p1 + b.code + (p2 + l1) + d.code + l2);
                lemma_fresh_free(p1, a.labels);
                lemma_fresh_free(p2, b.labels);
                lemma_fresh_concat(a.code, p1, c + 2, a.labels, a.labels);
                lemma_fresh_concat(a.code + p1, b.code, c + 2, a.labels, b.labels);
                lemma_fresh_concat(a.code + p1 + b.code, p2, c + 2, b.labels, b.labels);
                let x = a.code + p1 + b.code + p2;
                assert(x + l1 + d.code + l2 =~= a.code + p1 + b.code + (p2 + l1) + d.code + l2);
                lemma_single_label(else_label);
                lemma_single_label(end_label);
                lemma_defs_concat(x, l1);
                lemma_defs_concat(x + l1, d.code);
                lemma_defs_concat(x + l1 + d.code, l2);
                let dx = label_defs(x);
                let dd = label_defs(d.code);
                assert(else_label == c + 1 && end_label == c + 2);
                assert forall|i: int| 0 <= i < dx.len()
                    implies c + 2 < #[trigger] dx[i] <= b.labels by {}
                assert forall|i: int| 0 <= i < dd.len()
                    implies b.labels < #[trigger] dd[i] <= d.labels by {}
                lemma_distinct_concat(dx, seq![else_label]);
                let y = dx + seq![else_label];
                assert forall|i: int| 0 <= i < y.len()
                    implies c < #[trigger] y[i] <= b.labels && y[i] != c + 2 by {
                    if i < dx.len() {
                        assert(y[i] == dx[i]);
                    }
                }
                lemma_distinct_concat(y, dd);
                let z = y + dd;
                assert forall|i: int| 0 <= i < z.len()
                    implies c < #[trigger] z[i] <= d.labels && z[i] != c + 2 by {
                    if i < y.len() {
                        assert(z[i] == y[i]);
                    } else {
                        assert(z[i] == dd[i - y.len()]);
                    }
                }
                lemma_distinct_concat(z, seq![end_label]);
                let all = z + seq![end_label];
                assert forall|i: int| 0 <= i < all.len()
                    implies c < #[trigger] all[i] <= d.labels by {
                    if i < z.len() {
                        assert(all[i] == z[i]);
                    }
                }
                lemma_targets_concat(x, l1);
                lemma_targets_concat(x + l1, d.code);
                lemma_targets_concat(x + l1 + d.code, l2);
                let tx = branch_targets(x);
                let td = branch_targets(d.code);
                assert(branch_targets(x + l1 + d.code + l2) =~= tx + td);
                assert forall|i: int| 0 <= i < (tx + td).len()
                    implies 1 <= #[trigger] (tx + td)[i] <= d.labels by {
                    if i >= tx.len() {
                        assert((tx + td)[i] == td[i - tx.len()]);
                    }
                }
            }
        }
    }
}

#[verifier::spinoff_prover]
proof fn lemma_while_labelled(conditional: AST, body: AST, f: Frame, c: nat)
    requires
        c + 2 * (1 + branch_count(conditional) + branch_count(body)) <= u64::MAX,
    ensures
        well_labelled(
            gen(AST::While { conditional: Box::new(conditional), body: Box::new(body) }, f, c),
            f,
            c,
            1 + branch_count(conditional) + branch_count(body),
        ),
    decreases size(conditional) + size(body) + 1, 1nat,
{
    let g = gen(AST::While { conditional: Box::new(conditional), body: Box::new(body) }, f, c);
    lemma_gen_labelled(conditional, f, c + 2);
    if gen(conditional, f, c + 2) is Ok {
        let a = gen(conditional, f, c + 2)->Ok_0;
        lemma_gen_labelled(body, a.frame, a.labels);
        if gen(body, a.frame, a.labels) is Ok {
            let b = gen(body, a.frame, a.labels)->Ok_0;
            let start_label = (c + 1) as u64;
            let end_label = (c + 2) as u64;
            let l1 = seq![Instr::Label(start_label)];
            let p1 = seq![Instr::CmpImm(Reg::R0, 0), Instr::Branch(Cond::Eq, end_label)];
            let p2 = seq![Instr::Branch(Cond::Al, start_label)];
            let l2 = seq![Instr::Label(end_label)];
            assert(g->Ok_0.code =~= l1 + (a.code + p1 + b.code + p2) + l2);
            lemma_fresh_free(p1, a.labels);
            lemma_fresh_free(p2, b.labels);
            lemma_fresh_concat(a.code, p1, c + 2, a.labels, a.labels);
            lemma_fresh_concat(a.code + p1, b.code, c + 2, a.labels, b.labels);
            lemma_fresh_concat(a.code + p1 + b.code, p2, c + 2, b.labels, b.labels);
            let x = a.code + p1 + b.code + p2;
            lemma_single_label(start_label);
            lemma_single_label(end_label);
            lemma_defs_concat(l1, x);
            lemma_defs_concat(l1 + x, l2);
            let dx = label_defs(x);
            assert(start_label == c + 1 && end_label == c + 2);
            assert forall|i: int| 0 <= i < dx.len()
                implies c + 2 < #[trigger] dx[i] <= b.labels by {}
            lemma_distinct_concat(seq![start_label], dx);
            let y = seq![start_label] + dx;
            assert forall|i: int| 0 <= i < y.len()
                implies c < #[trigger] y[i] <= b.labels && y[i] != c + 2 by {
                if i > 0 {
                    assert(y[i] == dx[i - 1]);
                }
            }
            lemma_distinct_concat(y, seq![end_label]);
            let all = y + seq![end_label];
            assert forall|i: int| 0 <= i < all.len() implies c < #[trigger] all[i] <= b.labels by {
                if i < y.len() {
                    assert(all[i] == y[i]);
                }
            }
            lemma_targets_concat(l1, x);
            lemma_targets_concat(l1 + x, l2);
            assert(branch_targets(l1 + x + l2) =~= branch_targets(x));
        }
    }
}

/// `hi - lo` distinct numbers, all from `lo + 1` to `hi`, include each number
/// of that range.
proof fn lemma_fills_range(d: Seq<u64>, lo: nat, hi: nat, t: int)
    requires
        d.no_duplicates(),
        lo <= hi,
        d.len() == hi - lo,
        forall|i: int| 0 <= i < d.len() ==> lo < #[trigger] d[i] <= hi,
        lo < t <= hi,
    ensures
        d.contains(t as u64),
{
    let di = d.map_values(|x: u64| x as int);
    assert forall|i: int, j: int| 0 <= i < di.len() && 0 <= j < di.len() && i != j implies di[i]
        != di[j] by {
        assert(di[i] == d[i] as int && di[j] == d[j] as int);
    }
    di.unique_seq_to_set();
    let r = set_int_range(lo as int + 1, hi as int + 1);
    lemma_int_range(lo as int + 1, hi as int + 1);
    assert forall|x: int| di.to_set().contains(x) implies r.contains(x) by {
        let i = choose|i: int| 0 <= i < di.len() && di[i] == x;
        assert(di[i] == d[i] as int);
    }
    lemma_len_subset(di.to_set(), r);
    lemma_subset_equality(di.to_set(), r);
    assert(r.contains(t));
    assert(di.to_set().contains(t));
    let i = choose|i: int| 0 <= i < di.len() && di[i] == t;
    assert(d[i] == t as u64);
}

/// Every branch lands on a label: in the code of a whole compilation, whose
/// label counter starts at 0, each label is defined once and every branch
/// jumps to a label that the code defines.
pub proof fn law_branches_resolved(n: AST, f: Frame)
    requires
        2 * branch_count(n) <= u64::MAX,
    ensures
        gen(n, f, 0) is Ok ==> {
            let code = gen(n, f, 0)->Ok_0.code;
            &&& label_defs(code).no_duplicates()
            &&& forall|i: int|
                0 <= i < branch_targets(code).len() ==> label_defs(code).contains(
                    #[trigger] branch_targets(code)[i],
                )
        },
{
    lemma_gen_labelled(n, f, 0);
    if gen(n, f, 0) is Ok {
        let e = gen(n, f, 0)->Ok_0;
        let t = branch_targets(e.code);
        assert forall|i: int| 0 <= i < t.len() implies label_defs(e.code).contains(
            #[trigger] t[i],
        ) by {
            lemma_fills_range(label_defs(e.code), 0, e.labels, t[i] as int);
        }
    }
}

/// Compiling is deterministic: two compilations of one tree, each with a fresh
/// generator and environment, give the same text, or fail alike.
pub proof fn law_deterministic(
    n: AST,
    r1: Result<String, CodeGenError>,
    r2: Result<String, CodeGenError>,
)
    requires
        compiles_to(n, r1),
        compiles_to(n, r2),
    ensures
        r1 is Ok <==> r2 is Ok,
        r1 is Ok ==> r1->Ok_0@ == r2->Ok_0@,
        r1 is Err ==> r1 == r2,
{
}

/// Labels are unique: a successful emission of a tree with `N` `If` and `While`
/// nodes, however deeply nested, defines `2 * N` labels, no two alike, and
/// advances the label counter by exactly `2 * N`.
pub proof fn law_labels_unique(n: AST, f: Frame, c: nat)
    requires
        c + 2 * branch_count(n) <= u64::MAX,
    ensures
        gen(n, f, c) is Ok ==> {
            let e = gen(n, f, c)->Ok_0;
            &&& e.labels == c + 2 * branch_count(n)
            &&& label_defs(e.code).len() == 2 * branch_count(n)
            &&& label_defs(e.code).no_duplicates()
        },
{
    lemma_gen_labelled(n, f, c);
}

/// Blocks open no scope. In `{ var x = first; { var x = second; } }` the second
/// declaration gets a slot of its own, at least one slot deeper in the frame
/// than the first; after the first declaration `x` names the first slot, and
/// after the second it names the second.
pub proof fn law_flat_scope(
    outer: Vec<AST>,
    inner: Vec<AST>,
    name: String,
    first: AST,
    second: AST,
    f: Frame,
    c: nat,
)
    requires
        outer@ == seq![AST::Var { name, value: Box::new(first) }, AST::Block(inner)],
        inner@ == seq![AST::Var { name, value: Box::new(second) }],
        c + 2 * (branch_count(first) + branch_count(second)) <= u64::MAX,
    ensures
        gen(AST::Block(outer), f, c) is Ok ==> {
            let a = gen(first, f, c)->Ok_0;
            let first_slot = a.frame.next_local_offset - 4;
            let after_first = gen_statements(outer@.take(1), f, c)->Ok_0.frame;
            let after_both = gen(AST::Block(outer), f, c)->Ok_0.frame;
            &&& after_first.locals[name@] == first_slot
            &&& after_both.locals.contains_key(name@)
            &&& after_both.locals[name@] <= first_slot - 8
        },
{
    let s = outer@;
    let t = inner@;
    assert(s.take(1).drop_last() =~= Seq::<AST>::empty());
    assert(s.drop_last() =~= s.take(1));
    assert(t.drop_last() =~= Seq::<AST>::empty());
    assert(s.take(1).last() == s[0]);
    lemma_gen_labelled(first, f, c);
    if gen(first, f, c) is Ok {
        let a = gen(first, f, c)->Ok_0;
        let f1 = declare_in(a.frame, name@);
        let v1 = AST::Var { name, value: Box::new(first) };
        assert(gen(v1, f, c) == crate::codegen::emitted(
            a.code + seq![Instr::Push(Reg::R0, Reg::Ip)],
            f1,
            a.labels,
        ));
        assert(gen_statements(Seq::<AST>::empty(), f, c) is Ok);
        assert(gen_statements(s.take(1), f, c)->Ok_0.frame == f1);
        assert(f1.locals.contains_key(name@));
        lemma_gen_labelled(second, f1, a.labels);
        let v2 = AST::Var { name, value: Box::new(second) };
        assert(t[0] == v2);
        assert(t.len() == 1);
        assert(s.len() == 2);
        assert(s.last() == AST::Block(inner));
        assert(gen(AST::Block(inner), f1, a.labels) == gen_statements(t, f1, a.labels));
        assert(gen(AST::Block(outer), f, c) == gen_statements(s, f, c));
        assert(gen_statements(t.drop_last(), f1, a.labels) is Ok);
        if gen(second, f1, a.labels) is Ok {
            let b = gen(second, f1, a.labels)->Ok_0;
            assert(gen(v2, f1, a.labels)->Ok_0.frame == declare_in(b.frame, name@));
            assert(gen_statements(t, f1, a.labels)->Ok_0.frame == declare_in(b.frame, name@));
            assert(gen_statements(s, f, c)->Ok_0.frame == declare_in(b.frame, name@));
        } else {
            assert(gen(v2, f1, a.labels) is Err);
            assert(gen_statements(t, f1, a.labels) is Err);
            assert(gen_statements(s, f, c) is Err);
        }
    } else {
        let v1 = AST::Var { name, value: Box::new(first) };
        assert(s[0] == v1);
        assert(gen(v1, f, c) is Err);
        assert(gen_statements(s.take(1).drop_last(), f, c) is Ok);
        assert(gen_statements(s.take(1), f, c) is Err);
        assert(s.len() == 2);
        assert(gen_statements(s.drop_last(), f, c) is Err);
        assert(gen_statements(s, f, c) is Err);
        assert(gen(AST::Block(outer), f, c) == gen_statements(s, f, c));
    }
}

/// Four is the most parameters a function may take: with four it is emitted
/// exactly when its body is, and with five it is refused.
pub proof fn law_parameter_limit(name: String, parameters: Vec<String>, body: AST, f: Frame, c: nat)
    ensures
        parameters.len() == 4 ==> (gen(
            AST::Function { name, parameters, body: Box::new(body) },
            f,
            c,
        ) is Ok <==> gen(body, parameter_frame(parameters@), c) is Ok),
        parameters.len() == 5 ==> gen(
            AST::Function { name, parameters, body: Box::new(body) },
            f,
            c,
        ) == Err::<crate::codegen::Emitted, CodeGenError>(CodeGenError::TooManyParameters),
{
}

/// Four is the most arguments a call may pass: with four it is emitted exactly
/// when each argument is, and with five it is refused.
pub proof fn law_argument_limit(callee: String, args: Vec<AST>, f: Frame, c: nat)
    ensures
        args.len() == 4 ==> (gen(AST::Call { callee, args }, f, c) is Ok <==> gen_stored(
            args@,
            Reg::Sp,
            0,
            f,
            c,
        ) is Ok),
        args.len() == 5 ==> gen(AST::Call { callee, args }, f, c) == Err::<
            crate::codegen::Emitted,
            CodeGenError,
        >(CodeGenError::TooManyArguments),
{
}

} // verus!
