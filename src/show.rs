use vstd::prelude::*;
use vstd::string::StringExecFns;

use crate::ast::{lemma_size_seq_elem, size, size_seq, AST};
use crate::instr::{append_decimal, decimal};

verus! {

/// `(left<op>right)`, the form of every infix operator.
pub open spec fn infix_text(left: AST, op: Seq<char>, right: AST) -> Seq<char>
    decreases size(left) + size(right) + 1, 0nat,
{
    "("@ + text(left) + op + text(right) + ")"@
}

/// Each argument followed by a comma.
pub open spec fn args_text(s: Seq<AST>) -> Seq<char>
    decreases size_seq(s), 0nat,
{
    if s.len() == 0 {
        Seq::empty()
    } else {
        args_text(s.drop_last()) + text(s.last()) + ","@
    }
}

/// Each statement on a line of its own, indented by one space and ended by `;`.
pub open spec fn statements_text(s: Seq<AST>) -> Seq<char>
    decreases size_seq(s), 0nat,
{
    if s.len() == 0 {
        Seq::empty()
    } else {
        statements_text(s.drop_last()) + " "@ + text(s.last()) + ";\n"@
    }
}

/// The items separated by commas.
pub open spec fn items_text(s: Seq<AST>) -> Seq<char>
    decreases size_seq(s), 0nat,
{
    if s.len() == 0 {
        Seq::empty()
    } else if s.len() == 1 {
        text(s.last())
    } else {
        items_text(s.drop_last()) + ","@ + text(s.last())
    }
}

/// The names separated by commas.
pub open spec fn names_text(s: Seq<String>) -> Seq<char>
    decreases s.len(),
{
    if s.len() == 0 {
        Seq::empty()
    } else if s.len() == 1 {
        s.last()@
    } else {
        names_text(s.drop_last()) + ","@ + s.last()@
    }
}

/// The source-like text of a tree.
pub open spec fn text(n: AST) -> Seq<char>
    decreases size(n), 1nat,
{
    match n {
        AST::Number(v) => decimal(v as nat),
        AST::Id(name) => name@,
        AST::Not(t) => "!"@ + text(*t),
        AST::Equal { left, right } => infix_text(*left, " == "@, *right),
        AST::NotEqual { left, right } => infix_text(*left, " != "@, *right),
        AST::Add { left, right } => infix_text(*left, " + "@, *right),
        AST::Subtract { left, right } => infix_text(*left, " - "@, *right),
        AST::Multiply { left, right } => infix_text(*left, " * "@, *right),
        AST::Divide { left, right } => infix_text(*left, " / "@, *right),
        AST::LessThan { left, right } => infix_text(*left, " < "@, *right),
        AST::GreaterThan { left, right } => infix_text(*left, " > "@, *right),
        AST::LessThanEqual { left, right } => infix_text(*left, " <= "@, *right),
        AST::GreaterThanEqual { left, right } => infix_text(*left, " >= "@, *right),
        AST::Boolean(b) => if b {
            "true"@
        } else {
            "false"@
        },
        AST::Call { callee, args } => callee@ + " ("@ + args_text(args@) + ")"@,
        AST::Return { term } => "return "@ + text(*term),
        AST::Block(statements) => "{\n"@ + statements_text(statements@) + "}"@,
        AST::IfNode { conditional, consequence, alternative } => "if ("@ + text(*conditional)
            + ")\n"@ + text(*consequence) + "\n else\n"@ + text(*alternative),
        AST::Function { name, parameters, body } => "function "@ + name@ + "("@ + names_text(
            parameters@,
        ) + ")\n{\n"@ + text(*body) + "\n}\n"@,
        AST::Var { name, value } => "var "@ + name@ + " = "@ + text(*value),
        AST::Assign { name, value } => name@ + " = "@ + text(*value),
        AST::While { conditional, body } => "while ("@ + text(*conditional) + ")\n"@ + text(*body),
        AST::Assert(condition) => "assert("@ + text(*condition) + ")"@,
        AST::Print(value) => "print("@ + text(*value) + ")"@,
        AST::Undefined => "undefined"@,
        AST::Null => "null"@,
        AST::ArrayLiteral(items) => "["@ + items_text(items@) + "]"@,
        AST::ArrayLookup { index, .. } => "array["@ + text(*index) + "]\n"@,
        AST::ArrayLength(_) => "array.length\n"@,
    }
}

fn append_infix(out: &mut String, left: &AST, op: &str, right: &AST)
    ensures
        final(out)@ == old(out)@ + infix_text(*left, op@, *right),
    decreases size(*left) + size(*right) + 1, 0nat,
{
    let ghost start = out@;
    out.append("(");
    left.append_text(out);
    out.append(op);
    right.append_text(out);
    out.append(")");
    assert(out@ =~= start + infix_text(*left, op@, *right));
}

fn append_args(out: &mut String, s: &Vec<AST>)
    ensures
        final(out)@ == old(out)@ + args_text(s@),
    decreases size_seq(s@), 0nat,
{
    let ghost start = out@;
    let mut i: usize = 0;
    while i < s.len()
        invariant
            i <= s.len(),
            out@ == start + args_text(s@.take(i as int)),
        decreases s.len() - i,
    {
        proof {
            lemma_size_seq_elem(s@, i as int);
            assert(s@.take(i + 1).drop_last() =~= s@.take(i as int));
            assert(s@.take(i + 1).last() == s@[i as int]);
        }
        s[i].append_text(out);
        out.append(",");
        assert(out@ =~= start + args_text(s@.take(i + 1)));
        i = i + 1;
    }
    assert(s@.take(s.len() as int) =~= s@);
}

fn append_statements(out: &mut String, s: &Vec<AST>)
    ensures
        final(out)@ == old(out)@ + statements_text(s@),
    decreases size_seq(s@), 0nat,
{
    let ghost start = out@;
    let mut i: usize = 0;
    while i < s.len()
        invariant
            i <= s.len(),
            out@ == start + statements_text(s@.take(i as int)),
        decreases s.len() - i,
    {
        proof {
            lemma_size_seq_elem(s@, i as int);
            assert(s@.take(i + 1).drop_last() =~= s@.take(i as int));
            assert(s@.take(i + 1).last() == s@[i as int]);
        }
        out.append(" ");
        s[i].append_text(out);
        out.append(";\n");
        assert(out@ =~= start + statements_text(s@.take(i + 1)));
        i = i + 1;
    }
    assert(s@.take(s.len() as int) =~= s@);
}

fn append_items(out: &mut String, s: &Vec<AST>)
    ensures
        final(out)@ == old(out)@ + items_text(s@),
    decreases size_seq(s@), 0nat,
{
    let ghost start = out@;
    let mut i: usize = 0;
    while i < s.len()
        invariant
            i <= s.len(),
            out@ == start + items_text(s@.take(i as int)),
        decreases s.len() - i,
    {
        proof {
            lemma_size_seq_elem(s@, i as int);
            assert(s@.take(i + 1).drop_last() =~= s@.take(i as int));
            assert(s@.take(i + 1).last() == s@[i as int]);
        }
        if i > 0 {
            out.append(",");
        }
        s[i].append_text(out);
        assert(out@ =~= start + items_text(s@.take(i + 1)));
        i = i + 1;
    }
    assert(s@.take(s.len() as int) =~= s@);
}

fn append_names(out: &mut String, s: &Vec<String>)
    ensures
        final(out)@ == old(out)@ + names_text(s@),
{
    let ghost start = out@;
    let mut i: usize = 0;
    while i < s.len()
        invariant
            i <= s.len(),
            out@ == start + names_text(s@.take(i as int)),
        decreases s.len() - i,
    {
        proof {
            assert(s@.take(i + 1).drop_last() =~= s@.take(i as int));
            assert(s@.take(i + 1).last() == s@[i as int]);
        }
        if i > 0 {
            out.append(",");
        }
        out.append(s[i].as_str());
        assert(out@ =~= start + names_text(s@.take(i + 1)));
        i = i + 1;
    }
    assert(s@.take(s.len() as int) =~= s@);
}

impl AST {
    /// The tree written out in the language's own notation.
    pub fn to_text(&self) -> (r: String)
        ensures
            r@ == text(*self),
    {
        let mut out = String::new();
        self.append_text(&mut out);
        assert(out@ =~= text(*self));
        out
    }

    /// Appends the tree written out in the language's own notation.
    pub fn append_text(&self, out: &mut String)
        ensures
            final(out)@ == old(out)@ + text(*self),
        decreases size(*self), 1nat,
    {
        let ghost start = out@;
        match self {
            AST::Number(v) => append_decimal(out, *v),
            AST::Id(name) => out.append(name.as_str()),
            AST::Not(t) => {
                out.append("!");
                t.append_text(out);
            },
            AST::Equal { left, right } => append_infix(out, left, " == ", right),
            AST::NotEqual { left, right } => append_infix(out, left, " != ", right),
            AST::Add { left, right } => append_infix(out, left, " + ", right),
            AST::Subtract { left, right } => append_infix(out, left, " - ", right),
            AST::Multiply { left, right } => append_infix(out, left, " * ", right),
            AST::Divide { left, right } => append_infix(out, left, " / ", right),
            AST::LessThan { left, right } => append_infix(out, left, " < ", right),
            AST::GreaterThan { left, right } => append_infix(out, left, " > ", right),
            AST::LessThanEqual { left, right } => append_infix(out, left, " <= ", right),
            AST::GreaterThanEqual { left, right } => append_infix(out, left, " >= ", right),
            AST::Boolean(b) => {
                if *b {
                    out.append("true");
                } else {
                    out.append("false");
                }
            },
            AST::Call { callee, args } => {
                out.append(callee.as_str());
                out.append(" (");
                append_args(out, args);
                out.append(")");
            },
            AST::Return { term } => {
                out.append("return ");
                term.append_text(out);
            },
            AST::Block(statements) => {
                out.append("{\n");
                append_statements(out, statements);
                out.append("}");
            },
            AST::IfNode { conditional, consequence, alternative } => {
                out.append("if (");
                conditional.append_text(out);
                out.append(")\n");
                consequence.append_text(out);
                out.append("\n else\n");
                alternative.append_text(out);
            },
            AST::Function { name, parameters, body } => {
                out.append("function ");
                out.append(name.as_str());
                out.append("(");
                append_names(out, parameters);
                out.append(")\n{\n");
                body.append_text(out);
                out.append("\n}\n");
            },
            AST::Var { name, value } => {
                out.append("var ");
                out.append(name.as_str());
                out.append(" = ");
                value.append_text(out);
            },
            AST::Assign { name, value } => {
                out.append(name.as_str());
                out.append(" = ");
                value.append_text(out);
            },
            AST::While { conditional, body } => {
                out.append("while (");
                conditional.append_text(out);
                out.append(")\n");
                body.append_text(out);
            },
            AST::Assert(condition) => {
                out.append("assert(");
                condition.append_text(out);
                out.append(")");
            },
            AST::Print(value) => {
                out.append("print(");
                value.append_text(out);
                out.append(")");
            },
            AST::Undefined => out.append("undefined"),
            AST::Null => out.append("null"),
            AST::ArrayLiteral(items) => {
                out.append("[");
                append_items(out, items);
                out.append("]");
            },
            AST::ArrayLookup { index, .. } => {
                out.append("array[");
                index.append_text(out);
                out.append("]\n");
            },
            AST::ArrayLength(_) => out.append("array.length\n"),
        }
        assert(out@ =~= start + text(*self));
    }
}

} // verus!
