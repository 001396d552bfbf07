use vstd::prelude::*;
use vstd::string::StringExecFns;

verus! {

/// Marker for types that stand for nodes of the syntax tree.
pub trait ASTStruct {}

/// The syntax tree handed to the code generator. It is never changed once built.
#[derive(Debug, PartialEq, Eq)]
pub enum AST {
    Number(u64),
    Id(String),
    Not(Box<AST>),
    Equal { left: Box<AST>, right: Box<AST> },
    NotEqual { left: Box<AST>, right: Box<AST> },
    Add { left: Box<AST>, right: Box<AST> },
    Subtract { left: Box<AST>, right: Box<AST> },
    Multiply { left: Box<AST>, right: Box<AST> },
    Divide { left: Box<AST>, right: Box<AST> },
    LessThan { left: Box<AST>, right: Box<AST> },
    GreaterThan { left: Box<AST>, right: Box<AST> },
    LessThanEqual { left: Box<AST>, right: Box<AST> },
    GreaterThanEqual { left: Box<AST>, right: Box<AST> },
    Call { callee: String, args: Vec<AST> },
    Return { term: Box<AST> },
    Block(Vec<AST>),
    IfNode { conditional: Box<AST>, consequence: Box<AST>, alternative: Box<AST> },
    Function { name: String, parameters: Vec<String>, body: Box<AST> },
    Var { name: String, value: Box<AST> },
    Assign { name: String, value: Box<AST> },
    While { conditional: Box<AST>, body: Box<AST> },
    Undefined,
    Null,
    Boolean(bool),
    ArrayLiteral(Vec<AST>),
    ArrayLookup { array: Box<AST>, index: Box<AST> },
    ArrayLength(Box<AST>),
    Assert(Box<AST>),
    Print(Box<AST>),
}

impl ASTStruct for AST {}

/// Which variant a node is, as a number.
pub open spec fn kind(n: AST) -> nat {
    match n {
        AST::Number(_) => 0,
        AST::Id(_) => 1,
        AST::Not(_) => 2,
        AST::Equal { .. } => 3,
        AST::NotEqual { .. } => 4,
        AST::Add { .. } => 5,
        AST::Subtract { .. } => 6,
        AST::Multiply { .. } => 7,
        AST::Divide { .. } => 8,
        AST::LessThan { .. } => 9,
        AST::GreaterThan { .. } => 10,
        AST::LessThanEqual { .. } => 11,
        AST::GreaterThanEqual { .. } => 12,
        AST::Call { .. } => 13,
        AST::Return { .. } => 14,
        AST::Block(_) => 15,
        AST::IfNode { .. } => 16,
        AST::Function { .. } => 17,
        AST::Var { .. } => 18,
        AST::Assign { .. } => 19,
        AST::While { .. } => 20,
        AST::Undefined => 21,
        AST::Null => 22,
        AST::Boolean(_) => 23,
        AST::ArrayLiteral(_) => 24,
        AST::ArrayLookup { .. } => 25,
        AST::ArrayLength(_) => 26,
        AST::Assert(_) => 27,
        AST::Print(_) => 28,
    }
}

/// Operations on a node as a whole.
pub trait AstVisitor {
    /// Whether the two nodes are of the same variant, whatever they hold.
    fn equal(&self, node: &AST) -> (r: bool)
        ensures
            r == (self.kind_of() == kind(*node)),
    ;

    spec fn kind_of(&self) -> nat;
}

impl AST {
    /// Which variant this node is, as a number.
    pub fn kind_index(&self) -> (r: u8)
        ensures
            r as nat == kind(*self),
    {
        match self {
            AST::Number(_) => 0,
            AST::Id(_) => 1,
            AST::Not(_) => 2,
            AST::Equal { .. } => 3,
            AST::NotEqual { .. } => 4,
            AST::Add { .. } => 5,
            AST::Subtract { .. } => 6,
            AST::Multiply { .. } => 7,
            AST::Divide { .. } => 8,
            AST::LessThan { .. } => 9,
            AST::GreaterThan { .. } => 10,
            AST::LessThanEqual { .. } => 11,
            AST::GreaterThanEqual { .. } => 12,
            AST::Call { .. } => 13,
            AST::Return { .. } => 14,
            AST::Block(_) => 15,
            AST::IfNode { .. } => 16,
            AST::Function { .. } => 17,
            AST::Var { .. } => 18,
            AST::Assign { .. } => 19,
            AST::While { .. } => 20,
            AST::Undefined => 21,
            AST::Null => 22,
            AST::Boolean(_) => 23,
            AST::ArrayLiteral(_) => 24,
            AST::ArrayLookup { .. } => 25,
            AST::ArrayLength(_) => 26,
            AST::Assert(_) => 27,
            AST::Print(_) => 28,
        }
    }
}

impl AstVisitor for AST {
    fn equal(&self, node: &AST) -> (r: bool) {
        self.kind_index() == node.kind_index()
    }

    open spec fn kind_of(&self) -> nat {
        kind(*self)
    }
}

/// Number of nodes in a tree; the measure that recursion over trees decreases.
pub open spec fn size(n: AST) -> nat
    decreases n,
{
    match n {
        AST::Not(t) => 1 + size(*t),
        AST::Equal { left, right } => 1 + size(*left) + size(*right),
        AST::NotEqual { left, right } => 1 + size(*left) + size(*right),
        AST::Add { left, right } => 1 + size(*left) + size(*right),
        AST::Subtract { left, right } => 1 + size(*left) + size(*right),
        AST::Multiply { left, right } => 1 + size(*left) + size(*right),
        AST::Divide { left, right } => 1 + size(*left) + size(*right),
        AST::LessThan { left, right } => 1 + size(*left) + size(*right),
        AST::GreaterThan { left, right } => 1 + size(*left) + size(*right),
        AST::LessThanEqual { left, right } => 1 + size(*left) + size(*right),
        AST::GreaterThanEqual { left, right } => 1 + size(*left) + size(*right),
        AST::Call { args, .. } => 1 + size_seq(args@),
        AST::Return { term } => 1 + size(*term),
        AST::Block(statements) => 1 + size_seq(statements@),
        AST::IfNode { conditional, consequence, alternative } => 1 + size(*conditional) + size(
            *consequence,
        ) + size(*alternative),
        AST::Function { body, .. } => 1 + size(*body),
        AST::Var { value, .. } => 1 + size(*value),
        AST::Assign { value, .. } => 1 + size(*value),
        AST::While { conditional, body } => 1 + size(*conditional) + size(*body),
        AST::ArrayLiteral(items) => 1 + size_seq(items@),
        AST::ArrayLookup { array, index } => 1 + size(*array) + size(*index),
        AST::ArrayLength(array) => 1 + size(*array),
        AST::Assert(condition) => 1 + size(*condition),
        AST::Print(value) => 1 + size(*value),
        _ => 1,
    }
}

/// Number of nodes in a sequence of trees, plus one per tree.
pub open spec fn size_seq(s: Seq<AST>) -> nat
    decreases s,
{
    if s.len() == 0 {
        0
    } else {
        size_seq(s.drop_last()) + size(s.last()) + 1
    }
}

pub proof fn lemma_size_seq_elem(s: Seq<AST>, i: int)
    requires
        0 <= i < s.len(),
    ensures
        size(s[i]) < size_seq(s),
    decreases s.len(),
{
    if i < s.len() - 1 {
        lemma_size_seq_elem(s.drop_last(), i);
    }
}

/// The node for a call of `callee` with `args`: a call of `assert`, `length`
/// or `print` with exactly one argument is a node of its own; any other call
/// stays a call.
pub open spec fn call_node(callee: String, args: Vec<AST>) -> AST {
    if args.len() == 1 && callee@ == "assert"@ {
        AST::Assert(Box::new(args@[0]))
    } else if args.len() == 1 && callee@ == "length"@ {
        AST::ArrayLength(Box::new(args@[0]))
    } else if args.len() == 1 && callee@ == "print"@ {
        AST::Print(Box::new(args@[0]))
    } else {
        AST::Call { callee, args }
    }
}

/// Builds the node for a call, turning the built-ins into nodes of their own.
pub fn make_call(callee: String, args: Vec<AST>) -> (r: AST)
    ensures
        r == call_node(callee, args),
{
    if args.len() != 1 {
        return AST::Call { callee, args };
    }
    let is_assert = callee == String::from_str("assert");
    let is_length = callee == String::from_str("length");
    let is_print = callee == String::from_str("print");
    if !(is_assert || is_length || is_print) {
        return AST::Call { callee, args };
    }
    let mut args = args;
    let ghost whole = args@;
    let item = match args.pop() {
        Some(a) => a,
        None => {
            return AST::Call { callee, args };
        },
    };
    assert(item == whole[0]);
    if is_assert {
        AST::Assert(Box::new(item))
    } else if is_length {
        AST::ArrayLength(Box::new(item))
    } else {
        AST::Print(Box::new(item))
    }
}

} // verus!
