use arm_compiler::ast::{AstVisitor, AST};

fn num(n: u64) -> Box<AST> {
    Box::new(AST::Number(n))
}

fn id(name: &str) -> Box<AST> {
    Box::new(AST::Id(name.to_string()))
}

#[test]
fn check_equals() {
    let ast1 = AST::Add {
        left: Box::new(AST::Number(1)),
        right: Box::new(AST::Multiply {
            left: Box::new(AST::Number(3)),
            right: Box::new(AST::Number(3)),
        }),
    };
    let ast2 = AST::Add {
        left: Box::new(AST::Number(1)),
        right: Box::new(AST::Multiply {
            left: Box::new(AST::Number(3)),
            right: Box::new(AST::Number(3)),
        }),
    };

    assert_eq!(ast1, ast2);
}

#[test]
fn add() {
    let ast = AST::Add {
        left: AST::Number(42).into(),
        right: AST::Not(
            AST::NotEqual {
                left: AST::Number(20).into(),
                right: AST::Number(20).into(),
            }
            .into(),
        )
        .into(),
    };

    println!("{}", ast.to_text());
}

#[test]
fn text_of_infix_and_not() {
    let ast = AST::Add {
        left: num(42),
        right: Box::new(AST::Not(Box::new(AST::NotEqual { left: num(20), right: num(20) }))),
    };
    assert_eq!(ast.to_text(), "(42 + !(20 != 20))");
}

#[test]
fn text_of_every_operator() {
    let cases: Vec<(AST, &str)> = vec![
        (AST::Equal { left: num(1), right: num(2) }, "(1 == 2)"),
        (AST::Subtract { left: num(1), right: num(2) }, "(1 - 2)"),
        (AST::Multiply { left: num(1), right: num(2) }, "(1 * 2)"),
        (AST::Divide { left: num(1), right: num(2) }, "(1 / 2)"),
        (AST::LessThan { left: num(1), right: num(2) }, "(1 < 2)"),
        (AST::GreaterThan { left: num(1), right: num(2) }, "(1 > 2)"),
        (AST::LessThanEqual { left: num(1), right: num(2) }, "(1 <= 2)"),
        (AST::GreaterThanEqual { left: num(1), right: num(2) }, "(1 >= 2)"),
    ];
    for (ast, expected) in cases {
        assert_eq!(ast.to_text(), expected);
    }
}

#[test]
fn text_of_literals() {
    assert_eq!(AST::Number(0).to_text(), "0");
    assert_eq!(AST::Number(18446744073709551615).to_text(), "18446744073709551615");
    assert_eq!(AST::Boolean(true).to_text(), "true");
    assert_eq!(AST::Boolean(false).to_text(), "false");
    assert_eq!(AST::Null.to_text(), "null");
    assert_eq!(AST::Undefined.to_text(), "undefined");
    assert_eq!(AST::Id("var_name2".to_string()).to_text(), "var_name2");
}

#[test]
fn text_of_statements() {
    let block = AST::Block(vec![
        AST::Var { name: "a".to_string(), value: num(1) },
        AST::Assign { name: "a".to_string(), value: num(2) },
        AST::Return { term: id("a") },
    ]);
    assert_eq!(block.to_text(), "{\n var a = 1;\n a = 2;\n return a;\n}");
    assert_eq!(AST::Block(vec![]).to_text(), "{\n}");
}

#[test]
fn text_of_control_flow() {
    let if_node = AST::IfNode {
        conditional: num(1),
        consequence: Box::new(AST::Assert(num(1))),
        alternative: Box::new(AST::Assert(num(0))),
    };
    assert_eq!(if_node.to_text(), "if (1)\nassert(1)\n else\nassert(0)");
    let while_node = AST::While { conditional: id("b"), body: Box::new(AST::Block(vec![])) };
    assert_eq!(while_node.to_text(), "while (b)\n{\n}");
}

#[test]
fn text_of_functions_and_calls() {
    let f = AST::Function {
        name: "f".to_string(),
        parameters: vec!["a".to_string(), "b".to_string()],
        body: Box::new(AST::Block(vec![])),
    };
    assert_eq!(f.to_text(), "function f(a,b)\n{\n{\n}\n}\n");
    let call = AST::Call { callee: "g".to_string(), args: vec![AST::Number(1), AST::Number(2)] };
    assert_eq!(call.to_text(), "g (1,2,)");
    let empty = AST::Call { callee: "h".to_string(), args: vec![] };
    assert_eq!(empty.to_text(), "h ()");
    assert_eq!(AST::Print(num(7)).to_text(), "print(7)");
}

#[test]
fn text_of_arrays() {
    let lit = AST::ArrayLiteral(vec![AST::Number(1), AST::Number(2), AST::Number(3)]);
    assert_eq!(lit.to_text(), "[1,2,3]");
    assert_eq!(AST::ArrayLiteral(vec![]).to_text(), "[]");
    let lookup = AST::ArrayLookup { array: id("x"), index: num(0) };
    assert_eq!(lookup.to_text(), "array[0]\n");
    assert_eq!(AST::ArrayLength(id("x")).to_text(), "array.length\n");
}

#[test]
fn equal_compares_variants_only() {
    let a = AST::Add { left: num(1), right: num(2) };
    let b = AST::Add { left: num(3), right: num(4) };
    let c = AST::Subtract { left: num(1), right: num(2) };
    assert!(a.equal(&b));
    assert!(!a.equal(&c));
    assert!(AST::Null.equal(&AST::Null));
    assert!(!AST::Null.equal(&AST::Undefined));
    assert_eq!(AST::Number(5).kind_index(), 0);
    assert_eq!(AST::Print(num(1)).kind_index(), 28);
}

#[test]
fn builtin_calls_become_nodes() {
    let a = arm_compiler::ast::make_call("assert".to_string(), vec![AST::Number(1)]);
    assert_eq!(a, AST::Assert(num(1)));
    let l = arm_compiler::ast::make_call("length".to_string(), vec![AST::Id("x".to_string())]);
    assert_eq!(l, AST::ArrayLength(id("x")));
    let p = arm_compiler::ast::make_call("print".to_string(), vec![AST::Number(3)]);
    assert_eq!(p, AST::Print(num(3)));
}

#[test]
fn other_calls_stay_calls() {
    let user = arm_compiler::ast::make_call("putchar".to_string(), vec![AST::Number(46)]);
    assert_eq!(user, AST::Call { callee: "putchar".to_string(), args: vec![AST::Number(46)] });
    let four = arm_compiler::ast::make_call(
        "assert".to_string(),
        vec![AST::Number(1), AST::Number(2), AST::Number(3), AST::Number(4)],
    );
    assert!(matches!(four, AST::Call { ref args, .. } if args.len() == 4));
    let none = arm_compiler::ast::make_call("print".to_string(), vec![]);
    assert_eq!(none, AST::Call { callee: "print".to_string(), args: vec![] });
}
