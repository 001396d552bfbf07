use arm_compiler::ast::AST;
use arm_compiler::codegen::{
    compile, compile_to_text, node_count, within_limits, ArmCodeGenerator, CodeGenError,
};
use arm_compiler::env::Environment;
use arm_compiler::instr::{render, Cond, Instr, Op, Reg};

fn num(n: u64) -> Box<AST> {
    Box::new(AST::Number(n))
}

fn id(name: &str) -> Box<AST> {
    Box::new(AST::Id(name.to_string()))
}

fn func(name: &str, parameters: &[&str], body: Vec<AST>) -> AST {
    AST::Function {
        name: name.to_string(),
        parameters: parameters.iter().map(|p| p.to_string()).collect(),
        body: Box::new(AST::Block(body)),
    }
}

fn main_fn(body: Vec<AST>) -> AST {
    func("main", &[], body)
}

fn var(name: &str, value: Box<AST>) -> AST {
    AST::Var { name: name.to_string(), value }
}

fn assign(name: &str, value: Box<AST>) -> AST {
    AST::Assign { name: name.to_string(), value }
}

fn call(callee: &str, args: Vec<AST>) -> AST {
    AST::Call { callee: callee.to_string(), args }
}

fn lines(text: &str) -> Vec<&str> {
    text.lines().collect()
}

const FN_START: &str = "\n.global main\nmain:\n\tpush {fp, lr}\n\tmov fp, sp\n\tpush {r0, r1, r2, r3}\n";
const FN_END: &str = "\tmov sp, fp\n\tmov r0, #0\n\tpop { fp, pc }\n";
const ASSERT_TAIL: &str = "\tcmp r0, #1\n\tmoveq r0, #84\n\tmovne r0, #70\n\tbl putchar\n";

#[test]
fn number_loads_immediate() {
    assert_eq!(compile_to_text(&AST::Number(42)).unwrap(), "\tldr r0, =42\n");
}

#[test]
fn booleans_null_and_undefined() {
    assert_eq!(compile_to_text(&AST::Boolean(true)).unwrap(), "\tmov r0, #1\n");
    assert_eq!(compile_to_text(&AST::Boolean(false)).unwrap(), "\tmov r0, #0\n");
    assert_eq!(compile_to_text(&AST::Null).unwrap(), "\tmov r0, #0\n");
    assert_eq!(compile_to_text(&AST::Undefined).unwrap(), "\tmov r0, #0\n");
}

#[test]
fn not_compares_with_zero() {
    let text = compile_to_text(&AST::Not(num(1))).unwrap();
    assert_eq!(text, "\tldr r0, =1\n\tcmp r0, #0\n\tmoveq r0, #1\n\tmovne r0, #0\n");
}

#[test]
fn scenario_assert_one_in_main() {
    let program = main_fn(vec![AST::Assert(num(1))]);
    let text = compile_to_text(&program).unwrap();
    let expected = format!("{}\tldr r0, =1\n{}{}", FN_START, ASSERT_TAIL, FN_END);
    assert_eq!(text, expected);
}

#[test]
fn nested_add_keeps_left_operand() {
    let ast = AST::Add { left: num(1), right: Box::new(AST::Add { left: num(2), right: num(3) }) };
    let text = compile_to_text(&ast).unwrap();
    let expected = "\tldr r0, =1\n\tpush {r0, ip}\n\tldr r0, =2\n\tpush {r0, ip}\n\tldr r0, =3\n\tpop {r1, ip}\n\tadd r0, r1, r0\n\tpop {r1, ip}\n\tadd r0, r1, r0\n";
    assert_eq!(text, expected);
}

#[test]
fn arithmetic_operators() {
    let cases: Vec<(AST, &str)> = vec![
        (AST::Subtract { left: num(12), right: num(2) }, "\tsub r0, r1, r0"),
        (AST::Multiply { left: num(2), right: num(10) }, "\tmul r0, r1, r0"),
        (AST::Divide { left: num(10), right: num(2) }, "\tudiv r0, r1, r0"),
    ];
    for (ast, last) in cases {
        let text = compile_to_text(&ast).unwrap();
        assert_eq!(*lines(&text).last().unwrap(), last);
    }
}

#[test]
fn comparisons_compare_left_against_right() {
    let cases: Vec<(AST, &str, &str)> = vec![
        (AST::Equal { left: num(1), right: num(2) }, "\tmoveq r0, #1", "\tmovne r0, #0"),
        (AST::NotEqual { left: num(1), right: num(2) }, "\tmovne r0, #1", "\tmoveq r0, #0"),
        (AST::LessThan { left: num(1), right: num(2) }, "\tmovlt r0, #1", "\tmovge r0, #0"),
        (AST::GreaterThan { left: num(1), right: num(2) }, "\tmovgt r0, #1", "\tmovle r0, #0"),
        (AST::LessThanEqual { left: num(1), right: num(2) }, "\tmovle r0, #1", "\tmovgt r0, #0"),
        (AST::GreaterThanEqual { left: num(1), right: num(2) }, "\tmovge r0, #1", "\tmovlt r0, #0"),
    ];
    for (ast, yes, no) in cases {
        let text = compile_to_text(&ast).unwrap();
        let l = lines(&text);
        assert_eq!(l.len(), 7);
        assert_eq!(l[0], "\tldr r0, =1");
        assert_eq!(l[3], "\tpop {r1, ip}");
        assert_eq!(l[4], "\tcmp r1, r0");
        assert_eq!(l[5], yes);
        assert_eq!(l[6], no);
    }
}

#[test]
fn scenario_infix_precedence() {
    // 42 == 4 + 2 * (12 - 2) + 3 * (5 + 1)
    let rhs = AST::Add {
        left: Box::new(AST::Add {
            left: num(4),
            right: Box::new(AST::Multiply {
                left: num(2),
                right: Box::new(AST::Subtract { left: num(12), right: num(2) }),
            }),
        }),
        right: Box::new(AST::Multiply {
            left: num(3),
            right: Box::new(AST::Add { left: num(5), right: num(1) }),
        }),
    };
    let program = main_fn(vec![AST::Assert(Box::new(AST::Equal { left: num(42), right: Box::new(rhs) }))]);
    let text = compile_to_text(&program).unwrap();
    let l = lines(&text);
    let pushes = l.iter().filter(|x| **x == "\tpush {r0, ip}").count();
    let pops = l.iter().filter(|x| **x == "\tpop {r1, ip}").count();
    assert_eq!(pushes, 7);
    assert_eq!(pops, 7);
    assert_eq!(l.iter().filter(|x| **x == "\tmul r0, r1, r0").count(), 2);
    assert!(text.contains("\tcmp r1, r0\n\tmoveq r0, #1\n\tmovne r0, #0\n\tcmp r0, #1\n"));
}

#[test]
fn scenario_while_loop() {
    let program = main_fn(vec![
        var("a", num(1)),
        AST::While {
            conditional: Box::new(AST::NotEqual { left: id("a"), right: num(10) }),
            body: Box::new(AST::Block(vec![assign("a", Box::new(AST::Add { left: id("a"), right: num(1) }))])),
        },
        AST::Assert(Box::new(AST::Equal { left: id("a"), right: num(10) })),
    ]);
    let text = compile_to_text(&program).unwrap();
    let body = "\tldr r0, =1\n\tpush {r0, ip}\n\
.L1:\n\tldr r0, [fp, #-24]\n\tpush {r0, ip}\n\tldr r0, =10\n\tpop {r1, ip}\n\tcmp r1, r0\n\tmovne r0, #1\n\tmoveq r0, #0\n\
\tcmp r0, #0\n\tbeq .L2\n\
\tldr r0, [fp, #-24]\n\tpush {r0, ip}\n\tldr r0, =1\n\tpop {r1, ip}\n\tadd r0, r1, r0\n\tstr r0, [fp, #-24]\n\
\tb .L1\n.L2:\n\
\tldr r0, [fp, #-24]\n\tpush {r0, ip}\n\tldr r0, =10\n\tpop {r1, ip}\n\tcmp r1, r0\n\tmoveq r0, #1\n\tmovne r0, #0\n";
    let expected = format!("{}{}{}{}", FN_START, body, ASSERT_TAIL, FN_END);
    assert_eq!(text, expected);
}

#[test]
fn scenario_recursive_factorial() {
    let factorial = func(
        "factorial",
        &["n"],
        vec![AST::IfNode {
            conditional: Box::new(AST::Equal { left: id("n"), right: num(0) }),
            consequence: Box::new(AST::Block(vec![AST::Return { term: num(1) }])),
            alternative: Box::new(AST::Block(vec![AST::Return {
                term: Box::new(AST::Multiply {
                    left: id("n"),
                    right: Box::new(call("factorial", vec![AST::Subtract { left: id("n"), right: num(1) }])),
                }),
            }])),
        }],
    );
    let main = main_fn(vec![
        AST::Assert(Box::new(AST::Equal { left: num(720), right: Box::new(call("factorial", vec![AST::Number(6)])) })),
        AST::Return { term: num(0) },
    ]);
    let text = compile_to_text(&AST::Block(vec![factorial, main])).unwrap();
    let l = lines(&text);
    assert!(l.contains(&".global factorial"));
    assert!(l.contains(&"factorial:"));
    assert!(l.contains(&".global main"));
    assert_eq!(l.iter().filter(|x| **x == "\tbl factorial").count(), 2);
    assert_eq!(l.iter().filter(|x| **x == "\tldr r0, [fp, #-16]").count(), 3);
    assert!(text.contains("\tcmp r0, #0\n\tbeq .L1\n"));
    assert!(text.contains("\tb .L2\n.L1:\n"));
    assert!(text.contains("\tmov sp, fp\n\tpop {fp, pc}\n"));
    assert!(text.contains("\tmul r0, r1, r0\n"));
}

#[test]
fn scenario_array_literal_lookup_and_length() {
    let program = main_fn(vec![
        var("x", Box::new(AST::ArrayLiteral(vec![AST::Number(1), AST::Number(2), AST::Number(3)]))),
        AST::Assert(Box::new(AST::Equal {
            left: Box::new(AST::ArrayLookup { array: id("x"), index: num(0) }),
            right: num(1),
        })),
        AST::Assert(Box::new(AST::Equal { left: Box::new(AST::ArrayLength(id("x"))), right: num(3) })),
    ]);
    let text = compile_to_text(&program).unwrap();
    let literal = "\tldr r0, =16\n\tbl malloc\n\tpush {r4, ip}\n\tmov r4, r0\n\tldr r0, =3\n\tstr r0, [r4, #0]\n\
\tldr r0, =1\n\tstr r0, [r4, #4]\n\tldr r0, =2\n\tstr r0, [r4, #8]\n\tldr r0, =3\n\tstr r0, [r4, #12]\n\
\tmov r0, r4\n\tpop {r4, ip}\n\tpush {r0, ip}\n";
    assert!(text.contains(literal));
    let lookup = "\tldr r0, [fp, #-24]\n\tpush {r0, ip}\n\tldr r0, =0\n\tpop {r1, ip}\n\tldr r2, [r1, #0]\n\tcmp r0, r2\n\
\tmovhs r0, #0\n\taddlo r1, r1, #4\n\tlsllo r0, r0, #2\n\tldrlo r0, [r1, r0]\n";
    assert!(text.contains(lookup));
    assert!(text.contains("\tldr r0, [fp, #-24]\n\tldr r0, [r0, #0]\n"));
}

#[test]
fn scenario_out_of_bounds_lookup_yields_zero() {
    let program = main_fn(vec![
        var("x", Box::new(AST::ArrayLiteral(vec![AST::Number(1), AST::Number(2), AST::Number(3)]))),
        AST::Assert(Box::new(AST::Equal {
            left: Box::new(AST::ArrayLookup { array: id("x"), index: num(99) }),
            right: num(0),
        })),
    ]);
    let text = compile_to_text(&program).unwrap();
    assert!(text.contains("\tldr r0, =99\n\tpop {r1, ip}\n\tldr r2, [r1, #0]\n\tcmp r0, r2\n\tmovhs r0, #0\n"));
}

#[test]
fn empty_array_allocates_length_word() {
    let text = compile_to_text(&AST::ArrayLiteral(vec![])).unwrap();
    assert_eq!(
        text,
        "\tldr r0, =4\n\tbl malloc\n\tpush {r4, ip}\n\tmov r4, r0\n\tldr r0, =0\n\tstr r0, [r4, #0]\n\tmov r0, r4\n\tpop {r4, ip}\n"
    );
}

#[test]
fn undefined_variable_read() {
    let r = compile(&AST::Id("y".to_string()));
    assert_eq!(r.unwrap_err(), CodeGenError::UndefinedVariable("y".to_string()));
    let in_main = main_fn(vec![AST::Assert(id("nope"))]);
    assert_eq!(compile(&in_main).unwrap_err(), CodeGenError::UndefinedVariable("nope".to_string()));
}

#[test]
fn undefined_variable_assigned() {
    let program = main_fn(vec![var("a", num(1)), assign("b", num(2))]);
    assert_eq!(compile(&program).unwrap_err(), CodeGenError::UndefinedVariable("b".to_string()));
}

#[test]
fn function_scope_is_not_visible_inside_nested_function() {
    let inner = func("inner", &[], vec![AST::Return { term: id("a") }]);
    let program = main_fn(vec![var("a", num(1)), inner]);
    assert_eq!(compile(&program).unwrap_err(), CodeGenError::UndefinedVariable("a".to_string()));
}

#[test]
fn four_parameters_accepted() {
    let f = func("f", &["a", "b", "c", "d"], vec![AST::Return { term: id("d") }, AST::Return { term: id("a") }]);
    let text = compile_to_text(&f).unwrap();
    assert!(text.contains("\tldr r0, [fp, #-4]\n"));
    assert!(text.contains("\tldr r0, [fp, #-16]\n"));
}

#[test]
fn five_parameters_refused() {
    let f = func("f", &["a", "b", "c", "d", "e"], vec![]);
    assert_eq!(compile(&f).unwrap_err(), CodeGenError::TooManyParameters);
}

#[test]
fn four_arguments_accepted() {
    let c = call("f", vec![AST::Number(1), AST::Number(2), AST::Number(3), AST::Number(4)]);
    let text = compile_to_text(&c).unwrap();
    assert_eq!(
        text,
        "\tsub sp, sp, #16\n\tldr r0, =1\n\tstr r0, [sp, #0]\n\tldr r0, =2\n\tstr r0, [sp, #4]\n\tldr r0, =3\n\tstr r0, [sp, #8]\n\tldr r0, =4\n\tstr r0, [sp, #12]\n\tpop {r0, r1, r2, r3}\n\tbl f\n"
    );
}

#[test]
fn five_arguments_refused() {
    let c = call("f", (1..=5).map(AST::Number).collect());
    assert_eq!(compile(&c).unwrap_err(), CodeGenError::TooManyArguments);
}

#[test]
fn calls_with_no_or_one_argument() {
    assert_eq!(compile_to_text(&call("rand", vec![])).unwrap(), "\tbl rand\n");
    assert_eq!(compile_to_text(&call("putchar", vec![AST::Number(46)])).unwrap(), "\tldr r0, =46\n\tbl putchar\n");
}

#[test]
fn print_calls_runtime() {
    assert_eq!(compile_to_text(&AST::Print(num(5))).unwrap(), "\tldr r0, =5\n\tbl print\n");
}

#[test]
fn labels_are_unique_across_nesting_and_functions() {
    let nested_if = AST::IfNode {
        conditional: num(1),
        consequence: Box::new(AST::IfNode {
            conditional: num(1),
            consequence: Box::new(AST::Block(vec![])),
            alternative: Box::new(AST::Block(vec![])),
        }),
        alternative: Box::new(AST::While { conditional: num(0), body: Box::new(AST::Block(vec![])) }),
    };
    let other = func(
        "other",
        &[],
        vec![AST::While { conditional: num(0), body: Box::new(AST::Block(vec![])) }],
    );
    let program = AST::Block(vec![main_fn(vec![nested_if]), other]);
    let text = compile_to_text(&program).unwrap();
    let mut defs: Vec<&str> = lines(&text).into_iter().filter(|l| l.starts_with(".L")).collect();
    assert_eq!(defs.len(), 8);
    defs.sort();
    defs.dedup();
    assert_eq!(defs.len(), 8);
}

#[test]
fn redeclaration_in_nested_block_gets_deeper_slot() {
    let program = main_fn(vec![
        var("x", num(1)),
        AST::Block(vec![var("x", num(2))]),
        assign("x", num(3)),
        AST::Assert(id("x")),
    ]);
    let text = compile_to_text(&program).unwrap();
    assert!(text.contains("\tldr r0, =3\n\tstr r0, [fp, #-32]\n"));
    assert!(text.contains("\tldr r0, [fp, #-32]\n"));
    assert!(!text.contains("#-24]"));
}

#[test]
fn compiling_twice_gives_identical_text() {
    let make = || {
        main_fn(vec![
            var("i", num(0)),
            AST::While {
                conditional: Box::new(AST::LessThan { left: id("i"), right: num(2) }),
                body: Box::new(AST::Block(vec![assign("i", Box::new(AST::Add { left: id("i"), right: num(1) }))])),
            },
        ])
    };
    let first = compile_to_text(&make()).unwrap();
    let second = compile_to_text(&make()).unwrap();
    assert_eq!(first, second);
}

#[test]
fn emit_threads_environment_and_counter() {
    let mut generator = ArmCodeGenerator::new();
    let mut env = Environment::new();
    let mut out: Vec<Instr> = Vec::new();
    let r = generator.emit(&var("a", num(7)), &mut env, &mut out);
    assert!(r.is_ok());
    assert_eq!(env.lookup(&"a".to_string()), Some(-4));
    assert_eq!(env.next_local_offset, -8);
    let w = AST::While { conditional: id("a"), body: Box::new(AST::Block(vec![])) };
    assert!(generator.emit(&w, &mut env, &mut out).is_ok());
    assert_eq!(generator.label_counter, 2);
    assert_eq!(out[0], Instr::LoadImm(Reg::R0, 7));
    assert_eq!(out[1], Instr::Push(Reg::R0, Reg::Ip));
    assert_eq!(out[2], Instr::Label(1));
}

#[test]
fn new_label_counts_up() {
    let mut generator = ArmCodeGenerator::new();
    assert_eq!(generator.new_label(), 1);
    assert_eq!(generator.new_label(), 2);
}

#[test]
fn environment_bindings() {
    let mut env = Environment::new();
    assert_eq!(env.lookup(&"x".to_string()), None);
    assert_eq!(env.declare(&"x".to_string()), -4);
    assert_eq!(env.declare(&"y".to_string()), -12);
    assert_eq!(env.declare(&"x".to_string()), -20);
    assert_eq!(env.lookup(&"x".to_string()), Some(-20));
    assert_eq!(env.lookup(&"y".to_string()), Some(-12));
    assert_eq!(env.next_local_offset, -24);
}

#[test]
fn parameters_take_spill_slots() {
    let params = vec!["a".to_string(), "b".to_string(), "c".to_string()];
    let env = Environment::for_parameters(&params);
    assert_eq!(env.lookup(&"a".to_string()), Some(-16));
    assert_eq!(env.lookup(&"b".to_string()), Some(-12));
    assert_eq!(env.lookup(&"c".to_string()), Some(-8));
    assert_eq!(env.lookup(&"d".to_string()), None);
    assert_eq!(env.next_local_offset, -20);
}

#[test]
fn rendering_of_instructions() {
    let code = vec![
        Instr::Blank,
        Instr::Global("f".to_string()),
        Instr::Symbol("f".to_string()),
        Instr::Label(12),
        Instr::Load(Cond::Al, Reg::R0, Reg::Fp, -9223372036854775808),
        Instr::Store(Reg::R0, Reg::Sp, 1234567890),
        Instr::LoadIndexed(Cond::Lo, Reg::R0, Reg::R1, Reg::R0),
        Instr::ArithImm(Op::Lsl, Cond::Lo, Reg::R0, Reg::R0, 2),
        Instr::MovReg(Reg::Fp, Reg::Sp),
        Instr::Branch(Cond::Al, 3),
        Instr::Branch(Cond::Eq, 10),
        Instr::PushArgs,
        Instr::Push(Reg::Fp, Reg::Lr),
        Instr::Pop(Reg::Fp, Reg::Pc),
        Instr::CmpImm(Reg::R0, 0),
        Instr::LoadImm(Reg::R2, 18446744073709551615),
    ];
    let expected = "\n.global f\nf:\n.L12:\n\tldr r0, [fp, #-9223372036854775808]\n\tstr r0, [sp, #1234567890]\n\
\tldrlo r0, [r1, r0]\n\tlsllo r0, r0, #2\n\tmov fp, sp\n\tb .L3\n\tbeq .L10\n\tpush {r0, r1, r2, r3}\n\
\tpush {fp, lr}\n\tpop {fp, pc}\n\tcmp r0, #0\n\tldr r2, =18446744073709551615\n";
    assert_eq!(render(&code), expected);
    assert_eq!(render(&vec![]), "");
}

#[test]
fn node_count_within_budget() {
    let ast = AST::IfNode {
        conditional: num(1),
        consequence: Box::new(AST::Block(vec![AST::Number(2), AST::Number(3)])),
        alternative: Box::new(AST::Add { left: num(4), right: num(5) }),
    };
    // If + 1 + Block(2 items, each counted with one extra) + Add(2 leaves)
    assert_eq!(node_count(&ast, 100), Some(10));
    assert_eq!(node_count(&ast, 10), Some(10));
    assert_eq!(node_count(&ast, 9), None);
    assert_eq!(node_count(&AST::Null, 0), None);
    assert!(within_limits(&ast));
}

#[test]
fn default_generator_and_environment() {
    let generator: ArmCodeGenerator = Default::default();
    assert_eq!(generator.label_counter, 0);
    let env: Environment = Default::default();
    assert_eq!(env.next_local_offset, 0);
    assert!(env.locals.is_empty());
}

#[test]
fn four_parameter_function_text() {
    let f = func("f", &["a", "b", "c", "d"], vec![AST::Return { term: id("d") }]);
    assert_eq!(
        compile_to_text(&f).unwrap(),
        "\n.global f\nf:\n\tpush {fp, lr}\n\tmov fp, sp\n\tpush {r0, r1, r2, r3}\n\tldr r0, [fp, #-4]\n\tmov sp, fp\n\tpop {fp, pc}\n\tmov sp, fp\n\tmov r0, #0\n\tpop { fp, pc }\n"
    );
}

#[test]
fn epilogue_text() {
    let mut generator = ArmCodeGenerator::new();
    let mut out: Vec<Instr> = Vec::new();
    generator.emit_fn_epilogue(&mut out);
    assert_eq!(render(&out), "\tmov sp, fp\n\tmov r0, #0\n\tpop { fp, pc }\n");
    assert_eq!(generator.label_counter, 0);
}

#[test]
fn refused_emission_leaves_no_trace() {
    let mut generator = ArmCodeGenerator::new();
    let mut env = Environment::new();
    let mut out: Vec<Instr> = Vec::new();
    assert!(generator.emit(&var("a", num(1)), &mut env, &mut out).is_ok());
    let before = out.len();
    // Declares `b` and uses two labels before it meets the undefined `zz`.
    let failing = AST::Block(vec![
        var("b", num(2)),
        AST::IfNode {
            conditional: num(1),
            consequence: Box::new(AST::Block(vec![])),
            alternative: Box::new(AST::Block(vec![])),
        },
        assign("zz", num(3)),
    ]);
    let r = generator.emit(&failing, &mut env, &mut out);
    assert_eq!(r, Err(CodeGenError::UndefinedVariable("zz".to_string())));
    assert_eq!(out.len(), before);
    assert_eq!(generator.label_counter, 0);
    assert_eq!(env.lookup(&"b".to_string()), None);
    assert_eq!(env.lookup(&"a".to_string()), Some(-4));
    assert_eq!(env.next_local_offset, -8);
    let too_many = func("f", &["a", "b", "c", "d", "e"], vec![]);
    assert_eq!(generator.emit(&too_many, &mut env, &mut out), Err(CodeGenError::TooManyParameters));
    let five = call("f", (1..=5).map(AST::Number).collect());
    assert_eq!(generator.emit(&five, &mut env, &mut out), Err(CodeGenError::TooManyArguments));
    assert_eq!(out.len(), before);
}

#[test]
fn infix_operands_all_or_nothing() {
    let mut generator = ArmCodeGenerator::new();
    let mut env = Environment::new();
    let mut out: Vec<Instr> = Vec::new();
    let r = generator.visit_infix_operands(&AST::Number(1), &AST::Id("q".to_string()), &mut env, &mut out);
    assert_eq!(r, Err(CodeGenError::UndefinedVariable("q".to_string())));
    assert!(out.is_empty());
    assert!(generator.visit_infix_operands(&AST::Number(1), &AST::Number(2), &mut env, &mut out).is_ok());
    assert_eq!(
        render(&out),
        "\tldr r0, =1\n\tpush {r0, ip}\n\tldr r0, =2\n\tpop {r1, ip}\n"
    );
}

#[test]
fn every_branch_targets_a_defined_label() {
    let program = main_fn(vec![
        var("i", num(0)),
        AST::While {
            conditional: Box::new(AST::LessThan { left: id("i"), right: num(3) }),
            body: Box::new(AST::Block(vec![
                AST::IfNode {
                    conditional: Box::new(AST::Equal { left: id("i"), right: num(1) }),
                    consequence: Box::new(AST::Assert(num(1))),
                    alternative: Box::new(AST::Block(vec![])),
                },
                assign("i", Box::new(AST::Add { left: id("i"), right: num(1) })),
            ])),
        },
    ]);
    let text = compile_to_text(&program).unwrap();
    let defs: Vec<String> =
        lines(&text).iter().filter(|l| l.starts_with(".L")).map(|l| l.trim_end_matches(':').to_string()).collect();
    let targets: Vec<&str> = lines(&text)
        .iter()
        .filter(|l| l.starts_with("\tb") && !l.starts_with("\tbl"))
        .map(|l| l.split(' ').last().unwrap())
        .collect();
    assert_eq!(defs.len(), 4);
    assert_eq!(targets.len(), 4);
    for t in targets {
        assert_eq!(defs.iter().filter(|d| d.as_str() == t).count(), 1);
    }
}
