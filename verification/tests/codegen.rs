//! Tests of the code generator: lowering, arity and redefinition checks,
//! unknown-symbol errors, erase-on-failure, rendering, and the behaviour
//! of the generated code under a small reference interpreter.

use kaleidoscope::ast::OpSymbol;
use kaleidoscope::compile::Compiler;
use kaleidoscope::compile::IRFunction;
use kaleidoscope::compile::Instr;
use kaleidoscope::error::CompileError;
use kaleidoscope::error::Error;
use kaleidoscope::parser::Parser;

/// Feeds one compilation unit (a definition, an extern, or a top-level
/// expression) to the compiler, like the interactive driver does.
fn handle(compiler: &mut Compiler, line: &str) -> Result<usize, Error> {
    let mut parser = Parser::new(line.as_bytes().to_vec())?;
    match parser.peek() {
        kaleidoscope::lex::Token::Def => {
            let ast = parser.parse_definition()?;
            compiler.create_function(&ast)
        },
        kaleidoscope::lex::Token::Extern => {
            let proto = parser.parse_extern()?;
            Ok(compiler.create_proto(&proto.name, &proto.args))
        },
        _ => {
            let ast = parser.parse_toplevel()?;
            compiler.create_function(&ast)
        },
    }
}

fn find_fn<'m>(module: &'m Vec<IRFunction>, name: &[u8]) -> &'m IRFunction {
    module.iter().find(|f| f.name == name).expect("function not found")
}

/// A reference interpreter for generated function bodies, over f64.
fn eval_fn(module: &Vec<IRFunction>, f: &IRFunction, args: &[f64]) -> f64 {
    let body = f.body.as_ref().expect("function has no body");
    let mut vals: Vec<f64> = Vec::new();
    for ins in body {
        match ins {
            Instr::Param(k) => vals.push(args[*k]),
            Instr::Const(t) => {
                let text = String::from_utf8(t.clone()).expect("constant text");
                vals.push(text.parse::<f64>().expect("constant parses"));
            },
            Instr::Binary(op, l, r) => {
                let x = vals[*l];
                let y = vals[*r];
                vals.push(match op {
                    OpSymbol::Add => x + y,
                    OpSymbol::Sub => x - y,
                    OpSymbol::Mul => x * y,
                    OpSymbol::Div => x / y,
                    _ => panic!("comparison emitted as plain binary"),
                });
            },
            Instr::CmpLess(l, r) => {
                // unordered-or-less-than, widened later
                let lt = !(vals[*l] >= vals[*r]);
                vals.push(if lt { 1.0 } else { 0.0 });
            },
            Instr::BoolToFloat(v) => vals.push(vals[*v]),
            Instr::Call(name, ops) => {
                let callee = find_fn(module, name);
                let argv: Vec<f64> = ops.iter().map(|i| vals[*i]).collect();
                vals.push(eval_fn(module, callee, &argv));
            },
            Instr::Ret(v) => return vals[*v],
        }
    }
    panic!("body ended without a return");
}

/// Compiles a top-level expression and evaluates it.
fn eval_toplevel(compiler: &mut Compiler, line: &str) -> f64 {
    let fi = handle(compiler, line).expect("compilation failed");
    let module = compiler.module();
    eval_fn(module, &module[fi], &[])
}

#[test]
fn compile_test_method() {
    let mut parser = Parser::new(b"def bar(a) foo(a, 4.0) + bar(31337);".to_vec()).unwrap();
    let ast = parser.parse_definition().unwrap();

    let mut compiler = Compiler::new();
    match compiler.create_function(&ast) {
        Ok(val) => println!("{}", String::from_utf8_lossy(&compiler.print(val))),
        Err(er) => println!("{:?}", er),
    }
}

#[test]
fn undefined_callee_fails_and_erases() {
    // the same unit as `compile_test_method`, with the outcome pinned:
    // `foo` is unknown, and the failed `bar` is erased from the module
    let mut compiler = Compiler::new();
    match handle(&mut compiler, "def bar(a) foo(a, 4.0) + bar(31337);") {
        Err(Error::CompileError(CompileError::UnknownFunction(name))) => {
            assert_eq!(name, b"foo".to_vec());
        },
        other => panic!("expected UnknownFunction, got {:?}", other),
    }
    assert!(compiler.module().is_empty());
}

#[test]
fn left_associativity_evaluates() {
    // "8 - 4 - 2" evaluates to 2
    let mut compiler = Compiler::new();
    assert_eq!(eval_toplevel(&mut compiler, "8 - 4 - 2"), 2.0);
}

#[test]
fn precedence_evaluates() {
    // each anonymous unit gets its own compiler: the empty name may
    // receive a body only once per module
    assert_eq!(eval_toplevel(&mut Compiler::new(), "1 + 2 * 3"), 7.0);
    assert_eq!(eval_toplevel(&mut Compiler::new(), "8 / 2"), 4.0);
}

#[test]
fn arity_mismatch_is_rejected() {
    // extern foo(a b), then foo(1): expected 2, got 1
    let mut compiler = Compiler::new();
    handle(&mut compiler, "extern foo(a b)").expect("extern failed");
    match handle(&mut compiler, "foo(1)") {
        Err(Error::CompileError(CompileError::IncorrectArguments { expected, got })) => {
            assert_eq!(expected, 2);
            assert_eq!(got, 1);
        },
        other => panic!("expected IncorrectArguments, got {:?}", other),
    }
}

#[test]
fn matching_arity_is_accepted() {
    let mut compiler = Compiler::new();
    handle(&mut compiler, "def half(x) x / 2").expect("definition failed");
    assert_eq!(eval_toplevel(&mut compiler, "half(9)"), 4.5);
}

#[test]
fn redefinition_is_rejected_and_body_retained() {
    // a second body for the same name fails FunctionRedefined and the
    // first body stays unmodified
    let mut compiler = Compiler::new();
    handle(&mut compiler, "def foo(a) a").expect("first definition failed");
    let before = compiler.print_module();
    match handle(&mut compiler, "def foo(a) a+1") {
        Err(Error::CompileError(CompileError::FunctionRedefined)) => {},
        other => panic!("expected FunctionRedefined, got {:?}", other),
    }
    assert_eq!(compiler.print_module(), before);
    let module = compiler.module();
    assert_eq!(eval_fn(module, find_fn(module, b"foo"), &[41.0]), 41.0);
}

#[test]
fn extern_may_receive_a_body_once() {
    let mut compiler = Compiler::new();
    handle(&mut compiler, "extern inc(x)").expect("extern failed");
    handle(&mut compiler, "def inc(x) x + 1").expect("definition failed");
    assert_eq!(eval_toplevel(&mut compiler, "inc(41)"), 42.0);
    match handle(&mut compiler, "def inc(x) x + 2") {
        Err(Error::CompileError(CompileError::FunctionRedefined)) => {},
        other => panic!("expected FunctionRedefined, got {:?}", other),
    }
}

#[test]
fn failed_definition_can_be_retried() {
    // erase-on-failure leaves no debris: the name can be defined again
    let mut compiler = Compiler::new();
    assert!(handle(&mut compiler, "def f(a) b").is_err());
    assert!(compiler.module().is_empty());
    handle(&mut compiler, "def f(a) a").expect("retry failed");
    assert_eq!(eval_toplevel(&mut compiler, "f(7)"), 7.0);
}

#[test]
fn unknown_variable_fails() {
    // def f(a) b: b is not a parameter
    let mut compiler = Compiler::new();
    match handle(&mut compiler, "def f(a) b") {
        Err(Error::CompileError(CompileError::UnknownVariableName(name))) => {
            assert_eq!(name, b"b".to_vec());
        },
        other => panic!("expected UnknownVariableName, got {:?}", other),
    }
}

#[test]
fn unknown_function_fails() {
    let mut compiler = Compiler::new();
    match handle(&mut compiler, "g(1)") {
        Err(Error::CompileError(CompileError::UnknownFunction(name))) => {
            assert_eq!(name, b"g".to_vec());
        },
        other => panic!("expected UnknownFunction, got {:?}", other),
    }
}

#[test]
fn comparison_lowering_evaluates() {
    // "1 < 2" evaluates to 1.0; "2 < 1" evaluates to 0.0
    assert_eq!(eval_toplevel(&mut Compiler::new(), "1 < 2"), 1.0);
    assert_eq!(eval_toplevel(&mut Compiler::new(), "2 < 1"), 0.0);
    assert_eq!(eval_toplevel(&mut Compiler::new(), "2 > 1"), 1.0);
    assert_eq!(eval_toplevel(&mut Compiler::new(), "1 > 2"), 0.0);
}

#[test]
fn greater_reduces_to_swapped_less() {
    let mut compiler = Compiler::new();
    let fi = handle(&mut compiler, "def gt(a b) a > b").expect("definition failed");
    let f = &compiler.module()[fi];
    let body = f.body.as_ref().unwrap();
    // params a=%0 b=%1; the comparison is `b < a`, then widened
    let expected = vec![
        Instr::Param(0),
        Instr::Param(1),
        Instr::CmpLess(1, 0),
        Instr::BoolToFloat(2),
        Instr::Ret(3),
    ];
    assert_eq!(body, &expected);
}

#[test]
fn duplicate_parameter_keeps_last_binding() {
    // a repeated parameter name silently overwrites the earlier binding
    let mut compiler = Compiler::new();
    handle(&mut compiler, "def pick(a a) a").expect("definition failed");
    let module = compiler.module();
    assert_eq!(eval_fn(module, find_fn(module, b"pick"), &[10.0, 20.0]), 20.0);
}

#[test]
fn declare_or_fetch_is_idempotent() {
    let mut compiler = Compiler::new();
    let first = handle(&mut compiler, "extern sin(x)").expect("extern failed");
    let second = handle(&mut compiler, "extern sin(x)").expect("extern failed");
    assert_eq!(first, second);
    assert_eq!(compiler.module().len(), 1);
}

#[test]
fn module_renders_as_text() {
    let mut compiler = Compiler::new();
    handle(&mut compiler, "extern sin(x)").expect("extern failed");
    handle(&mut compiler, "def foo(a) a").expect("definition failed");
    let text = String::from_utf8(compiler.print_module()).unwrap();
    assert_eq!(
        text,
        "declare sin(x)\ndefine foo(a) {\n  %0 = param 0\n  ret %0\n}\n"
    );
}

#[test]
fn print_renders_one_function() {
    let mut compiler = Compiler::new();
    let fi = handle(&mut compiler, "def foo(a b) a * b").expect("definition failed");
    let text = String::from_utf8(compiler.print(fi)).unwrap();
    assert_eq!(
        text,
        "define foo(a, b) {\n  %0 = param 0\n  %1 = param 1\n  %2 = mul %0, %1\n  ret %2\n}\n"
    );
    assert!(compiler.print(99).is_empty());
}

#[test]
fn nested_calls_evaluate() {
    let mut compiler = Compiler::new();
    handle(&mut compiler, "def sq(x) x * x").expect("definition failed");
    handle(&mut compiler, "def hyp2(a b) sq(a) + sq(b)").expect("definition failed");
    assert_eq!(eval_toplevel(&mut compiler, "hyp2(3, 4)"), 25.0);
}

#[test]
fn emitting_outside_a_body_is_defensive() {
    let mut compiler = Compiler::new();
    match compiler.const_double(b"1.0".to_vec()) {
        Err(CompileError::InvalidHandle) => {},
        other => panic!("expected InvalidHandle, got {:?}", other),
    }
    match compiler.create_binary(0, 1, OpSymbol::Add) {
        Err(CompileError::InvalidHandle) => {},
        other => panic!("expected InvalidHandle, got {:?}", other),
    }
}

#[test]
fn variable_lookup_without_scope() {
    let compiler = Compiler::new();
    assert_eq!(compiler.variable(&b"x".to_vec()), None);
}
