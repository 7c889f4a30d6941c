//! Whole-pipeline scenarios: source text in, printed lines or error out.

use spade::interpreter::Interpreter;
use spade::token::scan_tokens;
use spade::tree::parse_stmt;

fn run(source: &str) -> (Vec<String>, Result<(), String>) {
    let tokens = scan_tokens(source.to_string()).expect("scanning failed");
    let statements = parse_stmt(tokens).expect("parsing failed");
    let mut interpreter = Interpreter::new();
    let result = interpreter.interpret(statements);
    (interpreter.output().clone(), result)
}

#[test]
fn scenario_arithmetic_precedence() {
    let (out, r) = run("print (3 + 4) * 2;");
    assert!(r.is_ok());
    assert_eq!(out, vec!["14".to_string()]);

    let (out, r) = run("print 3 + 4 * 2;");
    assert!(r.is_ok());
    assert_eq!(out, vec!["11".to_string()]);
}

#[test]
fn scenario_division_by_zero() {
    let (_, r) = run("print 1 / 0;");
    assert_eq!(r.unwrap_err(), "Division by zero at line 0");
}

#[test]
fn scenario_scope_and_shadowing() {
    let (out, r) = run("let x = 1; { let x = 2; print x; } print x;");
    assert!(r.is_ok());
    assert_eq!(out, vec!["2".to_string(), "1".to_string()]);
}

#[test]
fn scenario_undefined_variable() {
    let (out, r) = run("let x = 1; { let y = 2; print x; } print y;");
    assert_eq!(out, vec!["1".to_string()]);
    assert_eq!(r.unwrap_err(), "Undefined variable 'y'. at line 1");
}

#[test]
fn scenario_if_else_on_nil() {
    let (out, r) = run("if (nil) { print \"t\"; } else { print \"f\"; }");
    assert!(r.is_ok());
    assert_eq!(out, vec!["f".to_string()]);
}

#[test]
fn scenario_function_with_return() {
    let (out, r) = run("fn add(a,b) { return a + b; } print add(2,3);");
    assert!(r.is_ok());
    assert_eq!(out, vec!["5".to_string()]);
}

#[test]
fn scenario_unterminated_string() {
    let err = scan_tokens("\"hello".to_string()).unwrap_err();
    assert_eq!(err, "Unterminated string");
}

#[test]
fn scenario_unary_on_non_number() {
    let (_, r) = run("-\"x\";");
    assert_eq!(r.unwrap_err(), "Invalid operand for unary - at line 0");
}

#[test]
fn scenario_call_returns_nil_without_return() {
    let (out, r) = run("fn greet() { print \"hi\"; } print greet();");
    assert!(r.is_ok());
    assert_eq!(out, vec!["hi".to_string(), "nil".to_string()]);
}

#[test]
fn scenario_wrong_arity() {
    let (_, r) = run("fn add(a,b) { return a + b; } print add(2);");
    assert_eq!(
        r.unwrap_err(),
        "Expected number of arguments to match number of parameters at line 0"
    );
}

#[test]
fn scenario_calling_a_non_function() {
    let (_, r) = run("let x = 3; x(1);");
    assert_eq!(r.unwrap_err(), "Expected function at line 0");
}

#[test]
fn scenario_nested_function_scope() {
    // a function declared inside a block vanishes with the block
    let (out, r) = run("{ fn f() { return 9; } print f(); } print 1;");
    assert!(r.is_ok());
    assert_eq!(out, vec!["9".to_string(), "1".to_string()]);
    let (_, r) = run("{ fn f() { return 9; } } print f();");
    assert_eq!(r.unwrap_err(), "Undefined variable 'f'. at line 1");
}

#[test]
fn scenario_fractional_output() {
    let (out, r) = run("print 1.5 + 2.25;");
    assert!(r.is_ok());
    assert_eq!(out, vec!["3.75".to_string()]);
}

#[test]
fn scenario_deep_recursion_is_an_error() {
    let (_, r) = run("fn loopy() { return loopy(); } loopy();");
    assert_eq!(r.unwrap_err(), "Stack overflow at line 0");
}

#[test]
fn scenario_string_with_newline_counts_lines() {
    let (_, r) = run("let s = \"a\nb\"; print t;");
    assert_eq!(r.unwrap_err(), "Undefined variable 't'. at line 2");
}

#[test]
fn scenario_determinism() {
    // the same program, run twice from scratch, prints the same lines
    let program = "let a = 2; fn twice(x) { return x * x; } print twice(a + 1); print \"done\";";
    let (out1, r1) = run(program);
    let (out2, r2) = run(program);
    assert_eq!(out1, out2);
    assert_eq!(r1, r2);
    assert_eq!(out1, vec!["9".to_string(), "done".to_string()]);
}

#[test]
fn scenario_scope_containment() {
    // names declared inside a block are gone afterwards, and the enclosing
    // scope is untouched
    let (out, r) = run("let x = 1; { let y = 2; print y; } print x;");
    assert!(r.is_ok());
    assert_eq!(out, vec!["2".to_string(), "1".to_string()]);
    let (_, r) = run("{ let y = 2; } print y;");
    assert_eq!(r.unwrap_err(), "Undefined variable 'y'. at line 1");
}
