use lox::interpreter::{Interpreter, RuntimeError, Value};
use lox::num::Num;
use lox::parser::parse;
use lox::parser::{BinaryOperator, Expr, LiteralValue, Statement};
use lox::scanner::scan;

fn run(source: &str) -> (Interpreter, Result<(), RuntimeError>) {
    let tokens = scan(source.as_bytes().to_vec());
    let statements = parse(tokens).unwrap();
    let mut interpreter = Interpreter::new();
    let result = interpreter.evaluate(&statements);
    (interpreter, result)
}

fn lines(source: &str) -> Vec<Vec<u8>> {
    let (mut interpreter, result) = run(source);
    assert!(result.is_ok());
    interpreter.take_output()
}

#[test]
fn test_interpreter_assignment() {
    let (_, result) = run("\n        var a = 4;\n        print a;");
    assert_eq!(result, Ok(()));
}

#[test]
fn interpreter_test_blocks() {
    let (_, result) = run(
        "\n        var a = 4;\n        {\n            var a = 5;\n            print a;\n        }\n        print a;",
    );
    assert_eq!(result, Ok(()));
}

#[test]
fn test_if() {
    let (_, result) = run("\n        var a = 4;\n        if (a == 4) {\n            print a;\n        }\n        ");
    assert_eq!(result, Ok(()));
}

#[test]
fn test_clock() {
    let (_, result) = run("\n        clock();\n        ");
    assert_eq!(result, Ok(()));
}

#[test]
fn test_closure() {
    let source = "
fun makeCounter() {
    var i = 0;
    fun count() {
        i = i + 1;
        print i;
    }

    return count;
}

var counter = makeCounter();
counter();

        ";
    let (_, result) = run(source);
    assert!(result.is_ok());
}

#[test]
fn arithmetic_precedence_output() {
    assert_eq!(lines("print 1 + 2 * 3;"), vec![b"7".to_vec()]);
}

#[test]
fn lexical_scope_output() {
    assert_eq!(
        lines("var a = 4; { var a = 5; print a; } print a;"),
        vec![b"5".to_vec(), b"4".to_vec()]
    );
}

#[test]
fn assignment_reaches_outer_scope_output() {
    assert_eq!(lines("var a = 1; { a = 2; } print a;"), vec![b"2".to_vec()]);
}

#[test]
fn if_statement_output() {
    assert_eq!(lines("var a = 4; if (a == 4) { print a; }"), vec![b"4".to_vec()]);
}

#[test]
fn counter_closure_output() {
    let source = "fun makeCounter(){ var i = 0; fun count(){ i = i + 1; print i; } return count; } var c = makeCounter(); c(); c();";
    assert_eq!(lines(source), vec![b"1".to_vec(), b"2".to_vec()]);
}

#[test]
fn clock_prints_nonnegative_decimal() {
    let out = lines("print clock();");
    assert_eq!(out.len(), 1);
    assert!(!out[0].is_empty());
    assert!(out[0].iter().all(|b| b.is_ascii_digit()));
}

#[test]
fn return_stops_the_body() {
    // No later statement of the body runs after `return E;`, and the call
    // evaluates to E.
    let source = "fun f(){ return 41; print 0; } print f() + 1;";
    assert_eq!(lines(source), vec![b"42".to_vec()]);
}

#[test]
fn exact_decimal_arithmetic() {
    assert_eq!(lines("print 10.1234;"), vec![b"10.1234".to_vec()]);
    assert_eq!(lines("print 0.5 + 0.5;"), vec![b"1".to_vec()]);
    assert_eq!(lines("print 7 / 2;"), vec![b"3.5".to_vec()]);
    assert_eq!(lines("print 1 - 2;"), vec![b"-1".to_vec()]);
}

#[test]
fn unary_operators_work() {
    assert_eq!(lines("print -(2);"), vec![b"-2".to_vec()]);
    assert_eq!(lines("print !true;"), vec![b"false".to_vec()]);
}

#[test]
fn booleans_and_nil_print() {
    assert_eq!(
        lines("print true; print false; print nil;"),
        vec![b"true".to_vec(), b"false".to_vec(), b"nil".to_vec()]
    );
}

#[test]
fn string_values_print_raw() {
    assert_eq!(lines("print \"hi there\";"), vec![b"hi there".to_vec()]);
}

#[test]
fn division_by_zero_is_a_runtime_error() {
    let (_, result) = run("print 1 / 0;");
    assert_eq!(
        result,
        Err(RuntimeError::Runtime { message: b"division by zero".to_vec() })
    );
}

#[test]
fn type_mismatch_is_a_runtime_error() {
    let (_, result) = run("print 1 + true;");
    assert_eq!(
        result,
        Err(RuntimeError::Runtime {
            message: b"Invalid operation: 1 + true".to_vec()
        })
    );
}

#[test]
fn assignment_to_undefined_is_an_error() {
    let (_, result) = run("a = 1;");
    assert_eq!(result, Err(RuntimeError::UndefinedVariable(b"a".to_vec())));
}

#[test]
fn calling_a_number_is_invalid() {
    let (_, result) = run("3();");
    assert_eq!(result, Err(RuntimeError::InvalidFunction));
}

#[test]
fn top_level_return_surfaces() {
    let (_, result) = run("return 1;");
    assert_eq!(result, Err(RuntimeError::Return(Value::Number(Num { n: 1, d: 1 }))));
}

#[test]
fn arity_mismatch_is_reported() {
    let (_, result) = run("fun f(x){ print x; } f();");
    assert_eq!(
        result,
        Err(RuntimeError::Runtime { message: b"arity mismatch".to_vec() })
    );
}

#[test]
fn undefined_variable_reads_as_nil() {
    assert_eq!(lines("print ghost;"), vec![b"nil".to_vec()]);
}

#[test]
fn scope_is_restored_after_runtime_error_in_block() {
    // A failing block must not leave the evaluator inside the inner scope.
    let tokens = scan(b"var a = 1; { var a = 2; x = 3; } print a;".to_vec());
    let statements = parse(tokens).unwrap();
    let mut interpreter = Interpreter::new();
    let result = interpreter.evaluate(&statements);
    assert_eq!(result, Err(RuntimeError::UndefinedVariable(b"x".to_vec())));
    // The same interpreter keeps running in the outer scope.
    let tokens = scan(b"print a;".to_vec());
    let statements = parse(tokens).unwrap();
    let result = interpreter.evaluate(&statements);
    assert!(result.is_ok());
    assert_eq!(interpreter.take_output(), vec![b"1".to_vec()]);
}

#[test]
fn repl_state_persists_across_evaluations() {
    let mut interpreter = Interpreter::new();
    let statements = parse(scan(b"var a = 4;".to_vec())).unwrap();
    interpreter.evaluate(&statements).unwrap();
    let statements = parse(scan(b"print a;".to_vec())).unwrap();
    interpreter.evaluate(&statements).unwrap();
    assert_eq!(interpreter.take_output(), vec![b"4".to_vec()]);
}

#[test]
fn boolean_operators_do_not_coerce() {
    // The grammar gives `and` / `or` no production, so the nodes are built
    // directly; the evaluator takes booleans only, without short-circuiting.
    let tt = |b: bool| Box::new(Expr::Literal(LiteralValue::Boolean(b)));
    let statements = vec![
        Statement::Print(Expr::Binary(tt(true), tt(false), BinaryOperator::And)),
        Statement::Print(Expr::Binary(tt(true), tt(false), BinaryOperator::Or)),
    ];
    let mut interpreter = Interpreter::new();
    interpreter.evaluate(&statements).unwrap();
    assert_eq!(
        interpreter.take_output(),
        vec![b"false".to_vec(), b"true".to_vec()]
    );
    // A non-boolean condition takes the else branch: no truthiness.
    assert_eq!(lines("if (1) { print 1; } else { print 2; }"), vec![b"2".to_vec()]);
}

#[test]
fn comparisons_work() {
    assert_eq!(
        lines("print 1 < 2; print 2 <= 2; print 3 > 4; print 4 >= 4; print 1 == 1; print 1 == 2;"),
        vec![
            b"true".to_vec(),
            b"true".to_vec(),
            b"false".to_vec(),
            b"true".to_vec(),
            b"true".to_vec(),
            b"false".to_vec()
        ]
    );
}
