use fnky::expr::RuntimeError;
use fnky::interpreter::Interpreter;
use fnky::parser::Parser;
use fnky::scanner::Scanner;

fn run_source(source: &str) -> (Vec<String>, Result<(), RuntimeError>) {
    let mut scanner = Scanner::new(source);
    let tokens = scanner.scan_tokens().expect("lexing should succeed");
    let mut parser = Parser::new(tokens);
    let stmts = parser.parse().expect("parsing should succeed");
    let mut interpreter = Interpreter::new();
    let result = interpreter.interpret(stmts);
    (interpreter.output, result)
}

#[test]
fn shadowing_does_not_leak_out_of_a_block() {
    let (output, result) = run_source("var x = 1; { var x = 2; print x; } print x;");
    assert!(result.is_ok());
    assert_eq!(output, vec!["2".to_string(), "1".to_string()]);
}

#[test]
fn assignment_to_undeclared_name_is_a_runtime_error() {
    let (output, result) = run_source("x = 5;");
    assert_eq!(
        result,
        Err(RuntimeError::AssignUndefined { name: "x".to_string() }),
    );
    assert_eq!(output.len(), 0);
}

#[test]
fn reading_an_undeclared_name_is_a_runtime_error() {
    let (output, result) = run_source("print y;");
    assert_eq!(
        result,
        Err(RuntimeError::UndefinedVariable { name: "y".to_string() }),
    );
    assert_eq!(output.len(), 0);
}

#[test]
fn assignment_updates_the_nearest_enclosing_binding() {
    let (output, result) = run_source("var x = 1; { x = 2; } print x;");
    assert!(result.is_ok());
    assert_eq!(output, vec!["2".to_string()]);
}

#[test]
fn arithmetic_prints_exact_values() {
    let (output, result) = run_source("print 1 + 2; print 10 / 4; print 1 / 3; print 2 * 3 - 1;");
    assert!(result.is_ok());
    assert_eq!(output, vec!["3", "2.5", "1/3", "5"]);
}

#[test]
fn string_concatenation() {
    let (output, result) = run_source("print \"con\" + \"cat\";");
    assert!(result.is_ok());
    assert_eq!(output, vec!["concat"]);
}

#[test]
fn equality_is_structural_and_never_fails() {
    let (output, result) = run_source(
        "print 1 == 1; print 1 == 2; print 1 == \"1\"; print nil == nil; print 1 != \"1\";",
    );
    assert!(result.is_ok());
    assert_eq!(output, vec!["true", "false", "false", "true", "true"]);
}

#[test]
fn comparison_needs_numbers() {
    let (output, result) = run_source("print \"a\" < \"b\";");
    assert!(matches!(result, Err(RuntimeError::BinaryTypeMismatch { .. })));
    assert_eq!(output.len(), 0);
}

#[test]
fn mixed_addition_is_a_type_error() {
    let (_, result) = run_source("print 1 + \"a\";");
    assert!(matches!(result, Err(RuntimeError::BinaryTypeMismatch { .. })));
}

#[test]
fn unary_rules() {
    let (output, result) = run_source("print -3; print !0; print !1; print !\"\"; print !nil;");
    assert!(result.is_ok());
    assert_eq!(output, vec!["-3", "true", "false", "true", "true"]);
}

#[test]
fn unary_minus_needs_a_number() {
    let (_, result) = run_source("print -\"a\";");
    assert!(matches!(result, Err(RuntimeError::UnaryTypeMismatch { .. })));
}

#[test]
fn division_by_zero_is_a_runtime_error() {
    let (output, result) = run_source("print 1 / 0;");
    assert_eq!(result, Err(RuntimeError::DivisionByZero));
    assert_eq!(output.len(), 0);
}

#[test]
fn completed_statements_keep_their_effects() {
    let (output, result) = run_source("print 1; print z;");
    assert!(result.is_err());
    assert_eq!(output, vec!["1"]);
}

#[test]
fn var_redefinition_overwrites_in_place() {
    let (output, result) = run_source("var x = 1; var x = 2; print x;");
    assert!(result.is_ok());
    assert_eq!(output, vec!["2"]);
}

#[test]
fn grouping_is_transparent_in_evaluation() {
    let (output, result) = run_source("print (1 + 2) * 2; print ((5));");
    assert!(result.is_ok());
    assert_eq!(output, vec!["6", "5"]);
}

#[test]
fn scope_is_restored_after_a_failing_block() {
    let mut scanner = Scanner::new("var x = 1; { var x = 2; print q; }");
    let tokens = scanner.scan_tokens().unwrap();
    let mut parser = Parser::new(tokens);
    let stmts = parser.parse().unwrap();
    let mut interpreter = Interpreter::new();
    let result = interpreter.interpret(stmts);
    assert!(result.is_err());
    let mut scanner2 = Scanner::new("print x;");
    let tokens2 = scanner2.scan_tokens().unwrap();
    let mut parser2 = Parser::new(tokens2);
    let stmts2 = parser2.parse().unwrap();
    let again = interpreter.interpret(stmts2);
    assert!(again.is_ok());
    assert_eq!(interpreter.output, vec!["1"]);
}
