use fnky::number::NumVal;
use fnky::parser::{Parser, ParseErrorKind};
use fnky::scanner::{LiteralValue, Scanner, Token, TokenType};

fn num_token(text: &str, n: i64) -> Token {
    Token::new(
        TokenType::NUMBER,
        String::from(text),
        Some(LiteralValue::NumberValue(NumVal { num: n, den: 1 })),
        0,
    )
}

fn plain_token(tt: TokenType, text: &str) -> Token {
    Token::new(tt, String::from(text), None, 0)
}

#[test]
fn test_addition() {
    let tokens = vec![
        num_token("1", 1),
        plain_token(TokenType::PLUS, "+"),
        num_token("2", 2),
        plain_token(TokenType::SEMICOLON, ";"),
    ];
    let mut parser = Parser::new(tokens);
    let parsed_expr = parser.expression().unwrap();
    let string_expr = parsed_expr.to_string();
    assert_eq!(string_expr, "(+ 1 2)");
}

#[test]
fn test_comparison() {
    let tokens = vec![
        num_token("1", 1),
        plain_token(TokenType::GREATER, ">"),
        num_token("2", 2),
        plain_token(TokenType::SEMICOLON, ";"),
    ];
    let mut parser = Parser::new(tokens);
    let parsed_expr = parser.expression().unwrap();
    assert_eq!(parsed_expr.to_string(), "(> 1 2)");
}

#[test]
fn test_comparison2() {
    let source = "1 + 2 == 5 + 7";
    let mut scanner = Scanner::new(source);
    let tokens = scanner.scan_tokens().unwrap();
    let mut parser = Parser::new(tokens);
    let parsed_expr = parser.expression().unwrap();
    assert_eq!(parsed_expr.to_string(), "(== (+ 1 2) (+ 5 7))");
}

#[test]
fn test_eq_with_param() {
    let source = "1 == (2 + 2)";
    let mut scanner = Scanner::new(source);
    let tokens = scanner.scan_tokens().unwrap();
    let mut parser = Parser::new(tokens);
    let parsed_expr = parser.expression().unwrap();
    assert_eq!(parsed_expr.to_string(), "(== 1 (group (+ 2 2)))");
}

#[test]
fn unary_binds_tighter_than_factor() {
    let mut scanner = Scanner::new("-1 * 2");
    let tokens = scanner.scan_tokens().unwrap();
    let mut parser = Parser::new(tokens);
    let e = parser.expression().unwrap();
    assert_eq!(e.to_string(), "(* (- 1) 2)");
}

#[test]
fn assignment_parses_right_associative() {
    let mut scanner = Scanner::new("a = b = 1");
    let tokens = scanner.scan_tokens().unwrap();
    let mut parser = Parser::new(tokens);
    let e = parser.expression().unwrap();
    assert_eq!(e.to_string(), "(= a (= b 1))");
}

#[test]
fn invalid_assignment_target_is_a_diagnostic() {
    let mut scanner = Scanner::new("1 = 2;");
    let tokens = scanner.scan_tokens().unwrap();
    let mut parser = Parser::new(tokens);
    let errs = parser.parse().expect_err("should report a diagnostic");
    assert_eq!(errs.len(), 1);
    assert_eq!(errs[0].kind, ParseErrorKind::InvalidAssignmentTarget);
}

#[test]
fn missing_right_paren_is_a_diagnostic() {
    let mut scanner = Scanner::new("(1 + 2;");
    let tokens = scanner.scan_tokens().unwrap();
    let mut parser = Parser::new(tokens);
    let errs = parser.parse().expect_err("should report a diagnostic");
    assert_eq!(errs[0].kind, ParseErrorKind::ExpectedRightParen);
}

#[test]
fn missing_right_brace_is_a_diagnostic() {
    let mut scanner = Scanner::new("{ print 1;");
    let tokens = scanner.scan_tokens().unwrap();
    let mut parser = Parser::new(tokens);
    let errs = parser.parse().expect_err("should report a diagnostic");
    assert_eq!(errs[0].kind, ParseErrorKind::ExpectedRightBrace);
}

#[test]
fn synchronization_reports_independent_errors() {
    let mut scanner = Scanner::new("var ; print 1 print; var x = 2;");
    let tokens = scanner.scan_tokens().unwrap();
    let mut parser = Parser::new(tokens);
    let errs = parser.parse().expect_err("should report diagnostics");
    assert!(errs.len() >= 2);
    assert_eq!(errs[0].kind, ParseErrorKind::ExpectedVariableName);
}

#[test]
fn var_without_initializer_binds_nil() {
    let mut scanner = Scanner::new("var x;");
    let tokens = scanner.scan_tokens().unwrap();
    let mut parser = Parser::new(tokens);
    let stmts = parser.parse().unwrap();
    assert_eq!(stmts.len(), 1);
    assert_eq!(stmts[0].to_string(), "(var x)");
}

#[test]
fn statements_print_structurally() {
    let mut scanner = Scanner::new("print 1 + 2; { 3; }");
    let tokens = scanner.scan_tokens().unwrap();
    let mut parser = Parser::new(tokens);
    let stmts = parser.parse().unwrap();
    assert_eq!(stmts.len(), 2);
    assert_eq!(stmts[0].to_string(), "(print (+ 1 2))");
    assert_eq!(stmts[1].to_string(), "(block 3)");
}
