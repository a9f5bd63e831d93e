use fnky::expr::{Expr, LiteralValue};
use fnky::number::{NumError, NumVal};
use fnky::scanner::{Token, TokenType};

#[test]
fn pretty_print_ast() {
    let minus_token = Token {
        token_type: TokenType::MINUS,
        lexeme: "-".to_string(),
        literal: None,
        line_number: 0,
    };
    let onetwothree = Expr::Literal { value: LiteralValue::Number(NumVal { num: 123, den: 1 }) };
    let group = Expr::Grouping {
        expression: Box::new(
            Expr::Literal { value: LiteralValue::Number(NumVal { num: 4567, den: 100 }) },
        ),
    };
    let multi = Token {
        token_type: TokenType::STAR,
        lexeme: "*".to_string(),
        literal: None,
        line_number: 0,
    };
    let ast = Expr::Binary {
        left: Box::new(Expr::Unary { operator: minus_token, right: Box::new(onetwothree) }),
        operator: multi,
        right: Box::new(group),
    };
    let result = ast.to_string();
    assert_eq!(result, "(* (- 123) (group 45.67))");
}

#[test]
fn value_text_forms() {
    assert_eq!(LiteralValue::Number(NumVal { num: 121, den: 1 }).to_string(), "121");
    assert_eq!(LiteralValue::Number(NumVal { num: -5, den: 2 }).to_string(), "-2.5");
    assert_eq!(LiteralValue::Number(NumVal { num: 1, den: 3 }).to_string(), "1/3");
    assert_eq!(LiteralValue::StringValue(String::from("hey")).to_string(), "hey");
    assert_eq!(LiteralValue::True.to_string(), "true");
    assert_eq!(LiteralValue::False.to_string(), "false");
    assert_eq!(LiteralValue::Nil.to_string(), "nil");
}

#[test]
fn type_names() {
    assert_eq!(LiteralValue::Number(NumVal { num: 0, den: 1 }).to_type(), "Number");
    assert_eq!(LiteralValue::StringValue(String::new()).to_type(), "String");
    assert_eq!(LiteralValue::True.to_type(), "Boolean");
    assert_eq!(LiteralValue::False.to_type(), "Boolean");
    assert_eq!(LiteralValue::Nil.to_type(), "nil");
}

#[test]
fn truthiness_rules() {
    assert!(LiteralValue::Nil.is_falsy());
    assert!(LiteralValue::False.is_falsy());
    assert!(!LiteralValue::True.is_falsy());
    assert!(LiteralValue::Number(NumVal { num: 0, den: 1 }).is_falsy());
    assert!(!LiteralValue::Number(NumVal { num: 2, den: 1 }).is_falsy());
    assert!(LiteralValue::StringValue(String::new()).is_falsy());
    assert!(!LiteralValue::StringValue(String::from("x")).is_falsy());
}

#[test]
fn from_token_reads_literals() {
    let t = Token::new(
        TokenType::NUMBER,
        String::from("7"),
        Some(fnky::scanner::LiteralValue::NumberValue(NumVal { num: 7, den: 1 })),
        1,
    );
    assert_eq!(LiteralValue::from_token(t), LiteralValue::Number(NumVal { num: 7, den: 1 }));
    let s = Token::new(
        TokenType::STRING,
        String::from("\"hi\""),
        Some(fnky::scanner::LiteralValue::StringValue(String::from("hi"))),
        1,
    );
    assert_eq!(LiteralValue::from_token(s), LiteralValue::StringValue(String::from("hi")));
    let tt = Token::new(TokenType::TRUE, String::from("true"), None, 1);
    assert_eq!(LiteralValue::from_token(tt), LiteralValue::True);
}

#[test]
fn from_bool_round_trip() {
    assert_eq!(LiteralValue::from_bool(true), LiteralValue::True);
    assert_eq!(LiteralValue::from_bool(false), LiteralValue::False);
}

#[test]
fn unwrap_literal_payloads() {
    let s = fnky::expr::unwrap_as_string(
        Some(fnky::scanner::LiteralValue::StringValue(String::from("abc"))),
    );
    assert_eq!(s, "abc");
    let n = fnky::expr::unwrap_as_number(
        Some(fnky::scanner::LiteralValue::NumberValue(NumVal { num: 3, den: 2 })),
    );
    assert_eq!(n, NumVal { num: 3, den: 2 });
}

#[test]
fn exact_rational_arithmetic() {
    let a = NumVal { num: 1, den: 3 };
    let b = NumVal { num: 1, den: 6 };
    assert_eq!(a.checked_add(&b), Ok(NumVal { num: 1, den: 2 }));
    assert_eq!(a.checked_sub(&b), Ok(NumVal { num: 1, den: 6 }));
    assert_eq!(a.checked_mul(&b), Ok(NumVal { num: 1, den: 18 }));
    assert_eq!(a.checked_div(&b), Ok(NumVal { num: 2, den: 1 }));
    let z = NumVal { num: 0, den: 1 };
    assert_eq!(a.checked_div(&z), Err(NumError::DivideByZero));
    let big = NumVal { num: i64::MAX, den: 1 };
    assert_eq!(big.checked_add(&big), Err(NumError::Overflow));
}

#[test]
fn rational_order_is_numeric() {
    let half = NumVal { num: 1, den: 2 };
    let third = NumVal { num: 1, den: 3 };
    assert!(third.lt(&half));
    assert!(third.le(&half));
    assert!(!half.lt(&third));
    assert!(half.eq_val(&NumVal { num: 2, den: 4 }));
}
