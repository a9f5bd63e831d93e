use fnky::number::NumVal;
use fnky::scanner::{
    get_keywords_hashmap, is_alpha, is_alpha_numeric, is_digit, LexErrorKind, LiteralValue,
    Scanner, Token, TokenType,
};

#[test]
fn handle_one_char_tokens() {
    let source = "((  ))";
    let mut scanner = Scanner::new(source);
    let tokens = scanner.scan_tokens().expect("scan should succeed");
    assert_eq!(tokens.len(), 5);
    assert_eq!(tokens[0].token_type, TokenType::LEFT_PAREN);
    assert_eq!(tokens[1].token_type, TokenType::LEFT_PAREN);
    assert_eq!(tokens[2].token_type, TokenType::RIGHT_PAREN);
    assert_eq!(tokens[3].token_type, TokenType::RIGHT_PAREN);
    assert_eq!(tokens[4].token_type, TokenType::EoF);
}

#[test]
fn handle_two_char_tokens() {
    let source = "! != == >=";
    let mut scanner = Scanner::new(source);
    let tokens = scanner.scan_tokens().expect("scan should succeed");
    assert_eq!(tokens.len(), 5);
    assert_eq!(tokens[0].token_type, TokenType::BANG);
    assert_eq!(tokens[1].token_type, TokenType::BANG_EQUAL);
    assert_eq!(tokens[2].token_type, TokenType::EQUAL_EQUAL);
    assert_eq!(tokens[3].token_type, TokenType::GREATER_EQUAL);
    assert_eq!(tokens[4].token_type, TokenType::EoF);
}

#[test]
fn handle_string_lit() {
    let source = "\"ABC\"";
    let mut scanner = Scanner::new(source);
    let tokens = scanner.scan_tokens().expect("Failed to scan tokens");
    assert_eq!(tokens.len(), 2);
    assert_eq!(tokens[0].token_type, TokenType::STRING);
    match tokens[0].literal.as_ref().unwrap() {
        LiteralValue::StringValue(val) => assert_eq!(val, "ABC"),
        _ => panic!("Incorrect literal type"),
    }
}

#[test]
fn handle_string_lit_unterminated() {
    let source = "\"ABC";
    let mut scanner = Scanner::new(source);
    let result = scanner.scan_tokens();
    match result {
        Err(_) => (),
        _ => panic!("should have failed"),
    }
}

#[test]
fn handle_string_lit_multiline() {
    let source = "\"ABC\ndef\"";
    let mut scanner = Scanner::new(source);
    let tokens = scanner.scan_tokens().expect("Failed to scan tokens");
    assert_eq!(tokens.len(), 2);
    assert_eq!(tokens[0].token_type, TokenType::STRING);
    match tokens[0].literal.as_ref().unwrap() {
        LiteralValue::StringValue(val) => assert_eq!(val, "ABC\ndef"),
        _ => panic!("Incorrect literal type"),
    }
}

#[test]
fn number_literals() {
    let source = "123.123\n121.0\n5";
    let mut scanner = Scanner::new(source);
    let tokens = scanner.scan_tokens().unwrap();
    assert_eq!(tokens.len(), 4);
    for i in 0..3 {
        assert_eq!(tokens[i].token_type, TokenType::NUMBER);
    }
    match tokens[0].literal.as_ref().unwrap() {
        LiteralValue::NumberValue(val) => assert_eq!(*val, NumVal { num: 123123, den: 1000 }),
        _ => panic!("Incorrect literal type"),
    }
    match tokens[1].literal.as_ref().unwrap() {
        LiteralValue::NumberValue(val) => assert_eq!(*val, NumVal { num: 121, den: 1 }),
        _ => panic!("Incorrect literal type"),
    }
    match tokens[2].literal.as_ref().unwrap() {
        LiteralValue::NumberValue(val) => assert_eq!(*val, NumVal { num: 5, den: 1 }),
        _ => panic!("Incorrect literal type"),
    }
}

#[test]
fn get_identifier() {
    let source = "this_is_a_var = 12;";
    let mut scanner = Scanner::new(source);
    let tokens = scanner.scan_tokens().unwrap();
    assert_eq!(tokens.len(), 5);
    assert_eq!(tokens[0].token_type, TokenType::IDENTIFIER);
    assert_eq!(tokens[1].token_type, TokenType::EQUAL);
    assert_eq!(tokens[2].token_type, TokenType::NUMBER);
    assert_eq!(tokens[3].token_type, TokenType::SEMICOLON);
    assert_eq!(tokens[4].token_type, TokenType::EoF);
}

#[test]
fn get_keyword() {
    let source = "var this_is_a_var = 12; while true { print 3 };";
    let mut scanner = Scanner::new(source);
    let tokens = scanner.scan_tokens().unwrap();
    assert_eq!(tokens.len(), 13);
    assert_eq!(tokens[0].token_type, TokenType::VAR);
    assert_eq!(tokens[1].token_type, TokenType::IDENTIFIER);
    assert_eq!(tokens[2].token_type, TokenType::EQUAL);
    assert_eq!(tokens[3].token_type, TokenType::NUMBER);
    assert_eq!(tokens[4].token_type, TokenType::SEMICOLON);
    assert_eq!(tokens[5].token_type, TokenType::WHILE);
    assert_eq!(tokens[6].token_type, TokenType::TRUE);
    assert_eq!(tokens[7].token_type, TokenType::LEFT_BRACE);
    assert_eq!(tokens[8].token_type, TokenType::PRINT);
    assert_eq!(tokens[9].token_type, TokenType::NUMBER);
    assert_eq!(tokens[10].token_type, TokenType::RIGHT_BRACE);
    assert_eq!(tokens[11].token_type, TokenType::SEMICOLON);
    assert_eq!(tokens[12].token_type, TokenType::EoF);
}

#[test]
fn unterminated_string_yields_error_and_no_value_tokens() {
    let mut scanner = Scanner::new("\"ABC");
    let (tokens, errors) = scanner.scan();
    assert_eq!(errors.len(), 1);
    assert_eq!(errors[0].kind, LexErrorKind::UnterminatedString);
    assert_eq!(tokens.len(), 1);
    assert_eq!(tokens[0].token_type, TokenType::EoF);
}

#[test]
fn comments_and_whitespace_yield_no_tokens() {
    let mut scanner = Scanner::new("// a comment\n\t \r");
    let (tokens, errors) = scanner.scan();
    assert_eq!(errors.len(), 0);
    assert_eq!(tokens.len(), 1);
    assert_eq!(tokens[0].token_type, TokenType::EoF);
    assert_eq!(tokens[0].line_number, 2);
}

#[test]
fn unrecognized_char_reports_and_continues() {
    let mut scanner = Scanner::new("#1");
    let (tokens, errors) = scanner.scan();
    assert_eq!(errors.len(), 1);
    assert_eq!(errors[0].kind, LexErrorKind::UnrecognizedChar('#'));
    assert_eq!(errors[0].line, 1);
    assert_eq!(tokens.len(), 2);
    assert_eq!(tokens[0].token_type, TokenType::NUMBER);
}

#[test]
fn string_line_numbers_advance() {
    let mut scanner = Scanner::new("\"a\nb\" 1");
    let (tokens, errors) = scanner.scan();
    assert_eq!(errors.len(), 0);
    assert_eq!(tokens[0].token_type, TokenType::STRING);
    assert_eq!(tokens[0].line_number, 2);
    assert_eq!(tokens[1].line_number, 2);
}

#[test]
fn oversized_number_is_a_diagnostic() {
    let mut scanner = Scanner::new("99999999999999999999999999");
    let (tokens, errors) = scanner.scan();
    assert_eq!(errors.len(), 1);
    assert_eq!(errors[0].kind, LexErrorKind::NumberTooLarge);
    assert_eq!(tokens.len(), 1);
}

#[test]
fn char_classes() {
    assert!(is_digit('0') && is_digit('9') && !is_digit('a'));
    assert!(is_alpha('a') && is_alpha('Z') && is_alpha('_') && !is_alpha('1'));
    assert!(is_alpha_numeric('a') && is_alpha_numeric('7') && !is_alpha_numeric('-'));
}

#[test]
fn keyword_table_is_complete() {
    let table = get_keywords_hashmap();
    assert_eq!(table.len(), 16);
    assert_eq!(table[0].0, "and");
    assert_eq!(table[0].1, TokenType::AND);
    assert_eq!(table[15].0, "while");
    assert_eq!(table[15].1, TokenType::WHILE);
}

#[test]
fn token_to_string_shows_kind_lexeme_literal() {
    let t = Token::new(
        TokenType::NUMBER,
        String::from("12"),
        Some(LiteralValue::NumberValue(NumVal { num: 12, den: 1 })),
        1,
    );
    assert_eq!(t.to_string(), "NUMBER 12 12");
    let t2 = Token::new(TokenType::LEFT_PAREN, String::from("("), None, 1);
    assert_eq!(t2.to_string(), "LEFT_PAREN ( None");
}
