use rlox::expr::{unwrap_as_string, Expr, LiteralValue};
use rlox::parser::{parse, ParseError, Parser};
use rlox::scanner::{tokenize, LiteralValue as TokenLiteral, Token, TokenType};

fn printed(source: &str) -> String {
    let (tokens, errors) = tokenize(source);
    assert!(errors.is_empty());
    match parse(tokens) {
        Ok(e) => e.to_string(),
        Err(e) => panic!("unexpected parse error {:?}", e),
    }
}

fn parse_error(source: &str) -> ParseError {
    let (tokens, _) = tokenize(source);
    match parse(tokens) {
        Ok(e) => panic!("unexpected success {}", e.to_string()),
        Err(e) => e,
    }
}

#[test]
fn pretty_print_ast() {
    let minus_token = Token {
        token_type: TokenType::Minus,
        lexeme: "-".to_string(),
        literal: None,
        line_number: 1,
    };

    let onetwothree = Expr::Literal { value: LiteralValue::Number("123".to_string()) };

    let group = Expr::Grouping {
        expression: Box::from(Expr::Literal { value: LiteralValue::Number("45.67".to_string()) }),
    };
    let multi = Token {
        token_type: TokenType::Star,
        lexeme: "*".to_string(),
        literal: None,
        line_number: 1,
    };
    let ast = Expr::Binary {
        left: Box::from(Expr::Unary { operator: minus_token, right: Box::from(onetwothree) }),
        operator: multi,
        right: Box::from(group),
    };
    let res = ast.to_string();
    assert_eq!(res, "(* (- 123) (group 45.67))");
}

#[test]
fn signed_product_prints_canonically() {
    assert_eq!(printed("-123 * (45.67)"), "(* (- 123) (group 45.67))");
}

#[test]
fn subtraction_is_left_associative() {
    assert_eq!(printed("1 - 2 - 3"), "(- (- 1 2) 3)");
}

#[test]
fn nested_unary_terminates() {
    assert_eq!(printed("- - 1"), "(- (- 1))");
    assert_eq!(printed("!!true"), "(! (! true))");
}

#[test]
fn product_binds_tighter_than_sum() {
    assert_eq!(printed("1 + 2 * 3"), "(+ 1 (* 2 3))");
    assert_ne!(printed("1 + 2 * 3"), "(* (+ 1 2) 3)");
}

#[test]
fn all_levels_in_order() {
    assert_eq!(
        printed("1 == 2 < 3 + 4 / 5"),
        "(== 1 (< 2 (+ 3 (/ 4 5))))"
    );
    assert_eq!(printed("1 != 2 >= 3"), "(!= 1 (>= 2 3))");
    assert_eq!(printed("6 / 3 * 2"), "(* (/ 6 3) 2)");
}

#[test]
fn literals_print_canonically() {
    assert_eq!(printed("\"hi there\""), "hi there");
    assert_eq!(printed("true"), "true");
    assert_eq!(printed("false"), "false");
    assert_eq!(printed("nil"), "nil");
    assert_eq!(printed("007.50"), "7.5");
    assert_eq!(printed("3.0"), "3");
    assert_eq!(printed("0.25"), "0.25");
    assert_eq!(printed("0"), "0");
}

#[test]
fn missing_close_paren_expects_token() {
    match parse_error("(1 + 2") {
        ParseError::ExpectedToken { expected, found, line } => {
            assert_eq!(expected, TokenType::RightParen);
            assert_eq!(found.token_type, TokenType::EOF);
            assert_eq!(line, 1);
        },
        e => panic!("wrong error {:?}", e),
    }
}

#[test]
fn missing_operand_expects_expression() {
    match parse_error("1 +") {
        ParseError::ExpectedExpression { found, line } => {
            assert_eq!(found.token_type, TokenType::EOF);
            assert_eq!(line, 1);
        },
        e => panic!("wrong error {:?}", e),
    }
    match parse_error("\n\nfoo") {
        ParseError::ExpectedExpression { found, line } => {
            assert_eq!(found.token_type, TokenType::Identifier);
            assert_eq!(found.lexeme, "foo");
            assert_eq!(line, 3);
        },
        e => panic!("wrong error {:?}", e),
    }
}

#[test]
fn empty_input_expects_expression() {
    assert!(matches!(parse_error(""), ParseError::ExpectedExpression { .. }));
}

#[test]
fn parser_stops_before_trailing_tokens() {
    let (tokens, _) = tokenize("1 2");
    let mut parser = Parser::new(tokens);
    let e = parser.parse().unwrap();
    assert_eq!(e.to_string(), "1");
    let rest = parser.parse().unwrap();
    assert_eq!(rest.to_string(), "2");
    assert!(matches!(parser.parse(), Err(ParseError::ExpectedExpression { .. })));
}

#[test]
fn literal_from_token() {
    let t = Token::new(
        TokenType::String,
        "\"x\"".to_string(),
        Some(TokenLiteral::StringValue("x".to_string())),
        1,
    );
    assert_eq!(LiteralValue::from_token(t).to_string(), "x");
    let n = Token::new(
        TokenType::Number,
        "10.10".to_string(),
        Some(TokenLiteral::NumberValue("10.10".to_string())),
        1,
    );
    assert_eq!(LiteralValue::from_token(n).to_string(), "10.1");
    assert_eq!(
        unwrap_as_string(Some(TokenLiteral::StringValue("abc".to_string()))),
        "abc"
    );
}

#[test]
fn mixed_term_operators_fold_left() {
    assert_eq!(printed("1 - 2 + 3"), "(+ (- 1 2) 3)");
    assert_eq!(printed("\"a\" + nil - true"), "(- (+ a nil) true)");
}

#[test]
fn mixed_prefix_operators_nest() {
    assert_eq!(printed("-!1"), "(- (! 1))");
    assert_eq!(printed("!-(2)"), "(! (- (group 2)))");
}

#[test]
fn division_binds_tighter_than_subtraction() {
    assert_eq!(printed("8 - 4 / 2"), "(- 8 (/ 4 2))");
}

#[test]
fn unclosed_group_with_subtraction() {
    match parse_error("(true - 2") {
        ParseError::ExpectedToken { expected, found, .. } => {
            assert_eq!(expected, TokenType::RightParen);
            assert_eq!(found.token_type, TokenType::EOF);
        },
        e => panic!("wrong error {:?}", e),
    }
}

#[test]
fn wrong_closing_token_is_reported() {
    match parse_error("(1 2)") {
        ParseError::ExpectedToken { expected, found, line } => {
            assert_eq!(expected, TokenType::RightParen);
            assert_eq!(found.token_type, TokenType::Number);
            assert_eq!(found.lexeme, "2");
            assert_eq!(line, 1);
        },
        e => panic!("wrong error {:?}", e),
    }
}

#[test]
fn printed_form_is_not_source() {
    let text = printed("1 - 2");
    assert_eq!(text, "(- 1 2)");
    assert!(matches!(parse_error(&text), ParseError::ExpectedToken { .. }));
}
