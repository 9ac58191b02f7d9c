use rlox::scanner::{is_alpha, tokenize, LexError, LiteralValue, Scanner, Token, TokenType};

fn kinds(tokens: &[Token]) -> Vec<TokenType> {
    tokens.iter().map(|t| t.token_type).collect()
}

#[test]
fn handle_one_char_tokens() {
    let source = "(( ))";
    let mut scanner = Scanner::new(source);
    let _ = scanner.scan_tokens();

    assert_eq!(scanner.tokens().len(), 5);
    assert_eq!(scanner.tokens()[0].token_type, TokenType::LeftParen);
    assert_eq!(scanner.tokens()[2].token_type, TokenType::RightParen);

    assert_eq!(scanner.tokens()[4].token_type, TokenType::EOF);
}

#[test]
fn handle_two_char_tokens() {
    let source = "! != == >=";
    let mut scanner = Scanner::new(source);
    let _ = scanner.scan_tokens();

    assert_eq!(scanner.tokens()[0].token_type, TokenType::Bang);

    assert_eq!(scanner.tokens()[1].token_type, TokenType::BangEqual);
}

#[test]
fn handle_string_literal() {
    let source = "\"ABC\" !";
    let mut scanner = Scanner::new(source);
    let _ = scanner.scan_tokens();

    assert_eq!(scanner.tokens()[0].token_type, TokenType::String);
    assert_eq!(scanner.tokens()[1].token_type, TokenType::Bang);
    assert_eq!(scanner.tokens()[2].token_type, TokenType::EOF);
    match scanner.tokens()[0].literal.as_ref().unwrap() {
        LiteralValue::StringValue(val) => assert_eq!(val, "ABC"),
        _ => panic!("Incorrect literal value"),
    }
}

#[test]
fn handle_string_literal_unterminated() {
    let source = r#""ABC"#;
    let mut scanner = Scanner::new(source);
    let result = scanner.scan_tokens();
    match result {
        Err(_) => (),
        _ => panic!("Should have failed"),
    }
}

#[test]
fn handle_string_literal_multiline() {
    let source = "\"ABC\nabc\"";
    let mut scanner = Scanner::new(source);
    let _ = scanner.scan_tokens();

    assert_eq!(scanner.tokens()[0].token_type, TokenType::String);
    assert_eq!(scanner.tokens()[1].token_type, TokenType::EOF);
    match scanner.tokens()[0].literal.as_ref().unwrap() {
        LiteralValue::StringValue(val) => assert_eq!(val, "ABC\nabc"),
        _ => panic!("Incorrect literal value"),
    }
}

#[test]
fn handle_number_literal_multiline() {
    let source = "12.3\n33.33\n1444.12";
    let mut scanner = Scanner::new(source);
    scanner.scan_tokens().unwrap();

    assert_eq!(scanner.tokens()[0].token_type, TokenType::Number);

    match &scanner.tokens()[0].literal {
        Some(LiteralValue::NumberValue(val)) => assert_eq!(val.parse::<f64>().unwrap(), 12.3),
        _ => panic!("Incorrect float value"),
    }
    match &scanner.tokens()[1].literal {
        Some(LiteralValue::NumberValue(val)) => assert_eq!(val.parse::<f64>().unwrap(), 33.33),
        _ => panic!("Incorrect float value"),
    }
    match &scanner.tokens()[2].literal {
        Some(LiteralValue::NumberValue(val)) => assert_eq!(val.parse::<f64>().unwrap(), 1444.12),
        _ => panic!("Incorrect float value"),
    }
}

#[test]
fn handle_identifiers() {
    let source = "var verm_at = 23.3";
    let mut scanner = Scanner::new(source);
    scanner.scan_tokens().unwrap();
    println!("\n{:?}\n", scanner.tokens());
    assert_eq!(scanner.tokens()[0].token_type, TokenType::VAR);
    assert_eq!(scanner.tokens()[1].token_type, TokenType::Identifier);
    assert_eq!(scanner.tokens()[2].token_type, TokenType::Equal);
    assert_eq!(scanner.tokens()[3].token_type, TokenType::Number);
}

#[test]
fn handle_reserved_keywords() {
    let source = "and or";
    let mut scanner = Scanner::new(source);
    scanner.scan_tokens().unwrap();

    assert_eq!(scanner.tokens()[0].token_type, TokenType::AND);
    assert_eq!(scanner.tokens()[1].token_type, TokenType::OR);
}

#[test]
fn tokens_of_signed_product() {
    let (tokens, errors) = tokenize("-123 * (45.67)");
    assert!(errors.is_empty());
    assert_eq!(
        kinds(&tokens),
        vec![
            TokenType::Minus,
            TokenType::Number,
            TokenType::Star,
            TokenType::LeftParen,
            TokenType::Number,
            TokenType::RightParen,
            TokenType::EOF
        ]
    );
    assert_eq!(tokens[1].lexeme, "123");
    assert_eq!(tokens[4].lexeme, "45.67");
    match &tokens[4].literal {
        Some(LiteralValue::NumberValue(v)) => assert_eq!(v.parse::<f64>().unwrap(), 45.67),
        _ => panic!("expected a number literal"),
    }
}

#[test]
fn unterminated_string_gives_one_error_and_no_token() {
    let (tokens, errors) = tokenize("\"abc");
    assert_eq!(errors, vec![LexError::UnterminatedString { line: 1 }]);
    assert_eq!(kinds(&tokens), vec![TokenType::EOF]);
    assert!(tokens.iter().all(|t| t.token_type != TokenType::String));
}

#[test]
fn string_with_newline_moves_following_line() {
    let (tokens, errors) = tokenize("\"ab\ncd\" x");
    assert!(errors.is_empty());
    assert_eq!(tokens[0].token_type, TokenType::String);
    assert_eq!(tokens[1].token_type, TokenType::Identifier);
    assert_eq!(tokens[1].line_number, 2);
    match &tokens[0].literal {
        Some(LiteralValue::StringValue(v)) => assert_eq!(v, "ab\ncd"),
        _ => panic!("expected a string literal"),
    }
}

#[test]
fn string_followed_by_end_of_input_on_next_line() {
    let (tokens, errors) = tokenize("\"ab\ncd\"");
    assert!(errors.is_empty());
    assert_eq!(tokens[1].token_type, TokenType::EOF);
    assert_eq!(tokens[1].line_number, 2);
}

#[test]
fn unrecognized_character_does_not_stop_scanning() {
    let (tokens, errors) = tokenize("1 @ 2");
    assert_eq!(
        errors,
        vec![LexError::UnrecognizedCharacter { character: '@', line: 1 }]
    );
    assert_eq!(kinds(&tokens), vec![TokenType::Number, TokenType::Number, TokenType::EOF]);
    assert_eq!(tokens[0].lexeme, "1");
    assert_eq!(tokens[1].lexeme, "2");
}

#[test]
fn scan_tokens_reports_every_error() {
    let mut scanner = Scanner::new("@\n# \"x");
    let result = scanner.scan_tokens();
    assert_eq!(
        result.unwrap_err(),
        vec![
            LexError::UnrecognizedCharacter { character: '@', line: 1 },
            LexError::UnrecognizedCharacter { character: '#', line: 2 },
            LexError::UnterminatedString { line: 2 }
        ]
    );
    assert_eq!(scanner.errors().len(), 3);
    assert_eq!(kinds(scanner.tokens()), vec![TokenType::EOF]);
}

#[test]
fn identifier_is_not_split_at_keyword_prefix() {
    let (tokens, errors) = tokenize("andy");
    assert!(errors.is_empty());
    assert_eq!(kinds(&tokens), vec![TokenType::Identifier, TokenType::EOF]);
    assert_eq!(tokens[0].lexeme, "andy");
}

#[test]
fn identifier_continues_with_digits() {
    let (tokens, errors) = tokenize("var1");
    assert!(errors.is_empty());
    assert_eq!(kinds(&tokens), vec![TokenType::Identifier, TokenType::EOF]);
    assert_eq!(tokens[0].lexeme, "var1");
}

#[test]
fn every_keyword_is_recognized() {
    let (tokens, errors) =
        tokenize("and or var class else false fun for if nil print return super this true while");
    assert!(errors.is_empty());
    assert_eq!(
        kinds(&tokens),
        vec![
            TokenType::AND,
            TokenType::OR,
            TokenType::VAR,
            TokenType::CLASS,
            TokenType::ELSE,
            TokenType::False,
            TokenType::FUN,
            TokenType::FOR,
            TokenType::IF,
            TokenType::Nil,
            TokenType::PRINT,
            TokenType::RETURN,
            TokenType::SUPER,
            TokenType::THIS,
            TokenType::True,
            TokenType::WHILE,
            TokenType::EOF
        ]
    );
}

#[test]
fn operators_use_maximal_munch() {
    let (tokens, _) = tokenize("!= ! == = <= < >= > {},.-+;/*");
    assert_eq!(
        kinds(&tokens),
        vec![
            TokenType::BangEqual,
            TokenType::Bang,
            TokenType::EqualEqual,
            TokenType::Equal,
            TokenType::LessEqual,
            TokenType::Less,
            TokenType::GreaterEqual,
            TokenType::Greater,
            TokenType::LeftBrace,
            TokenType::RightBrace,
            TokenType::Comma,
            TokenType::Dot,
            TokenType::Minus,
            TokenType::Plus,
            TokenType::Semicolon,
            TokenType::Slash,
            TokenType::Star,
            TokenType::EOF
        ]
    );
    assert_eq!(tokens[0].lexeme, "!=");
}

#[test]
fn comments_and_whitespace_are_skipped() {
    let (tokens, errors) = tokenize("1 // two\n\t\r3 //");
    assert!(errors.is_empty());
    assert_eq!(kinds(&tokens), vec![TokenType::Number, TokenType::Number, TokenType::EOF]);
    assert_eq!(tokens[1].lexeme, "3");
    assert_eq!(tokens[1].line_number, 2);
}

#[test]
fn trailing_dot_is_not_part_of_number() {
    let (tokens, _) = tokenize("12.");
    assert_eq!(kinds(&tokens), vec![TokenType::Number, TokenType::Dot, TokenType::EOF]);
    assert_eq!(tokens[0].lexeme, "12");
}

#[test]
fn empty_source_gives_end_of_input_only() {
    let (tokens, errors) = tokenize("");
    assert!(errors.is_empty());
    assert_eq!(kinds(&tokens), vec![TokenType::EOF]);
    assert_eq!(tokens[0].line_number, 1);
    assert_eq!(tokens[0].lexeme, "");
}

#[test]
fn non_ascii_character_is_one_error() {
    let (tokens, errors) = tokenize("é1");
    assert_eq!(
        errors,
        vec![LexError::UnrecognizedCharacter { character: 'é', line: 1 }]
    );
    assert_eq!(kinds(&tokens), vec![TokenType::Number, TokenType::EOF]);
}

#[test]
fn alpha_class() {
    assert!(is_alpha('a'));
    assert!(is_alpha('Z'));
    assert!(is_alpha('_'));
    assert!(!is_alpha('1'));
    assert!(!is_alpha('@'));
}

#[test]
fn token_text_shows_kind_lexeme_and_literal() {
    let t = Token::new(
        TokenType::Number,
        "12.5".to_string(),
        Some(LiteralValue::NumberValue("12.5".to_string())),
        3,
    );
    assert_eq!(t.to_string(), "Number 12.5 12.5");
    let p = Token::new(TokenType::LeftParen, "(".to_string(), None, 1);
    assert_eq!(p.to_string(), "LeftParen (");
    assert_eq!(TokenType::EOF.name(), "EOF");
}

#[test]
fn unterminated_string_over_lines() {
    let (tokens, errors) = tokenize("\"ab\ncd");
    assert_eq!(errors, vec![LexError::UnterminatedString { line: 1 }]);
    assert_eq!(kinds(&tokens), vec![TokenType::EOF]);
    assert_eq!(tokens[0].line_number, 2);
}

#[test]
fn words_are_single_tokens() {
    let (tokens, errors) = tokenize("_under9 class classy");
    assert!(errors.is_empty());
    assert_eq!(
        kinds(&tokens),
        vec![TokenType::Identifier, TokenType::CLASS, TokenType::Identifier, TokenType::EOF]
    );
    assert_eq!(tokens[0].lexeme, "_under9");
    assert_eq!(tokens[2].lexeme, "classy");
}

#[test]
fn string_with_two_newlines_moves_two_lines() {
    let (tokens, errors) = tokenize("\"a\n\nb\" 1");
    assert!(errors.is_empty());
    assert_eq!(tokens[0].line_number, 3);
    assert_eq!(tokens[1].line_number, 3);
    assert_eq!(tokens[0].lexeme, "\"a\n\nb\"");
}
