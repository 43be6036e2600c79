use rust_interpreter::{scan, Keyword, Literal, Scanner, TokenType};

#[test]
fn tokenize_print_number_semicolon() {
    let input = "print 123;";
    let tokens = scan(input);
    assert!(tokens.tokens.len() >= 4); // print, number, semicolon, EOF

    // Check individual tokens
    assert!(matches!(tokens.tokens[0].token_type, TokenType::Keyword(Keyword::Print)));
    assert!(matches!(tokens.tokens[1].token_type, TokenType::Number));
    assert!(matches!(tokens.tokens[2].token_type, TokenType::Semicolon));
    assert!(matches!(tokens.tokens.last().unwrap().token_type, TokenType::Eof));

    // Check the literal value of the number token
    match &tokens.tokens[1].literal {
        Some(Literal::Number(numeral)) => assert_eq!(numeral.parse::<f64>().unwrap(), 123.0),
        other => panic!("unexpected literal: {:?}", other),
    }
    assert_eq!(tokens.tokens[1].literal, Some(Literal::Number("123".to_string())));
}

#[test]
fn tokenize_string_literal() {
    let input = "\"hello\"\n\n";
    let tokens = scan(input);

    // Make sure it's just string, EOF
    assert_eq!(tokens.tokens.len(), 2);
    assert!(matches!(tokens.tokens[0].token_type, TokenType::String));
    assert!(matches!(tokens.tokens[1].token_type, TokenType::Eof));

    // Check the literal value
    assert_eq!(tokens.tokens[0].literal, Some(Literal::String("hello".to_string())));
}

fn kinds(input: &str) -> Vec<TokenType> {
    scan(input).tokens.iter().map(|t| t.token_type).collect()
}

#[test]
fn two_character_operators_win_over_their_prefixes() {
    assert_eq!(
        kinds("== != <= >= = ! < >"),
        vec![
            TokenType::EqualEqual,
            TokenType::BangEqual,
            TokenType::LessEqual,
            TokenType::GreaterEqual,
            TokenType::Equal,
            TokenType::Bang,
            TokenType::Less,
            TokenType::Greater,
            TokenType::Eof,
        ]
    );
    assert_eq!(kinds("==="), vec![TokenType::EqualEqual, TokenType::Equal, TokenType::Eof]);
}

#[test]
fn single_character_tokens() {
    assert_eq!(
        kinds("(){},.-+;*/"),
        vec![
            TokenType::LeftParen,
            TokenType::RightParen,
            TokenType::LeftBrace,
            TokenType::RightBrace,
            TokenType::Comma,
            TokenType::Dot,
            TokenType::Minus,
            TokenType::Plus,
            TokenType::Semicolon,
            TokenType::Star,
            TokenType::Slash,
            TokenType::Eof,
        ]
    );
}

#[test]
fn empty_source_is_just_end_of_input() {
    let tokens = scan("");
    assert_eq!(tokens.tokens.len(), 1);
    assert_eq!(tokens.tokens[0].token_type, TokenType::Eof);
    assert_eq!(tokens.tokens[0].lexeme, "");
    assert_eq!(tokens.tokens[0].line, 1);
}

#[test]
fn every_keyword_is_recognised() {
    let words = [
        ("and", Keyword::And),
        ("class", Keyword::Class),
        ("else", Keyword::Else),
        ("false", Keyword::False),
        ("for", Keyword::For),
        ("fun", Keyword::Fun),
        ("if", Keyword::If),
        ("nil", Keyword::Nil),
        ("or", Keyword::Or),
        ("print", Keyword::Print),
        ("return", Keyword::Return),
        ("super", Keyword::Super),
        ("this", Keyword::This),
        ("true", Keyword::True),
        ("var", Keyword::Var),
        ("while", Keyword::While),
    ];
    for (word, keyword) in words {
        assert_eq!(Keyword::from_str(word), Some(keyword));
        assert_eq!(kinds(word), vec![TokenType::Keyword(keyword), TokenType::Eof]);
    }
    assert_eq!(Keyword::from_str("And"), None);
    assert_eq!(Keyword::from_str("andy"), None);
    assert_eq!(Keyword::from_str(""), None);
}

#[test]
fn identifiers_take_letters_digits_and_underscores() {
    let tokens = scan("_under score9 printer é1");
    let lexemes: Vec<&str> = tokens.tokens.iter().map(|t| t.lexeme.as_str()).collect();
    assert_eq!(lexemes, vec!["_under", "score9", "printer", "é1", ""]);
    assert!(tokens.tokens[..4].iter().all(|t| t.token_type == TokenType::Identifier));
    assert!(tokens.tokens.iter().all(|t| t.literal.is_none()));
}

#[test]
fn numerals_hold_at_most_one_point_inside() {
    let tokens = scan("12.5 7. .5 1.2.3");
    let seen: Vec<(TokenType, &str)> =
        tokens.tokens.iter().map(|t| (t.token_type, t.lexeme.as_str())).collect();
    assert_eq!(
        seen,
        vec![
            (TokenType::Number, "12.5"),
            (TokenType::Number, "7"),
            (TokenType::Dot, "."),
            (TokenType::Dot, "."),
            (TokenType::Number, "5"),
            (TokenType::Number, "1.2"),
            (TokenType::Dot, "."),
            (TokenType::Number, "3"),
            (TokenType::Eof, ""),
        ]
    );
    assert_eq!(tokens.tokens[0].literal, Some(Literal::Number("12.5".to_string())));
}

#[test]
fn comments_run_to_the_end_of_the_line() {
    let tokens = scan("1 // two three\n4 / 5 //");
    let lexemes: Vec<&str> = tokens.tokens.iter().map(|t| t.lexeme.as_str()).collect();
    assert_eq!(lexemes, vec!["1", "4", "/", "5", ""]);
    assert_eq!(tokens.tokens[1].line, 2);
}

#[test]
fn newlines_count_lines_everywhere() {
    let tokens = scan("a\nb\n\n\"x\ny\" c");
    let lines: Vec<usize> = tokens.tokens.iter().map(|t| t.line).collect();
    assert_eq!(lines, vec![1, 2, 5, 5, 5]);
    assert_eq!(tokens.tokens[2].literal, Some(Literal::String("x\ny".to_string())));
}

#[test]
fn empty_string_literal() {
    let tokens = scan("\"\" \"a\"");
    assert_eq!(tokens.tokens.len(), 3);
    assert_eq!(tokens.tokens[0].lexeme, "\"\"");
    assert_eq!(tokens.tokens[0].literal, Some(Literal::String(String::new())));
    assert_eq!(tokens.tokens[1].literal, Some(Literal::String("a".to_string())));
}

#[test]
fn unexpected_characters_are_recorded_and_scanning_goes_on() {
    let mut scanner = Scanner::new("1 @ 2\n# 3");
    scanner.scan_tokens();
    assert!(scanner.had_error());
    let errors: Vec<String> = scanner.lexical_errors().iter().map(|e| e.to_string()).collect();
    assert_eq!(
        errors,
        vec![
            "[line 1] Error: Unexpected character: @".to_string(),
            "[line 2] Error: Unexpected character: #".to_string(),
        ]
    );
    let lexemes: Vec<&str> = scanner.tokens.tokens.iter().map(|t| t.lexeme.as_str()).collect();
    assert_eq!(lexemes, vec!["1", "2", "3", ""]);
}

#[test]
fn unterminated_string_is_an_error_and_yields_no_token() {
    let mut scanner = Scanner::new("print \"abc\ndef");
    scanner.scan_tokens();
    assert!(scanner.had_error());
    let errors: Vec<String> = scanner.lexical_errors().iter().map(|e| e.to_string()).collect();
    assert_eq!(errors, vec!["[line 2] Error: Unterminated string.".to_string()]);
    let kinds: Vec<TokenType> = scanner.tokens.tokens.iter().map(|t| t.token_type).collect();
    assert_eq!(kinds, vec![TokenType::Keyword(Keyword::Print), TokenType::Eof]);
}

#[test]
fn clean_source_has_no_error() {
    let mut scanner = Scanner::new("var a = 1;");
    scanner.scan_tokens();
    assert!(!scanner.had_error());
    assert!(scanner.lexical_errors().is_empty());
}

#[test]
fn token_kinds_are_shown_in_shouty_snake_case() {
    assert_eq!(TokenType::LeftBrace.to_string(), "LEFT_BRACE");
    assert_eq!(TokenType::GreaterEqual.to_string(), "GREATER_EQUAL");
    assert_eq!(TokenType::Eof.to_string(), "EOF");
    assert_eq!(TokenType::Keyword(Keyword::And).to_string(), "AND");
    assert_eq!(TokenType::Keyword(Keyword::While).to_string(), "WHILE");
}

#[test]
fn token_listing_shows_kind_lexeme_and_payload() {
    let tokens = scan("print 12 + 2.50 \"hi\";");
    assert_eq!(
        tokens.to_string(),
        "PRINT print null\nNUMBER 12 12.0\nPLUS + null\nNUMBER 2.50 2.50\nSTRING \"hi\" hi\nSEMICOLON ; null\nEOF  null\n"
    );
    assert_eq!(tokens.tokens[1].to_string(), "NUMBER 12 12.0");
}

#[test]
fn literal_payloads_as_text() {
    assert_eq!(Literal::Number("7".to_string()).to_string(), "7.0");
    assert_eq!(Literal::Number("7.25".to_string()).to_string(), "7.25");
    assert_eq!(Literal::String("a b".to_string()).to_string(), "a b");
    assert_eq!(Literal::Boolean(true).to_string(), "true");
    assert_eq!(Literal::Boolean(false).to_string(), "false");
    assert_eq!(Literal::Nil.to_string(), "nil");
}

#[test]
fn blanks_of_every_kind_are_skipped() {
    let tokens = scan(" \t\r\n\u{a0}\u{2003}x\t;");
    let seen: Vec<(TokenType, &str, usize)> =
        tokens.tokens.iter().map(|t| (t.token_type, t.lexeme.as_str(), t.line)).collect();
    assert_eq!(
        seen,
        vec![
            (TokenType::Identifier, "x", 2),
            (TokenType::Semicolon, ";", 2),
            (TokenType::Eof, "", 2),
        ]
    );
}

#[test]
fn tokens_are_built_from_their_parts() {
    let token = rust_interpreter::Token::new(
        TokenType::String,
        "\"a\"".to_string(),
        Some(Literal::String("a".to_string())),
        3,
    );
    assert_eq!(token.token_type, TokenType::String);
    assert_eq!(token.lexeme, "\"a\"");
    assert_eq!(token.literal, Some(Literal::String("a".to_string())));
    assert_eq!(token.line, 3);
    assert_eq!(token.clone(), token);
    let mut array = rust_interpreter::TokenArray { tokens: Vec::new() };
    array.push(token);
    assert_eq!(array.tokens.len(), 1);
    assert_eq!(array.to_string(), "STRING \"a\" a\n");
}
