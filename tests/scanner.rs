use matcha::{
    Literal, NumberLiteral, Parser, Scanner, ScannerError, ScannerErrorType, Source, Token,
    TokenType,
};

fn scan(text: &str) -> Result<Vec<Token>, ScannerError> {
    Scanner { source: Source::new(text) }.scan()
}

fn kinds(text: &str) -> Vec<TokenType> {
    scan(text).unwrap().into_iter().map(|t| t.token_type).collect()
}

#[test]
fn operators_take_two_characters_where_they_can() {
    assert_eq!(
        kinds("== != >= <= && || << >> := = ! > < & | : ^ ~"),
        vec![
            TokenType::DoubleEqual,
            TokenType::BangEqual,
            TokenType::GreaterEqual,
            TokenType::LessEqual,
            TokenType::And,
            TokenType::Or,
            TokenType::LeftShift,
            TokenType::RightShift,
            TokenType::VarDec,
            TokenType::Equal,
            TokenType::Bang,
            TokenType::Greater,
            TokenType::Less,
            TokenType::BitwiseAnd,
            TokenType::BitwiseOr,
            TokenType::Colon,
            TokenType::BitwiseXor,
            TokenType::BitwiseNot,
            TokenType::Eof
        ]
    );
}

#[test]
fn comments_and_blanks_are_skipped() {
    let tokens = scan("1 // a comment\n\t2 / 3").unwrap();
    let kinds: Vec<TokenType> = tokens.iter().map(|t| t.token_type).collect();
    assert_eq!(
        kinds,
        vec![TokenType::Integer, TokenType::Integer, TokenType::Slash, TokenType::Integer, TokenType::Eof]
    );
    assert_eq!((tokens[1].line, tokens[1].position), (2, 2));
    assert_eq!((tokens[4].line, tokens[4].position), (2, 7));
}

#[test]
fn keywords_and_identifiers() {
    let tokens = scan("while whiles true false if_ x1").unwrap();
    assert_eq!(tokens[0].token_type, TokenType::While);
    assert_eq!(tokens[0].literal, None);
    assert_eq!(tokens[1].token_type, TokenType::Identifier);
    assert_eq!(tokens[1].literal, Some(Literal::String("whiles".to_string())));
    assert_eq!(tokens[2].literal, Some(Literal::Boolean(true)));
    assert_eq!(tokens[3].literal, Some(Literal::Boolean(false)));
    assert_eq!(tokens[4].token_type, TokenType::Identifier);
    assert_eq!(tokens[5].lexeme, "x1");
}

#[test]
fn literals_keep_their_lexeme_and_value() {
    let tokens = scan("42 3.25 \"hi there\"").unwrap();
    assert_eq!(tokens[0].lexeme, "42");
    assert_eq!(tokens[0].literal, Some(Literal::Number(NumberLiteral::Integer(42))));
    assert_eq!(tokens[1].lexeme, "3.25");
    assert_eq!(tokens[1].literal, Some(Literal::Number(NumberLiteral::Float(3.25f64.to_bits()))));
    assert_eq!(tokens[2].lexeme, "\"hi there\"");
    assert_eq!(tokens[2].literal, Some(Literal::String("hi there".to_string())));
    for token in &tokens[..3] {
        let again = scan(&token.lexeme).unwrap();
        assert_eq!(again.len(), 2);
        assert_eq!(again[0].literal, token.literal);
    }
}

#[test]
fn strings_may_span_lines() {
    let tokens = scan("\"a\nb\" x").unwrap();
    assert_eq!(tokens[0].literal, Some(Literal::String("a\nb".to_string())));
    assert_eq!((tokens[1].line, tokens[1].position), (2, 4));
}

#[test]
fn lexical_errors_stop_the_scan() {
    let unknown = scan("1 + @").unwrap_err();
    assert_eq!(unknown.error_type, ScannerErrorType::UnknownToken);
    assert_eq!((unknown.line, unknown.position), (1, 5));
    assert_eq!(unknown.message, "Unknown token");
    let unterminated = scan("x := \"abc").unwrap_err();
    assert_eq!(unterminated.error_type, ScannerErrorType::UnterminatedString);
    assert_eq!((unterminated.line, unterminated.position), (1, 6));
    assert_eq!(unterminated.message, "Unterminated string");
    let dot = scan("12.;").unwrap_err();
    assert_eq!(dot.error_type, ScannerErrorType::InvalidNumber);
    assert_eq!(dot.position, 3);
    assert_eq!(dot.message, "Invalid number");
    let big = scan("2147483648").unwrap_err();
    assert_eq!(big.error_type, ScannerErrorType::InvalidNumber);
    assert_eq!(big.message, "Invalid number");
    let first = scan("1 @ $;").unwrap_err();
    assert_eq!((first.message, first.line, first.position), ("Unknown token", 1, 3));
    assert_eq!(scan("2147483647").unwrap()[0].literal, Some(Literal::Number(NumberLiteral::Integer(i32::MAX))));
}

#[test]
fn an_empty_text_has_only_the_end() {
    let tokens = scan("").unwrap();
    assert_eq!(tokens.len(), 1);
    assert_eq!(tokens[0].token_type, TokenType::Eof);
    assert_eq!((tokens[0].line, tokens[0].position), (1, 1));
}

#[test]
fn the_cursor_hands_out_lexemes() {
    let mut source = Source::new("ab c");
    assert_eq!(source.peek(), Some('a'));
    assert_eq!(source.next(), Some('a'));
    assert_eq!(source.next(), Some('b'));
    assert_eq!(source.pop_lexeme(), "ab");
    assert_eq!(source.next(), Some(' '));
    assert_eq!(source.next(), Some('c'));
    assert_eq!(source.pop_lexeme(), " c");
    assert_eq!(source.next(), None);
    assert_eq!(source.peek(), None);
}

#[test]
fn syntax_errors_are_collected_after_recovery() {
    let tokens = scan("1 + ;\n2 * );\n3;").unwrap();
    let errors = Parser::new(tokens).parse().unwrap_err();
    assert_eq!(errors.len(), 2);
    assert_eq!((errors[0].token.line, errors[0].token.position), (1, 5));
    assert_eq!((errors[1].token.line, errors[1].token.position), (2, 5));
    assert_eq!(errors[0].message, "Unexpected token");
}

#[test]
fn parse_errors_name_what_was_expected() {
    let message = |text: &str| {
        let tokens = scan(text).unwrap();
        Parser::new(tokens).parse().unwrap_err()[0].message.clone()
    };
    assert_eq!(message("1 + 2"), "Expected ';'");
    assert_eq!(message("(1 + 2;"), "Expected ')' after expression");
    assert_eq!(message("1 = 2;"), "Invalid assignment target");
    assert_eq!(message("if true 1;"), "Expected '{' after condition");
    assert_eq!(message("{ 1;"), "Expected '}' after block");
}
