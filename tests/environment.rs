use matcha::{
    Environment, Literal, NumberLiteral, RuntimeErrorKind, ScannerError, ScannerErrorType, Token,
    TokenType, Value,
};

fn integer(v: i32) -> Value {
    Value::Literal(Literal::Number(NumberLiteral::Integer(v)))
}

#[test]
fn scopes_shadow_and_close() {
    let mut environment = Environment::new();
    environment.declare("x".to_string(), integer(1));
    assert!(environment.declares_here("x"));
    environment.enter_scope();
    assert!(!environment.declares_here("x"));
    assert_eq!(environment.lookup("x"), Some(integer(1)));
    environment.declare("x".to_string(), integer(2));
    assert_eq!(environment.lookup("x"), Some(integer(2)));
    assert!(environment.assign("x", integer(3)));
    environment.exit_scope();
    assert_eq!(environment.lookup("x"), Some(integer(1)));
    assert!(!environment.assign("y", integer(4)));
    assert_eq!(environment.lookup("y"), None);
}

#[test]
fn assignment_reaches_the_declaring_scope() {
    let mut environment = Environment::new();
    environment.declare("total".to_string(), integer(0));
    environment.enter_scope();
    environment.enter_scope();
    assert!(environment.assign("total", integer(9)));
    environment.exit_scope();
    environment.exit_scope();
    assert_eq!(environment.lookup("total"), Some(integer(9)));
}

#[test]
fn literal_kinds_have_names() {
    assert_eq!(Literal::String("a".to_string()).get_type(), "String");
    assert_eq!(Literal::Number(NumberLiteral::Float(0)).get_type(), "Float");
    assert_eq!(Literal::Number(NumberLiteral::Integer(0)).get_type(), "Integer");
    assert_eq!(Literal::Boolean(true).get_type(), "Boolean");
}

#[test]
fn constructors_keep_their_fields() {
    let token = Token::new(TokenType::Plus, "+".to_string(), 3, 4, None);
    assert_eq!(token.lexeme, "+");
    assert_eq!((token.line, token.position), (3, 4));
    let copy = token.duplicate();
    assert_eq!(copy, token);
    let error = ScannerError::new(ScannerErrorType::UnterminatedString, 2, 7);
    assert_eq!(error.message, "Unterminated string");
    assert_eq!((error.line, error.position), (2, 7));
    assert_eq!(ScannerError::new(ScannerErrorType::InvalidNumber, 1, 1).message, "Invalid number");
}

#[test]
fn number_operations() {
    let i = |v: i32| NumberLiteral::Integer(v);
    let f = |v: f64| NumberLiteral::Float(v.to_bits());
    assert_eq!(NumberLiteral::arithmetic(TokenType::Plus, i(2), f(0.25)), Ok(f(2.25)));
    assert_eq!(NumberLiteral::arithmetic(TokenType::Slash, i(-7), i(2)), Ok(i(-3)));
    assert_eq!(
        NumberLiteral::arithmetic(TokenType::Slash, i(i32::MIN), i(-1)),
        Err(RuntimeErrorKind::Overflow)
    );
    assert_eq!(NumberLiteral::arithmetic(TokenType::Star, f(1.5), f(2.0)), Ok(f(3.0)));
    assert!(NumberLiteral::compare(TokenType::Less, f(0.5), i(1)));
    assert!(!NumberLiteral::compare(TokenType::Less, f(f64::NAN), i(1)));
    assert!(NumberLiteral::equals(i(2), f(2.0)));
    assert!(!NumberLiteral::equals(f(f64::NAN), f(f64::NAN)));
    assert!(NumberLiteral::equals(f(0.0), f(-0.0)));
    assert!(!NumberLiteral::compare(TokenType::Less, f(-0.0), f(0.0)));
    assert!(NumberLiteral::compare(TokenType::LessEqual, f(-0.0), i(0)));
    assert!(NumberLiteral::compare(TokenType::Less, f(-2.0), f(-1.5)));
    assert!(!NumberLiteral::compare(TokenType::Less, f(-1.5), f(-2.0)));
    assert!(NumberLiteral::compare(TokenType::Less, i(-3), f(2.0)));
    assert!(NumberLiteral::compare(TokenType::Greater, f(f64::INFINITY), f(1e308)));
    assert!(NumberLiteral::compare(TokenType::Less, f(f64::NEG_INFINITY), i(-5)));
    assert!(!NumberLiteral::compare(TokenType::GreaterEqual, f(f64::NAN), f(f64::NAN)));
    assert_eq!(NumberLiteral::negate(f(1.5)), Ok(f(-1.5)));
    assert_eq!(NumberLiteral::negate(i(i32::MIN)), Err(RuntimeErrorKind::Overflow));
}
