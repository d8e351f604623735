use matcha::{
    BinaryExpression, Environment, Expression, Interpreter, InterpreterError, Literal,
    LiteralExpression, NumberLiteral, Parser, RuntimeErrorKind, Scanner, Source, Statement, Token,
    TokenType, Value,
};

fn statements(text: &str) -> Vec<Statement> {
    let tokens = Scanner { source: Source::new(text) }.scan().unwrap();
    Parser::new(tokens).parse().unwrap()
}

fn run_in(environment: &mut Environment, text: &str) -> Result<Value, InterpreterError> {
    Interpreter::interpret(environment, &statements(text))
}

fn run(text: &str) -> Result<Value, InterpreterError> {
    run_in(&mut Environment::new(), text)
}

fn integer(v: i32) -> Value {
    Value::Literal(Literal::Number(NumberLiteral::Integer(v)))
}

fn float(v: f64) -> Value {
    Value::Literal(Literal::Number(NumberLiteral::Float(v.to_bits())))
}

fn boolean(b: bool) -> Value {
    Value::Literal(Literal::Boolean(b))
}

fn error_kind(text: &str) -> RuntimeErrorKind {
    run(text).unwrap_err().kind
}

#[test]
fn multiplication_binds_tighter_than_addition() {
    let literal = |v: i32, position: u64| {
        Box::new(Expression::Literal(LiteralExpression {
            value: Token {
                token_type: TokenType::Integer,
                lexeme: v.to_string(),
                line: 1,
                position,
                literal: Some(Literal::Number(NumberLiteral::Integer(v))),
            },
        }))
    };
    let operator = |token_type: TokenType, lexeme: &str, position: u64| Token {
        token_type,
        lexeme: lexeme.to_string(),
        line: 1,
        position,
        literal: None,
    };
    let expected = Expression::Binary(BinaryExpression {
        left: literal(1, 1),
        operator: operator(TokenType::Plus, "+", 3),
        right: Box::new(Expression::Binary(BinaryExpression {
            left: literal(2, 5),
            operator: operator(TokenType::Star, "*", 7),
            right: literal(3, 9),
        })),
    });
    assert_eq!(statements("1 + 2 * 3;"), vec![Statement::Expression(expected)]);
    assert_eq!(run("1 + 2 * 3;").unwrap(), integer(7));
}

#[test]
fn subtraction_is_left_associative() {
    assert_eq!(run("8 - 3 - 2;").unwrap(), integer(3));
}

#[test]
fn logical_and_short_circuits() {
    assert_eq!(run("false && (1/0 == 0);").unwrap(), boolean(false));
    assert_eq!(run("true || (1/0 == 0);").unwrap(), boolean(true));
    assert_eq!(error_kind("true && (1/0 == 0);"), RuntimeErrorKind::DivisionByZero);
    assert_eq!(run("true && false;").unwrap(), boolean(false));
    assert_eq!(run("false || true;").unwrap(), boolean(true));
}

#[test]
fn inner_declaration_shadows_without_overwriting() {
    let mut environment = Environment::new();
    assert_eq!(run_in(&mut environment, "x := 1; { x := 2; x; }").unwrap(), integer(2));
    assert_eq!(environment.lookup("x"), Some(integer(1)));
    assert_eq!(run("x := 1; { x := 2; } x;").unwrap(), integer(1));
}

#[test]
fn assignment_updates_and_never_declares() {
    assert_eq!(run("x := 1; x = 2; x;").unwrap(), integer(2));
    assert_eq!(error_kind("y = 1;"), RuntimeErrorKind::UndeclaredAssignment);
    assert_eq!(run("x := 1; { x = 3; } x;").unwrap(), integer(3));
}

#[test]
fn assignment_evaluates_to_empty() {
    assert_eq!(run("x := 1; x = 5;").unwrap(), Value::Empty);
}

#[test]
fn numbers_are_promoted_to_float() {
    assert_eq!(run("1 + 2.5;").unwrap(), float(3.5));
    assert_eq!(run("1 + 2;").unwrap(), integer(3));
    assert_eq!(run("2.5 * 2;").unwrap(), float(5.0));
    assert_eq!(run("7 / 2.0;").unwrap(), float(3.5));
    assert_eq!(run("0.5 - 1;").unwrap(), float(-0.5));
}

#[test]
fn equality_across_kinds_is_an_error() {
    assert_eq!(error_kind("1 == \"1\";"), RuntimeErrorKind::IncomparableKinds);
    assert_eq!(error_kind("true != 1;"), RuntimeErrorKind::IncomparableKinds);
    assert_eq!(run("\"a\" == \"a\";").unwrap(), boolean(true));
    assert_eq!(run("1 == 1.0;").unwrap(), boolean(true));
    assert_eq!(run("true != false;").unwrap(), boolean(true));
}

#[test]
fn comparisons_ignore_the_number_kind() {
    assert_eq!(run("1 < 2.5;").unwrap(), boolean(true));
    assert_eq!(run("3 >= 3;").unwrap(), boolean(true));
    assert_eq!(run("2.0 > 3;").unwrap(), boolean(false));
    assert_eq!(run("4 <= 3.5;").unwrap(), boolean(false));
    assert_eq!(error_kind("1 < true;"), RuntimeErrorKind::NotANumber);
}

#[test]
fn integer_errors_are_reported() {
    assert_eq!(error_kind("1 / 0;"), RuntimeErrorKind::DivisionByZero);
    assert_eq!(error_kind("2147483647 + 1;"), RuntimeErrorKind::Overflow);
    assert_eq!(run("7 / -2;").unwrap(), integer(-3));
    assert_eq!(run("1.0 / 0;").unwrap(), float(f64::INFINITY));
}

#[test]
fn unary_operators() {
    assert_eq!(run("-5;").unwrap(), integer(-5));
    assert_eq!(run("--5;").unwrap(), integer(5));
    assert_eq!(run("-2.5;").unwrap(), float(-2.5));
    assert_eq!(run("!true;").unwrap(), boolean(false));
    assert_eq!(error_kind("-true;"), RuntimeErrorKind::NotANumber);
    assert_eq!(error_kind("!1;"), RuntimeErrorKind::NotABoolean);
}

#[test]
fn variables_must_be_declared_once() {
    assert_eq!(error_kind("x;"), RuntimeErrorKind::UndefinedVariable);
    assert_eq!(error_kind("x := 1; x := 2;"), RuntimeErrorKind::Redeclaration);
    assert_eq!(run("x := 1; { x := 2; }").unwrap(), Value::Empty);
    let error = run("x := 1;\n  x := 2;").unwrap_err();
    assert_eq!((error.token.line, error.token.position), (2, 3));
}

#[test]
fn conditionals_choose_a_branch() {
    assert_eq!(run("if 1 < 2 { 10; } else { 20; }").unwrap(), integer(10));
    assert_eq!(run("if 1 > 2 { 10; } else { 20; }").unwrap(), integer(20));
    assert_eq!(run("if false { 10; }").unwrap(), Value::Empty);
    assert_eq!(error_kind("if 1 { 10; }"), RuntimeErrorKind::NonBooleanCondition);
}

#[test]
fn loops_run_until_the_condition_fails() {
    assert_eq!(run("i := 0; while i < 5 { i = i + 1; } i;").unwrap(), integer(5));
    assert_eq!(
        run("i := 0; total := 0; for i < 4 { j := i; total = total + j; i = i + 1; } total;")
            .unwrap(),
        integer(6)
    );
    assert_eq!(error_kind("while 1 { }"), RuntimeErrorKind::NonBooleanCondition);
}

#[test]
fn the_last_statement_gives_the_value() {
    assert_eq!(run("").unwrap(), Value::Empty);
    assert_eq!(run("1; 2; 3;").unwrap(), integer(3));
    assert_eq!(run("x := \"text\"; x;").unwrap(), Value::Literal(Literal::String("text".to_string())));
}

#[test]
fn errors_carry_a_message() {
    let error = run("1 + true;").unwrap_err();
    assert_eq!(error.kind, RuntimeErrorKind::NotANumber);
    assert_eq!(error.message, "Expected a number");
    assert_eq!(error.token.lexeme, "+");
}

#[test]
fn the_right_operand_is_not_evaluated_when_the_left_decides() {
    let mut environment = Environment::new();
    assert_eq!(run_in(&mut environment, "x := 1; false && (x = 5);").unwrap(), boolean(false));
    assert_eq!(environment.lookup("x"), Some(integer(1)));
    assert_eq!(error_kind("x := 1; true && (x = 5);"), RuntimeErrorKind::EmptyValue);
}

#[test]
fn an_environment_carries_over_between_runs() {
    let mut environment = Environment::new();
    run_in(&mut environment, "count := 41;").unwrap();
    assert_eq!(run_in(&mut environment, "count = count + 1; count;").unwrap(), integer(42));
    assert_eq!(
        run_in(&mut environment, "count := 0;").unwrap_err().kind,
        RuntimeErrorKind::Redeclaration
    );
}

#[test]
fn runtime_messages_name_what_went_wrong() {
    let message = |text: &str| run(text).unwrap_err().message;
    assert_eq!(message("1 == \"1\";"), "Can't compare Integer with String");
    assert_eq!(message("true != 2.5;"), "Can't compare Boolean with Float");
    assert_eq!(message("if 1 { 2; }"), "Expected boolean condition");
    assert_eq!(message("x := 1; x = 2; while x = 3 { }"), "Expected boolean condition");
    assert_eq!(message("y;"), "Variable 'y' not found in the current scope");
    assert_eq!(message("y = 1;"), "Cannot assign a value to undeclared variable 'y'");
    assert_eq!(message("x := 1; x := 2;"), "Variable 'x' already declared in this scope");
    assert_eq!(error_kind("if 1 { 2; }"), RuntimeErrorKind::NonBooleanCondition);
}

#[test]
fn a_runtime_error_leaves_the_environment_as_it_stood() {
    let mut environment = Environment::new();
    assert!(run_in(&mut environment, "y = 1;").is_err());
    assert_eq!(environment.lookup("y"), None);
    let mut environment = Environment::new();
    assert!(run_in(&mut environment, "x := 1; y = 5; x = 2;").is_err());
    assert_eq!(environment.lookup("x"), Some(integer(1)));
    assert_eq!(environment.lookup("y"), None);
    let mut environment = Environment::new();
    assert!(run_in(&mut environment, "x := 1; x := 2;").is_err());
    assert_eq!(environment.lookup("x"), Some(integer(1)));
    let mut environment = Environment::new();
    assert!(run_in(&mut environment, "x := 1; { z := 2; x = 7; z = z / 0; }").is_err());
    assert_eq!(environment.lookup("x"), Some(integer(7)));
    assert_eq!(environment.lookup("z"), None);
}
