use matcha::{
    AssignmentExpression, VariableDeclaration, VariableExpression,
    BinaryExpression, Expression, GroupingExpression, Literal, LiteralExpression, NumberLiteral,
    Parser, Scanner, Source, Statement, Token, TokenType,
};

fn parse(text: &str) -> Vec<Statement> {
    let tokens = Scanner { source: Source::new(text) }.scan().unwrap();
    Parser::new(tokens).parse().unwrap()
}

fn integer(value: i32, lexeme: &str, line: u64, position: u64) -> Box<Expression> {
    Box::new(Expression::Literal(LiteralExpression {
        value: Token {
            token_type: TokenType::Integer,
            lexeme: lexeme.to_string(),
            line,
            position,
            literal: Some(Literal::Number(NumberLiteral::Integer(value))),
        },
    }))
}

fn op(token_type: TokenType, lexeme: &str, line: u64, position: u64) -> Token {
    Token { token_type, lexeme: lexeme.to_string(), line, position, literal: None }
}

fn bin(left: Box<Expression>, operator: Token, right: Box<Expression>) -> Box<Expression> {
    Box::new(Expression::Binary(BinaryExpression { left, operator, right }))
}

fn group(expression: Box<Expression>) -> Box<Expression> {
    Box::new(Expression::Grouping(GroupingExpression { expression }))
}

#[test]
fn parser_it_parses_simple_expressions() {
    assert_eq!(
        parse("1 + 1;"),
        vec![Statement::Expression(*bin(
            integer(1, "1", 1, 1),
            op(TokenType::Plus, "+", 1, 3),
            integer(1, "1", 1, 5)
        ))]
    );
}

#[test]
fn parser_it_parses_multiple_expressions() {
    assert_eq!(
        parse("1 + 1 + 5;"),
        vec![Statement::Expression(*bin(
            bin(integer(1, "1", 1, 1), op(TokenType::Plus, "+", 1, 3), integer(1, "1", 1, 5)),
            op(TokenType::Plus, "+", 1, 7),
            integer(5, "5", 1, 9)
        ))]
    );
}

#[test]
fn parser_it_respects_the_order_of_operations() {
    let expected = bin(
        bin(
            bin(integer(1, "1", 1, 1), op(TokenType::Star, "*", 1, 3), integer(2, "2", 1, 5)),
            op(TokenType::Plus, "+", 1, 7),
            bin(integer(3, "3", 1, 9), op(TokenType::Slash, "/", 1, 11), integer(4, "4", 1, 13)),
        ),
        op(TokenType::Minus, "-", 1, 15),
        bin(
            integer(5, "5", 1, 17),
            op(TokenType::Star, "*", 1, 19),
            group(bin(
                group(bin(
                    integer(6, "6", 1, 23),
                    op(TokenType::Minus, "-", 1, 25),
                    integer(7, "7", 1, 27),
                )),
                op(TokenType::Slash, "/", 1, 30),
                group(bin(
                    integer(8, "8", 1, 33),
                    op(TokenType::Plus, "+", 1, 35),
                    integer(9, "9", 1, 37),
                )),
            )),
        ),
    );
    assert_eq!(
        parse("1 * 2 + 3 / 4 - 5 * ((6 - 7) / (8 + 9));"),
        vec![Statement::Expression(*expected)]
    );
}

#[test]
fn parser_it_works_with_multiple_lines() {
    assert_eq!(
        parse("\n1 * 2;\n    3 / 4;\n5+6-2;"),
        vec![
            Statement::Expression(*bin(
                integer(1, "1", 2, 1),
                op(TokenType::Star, "*", 2, 3),
                integer(2, "2", 2, 5)
            )),
            Statement::Expression(*bin(
                integer(3, "3", 3, 5),
                op(TokenType::Slash, "/", 3, 7),
                integer(4, "4", 3, 9)
            )),
            Statement::Expression(*bin(
                bin(integer(5, "5", 4, 1), op(TokenType::Plus, "+", 4, 2), integer(6, "6", 4, 3)),
                op(TokenType::Minus, "-", 4, 4),
                integer(2, "2", 4, 5)
            )),
        ]
    );
}

fn ident(name: &str, line: u64, position: u64) -> Token {
    Token {
        token_type: TokenType::Identifier,
        lexeme: name.to_string(),
        line,
        position,
        literal: Some(Literal::String(name.to_string())),
    }
}

fn declaration(
    identifier: Token,
    type_annotation: Option<Token>,
    initializer: Box<Expression>,
) -> Statement {
    Statement::VariableDeclaration(VariableDeclaration {
        identifier,
        initializer: *initializer,
        type_annotation,
    })
}

fn variable(name: &str, line: u64, position: u64) -> Box<Expression> {
    Box::new(Expression::Variable(VariableExpression { value: ident(name, line, position) }))
}

fn assignment(name: Token, value: Box<Expression>) -> Statement {
    Statement::Expression(Expression::Assignment(AssignmentExpression { name, value }))
}

#[test]
fn it_parses_a_single_variable_declaration() {
    assert_eq!(
        parse("my_variable := 15;"),
        vec![declaration(ident("my_variable", 1, 1), None, integer(15, "15", 1, 16))]
    );
}

#[test]
fn it_parses_multiple_variable_declarations() {
    let text = "a_number := 1;\n                       string := \"abc\";\n                    ";
    let string = Box::new(Expression::Literal(LiteralExpression {
        value: Token {
            token_type: TokenType::String,
            lexeme: "\"abc\"".to_string(),
            line: 2,
            position: 34,
            literal: Some(Literal::String("abc".to_string())),
        },
    }));
    assert_eq!(
        parse(text),
        vec![
            declaration(ident("a_number", 1, 1), None, integer(1, "1", 1, 13)),
            declaration(ident("string", 2, 24), None, string),
        ]
    );
}

#[test]
fn it_parses_a_declaration_with_an_explicit_type() {
    assert_eq!(
        parse("my_variable : i32 = 15;"),
        vec![declaration(
            ident("my_variable", 1, 1),
            Some(ident("i32", 1, 15)),
            integer(15, "15", 1, 21)
        )]
    );
}

#[test]
fn it_parses_many_declarations_with_mixed_typing() {
    let text = "var1 : i32 = 1; var2:a_type=2;\nvar3 := 16;\nvar_4: u64 = var1;\nvar_5 :u =\n    var_4;";
    assert_eq!(
        parse(text),
        vec![
            declaration(ident("var1", 1, 1), Some(ident("i32", 1, 8)), integer(1, "1", 1, 14)),
            declaration(ident("var2", 1, 17), Some(ident("a_type", 1, 22)), integer(2, "2", 1, 29)),
            declaration(ident("var3", 2, 1), None, integer(16, "16", 2, 9)),
            declaration(ident("var_4", 3, 1), Some(ident("u64", 3, 8)), variable("var1", 3, 14)),
            declaration(ident("var_5", 4, 1), Some(ident("u", 4, 8)), variable("var_4", 5, 5)),
        ]
    );
}

#[test]
fn it_parses_a_single_variable_assignment() {
    assert_eq!(
        parse("my_variable = 15;"),
        vec![assignment(ident("my_variable", 1, 1), integer(15, "15", 1, 15))]
    );
}

#[test]
fn it_parses_a_multiple_variable_assignments() {
    assert_eq!(
        parse("var1 = 15;var2=3; var3= 4;"),
        vec![
            assignment(ident("var1", 1, 1), integer(15, "15", 1, 8)),
            assignment(ident("var2", 1, 11), integer(3, "3", 1, 16)),
            assignment(ident("var3", 1, 19), integer(4, "4", 1, 25)),
        ]
    );
}
