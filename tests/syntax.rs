use matcha::{
    BinaryExpression, Expression, GroupingExpression, Literal, LiteralExpression, NumberLiteral,
    Parser, Scanner, Source, Statement, Token, TokenType,
};

fn parse(text: &str) -> Vec<Statement> {
    let tokens = Scanner { source: Source::new(text) }.scan().unwrap();
    Parser::new(tokens).parse().unwrap()
}

fn integer(value: i32, lexeme: &str, line: u64, position: u64) -> Box<Expression> {
    Box::new(Expression::Literal(LiteralExpression {
        value: Token {
            token_type: TokenType::Integer,
            lexeme: lexeme.to_string(),
            line,
            position,
            literal: Some(Literal::Number(NumberLiteral::Integer(value))),
        },
    }))
}

fn op(token_type: TokenType, lexeme: &str, line: u64, position: u64) -> Token {
    Token { token_type, lexeme: lexeme.to_string(), line, position, literal: None }
}

fn bin(left: Box<Expression>, operator: Token, right: Box<Expression>) -> Box<Expression> {
    Box::new(Expression::Binary(BinaryExpression { left, operator, right }))
}

fn group(expression: Box<Expression>) -> Box<Expression> {
    Box::new(Expression::Grouping(GroupingExpression { expression }))
}

#[test]
fn syntax_it_parses_simple_expressions() {
    assert_eq!(
        parse("1 + 1;"),
        vec![Statement::Expression(*bin(
            integer(1, "1", 1, 1),
            op(TokenType::Plus, "+", 1, 3),
            integer(1, "1", 1, 5)
        ))]
    );
}

#[test]
fn syntax_it_parses_multiple_expressions() {
    assert_eq!(
        parse("1 + 1 + 5;"),
        vec![Statement::Expression(*bin(
            bin(integer(1, "1", 1, 1), op(TokenType::Plus, "+", 1, 3), integer(1, "1", 1, 5)),
            op(TokenType::Plus, "+", 1, 7),
            integer(5, "5", 1, 9)
        ))]
    );
}

#[test]
fn syntax_it_respects_the_order_of_operations() {
    let expected = bin(
        bin(
            bin(integer(1, "1", 1, 1), op(TokenType::Star, "*", 1, 3), integer(2, "2", 1, 5)),
            op(TokenType::Plus, "+", 1, 7),
            bin(integer(3, "3", 1, 9), op(TokenType::Slash, "/", 1, 11), integer(4, "4", 1, 13)),
        ),
        op(TokenType::Minus, "-", 1, 15),
        bin(
            integer(5, "5", 1, 17),
            op(TokenType::Star, "*", 1, 19),
            group(bin(
                group(bin(
                    integer(6, "6", 1, 23),
                    op(TokenType::Minus, "-", 1, 25),
                    integer(7, "7", 1, 27),
                )),
                op(TokenType::Slash, "/", 1, 30),
                group(bin(
                    integer(8, "8", 1, 33),
                    op(TokenType::Plus, "+", 1, 35),
                    integer(9, "9", 1, 37),
                )),
            )),
        ),
    );
    assert_eq!(
        parse("1 * 2 + 3 / 4 - 5 * ((6 - 7) / (8 + 9));"),
        vec![Statement::Expression(*expected)]
    );
}

#[test]
fn syntax_it_works_with_multiple_lines() {
    assert_eq!(
        parse("\n1 * 2;\n    3 / 4;\n5+6-2;"),
        vec![
            Statement::Expression(*bin(
                integer(1, "1", 2, 1),
                op(TokenType::Star, "*", 2, 3),
                integer(2, "2", 2, 5)
            )),
            Statement::Expression(*bin(
                integer(3, "3", 3, 5),
                op(TokenType::Slash, "/", 3, 7),
                integer(4, "4", 3, 9)
            )),
            Statement::Expression(*bin(
                bin(integer(5, "5", 4, 1), op(TokenType::Plus, "+", 4, 2), integer(6, "6", 4, 3)),
                op(TokenType::Minus, "-", 4, 4),
                integer(2, "2", 4, 5)
            )),
        ]
    );
}
