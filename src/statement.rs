use crate::token::Token;
use vstd::prelude::*;

verus! {

broadcast use vstd::std_specs::vec::axiom_vec_index_decreases;

/// A statement of the language.
#[derive(Debug, PartialEq)]
pub enum Statement {
    Expression(Expression),
    VariableDeclaration(VariableDeclaration),
    Block(Vec<Statement>),
    If(IfStatement),
    While(WhileStatement),
}

/// An expression of the language.
#[derive(Debug, PartialEq)]
pub enum Expression {
    Binary(BinaryExpression),
    Unary(UnaryExpression),
    Literal(LiteralExpression),
    Grouping(GroupingExpression),
    Variable(VariableExpression),
    Assignment(AssignmentExpression),
    Logical(BinaryExpression),
}

#[derive(Debug, PartialEq)]
pub struct BinaryExpression {
    pub left: Box<Expression>,
    pub operator: Token,
    pub right: Box<Expression>,
}

#[derive(Debug, PartialEq)]
pub struct UnaryExpression {
    pub left: Box<Expression>,
    pub operator: Token,
}

#[derive(Debug, PartialEq)]
pub struct LiteralExpression {
    pub value: Token,
}

#[derive(Debug, PartialEq)]
pub struct GroupingExpression {
    pub expression: Box<Expression>,
}

/// A read of a variable.
#[derive(Debug, PartialEq)]
pub struct VariableExpression {
    pub value: Token,
}

/// A declaration: the name, an optional type written after `:`, and the
/// initializer.
#[derive(Debug, PartialEq)]
pub struct VariableDeclaration {
    pub identifier: Token,
    pub initializer: Expression,
    pub type_annotation: Option<Token>,
}

/// A write to an already declared variable.
#[derive(Debug, PartialEq)]
pub struct AssignmentExpression {
    pub name: Token,
    pub value: Box<Expression>,
}

#[derive(Debug, PartialEq)]
pub struct IfStatement {
    pub condition: Expression,
    pub statements: Vec<Statement>,
    pub else_statements: Option<Vec<Statement>>,
}

#[derive(Debug, PartialEq)]
pub struct WhileStatement {
    pub condition: Expression,
    pub statements: Vec<Statement>,
}

/// The mathematical model of a [`Statement`]: statement lists become
/// sequences.
pub enum StmtModel {
    Expression(Expression),
    VariableDeclaration(VariableDeclaration),
    Block(Seq<StmtModel>),
    If(Expression, Seq<StmtModel>, Option<Seq<StmtModel>>),
    While(Expression, Seq<StmtModel>),
}

pub open spec fn stmt_model(s: Statement) -> StmtModel
    decreases s,
{
    match s {
        Statement::Expression(e) => StmtModel::Expression(e),
        Statement::VariableDeclaration(d) => StmtModel::VariableDeclaration(d),
        Statement::Block(v) => StmtModel::Block(stmts_model(v)),
        Statement::If(i) => StmtModel::If(
            i.condition,
            stmts_model(i.statements),
            match i.else_statements {
                Some(v) => Some(stmts_model(v)),
                None => None,
            },
        ),
        Statement::While(w) => StmtModel::While(w.condition, stmts_model(w.statements)),
    }
}

pub open spec fn stmts_model(v: Vec<Statement>) -> Seq<StmtModel>
    decreases v,
{
    Seq::new(
        v.len() as nat,
        |i: int|
            if 0 <= i < v.len() {
                stmt_model(v[i])
            } else {
                StmtModel::Block(Seq::empty())
            },
    )
}

} // verus!
