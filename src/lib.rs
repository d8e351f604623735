//! A scanner, parser and tree-walking evaluator for a small C-like scripting
//! language, with contracts stated over mathematical models of each stage.
pub mod environment;
pub mod float;
pub mod interpreter;
pub mod lexicon;
pub mod parser;
pub mod scanner;
pub mod source;
pub mod statement;
pub mod token;
pub mod value;

pub use environment::{Binding, EnvModel, Environment};
pub use interpreter::{Interpreter, InterpreterError, Run, RuntimeFault};
pub use parser::{ParseFault, Parser, ParserError};
pub use scanner::{ScanFault, Scanner, ScannerError, ScannerErrorType};
pub use source::Source;
pub use statement::{
    AssignmentExpression, BinaryExpression, Expression, GroupingExpression, IfStatement,
    LiteralExpression, Statement, StmtModel, UnaryExpression, VariableDeclaration,
    VariableExpression, WhileStatement,
};
pub use token::{Literal, LiteralModel, NumberLiteral, Token, TokenModel, TokenType};
pub use value::{RuntimeErrorKind, Value};
