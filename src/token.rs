use vstd::prelude::*;

verus! {

/// The lexical categories of the language.
#[derive(Debug, Clone, Copy, PartialEq, Eq, Structural)]
pub enum TokenType {
    // Single character
    LeftParen,
    RightParen,
    LeftBrace,
    RightBrace,
    LeftBracket,
    RightBracket,
    Comma,
    Dot,
    Minus,
    Plus,
    SemiColon,
    Slash,
    Star,
    BitwiseNot,
    // One or two characters
    Bang,
    BangEqual,
    Equal,
    DoubleEqual,
    Greater,
    GreaterEqual,
    Less,
    LessEqual,
    And,
    Or,
    BitwiseAnd,
    BitwiseOr,
    BitwiseXor,
    LeftShift,
    RightShift,
    Colon,
    VarDec,
    // Literals
    Identifier,
    String,
    Integer,
    Float,
    // Reserved keywords
    Struct,
    Else,
    False,
    Func,
    For,
    If,
    Nil,
    Return,
    Super,
    This,
    True,
    Let,
    While,
    Eof,
}

/// A number: a 32-bit integer, or a binary64 float held as its bit pattern.
#[derive(Debug, Clone, Copy, PartialEq, Eq, Structural)]
pub enum NumberLiteral {
    Float(u64),
    Integer(i32),
}

/// A value written in the source text.
#[derive(Debug, Clone, PartialEq)]
pub enum Literal {
    String(String),
    Number(NumberLiteral),
    Boolean(bool),
}

/// The mathematical model of a [`Literal`].
pub enum LiteralModel {
    Str(Seq<char>),
    Number(NumberLiteral),
    Boolean(bool),
}

impl View for Literal {
    type V = LiteralModel;

    open spec fn view(&self) -> LiteralModel {
        match self {
            Literal::String(s) => LiteralModel::Str(s@),
            Literal::Number(n) => LiteralModel::Number(*n),
            Literal::Boolean(b) => LiteralModel::Boolean(*b),
        }
    }
}

pub open spec fn literal_option_model(o: Option<Literal>) -> Option<LiteralModel> {
    match o {
        Some(l) => Some(l@),
        None => None,
    }
}

impl Literal {
    /// The name of the literal's kind.
    pub fn get_type(&self) -> (r: &'static str)
        ensures
            r@ == literal_kind_name(self@),
    {
        match self {
            Literal::String(_) => "String",
            Literal::Number(NumberLiteral::Float(_)) => "Float",
            Literal::Number(NumberLiteral::Integer(_)) => "Integer",
            Literal::Boolean(_) => "Boolean",
        }
    }

    /// A copy of this literal.
    pub fn duplicate(&self) -> (r: Literal)
        ensures
            r == *self,
    {
        match self {
            Literal::String(s) => Literal::String(s.clone()),
            Literal::Number(n) => Literal::Number(*n),
            Literal::Boolean(b) => Literal::Boolean(*b),
        }
    }
}

pub open spec fn literal_kind_name(l: LiteralModel) -> Seq<char> {
    match l {
        LiteralModel::Str(_) => "String"@,
        LiteralModel::Number(NumberLiteral::Float(_)) => "Float"@,
        LiteralModel::Number(NumberLiteral::Integer(_)) => "Integer"@,
        LiteralModel::Boolean(_) => "Boolean"@,
    }
}

pub fn duplicate_literal_option(o: &Option<Literal>) -> (r: Option<Literal>)
    ensures
        r == *o,
{
    match o {
        Some(l) => Some(l.duplicate()),
        None => None,
    }
}

/// A token: its kind, its text exactly as in the source, the 1-based line and
/// column of its first character, and the value of a literal token.
#[derive(Debug, Clone, PartialEq)]
pub struct Token {
    pub token_type: TokenType,
    pub lexeme: String,
    pub line: u64,
    pub position: u64,
    pub literal: Option<Literal>,
}

/// The mathematical model of a [`Token`].
pub struct TokenModel {
    pub token_type: TokenType,
    pub lexeme: Seq<char>,
    pub line: u64,
    pub position: u64,
    pub literal: Option<LiteralModel>,
}

impl View for Token {
    type V = TokenModel;

    open spec fn view(&self) -> TokenModel {
        TokenModel {
            token_type: self.token_type,
            lexeme: self.lexeme@,
            line: self.line,
            position: self.position,
            literal: literal_option_model(self.literal),
        }
    }
}

impl Token {
    pub fn new(
        token_type: TokenType,
        lexeme: String,
        line: u64,
        position: u64,
        literal: Option<Literal>,
    ) -> (r: Token)
        ensures
            r.token_type == token_type,
            r.lexeme == lexeme,
            r.line == line,
            r.position == position,
            r.literal == literal,
    {
        Token { token_type, lexeme, line, position, literal }
    }

    /// A copy of this token.
    pub fn duplicate(&self) -> (r: Token)
        ensures
            r == *self,
    {
        Token {
            token_type: self.token_type,
            lexeme: self.lexeme.clone(),
            line: self.line,
            position: self.position,
            literal: duplicate_literal_option(&self.literal),
        }
    }
}

} // verus!
