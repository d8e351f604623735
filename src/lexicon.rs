use crate::token::TokenType;
use vstd::prelude::*;

verus! {

// The character classes and fixed tables of the language's lexical grammar.

pub open spec fn is_digit(c: char) -> bool {
    '0' <= c && c <= '9'
}

pub open spec fn is_alpha(c: char) -> bool {
    ('a' <= c && c <= 'z') || ('A' <= c && c <= 'Z')
}

/// Characters that may continue an identifier or keyword.
pub open spec fn is_word_char(c: char) -> bool {
    is_alpha(c) || is_digit(c) || c == '_'
}

/// Characters that separate tokens and are otherwise ignored.
pub open spec fn is_blank(c: char) -> bool {
    c == ' ' || c == '\r' || c == '\t' || c == '\n'
}

pub open spec fn digit_value(c: char) -> int {
    (c as int) - ('0' as int)
}

/// The number that a run of decimal digits denotes.
pub open spec fn decimal_value(s: Seq<char>) -> int
    decreases s.len(),
{
    if s.len() == 0 {
        0
    } else {
        decimal_value(s.drop_last()) * 10 + digit_value(s.last())
    }
}

/// The token kinds written as one character that never starts a longer token.
pub open spec fn single_char_kind(c: char) -> Option<TokenType> {
    if c == '(' {
        Some(TokenType::LeftParen)
    } else if c == ')' {
        Some(TokenType::RightParen)
    } else if c == '{' {
        Some(TokenType::LeftBrace)
    } else if c == '}' {
        Some(TokenType::RightBrace)
    } else if c == '[' {
        Some(TokenType::LeftBracket)
    } else if c == ']' {
        Some(TokenType::RightBracket)
    } else if c == ',' {
        Some(TokenType::Comma)
    } else if c == '.' {
        Some(TokenType::Dot)
    } else if c == '-' {
        Some(TokenType::Minus)
    } else if c == '+' {
        Some(TokenType::Plus)
    } else if c == ';' {
        Some(TokenType::SemiColon)
    } else if c == '*' {
        Some(TokenType::Star)
    } else if c == '^' {
        Some(TokenType::BitwiseXor)
    } else if c == '~' {
        Some(TokenType::BitwiseNot)
    } else {
        None
    }
}

/// The operators of one or two characters whose second character can be one
/// thing only: the first character, the second one, the kind of the pair and
/// the kind of the first character alone.
pub open spec fn pair_kinds(c: char) -> Option<(char, TokenType, TokenType)> {
    if c == '&' {
        Some(('&', TokenType::And, TokenType::BitwiseAnd))
    } else if c == '|' {
        Some(('|', TokenType::Or, TokenType::BitwiseOr))
    } else if c == '!' {
        Some(('=', TokenType::BangEqual, TokenType::Bang))
    } else if c == '=' {
        Some(('=', TokenType::DoubleEqual, TokenType::Equal))
    } else if c == ':' {
        Some(('=', TokenType::VarDec, TokenType::Colon))
    } else {
        None
    }
}

/// The reserved words.
pub open spec fn keyword(s: Seq<char>) -> Option<TokenType> {
    if s == "struct"@ {
        Some(TokenType::Struct)
    } else if s == "else"@ {
        Some(TokenType::Else)
    } else if s == "false"@ {
        Some(TokenType::False)
    } else if s == "func"@ {
        Some(TokenType::Func)
    } else if s == "for"@ {
        Some(TokenType::For)
    } else if s == "if"@ {
        Some(TokenType::If)
    } else if s == "nil"@ {
        Some(TokenType::Nil)
    } else if s == "return"@ {
        Some(TokenType::Return)
    } else if s == "super"@ {
        Some(TokenType::Super)
    } else if s == "this"@ {
        Some(TokenType::This)
    } else if s == "true"@ {
        Some(TokenType::True)
    } else if s == "let"@ {
        Some(TokenType::Let)
    } else if s == "while"@ {
        Some(TokenType::While)
    } else {
        None
    }
}

pub fn single_char_token(c: char) -> (r: Option<TokenType>)
    ensures
        r == single_char_kind(c),
{
    match c {
        '(' => Some(TokenType::LeftParen),
        ')' => Some(TokenType::RightParen),
        '{' => Some(TokenType::LeftBrace),
        '}' => Some(TokenType::RightBrace),
        '[' => Some(TokenType::LeftBracket),
        ']' => Some(TokenType::RightBracket),
        ',' => Some(TokenType::Comma),
        '.' => Some(TokenType::Dot),
        '-' => Some(TokenType::Minus),
        '+' => Some(TokenType::Plus),
        ';' => Some(TokenType::SemiColon),
        '*' => Some(TokenType::Star),
        '^' => Some(TokenType::BitwiseXor),
        '~' => Some(TokenType::BitwiseNot),
        _ => None,
    }
}

pub fn pair_token(c: char) -> (r: Option<(char, TokenType, TokenType)>)
    ensures
        r == pair_kinds(c),
{
    match c {
        '&' => Some(('&', TokenType::And, TokenType::BitwiseAnd)),
        '|' => Some(('|', TokenType::Or, TokenType::BitwiseOr)),
        '!' => Some(('=', TokenType::BangEqual, TokenType::Bang)),
        '=' => Some(('=', TokenType::DoubleEqual, TokenType::Equal)),
        ':' => Some(('=', TokenType::VarDec, TokenType::Colon)),
        _ => None,
    }
}

/// The reserved word that a text spells, if any.
pub fn keyword_token(text: &str) -> (r: Option<TokenType>)
    ensures
        r == keyword(text@),
{
    let t = text.to_owned();
    if t == "struct".to_owned() {
        Some(TokenType::Struct)
    } else if t == "else".to_owned() {
        Some(TokenType::Else)
    } else if t == "false".to_owned() {
        Some(TokenType::False)
    } else if t == "func".to_owned() {
        Some(TokenType::Func)
    } else if t == "for".to_owned() {
        Some(TokenType::For)
    } else if t == "if".to_owned() {
        Some(TokenType::If)
    } else if t == "nil".to_owned() {
        Some(TokenType::Nil)
    } else if t == "return".to_owned() {
        Some(TokenType::Return)
    } else if t == "super".to_owned() {
        Some(TokenType::Super)
    } else if t == "this".to_owned() {
        Some(TokenType::This)
    } else if t == "true".to_owned() {
        Some(TokenType::True)
    } else if t == "let".to_owned() {
        Some(TokenType::Let)
    } else if t == "while".to_owned() {
        Some(TokenType::While)
    } else {
        None
    }
}

} // verus!
