use crate::statement::{
    stmt_model, stmts_model, AssignmentExpression, BinaryExpression, Expression,
    GroupingExpression, IfStatement, LiteralExpression, Statement, StmtModel, UnaryExpression,
    VariableDeclaration, VariableExpression, WhileStatement,
};
use crate::token::{Token, TokenType};
use vstd::prelude::*;

verus! {

/// What a syntax error is: its message and the offending token.
pub struct ParseFault {
    pub message: Seq<char>,
    pub token: Token,
}

// ---------------------------------------------------------------------------
// The grammar, as recursive descent over a token sequence that ends with the
// end-of-input token. Each rule, applied at position `p`, either succeeds
// with a tree and the position after it, or fails with a syntax error and
// the position where the parser stopped.
//
// Rules are ranked so that a rule only calls rules of lower rank at the same
// position; a rule called at a later position may have any rank. Positions
// never move backwards (a guard states this where the recursion relies on it).

/// The token sequences the parser accepts: non-empty, ending with end-of-input.
pub open spec fn tokens_wf(ts: Seq<Token>) -> bool {
    ts.len() > 0 && ts.last().token_type == TokenType::Eof
}

pub open spec fn at_end(ts: Seq<Token>, p: int) -> bool {
    ts[p].token_type == TokenType::Eof
}

/// Whether the next token, not the end of input, is of the kind `t`.
pub open spec fn next_is(ts: Seq<Token>, p: int, t: TokenType) -> bool {
    !at_end(ts, p) && ts[p].token_type == t
}

pub open spec fn kind_at(ts: Seq<Token>, p: int) -> Option<TokenType> {
    if 0 <= p < ts.len() {
        Some(ts[p].token_type)
    } else {
        None
    }
}

pub open spec fn fails<T>(message: Seq<char>, ts: Seq<Token>, p: int) -> Result<
    (T, int),
    (ParseFault, int),
> {
    Err((ParseFault { message, token: ts[p] }, p))
}

/// Expects a token of kind `t` at `p`.
pub open spec fn expect(ts: Seq<Token>, p: int, t: TokenType, message: Seq<char>) -> Result<
    (Token, int),
    (ParseFault, int),
> {
    if next_is(ts, p, t) {
        Ok((ts[p], p + 1))
    } else {
        fails(message, ts, p)
    }
}

/// The operators of the binary levels: 8 `||`, 7 `&&`, 6 equality,
/// 5 comparison, 4 `+ -`, 3 `* /`.
pub open spec fn level_operator(level: int, t: TokenType) -> bool {
    if level == 8 {
        t == TokenType::Or
    } else if level == 7 {
        t == TokenType::And
    } else if level == 6 {
        t == TokenType::DoubleEqual || t == TokenType::BangEqual
    } else if level == 5 {
        t == TokenType::Greater || t == TokenType::GreaterEqual || t == TokenType::Less || t
            == TokenType::LessEqual
    } else if level == 4 {
        t == TokenType::Minus || t == TokenType::Plus
    } else {
        t == TokenType::Slash || t == TokenType::Star
    }
}

pub open spec fn combine(level: int, left: Expression, operator: Token, right: Expression) -> Expression {
    let node = BinaryExpression { left: Box::new(left), operator, right: Box::new(right) };
    if level >= 7 {
        Expression::Logical(node)
    } else {
        Expression::Binary(node)
    }
}

pub open spec fn is_literal_kind(t: TokenType) -> bool {
    t == TokenType::False || t == TokenType::True || t == TokenType::String || t
        == TokenType::Integer || t == TokenType::Float
}

pub open spec fn parse_primary(ts: Seq<Token>, p: int) -> Result<(Expression, int), (ParseFault, int)>
    decreases ts.len() - p, 1int, 0int,
{
    if !(0 <= p < ts.len() && tokens_wf(ts)) {
        fails("Unexpected token"@, ts, p)
    } else if !at_end(ts, p) && is_literal_kind(ts[p].token_type) {
        Ok((Expression::Literal(LiteralExpression { value: ts[p] }), p + 1))
    } else if next_is(ts, p, TokenType::Identifier) {
        Ok((Expression::Variable(VariableExpression { value: ts[p] }), p + 1))
    } else if next_is(ts, p, TokenType::LeftParen) {
        match parse_expression(ts, p + 1) {
            Err(e) => Err(e),
            Ok((inner, q)) => if p < q < ts.len() && next_is(ts, q, TokenType::RightParen) {
                Ok((Expression::Grouping(GroupingExpression { expression: Box::new(inner) }), q + 1))
            } else {
                fails("Expected ')' after expression"@, ts, q)
            },
        }
    } else {
        fails("Unexpected token"@, ts, p)
    }
}

pub open spec fn parse_unary(ts: Seq<Token>, p: int) -> Result<(Expression, int), (ParseFault, int)>
    decreases ts.len() - p, 2int, 0int,
{
    if 0 <= p < ts.len() && (next_is(ts, p, TokenType::Bang) || next_is(ts, p, TokenType::Minus)) {
        match parse_unary(ts, p + 1) {
            Err(e) => Err(e),
            Ok((operand, q)) => Ok(
                (Expression::Unary(UnaryExpression { left: Box::new(operand), operator: ts[p] }), q),
            ),
        }
    } else {
        parse_primary(ts, p)
    }
}

/// The operand of a binary level: the next tighter level.
pub open spec fn parse_operand(ts: Seq<Token>, p: int, level: int) -> Result<
    (Expression, int),
    (ParseFault, int),
>
    decreases ts.len() - p, level, 2int,
{
    if level < 3 {
        fails("Unexpected token"@, ts, p)
    } else if level == 3 {
        parse_unary(ts, p)
    } else {
        parse_binary(ts, p, level - 1)
    }
}

/// A left-associative chain of the operators of `level`.
pub open spec fn parse_binary(ts: Seq<Token>, p: int, level: int) -> Result<
    (Expression, int),
    (ParseFault, int),
>
    decreases ts.len() - p, level, 3int,
{
    if level < 3 {
        fails("Unexpected token"@, ts, p)
    } else {
        match parse_operand(ts, p, level) {
            Err(e) => Err(e),
            Ok((left, q)) => if p < q < ts.len() {
                parse_binary_rest(ts, q, level, left)
            } else {
                Ok((left, q))
            },
        }
    }
}

/// The rest of a chain whose left part is `left`.
pub open spec fn parse_binary_rest(ts: Seq<Token>, p: int, level: int, left: Expression) -> Result<
    (Expression, int),
    (ParseFault, int),
>
    decreases ts.len() - p, level, 1int,
{
    if 0 <= p < ts.len() && level >= 3 && !at_end(ts, p) && level_operator(level, ts[p].token_type) {
        match parse_operand(ts, p + 1, level) {
            Err(e) => Err(e),
            Ok((right, q)) => if p < q < ts.len() {
                parse_binary_rest(ts, q, level, combine(level, left, ts[p], right))
            } else {
                Ok((left, q))
            },
        }
    } else {
        Ok((left, p))
    }
}

/// Assignment, the loosest level: right-associative, and only to a variable.
pub open spec fn parse_assignment(ts: Seq<Token>, p: int) -> Result<
    (Expression, int),
    (ParseFault, int),
>
    decreases ts.len() - p, 9int, 0int,
{
    match parse_binary(ts, p, 8) {
        Err(e) => Err(e),
        Ok((target, q)) => if 0 <= q < ts.len() && q >= p && next_is(ts, q, TokenType::Equal) {
            match target {
                Expression::Variable(v) => match parse_assignment(ts, q + 1) {
                    Err(e) => Err(e),
                    Ok((value, r)) => Ok(
                        (
                            Expression::Assignment(
                                AssignmentExpression { name: v.value, value: Box::new(value) },
                            ),
                            r,
                        ),
                    ),
                },
                _ => Err(
                    (ParseFault { message: "Invalid assignment target"@, token: ts[q] }, q + 1),
                ),
            }
        } else {
            Ok((target, q))
        },
    }
}

pub open spec fn parse_expression(ts: Seq<Token>, p: int) -> Result<
    (Expression, int),
    (ParseFault, int),
>
    decreases ts.len() - p, 10int, 0int,
{
    parse_assignment(ts, p)
}


/// `name :=` or `name : type =`: the start of a declaration.
pub open spec fn is_declaration_start(ts: Seq<Token>, p: int) -> bool {
    kind_at(ts, p) == Some(TokenType::Identifier) && (kind_at(ts, p + 1) == Some(TokenType::VarDec)
        || (kind_at(ts, p + 1) == Some(TokenType::Colon) && kind_at(ts, p + 2) == Some(
        TokenType::Identifier) && kind_at(ts, p + 3) == Some(TokenType::Equal)))
}

/// The keywords that begin a statement, where recovery from an error resumes.
pub open spec fn is_statement_keyword(t: TokenType) -> bool {
    t == TokenType::If || t == TokenType::For || t == TokenType::While
}

pub open spec fn parse_declaration(ts: Seq<Token>, p: int) -> Result<
    (StmtModel, int),
    (ParseFault, int),
>
    decreases ts.len() - p, 11int, 0int,
{
    if !(0 <= p && is_declaration_start(ts, p)) {
        fails("Expected identifier"@, ts, p)
    } else {
        let typed = kind_at(ts, p + 1) == Some(TokenType::Colon);
        let type_annotation = if typed {
            Some(ts[p + 2])
        } else {
            None
        };
        let start = if typed {
            p + 4
        } else {
            p + 2
        };
        match parse_expression(ts, start) {
            Err(e) => Err(e),
            Ok((initializer, q)) => match expect(ts, q, TokenType::SemiColon, "Expected ';'"@) {
                Err(e) => Err(e),
                Ok((_, r)) => Ok(
                    (
                        StmtModel::VariableDeclaration(
                            VariableDeclaration { identifier: ts[p], initializer, type_annotation },
                        ),
                        r,
                    ),
                ),
            },
        }
    }
}

pub open spec fn parse_expression_statement(ts: Seq<Token>, p: int) -> Result<
    (StmtModel, int),
    (ParseFault, int),
>
    decreases ts.len() - p, 11int, 0int,
{
    match parse_expression(ts, p) {
        Err(e) => Err(e),
        Ok((e, q)) => match expect(ts, q, TokenType::SemiColon, "Expected ';'"@) {
            Err(f) => Err(f),
            Ok((_, r)) => Ok((StmtModel::Expression(e), r)),
        },
    }
}

/// The statements of a block up to its closing brace, after those in `acc`.
pub open spec fn parse_block_rest(ts: Seq<Token>, p: int, acc: Seq<StmtModel>) -> Result<
    (Seq<StmtModel>, int),
    (ParseFault, int),
>
    decreases ts.len() - p, 16int, 0int,
{
    if !(0 <= p < ts.len()) {
        fails("Expected '}' after block"@, ts, p)
    } else if next_is(ts, p, TokenType::RightBrace) || at_end(ts, p) {
        match expect(ts, p, TokenType::RightBrace, "Expected '}' after block"@) {
            Err(e) => Err(e),
            Ok((_, q)) => Ok((acc, q)),
        }
    } else {
        match parse_statement(ts, p) {
            Err(e) => Err(e),
            Ok((s, q)) => if p < q < ts.len() {
                parse_block_rest(ts, q, acc.push(s))
            } else {
                Ok((acc.push(s), q))
            },
        }
    }
}

/// A brace-delimited block, from its opening brace.
pub open spec fn parse_braced(ts: Seq<Token>, p: int) -> Result<
    (Seq<StmtModel>, int),
    (ParseFault, int),
>
    decreases ts.len() - p, 14int, 0int,
{
    match expect(ts, p, TokenType::LeftBrace, "Expected '{' after condition"@) {
        Err(e) => Err(e),
        Ok((_, q)) => if 0 <= p < q <= ts.len() {
            parse_block_rest(ts, q, Seq::empty())
        } else {
            fails("Expected '{' after condition"@, ts, p)
        },
    }
}

/// An `if` statement, after the keyword.
pub open spec fn parse_if(ts: Seq<Token>, p: int) -> Result<(StmtModel, int), (ParseFault, int)>
    decreases ts.len() - p, 12int, 0int,
{
    match parse_expression(ts, p) {
        Err(e) => Err(e),
        Ok((condition, q)) => if !(0 <= p < q < ts.len()) {
            fails("Unexpected token"@, ts, p)
        } else {
            match parse_braced(ts, q) {
                Err(e) => Err(e),
                Ok((then_branch, r)) => if !(p < r < ts.len()) {
                    fails("Unexpected token"@, ts, p)
                } else if next_is(ts, r, TokenType::Else) {
                    match parse_braced(ts, r + 1) {
                        Err(e) => Err(e),
                        Ok((else_branch, s)) => Ok(
                            (StmtModel::If(condition, then_branch, Some(else_branch)), s),
                        ),
                    }
                } else {
                    Ok((StmtModel::If(condition, then_branch, None), r))
                },
            }
        },
    }
}

/// A loop, after its keyword.
pub open spec fn parse_while(ts: Seq<Token>, p: int) -> Result<(StmtModel, int), (ParseFault, int)>
    decreases ts.len() - p, 12int, 0int,
{
    match parse_expression(ts, p) {
        Err(e) => Err(e),
        Ok((condition, q)) => if !(0 <= p < q < ts.len()) {
            fails("Unexpected token"@, ts, p)
        } else {
            match parse_braced(ts, q) {
                Err(e) => Err(e),
                Ok((body, r)) => Ok((StmtModel::While(condition, body), r)),
            }
        },
    }
}

pub open spec fn parse_statement(ts: Seq<Token>, p: int) -> Result<
    (StmtModel, int),
    (ParseFault, int),
>
    decreases ts.len() - p, 15int, 0int,
{
    if !(0 <= p < ts.len() && tokens_wf(ts)) {
        fails("Unexpected token"@, ts, p)
    } else if next_is(ts, p, TokenType::If) {
        parse_if(ts, p + 1)
    } else if next_is(ts, p, TokenType::For) || next_is(ts, p, TokenType::While) {
        parse_while(ts, p + 1)
    } else if is_declaration_start(ts, p) {
        parse_declaration(ts, p)
    } else if next_is(ts, p, TokenType::LeftBrace) {
        match parse_block_rest(ts, p + 1, Seq::empty()) {
            Err(e) => Err(e),
            Ok((b, q)) => Ok((StmtModel::Block(b), q)),
        }
    } else {
        parse_expression_statement(ts, p)
    }
}

/// Where parsing resumes after an error at `p`: at the next statement keyword
/// or the end of input, or just past the next `;`.
pub open spec fn sync_from(ts: Seq<Token>, p: int) -> int
    decreases ts.len() - p,
{
    if !(0 <= p < ts.len() - 1) || at_end(ts, p) || is_statement_keyword(ts[p].token_type) {
        p
    } else if ts[p].token_type == TokenType::SemiColon {
        p + 1
    } else {
        sync_from(ts, p + 1)
    }
}

/// The statements and the syntax errors of the input from `p` on, after those
/// already collected.
pub open spec fn parse_from(
    ts: Seq<Token>,
    p: int,
    stmts: Seq<StmtModel>,
    errors: Seq<ParseFault>,
) -> (Seq<StmtModel>, Seq<ParseFault>)
    decreases ts.len() - p,
{
    if !(0 <= p < ts.len()) || at_end(ts, p) {
        (stmts, errors)
    } else {
        match parse_statement(ts, p) {
            Ok((s, q)) => if p < q < ts.len() {
                parse_from(ts, q, stmts.push(s), errors)
            } else {
                (stmts.push(s), errors)
            },
            Err((f, q)) => {
                let r = sync_from(ts, q);
                if p < r < ts.len() {
                    parse_from(ts, r, stmts, errors.push(f))
                } else {
                    (stmts, errors.push(f))
                }
            },
        }
    }
}

/// The statements of a token sequence, or every syntax error found in it.
pub open spec fn parse_tokens(ts: Seq<Token>) -> Result<Seq<StmtModel>, Seq<ParseFault>> {
    let (stmts, errors) = parse_from(ts, 0, Seq::empty(), Seq::empty());
    if errors.len() == 0 {
        Ok(stmts)
    } else {
        Err(errors)
    }
}

} // verus!

verus! {

/// A syntax error: a message and the offending token.
#[derive(Debug)]
pub struct ParserError {
    pub message: String,
    pub token: Token,
}

impl ParserError {
    pub open spec fn fault(&self) -> ParseFault {
        ParseFault { message: self.message@, token: self.token }
    }

    pub fn new(message: String, token: Token) -> (r: ParserError)
        ensures
            r.message == message,
            r.token == token,
    {
        ParserError { message, token }
    }
}

/// How an executed rule relates to the grammar: the same tree and position on
/// success, the same error and position on failure.
pub open spec fn parsed_as<T>(
    expected: Result<(T, int), (ParseFault, int)>,
    r: Result<T, ParserError>,
    q: int,
) -> bool {
    match expected {
        Ok((t, n)) => r == Ok::<T, ParserError>(t) && q == n,
        Err((f, n)) => r is Err && r->Err_0.fault() == f && q == n,
    }
}

/// A recursive-descent parser over a token sequence.
pub struct Parser {
    current_index: usize,
    tokens: Vec<Token>,
}

pub fn operator_at_level(level: usize, t: TokenType) -> (r: bool)
    ensures
        r == level_operator(level as int, t),
{
    if level == 8 {
        t == TokenType::Or
    } else if level == 7 {
        t == TokenType::And
    } else if level == 6 {
        t == TokenType::DoubleEqual || t == TokenType::BangEqual
    } else if level == 5 {
        t == TokenType::Greater || t == TokenType::GreaterEqual || t == TokenType::Less || t
            == TokenType::LessEqual
    } else if level == 4 {
        t == TokenType::Minus || t == TokenType::Plus
    } else {
        t == TokenType::Slash || t == TokenType::Star
    }
}

impl Parser {
    pub closed spec fn token_seq(&self) -> Seq<Token> {
        self.tokens@
    }

    pub closed spec fn position(&self) -> int {
        self.current_index as int
    }

    pub closed spec fn wf(&self) -> bool {
        tokens_wf(self.tokens@) && self.current_index < self.tokens.len()
    }

    pub fn new(tokens: Vec<Token>) -> (r: Parser)
        requires
            tokens_wf(tokens@),
        ensures
            r.wf(),
            r.token_seq() == tokens@,
            r.position() == 0,
    {
        Parser { current_index: 0, tokens }
    }

    fn is_end(&self) -> (r: bool)
        requires
            self.wf(),
        ensures
            r == at_end(self.tokens@, self.current_index as int),
    {
        self.tokens[self.current_index].token_type == TokenType::Eof
    }

    fn next_matches(&self, token_type: TokenType) -> (r: bool)
        requires
            self.wf(),
        ensures
            r == next_is(self.tokens@, self.current_index as int, token_type),
    {
        if self.is_end() {
            return false;
        }
        token_type == self.tokens[self.current_index].token_type
    }

    fn next(&self) -> (r: Token)
        requires
            self.wf(),
        ensures
            r == self.tokens@[self.current_index as int],
    {
        self.tokens[self.current_index].duplicate()
    }

    fn advance(&mut self)
        requires
            old(self).wf(),
            !at_end(old(self).tokens@, old(self).current_index as int),
        ensures
            final(self).wf(),
            final(self).tokens == old(self).tokens,
            final(self).current_index == old(self).current_index + 1,
    {
        self.current_index = self.current_index + 1;
    }

    fn consume_and_expect(&mut self, token_type: TokenType, error_message: String) -> (r: Result<
        Token,
        ParserError,
    >)
        requires
            old(self).wf(),
        ensures
            final(self).wf(),
            final(self).tokens == old(self).tokens,
            parsed_as(
                expect(
                    old(self).tokens@,
                    old(self).current_index as int,
                    token_type,
                    error_message@,
                ),
                r,
                final(self).current_index as int,
            ),
    {
        let token = self.next();
        if self.next_matches(token_type) {
            self.advance();
            Ok(token)
        } else {
            Err(ParserError::new(error_message, token))
        }
    }

    fn primary(&mut self) -> (r: Result<Expression, ParserError>)
        requires
            old(self).wf(),
        ensures
            final(self).wf(),
            final(self).tokens == old(self).tokens,
            parsed_as(
                parse_primary(old(self).tokens@, old(self).current_index as int),
                r,
                final(self).current_index as int,
            ),
            final(self).current_index >= old(self).current_index,
            r is Ok ==> final(self).current_index > old(self).current_index,
        decreases old(self).tokens.len() - old(self).current_index, 1int, 0int,
    {
        let ghost ts = self.tokens@;
        let ghost p = self.current_index as int;
        let token = self.next();
        if !self.is_end() {
            let t = token.token_type;
            if t == TokenType::False || t == TokenType::True || t == TokenType::String || t
                == TokenType::Integer || t == TokenType::Float {
                self.advance();
                return Ok(Expression::Literal(LiteralExpression { value: token }));
            }
        }
        if self.next_matches(TokenType::Identifier) {
            self.advance();
            return Ok(Expression::Variable(VariableExpression { value: token }));
        }
        if self.next_matches(TokenType::LeftParen) {
            self.advance();
            let expression = self.expression()?;
            if !self.next_matches(TokenType::RightParen) {
                return Err(
                    ParserError::new("Expected ')' after expression".to_owned(), self.next()),
                );
            }
            self.advance();
            return Ok(Expression::Grouping(GroupingExpression { expression: Box::new(expression) }));
        }
        Err(ParserError::new("Unexpected token".to_owned(), token))
    }

    fn unary(&mut self) -> (r: Result<Expression, ParserError>)
        requires
            old(self).wf(),
        ensures
            final(self).wf(),
            final(self).tokens == old(self).tokens,
            parsed_as(
                parse_unary(old(self).tokens@, old(self).current_index as int),
                r,
                final(self).current_index as int,
            ),
            final(self).current_index >= old(self).current_index,
            r is Ok ==> final(self).current_index > old(self).current_index,
        decreases old(self).tokens.len() - old(self).current_index, 2int, 0int,
    {
        if self.next_matches(TokenType::Bang) || self.next_matches(TokenType::Minus) {
            let operator = self.next();
            self.advance();
            let operand = self.unary()?;
            return Ok(Expression::Unary(UnaryExpression { left: Box::new(operand), operator }));
        }
        self.primary()
    }

    fn operand(&mut self, level: usize) -> (r: Result<Expression, ParserError>)
        requires
            old(self).wf(),
            3 <= level <= 8,
        ensures
            final(self).wf(),
            final(self).tokens == old(self).tokens,
            parsed_as(
                parse_operand(old(self).tokens@, old(self).current_index as int, level as int),
                r,
                final(self).current_index as int,
            ),
            final(self).current_index >= old(self).current_index,
            r is Ok ==> final(self).current_index > old(self).current_index,
        decreases old(self).tokens.len() - old(self).current_index, level, 2int,
    {
        if level == 3 {
            self.unary()
        } else {
            self.binary(level - 1)
        }
    }

    /// A left-associative chain of the operators of one precedence level.
    fn binary(&mut self, level: usize) -> (r: Result<Expression, ParserError>)
        requires
            old(self).wf(),
            3 <= level <= 8,
        ensures
            final(self).wf(),
            final(self).tokens == old(self).tokens,
            parsed_as(
                parse_binary(old(self).tokens@, old(self).current_index as int, level as int),
                r,
                final(self).current_index as int,
            ),
            final(self).current_index >= old(self).current_index,
            r is Ok ==> final(self).current_index > old(self).current_index,
        decreases old(self).tokens.len() - old(self).current_index, level, 3int,
    {
        let ghost ts = self.tokens@;
        let ghost p = self.current_index as int;
        let mut expr = self.operand(level)?;
        let ghost first = expr;
        let ghost q = self.current_index as int;
        loop
            invariant
                self.wf(),
                self.tokens@ == ts,
                self.tokens == old(self).tokens,
                p == old(self).current_index,
                ts == old(self).tokens@,
                3 <= level <= 8,
                p < q <= self.current_index,
                parse_binary(ts, p, level as int) == parse_binary_rest(ts, q, level as int, first),
                parse_binary_rest(ts, q, level as int, first) == parse_binary_rest(
                    ts,
                    self.current_index as int,
                    level as int,
                    expr,
                ),
            decreases ts.len() - self.current_index,
        {
            if self.is_end() || !operator_at_level(
                level,
                self.tokens[self.current_index].token_type,
            ) {
                return Ok(expr);
            }
            let operator = self.next();
            self.advance();
            let right = self.operand(level)?;
            let node = BinaryExpression { left: Box::new(expr), operator, right: Box::new(right) };
            expr = if level >= 7 {
                Expression::Logical(node)
            } else {
                Expression::Binary(node)
            };
        }
    }

    fn assignment(&mut self) -> (r: Result<Expression, ParserError>)
        requires
            old(self).wf(),
        ensures
            final(self).wf(),
            final(self).tokens == old(self).tokens,
            parsed_as(
                parse_assignment(old(self).tokens@, old(self).current_index as int),
                r,
                final(self).current_index as int,
            ),
            final(self).current_index >= old(self).current_index,
            r is Ok ==> final(self).current_index > old(self).current_index,
        decreases old(self).tokens.len() - old(self).current_index, 9int, 0int,
    {
        let expr = self.binary(8)?;
        if self.next_matches(TokenType::Equal) {
            let equals = self.next();
            self.advance();
            match expr {
                Expression::Variable(variable) => {
                    let value = self.assignment()?;
                    return Ok(
                        Expression::Assignment(
                            AssignmentExpression { name: variable.value, value: Box::new(value) },
                        ),
                    );
                },
                _ => {
                    return Err(ParserError::new("Invalid assignment target".to_owned(), equals));
                },
            }
        }
        Ok(expr)
    }

    fn expression(&mut self) -> (r: Result<Expression, ParserError>)
        requires
            old(self).wf(),
        ensures
            final(self).wf(),
            final(self).tokens == old(self).tokens,
            parsed_as(
                parse_expression(old(self).tokens@, old(self).current_index as int),
                r,
                final(self).current_index as int,
            ),
            final(self).current_index >= old(self).current_index,
            r is Ok ==> final(self).current_index > old(self).current_index,
        decreases old(self).tokens.len() - old(self).current_index, 10int, 0int,
    {
        self.assignment()
    }
}

} // verus!

verus! {

/// How an executed statement rule relates to the grammar.
pub open spec fn parsed_stmt(
    expected: Result<(StmtModel, int), (ParseFault, int)>,
    r: Result<Statement, ParserError>,
    q: int,
) -> bool {
    match expected {
        Ok((m, n)) => r is Ok && stmt_model(r->Ok_0) == m && q == n,
        Err((f, n)) => r is Err && r->Err_0.fault() == f && q == n,
    }
}

/// How an executed block rule relates to the grammar.
pub open spec fn parsed_block(
    expected: Result<(Seq<StmtModel>, int), (ParseFault, int)>,
    r: Result<Vec<Statement>, ParserError>,
    q: int,
) -> bool {
    match expected {
        Ok((m, n)) => r is Ok && stmts_model(r->Ok_0) == m && q == n,
        Err((f, n)) => r is Err && r->Err_0.fault() == f && q == n,
    }
}

pub proof fn lemma_stmts_push(v: Vec<Statement>, w: Vec<Statement>, s: Statement)
    requires
        w@ == v@.push(s),
    ensures
        stmts_model(w) == stmts_model(v).push(stmt_model(s)),
{
    assert(stmts_model(w) =~= stmts_model(v).push(stmt_model(s)));
}

pub proof fn lemma_stmts_empty(v: Vec<Statement>)
    requires
        v@.len() == 0,
    ensures
        stmts_model(v) == Seq::<StmtModel>::empty(),
{
    assert(stmts_model(v) =~= Seq::<StmtModel>::empty());
}

/// Recovery never moves backwards and stays within the input; from a token
/// that is neither the end of input nor a statement keyword it moves forward.
pub proof fn lemma_sync_forward(ts: Seq<Token>, p: int)
    requires
        tokens_wf(ts),
        0 <= p < ts.len(),
    ensures
        p <= sync_from(ts, p) < ts.len(),
        !at_end(ts, p) && !is_statement_keyword(ts[p].token_type) ==> p < sync_from(ts, p),
    decreases ts.len() - p,
{
    if p < ts.len() - 1 && !at_end(ts, p) && !is_statement_keyword(ts[p].token_type)
        && ts[p].token_type != TokenType::SemiColon {
        lemma_sync_forward(ts, p + 1);
    }
}

impl Parser {
    /// The kind of the token `amount` places ahead, if there is one.
    fn lookahead(&self, amount: usize) -> (r: Option<TokenType>)
        requires
            self.wf(),
        ensures
            r == kind_at(self.tokens@, self.current_index + amount),
    {
        if amount < self.tokens.len() - self.current_index {
            Some(self.tokens[self.current_index + amount].token_type)
        } else {
            None
        }
    }

    fn variable_declaration(&mut self) -> (r: Result<Statement, ParserError>)
        requires
            old(self).wf(),
            is_declaration_start(old(self).tokens@, old(self).current_index as int),
        ensures
            final(self).wf(),
            final(self).tokens == old(self).tokens,
            parsed_stmt(
                parse_declaration(old(self).tokens@, old(self).current_index as int),
                r,
                final(self).current_index as int,
            ),
            final(self).current_index > old(self).current_index,
        decreases old(self).tokens.len() - old(self).current_index, 11int, 0int,
    {
        let identifier = self.next();
        self.advance();
        let type_annotation = if self.next_matches(TokenType::Colon) {
            self.advance();
            let t = self.next();
            self.advance();
            self.advance();
            Some(t)
        } else {
            self.advance();
            None
        };
        let initializer = self.expression()?;
        self.consume_and_expect(TokenType::SemiColon, "Expected ';'".to_owned())?;
        Ok(
            Statement::VariableDeclaration(
                VariableDeclaration { identifier, initializer, type_annotation },
            ),
        )
    }

    fn expression_statement(&mut self) -> (r: Result<Statement, ParserError>)
        requires
            old(self).wf(),
        ensures
            final(self).wf(),
            final(self).tokens == old(self).tokens,
            parsed_stmt(
                parse_expression_statement(old(self).tokens@, old(self).current_index as int),
                r,
                final(self).current_index as int,
            ),
            final(self).current_index >= old(self).current_index,
            r is Ok ==> final(self).current_index > old(self).current_index,
        decreases old(self).tokens.len() - old(self).current_index, 11int, 0int,
    {
        let expr = self.expression()?;
        self.consume_and_expect(TokenType::SemiColon, "Expected ';'".to_owned())?;
        Ok(Statement::Expression(expr))
    }

    /// The statements of a block, after its opening brace, and the closing brace.
    fn block(&mut self) -> (r: Result<Vec<Statement>, ParserError>)
        requires
            old(self).wf(),
        ensures
            final(self).wf(),
            final(self).tokens == old(self).tokens,
            parsed_block(
                parse_block_rest(old(self).tokens@, old(self).current_index as int, Seq::empty()),
                r,
                final(self).current_index as int,
            ),
            final(self).current_index >= old(self).current_index,
            r is Ok ==> final(self).current_index > old(self).current_index,
        decreases old(self).tokens.len() - old(self).current_index, 16int, 0int,
    {
        let ghost ts = self.tokens@;
        let ghost p = self.current_index as int;
        let mut statements: Vec<Statement> = Vec::new();
        proof {
            lemma_stmts_empty(statements);
        }
        loop
            invariant
                self.wf(),
                self.tokens == old(self).tokens,
                ts == old(self).tokens@,
                p == old(self).current_index,
                p <= self.current_index,
                parse_block_rest(ts, p, Seq::empty()) == parse_block_rest(
                    ts,
                    self.current_index as int,
                    stmts_model(statements),
                ),
            ensures
                next_is(ts, self.current_index as int, TokenType::RightBrace) || at_end(
                    ts,
                    self.current_index as int,
                ),
            decreases ts.len() - self.current_index,
        {
            if self.next_matches(TokenType::RightBrace) || self.is_end() {
                break ;
            }
            let ghost before = statements;
            let statement = self.statement()?;
            statements.push(statement);
            proof {
                lemma_stmts_push(before, statements, statement);
            }
        }
        self.consume_and_expect(TokenType::RightBrace, "Expected '}' after block".to_owned())?;
        Ok(statements)
    }

    /// A brace-delimited block, from its opening brace.
    fn braced(&mut self) -> (r: Result<Vec<Statement>, ParserError>)
        requires
            old(self).wf(),
        ensures
            final(self).wf(),
            final(self).tokens == old(self).tokens,
            parsed_block(
                parse_braced(old(self).tokens@, old(self).current_index as int),
                r,
                final(self).current_index as int,
            ),
            final(self).current_index >= old(self).current_index,
            r is Ok ==> final(self).current_index > old(self).current_index,
        decreases old(self).tokens.len() - old(self).current_index, 14int, 0int,
    {
        self.consume_and_expect(TokenType::LeftBrace, "Expected '{' after condition".to_owned())?;
        self.block()
    }

    fn if_statement(&mut self) -> (r: Result<Statement, ParserError>)
        requires
            old(self).wf(),
        ensures
            final(self).wf(),
            final(self).tokens == old(self).tokens,
            parsed_stmt(
                parse_if(old(self).tokens@, old(self).current_index as int),
                r,
                final(self).current_index as int,
            ),
            final(self).current_index >= old(self).current_index,
            r is Ok ==> final(self).current_index > old(self).current_index,
        decreases old(self).tokens.len() - old(self).current_index, 12int, 0int,
    {
        let condition = self.expression()?;
        let statements = self.braced()?;
        let else_statements = if self.next_matches(TokenType::Else) {
            self.advance();
            Some(self.braced()?)
        } else {
            None
        };
        Ok(Statement::If(IfStatement { condition, statements, else_statements }))
    }

    fn while_statement(&mut self) -> (r: Result<Statement, ParserError>)
        requires
            old(self).wf(),
        ensures
            final(self).wf(),
            final(self).tokens == old(self).tokens,
            parsed_stmt(
                parse_while(old(self).tokens@, old(self).current_index as int),
                r,
                final(self).current_index as int,
            ),
            final(self).current_index >= old(self).current_index,
            r is Ok ==> final(self).current_index > old(self).current_index,
        decreases old(self).tokens.len() - old(self).current_index, 12int, 0int,
    {
        let condition = self.expression()?;
        let statements = self.braced()?;
        Ok(Statement::While(WhileStatement { condition, statements }))
    }

    fn statement(&mut self) -> (r: Result<Statement, ParserError>)
        requires
            old(self).wf(),
        ensures
            final(self).wf(),
            final(self).tokens == old(self).tokens,
            parsed_stmt(
                parse_statement(old(self).tokens@, old(self).current_index as int),
                r,
                final(self).current_index as int,
            ),
            final(self).current_index >= old(self).current_index,
            r is Ok ==> final(self).current_index > old(self).current_index,
            is_statement_keyword(old(self).tokens@[old(self).current_index as int].token_type)
                ==> final(self).current_index > old(self).current_index,
        decreases old(self).tokens.len() - old(self).current_index, 15int, 0int,
    {
        if self.next_matches(TokenType::If) {
            self.advance();
            return self.if_statement();
        }
        if self.next_matches(TokenType::For) || self.next_matches(TokenType::While) {
            self.advance();
            return self.while_statement();
        }
        let first = self.lookahead(0);
        let second = self.lookahead(1);
        if first == Some(TokenType::Identifier) && (second == Some(TokenType::VarDec) || (second
            == Some(TokenType::Colon) && self.lookahead(2) == Some(TokenType::Identifier)
            && self.lookahead(3) == Some(TokenType::Equal))) {
            return self.variable_declaration();
        }
        if self.next_matches(TokenType::LeftBrace) {
            self.advance();
            let statements = self.block()?;
            return Ok(Statement::Block(statements));
        }
        self.expression_statement()
    }

    /// Discards tokens up to the next statement keyword or the end of input,
    /// or just past the next `;`.
    fn sync(&mut self)
        requires
            old(self).wf(),
        ensures
            final(self).wf(),
            final(self).tokens == old(self).tokens,
            final(self).current_index == sync_from(
                old(self).tokens@,
                old(self).current_index as int,
            ),
    {
        let ghost ts = self.tokens@;
        let ghost p = self.current_index as int;
        loop
            invariant
                self.wf(),
                self.tokens == old(self).tokens,
                ts == old(self).tokens@,
                p == old(self).current_index,
                sync_from(ts, p) == sync_from(ts, self.current_index as int),
            decreases ts.len() - self.current_index,
        {
            if self.is_end() {
                return;
            }
            let t = self.tokens[self.current_index].token_type;
            if t == TokenType::If || t == TokenType::For || t == TokenType::While {
                return;
            }
            self.advance();
            if t == TokenType::SemiColon {
                return;
            }
        }
    }

    /// Parses every statement, recovering from each syntax error at the next
    /// statement boundary; succeeds only where no error was found.
    pub fn parse(self) -> (r: Result<Vec<Statement>, Vec<ParserError>>)
        requires
            self.wf(),
            self.position() == 0,
        ensures
            match parse_tokens(self.token_seq()) {
                Ok(stmts) => r is Ok && stmts_model(r->Ok_0) == stmts,
                Err(errors) => r is Err && r->Err_0@.map_values(|e: ParserError| e.fault())
                    == errors,
            },
    {
        let mut parser = self;
        let ghost ts = parser.tokens@;
        let mut statements: Vec<Statement> = Vec::new();
        let mut errors: Vec<ParserError> = Vec::new();
        proof {
            lemma_stmts_empty(statements);
            assert(errors@.map_values(|e: ParserError| e.fault()) =~= Seq::<ParseFault>::empty());
        }
        while !parser.is_end()
            invariant
                parser.wf(),
                parser.tokens@ == ts,
                parse_from(ts, 0, Seq::empty(), Seq::empty()) == parse_from(
                    ts,
                    parser.current_index as int,
                    stmts_model(statements),
                    errors@.map_values(|e: ParserError| e.fault()),
                ),
            decreases ts.len() - parser.current_index,
        {
            let ghost p = parser.current_index as int;
            let ghost before = statements;
            let ghost faults = errors@.map_values(|e: ParserError| e.fault());
            match parser.statement() {
                Ok(statement) => {
                    statements.push(statement);
                    proof {
                        lemma_stmts_push(before, statements, statement);
                    }
                },
                Err(e) => {
                    let ghost f = e.fault();
                    proof {
                        lemma_sync_forward(ts, parser.current_index as int);
                    }
                    errors.push(e);
                    proof {
                        assert(errors@.map_values(|e: ParserError| e.fault()) =~= faults.push(f));
                    }
                    parser.sync();
                },
            }
        }
        if errors.len() == 0 {
            return Ok(statements);
        }
        Err(errors)
    }
}

} // verus!
