use crate::environment::{
    find, lemma_find_bounds, Binding,
    declared_in_innermost, env_assign, env_declare, env_enter, env_exit, env_find, env_lookup,
    EnvModel, Environment,
};
use crate::statement::{
    stmt_model, stmts_model, AssignmentExpression, BinaryExpression, Expression, Statement,
    StmtModel,
    VariableDeclaration,
};
use crate::token::{literal_kind_name, Literal, NumberLiteral, Token, TokenType};
use crate::value::{
    arithmetic, comparison, is_arithmetic, is_comparison, negation, numbers_equal,
    RuntimeErrorKind, Value,
};
use vstd::prelude::*;
use vstd::string::StringExecFns;

verus! {

broadcast use vstd::std_specs::vec::axiom_vec_index_decreases, vstd::seq::axiom_seq_index_decreases;

/// What a runtime error is: its kind, its message, and the token where it
/// arose.
pub struct RuntimeFault {
    pub kind: RuntimeErrorKind,
    pub message: Seq<char>,
    pub token: Token,
}

/// The error of a kind at a token, with the message of that kind.
pub open spec fn fault(kind: RuntimeErrorKind, token: Token) -> RuntimeFault {
    RuntimeFault { kind, message: runtime_message(kind, token.lexeme@), token }
}

/// The message of an error kind; those about a variable name it.
pub open spec fn runtime_message(kind: RuntimeErrorKind, name: Seq<char>) -> Seq<char> {
    match kind {
        RuntimeErrorKind::EmptyValue => "Cannot execute an operation in an empty value"@,
        RuntimeErrorKind::OptionalValue => "Cannot execute an operation in an optional value. Try unwrapping it first"@,
        RuntimeErrorKind::NotANumber => "Expected a number"@,
        RuntimeErrorKind::NotABoolean => "Expected a boolean"@,
        RuntimeErrorKind::NonBooleanCondition => "Expected boolean condition"@,
        RuntimeErrorKind::IncomparableKinds => "Can't compare values of different kinds"@,
        RuntimeErrorKind::InvalidOperator => "Invalid operator"@,
        RuntimeErrorKind::DivisionByZero => "Division by zero"@,
        RuntimeErrorKind::Overflow => "Integer overflow"@,
        RuntimeErrorKind::UndefinedVariable => "Variable '"@ + name
            + "' not found in the current scope"@,
        RuntimeErrorKind::UndeclaredAssignment => "Cannot assign a value to undeclared variable '"@
            + name + "'"@,
        RuntimeErrorKind::Redeclaration => "Variable '"@ + name
            + "' already declared in this scope"@,
        RuntimeErrorKind::MissingLiteral => "Literal expression without a value"@,
        RuntimeErrorKind::IterationLimit => "Loop iteration limit reached"@,
    }
}

/// The error of comparing literals of two different kinds, naming both.
pub open spec fn incomparable(a: Literal, b: Literal, token: Token) -> RuntimeFault {
    RuntimeFault {
        kind: RuntimeErrorKind::IncomparableKinds,
        message: "Can't compare "@ + literal_kind_name(a@) + " with "@ + literal_kind_name(b@),
        token,
    }
}

/// A runtime error: its kind, a message, and the token where it arose.
#[derive(Debug)]
pub struct InterpreterError {
    pub kind: RuntimeErrorKind,
    pub message: String,
    pub token: Token,
}

impl InterpreterError {
    pub open spec fn fault(&self) -> RuntimeFault {
        RuntimeFault { kind: self.kind, message: self.message@, token: self.token }
    }

    /// The error of a kind at a token.
    pub fn new(kind: RuntimeErrorKind, token: Token) -> (r: InterpreterError)
        ensures
            r.fault() == fault(kind, token),
    {
        let name = token.lexeme.as_str();
        let message = match kind {
            RuntimeErrorKind::EmptyValue => "Cannot execute an operation in an empty value".to_owned(),
            RuntimeErrorKind::OptionalValue => "Cannot execute an operation in an optional value. Try unwrapping it first".to_owned(),
            RuntimeErrorKind::NotANumber => "Expected a number".to_owned(),
            RuntimeErrorKind::NotABoolean => "Expected a boolean".to_owned(),
            RuntimeErrorKind::NonBooleanCondition => "Expected boolean condition".to_owned(),
            RuntimeErrorKind::IncomparableKinds => "Can't compare values of different kinds".to_owned(),
            RuntimeErrorKind::InvalidOperator => "Invalid operator".to_owned(),
            RuntimeErrorKind::DivisionByZero => "Division by zero".to_owned(),
            RuntimeErrorKind::Overflow => "Integer overflow".to_owned(),
            RuntimeErrorKind::UndefinedVariable => "Variable '".to_owned().concat(name).concat(
                "' not found in the current scope",
            ),
            RuntimeErrorKind::UndeclaredAssignment => "Cannot assign a value to undeclared variable '".to_owned().concat(
                name,
            ).concat("'"),
            RuntimeErrorKind::Redeclaration => "Variable '".to_owned().concat(name).concat(
                "' already declared in this scope",
            ),
            RuntimeErrorKind::MissingLiteral => "Literal expression without a value".to_owned(),
            RuntimeErrorKind::IterationLimit => "Loop iteration limit reached".to_owned(),
        };
        InterpreterError { kind, message, token }
    }

    /// The error of comparing literals of two different kinds.
    pub fn incomparable(a: &Literal, b: &Literal, token: Token) -> (r: InterpreterError)
        ensures
            r.fault() == incomparable(*a, *b, token),
    {
        let message = "Can't compare ".to_owned().concat(a.get_type()).concat(" with ").concat(
            b.get_type(),
        );
        InterpreterError { kind: RuntimeErrorKind::IncomparableKinds, message, token }
    }
}

/// The leftmost token of an expression, where errors about it are reported.
pub open spec fn first_token(e: Expression) -> Token
    decreases e,
{
    match e {
        Expression::Binary(b) => first_token(*b.left),
        Expression::Logical(b) => first_token(*b.left),
        Expression::Unary(u) => u.operator,
        Expression::Literal(l) => l.value,
        Expression::Grouping(g) => first_token(*g.expression),
        Expression::Variable(v) => v.value,
        Expression::Assignment(a) => a.name,
    }
}

/// The number a value holds.
pub open spec fn number_of(v: Value) -> Result<NumberLiteral, RuntimeErrorKind> {
    match v {
        Value::Empty => Err(RuntimeErrorKind::EmptyValue),
        Value::Optional(_) => Err(RuntimeErrorKind::OptionalValue),
        Value::Literal(Literal::Number(n)) => Ok(n),
        Value::Literal(_) => Err(RuntimeErrorKind::NotANumber),
    }
}

/// The boolean a value holds.
pub open spec fn boolean_of(v: Value) -> Result<bool, RuntimeErrorKind> {
    match v {
        Value::Empty => Err(RuntimeErrorKind::EmptyValue),
        Value::Optional(_) => Err(RuntimeErrorKind::OptionalValue),
        Value::Literal(Literal::Boolean(b)) => Ok(b),
        Value::Literal(_) => Err(RuntimeErrorKind::NotABoolean),
    }
}

pub open spec fn boolean(b: bool) -> Value {
    Value::Literal(Literal::Boolean(b))
}

/// `-` on a number, `!` on a boolean.
pub open spec fn unary_result(op: TokenType, v: Value) -> Result<Value, RuntimeErrorKind> {
    match v {
        Value::Empty => Err(RuntimeErrorKind::EmptyValue),
        Value::Optional(_) => Err(RuntimeErrorKind::OptionalValue),
        Value::Literal(l) => if op == TokenType::Minus {
            match l {
                Literal::Number(n) => match negation(n) {
                    Ok(m) => Ok(Value::Literal(Literal::Number(m))),
                    Err(k) => Err(k),
                },
                _ => Err(RuntimeErrorKind::NotANumber),
            }
        } else if op == TokenType::Bang {
            match l {
                Literal::Boolean(b) => Ok(boolean(!b)),
                _ => Err(RuntimeErrorKind::NotABoolean),
            }
        } else {
            Err(RuntimeErrorKind::InvalidOperator)
        },
    }
}

/// Equality of two values of the same literal kind.
pub open spec fn equality(l: Value, r: Value) -> Result<bool, RuntimeErrorKind> {
    match (l, r) {
        (Value::Literal(a), Value::Literal(b)) => match (a, b) {
            (Literal::Number(x), Literal::Number(y)) => Ok(numbers_equal(x, y)),
            (Literal::String(s), Literal::String(t)) => Ok(s@ == t@),
            (Literal::Boolean(p), Literal::Boolean(q)) => Ok(p == q),
            _ => Err(RuntimeErrorKind::IncomparableKinds),
        },
        (Value::Empty, _) => Err(RuntimeErrorKind::EmptyValue),
        (Value::Optional(_), _) => Err(RuntimeErrorKind::OptionalValue),
        (_, Value::Empty) => Err(RuntimeErrorKind::EmptyValue),
        (_, Value::Optional(_)) => Err(RuntimeErrorKind::OptionalValue),
    }
}

pub open spec fn binary_result(op: TokenType, l: Value, r: Value) -> Result<Value, RuntimeErrorKind> {
    if is_arithmetic(op) || is_comparison(op) {
        match number_of(l) {
            Err(k) => Err(k),
            Ok(a) => match number_of(r) {
                Err(k) => Err(k),
                Ok(b) => if is_arithmetic(op) {
                    match arithmetic(op, a, b) {
                        Ok(n) => Ok(Value::Literal(Literal::Number(n))),
                        Err(k) => Err(k),
                    }
                } else {
                    Ok(boolean(comparison(op, a, b)))
                },
            },
        }
    } else if op == TokenType::DoubleEqual || op == TokenType::BangEqual {
        match equality(l, r) {
            Ok(eq) => Ok(boolean(if op == TokenType::DoubleEqual { eq } else { !eq })),
            Err(k) => Err(k),
        }
    } else {
        Err(RuntimeErrorKind::InvalidOperator)
    }
}

/// The error of the binary operator `op` on the values `l` and `r`, of kind
/// `k`; a comparison across kinds names both kinds.
pub open spec fn binary_fault(k: RuntimeErrorKind, op: Token, l: Value, r: Value) -> RuntimeFault {
    if k == RuntimeErrorKind::IncomparableKinds && l is Literal && r is Literal {
        incomparable(l->Literal_0, r->Literal_0, op)
    } else {
        fault(k, op)
    }
}

/// The value of an expression and the environment after it, or the first
/// runtime error and the environment as it stood then. Operands are
/// evaluated left to right; `&&` and `||` evaluate their right operand only
/// where the left one does not decide.
pub open spec fn eval(env: EnvModel, e: Expression) -> Result<
    (Value, EnvModel),
    (RuntimeFault, EnvModel),
>
    decreases e,
{
    match e {
        Expression::Literal(x) => match x.value.literal {
            Some(l) => Ok((Value::Literal(l), env)),
            None => Err((fault(RuntimeErrorKind::MissingLiteral, x.value), env)),
        },
        Expression::Grouping(g) => eval(env, *g.expression),
        Expression::Variable(v) => match env_lookup(env, v.value.lexeme@) {
            Some(val) => Ok((val, env)),
            None => Err((fault(RuntimeErrorKind::UndefinedVariable, v.value), env)),
        },
        Expression::Assignment(a) => if env_find(env, a.name.lexeme@) < 0 {
            Err((fault(RuntimeErrorKind::UndeclaredAssignment, a.name), env))
        } else {
            match eval(env, *a.value) {
                Err(f) => Err(f),
                Ok((v, env2)) => if env_find(env2, a.name.lexeme@) < 0 {
                    Err((fault(RuntimeErrorKind::UndeclaredAssignment, a.name), env2))
                } else {
                    Ok((Value::Empty, env_assign(env2, a.name.lexeme@, v)))
                },
            }
        },
        Expression::Unary(u) => match eval(env, *u.left) {
            Err(f) => Err(f),
            Ok((v, env2)) => match unary_result(u.operator.token_type, v) {
                Ok(r) => Ok((r, env2)),
                Err(k) => Err((fault(k, u.operator), env2)),
            },
        },
        Expression::Binary(b) => match eval(env, *b.left) {
            Err(f) => Err(f),
            Ok((l, env1)) => match eval(env1, *b.right) {
                Err(f) => Err(f),
                Ok((r, env2)) => match binary_result(b.operator.token_type, l, r) {
                    Ok(x) => Ok((x, env2)),
                    Err(k) => Err((binary_fault(k, b.operator, l, r), env2)),
                },
            },
        },
        Expression::Logical(b) => {
            let op = b.operator.token_type;
            if op != TokenType::And && op != TokenType::Or {
                Err((fault(RuntimeErrorKind::InvalidOperator, b.operator), env))
            } else {
                match eval(env, *b.left) {
                    Err(f) => Err(f),
                    Ok((l, env1)) => match boolean_of(l) {
                        Err(k) => Err((fault(k, b.operator), env1)),
                        Ok(lb) => if (op == TokenType::Or && lb) || (op == TokenType::And && !lb) {
                            Ok((boolean(lb), env1))
                        } else {
                            match eval(env1, *b.right) {
                                Err(f) => Err(f),
                                Ok((r, env2)) => match boolean_of(r) {
                                    Err(k) => Err((fault(k, b.operator), env2)),
                                    Ok(rb) => Ok((boolean(rb), env2)),
                                },
                            }
                        },
                    },
                }
            }
        },
    }
}

/// How running a statement ends; each outcome comes with the environment as
/// it stands at that point.
pub enum Run {
    /// With a value.
    Finished(Value, EnvModel),
    /// With a runtime error, which stops everything after it.
    Failed(RuntimeFault, EnvModel),
    /// Out of loop iterations.
    Exhausted(EnvModel),
}

/// The value a declaration binds: a literal without a value becomes an empty
/// optional; anything else is evaluated.
pub open spec fn initial_value(env: EnvModel, init: Expression) -> Result<
    (Value, EnvModel),
    (RuntimeFault, EnvModel),
> {
    match init {
        Expression::Literal(x) => match x.value.literal {
            Some(l) => Ok((Value::Literal(l), env)),
            None => Ok((Value::Optional(None), env)),
        },
        _ => eval(env, init),
    }
}

/// Runs a statement with `fuel` loop iterations to spend; the result comes
/// with the fuel that is left.
pub open spec fn run_stmt(fuel: nat, env: EnvModel, s: StmtModel) -> (Run, nat)
    decreases fuel, s, 0int,
{
    match s {
        StmtModel::Expression(e) => match eval(env, e) {
            Ok((v, env2)) => (Run::Finished(v, env2), fuel),
            Err((f, env2)) => (Run::Failed(f, env2), fuel),
        },
        StmtModel::VariableDeclaration(d) => match initial_value(env, d.initializer) {
            Err((f, env2)) => (Run::Failed(f, env2), fuel),
            Ok((v, env2)) => if declared_in_innermost(env2, d.identifier.lexeme@) {
                (Run::Failed(fault(RuntimeErrorKind::Redeclaration, d.identifier), env2), fuel)
            } else {
                (Run::Finished(Value::Empty, env_declare(env2, d.identifier.lexeme, v)), fuel)
            },
        },
        StmtModel::Block(ss) => run_block(fuel, env, ss),
        StmtModel::If(c, then_branch, else_branch) => match eval(env, c) {
            Err((f, env2)) => (Run::Failed(f, env2), fuel),
            Ok((v, env2)) => match boolean_of(v) {
                Err(_) => (
                    Run::Failed(fault(RuntimeErrorKind::NonBooleanCondition, first_token(c)), env2),
                    fuel,
                ),
                Ok(b) => if b {
                    run_block(fuel, env2, then_branch)
                } else {
                    match else_branch {
                        Some(e) => run_block(fuel, env2, e),
                        None => (Run::Finished(Value::Empty, env2), fuel),
                    }
                },
            },
        },
        StmtModel::While(c, body) => run_while(fuel, env, c, body),
    }
}

/// Runs statements in a new child scope, which is closed afterwards, also
/// when they fail.
pub open spec fn run_block(fuel: nat, env: EnvModel, ss: Seq<StmtModel>) -> (Run, nat)
    decreases fuel, ss, ss.len() + 1,
{
    match run_list(fuel, env_enter(env), ss, 0, Value::Empty) {
        (Run::Finished(v, env2), f) => (Run::Finished(v, env_exit(env2)), f),
        (Run::Failed(e, env2), f) => (Run::Failed(e, env_exit(env2)), f),
        (Run::Exhausted(env2), f) => (Run::Exhausted(env_exit(env2)), f),
    }
}

/// Runs the statements of `ss` from index `k` on; the value is that of the
/// last statement run (`last` where none is left). The first error stops
/// the run.
pub open spec fn run_list(fuel: nat, env: EnvModel, ss: Seq<StmtModel>, k: int, last: Value) -> (
    Run,
    nat,
)
    decreases fuel, ss, ss.len() - k,
{
    if !(0 <= k < ss.len()) {
        (Run::Finished(last, env), fuel)
    } else {
        match run_stmt(fuel, env, ss[k]) {
            (Run::Finished(v, env2), f) => if f <= fuel {
                run_list(f, env2, ss, k + 1, v)
            } else {
                (Run::Exhausted(env2), f)
            },
            other => other,
        }
    }
}

/// A loop: each iteration whose condition holds runs the body in a fresh
/// child scope and spends one unit of fuel.
pub open spec fn run_while(fuel: nat, env: EnvModel, c: Expression, body: Seq<StmtModel>) -> (
    Run,
    nat,
)
    decreases fuel, body, body.len() + 2,
{
    match eval(env, c) {
        Err((f, env2)) => (Run::Failed(f, env2), fuel),
        Ok((v, env2)) => match boolean_of(v) {
            Err(_) => (
                Run::Failed(fault(RuntimeErrorKind::NonBooleanCondition, first_token(c)), env2),
                fuel,
            ),
            Ok(b) => if !b {
                (Run::Finished(Value::Empty, env2), fuel)
            } else if fuel == 0 {
                (Run::Exhausted(env2), 0)
            } else {
                match run_block((fuel - 1) as nat, env2, body) {
                    (Run::Finished(_, env3), f) => if f < fuel {
                        run_while(f, env3, c, body)
                    } else {
                        (Run::Exhausted(env3), f)
                    },
                    other => other,
                }
            },
        },
    }
}

} // verus!

verus! {

/// How an executed statement relates to the semantics: the same value,
/// environment and remaining fuel when it finishes, the same error when it
/// fails, and an iteration-limit error when the fuel runs out.
pub open spec fn ran_as(
    expected: (Run, nat),
    r: Result<Value, InterpreterError>,
    env: EnvModel,
    fuel: nat,
) -> bool {
    match expected.0 {
        Run::Finished(v, m) => r == Ok::<Value, InterpreterError>(v) && env == m && fuel
            == expected.1,
        Run::Failed(f, m) => r is Err && r->Err_0.fault() == f && env == m,
        Run::Exhausted(m) => r is Err && r->Err_0.kind == RuntimeErrorKind::IterationLimit && env
            == m,
    }
}

/// A tree-walking evaluator.
pub struct Interpreter {}

fn leading_token(e: &Expression) -> (r: Token)
    ensures
        r == first_token(*e),
    decreases e,
{
    match e {
        Expression::Binary(b) => leading_token(&b.left),
        Expression::Logical(b) => leading_token(&b.left),
        Expression::Unary(u) => u.operator.duplicate(),
        Expression::Literal(l) => l.value.duplicate(),
        Expression::Grouping(g) => leading_token(&g.expression),
        Expression::Variable(v) => v.value.duplicate(),
        Expression::Assignment(a) => a.name.duplicate(),
    }
}

fn unwrap_number(v: &Value) -> (r: Result<NumberLiteral, RuntimeErrorKind>)
    ensures
        r == number_of(*v),
{
    match v {
        Value::Empty => Err(RuntimeErrorKind::EmptyValue),
        Value::Optional(_) => Err(RuntimeErrorKind::OptionalValue),
        Value::Literal(Literal::Number(n)) => Ok(*n),
        Value::Literal(_) => Err(RuntimeErrorKind::NotANumber),
    }
}

fn unwrap_bool(v: &Value) -> (r: Result<bool, RuntimeErrorKind>)
    ensures
        r == boolean_of(*v),
{
    match v {
        Value::Empty => Err(RuntimeErrorKind::EmptyValue),
        Value::Optional(_) => Err(RuntimeErrorKind::OptionalValue),
        Value::Literal(Literal::Boolean(b)) => Ok(*b),
        Value::Literal(_) => Err(RuntimeErrorKind::NotABoolean),
    }
}

fn values_equal(l: &Value, r: &Value) -> (res: Result<bool, RuntimeErrorKind>)
    ensures
        res == equality(*l, *r),
{
    match (l, r) {
        (Value::Literal(a), Value::Literal(b)) => match (a, b) {
            (Literal::Number(x), Literal::Number(y)) => Ok(NumberLiteral::equals(*x, *y)),
            (Literal::String(s), Literal::String(t)) => Ok(*s == *t),
            (Literal::Boolean(p), Literal::Boolean(q)) => Ok(*p == *q),
            _ => Err(RuntimeErrorKind::IncomparableKinds),
        },
        (Value::Empty, _) => Err(RuntimeErrorKind::EmptyValue),
        (Value::Optional(_), _) => Err(RuntimeErrorKind::OptionalValue),
        (_, Value::Empty) => Err(RuntimeErrorKind::EmptyValue),
        (_, Value::Optional(_)) => Err(RuntimeErrorKind::OptionalValue),
    }
}

impl Interpreter {
    /// Runs a program in an environment: the value of its last statement
    /// (empty where there is none), or its first runtime error. Loops may run
    /// at most `u64::MAX` iterations in all.
    pub fn interpret(environment: &mut Environment, statements: &Vec<Statement>) -> (r: Result<
        Value,
        InterpreterError,
    >)
        requires
            old(environment).wf(),
        ensures
            final(environment).wf(),
            final(environment).model().starts == old(environment).model().starts,
            match run_list(
                u64::MAX as nat,
                old(environment).model(),
                stmts_model(*statements),
                0,
                Value::Empty,
            ).0 {
                Run::Finished(v, m) => r == Ok::<Value, InterpreterError>(v)
                    && final(environment).model() == m,
                Run::Failed(f, m) => r is Err && r->Err_0.fault() == f
                    && final(environment).model() == m,
                Run::Exhausted(m) => r is Err && r->Err_0.kind == RuntimeErrorKind::IterationLimit
                    && final(environment).model() == m,
            },
    {
        let mut fuel: u64 = u64::MAX;
        Interpreter::run_statements(environment, statements, &mut fuel)
    }

    fn run_statements(environment: &mut Environment, statements: &Vec<Statement>, fuel: &mut u64) -> (r: Result<
        Value,
        InterpreterError,
    >)
        requires
            old(environment).wf(),
        ensures
            final(environment).wf(),
            final(environment).model().starts == old(environment).model().starts,
            *final(fuel) <= *old(fuel),
            ran_as(
                run_list(
                    *old(fuel) as nat,
                    old(environment).model(),
                    stmts_model(*statements),
                    0,
                    Value::Empty,
                ),
                r,
                final(environment).model(),
                *final(fuel) as nat,
            ),
        decreases *old(fuel), *statements, 1int,
    {
        let ghost ss = stmts_model(*statements);
        let mut last = Value::Empty;
        let mut k: usize = 0;
        while k < statements.len()
            invariant
                environment.wf(),
                environment.model().starts == old(environment).model().starts,
                *fuel <= *old(fuel),
                k <= statements.len(),
                ss == stmts_model(*statements),
                run_list(*old(fuel) as nat, old(environment).model(), ss, 0, Value::Empty)
                    == run_list(*fuel as nat, environment.model(), ss, k as int, last),
            decreases statements.len() - k,
        {
            match Interpreter::execute(environment, &statements[k], fuel) {
                Ok(v) => {
                    last = v;
                    k = k + 1;
                },
                Err(e) => {
                    return Err(e);
                },
            }
        }
        Ok(last)
    }

    fn execute_block(environment: &mut Environment, statements: &Vec<Statement>, fuel: &mut u64) -> (r: Result<
        Value,
        InterpreterError,
    >)
        requires
            old(environment).wf(),
        ensures
            final(environment).wf(),
            final(environment).model().starts == old(environment).model().starts,
            *final(fuel) <= *old(fuel),
            ran_as(
                run_block(*old(fuel) as nat, old(environment).model(), stmts_model(*statements)),
                r,
                final(environment).model(),
                *final(fuel) as nat,
            ),
        decreases *old(fuel), *statements, 2int,
    {
        environment.enter_scope();
        let r = Interpreter::run_statements(environment, statements, fuel);
        environment.exit_scope();
        r
    }

    fn execute_while(environment: &mut Environment, condition: &Expression, body: &Vec<Statement>, fuel: &mut u64) -> (r: Result<
        Value,
        InterpreterError,
    >)
        requires
            old(environment).wf(),
        ensures
            final(environment).wf(),
            final(environment).model().starts == old(environment).model().starts,
            *final(fuel) <= *old(fuel),
            ran_as(
                run_while(
                    *old(fuel) as nat,
                    old(environment).model(),
                    *condition,
                    stmts_model(*body),
                ),
                r,
                final(environment).model(),
                *final(fuel) as nat,
            ),
        decreases *old(fuel), *body, 3int,
    {
        let ghost ss = stmts_model(*body);
        loop
            invariant
                environment.wf(),
                environment.model().starts == old(environment).model().starts,
                *fuel <= *old(fuel),
                ss == stmts_model(*body),
                run_while(*old(fuel) as nat, old(environment).model(), *condition, ss)
                    == run_while(*fuel as nat, environment.model(), *condition, ss),
            decreases *fuel,
        {
            let value = Interpreter::evaluate(environment, condition)?;
            let holds = match unwrap_bool(&value) {
                Ok(b) => b,
                Err(_) => {
                    return Err(
                        InterpreterError::new(
                            RuntimeErrorKind::NonBooleanCondition,
                            leading_token(condition),
                        ),
                    );
                },
            };
            if !holds {
                return Ok(Value::Empty);
            }
            if *fuel == 0 {
                return Err(
                    InterpreterError::new(RuntimeErrorKind::IterationLimit, leading_token(condition)),
                );
            }
            *fuel = *fuel - 1;
            Interpreter::execute_block(environment, body, fuel)?;
        }
    }

    fn execute(environment: &mut Environment, statement: &Statement, fuel: &mut u64) -> (r: Result<
        Value,
        InterpreterError,
    >)
        requires
            old(environment).wf(),
        ensures
            final(environment).wf(),
            final(environment).model().starts == old(environment).model().starts,
            *final(fuel) <= *old(fuel),
            ran_as(
                run_stmt(*old(fuel) as nat, old(environment).model(), stmt_model(*statement)),
                r,
                final(environment).model(),
                *final(fuel) as nat,
            ),
        decreases *old(fuel), *statement, 0int,
    {
        match statement {
            Statement::Expression(e) => Interpreter::evaluate(environment, e),
            Statement::VariableDeclaration(d) => Interpreter::variable_declaration(environment, d),
            Statement::Block(statements) => Interpreter::execute_block(environment, statements, fuel),
            Statement::If(i) => {
                let value = Interpreter::evaluate(environment, &i.condition)?;
                let holds = match unwrap_bool(&value) {
                    Ok(b) => b,
                    Err(_) => {
                        return Err(
                            InterpreterError::new(
                                RuntimeErrorKind::NonBooleanCondition,
                                leading_token(&i.condition),
                            ),
                        );
                    },
                };
                if holds {
                    Interpreter::execute_block(environment, &i.statements, fuel)
                } else {
                    match &i.else_statements {
                        Some(statements) => Interpreter::execute_block(environment, statements, fuel),
                        None => Ok(Value::Empty),
                    }
                }
            },
            Statement::While(w) => Interpreter::execute_while(environment, &w.condition, &w.statements, fuel),
        }
    }

    fn variable_declaration(environment: &mut Environment, decl: &VariableDeclaration) -> (r: Result<
        Value,
        InterpreterError,
    >)
        requires
            old(environment).wf(),
        ensures
            final(environment).wf(),
            final(environment).model().starts == old(environment).model().starts,
            match run_stmt(0, old(environment).model(), StmtModel::VariableDeclaration(*decl)).0 {
                Run::Finished(v, m) => r == Ok::<Value, InterpreterError>(v)
                    && final(environment).model() == m,
                Run::Failed(f, m) => r is Err && r->Err_0.fault() == f
                    && final(environment).model() == m,
                Run::Exhausted(_) => false,
            },
    {
        let value = match &decl.initializer {
            Expression::Literal(x) => match &x.value.literal {
                Some(l) => Value::Literal(l.duplicate()),
                None => Value::Optional(None),
            },
            _ => Interpreter::evaluate(environment, &decl.initializer)?,
        };
        if environment.declares_here(decl.identifier.lexeme.as_str()) {
            return Err(
                InterpreterError::new(RuntimeErrorKind::Redeclaration, decl.identifier.duplicate()),
            );
        }
        environment.declare(decl.identifier.lexeme.clone(), value);
        Ok(Value::Empty)
    }

    fn evaluate(environment: &mut Environment, expression: &Expression) -> (r: Result<
        Value,
        InterpreterError,
    >)
        requires
            old(environment).wf(),
        ensures
            final(environment).wf(),
            final(environment).model().starts == old(environment).model().starts,
            match eval(old(environment).model(), *expression) {
                Ok((v, m)) => r == Ok::<Value, InterpreterError>(v) && final(environment).model()
                    == m,
                Err((f, m)) => r is Err && r->Err_0.fault() == f && final(environment).model()
                    == m,
            },
        decreases expression,
    {
        match expression {
            Expression::Literal(x) => match &x.value.literal {
                Some(l) => Ok(Value::Literal(l.duplicate())),
                None => Err(
                    InterpreterError::new(RuntimeErrorKind::MissingLiteral, x.value.duplicate()),
                ),
            },
            Expression::Grouping(g) => Interpreter::evaluate(environment, &g.expression),
            Expression::Variable(v) => match environment.lookup(v.value.lexeme.as_str()) {
                Some(value) => Ok(value),
                None => Err(
                    InterpreterError::new(RuntimeErrorKind::UndefinedVariable, v.value.duplicate()),
                ),
            },
            Expression::Assignment(a) => {
                let name = a.name.lexeme.as_str();
                if environment.lookup(name).is_none() {
                    return Err(
                        InterpreterError::new(
                            RuntimeErrorKind::UndeclaredAssignment,
                            a.name.duplicate(),
                        ),
                    );
                }
                let value = Interpreter::evaluate(environment, &a.value)?;
                if !environment.assign(name, value) {
                    return Err(
                        InterpreterError::new(
                            RuntimeErrorKind::UndeclaredAssignment,
                            a.name.duplicate(),
                        ),
                    );
                }
                Ok(Value::Empty)
            },
            Expression::Unary(u) => {
                let value = Interpreter::evaluate(environment, &u.left)?;
                Interpreter::unary(&u.operator, &value)
            },
            Expression::Binary(b) => {
                let left = Interpreter::evaluate(environment, &b.left)?;
                let right = Interpreter::evaluate(environment, &b.right)?;
                Interpreter::binary(&b.operator, &left, &right)
            },
            Expression::Logical(b) => Interpreter::logical(environment, b),
        }
    }

    fn unary(operator: &Token, value: &Value) -> (r: Result<Value, InterpreterError>)
        ensures
            match unary_result(operator.token_type, *value) {
                Ok(x) => r == Ok::<Value, InterpreterError>(x),
                Err(k) => r is Err && r->Err_0.fault() == fault(k, *operator),
            },
    {
        let result = match value {
            Value::Empty => Err(RuntimeErrorKind::EmptyValue),
            Value::Optional(_) => Err(RuntimeErrorKind::OptionalValue),
            Value::Literal(l) => {
                if operator.token_type == TokenType::Minus {
                    match l {
                        Literal::Number(n) => match NumberLiteral::negate(*n) {
                            Ok(m) => Ok(Value::Literal(Literal::Number(m))),
                            Err(k) => Err(k),
                        },
                        _ => Err(RuntimeErrorKind::NotANumber),
                    }
                } else if operator.token_type == TokenType::Bang {
                    match l {
                        Literal::Boolean(b) => Ok(Value::Literal(Literal::Boolean(!*b))),
                        _ => Err(RuntimeErrorKind::NotABoolean),
                    }
                } else {
                    Err(RuntimeErrorKind::InvalidOperator)
                }
            },
        };
        match result {
            Ok(x) => Ok(x),
            Err(k) => Err(InterpreterError::new(k, operator.duplicate())),
        }
    }

    fn binary(operator: &Token, left: &Value, right: &Value) -> (r: Result<Value, InterpreterError>)
        ensures
            match binary_result(operator.token_type, *left, *right) {
                Ok(x) => r == Ok::<Value, InterpreterError>(x),
                Err(k) => r is Err && r->Err_0.fault() == binary_fault(k, *operator, *left, *right),
            },
    {
        let op = operator.token_type;
        let arithmetic_op = op == TokenType::Plus || op == TokenType::Minus || op
            == TokenType::Star || op == TokenType::Slash;
        let comparison_op = op == TokenType::Greater || op == TokenType::GreaterEqual || op
            == TokenType::Less || op == TokenType::LessEqual;
        let result = if arithmetic_op || comparison_op {
            match unwrap_number(left) {
                Err(k) => Err(k),
                Ok(a) => match unwrap_number(right) {
                    Err(k) => Err(k),
                    Ok(b) => if arithmetic_op {
                        match NumberLiteral::arithmetic(op, a, b) {
                            Ok(n) => Ok(Value::Literal(Literal::Number(n))),
                            Err(k) => Err(k),
                        }
                    } else {
                        Ok(Value::Literal(Literal::Boolean(NumberLiteral::compare(op, a, b))))
                    },
                },
            }
        } else if op == TokenType::DoubleEqual || op == TokenType::BangEqual {
            match values_equal(left, right) {
                Ok(eq) => Ok(
                    Value::Literal(
                        Literal::Boolean(
                            if op == TokenType::DoubleEqual {
                                eq
                            } else {
                                !eq
                            },
                        ),
                    ),
                ),
                Err(k) => Err(k),
            }
        } else {
            Err(RuntimeErrorKind::InvalidOperator)
        };
        match result {
            Ok(x) => Ok(x),
            Err(k) => match (left, right) {
                (Value::Literal(a), Value::Literal(b)) => if k == RuntimeErrorKind::IncomparableKinds {
                    Err(InterpreterError::incomparable(a, b, operator.duplicate()))
                } else {
                    Err(InterpreterError::new(k, operator.duplicate()))
                },
                _ => Err(InterpreterError::new(k, operator.duplicate())),
            },
        }
    }

    /// `&&` and `||`, evaluating the right operand only where the left one does
    /// not decide the result.
    fn logical(environment: &mut Environment, logical: &BinaryExpression) -> (r: Result<
        Value,
        InterpreterError,
    >)
        requires
            old(environment).wf(),
        ensures
            final(environment).wf(),
            final(environment).model().starts == old(environment).model().starts,
            match eval(old(environment).model(), Expression::Logical(*logical)) {
                Ok((v, m)) => r == Ok::<Value, InterpreterError>(v) && final(environment).model()
                    == m,
                Err((f, m)) => r is Err && r->Err_0.fault() == f && final(environment).model()
                    == m,
            },
        decreases Expression::Logical(*logical), 0int,
    {
        let op = logical.operator.token_type;
        if op != TokenType::And && op != TokenType::Or {
            return Err(
                InterpreterError::new(RuntimeErrorKind::InvalidOperator, logical.operator.duplicate()),
            );
        }
        let left = Interpreter::evaluate(environment, &logical.left)?;
        let left_value = match unwrap_bool(&left) {
            Ok(b) => b,
            Err(k) => {
                return Err(InterpreterError::new(k, logical.operator.duplicate()));
            },
        };
        if (op == TokenType::Or && left_value) || (op == TokenType::And && !left_value) {
            return Ok(Value::Literal(Literal::Boolean(left_value)));
        }
        let right = Interpreter::evaluate(environment, &logical.right)?;
        match unwrap_bool(&right) {
            Ok(b) => Ok(Value::Literal(Literal::Boolean(b))),
            Err(k) => Err(InterpreterError::new(k, logical.operator.duplicate())),
        }
    }
}

} // verus!

verus! {

/// Short circuit: where the left operand of `&&` evaluates to false, the
/// whole expression is false, whatever the right operand is, and the right
/// operand is not evaluated (the environment is the one the left operand
/// left).
pub proof fn lemma_and_short_circuits(
    env: EnvModel,
    left: Expression,
    operator: Token,
    right: Expression,
    env1: EnvModel,
)
    requires
        operator.token_type == TokenType::And,
        eval(env, left) == Ok::<(Value, EnvModel), (RuntimeFault, EnvModel)>((boolean(false), env1)),
    ensures
        eval(
            env,
            Expression::Logical(
                BinaryExpression { left: Box::new(left), operator, right: Box::new(right) },
            ),
        ) == Ok::<(Value, EnvModel), (RuntimeFault, EnvModel)>((boolean(false), env1)),
{
}

/// Short circuit: where the left operand of `||` evaluates to true, the whole
/// expression is true, whatever the right operand is, and the right operand
/// is not evaluated.
pub proof fn lemma_or_short_circuits(
    env: EnvModel,
    left: Expression,
    operator: Token,
    right: Expression,
    env1: EnvModel,
)
    requires
        operator.token_type == TokenType::Or,
        eval(env, left) == Ok::<(Value, EnvModel), (RuntimeFault, EnvModel)>((boolean(true), env1)),
    ensures
        eval(
            env,
            Expression::Logical(
                BinaryExpression { left: Box::new(left), operator, right: Box::new(right) },
            ),
        ) == Ok::<(Value, EnvModel), (RuntimeFault, EnvModel)>((boolean(true), env1)),
{
}

} // verus!

verus! {

/// Two environments with the same scopes and the same names bound, in the
/// same order; values may differ.
pub open spec fn same_shape(a: EnvModel, b: EnvModel) -> bool {
    &&& a.starts == b.starts
    &&& a.bindings.len() == b.bindings.len()
    &&& forall|i: int| 0 <= i < a.bindings.len() ==> #[trigger] a.bindings[i].name == b.bindings[i].name
}

/// `b` has the scopes of `a` and its bindings, in shape, followed by more.
pub open spec fn extends_shape(a: EnvModel, b: EnvModel) -> bool {
    &&& a.starts == b.starts
    &&& a.bindings.len() <= b.bindings.len()
    &&& forall|i: int| 0 <= i < a.bindings.len() ==> #[trigger] a.bindings[i].name == b.bindings[i].name
}

/// Evaluating an expression changes values only, never which names are bound
/// where.
pub proof fn lemma_eval_keeps_shape(env: EnvModel, e: Expression)
    requires
        eval(env, e) is Ok,
    ensures
        same_shape(env, eval(env, e)->Ok_0.1),
    decreases e,
{
    match e {
        Expression::Grouping(g) => lemma_eval_keeps_shape(env, *g.expression),
        Expression::Assignment(a) => {
            lemma_eval_keeps_shape(env, *a.value);
            let env2 = eval(env, *a.value)->Ok_0.1;
            lemma_find_bounds(env2.bindings, a.name.lexeme@, env2.bindings.len() as int);
        },
        Expression::Unary(u) => lemma_eval_keeps_shape(env, *u.left),
        Expression::Binary(b) => {
            lemma_eval_keeps_shape(env, *b.left);
            let env1 = eval(env, *b.left)->Ok_0.1;
            lemma_eval_keeps_shape(env1, *b.right);
        },
        Expression::Logical(b) => {
            if eval(env, *b.left) is Ok {
                lemma_eval_keeps_shape(env, *b.left);
                let env1 = eval(env, *b.left)->Ok_0.1;
                if eval(env1, *b.right) is Ok {
                    lemma_eval_keeps_shape(env1, *b.right);
                }
            }
        },
        _ => {},
    }
}

pub proof fn lemma_run_stmt_shape(fuel: nat, env: EnvModel, s: StmtModel)
    requires
        run_stmt(fuel, env, s).0 is Finished,
    ensures
        extends_shape(env, run_stmt(fuel, env, s).0->Finished_1),
    decreases fuel, s, 0int,
{
    match s {
        StmtModel::Expression(e) => lemma_eval_keeps_shape(env, e),
        StmtModel::VariableDeclaration(d) => {
            if !(d.initializer is Literal) {
                lemma_eval_keeps_shape(env, d.initializer);
            }
        },
        StmtModel::Block(ss) => lemma_run_block_shape(fuel, env, ss),
        StmtModel::If(c, then_branch, else_branch) => {
            lemma_eval_keeps_shape(env, c);
            let env2 = eval(env, c)->Ok_0.1;
            if boolean_of(eval(env, c)->Ok_0.0) == Ok::<bool, RuntimeErrorKind>(true) {
                lemma_run_block_shape(fuel, env2, then_branch);
            } else if else_branch is Some {
                lemma_run_block_shape(fuel, env2, else_branch->Some_0);
            }
        },
        StmtModel::While(c, body) => lemma_run_while_shape(fuel, env, c, body),
    }
}

pub proof fn lemma_run_block_shape(fuel: nat, env: EnvModel, ss: Seq<StmtModel>)
    requires
        run_block(fuel, env, ss).0 is Finished,
    ensures
        same_shape(env, run_block(fuel, env, ss).0->Finished_1),
    decreases fuel, ss, ss.len() + 1,
{
    let inner = env_enter(env);
    lemma_run_list_shape(fuel, inner, ss, 0, Value::Empty);
    let m = run_list(fuel, inner, ss, 0, Value::Empty).0->Finished_1;
    assert(env_exit(m).starts =~= env.starts);
}

pub proof fn lemma_run_list_shape(fuel: nat, env: EnvModel, ss: Seq<StmtModel>, k: int, last: Value)
    requires
        run_list(fuel, env, ss, k, last).0 is Finished,
    ensures
        extends_shape(env, run_list(fuel, env, ss, k, last).0->Finished_1),
    decreases fuel, ss, ss.len() - k,
{
    if 0 <= k < ss.len() {
        lemma_run_stmt_shape(fuel, env, ss[k]);
        let (r, f) = run_stmt(fuel, env, ss[k]);
        let env2 = r->Finished_1;
        lemma_run_list_shape(f, env2, ss, k + 1, r->Finished_0);
    }
}

pub proof fn lemma_run_while_shape(fuel: nat, env: EnvModel, c: Expression, body: Seq<StmtModel>)
    requires
        run_while(fuel, env, c, body).0 is Finished,
    ensures
        same_shape(env, run_while(fuel, env, c, body).0->Finished_1),
    decreases fuel, body, body.len() + 2,
{
    lemma_eval_keeps_shape(env, c);
    let env2 = eval(env, c)->Ok_0.1;
    if boolean_of(eval(env, c)->Ok_0.0) == Ok::<bool, RuntimeErrorKind>(true) && fuel > 0 {
        lemma_run_block_shape((fuel - 1) as nat, env2, body);
        let (r, f) = run_block((fuel - 1) as nat, env2, body);
        lemma_run_while_shape(f, r->Finished_1, c, body);
    }
}

/// Scoping: a block that finishes leaves the enclosing scopes as it found
/// them in shape. The same scopes are open and the same names are bound, in
/// the same places; whatever the block declared is gone, so it shadowed and
/// did not replace any outer binding.
pub proof fn lemma_block_leaves_outer_names(fuel: nat, env: EnvModel, ss: Seq<StmtModel>, name: Seq<char>)
    requires
        run_block(fuel, env, ss).0 is Finished,
    ensures
        same_shape(env, run_block(fuel, env, ss).0->Finished_1),
        env_find(run_block(fuel, env, ss).0->Finished_1, name) == env_find(env, name),
{
    lemma_run_block_shape(fuel, env, ss);
    let m = run_block(fuel, env, ss).0->Finished_1;
    lemma_find_same_shape(env.bindings, m.bindings, name, env.bindings.len() as int);
}

/// Where two binding sequences bind the same names in the same places, the
/// search for a name finds the same place in both.
pub proof fn lemma_find_same_shape(a: Seq<Binding>, b: Seq<Binding>, name: Seq<char>, hi: int)
    requires
        a.len() == b.len(),
        hi <= a.len(),
        forall|i: int| 0 <= i < a.len() ==> #[trigger] a[i].name == b[i].name,
    ensures
        find(a, name, hi) == find(b, name, hi),
    decreases hi,
{
    if hi > 0 {
        assert(a[hi - 1].name == b[hi - 1].name);
        lemma_find_same_shape(a, b, name, hi - 1);
    }
}

} // verus!

verus! {

/// Whether an expression contains an assignment.
pub open spec fn assigns(e: Expression) -> bool
    decreases e,
{
    match e {
        Expression::Assignment(_) => true,
        Expression::Binary(b) => assigns(*b.left) || assigns(*b.right),
        Expression::Logical(b) => assigns(*b.left) || assigns(*b.right),
        Expression::Unary(u) => assigns(*u.left),
        Expression::Grouping(g) => assigns(*g.expression),
        Expression::Literal(_) => false,
        Expression::Variable(_) => false,
    }
}

/// Whether a statement contains an assignment.
pub open spec fn stmt_assigns(s: StmtModel) -> bool
    decreases s, 0int,
{
    match s {
        StmtModel::Expression(e) => assigns(e),
        StmtModel::VariableDeclaration(d) => assigns(d.initializer),
        StmtModel::Block(ss) => list_assigns(ss, 0),
        StmtModel::If(c, then_branch, else_branch) => assigns(c) || list_assigns(then_branch, 0)
            || match else_branch {
            Some(e) => list_assigns(e, 0),
            None => false,
        },
        StmtModel::While(c, body) => assigns(c) || list_assigns(body, 0),
    }
}

/// Whether a statement of `ss` from index `k` on contains an assignment.
pub open spec fn list_assigns(ss: Seq<StmtModel>, k: int) -> bool
    decreases ss, ss.len() - k,
{
    if 0 <= k < ss.len() {
        stmt_assigns(ss[k]) || list_assigns(ss, k + 1)
    } else {
        false
    }
}

/// `b` keeps the scopes and bindings of `a`, values included, and may bind
/// more after them.
pub open spec fn keeps_bindings(a: EnvModel, b: EnvModel) -> bool {
    &&& a.starts == b.starts
    &&& a.bindings.len() <= b.bindings.len()
    &&& forall|i: int| 0 <= i < a.bindings.len() ==> #[trigger] b.bindings[i] == a.bindings[i]
}

pub proof fn lemma_eval_without_assignment(env: EnvModel, e: Expression)
    requires
        eval(env, e) is Ok,
        !assigns(e),
    ensures
        eval(env, e)->Ok_0.1 == env,
    decreases e,
{
    match e {
        Expression::Grouping(g) => lemma_eval_without_assignment(env, *g.expression),
        Expression::Unary(u) => lemma_eval_without_assignment(env, *u.left),
        Expression::Binary(b) => {
            lemma_eval_without_assignment(env, *b.left);
            lemma_eval_without_assignment(env, *b.right);
        },
        Expression::Logical(b) => {
            if eval(env, *b.left) is Ok {
                lemma_eval_without_assignment(env, *b.left);
                if eval(env, *b.right) is Ok {
                    lemma_eval_without_assignment(env, *b.right);
                }
            }
        },
        _ => {},
    }
}

pub proof fn lemma_stmt_without_assignment(fuel: nat, env: EnvModel, s: StmtModel)
    requires
        run_stmt(fuel, env, s).0 is Finished,
        !stmt_assigns(s),
    ensures
        keeps_bindings(env, run_stmt(fuel, env, s).0->Finished_1),
    decreases fuel, s, 0int,
{
    match s {
        StmtModel::Expression(e) => lemma_eval_without_assignment(env, e),
        StmtModel::VariableDeclaration(d) => {
            if !(d.initializer is Literal) {
                lemma_eval_without_assignment(env, d.initializer);
            }
        },
        StmtModel::Block(ss) => lemma_block_without_assignment(fuel, env, ss),
        StmtModel::If(c, then_branch, else_branch) => {
            lemma_eval_without_assignment(env, c);
            if boolean_of(eval(env, c)->Ok_0.0) == Ok::<bool, RuntimeErrorKind>(true) {
                lemma_block_without_assignment(fuel, env, then_branch);
            } else if else_branch is Some {
                lemma_block_without_assignment(fuel, env, else_branch->Some_0);
            }
        },
        StmtModel::While(c, body) => lemma_while_without_assignment(fuel, env, c, body),
    }
}

pub proof fn lemma_list_without_assignment(
    fuel: nat,
    env: EnvModel,
    ss: Seq<StmtModel>,
    k: int,
    last: Value,
)
    requires
        run_list(fuel, env, ss, k, last).0 is Finished,
        !list_assigns(ss, k),
    ensures
        keeps_bindings(env, run_list(fuel, env, ss, k, last).0->Finished_1),
    decreases fuel, ss, ss.len() - k,
{
    if 0 <= k < ss.len() {
        lemma_stmt_without_assignment(fuel, env, ss[k]);
        let (r, f) = run_stmt(fuel, env, ss[k]);
        lemma_list_without_assignment(f, r->Finished_1, ss, k + 1, r->Finished_0);
    }
}

/// Scoping: a block without assignments that finishes leaves the environment
/// exactly as it found it. Its declarations shadow outer ones and disappear
/// with it; no outer binding changes.
pub proof fn lemma_block_without_assignment(fuel: nat, env: EnvModel, ss: Seq<StmtModel>)
    requires
        run_block(fuel, env, ss).0 is Finished,
        !list_assigns(ss, 0),
    ensures
        run_block(fuel, env, ss).0->Finished_1 == env,
    decreases fuel, ss, ss.len() + 1,
{
    let inner = env_enter(env);
    lemma_list_without_assignment(fuel, inner, ss, 0, Value::Empty);
    let m = run_list(fuel, inner, ss, 0, Value::Empty).0->Finished_1;
    assert(env_exit(m).starts =~= env.starts);
    assert(env_exit(m).bindings =~= env.bindings);
}

pub proof fn lemma_while_without_assignment(
    fuel: nat,
    env: EnvModel,
    c: Expression,
    body: Seq<StmtModel>,
)
    requires
        run_while(fuel, env, c, body).0 is Finished,
        !assigns(c),
        !list_assigns(body, 0),
    ensures
        run_while(fuel, env, c, body).0->Finished_1 == env,
    decreases fuel, body, body.len() + 2,
{
    lemma_eval_without_assignment(env, c);
    if boolean_of(eval(env, c)->Ok_0.0) == Ok::<bool, RuntimeErrorKind>(true) && fuel > 0 {
        lemma_block_without_assignment((fuel - 1) as nat, env, body);
        let (r, f) = run_block((fuel - 1) as nat, env, body);
        lemma_while_without_assignment(f, r->Finished_1, c, body);
    }
}

} // verus!

verus! {

/// Assignment never declares: assigning to a name that no enclosing scope
/// declares is a runtime error, and the environment is left as it was.
pub proof fn lemma_assignment_needs_declaration(env: EnvModel, a: AssignmentExpression)
    requires
        env_find(env, a.name.lexeme@) < 0,
    ensures
        eval(env, Expression::Assignment(a)) == Err::<(Value, EnvModel), (RuntimeFault, EnvModel)>(
            (fault(RuntimeErrorKind::UndeclaredAssignment, a.name), env),
        ),
{
}

/// Assignment to a declared name evaluates to the empty value and leaves the
/// name bound, in the same place, to the assigned value.
pub proof fn lemma_assignment_updates(env: EnvModel, a: AssignmentExpression)
    requires
        env_find(env, a.name.lexeme@) >= 0,
        eval(env, *a.value) is Ok,
    ensures
        eval(env, Expression::Assignment(a)) is Ok,
        eval(env, Expression::Assignment(a))->Ok_0.0 == Value::Empty,
        env_lookup(eval(env, Expression::Assignment(a))->Ok_0.1, a.name.lexeme@) == Some(
            eval(env, *a.value)->Ok_0.0,
        ),
        env_find(eval(env, Expression::Assignment(a))->Ok_0.1, a.name.lexeme@) == env_find(
            env,
            a.name.lexeme@,
        ),
{
    let name = a.name.lexeme@;
    lemma_eval_keeps_shape(env, *a.value);
    let (v, env2) = eval(env, *a.value)->Ok_0;
    lemma_find_same_shape(env.bindings, env2.bindings, name, env.bindings.len() as int);
    lemma_find_bounds(env2.bindings, name, env2.bindings.len() as int);
    let m = env_assign(env2, name, v);
    assert forall|i: int| 0 <= i < env2.bindings.len() implies #[trigger] env2.bindings[i].name
        == m.bindings[i].name by {}
    lemma_find_same_shape(env2.bindings, m.bindings, name, env2.bindings.len() as int);
}

} // verus!

verus! {

pub open spec fn literal_kind(l: Literal) -> int {
    match l {
        Literal::String(_) => 0,
        Literal::Number(_) => 1,
        Literal::Boolean(_) => 2,
    }
}

/// Equality across kinds: comparing literals of different kinds with `==` or
/// `!=` is a runtime error, not a false result.
pub proof fn lemma_equality_across_kinds(op: TokenType, a: Literal, b: Literal)
    requires
        op == TokenType::DoubleEqual || op == TokenType::BangEqual,
        literal_kind(a) != literal_kind(b),
    ensures
        binary_result(op, Value::Literal(a), Value::Literal(b)) == Err::<Value, RuntimeErrorKind>(
            RuntimeErrorKind::IncomparableKinds,
        ),
{
}

} // verus!
