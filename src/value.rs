use crate::float::{
    double_add, double_div, double_difference, double_from_int, double_mul, double_of_int,
    double_product, double_quotient, double_sub, double_sum,
};
use crate::token::{Literal, NumberLiteral, TokenType};
use vstd::prelude::*;

verus! {

/// A runtime value: nothing, an explicit optional literal, or a literal.
#[derive(Debug, Clone, PartialEq)]
pub enum Value {
    Empty,
    Optional(Option<Literal>),
    Literal(Literal),
}

impl Value {
    /// A copy of this value.
    pub fn duplicate(&self) -> (r: Value)
        ensures
            r == *self,
    {
        match self {
            Value::Empty => Value::Empty,
            Value::Optional(None) => Value::Optional(None),
            Value::Optional(Some(l)) => Value::Optional(Some(l.duplicate())),
            Value::Literal(l) => Value::Literal(l.duplicate()),
        }
    }
}

/// The kinds of runtime error.
#[derive(Debug, Clone, Copy, PartialEq, Eq, Structural)]
pub enum RuntimeErrorKind {
    /// An operation on the empty value.
    EmptyValue,
    /// An operation on an optional value that was not unwrapped.
    OptionalValue,
    /// A number was expected.
    NotANumber,
    /// A boolean was expected.
    NotABoolean,
    /// The condition of an `if` or a loop is not a boolean.
    NonBooleanCondition,
    /// Values of different kinds were compared for equality.
    IncomparableKinds,
    /// An operator with no meaning in its position.
    InvalidOperator,
    /// An integer division by zero.
    DivisionByZero,
    /// An integer result out of the 32-bit range.
    Overflow,
    /// A read of a variable that no enclosing scope declares.
    UndefinedVariable,
    /// An assignment to a variable that no enclosing scope declares.
    UndeclaredAssignment,
    /// A second declaration of a name in one scope.
    Redeclaration,
    /// A literal expression whose token carries no value.
    MissingLiteral,
    /// The evaluation ran out of loop iterations.
    IterationLimit,
}

/// Whether a binary64 bit pattern is a NaN: every exponent bit set and a
/// nonzero fraction.
pub open spec fn is_nan_bits(b: u64) -> bool {
    (b & 0x7ff0_0000_0000_0000u64) == 0x7ff0_0000_0000_0000u64 && (b & 0x000f_ffff_ffff_ffffu64)
        != 0
}

/// The bit pattern without its sign: larger patterns are larger magnitudes.
pub open spec fn magnitude_bits(b: u64) -> u64 {
    b & 0x7fff_ffff_ffff_ffffu64
}

pub open spec fn sign_bit(b: u64) -> bool {
    (b & 0x8000_0000_0000_0000u64) != 0
}

/// IEEE-754 equality of two binary64 numbers: false where either is NaN, and
/// the two zeros are equal.
pub open spec fn double_equal(a: u64, b: u64) -> bool {
    !is_nan_bits(a) && !is_nan_bits(b) && (a == b || (magnitude_bits(a) == 0 && magnitude_bits(
        b,
    ) == 0))
}

/// IEEE-754 order of two binary64 numbers: false where either is NaN;
/// otherwise by sign, then by magnitude, with the two zeros equal.
pub open spec fn double_less(a: u64, b: u64) -> bool {
    &&& !is_nan_bits(a)
    &&& !is_nan_bits(b)
    &&& !(magnitude_bits(a) == 0 && magnitude_bits(b) == 0)
    &&& if sign_bit(a) {
        !sign_bit(b) || magnitude_bits(b) < magnitude_bits(a)
    } else {
        !sign_bit(b) && magnitude_bits(a) < magnitude_bits(b)
    }
}

fn double_eq(a: u64, b: u64) -> (r: bool)
    ensures
        r == double_equal(a, b),
{
    let a_nan = (a & 0x7ff0_0000_0000_0000u64) == 0x7ff0_0000_0000_0000u64 && (a
        & 0x000f_ffff_ffff_ffffu64) != 0;
    let b_nan = (b & 0x7ff0_0000_0000_0000u64) == 0x7ff0_0000_0000_0000u64 && (b
        & 0x000f_ffff_ffff_ffffu64) != 0;
    !a_nan && !b_nan && (a == b || ((a & 0x7fff_ffff_ffff_ffffu64) == 0 && (b
        & 0x7fff_ffff_ffff_ffffu64) == 0))
}

fn double_lt(a: u64, b: u64) -> (r: bool)
    ensures
        r == double_less(a, b),
{
    let a_nan = (a & 0x7ff0_0000_0000_0000u64) == 0x7ff0_0000_0000_0000u64 && (a
        & 0x000f_ffff_ffff_ffffu64) != 0;
    let b_nan = (b & 0x7ff0_0000_0000_0000u64) == 0x7ff0_0000_0000_0000u64 && (b
        & 0x000f_ffff_ffff_ffffu64) != 0;
    let a_mag = a & 0x7fff_ffff_ffff_ffffu64;
    let b_mag = b & 0x7fff_ffff_ffff_ffffu64;
    let a_neg = (a & 0x8000_0000_0000_0000u64) != 0;
    let b_neg = (b & 0x8000_0000_0000_0000u64) != 0;
    if a_nan || b_nan || (a_mag == 0 && b_mag == 0) {
        false
    } else if a_neg {
        !b_neg || b_mag < a_mag
    } else {
        !b_neg && a_mag < b_mag
    }
}

/// A number as a binary64 float: integers are converted, floats kept.
pub open spec fn double_of(n: NumberLiteral) -> u64 {
    match n {
        NumberLiteral::Float(b) => b,
        NumberLiteral::Integer(i) => double_of_int(i as int),
    }
}

pub open spec fn is_arithmetic(op: TokenType) -> bool {
    op == TokenType::Plus || op == TokenType::Minus || op == TokenType::Star || op
        == TokenType::Slash
}

pub open spec fn is_comparison(op: TokenType) -> bool {
    op == TokenType::Greater || op == TokenType::GreaterEqual || op == TokenType::Less || op
        == TokenType::LessEqual
}

/// Arithmetic on numbers: two integers give an integer (an error where the
/// result leaves the 32-bit range, or on division by zero; division truncates
/// toward zero); otherwise both are taken as binary64 floats.
pub open spec fn arithmetic(op: TokenType, a: NumberLiteral, b: NumberLiteral) -> Result<
    NumberLiteral,
    RuntimeErrorKind,
> {
    match (a, b) {
        (NumberLiteral::Integer(x), NumberLiteral::Integer(y)) => {
            let r = if op == TokenType::Plus {
                x.checked_add(y)
            } else if op == TokenType::Minus {
                x.checked_sub(y)
            } else if op == TokenType::Star {
                x.checked_mul(y)
            } else {
                x.checked_div(y)
            };
            if op == TokenType::Slash && y == 0 {
                Err(RuntimeErrorKind::DivisionByZero)
            } else {
                match r {
                    Some(v) => Ok(NumberLiteral::Integer(v)),
                    None => Err(RuntimeErrorKind::Overflow),
                }
            }
        },
        _ => {
            let (x, y) = (double_of(a), double_of(b));
            Ok(
                NumberLiteral::Float(
                    if op == TokenType::Plus {
                        double_sum(x, y)
                    } else if op == TokenType::Minus {
                        double_difference(x, y)
                    } else if op == TokenType::Star {
                        double_product(x, y)
                    } else {
                        double_quotient(x, y)
                    },
                ),
            )
        },
    }
}

/// Numeric comparison, by value whatever the kinds.
pub open spec fn comparison(op: TokenType, a: NumberLiteral, b: NumberLiteral) -> bool {
    match (a, b) {
        (NumberLiteral::Integer(x), NumberLiteral::Integer(y)) => if op == TokenType::Greater {
            x > y
        } else if op == TokenType::GreaterEqual {
            x >= y
        } else if op == TokenType::Less {
            x < y
        } else {
            x <= y
        },
        _ => {
            let (x, y) = (double_of(a), double_of(b));
            if op == TokenType::Greater {
                double_less(y, x)
            } else if op == TokenType::GreaterEqual {
                double_less(y, x) || double_equal(x, y)
            } else if op == TokenType::Less {
                double_less(x, y)
            } else {
                double_less(x, y) || double_equal(x, y)
            }
        },
    }
}

/// Numeric equality, by value whatever the kinds.
pub open spec fn numbers_equal(a: NumberLiteral, b: NumberLiteral) -> bool {
    match (a, b) {
        (NumberLiteral::Integer(x), NumberLiteral::Integer(y)) => x == y,
        _ => double_equal(double_of(a), double_of(b)),
    }
}

/// Numeric negation: an integer is negated (an error for the least one), a
/// float has its sign flipped.
pub open spec fn negation(a: NumberLiteral) -> Result<NumberLiteral, RuntimeErrorKind> {
    match a {
        NumberLiteral::Integer(x) => if x == i32::MIN {
            Err(RuntimeErrorKind::Overflow)
        } else {
            Ok(NumberLiteral::Integer((-x) as i32))
        },
        NumberLiteral::Float(b) => Ok(NumberLiteral::Float(b ^ 0x8000_0000_0000_0000u64)),
    }
}

fn as_double(n: NumberLiteral) -> (r: u64)
    ensures
        r == double_of(n),
{
    match n {
        NumberLiteral::Float(b) => b,
        NumberLiteral::Integer(i) => double_from_int(i),
    }
}

impl NumberLiteral {
    /// `+`, `-`, `*` or `/` on two numbers.
    pub fn arithmetic(op: TokenType, a: NumberLiteral, b: NumberLiteral) -> (r: Result<
        NumberLiteral,
        RuntimeErrorKind,
    >)
        requires
            is_arithmetic(op),
        ensures
            r == arithmetic(op, a, b),
    {
        match (a, b) {
            (NumberLiteral::Integer(x), NumberLiteral::Integer(y)) => {
                if op == TokenType::Slash && y == 0 {
                    return Err(RuntimeErrorKind::DivisionByZero);
                }
                let r = if op == TokenType::Plus {
                    x.checked_add(y)
                } else if op == TokenType::Minus {
                    x.checked_sub(y)
                } else if op == TokenType::Star {
                    x.checked_mul(y)
                } else {
                    x.checked_div(y)
                };
                match r {
                    Some(v) => Ok(NumberLiteral::Integer(v)),
                    None => Err(RuntimeErrorKind::Overflow),
                }
            },
            _ => {
                let x = as_double(a);
                let y = as_double(b);
                Ok(
                    NumberLiteral::Float(
                        if op == TokenType::Plus {
                            double_add(x, y)
                        } else if op == TokenType::Minus {
                            double_sub(x, y)
                        } else if op == TokenType::Star {
                            double_mul(x, y)
                        } else {
                            double_div(x, y)
                        },
                    ),
                )
            },
        }
    }

    /// `>`, `>=`, `<` or `<=` on two numbers.
    pub fn compare(op: TokenType, a: NumberLiteral, b: NumberLiteral) -> (r: bool)
        requires
            is_comparison(op),
        ensures
            r == comparison(op, a, b),
    {
        match (a, b) {
            (NumberLiteral::Integer(x), NumberLiteral::Integer(y)) => {
                if op == TokenType::Greater {
                    x > y
                } else if op == TokenType::GreaterEqual {
                    x >= y
                } else if op == TokenType::Less {
                    x < y
                } else {
                    x <= y
                }
            },
            _ => {
                let x = as_double(a);
                let y = as_double(b);
                if op == TokenType::Greater {
                    double_lt(y, x)
                } else if op == TokenType::GreaterEqual {
                    double_lt(y, x) || double_eq(x, y)
                } else if op == TokenType::Less {
                    double_lt(x, y)
                } else {
                    double_lt(x, y) || double_eq(x, y)
                }
            },
        }
    }

    /// Whether two numbers are equal by value.
    pub fn equals(a: NumberLiteral, b: NumberLiteral) -> (r: bool)
        ensures
            r == numbers_equal(a, b),
    {
        match (a, b) {
            (NumberLiteral::Integer(x), NumberLiteral::Integer(y)) => x == y,
            _ => double_eq(as_double(a), as_double(b)),
        }
    }

    /// The negation of a number.
    pub fn negate(a: NumberLiteral) -> (r: Result<NumberLiteral, RuntimeErrorKind>)
        ensures
            r == negation(a),
    {
        match a {
            NumberLiteral::Integer(x) => {
                if x == i32::MIN {
                    Err(RuntimeErrorKind::Overflow)
                } else {
                    Ok(NumberLiteral::Integer(-x))
                }
            },
            NumberLiteral::Float(b) => Ok(NumberLiteral::Float(b ^ 0x8000_0000_0000_0000u64)),
        }
    }
}

} // verus!

verus! {

/// Numeric promotion: arithmetic on two integers gives an integer (or an
/// error); with a float on either side it gives a float, never an error.
pub proof fn lemma_numeric_promotion(op: TokenType, a: NumberLiteral, b: NumberLiteral)
    requires
        is_arithmetic(op),
    ensures
        (a is Integer && b is Integer) ==> (arithmetic(op, a, b) is Err || arithmetic(
            op,
            a,
            b,
        )->Ok_0 is Integer),
        (a is Float || b is Float) ==> (arithmetic(op, a, b) is Ok && arithmetic(op, a, b)->Ok_0 is Float),
{
}

} // verus!
