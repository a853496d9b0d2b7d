use crate::parser::{parse, parse_text, Expr, ParserError};
use crate::scanner::Operator;
use crate::si::{literal_number, Number, UnitRecord, UnitRules, Value, ValueError};
use crate::text::{decimal, is_decimal};
use vstd::prelude::*;
use vstd::string::StrSliceExecFns;

verus! {

/// Why a text has no value.
#[derive(PartialEq, Eq, Structural, Clone, Copy, Debug)]
pub enum EvalError {
    /// The text is no expression, or the expression holds something that
    /// stands for no value.
    Parse(ParserError),
    /// A sum or a difference of values of different dimensions.
    DimensionMismatch,
    /// A division by a value whose number is zero.
    DivisionByZero,
}

/// An outcome of value arithmetic as an outcome of evaluation.
pub open spec fn lifted<N>(r: Result<Value<N>, ValueError>) -> Result<Value<N>, EvalError> {
    match r {
        Ok(v) => Ok(v),
        Err(ValueError::DimensionMismatch) => Err(EvalError::DimensionMismatch),
        Err(ValueError::DivisionByZero) => Err(EvalError::DivisionByZero),
    }
}

/// The value of an expression over the text `s`. Operands are evaluated
/// from left to right, and the first error is the result. A literal is its
/// number, or one where none is written, of its unit; the number must be a
/// decimal number of the text. Names and calls stand for nothing. A sign
/// `+` leaves its operand as it is and `-` negates it. `+` and `-` between
/// operands ask for equal dimensions; `/` asks for a divisor that is not
/// zero.
pub open spec fn value_of<N: Number>(e: Expr, s: Seq<char>) -> Result<Value<N>, EvalError>
    decreases e,
{
    match e {
        Expr::Number { start, end, unit } => if start <= end <= s.len() && (start == end
            || is_decimal(s.subrange(start as int, end as int))) {
            Ok(unit.value(literal_number::<N>(s.subrange(start as int, end as int))))
        } else {
            Err(EvalError::Parse(ParserError::IntegerParseError(start, end)))
        },
        Expr::Variable { start, end } => Err(
            EvalError::Parse(ParserError::UnrecognizedUnit(start, end)),
        ),
        Expr::Function { start, end, arguments } => Err(
            EvalError::Parse(ParserError::UnrecognizedUnit(start, end)),
        ),
        Expr::Unary(op, operand) => if op == Operator::Plus {
            value_of::<N>(*operand, s)
        } else if op == Operator::Minus {
            match value_of::<N>(*operand, s) {
                Ok(v) => Ok(v.negation()),
                Err(e) => Err(e),
            }
        } else {
            Err(EvalError::Parse(ParserError::ExpectedOperator(0)))
        },
        Expr::Binary(op, left, right) => if op == Operator::Raise || op == Operator::Equals {
            Err(EvalError::Parse(ParserError::ExpectedOperator(0)))
        } else {
            match value_of::<N>(*left, s) {
                Err(e) => Err(e),
                Ok(a) => match value_of::<N>(*right, s) {
                    Err(e) => Err(e),
                    Ok(b) => if op == Operator::Plus {
                        lifted(a.sum(b))
                    } else if op == Operator::Minus {
                        lifted(a.difference(b))
                    } else if op == Operator::Times {
                        Ok(a.product(b))
                    } else {
                        lifted(a.quotient(b))
                    },
                },
            }
        },
        Expr::Scope(inner) => value_of::<N>(*inner, s),
    }
}

/// The value of the expression that the text `s` writes.
pub open spec fn text_value<N: Number>(table: Seq<UnitRecord>, s: Seq<char>) -> Result<
    Value<N>,
    EvalError,
> {
    match parse_text(table, s) {
        Ok(tree) => value_of::<N>(tree, s),
        Err(e) => Err(EvalError::Parse(e)),
    }
}

fn lift<N>(r: Result<Value<N>, ValueError>) -> (out: Result<Value<N>, EvalError>)
    ensures
        out == lifted(r),
{
    match r {
        Ok(v) => Ok(v),
        Err(ValueError::DimensionMismatch) => Err(EvalError::DimensionMismatch),
        Err(ValueError::DivisionByZero) => Err(EvalError::DivisionByZero),
    }
}

/// The value of an expression whose spans refer to `input`.
pub fn evaluate<N: Number>(expr: &Expr, input: &str) -> (r: Result<Value<N>, EvalError>)
    ensures
        r == value_of::<N>(*expr, input@),
    decreases expr,
{
    match expr {
        Expr::Number { start, end, unit } => {
            let len = input.unicode_len();
            if *start <= *end && *end <= len {
                let text = input.substring_char(*start, *end);
                if *start == *end || decimal(text) {
                    return Ok(unit.quantity(text));
                }
            }
            Err(EvalError::Parse(ParserError::IntegerParseError(*start, *end)))
        },
        Expr::Variable { start, end } => Err(
            EvalError::Parse(ParserError::UnrecognizedUnit(*start, *end)),
        ),
        Expr::Function { start, end, arguments: _ } => Err(
            EvalError::Parse(ParserError::UnrecognizedUnit(*start, *end)),
        ),
        Expr::Unary(op, operand) => {
            match op {
                Operator::Plus => evaluate(operand, input),
                Operator::Minus => match evaluate::<N>(operand, input) {
                    Ok(v) => Ok(v.negate()),
                    Err(e) => Err(e),
                },
                _ => Err(EvalError::Parse(ParserError::ExpectedOperator(0))),
            }
        },
        Expr::Binary(op, left, right) => {
            match op {
                Operator::Raise | Operator::Equals => {
                    return Err(EvalError::Parse(ParserError::ExpectedOperator(0)));
                },
                _ => {},
            }
            let a = match evaluate::<N>(left, input) {
                Ok(v) => v,
                Err(e) => {
                    return Err(e);
                },
            };
            let b = match evaluate::<N>(right, input) {
                Ok(v) => v,
                Err(e) => {
                    return Err(e);
                },
            };
            match op {
                Operator::Plus => lift(a.add(&b)),
                Operator::Minus => lift(a.subtract(&b)),
                Operator::Times => Ok(a.multiply(&b)),
                _ => lift(a.divide(&b)),
            }
        },
        Expr::Scope(inner) => evaluate(inner, input),
    }
}

/// Reads `input` as an expression and gives its value.
pub fn parse_and_evaluate<N: Number>(rules: &UnitRules, input: &str) -> (r: Result<
    Value<N>,
    EvalError,
>)
    ensures
        r == text_value::<N>(rules@, input@),
{
    match parse(rules, input) {
        Ok(tree) => evaluate(&tree, input),
        Err(e) => Err(EvalError::Parse(e)),
    }
}

} // verus!
