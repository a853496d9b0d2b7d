use crate::evaluator::{value_of, EvalError};
use crate::si::Number;
use crate::parser::{
    argument_list, arguments, binary_operator_at, expression, expression_tail, is_additive,
    is_multiplicative, parse_from, productions_advance, term, term_tail, value, Arguments, Expr,
    ParserError,
};
use crate::scanner::quantity_at_bounds;
use crate::si::UnitRecord;
use crate::text::{
    is_decimal, is_word_start, number_end, number_end_of_span, spaces_end, spaces_end_bounds,
    spaces_end_stops, word_end, word_end_bounds,
};
use vstd::prelude::*;

verus! {

/// Whether a tree can be evaluated over the text `s`: the number of every
/// literal is a span of `s` that is empty or holds a decimal number.
pub open spec fn reads(e: Expr, s: Seq<char>) -> bool
    decreases e,
{
    match e {
        Expr::Number { start, end, unit } => start <= end <= s.len() && (start == end
            || is_decimal(s.subrange(start as int, end as int))),
        Expr::Variable { start, end } => true,
        Expr::Function { start, end, arguments } => all_read(arguments, s),
        Expr::Unary(_, operand) => reads(*operand, s),
        Expr::Binary(_, left, right) => reads(*left, s) && reads(*right, s),
        Expr::Scope(inner) => reads(*inner, s),
    }
}

/// Whether every argument can be evaluated over the text `s`.
pub open spec fn all_read(a: Arguments, s: Seq<char>) -> bool
    decreases a,
{
    match a {
        Arguments::Empty => true,
        Arguments::More(first, rest) => reads(*first, s) && all_read(*rest, s),
    }
}

proof fn value_reads(table: Seq<UnitRecord>, s: Seq<char>, pos: int)
    requires
        0 <= pos <= s.len(),
        s.len() <= usize::MAX,
    ensures
        value(table, s, pos) matches Ok((tree, _)) ==> reads(tree, s),
    decreases s.len() - pos, 0int,
{
    spaces_end_bounds(s, pos);
    let p = spaces_end(s, pos);
    if p < s.len() {
        if s[p] == '(' {
            expression_reads(table, s, p + 1);
        } else if number_end(s, p) is None && (s[p] == '+' || s[p] == '-') {
            value_reads(table, s, p + 1);
        } else if is_word_start(s[p]) && word_end(s, p) < s.len() && s[word_end(s, p)] == '(' {
            word_end_bounds(s, p);
            arguments_read(table, s, word_end(s, p) + 1);
        } else {
            spaces_end_stops(s, pos);
            quantity_at_bounds(s, p);
            if number_end(s, p) is Some {
                number_end_of_span(s, p);
            }
        }
    }
}

proof fn term_tail_reads(table: Seq<UnitRecord>, s: Seq<char>, pos: int, left: Expr)
    requires
        0 <= pos <= s.len(),
        s.len() <= usize::MAX,
        reads(left, s),
    ensures
        term_tail(table, s, pos, left) matches Ok((tree, _)) ==> reads(tree, s),
    decreases s.len() - pos, 0int,
{
    spaces_end_bounds(s, pos);
    match binary_operator_at(s, pos) {
        Some((op, after)) => {
            if is_multiplicative(op) {
                value_reads(table, s, after);
                productions_advance(table, s, after);
                match value(table, s, after) {
                    Ok((right, q)) => {
                        term_tail_reads(
                            table,
                            s,
                            q,
                            Expr::Binary(op, Box::new(left), Box::new(right)),
                        );
                    },
                    Err(_) => {},
                }
            }
        },
        None => {},
    }
}

proof fn term_reads(table: Seq<UnitRecord>, s: Seq<char>, pos: int)
    requires
        0 <= pos <= s.len(),
        s.len() <= usize::MAX,
    ensures
        term(table, s, pos) matches Ok((tree, _)) ==> reads(tree, s),
    decreases s.len() - pos, 1int,
{
    value_reads(table, s, pos);
    productions_advance(table, s, pos);
    match value(table, s, pos) {
        Ok((first, q)) => {
            term_tail_reads(table, s, q, first);
        },
        Err(_) => {},
    }
}

proof fn expression_tail_reads(table: Seq<UnitRecord>, s: Seq<char>, pos: int, left: Expr)
    requires
        0 <= pos <= s.len(),
        s.len() <= usize::MAX,
        reads(left, s),
    ensures
        expression_tail(table, s, pos, left) matches Ok((tree, _)) ==> reads(tree, s),
    decreases s.len() - pos, 0int,
{
    spaces_end_bounds(s, pos);
    match binary_operator_at(s, pos) {
        Some((op, after)) => {
            if is_additive(op) {
                term_reads(table, s, after);
                productions_advance(table, s, after);
                match term(table, s, after) {
                    Ok((right, q)) => {
                        expression_tail_reads(
                            table,
                            s,
                            q,
                            Expr::Binary(op, Box::new(left), Box::new(right)),
                        );
                    },
                    Err(_) => {},
                }
            }
        },
        None => {},
    }
}

proof fn expression_reads(table: Seq<UnitRecord>, s: Seq<char>, pos: int)
    requires
        0 <= pos <= s.len(),
        s.len() <= usize::MAX,
    ensures
        expression(table, s, pos) matches Ok((tree, _)) ==> reads(tree, s),
    decreases s.len() - pos, 2int,
{
    term_reads(table, s, pos);
    productions_advance(table, s, pos);
    match term(table, s, pos) {
        Ok((first, q)) => {
            expression_tail_reads(table, s, q, first);
        },
        Err(_) => {},
    }
}

proof fn argument_list_reads(table: Seq<UnitRecord>, s: Seq<char>, pos: int)
    requires
        0 <= pos <= s.len(),
        s.len() <= usize::MAX,
    ensures
        argument_list(table, s, pos) matches Ok((list, _)) ==> all_read(list, s),
    decreases s.len() - pos, 3int,
{
    expression_reads(table, s, pos);
    assert(expression(table, s, pos) matches Ok((_, q)) ==> pos < q <= s.len()) by {
        productions_advance(table, s, pos);
    }
    match expression(table, s, pos) {
        Ok((first, q)) => {
            spaces_end_bounds(s, q);
            let r = spaces_end(s, q);
            assert(all_read(Arguments::Empty, s));
            if r < s.len() && s[r] == ',' {
                argument_list_reads(table, s, r + 1);
            }
        },
        Err(_) => {},
    }
}

proof fn arguments_read(table: Seq<UnitRecord>, s: Seq<char>, pos: int)
    requires
        0 <= pos <= s.len(),
        s.len() <= usize::MAX,
    ensures
        arguments(table, s, pos) matches Ok((list, _)) ==> all_read(list, s),
    decreases s.len() - pos, 4int,
{
    spaces_end_bounds(s, pos);
    assert(all_read(Arguments::Empty, s));
    argument_list_reads(table, s, pos);
}

/// Every tree that the parser builds from a text can be evaluated over
/// that text.
pub proof fn parsed_trees_read(table: Seq<UnitRecord>, s: Seq<char>, pos: int)
    requires
        0 <= pos <= s.len(),
        s.len() <= usize::MAX,
    ensures
        expression(table, s, pos) matches Ok((tree, _)) ==> reads(tree, s),
        parse_from(table, s, pos) matches Ok(tree) ==> reads(tree, s),
{
    expression_reads(table, s, pos);
}

/// The evaluation of a tree that can be evaluated over a text never fails
/// on the number of a literal.
pub proof fn read_trees_have_numbers<N: Number>(e: Expr, s: Seq<char>)
    requires
        reads(e, s),
    ensures
        !(value_of::<N>(e, s) matches Err(EvalError::Parse(ParserError::IntegerParseError(_, _)))),
    decreases e,
{
    match e {
        Expr::Unary(_, operand) => {
            read_trees_have_numbers::<N>(*operand, s);
        },
        Expr::Binary(_, left, right) => {
            read_trees_have_numbers::<N>(*left, s);
            read_trees_have_numbers::<N>(*right, s);
        },
        Expr::Scope(inner) => {
            read_trees_have_numbers::<N>(*inner, s);
        },
        _ => {},
    }
}

} // verus!
