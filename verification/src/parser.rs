use crate::scanner::{operator_at, quantity_at, quantity_at_bounds, Operator, Scanner, Separator};
use crate::si::{quantity_unit, ParseUnitError, UnitRecord, UnitRules, UnitWithExponent};
use crate::text::{
    is_word_start, number_end, spaces_end, spaces_end_bounds, spaces_end_stops, word_end,
    word_end_bounds,
};
use crate::trees::{parsed_trees_read, reads};
use vstd::prelude::*;
use vstd::string::StrSliceExecFns;

verus! {

/// An expression tree. Spans are character positions in the text that the
/// tree was read from.
#[derive(Debug)]
pub enum Expr {
    /// A literal: the span of its number, which is empty where only a unit
    /// was written and the number is one, and the meaning of its unit.
    Number { start: usize, end: usize, unit: UnitWithExponent },
    /// A name that stands for a value; the span of the name.
    Variable { start: usize, end: usize },
    /// A call: the span of the function's name, and the arguments.
    Function { start: usize, end: usize, arguments: Arguments },
    /// A sign before an operand.
    Unary(Operator, Box<Expr>),
    /// An operator between two operands.
    Binary(Operator, Box<Expr>, Box<Expr>),
    /// An expression in parentheses.
    Scope(Box<Expr>),
}

/// The arguments of a call, first to last.
#[derive(Debug)]
pub enum Arguments {
    Empty,
    More(Box<Expr>, Box<Arguments>),
}

/// An entry of the parser's stack, on which values and operators
/// alternate until they are folded into one value.
#[derive(Debug)]
pub enum ParserToken {
    Value(Expr),
    BinaryOperator(Operator),
    UnaryOperator(Operator),
}

/// Why a text is no expression. Positions are character positions in the
/// text.
#[derive(PartialEq, Eq, Structural, Clone, Copy, Debug)]
pub enum ParserError {
    /// The unit expression in this span names a unit that is not
    /// registered.
    UnrecognizedUnit(usize, usize),
    /// The unit expression in this span has an exponent that is no integer
    /// of 32 bits.
    IntegerParseError(usize, usize),
    /// The text ended where a value, a `)` or a `,` had to follow.
    EarlyEndOfInput,
    /// A value had to begin at this position and none does.
    ExpectedValue(usize),
    /// An operator had to stand at this position and none does.
    ExpectedOperator(usize),
    /// This separator had to stand at this position and does not.
    ExpectedSeparator(Separator, usize),
    /// An integer had to follow and none does.
    ExpectedNumber,
}

/// `+` and `-`, the operators that bind loosest.
pub open spec fn is_additive(op: Operator) -> bool {
    op.binding() == Some(2u8)
}

/// `*` and `/`, which bind tighter than `+` and `-`.
pub open spec fn is_multiplicative(op: Operator) -> bool {
    op.binding() == Some(1u8)
}

/// The arithmetic operator that follows `pos`, after any spaces, with the
/// position behind it.
pub open spec fn binary_operator_at(s: Seq<char>, pos: int) -> Option<(Operator, int)> {
    match operator_at(s, pos) {
        Some(at) => {
            let op = Operator::of(s[at])->0;
            if is_additive(op) || is_multiplicative(op) {
                Some((op, at + 1))
            } else {
                None
            }
        },
        None => None,
    }
}

/// The tree of a literal whose number is `s` from `p` to `n` and whose
/// unit expression is `s` from `n` to `u`. An error of the unit expression
/// is reported with the span of the whole unit expression.
pub open spec fn literal(table: Seq<UnitRecord>, s: Seq<char>, p: int, n: int, u: int) -> Result<
    Expr,
    ParserError,
> {
    match quantity_unit(table, s.subrange(p, n), s.subrange(n, u)) {
        Ok(unit) => Ok(Expr::Number { start: p as usize, end: n as usize, unit }),
        Err(ParseUnitError::UnrecognizedUnit(_, _)) => Err(
            ParserError::UnrecognizedUnit(n as usize, u as usize),
        ),
        Err(ParseUnitError::IntegerParseError(_, _)) => Err(
            ParserError::IntegerParseError(n as usize, u as usize),
        ),
        Err(ParseUnitError::EarlyEndOfLine) => Err(ParserError::EarlyEndOfInput),
    }
}

/// What must follow a parenthesised expression that ended at `q`: spaces
/// and `)`.
pub open spec fn closing(s: Seq<char>, q: int, inner: Expr) -> Result<(Expr, int), ParserError> {
    let r = spaces_end(s, q);
    if r < 0 || r >= s.len() {
        Err(ParserError::EarlyEndOfInput)
    } else if s[r] == ')' {
        Ok((Expr::Scope(Box::new(inner)), r + 1))
    } else {
        Err(ParserError::ExpectedSeparator(Separator::CloseParentheses, r as usize))
    }
}

/// The value that begins at `pos`, after any spaces, and the position
/// behind it. A value is an expression in parentheses, a literal, a call
/// `name(..)`, or a sign `+` or `-` before a value. A `-` that begins a
/// number belongs to the number.
pub open spec fn value(table: Seq<UnitRecord>, s: Seq<char>, pos: int) -> Result<
    (Expr, int),
    ParserError,
>
    decreases s.len() - pos, 0int,
{
    let p = spaces_end(s, pos);
    if pos < 0 || p < pos || p >= s.len() {
        Err(ParserError::EarlyEndOfInput)
    } else if s[p] == '(' {
        match expression(table, s, p + 1) {
            Ok((inner, q)) => closing(s, q, inner),
            Err(e) => Err(e),
        }
    } else if number_end(s, p) is None && (s[p] == '+' || s[p] == '-') {
        match value(table, s, p + 1) {
            Ok((operand, q)) => Ok((Expr::Unary(Operator::of(s[p])->0, Box::new(operand)), q)),
            Err(e) => Err(e),
        }
    } else if is_word_start(s[p]) && word_end(s, p) < s.len() && s[word_end(s, p)] == '(' {
        if word_end(s, p) < p {
            Err(ParserError::ExpectedValue(p as usize))
        } else {
            match arguments(table, s, word_end(s, p) + 1) {
                Ok((arguments, q)) => Ok(
                    (
                        Expr::Function {
                            start: p as usize,
                            end: word_end(s, p) as usize,
                            arguments,
                        },
                        q,
                    ),
                ),
                Err(e) => Err(e),
            }
        }
    } else {
        match quantity_at(s, p) {
            Some((start, n, u)) => match literal(table, s, start, n, u) {
                Ok(tree) => Ok((tree, u)),
                Err(e) => Err(e),
            },
            None => Err(ParserError::ExpectedValue(p as usize)),
        }
    }
}

/// The product that continues from `left` at `pos`: as long as `*` or `/`
/// follows, the next value is joined to what stands on the left. Here and
/// in the productions below, the test that a part ends inside the text and
/// not before its start never fails (`productions_advance`); it shows that
/// the definition is well founded.
pub open spec fn term_tail(table: Seq<UnitRecord>, s: Seq<char>, pos: int, left: Expr) -> Result<
    (Expr, int),
    ParserError,
>
    decreases s.len() - pos, 1int,
{
    match binary_operator_at(s, pos) {
        Some((op, after)) => if is_multiplicative(op) && after > pos {
            match value(table, s, after) {
                Ok((right, q)) => if after <= q <= s.len() {
                    term_tail(table, s, q, Expr::Binary(op, Box::new(left), Box::new(right)))
                } else {
                    Err(ParserError::ExpectedValue(after as usize))
                },
                Err(e) => Err(e),
            }
        } else {
            Ok((left, pos))
        },
        None => Ok((left, pos)),
    }
}

/// The term that begins at `pos`: values joined by `*` and `/`, grouped
/// from the left.
pub open spec fn term(table: Seq<UnitRecord>, s: Seq<char>, pos: int) -> Result<
    (Expr, int),
    ParserError,
>
    decreases s.len() - pos, 2int,
{
    match value(table, s, pos) {
        Ok((first, q)) => if pos <= q <= s.len() {
            term_tail(table, s, q, first)
        } else {
            Err(ParserError::ExpectedValue(pos as usize))
        },
        Err(e) => Err(e),
    }
}

/// The sum that continues from `left` at `pos`: as long as `+` or `-`
/// follows, the next term is joined to what stands on the left.
pub open spec fn expression_tail(
    table: Seq<UnitRecord>,
    s: Seq<char>,
    pos: int,
    left: Expr,
) -> Result<(Expr, int), ParserError>
    decreases s.len() - pos, 3int,
{
    match binary_operator_at(s, pos) {
        Some((op, after)) => if is_additive(op) && after > pos {
            match term(table, s, after) {
                Ok((right, q)) => if after <= q <= s.len() {
                    expression_tail(table, s, q, Expr::Binary(op, Box::new(left), Box::new(right)))
                } else {
                    Err(ParserError::ExpectedValue(after as usize))
                },
                Err(e) => Err(e),
            }
        } else {
            Ok((left, pos))
        },
        None => Ok((left, pos)),
    }
}

/// The expression that begins at `pos`: terms joined by `+` and `-`,
/// grouped from the left. It ends before the first thing that continues
/// neither a term nor a sum.
pub open spec fn expression(table: Seq<UnitRecord>, s: Seq<char>, pos: int) -> Result<
    (Expr, int),
    ParserError,
>
    decreases s.len() - pos, 4int,
{
    match term(table, s, pos) {
        Ok((first, q)) => if pos <= q <= s.len() {
            expression_tail(table, s, q, first)
        } else {
            Err(ParserError::ExpectedValue(pos as usize))
        },
        Err(e) => Err(e),
    }
}

/// The arguments that follow one another from `pos` up to the closing
/// `)`, separated by `,`; at least one.
pub open spec fn argument_list(table: Seq<UnitRecord>, s: Seq<char>, pos: int) -> Result<
    (Arguments, int),
    ParserError,
>
    decreases s.len() - pos, 5int,
{
    match expression(table, s, pos) {
        Ok((first, q)) => {
            let r = spaces_end(s, q);
            if q < pos || r < q || r < 0 || r >= s.len() {
                Err(ParserError::EarlyEndOfInput)
            } else if s[r] == ',' {
                match argument_list(table, s, r + 1) {
                    Ok((rest, end)) => Ok(
                        (Arguments::More(Box::new(first), Box::new(rest)), end),
                    ),
                    Err(e) => Err(e),
                }
            } else if s[r] == ')' {
                Ok((Arguments::More(Box::new(first), Box::new(Arguments::Empty)), r + 1))
            } else {
                Err(ParserError::ExpectedSeparator(Separator::Comma, r as usize))
            }
        },
        Err(e) => Err(e),
    }
}

/// The arguments of a call whose `(` stands before `pos`, up to and with
/// the closing `)`.
pub open spec fn arguments(table: Seq<UnitRecord>, s: Seq<char>, pos: int) -> Result<
    (Arguments, int),
    ParserError,
>
    decreases s.len() - pos, 6int,
{
    let r = spaces_end(s, pos);
    if 0 <= r < s.len() && s[r] == ')' {
        Ok((Arguments::Empty, r + 1))
    } else {
        argument_list(table, s, pos)
    }
}

/// The expression that `s` writes from `pos` to its end. Nothing but
/// spaces may follow the expression.
pub open spec fn parse_from(table: Seq<UnitRecord>, s: Seq<char>, pos: int) -> Result<
    Expr,
    ParserError,
> {
    match expression(table, s, pos) {
        Ok((tree, q)) => if spaces_end(s, q) >= s.len() {
            Ok(tree)
        } else {
            Err(ParserError::ExpectedOperator(spaces_end(s, q) as usize))
        },
        Err(e) => Err(e),
    }
}

/// The expression that the whole of `s` writes.
pub open spec fn parse_text(table: Seq<UnitRecord>, s: Seq<char>) -> Result<Expr, ParserError> {
    parse_from(table, s, 0)
}

/// Every successful production consumes input and stays inside the text:
/// a value, a term, an expression and an argument list end behind the
/// position where they began.
pub proof fn productions_advance(table: Seq<UnitRecord>, s: Seq<char>, pos: int)
    requires
        0 <= pos <= s.len(),
    ensures
        value(table, s, pos) matches Ok((_, q)) ==> pos < q <= s.len(),
        term(table, s, pos) matches Ok((_, q)) ==> pos < q <= s.len(),
        expression(table, s, pos) matches Ok((_, q)) ==> pos < q <= s.len(),
        argument_list(table, s, pos) matches Ok((_, q)) ==> pos < q <= s.len(),
        arguments(table, s, pos) matches Ok((_, q)) ==> pos < q <= s.len(),
{
    value_advances(table, s, pos);
    term_advances(table, s, pos);
    expression_advances(table, s, pos);
    argument_list_advances(table, s, pos);
    arguments_advances(table, s, pos);
}

proof fn value_advances(table: Seq<UnitRecord>, s: Seq<char>, pos: int)
    requires
        0 <= pos <= s.len(),
    ensures
        value(table, s, pos) matches Ok((_, q)) ==> pos < q <= s.len(),
    decreases s.len() - pos, 0int,
{
    spaces_end_bounds(s, pos);
    let p = spaces_end(s, pos);
    if p < s.len() {
        if s[p] == '(' {
            expression_advances(table, s, p + 1);
            if let Ok((_, q)) = expression(table, s, p + 1) {
                spaces_end_bounds(s, q);
            }
        } else if number_end(s, p) is None && (s[p] == '+' || s[p] == '-') {
            value_advances(table, s, p + 1);
        } else if is_word_start(s[p]) && word_end(s, p) < s.len() && s[word_end(s, p)] == '(' {
            word_end_bounds(s, p);
            arguments_advances(table, s, word_end(s, p) + 1);
        } else {
            spaces_end_stops(s, pos);
            quantity_at_bounds(s, p);
        }
    }
}

/// A product that continues from `pos` never ends before `pos`.
pub proof fn term_tail_advances(table: Seq<UnitRecord>, s: Seq<char>, pos: int, left: Expr)
    requires
        0 <= pos <= s.len(),
    ensures
        term_tail(table, s, pos, left) matches Ok((_, q)) ==> pos <= q <= s.len(),
    decreases s.len() - pos, 0int,
{
    spaces_end_bounds(s, pos);
    match binary_operator_at(s, pos) {
        Some((op, after)) => {
            if is_multiplicative(op) {
                value_advances(table, s, after);
                match value(table, s, after) {
                    Ok((right, q)) => {
                        term_tail_advances(
                            table,
                            s,
                            q,
                            Expr::Binary(op, Box::new(left), Box::new(right)),
                        );
                    },
                    Err(_) => {},
                }
            }
        },
        None => {},
    }
}

proof fn term_advances(table: Seq<UnitRecord>, s: Seq<char>, pos: int)
    requires
        0 <= pos <= s.len(),
    ensures
        term(table, s, pos) matches Ok((_, q)) ==> pos < q <= s.len(),
    decreases s.len() - pos, 1int,
{
    value_advances(table, s, pos);
    match value(table, s, pos) {
        Ok((first, q)) => {
            term_tail_advances(table, s, q, first);
        },
        Err(_) => {},
    }
}

/// A sum that continues from `pos` never ends before `pos`.
pub proof fn expression_tail_advances(table: Seq<UnitRecord>, s: Seq<char>, pos: int, left: Expr)
    requires
        0 <= pos <= s.len(),
    ensures
        expression_tail(table, s, pos, left) matches Ok((_, q)) ==> pos <= q <= s.len(),
    decreases s.len() - pos, 0int,
{
    spaces_end_bounds(s, pos);
    match binary_operator_at(s, pos) {
        Some((op, after)) => {
            if is_additive(op) {
                term_advances(table, s, after);
                match term(table, s, after) {
                    Ok((right, q)) => {
                        expression_tail_advances(
                            table,
                            s,
                            q,
                            Expr::Binary(op, Box::new(left), Box::new(right)),
                        );
                    },
                    Err(_) => {},
                }
            }
        },
        None => {},
    }
}

proof fn expression_advances(table: Seq<UnitRecord>, s: Seq<char>, pos: int)
    requires
        0 <= pos <= s.len(),
    ensures
        expression(table, s, pos) matches Ok((_, q)) ==> pos < q <= s.len(),
    decreases s.len() - pos, 2int,
{
    term_advances(table, s, pos);
    match term(table, s, pos) {
        Ok((first, q)) => {
            expression_tail_advances(table, s, q, first);
        },
        Err(_) => {},
    }
}

proof fn argument_list_advances(table: Seq<UnitRecord>, s: Seq<char>, pos: int)
    requires
        0 <= pos <= s.len(),
    ensures
        argument_list(table, s, pos) matches Ok((_, q)) ==> pos < q <= s.len(),
    decreases s.len() - pos, 3int,
{
    expression_advances(table, s, pos);
    match expression(table, s, pos) {
        Ok((_, q)) => {
            spaces_end_bounds(s, q);
            let r = spaces_end(s, q);
            if r < s.len() && s[r] == ',' {
                argument_list_advances(table, s, r + 1);
            }
        },
        Err(_) => {},
    }
}

proof fn arguments_advances(table: Seq<UnitRecord>, s: Seq<char>, pos: int)
    requires
        0 <= pos <= s.len(),
    ensures
        arguments(table, s, pos) matches Ok((_, q)) ==> pos < q <= s.len(),
    decreases s.len() - pos, 4int,
{
    spaces_end_bounds(s, pos);
    argument_list_advances(table, s, pos);
}

/// The stack with its topmost `count` entries replaced by the value `tree`.
spec fn folded(stack: Seq<ParserToken>, count: int, tree: Expr) -> Seq<ParserToken> {
    stack.subrange(0, stack.len() - count).push(ParserToken::Value(tree))
}

/// What a stack with a value on top amounts to, together with the input
/// from `pos` on. A sign under the top value applies to it. An operator
/// `*` or `/` under it joins it to the value below. Above `+` or `-` the
/// top value begins a term, which the input may continue, and the term is
/// joined to the value below. A stack of any other shape is an error.
#[verifier::opaque]
spec fn resume(table: Seq<UnitRecord>, s: Seq<char>, stack: Seq<ParserToken>, pos: int) -> Result<
    (Expr, int),
    ParserError,
>
    decreases stack.len(),
{
    let n = stack.len() as int;
    if n == 0 {
        Err(ParserError::ExpectedOperator(pos as usize))
    } else {
        match stack[n - 1] {
            ParserToken::Value(top) => if n == 1 {
                match term_tail(table, s, pos, top) {
                    Ok((first, q)) => expression_tail(table, s, q, first),
                    Err(e) => Err(e),
                }
            } else {
                match stack[n - 2] {
                    ParserToken::UnaryOperator(sign) => resume(
                        table,
                        s,
                        folded(stack, 2, Expr::Unary(sign, Box::new(top))),
                        pos,
                    ),
                    ParserToken::BinaryOperator(op) => if n < 3 {
                        Err(ParserError::ExpectedOperator(pos as usize))
                    } else {
                        match stack[n - 3] {
                            ParserToken::Value(left) => if is_multiplicative(op) {
                                resume(
                                    table,
                                    s,
                                    folded(
                                        stack,
                                        3,
                                        Expr::Binary(op, Box::new(left), Box::new(top)),
                                    ),
                                    pos,
                                )
                            } else if is_additive(op) && n == 3 {
                                match term_tail(table, s, pos, top) {
                                    Ok((right, q)) => expression_tail(
                                        table,
                                        s,
                                        q,
                                        Expr::Binary(op, Box::new(left), Box::new(right)),
                                    ),
                                    Err(e) => Err(e),
                                }
                            } else {
                                Err(ParserError::ExpectedOperator(pos as usize))
                            },
                            _ => Err(ParserError::ExpectedOperator(pos as usize)),
                        }
                    },
                    ParserToken::Value(_) => Err(ParserError::ExpectedOperator(pos as usize)),
                }
            },
            _ => Err(ParserError::ExpectedOperator(pos as usize)),
        }
    }
}

/// What a stack that waits for a value amounts to, together with the
/// input from `pos` on: the next value goes on top.
spec fn expecting(
    table: Seq<UnitRecord>,
    s: Seq<char>,
    stack: Seq<ParserToken>,
    pos: int,
) -> Result<(Expr, int), ParserError> {
    match value(table, s, pos) {
        Ok((next, q)) => resume(table, s, stack.push(ParserToken::Value(next)), q),
        Err(e) => Err(e),
    }
}

/// What the parser does next with its stack.
enum Slot {
    Value,
    Unary(Operator),
    Binary(Operator),
}

fn slot(token: &ParserToken) -> (r: Slot)
    ensures
        match *token {
            ParserToken::Value(_) => r is Value,
            ParserToken::UnaryOperator(op) => r == Slot::Unary(op),
            ParserToken::BinaryOperator(op) => r == Slot::Binary(op),
        },
{
    match token {
        ParserToken::Value(_) => Slot::Value,
        ParserToken::UnaryOperator(op) => Slot::Unary(*op),
        ParserToken::BinaryOperator(op) => Slot::Binary(*op),
    }
}

fn additive(op: Operator) -> (r: bool)
    ensures
        r == is_additive(op),
{
    match op.precedence() {
        Some(level) => level == 2,
        None => false,
    }
}

fn multiplicative(op: Operator) -> (r: bool)
    ensures
        r == is_multiplicative(op),
{
    match op.precedence() {
        Some(level) => level == 1,
        None => false,
    }
}

/// The parser: a cursor over the text of an expression.
#[derive(Clone, Copy, Debug)]
pub struct Parser<'a> {
    scanner: Scanner<'a>,
}

impl<'a> Parser<'a> {
    /// The whole text.
    pub closed spec fn input(self) -> Seq<char> {
        self.scanner.input()
    }

    /// The position of the next character to read.
    pub closed spec fn pos(self) -> int {
        self.scanner.pos()
    }

    /// A parser that reads from where `scanner` stands.
    pub fn new(scanner: Scanner<'a>) -> (r: Parser<'a>)
        ensures
            r.input() == scanner.input(),
            r.pos() == scanner.pos(),
    {
        Parser { scanner }
    }

    /// The position of the next character to read.
    pub fn position(&self) -> (r: usize)
        ensures
            r == self.pos(),
            r <= self.input().len(),
    {
        self.scanner.position()
    }

    /// The arithmetic operator that follows, with a cursor behind it.
    fn binary_operator(&self) -> (r: Option<(Operator, Scanner<'a>)>)
        ensures
            match binary_operator_at(self.input(), self.pos()) {
                Some((op, after)) => r matches Some((found, cursor)) && found == op
                    && cursor.input() == self.input() && cursor.pos() == after,
                None => r is None,
            },
    {
        let mut cursor = self.scanner.get_cursor();
        match cursor.next_operator() {
            Some(c) => match Operator::is_operator(c) {
                Some(op) => if additive(op) || multiplicative(op) {
                    Some((op, cursor))
                } else {
                    None
                },
                None => None,
            },
            None => None,
        }
    }

    /// Folds the stack, whose top is a value, as far as the next operator
    /// allows. The result is the finished tree where nothing is left to
    /// fold and no operator follows, and nothing where an operator was put
    /// on the stack and a value has to follow.
    fn settle(&mut self, stack: &mut Vec<ParserToken>, Ghost(table): Ghost<Seq<UnitRecord>>) -> (r:
        Result<Option<Expr>, ParserError>)
        ensures
            final(self).input() == old(self).input(),
            match r {
                Ok(Some(tree)) => resume(table, old(self).input(), old(stack)@, old(self).pos())
                    == Ok::<(Expr, int), ParserError>((tree, final(self).pos())),
                Ok(None) => resume(table, old(self).input(), old(stack)@, old(self).pos())
                    == expecting(table, old(self).input(), final(stack)@, final(self).pos())
                    && old(self).pos() < final(self).pos() <= old(self).input().len(),
                Err(e) => resume(table, old(self).input(), old(stack)@, old(self).pos()) == Err::<
                    (Expr, int),
                    ParserError,
                >(e),
            },
    {
        let ghost s = self.input();
        let ghost pos = self.pos();
        let at = self.position();
        loop
            invariant
                self.input() == s,
                self.pos() == pos,
                at == pos,
                0 <= pos <= s.len(),
                s == old(self).input(),
                pos == old(self).pos(),
                resume(table, s, old(stack)@, pos) == resume(table, s, stack@, pos),
            decreases stack.len(),
        {
            let n = stack.len();
            if n == 0 || !matches!(slot(&stack[n - 1]), Slot::Value) {
                proof {
                    malformed_stack(table, s, stack@, pos);
                }
                return Err(ParserError::ExpectedOperator(at));
            }
            if n == 1 {
                match self.binary_operator() {
                    Some((op, cursor)) => {
                        proof {
                            shifting(table, s, stack@, pos, op, cursor.pos());
                        }
                        stack.push(ParserToken::BinaryOperator(op));
                        self.scanner = cursor;
                        return Ok(None);
                    },
                    None => {
                        proof {
                            finished(table, s, stack@, pos);
                        }
                        match stack.pop() {
                            Some(ParserToken::Value(tree)) => {
                                return Ok(Some(tree));
                            },
                            _ => {
                                return Err(ParserError::ExpectedOperator(at));
                            },
                        }
                    },
                }
            }
            match slot(&stack[n - 2]) {
                Slot::Value => {
                    proof {
                        malformed_stack(table, s, stack@, pos);
                    }
                    return Err(ParserError::ExpectedOperator(at));
                },
                Slot::Unary(sign) => {
                    proof {
                        folding_sign(table, s, stack@, pos);
                    }
                    fold_sign(stack, sign);
                },
                Slot::Binary(op) => {
                    if n < 3 || !matches!(slot(&stack[n - 3]), Slot::Value) || !(multiplicative(op)
                        || (additive(op) && n == 3)) {
                        proof {
                            malformed_stack(table, s, stack@, pos);
                        }
                        return Err(ParserError::ExpectedOperator(at));
                    }
                    if !multiplicative(op) {
                        match self.binary_operator() {
                            Some((next_op, cursor)) => {
                                if multiplicative(next_op) {
                                    proof {
                                        shifting_above_sum(
                                            table,
                                            s,
                                            stack@,
                                            pos,
                                            next_op,
                                            cursor.pos(),
                                        );
                                    }
                                    stack.push(ParserToken::BinaryOperator(next_op));
                                    self.scanner = cursor;
                                    return Ok(None);
                                }
                            },
                            None => {},
                        }
                    }
                    proof {
                        folding(table, s, stack@, pos);
                    }
                    fold_operator(stack, op);
                },
            }
        }
    }
}

/// Replaces a sign and the value above it by the signed value.
fn fold_sign(stack: &mut Vec<ParserToken>, sign: Operator)
    requires
        old(stack)@.len() >= 2,
        old(stack)@[old(stack)@.len() - 1] is Value,
        old(stack)@[old(stack)@.len() - 2] == ParserToken::UnaryOperator(sign),
    ensures
        final(stack)@ == folded(
            old(stack)@,
            2,
            Expr::Unary(sign, Box::new(old(stack)@[old(stack)@.len() - 1]->Value_0)),
        ),
{
    let top = stack.pop();
    stack.pop();
    match top {
        Some(ParserToken::Value(tree)) => {
            stack.push(ParserToken::Value(Expr::Unary(sign, Box::new(tree))));
        },
        _ => {},
    }
    assert(stack@ =~= folded(
        old(stack)@,
        2,
        Expr::Unary(sign, Box::new(old(stack)@[old(stack)@.len() - 1]->Value_0)),
    ));
}

/// Replaces two values and the operator between them by their join.
fn fold_operator(stack: &mut Vec<ParserToken>, op: Operator)
    requires
        old(stack)@.len() >= 3,
        old(stack)@[old(stack)@.len() - 1] is Value,
        old(stack)@[old(stack)@.len() - 2] == ParserToken::BinaryOperator(op),
        old(stack)@[old(stack)@.len() - 3] is Value,
    ensures
        final(stack)@ == folded(
            old(stack)@,
            3,
            Expr::Binary(
                op,
                Box::new(old(stack)@[old(stack)@.len() - 3]->Value_0),
                Box::new(old(stack)@[old(stack)@.len() - 1]->Value_0),
            ),
        ),
{
    let top = stack.pop();
    stack.pop();
    let left = stack.pop();
    match (left, top) {
        (Some(ParserToken::Value(l)), Some(ParserToken::Value(r))) => {
            stack.push(ParserToken::Value(Expr::Binary(op, Box::new(l), Box::new(r))));
        },
        _ => {},
    }
    assert(stack@ =~= folded(
        old(stack)@,
        3,
        Expr::Binary(
            op,
            Box::new(old(stack)@[old(stack)@.len() - 3]->Value_0),
            Box::new(old(stack)@[old(stack)@.len() - 1]->Value_0),
        ),
    ));
}

/// Whether a stack has a shape that the parser never builds.
spec fn is_malformed(stack: Seq<ParserToken>) -> bool {
    let n = stack.len() as int;
    ||| n == 0
    ||| !(stack[n - 1] is Value)
    ||| n >= 2 && stack[n - 2] is Value
    ||| n >= 2 && stack[n - 2] is BinaryOperator && (n < 3 || !(stack[n - 3] is Value) || !(
    is_multiplicative(stack[n - 2]->BinaryOperator_0) || (is_additive(
        stack[n - 2]->BinaryOperator_0,
    ) && n == 3)))
}

proof fn malformed_stack(table: Seq<UnitRecord>, s: Seq<char>, stack: Seq<ParserToken>, pos: int)
    requires
        is_malformed(stack),
    ensures
        resume(table, s, stack, pos) == Err::<(Expr, int), ParserError>(
            ParserError::ExpectedOperator(pos as usize),
        ),
{
    reveal(resume);
}

/// A single value with no operator behind it is the whole expression.
proof fn finished(table: Seq<UnitRecord>, s: Seq<char>, stack: Seq<ParserToken>, pos: int)
    requires
        stack.len() == 1,
        stack[0] is Value,
        binary_operator_at(s, pos) is None,
    ensures
        resume(table, s, stack, pos) == Ok::<(Expr, int), ParserError>((stack[0]->Value_0, pos)),
{
    reveal(resume);
}

/// Folding a sign into the value above it does not change what the stack
/// amounts to.
proof fn folding_sign(table: Seq<UnitRecord>, s: Seq<char>, stack: Seq<ParserToken>, pos: int)
    requires
        stack.len() >= 2,
        stack[stack.len() - 1] is Value,
        stack[stack.len() - 2] is UnaryOperator,
    ensures
        resume(table, s, stack, pos) == resume(
            table,
            s,
            folded(
                stack,
                2,
                Expr::Unary(
                    stack[stack.len() - 2]->UnaryOperator_0,
                    Box::new(stack[stack.len() - 1]->Value_0),
                ),
            ),
            pos,
        ),
{
    reveal(resume);
}

/// Folding the operator under the top value, where the parser does so,
/// does not change what the stack amounts to: `*` and `/` are folded at
/// once, `+` and `-` where no `*` or `/` follows.
proof fn folding(table: Seq<UnitRecord>, s: Seq<char>, stack: Seq<ParserToken>, pos: int)
    requires
        stack.len() >= 3,
        stack[stack.len() - 1] is Value,
        stack[stack.len() - 2] is BinaryOperator,
        stack[stack.len() - 3] is Value,
        ({
            let op = stack[stack.len() - 2]->BinaryOperator_0;
            is_multiplicative(op) || (is_additive(op) && stack.len() == 3 && !(binary_operator_at(
                s,
                pos,
            ) matches Some((next, _)) && is_multiplicative(next)))
        }),
    ensures
        resume(table, s, stack, pos) == resume(
            table,
            s,
            folded(
                stack,
                3,
                Expr::Binary(
                    stack[stack.len() - 2]->BinaryOperator_0,
                    Box::new(stack[stack.len() - 3]->Value_0),
                    Box::new(stack[stack.len() - 1]->Value_0),
                ),
            ),
            pos,
        ),
{
    reveal(resume);
    let op = stack[stack.len() - 2]->BinaryOperator_0;
    let joined = Expr::Binary(
        op,
        Box::new(stack[stack.len() - 3]->Value_0),
        Box::new(stack[stack.len() - 1]->Value_0),
    );
    if !is_multiplicative(op) {
        let after = folded(stack, 3, joined);
        assert(after.len() == 1);
        assert(after[0] == ParserToken::Value(joined));
    }
}

/// Putting the operator that follows a single value on the stack does not
/// change what the stack amounts to.
proof fn shifting(
    table: Seq<UnitRecord>,
    s: Seq<char>,
    stack: Seq<ParserToken>,
    pos: int,
    op: Operator,
    after: int,
)
    requires
        0 <= pos <= s.len(),
        binary_operator_at(s, pos) == Some((op, after)),
        stack.len() == 1,
        stack[0] is Value,
    ensures
        resume(table, s, stack, pos) == expecting(
            table,
            s,
            stack.push(ParserToken::BinaryOperator(op)),
            after,
        ),
        pos < after <= s.len(),
{
    reveal_with_fuel(resume, 3);
    spaces_end_bounds(s, pos);
    value_advances(table, s, after);
    let top = stack[0]->Value_0;
    let waiting = stack.push(ParserToken::BinaryOperator(op));
    assert(resume(table, s, stack, pos) == match term_tail(table, s, pos, top) {
        Ok((first, q)) => expression_tail(table, s, q, first),
        Err(e) => Err(e),
    });
    match value(table, s, after) {
        Ok((next, q)) => {
            term_tail_advances(table, s, q, next);
            let grown = waiting.push(ParserToken::Value(next));
            assert(grown.len() == 3);
            assert(grown[2] == ParserToken::Value(next));
            assert(grown[1] == ParserToken::BinaryOperator(op));
            assert(grown[0] == ParserToken::Value(top));
            if is_multiplicative(op) {
                let joined = Expr::Binary(op, Box::new(top), Box::new(next));
                let shorter = folded(grown, 3, joined);
                assert(shorter.len() == 1);
                assert(shorter[0] == ParserToken::Value(joined));
                assert(term_tail(table, s, pos, top) == term_tail(table, s, q, joined));
                assert(resume(table, s, grown, q) == resume(table, s, shorter, q));
            } else {
                assert(is_additive(op));
                assert(term_tail(table, s, pos, top) == Ok::<(Expr, int), ParserError>((top, pos)));
                assert(term(table, s, after) == term_tail(table, s, q, next));
                assert(resume(table, s, grown, q) == match term_tail(table, s, q, next) {
                    Ok((right, end)) => expression_tail(
                        table,
                        s,
                        end,
                        Expr::Binary(op, Box::new(top), Box::new(right)),
                    ),
                    Err(e) => Err(e),
                });
            }
        },
        Err(e) => {
            if !is_multiplicative(op) {
                assert(term_tail(table, s, pos, top) == Ok::<(Expr, int), ParserError>((top, pos)));
                assert(term(table, s, after) == Err::<(Expr, int), ParserError>(e));
            }
        },
    }
}

/// Putting `*` or `/` on the stack above a pending `+` or `-` does not
/// change what the stack amounts to.
proof fn shifting_above_sum(
    table: Seq<UnitRecord>,
    s: Seq<char>,
    stack: Seq<ParserToken>,
    pos: int,
    op: Operator,
    after: int,
)
    requires
        0 <= pos <= s.len(),
        binary_operator_at(s, pos) == Some((op, after)),
        is_multiplicative(op),
        stack.len() == 3,
        stack[2] is Value,
        stack[1] is BinaryOperator,
        is_additive(stack[1]->BinaryOperator_0),
        stack[0] is Value,
    ensures
        resume(table, s, stack, pos) == expecting(
            table,
            s,
            stack.push(ParserToken::BinaryOperator(op)),
            after,
        ),
        pos < after <= s.len(),
{
    reveal_with_fuel(resume, 3);
    spaces_end_bounds(s, pos);
    value_advances(table, s, after);
    let top = stack[2]->Value_0;
    let waiting = stack.push(ParserToken::BinaryOperator(op));
    match value(table, s, after) {
        Ok((next, q)) => {
            let grown = waiting.push(ParserToken::Value(next));
            let joined = Expr::Binary(op, Box::new(top), Box::new(next));
            assert(grown.len() == 5);
            assert(grown[4] == ParserToken::Value(next));
            assert(grown[3] == ParserToken::BinaryOperator(op));
            assert(grown[2] == ParserToken::Value(top));
            let shorter = folded(grown, 3, joined);
            assert(shorter.len() == 3);
            assert(shorter[2] == ParserToken::Value(joined));
            assert(shorter[1] == stack[1]);
            assert(shorter[0] == stack[0]);
        },
        Err(_) => {},
    }
}

/// Spaces before a value do not matter.
proof fn value_skips_spaces(table: Seq<UnitRecord>, s: Seq<char>, pos: int)
    requires
        0 <= pos <= s.len(),
    ensures
        value(table, s, pos) == value(table, s, spaces_end(s, pos)),
{
    spaces_end_bounds(s, pos);
    spaces_end_stops(s, pos);
}

/// An expression is what an empty stack that waits for a value amounts
/// to.
proof fn starting(table: Seq<UnitRecord>, s: Seq<char>, pos: int)
    requires
        0 <= pos <= s.len(),
    ensures
        expression(table, s, pos) == expecting(table, s, Seq::<ParserToken>::empty(), pos),
{
    reveal(resume);
    value_advances(table, s, pos);
    match value(table, s, pos) {
        Ok((first, q)) => {
            term_tail_advances(table, s, q, first);
            let stack = Seq::<ParserToken>::empty().push(ParserToken::Value(first));
            assert(stack.len() == 1);
            assert(stack[0] == ParserToken::Value(first));
            assert(term(table, s, pos) == term_tail(table, s, q, first));
        },
        Err(e) => {
            assert(term(table, s, pos) == Err::<(Expr, int), ParserError>(e));
        },
    }
}

/// A sign that stands where a value has to follow goes on the stack, and
/// the value is looked for behind it.
proof fn signing(table: Seq<UnitRecord>, s: Seq<char>, stack: Seq<ParserToken>, p: int)
    requires
        0 <= p < s.len(),
        spaces_end(s, p) == p,
        number_end(s, p) is None,
        s[p] == '+' || s[p] == '-',
    ensures
        expecting(table, s, stack, p) == expecting(
            table,
            s,
            stack.push(ParserToken::UnaryOperator(Operator::of(s[p])->0)),
            p + 1,
        ),
{
    reveal(resume);
    let sign = Operator::of(s[p])->0;
    match value(table, s, p + 1) {
        Ok((operand, q)) => {
            let grown = stack.push(ParserToken::UnaryOperator(sign)).push(
                ParserToken::Value(operand),
            );
            let n = grown.len() as int;
            assert(grown[n - 1] == ParserToken::Value(operand));
            assert(grown[n - 2] == ParserToken::UnaryOperator(sign));
            assert(folded(grown, 2, Expr::Unary(sign, Box::new(operand))) =~= stack.push(
                ParserToken::Value(Expr::Unary(sign, Box::new(operand))),
            ));
        },
        Err(_) => {},
    }
}

impl<'a> Parser<'a> {
    /// Reads the literal that follows.
    fn parse_literal(&mut self, rules: &UnitRules) -> (r: Result<Expr, ParserError>)
        ensures
            final(self).input() == old(self).input(),
            match quantity_at(old(self).input(), old(self).pos()) {
                Some((p, n, u)) => match literal(rules@, old(self).input(), p, n, u) {
                    Ok(tree) => r == Ok::<Expr, ParserError>(tree) && final(self).pos() == u,
                    Err(e) => r == Err::<Expr, ParserError>(e),
                },
                None => r == Err::<Expr, ParserError>(
                    ParserError::ExpectedValue(
                        spaces_end(old(self).input(), old(self).pos()) as usize,
                    ),
                ),
            },
    {
        let start = self.position();
        let mut cursor = self.scanner.get_cursor();
        cursor.eat_whitespace();
        let p = cursor.position();
        proof {
            quantity_at_bounds(self.input(), start as int);
        }
        match self.scanner.next_quantity() {
            Some((from, n, u)) => {
                let text = self.scanner.source();
                match UnitWithExponent::from_parts(
                    rules,
                    text.substring_char(from, n),
                    text.substring_char(n, u),
                ) {
                    Ok(unit) => Ok(Expr::Number { start: from, end: n, unit }),
                    Err(ParseUnitError::UnrecognizedUnit(_, _)) => Err(
                        ParserError::UnrecognizedUnit(n, u),
                    ),
                    Err(ParseUnitError::IntegerParseError(_, _)) => Err(
                        ParserError::IntegerParseError(n, u),
                    ),
                    Err(ParseUnitError::EarlyEndOfLine) => Err(ParserError::EarlyEndOfInput),
                }
            },
            None => Err(ParserError::ExpectedValue(p)),
        }
    }

    /// Reads the `)` that closes a parenthesised expression.
    fn parse_closing(&mut self, inner: Expr) -> (r: Result<Expr, ParserError>)
        ensures
            final(self).input() == old(self).input(),
            match closing(old(self).input(), old(self).pos(), inner) {
                Ok((tree, q)) => r == Ok::<Expr, ParserError>(tree) && final(self).pos() == q,
                Err(e) => r == Err::<Expr, ParserError>(e),
            },
    {
        let start = self.position();
        proof {
            spaces_end_bounds(self.input(), start as int);
        }
        self.scanner.eat_whitespace();
        let at = self.scanner.position();
        match self.scanner.peek() {
            None => Err(ParserError::EarlyEndOfInput),
            Some(d) => if d == ')' {
                self.scanner.advance();
                Ok(Expr::Scope(Box::new(inner)))
            } else {
                Err(ParserError::ExpectedSeparator(Separator::CloseParentheses, at))
            },
        }
    }

    /// Where the name of a call ends, if a call begins at the cursor: a
    /// word with `(` right behind it.
    fn call_name_end(&self) -> (r: Option<usize>)
        requires
            spaces_end(self.input(), self.pos()) == self.pos(),
        ensures
            ({
                let s = self.input();
                let p = self.pos();
                if p < s.len() && is_word_start(s[p]) && word_end(s, p) < s.len() && s[word_end(
                    s,
                    p,
                )] == '(' {
                    r == Some(word_end(s, p) as usize) && p < word_end(s, p)
                } else {
                    r is None
                }
            }),
    {
        let p = self.position();
        let mut cursor = self.scanner.get_cursor();
        proof {
            word_end_bounds(self.input(), p as int);
            if p < self.input().len() && is_word_start(self.input()[p as int]) {
                word_end_bounds(self.input(), p + 1);
            }
        }
        match cursor.next_word() {
            Some(_) => {
                let w = cursor.position();
                match cursor.peek() {
                    Some(d) => if d == '(' {
                        Some(w)
                    } else {
                        None
                    },
                    None => None,
                }
            },
            None => None,
        }
    }

    /// Reads a value that does not begin with a sign: an expression in
    /// parentheses, a call or a literal.
    fn parse_primary(&mut self, rules: &UnitRules) -> (r: Result<Expr, ParserError>)
        requires
            ({
                let s = old(self).input();
                let p = spaces_end(s, old(self).pos());
                !(p < s.len() && number_end(s, p) is None && (s[p] == '+' || s[p] == '-'))
            }),
        ensures
            final(self).input() == old(self).input(),
            match value(rules@, old(self).input(), old(self).pos()) {
                Ok((tree, q)) => r == Ok::<Expr, ParserError>(tree) && final(self).pos() == q,
                Err(e) => r == Err::<Expr, ParserError>(e),
            },
        decreases old(self).input().len() - old(self).pos(), 0int,
    {
        let ghost s = self.input();
        let ghost table = rules@;
        let start = self.position();
        proof {
            spaces_end_bounds(s, start as int);
            spaces_end_stops(s, start as int);
        }
        self.scanner.eat_whitespace();
        let p = self.scanner.position();
        let c = match self.scanner.peek() {
            Some(c) => c,
            None => {
                return Err(ParserError::EarlyEndOfInput);
            },
        };
        if c == '(' {
            self.scanner.advance();
            return match self.parse_expression(rules) {
                Ok(inner) => self.parse_closing(inner),
                Err(e) => Err(e),
            };
        }
        match self.call_name_end() {
            Some(w) => {
                let mut cursor = self.scanner.get_cursor();
                let _ = cursor.next_word();
                cursor.advance();
                self.scanner = cursor;
                match self.parse_arguments(rules) {
                    Ok(arguments) => Ok(Expr::Function { start: p, end: w, arguments }),
                    Err(e) => Err(e),
                }
            },
            None => self.parse_literal(rules),
        }
    }

    /// Reads the arguments of a call, from behind its `(` up to and with
    /// its `)`.
    fn parse_arguments(&mut self, rules: &UnitRules) -> (r: Result<Arguments, ParserError>)
        ensures
            final(self).input() == old(self).input(),
            match arguments(rules@, old(self).input(), old(self).pos()) {
                Ok((list, q)) => r == Ok::<Arguments, ParserError>(list) && final(self).pos() == q,
                Err(e) => r == Err::<Arguments, ParserError>(e),
            },
        decreases old(self).input().len() - old(self).pos(), 3int,
    {
        let start = self.position();
        proof {
            spaces_end_bounds(self.input(), start as int);
        }
        let mut cursor = self.scanner.get_cursor();
        cursor.eat_whitespace();
        let close = match cursor.peek() {
            Some(d) => d == ')',
            None => false,
        };
        if close {
            cursor.advance();
            self.scanner = cursor;
            Ok(Arguments::Empty)
        } else {
            self.parse_argument_list(rules)
        }
    }

    /// Reads one argument and those that follow it, up to and with the
    /// closing `)`.
    fn parse_argument_list(&mut self, rules: &UnitRules) -> (r: Result<Arguments, ParserError>)
        ensures
            final(self).input() == old(self).input(),
            match argument_list(rules@, old(self).input(), old(self).pos()) {
                Ok((list, q)) => r == Ok::<Arguments, ParserError>(list) && final(self).pos() == q,
                Err(e) => r == Err::<Arguments, ParserError>(e),
            },
        decreases old(self).input().len() - old(self).pos(), 2int,
    {
        let ghost s = self.input();
        let ghost table = rules@;
        let start = self.position();
        let first = match self.parse_expression(rules) {
            Ok(tree) => tree,
            Err(e) => {
                return Err(e);
            },
        };
        proof {
            productions_advance(table, s, start as int);
            spaces_end_bounds(s, self.pos());
        }
        self.scanner.eat_whitespace();
        let at = self.scanner.position();
        match self.scanner.peek() {
            None => Err(ParserError::EarlyEndOfInput),
            Some(d) => if d == ',' {
                self.scanner.advance();
                match self.parse_argument_list(rules) {
                    Ok(rest) => Ok(Arguments::More(Box::new(first), Box::new(rest))),
                    Err(e) => Err(e),
                }
            } else if d == ')' {
                self.scanner.advance();
                Ok(Arguments::More(Box::new(first), Box::new(Arguments::Empty)))
            } else {
                Err(ParserError::ExpectedSeparator(Separator::Comma, at))
            },
        }
    }

    /// Reads the expression that begins at the cursor and leaves the cursor
    /// behind it. Values and operators go on a stack, which is folded
    /// whenever the operator that follows does not bind tighter than the one
    /// on the stack.
    pub fn parse_expression(&mut self, rules: &UnitRules) -> (r: Result<Expr, ParserError>)
        ensures
            final(self).input() == old(self).input(),
            match expression(rules@, old(self).input(), old(self).pos()) {
                Ok((tree, q)) => r == Ok::<Expr, ParserError>(tree) && final(self).pos() == q,
                Err(e) => r == Err::<Expr, ParserError>(e),
            },
        decreases old(self).input().len() - old(self).pos(), 1int,
    {
        let ghost s = self.input();
        let ghost table = rules@;
        let start = self.position();
        let mut stack: Vec<ParserToken> = Vec::new();
        proof {
            starting(table, s, start as int);
            assert(stack@ =~= Seq::<ParserToken>::empty());
        }
        loop
            invariant
                self.input() == s,
                s == old(self).input(),
                table == rules@,
                start == old(self).pos(),
                start <= self.pos() <= s.len(),
                expression(table, s, start as int) == expecting(table, s, stack@, self.pos()),
            decreases s.len() - self.pos(),
        {
            let ghost before = self.pos();
            proof {
                value_skips_spaces(table, s, before);
                spaces_end_bounds(s, before);
                spaces_end_stops(s, before);
            }
            self.scanner.eat_whitespace();
            let sign = match self.scanner.peek() {
                Some(c) => if c == '+' || c == '-' {
                    let mut cursor = self.scanner.get_cursor();
                    match cursor.next_number() {
                        Some(_) => None,
                        None => Operator::is_operator(c),
                    }
                } else {
                    None
                },
                None => None,
            };
            match sign {
                Some(op) => {
                    proof {
                        signing(table, s, stack@, self.pos());
                    }
                    stack.push(ParserToken::UnaryOperator(op));
                    self.scanner.advance();
                },
                None => {
                    let tree = match self.parse_primary(rules) {
                        Ok(tree) => tree,
                        Err(e) => {
                            return Err(e);
                        },
                    };
                    proof {
                        productions_advance(table, s, spaces_end(s, before));
                    }
                    stack.push(ParserToken::Value(tree));
                    match self.settle(&mut stack, Ghost(table)) {
                        Ok(Some(tree)) => {
                            return Ok(tree);
                        },
                        Ok(None) => {},
                        Err(e) => {
                            return Err(e);
                        },
                    }
                },
            }
        }
    }
}

/// A snapshot of a parser to try a production on. What it reads does not
/// move the parser it was taken from until it is applied.
#[derive(Clone, Copy, Debug)]
pub struct ParserCursor<'a> {
    copy: Parser<'a>,
}

impl<'a> Parser<'a> {
    /// A snapshot of the parser.
    pub fn cursor(&self) -> (r: ParserCursor<'a>)
        ensures
            r.input() == self.input(),
            r.pos() == self.pos(),
    {
        ParserCursor { copy: *self }
    }

    /// Reads the rest of the text as one expression. Nothing but spaces
    /// may follow the expression.
    pub fn parse(&mut self, rules: &UnitRules) -> (r: Result<Expr, ParserError>)
        ensures
            final(self).input() == old(self).input(),
            r == parse_from(rules@, old(self).input(), old(self).pos()),
    {
        let ghost s = self.input();
        let start = self.position();
        let tree = match self.parse_expression(rules) {
            Ok(tree) => tree,
            Err(e) => {
                return Err(e);
            },
        };
        proof {
            productions_advance(rules@, s, start as int);
            spaces_end_bounds(s, self.pos());
        }
        self.scanner.eat_whitespace();
        if self.scanner.is_done() {
            Ok(tree)
        } else {
            Err(ParserError::ExpectedOperator(self.scanner.position()))
        }
    }
}

impl<'a> ParserCursor<'a> {
    /// The whole text.
    pub closed spec fn input(self) -> Seq<char> {
        self.copy.input()
    }

    /// The position of the next character that the cursor reads.
    pub closed spec fn pos(self) -> int {
        self.copy.pos()
    }

    /// Moves `parent` to where the cursor stands.
    pub fn apply(self, parent: &mut Parser<'a>)
        ensures
            final(parent).input() == self.input(),
            final(parent).pos() == self.pos(),
    {
        *parent = self.copy;
    }

    /// Takes the integer that follows.
    pub fn next_int(&mut self) -> (r: Result<i64, ParserError>)
        ensures
            final(self).input() == old(self).input(),
            match crate::scanner::int_at(old(self).input(), old(self).pos()) {
                Some((value, end)) => r == Ok::<i64, ParserError>(value) && final(self).pos()
                    == end,
                None => r == Err::<i64, ParserError>(ParserError::ExpectedNumber)
                    && final(self).pos() == old(self).pos(),
            },
    {
        match self.copy.scanner.next_int() {
            Some(value) => Ok(value),
            None => Err(ParserError::ExpectedNumber),
        }
    }
}

/// Reads `input` as one expression. The tree refers to `input` by its
/// spans, and can be evaluated over it.
pub fn parse(rules: &UnitRules, input: &str) -> (r: Result<Expr, ParserError>)
    ensures
        r == parse_text(rules@, input@),
        r matches Ok(tree) ==> reads(tree, input@),
{
    let mut parser = Parser::new(Scanner::new(input));
    proof {
        parsed_trees_read(rules@, input@, 0);
    }
    parser.parse(rules)
}

} // verus!
