use crate::si::{is_unit_operator, Number};
use crate::text::{
    digits_end, digits_end_bounds, integer_value, is_decimal, is_word_start, number_end,
    number_end_bounds, number_end_of_span, parse_integer, scan_digits, scan_number, scan_spaces,
    scan_word, spaces_end, word_end, word_end_bounds, word_start,
};
use vstd::prelude::*;
use vstd::string::StrSliceExecFns;

verus! {

/// The operators, each a single character: `+ - * / ^ =`.
#[derive(PartialEq, Eq, Structural, Clone, Copy, Debug)]
pub enum Operator {
    Plus,
    Minus,
    Times,
    Divide,
    Raise,
    Equals,
}

/// The separators, each a single character: `, . : ( )`. `EOL` stands for
/// the end of the line, which no character writes.
#[derive(PartialEq, Eq, Structural, Clone, Copy, Debug)]
pub enum Separator {
    Comma,
    Period,
    Colon,
    OpenParentheses,
    CloseParentheses,
    EOL,
}

/// What kind of token a piece of text is. A number that is written without
/// a fraction and fits in 64 bits is an `Int` and carries its value; any
/// other number is a `Float`, whose value is read from the token's text.
#[derive(PartialEq, Eq, Structural, Clone, Copy, Debug)]
pub enum TokenType {
    Word,
    Operator(Operator),
    Separator(Separator),
    Int(i64),
    Float,
}

impl Separator {
    /// The separator that `c` writes, if it writes one.
    pub open spec fn of(c: char) -> Option<Separator> {
        if c == '(' {
            Some(Separator::OpenParentheses)
        } else if c == ')' {
            Some(Separator::CloseParentheses)
        } else if c == ',' {
            Some(Separator::Comma)
        } else if c == '.' {
            Some(Separator::Period)
        } else if c == ':' {
            Some(Separator::Colon)
        } else {
            None
        }
    }

    /// The separator that `c` writes, if it writes one.
    pub fn is_separator(c: char) -> (r: Option<Separator>)
        ensures
            r == Separator::of(c),
    {
        match c {
            '(' => Some(Separator::OpenParentheses),
            ')' => Some(Separator::CloseParentheses),
            ',' => Some(Separator::Comma),
            '.' => Some(Separator::Period),
            ':' => Some(Separator::Colon),
            _ => None,
        }
    }
}

impl Operator {
    /// The operator that `c` writes, if it writes one.
    pub open spec fn of(c: char) -> Option<Operator> {
        if c == '+' {
            Some(Operator::Plus)
        } else if c == '-' {
            Some(Operator::Minus)
        } else if c == '*' {
            Some(Operator::Times)
        } else if c == '/' {
            Some(Operator::Divide)
        } else if c == '^' {
            Some(Operator::Raise)
        } else if c == '=' {
            Some(Operator::Equals)
        } else {
            None
        }
    }

    /// How tightly the operator binds its two operands; a lower number
    /// binds tighter. `*` and `/` bind tighter than `+` and `-`. `^` and `=`
    /// join no operands in an expression and have no precedence.
    pub open spec fn binding(self) -> Option<u8> {
        match self {
            Operator::Times | Operator::Divide => Some(1u8),
            Operator::Plus | Operator::Minus => Some(2u8),
            Operator::Raise | Operator::Equals => None,
        }
    }

    /// How tightly the operator binds its two operands; a lower number
    /// binds tighter.
    pub fn precedence(&self) -> (r: Option<u8>)
        ensures
            r == self.binding(),
    {
        match self {
            Operator::Times | Operator::Divide => Some(1),
            Operator::Plus | Operator::Minus => Some(2),
            Operator::Raise | Operator::Equals => None,
        }
    }

    /// The operator that `c` writes, if it writes one.
    pub fn is_operator(c: char) -> (r: Option<Operator>)
        ensures
            r == Operator::of(c),
    {
        match c {
            '+' => Some(Operator::Plus),
            '-' => Some(Operator::Minus),
            '*' => Some(Operator::Times),
            '/' => Some(Operator::Divide),
            '^' => Some(Operator::Raise),
            '=' => Some(Operator::Equals),
            _ => None,
        }
    }
}

/// A token as the contracts see it: its kind and the span of the input
/// that it covers.
pub struct Lexeme {
    pub kind: TokenType,
    pub start: int,
    pub end: int,
}

/// The kind of a number token whose text is `t`.
pub open spec fn number_kind(t: Seq<char>, fraction: bool) -> TokenType {
    if fraction {
        TokenType::Float
    } else {
        match integer_value(t) {
            Some(v) => if i64::MIN <= v <= i64::MAX {
                TokenType::Int(v as i64)
            } else {
                TokenType::Float
            },
            None => TokenType::Float,
        }
    }
}

/// The token that follows position `pos`, after any spaces. Separators and
/// operators are single characters and are recognised first, then numbers,
/// then words. There is no token at the end of the input, nor at a character
/// that begins none of these.
pub open spec fn token_at(s: Seq<char>, pos: int) -> Option<Lexeme> {
    let p = spaces_end(s, pos);
    if p < 0 || p >= s.len() {
        None
    } else if Separator::of(s[p]) is Some {
        Some(Lexeme { kind: TokenType::Separator(Separator::of(s[p])->0), start: p, end: p + 1 })
    } else if Operator::of(s[p]) is Some {
        Some(Lexeme { kind: TokenType::Operator(Operator::of(s[p])->0), start: p, end: p + 1 })
    } else {
        match number_end(s, p) {
            Some((end, fraction)) => Some(
                Lexeme { kind: number_kind(s.subrange(p, end), fraction), start: p, end },
            ),
            None => if is_word_start(s[p]) {
                Some(Lexeme { kind: TokenType::Word, start: p, end: word_end(s, p) })
            } else {
                None
            },
        }
    }
}

/// The integer that follows `pos`, after any spaces, and where it ends: a
/// number without a fraction whose value fits in 64 bits.
pub open spec fn int_at(s: Seq<char>, pos: int) -> Option<(i64, int)> {
    let p = spaces_end(s, pos);
    match number_end(s, p) {
        Some((end, fraction)) => match number_kind(s.subrange(p, end), fraction) {
            TokenType::Int(v) => Some((v, end)),
            _ => None,
        },
        None => None,
    }
}

/// The span of the number that follows `pos`, after any spaces.
pub open spec fn number_at(s: Seq<char>, pos: int) -> Option<(int, int)> {
    let p = spaces_end(s, pos);
    match number_end(s, p) {
        Some((end, _)) => Some((p, end)),
        None => None,
    }
}

/// The span of the word that follows `pos`, after any spaces.
pub open spec fn word_at(s: Seq<char>, pos: int) -> Option<(int, int)> {
    let p = spaces_end(s, pos);
    if 0 <= p < s.len() && is_word_start(s[p]) {
        Some((p, word_end(s, p)))
    } else {
        None
    }
}

/// The index of the operator character that follows `pos`, after any
/// spaces.
pub open spec fn operator_at(s: Seq<char>, pos: int) -> Option<int> {
    let p = spaces_end(s, pos);
    if 0 <= p < s.len() && Operator::of(s[p]) is Some {
        Some(p)
    } else {
        None
    }
}

/// The index of the separator character that follows `pos`, after any
/// spaces.
pub open spec fn separator_at(s: Seq<char>, pos: int) -> Option<int> {
    let p = spaces_end(s, pos);
    if 0 <= p < s.len() && Separator::of(s[p]) is Some {
        Some(p)
    } else {
        None
    }
}

/// Where the exponent of a unit term ends, for a term whose symbol ends at
/// `i`: behind `^`, an optional `-` and digits, or at `i` where no such
/// exponent follows.
pub open spec fn exponent_end(s: Seq<char>, i: int) -> int {
    if 0 <= i < s.len() && s[i] == '^' {
        let j = if i + 1 < s.len() && s[i + 1] == '-' {
            i + 2
        } else {
            i + 1
        };
        let k = digits_end(s, j);
        if k > j {
            k
        } else {
            i
        }
    } else {
        i
    }
}

/// Where the unit expression that begins at `i` ends. It runs over a
/// symbol and its exponent, and on over each `*` or `/` that a further
/// symbol follows at once. Where no symbol begins at `i` it is empty.
pub open spec fn unit_run_end(s: Seq<char>, i: int) -> int
    decreases s.len() - i,
{
    if 0 <= i < s.len() && is_word_start(s[i]) {
        let t = exponent_end(s, word_end(s, i));
        if i < t && t + 1 < s.len() && is_unit_operator(s[t]) && is_word_start(s[t + 1]) {
            unit_run_end(s, t + 1)
        } else {
            t
        }
    } else {
        i
    }
}

/// The spans of the quantity that follows `pos`, after any spaces: where
/// it begins, where its number ends and its unit expression begins, and
/// where it ends. Either part may be empty, not both.
pub open spec fn quantity_at(s: Seq<char>, pos: int) -> Option<(int, int, int)> {
    let p = spaces_end(s, pos);
    let n = match number_end(s, p) {
        Some((end, _)) => end,
        None => p,
    };
    let u = unit_run_end(s, n);
    if u > p {
        Some((p, n, u))
    } else {
        None
    }
}

/// One token: its kind and the piece of the input that it covers.
#[derive(Clone, Copy, Debug)]
pub struct Token<'a> {
    source: &'a str,
    start: usize,
    end: usize,
    token_type: TokenType,
}

impl<'a> Token<'a> {
    #[verifier::type_invariant]
    spec fn well_formed(self) -> bool {
        self.start <= self.end <= self.source@.len()
    }

    /// The whole input that the token was taken from.
    pub closed spec fn input(self) -> Seq<char> {
        self.source@
    }

    /// The kind and the span of the token.
    pub closed spec fn lexeme(self) -> Lexeme {
        Lexeme { kind: self.token_type, start: self.start as int, end: self.end as int }
    }

    /// The characters of the token.
    pub open spec fn text(self) -> Seq<char> {
        self.input().subrange(self.lexeme().start, self.lexeme().end)
    }

    /// The kind of the token.
    pub fn token_type(&self) -> (r: TokenType)
        ensures
            r == self.lexeme().kind,
    {
        self.token_type
    }

    /// The index in the input of the token's first character.
    pub fn start(&self) -> (r: usize)
        ensures
            r == self.lexeme().start,
    {
        self.start
    }

    /// The index in the input behind the token's last character.
    pub fn end(&self) -> (r: usize)
        ensures
            r == self.lexeme().end,
    {
        self.end
    }

    /// The token's own text.
    pub fn as_str(&self) -> (r: &'a str)
        ensures
            r@ == self.text(),
    {
        proof {
            use_type_invariant(self);
        }
        self.source.substring_char(self.start, self.end)
    }

    /// The text from the start of this token to the end of `other`, a
    /// token of the same input that begins behind the start of this one.
    pub fn spanning_content(&self, other: &Token<'a>) -> (r: &'a str)
        requires
            self.input() == other.input(),
            self.lexeme().start < other.lexeme().start,
        ensures
            r@ == self.input().subrange(self.lexeme().start, other.lexeme().end),
    {
        proof {
            use_type_invariant(self);
            use_type_invariant(other);
        }
        self.source.substring_char(self.start, other.end)
    }
}

/// A cursor over the input text. Every probe skips spaces, then either
/// takes what it recognises and moves behind it, or takes nothing and
/// leaves the cursor where it was. A copy of the scanner is a snapshot to
/// return to.
#[derive(Clone, Copy, Debug)]
pub struct Scanner<'a> {
    total_input: &'a str,
    length: usize,
    position: usize,
}

impl<'a> Scanner<'a> {
    #[verifier::type_invariant]
    spec fn well_formed(self) -> bool {
        self.length == self.total_input@.len() && self.position <= self.length
    }

    /// The whole input.
    pub closed spec fn input(self) -> Seq<char> {
        self.total_input@
    }

    /// The index of the next character to read.
    pub closed spec fn pos(self) -> int {
        self.position as int
    }

    /// A cursor at the start of `s`.
    pub fn new(s: &'a str) -> (r: Scanner<'a>)
        ensures
            r.input() == s@,
            r.pos() == 0,
            s@.len() <= usize::MAX,
    {
        Scanner { total_input: s, length: s.unicode_len(), position: 0 }
    }

    /// Whether all of the input has been read.
    pub fn is_done(&self) -> (r: bool)
        ensures
            r == (self.pos() == self.input().len()),
    {
        proof {
            use_type_invariant(self);
        }
        self.position == self.length
    }

    /// The index of the next character to read.
    pub fn position(&self) -> (r: usize)
        ensures
            r == self.pos(),
            r <= self.input().len(),
    {
        proof {
            use_type_invariant(self);
        }
        self.position
    }

    /// The number of characters of the whole input.
    pub fn len(&self) -> (r: usize)
        ensures
            r == self.input().len(),
    {
        proof {
            use_type_invariant(self);
        }
        self.length
    }

    /// The whole input.
    pub fn source(&self) -> (r: &'a str)
        ensures
            r@ == self.input(),
    {
        self.total_input
    }

    /// The part of the input that has not been read.
    pub fn content(&self) -> (r: &'a str)
        ensures
            r@ == self.input().subrange(self.pos(), self.input().len() as int),
    {
        proof {
            use_type_invariant(self);
        }
        self.total_input.substring_char(self.position, self.length)
    }

    /// A snapshot of the cursor.
    pub fn get_cursor(&self) -> (r: Scanner<'a>)
        ensures
            r.input() == self.input(),
            r.pos() == self.pos(),
    {
        *self
    }

    /// Moves the cursor behind the spaces that it stands at.
    pub fn eat_whitespace(&mut self)
        ensures
            final(self).input() == old(self).input(),
            final(self).pos() == spaces_end(old(self).input(), old(self).pos()),
    {
        proof {
            use_type_invariant(&*self);
        }
        self.position = scan_spaces(self.total_input, self.length, self.position);
    }

    /// The next character, where one is left.
    pub fn peek(&self) -> (r: Option<char>)
        ensures
            r == if self.pos() < self.input().len() {
                Some(self.input()[self.pos()])
            } else {
                None
            },
    {
        proof {
            use_type_invariant(self);
        }
        if self.position < self.length {
            Some(self.total_input.get_char(self.position))
        } else {
            None
        }
    }

    /// Takes the next character.
    pub fn advance(&mut self) -> (r: char)
        requires
            old(self).pos() < old(self).input().len(),
        ensures
            final(self).input() == old(self).input(),
            final(self).pos() == old(self).pos() + 1,
            r == old(self).input()[old(self).pos()],
    {
        proof {
            use_type_invariant(&*self);
        }
        let c = self.total_input.get_char(self.position);
        self.position = self.position + 1;
        c
    }

    /// Takes the token that follows, if one does.
    pub fn next_token(&mut self) -> (r: Option<Token<'a>>)
        ensures
            final(self).input() == old(self).input(),
            match token_at(old(self).input(), old(self).pos()) {
                Some(lexeme) => r is Some && r->0.lexeme() == lexeme && r->0.input() == old(
                    self,
                ).input() && final(self).pos() == lexeme.end,
                None => r is None && final(self).pos() == old(self).pos(),
            },
    {
        proof {
            use_type_invariant(&*self);
        }
        let s = self.total_input;
        let len = self.length;
        let p = scan_spaces(s, len, self.position);
        if p >= len {
            return None;
        }
        let c = s.get_char(p);
        if let Some(separator) = Separator::is_separator(c) {
            self.position = p + 1;
            return Some(
                Token { source: s, start: p, end: p + 1, token_type: TokenType::Separator(separator) },
            );
        }
        if let Some(operator) = Operator::is_operator(c) {
            self.position = p + 1;
            return Some(
                Token { source: s, start: p, end: p + 1, token_type: TokenType::Operator(operator) },
            );
        }
        match scan_number(s, len, p) {
            Some((end, fraction)) => {
                let token_type = if fraction {
                    TokenType::Float
                } else {
                    match parse_integer(s, p, end) {
                        Some(v) => TokenType::Int(v),
                        None => TokenType::Float,
                    }
                };
                self.position = end;
                Some(Token { source: s, start: p, end, token_type })
            },
            None => {
                if word_start(c) {
                    let end = scan_word(s, len, p);
                    self.position = end;
                    Some(Token { source: s, start: p, end, token_type: TokenType::Word })
                } else {
                    None
                }
            },
        }
    }

    /// Takes the integer that follows, if one does.
    pub fn next_int(&mut self) -> (r: Option<i64>)
        ensures
            final(self).input() == old(self).input(),
            match int_at(old(self).input(), old(self).pos()) {
                Some((value, end)) => r == Some(value) && final(self).pos() == end,
                None => r is None && final(self).pos() == old(self).pos(),
            },
    {
        proof {
            use_type_invariant(&*self);
        }
        let p = scan_spaces(self.total_input, self.length, self.position);
        match scan_number(self.total_input, self.length, p) {
            Some((end, false)) => match parse_integer(self.total_input, p, end) {
                Some(v) => {
                    self.position = end;
                    Some(v)
                },
                None => None,
            },
            _ => None,
        }
    }

    /// Takes the text of the number that follows, if one does.
    pub fn next_number(&mut self) -> (r: Option<&'a str>)
        ensures
            final(self).input() == old(self).input(),
            match number_at(old(self).input(), old(self).pos()) {
                Some((start, end)) => r is Some && r->0@ == old(self).input().subrange(start, end)
                    && final(self).pos() == end && is_decimal(r->0@),
                None => r is None && final(self).pos() == old(self).pos(),
            },
    {
        proof {
            use_type_invariant(&*self);
        }
        let p = scan_spaces(self.total_input, self.length, self.position);
        match scan_number(self.total_input, self.length, p) {
            Some((end, _)) => {
                self.position = end;
                proof {
                    number_end_of_span(self.total_input@, p as int);
                }
                Some(self.total_input.substring_char(p, end))
            },
            None => None,
        }
    }

    /// Takes the number that follows, if one does, in the representation
    /// `N`. A number written without a fraction is taken too.
    pub fn next_float<N: Number>(&mut self) -> (r: Option<N>)
        ensures
            final(self).input() == old(self).input(),
            match number_at(old(self).input(), old(self).pos()) {
                Some((start, end)) => r == Some(
                    N::decimal(old(self).input().subrange(start, end)),
                ) && final(self).pos() == end,
                None => r is None && final(self).pos() == old(self).pos(),
            },
    {
        match self.next_number() {
            Some(text) => Some(N::from_decimal(text)),
            None => None,
        }
    }

    /// Takes the word that follows, if one does.
    pub fn next_word(&mut self) -> (r: Option<&'a str>)
        ensures
            final(self).input() == old(self).input(),
            match word_at(old(self).input(), old(self).pos()) {
                Some((start, end)) => r is Some && r->0@ == old(self).input().subrange(start, end)
                    && final(self).pos() == end,
                None => r is None && final(self).pos() == old(self).pos(),
            },
    {
        proof {
            use_type_invariant(&*self);
        }
        let p = scan_spaces(self.total_input, self.length, self.position);
        if p < self.length && word_start(self.total_input.get_char(p)) {
            let end = scan_word(self.total_input, self.length, p);
            self.position = end;
            Some(self.total_input.substring_char(p, end))
        } else {
            None
        }
    }

    /// Takes the operator character that follows, if one does.
    pub fn next_operator(&mut self) -> (r: Option<char>)
        ensures
            final(self).input() == old(self).input(),
            match operator_at(old(self).input(), old(self).pos()) {
                Some(at) => r == Some(old(self).input()[at]) && final(self).pos() == at + 1,
                None => r is None && final(self).pos() == old(self).pos(),
            },
    {
        proof {
            use_type_invariant(&*self);
        }
        let p = scan_spaces(self.total_input, self.length, self.position);
        if p < self.length {
            let c = self.total_input.get_char(p);
            if Operator::is_operator(c).is_some() {
                self.position = p + 1;
                return Some(c);
            }
        }
        None
    }

    /// Takes the separator character that follows, if one does.
    pub fn next_separator(&mut self) -> (r: Option<char>)
        ensures
            final(self).input() == old(self).input(),
            match separator_at(old(self).input(), old(self).pos()) {
                Some(at) => r == Some(old(self).input()[at]) && final(self).pos() == at + 1,
                None => r is None && final(self).pos() == old(self).pos(),
            },
    {
        proof {
            use_type_invariant(&*self);
        }
        let p = scan_spaces(self.total_input, self.length, self.position);
        if p < self.length {
            let c = self.total_input.get_char(p);
            if Separator::is_separator(c).is_some() {
                self.position = p + 1;
                return Some(c);
            }
        }
        None
    }
}

/// The exponent of a unit term ends at or behind the end of the symbol,
/// inside the text.
pub proof fn exponent_end_bounds(s: Seq<char>, i: int)
    requires
        0 <= i <= s.len(),
    ensures
        i <= exponent_end(s, i) <= s.len(),
{
    if i < s.len() && s[i] == '^' {
        let j = if i + 1 < s.len() && s[i + 1] == '-' {
            i + 2
        } else {
            i + 1
        };
        digits_end_bounds(s, j);
    }
}

/// A unit expression that begins at `i` ends inside the text, and behind
/// `i` where a symbol begins at `i`.
pub proof fn unit_run_end_bounds(s: Seq<char>, i: int)
    requires
        0 <= i <= s.len(),
    ensures
        i <= unit_run_end(s, i) <= s.len(),
        i < s.len() && is_word_start(s[i]) ==> i < unit_run_end(s, i),
    decreases s.len() - i,
{
    if i < s.len() && is_word_start(s[i]) {
        word_end_bounds(s, i);
        word_end_bounds(s, i + 1);
        exponent_end_bounds(s, word_end(s, i));
        let t = exponent_end(s, word_end(s, i));
        if i < t && t + 1 < s.len() && is_unit_operator(s[t]) && is_word_start(s[t + 1]) {
            unit_run_end_bounds(s, t + 1);
        }
    }
}

/// A quantity covers at least one character and lies inside the text.
pub proof fn quantity_at_bounds(s: Seq<char>, pos: int)
    requires
        0 <= pos <= s.len(),
    ensures
        quantity_at(s, pos) matches Some((p, n, u)) ==> pos <= p <= n <= u <= s.len() && p < u,
{
    crate::text::spaces_end_bounds(s, pos);
    let p = spaces_end(s, pos);
    number_end_bounds(s, p);
    let n = match number_end(s, p) {
        Some((end, _)) => end,
        None => p,
    };
    unit_run_end_bounds(s, n);
}

/// Finds the end of the exponent that may follow a unit symbol.
fn scan_exponent(s: &str, len: usize, i: usize) -> (r: usize)
    requires
        len == s@.len(),
        i <= len,
    ensures
        r == exponent_end(s@, i as int),
        i <= r <= len,
{
    if i < len && s.get_char(i) == '^' {
        let j: usize = if i + 1 < len && s.get_char(i + 1) == '-' {
            i + 2
        } else {
            i + 1
        };
        let k = scan_digits(s, len, j);
        if k > j {
            k
        } else {
            i
        }
    } else {
        i
    }
}

/// Finds the end of the unit expression that begins at `from`.
fn scan_unit_run(s: &str, len: usize, from: usize) -> (r: usize)
    requires
        len == s@.len(),
        from <= len,
    ensures
        r == unit_run_end(s@, from as int),
        from <= r <= len,
{
    let mut i: usize = from;
    loop
        invariant
            len == s@.len(),
            from <= i <= len,
            unit_run_end(s@, from as int) == unit_run_end(s@, i as int),
        decreases len - i,
    {
        if !(i < len && word_start(s.get_char(i))) {
            return i;
        }
        let w = scan_word(s, len, i);
        let t = scan_exponent(s, len, w);
        if i < t && t < len && len - t > 1 && (s.get_char(t) == '*' || s.get_char(t) == '/') && word_start(
            s.get_char(t + 1),
        ) {
            i = t + 1;
        } else {
            return t;
        }
    }
}

impl<'a> Scanner<'a> {
    /// Takes the quantity that follows, if one does: a number, a unit
    /// expression, or the one right behind the other. The result holds the
    /// positions where the quantity begins, where its number ends and its
    /// unit expression begins, and where it ends.
    pub fn next_quantity(&mut self) -> (r: Option<(usize, usize, usize)>)
        ensures
            final(self).input() == old(self).input(),
            match quantity_at(old(self).input(), old(self).pos()) {
                Some((p, n, u)) => r matches Some((start, middle, end)) && start == p && middle
                    == n && end == u && final(self).pos() == u,
                None => r is None && final(self).pos() == old(self).pos(),
            },
    {
        proof {
            use_type_invariant(&*self);
        }
        let s = self.total_input;
        let p = scan_spaces(s, self.length, self.position);
        let n = match scan_number(s, self.length, p) {
            Some((end, _)) => end,
            None => p,
        };
        let u = scan_unit_run(s, self.length, n);
        if u > p {
            self.position = u;
            Some((p, n, u))
        } else {
            None
        }
    }
}

} // verus!
