use ee_calc::scanner::{Operator, Scanner, Separator, TokenType};
use ee_calc::si::Number;

#[derive(Clone, Copy, Debug, PartialEq)]
struct Real(f64);

impl Number for Real {
    fn written(text: String) -> Self {
        Real(text.parse::<f64>().unwrap())
    }
    fn ten_to(exponent: i32) -> Self {
        Real(10f64.powi(exponent))
    }
    fn sum(self, other: Self) -> Self {
        Real(self.0 + other.0)
    }
    fn negation(self) -> Self {
        Real(-self.0)
    }
    fn product(self, other: Self) -> Self {
        Real(self.0 * other.0)
    }
    fn inverse(self) -> Self {
        Real(1.0 / self.0)
    }
    fn zero(self) -> bool {
        self.0 == 0.0
    }
    fn text(self) -> String {
        self.0.to_string()
    }
    fn from_decimal(text: &str) -> Self {
        Self::written(text.to_string())
    }
    fn power_of_ten(exponent: i32) -> Self {
        Self::ten_to(exponent)
    }
    fn plus(self, other: Self) -> Self {
        self.sum(other)
    }
    fn negated(self) -> Self {
        self.negation()
    }
    fn times(self, other: Self) -> Self {
        self.product(other)
    }
    fn reciprocal(self) -> Self {
        self.inverse()
    }
    fn is_zero(self) -> bool {
        self.zero()
    }
    fn to_text(self) -> String {
        self.text()
    }
}

#[test]
fn scanner_test_1() {
    let scanner = Scanner::new("10w * 24s");
    let mut c = scanner.get_cursor();
    assert_eq!(10f64, c.next_float::<Real>().unwrap().0);
    assert_eq!("w", c.next_word().unwrap());
    assert_eq!('*', c.next_operator().unwrap());
    assert_eq!(24, c.next_int().unwrap());
    assert_eq!("s", c.next_word().unwrap());
}

#[test]
fn cursor_leaves_the_scanner_alone() {
    let scanner = Scanner::new("10w");
    let mut c = scanner.get_cursor();
    assert_eq!(c.next_int(), Some(10));
    assert_eq!(c.position(), 2);
    assert_eq!(scanner.position(), 0);
}

#[test]
fn failed_probe_consumes_nothing() {
    let mut s = Scanner::new("   abc");
    assert_eq!(s.next_int(), None);
    assert_eq!(s.position(), 0);
    assert_eq!(s.next_operator(), None);
    assert_eq!(s.next_separator(), None);
    assert_eq!(s.next_float::<Real>(), None);
    assert_eq!(s.position(), 0);
    assert_eq!(s.next_word(), Some("abc"));
    assert_eq!(s.position(), 6);
    assert!(s.is_done());
    assert_eq!(s.next_word(), None);
}

#[test]
fn number_forms() {
    let mut s = Scanner::new("-12.5 .25 7 -3");
    assert_eq!(s.next_float::<Real>(), Some(Real(-12.5)));
    assert_eq!(s.next_float::<Real>(), Some(Real(0.25)));
    assert_eq!(s.next_int(), Some(7));
    assert_eq!(s.next_int(), Some(-3));
    assert!(s.is_done());
}

#[test]
fn next_int_refuses_a_fraction() {
    let mut s = Scanner::new("9.8");
    assert_eq!(s.next_int(), None);
    assert_eq!(s.position(), 0);
    assert_eq!(s.next_number(), Some("9.8"));
}

#[test]
fn next_int_refuses_what_does_not_fit() {
    let mut s = Scanner::new("9223372036854775808");
    assert_eq!(s.next_int(), None);
    let mut t = Scanner::new("9223372036854775807");
    assert_eq!(t.next_int(), Some(i64::MAX));
    let mut u = Scanner::new("-9223372036854775808");
    assert_eq!(u.next_int(), Some(i64::MIN));
}

#[test]
fn a_dot_without_digits_is_no_fraction() {
    let mut s = Scanner::new("5.");
    assert_eq!(s.next_number(), Some("5"));
    assert_eq!(s.next_separator(), Some('.'));
    assert!(s.is_done());
}

#[test]
fn word_forms() {
    let mut s = Scanner::new("_a1 b_2");
    assert_eq!(s.next_word(), Some("_a1"));
    assert_eq!(s.next_word(), Some("b_2"));
    let mut digits = Scanner::new("1a");
    assert_eq!(digits.next_word(), None);
}

#[test]
fn operators_and_separators() {
    assert_eq!(Operator::is_operator('+'), Some(Operator::Plus));
    assert_eq!(Operator::is_operator('-'), Some(Operator::Minus));
    assert_eq!(Operator::is_operator('*'), Some(Operator::Times));
    assert_eq!(Operator::is_operator('/'), Some(Operator::Divide));
    assert_eq!(Operator::is_operator('^'), Some(Operator::Raise));
    assert_eq!(Operator::is_operator('='), Some(Operator::Equals));
    assert_eq!(Operator::is_operator('('), None);
    assert_eq!(Separator::is_separator('('), Some(Separator::OpenParentheses));
    assert_eq!(Separator::is_separator(')'), Some(Separator::CloseParentheses));
    assert_eq!(Separator::is_separator(','), Some(Separator::Comma));
    assert_eq!(Separator::is_separator('.'), Some(Separator::Period));
    assert_eq!(Separator::is_separator(':'), Some(Separator::Colon));
    assert_eq!(Separator::is_separator('+'), None);
}

#[test]
fn token_stream() {
    let mut s = Scanner::new("f(12, 3.5)+x");
    let mut kinds = Vec::new();
    let mut texts = Vec::new();
    let mut starts = Vec::new();
    while let Some(t) = s.next_token() {
        kinds.push(t.token_type());
        texts.push(t.as_str());
        starts.push(t.start());
    }
    assert!(s.is_done());
    assert_eq!(
        kinds,
        vec![
            TokenType::Word,
            TokenType::Separator(Separator::OpenParentheses),
            TokenType::Int(12),
            TokenType::Separator(Separator::Comma),
            TokenType::Float,
            TokenType::Separator(Separator::CloseParentheses),
            TokenType::Operator(Operator::Plus),
            TokenType::Word,
        ]
    );
    assert_eq!(texts, vec!["f", "(", "12", ",", "3.5", ")", "+", "x"]);
    assert_eq!(starts, vec![0, 1, 2, 4, 6, 9, 10, 11]);
}

#[test]
fn token_stream_takes_signs_as_operators() {
    let mut s = Scanner::new("2-3");
    assert_eq!(s.next_token().unwrap().token_type(), TokenType::Int(2));
    assert_eq!(s.next_token().unwrap().token_type(), TokenType::Operator(Operator::Minus));
    assert_eq!(s.next_token().unwrap().token_type(), TokenType::Int(3));
    assert!(s.next_token().is_none());
}

#[test]
fn token_stream_stops_at_an_unknown_character() {
    let mut s = Scanner::new("a #");
    assert_eq!(s.next_token().unwrap().as_str(), "a");
    assert!(s.next_token().is_none());
    assert!(!s.is_done());
    assert_eq!(s.position(), 1);
}

#[test]
fn a_long_integer_is_a_float_token() {
    let mut s = Scanner::new("99999999999999999999");
    assert_eq!(s.next_token().unwrap().token_type(), TokenType::Float);
}

#[test]
fn spanning_content_joins_tokens() {
    let mut s = Scanner::new(" 10 kg");
    let a = s.next_token().unwrap();
    let b = s.next_token().unwrap();
    assert_eq!(a.spanning_content(&b), "10 kg");
    assert_eq!(a.end(), 3);
}

#[test]
fn peek_advance_and_content() {
    let mut s = Scanner::new(" ab");
    assert_eq!(s.peek(), Some(' '));
    s.eat_whitespace();
    assert_eq!(s.peek(), Some('a'));
    assert_eq!(s.advance(), 'a');
    assert_eq!(s.content(), "b");
    assert_eq!(s.source(), " ab");
    assert_eq!(s.advance(), 'b');
    assert_eq!(s.peek(), None);
    assert!(s.is_done());
}

#[test]
fn quantity_spans() {
    let mut s = Scanner::new(" 9.8m/s^2 * 3");
    assert_eq!(s.next_quantity(), Some((1, 4, 9)));
    assert_eq!(s.next_operator(), Some('*'));
    assert_eq!(s.next_quantity(), Some((12, 13, 13)));
    assert_eq!(s.next_quantity(), None);
    let mut t = Scanner::new("3.3v*2a");
    assert_eq!(t.next_quantity(), Some((0, 3, 4)));
    let mut u = Scanner::new("kg*m/s^-2");
    assert_eq!(u.next_quantity(), Some((0, 0, 9)));
    let mut v = Scanner::new("m^x");
    assert_eq!(v.next_quantity(), Some((0, 0, 1)));
}

#[test]
fn precedence_levels() {
    assert_eq!(Operator::Times.precedence(), Some(1));
    assert_eq!(Operator::Divide.precedence(), Some(1));
    assert_eq!(Operator::Plus.precedence(), Some(2));
    assert_eq!(Operator::Minus.precedence(), Some(2));
    assert_eq!(Operator::Raise.precedence(), None);
    assert_eq!(Operator::Equals.precedence(), None);
}
