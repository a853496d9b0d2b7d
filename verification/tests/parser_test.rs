use ee_calc::evaluator::{evaluate, parse_and_evaluate, EvalError};
use ee_calc::parser::{parse, Arguments, Expr, Parser, ParserError};
use ee_calc::scanner::{Operator, Scanner, Separator};
use ee_calc::si::{Number, Unit, UnitRules, UnitWithExponent, Value};

#[derive(Clone, Copy, Debug, PartialEq)]
struct Real(f64);

impl Number for Real {
    fn written(text: String) -> Self {
        Real(text.parse::<f64>().unwrap())
    }
    fn ten_to(exponent: i32) -> Self {
        Real(10f64.powi(exponent))
    }
    fn sum(self, other: Self) -> Self {
        Real(self.0 + other.0)
    }
    fn negation(self) -> Self {
        Real(-self.0)
    }
    fn product(self, other: Self) -> Self {
        Real(self.0 * other.0)
    }
    fn inverse(self) -> Self {
        Real(1.0 / self.0)
    }
    fn zero(self) -> bool {
        self.0 == 0.0
    }
    fn text(self) -> String {
        self.0.to_string()
    }
    fn from_decimal(text: &str) -> Self {
        Self::written(text.to_string())
    }
    fn power_of_ten(exponent: i32) -> Self {
        Self::ten_to(exponent)
    }
    fn plus(self, other: Self) -> Self {
        self.sum(other)
    }
    fn negated(self) -> Self {
        self.negation()
    }
    fn times(self, other: Self) -> Self {
        self.product(other)
    }
    fn reciprocal(self) -> Self {
        self.inverse()
    }
    fn is_zero(self) -> bool {
        self.zero()
    }
    fn to_text(self) -> String {
        self.text()
    }
}

fn unit(m: i32, kg: i32, s: i32, a: i32) -> Unit {
    Unit { meter: m, kilogram: kg, second: s, ampere: a, kelvin: 0, mole: 0, candela: 0 }
}

fn eval(input: &str) -> Result<Value<Real>, EvalError> {
    parse_and_evaluate::<Real>(&UnitRules::default(), input)
}

fn scalar(input: &str) -> f64 {
    let v = eval(input).unwrap();
    assert_eq!(v.unit, Unit::default());
    v.number.0
}

/// A compact rendering of a tree, for comparison.
fn show(e: &Expr, input: &str) -> String {
    match e {
        Expr::Number { start, end, unit } => {
            format!("{}[{},{},{}|{}]", &input[*start..*end], unit.unit.meter, unit.unit.kilogram, unit.unit.second, unit.power10)
        }
        Expr::Variable { start, end } => format!("var {}", &input[*start..*end]),
        Expr::Function { start, end, arguments } => {
            let mut out = format!("{}(", &input[*start..*end]);
            let mut rest = arguments;
            while let Arguments::More(first, more) = rest {
                out.push_str(&show(first, input));
                out.push(';');
                rest = more;
            }
            out.push(')');
            out
        }
        Expr::Unary(op, operand) => format!("({:?} {})", op, show(operand, input)),
        Expr::Binary(op, l, r) => format!("({} {:?} {})", show(l, input), op, show(r, input)),
        Expr::Scope(inner) => format!("<{}>", show(inner, input)),
    }
}

fn tree(input: &str) -> String {
    show(&parse(&UnitRules::default(), input).unwrap(), input)
}

#[test]
fn precedence() {
    assert_eq!(scalar("2+3*4"), 14.0);
    assert_eq!(tree("2+3*4"), "(2[0,0,0|0] Plus (3[0,0,0|0] Times 4[0,0,0|0]))");
    assert_eq!(scalar("2*3+4"), 10.0);
    assert_eq!(scalar("2*3+4*5"), 26.0);
    assert_eq!(scalar("1+2*3-4/2"), 5.0);
}

#[test]
fn parenthesization() {
    assert_eq!(scalar("(1+2)*3"), 9.0);
    assert_eq!(scalar("1+(2*3)"), 7.0);
    assert_eq!(scalar("((2))"), 2.0);
    assert_eq!(tree("(1+2)*3"), "(<(1[0,0,0|0] Plus 2[0,0,0|0])> Times 3[0,0,0|0])");
}

#[test]
fn left_associativity() {
    assert_eq!(scalar("10-4-3"), 3.0);
    assert_eq!(scalar("24/4/2"), 3.0);
    assert_eq!(scalar("2-3+4"), 3.0);
    assert_eq!(scalar("8/2*4"), 16.0);
    assert_eq!(tree("1-2-3"), "((1[0,0,0|0] Minus 2[0,0,0|0]) Minus 3[0,0,0|0])");
    assert_eq!(tree("1/2*3"), "((1[0,0,0|0] Divide 2[0,0,0|0]) Times 3[0,0,0|0])");
}

#[test]
fn unary_operators() {
    assert_eq!(scalar("- 3"), -3.0);
    assert_eq!(scalar("-3"), -3.0);
    assert_eq!(scalar("--3"), 3.0);
    assert_eq!(scalar("- - 3"), 3.0);
    assert_eq!(scalar("+3"), 3.0);
    assert_eq!(scalar("2 * -3"), -6.0);
    assert_eq!(scalar("2 - -3"), 5.0);
    assert_eq!(scalar("2-3"), -1.0);
    assert_eq!(scalar("2 -3"), -1.0);
    assert_eq!(scalar("-(1+2)*3"), -9.0);
    assert_eq!(scalar("- 2 + 3"), 1.0);
    assert_eq!(tree("- 2 * 3"), "((Minus 2[0,0,0|0]) Times 3[0,0,0|0])");
    assert_eq!(tree("-2"), "-2[0,0,0|0]");
    assert_eq!(tree("- -2"), "(Minus -2[0,0,0|0])");
    assert_eq!(tree("1 + - + 2"), "(1[0,0,0|0] Plus (Minus (Plus 2[0,0,0|0])))");
}

#[test]
fn unit_composition() {
    let v = eval("10kg * 9.8m/s^2").unwrap();
    let newton = UnitRules::default().resolve("n").unwrap().unit;
    assert_eq!(v.unit, newton);
    assert!((v.number.0 - 98.0).abs() < 1e-9);
}

#[test]
fn prefix_scaling() {
    assert_eq!(eval("1k_"), eval("1000_"));
    assert_eq!(eval("1k_"), Ok(Value::new(Real(1000.0), Unit::default())));
    assert_eq!(eval("5kg"), Ok(Value::new(Real(5.0), unit(0, 1, 0, 0))));
    let g = eval("5000g").unwrap();
    assert_eq!(g.unit, unit(0, 1, 0, 0));
    assert!((g.number.0 - 5.0).abs() < 1e-9);
    assert_eq!(eval("2km + 500m"), Ok(Value::new(Real(2500.0), unit(1, 0, 0, 0))));
}

#[test]
fn error_surfacing() {
    assert_eq!(eval("1 + 1m"), Err(EvalError::DimensionMismatch));
    assert_eq!(eval("1m - 1s"), Err(EvalError::DimensionMismatch));
    assert_eq!(eval("5 *"), Err(EvalError::Parse(ParserError::EarlyEndOfInput)));
    assert_eq!(eval("3xyz"), Err(EvalError::Parse(ParserError::UnrecognizedUnit(1, 4))));
    assert_eq!(eval("1/0"), Err(EvalError::DivisionByZero));
    assert_eq!(eval("1m/(2-2)"), Err(EvalError::DivisionByZero));
}

#[test]
fn parse_errors() {
    let rules = UnitRules::default();
    let error = |s: &str| parse(&rules, s).unwrap_err();
    assert_eq!(error(""), ParserError::EarlyEndOfInput);
    assert_eq!(error("   "), ParserError::EarlyEndOfInput);
    assert_eq!(error("(1+2"), ParserError::EarlyEndOfInput);
    assert_eq!(error("("), ParserError::EarlyEndOfInput);
    assert_eq!(error("1 +"), ParserError::EarlyEndOfInput);
    assert_eq!(error("-"), ParserError::EarlyEndOfInput);
    assert_eq!(error("* 2"), ParserError::ExpectedValue(0));
    assert_eq!(error("2 * )"), ParserError::ExpectedValue(4));
    assert_eq!(error("2 + #"), ParserError::ExpectedValue(4));
    assert_eq!(error("1 2"), ParserError::ExpectedOperator(2));
    assert_eq!(error("1)"), ParserError::ExpectedOperator(1));
    assert_eq!(error("2^3"), ParserError::ExpectedOperator(1));
    assert_eq!(error("2 = 2"), ParserError::ExpectedOperator(2));
    assert_eq!(error("(1 2)"), ParserError::ExpectedSeparator(Separator::CloseParentheses, 3));
    assert_eq!(error("f(1 2)"), ParserError::ExpectedSeparator(Separator::Comma, 4));
    assert_eq!(error("f(1,"), ParserError::EarlyEndOfInput);
    assert_eq!(error("f(1"), ParserError::EarlyEndOfInput);
    assert_eq!(error("f(,1)"), ParserError::ExpectedValue(2));
    assert_eq!(error("2 xyz"), ParserError::ExpectedOperator(2));
    assert_eq!(error("2 * xyz"), ParserError::UnrecognizedUnit(4, 7));
    assert_eq!(error("2m^99999999999"), ParserError::IntegerParseError(1, 14));
}

#[test]
fn calls() {
    assert_eq!(tree("f()"), "f()");
    assert_eq!(tree("f( )"), "f()");
    assert_eq!(tree("f(1)"), "f(1[0,0,0|0];)");
    assert_eq!(tree("max(1m, 2 * 3 , g(4))"), "max(1[1,0,0|0];(2[0,0,0|0] Times 3[0,0,0|0]);g(4[0,0,0|0];);)");
    assert_eq!(eval("f(1)"), Err(EvalError::Parse(ParserError::UnrecognizedUnit(0, 1))));
    // A word with a space before the parenthesis is a unit, not a call.
    assert_eq!(
        parse(&UnitRules::default(), "m (2)").unwrap_err(),
        ParserError::ExpectedOperator(2)
    );
}

#[test]
fn literals_in_expressions() {
    assert_eq!(tree("3.3v*2a"), "(3.3[2,1,-3|0] Times 2[0,0,0|0])");
    assert_eq!(tree("m"), "[1,0,0|0]");
    assert_eq!(tree("6m/2s"), "(6[1,0,0|0] Divide 2[0,0,1|0])");
    assert_eq!(tree("6m/s"), "6[1,0,-1|0]");
    assert_eq!(tree("1km"), "1[1,0,0|3]");
    assert_eq!(eval("(3v + 2v) / 4a").unwrap().unit, unit(2, 1, -3, -2));
    assert_eq!(eval("6m / 2s"), Ok(Value::new(Real(3.0), unit(1, 0, -1, 0))));
    assert_eq!(eval("m"), Ok(Value::new(Real(1.0), unit(1, 0, 0, 0))));
    assert_eq!(eval(" 2 m"), Err(EvalError::Parse(ParserError::ExpectedOperator(3))));
}

#[test]
fn parser_steps() {
    let rules = UnitRules::default();
    let mut p = Parser::new(Scanner::new("1+2) 7"));
    let e = p.parse_expression(&rules).unwrap();
    assert_eq!(show(&e, "1+2) 7"), "(1[0,0,0|0] Plus 2[0,0,0|0])");
    assert_eq!(p.position(), 3);
    let mut c = p.cursor();
    assert_eq!(c.next_int(), Err(ParserError::ExpectedNumber));
    let mut q = Parser::new(Scanner::new(" 42 rest"));
    let mut c = q.cursor();
    assert_eq!(c.next_int(), Ok(42));
    assert_eq!(q.position(), 0);
    c.apply(&mut q);
    assert_eq!(q.position(), 3);
}

#[test]
fn evaluate_checks_the_tree() {
    let input = "12ab";
    let number = |start, end| Expr::Number { start, end, unit: UnitWithExponent::new(unit(1, 0, 0, 0), 0) };
    assert_eq!(evaluate::<Real>(&number(0, 2), input), Ok(Value::new(Real(12.0), unit(1, 0, 0, 0))));
    assert_eq!(evaluate::<Real>(&number(1, 1), input), Ok(Value::new(Real(1.0), unit(1, 0, 0, 0))));
    assert_eq!(
        evaluate::<Real>(&number(0, 3), input),
        Err(EvalError::Parse(ParserError::IntegerParseError(0, 3)))
    );
    assert_eq!(
        evaluate::<Real>(&number(3, 9), input),
        Err(EvalError::Parse(ParserError::IntegerParseError(3, 9)))
    );
    assert_eq!(
        evaluate::<Real>(&Expr::Variable { start: 2, end: 4 }, input),
        Err(EvalError::Parse(ParserError::UnrecognizedUnit(2, 4)))
    );
    let raised = Expr::Binary(Operator::Raise, Box::new(number(0, 2)), Box::new(number(0, 2)));
    assert_eq!(
        evaluate::<Real>(&raised, input),
        Err(EvalError::Parse(ParserError::ExpectedOperator(0)))
    );
    let odd = Expr::Unary(Operator::Times, Box::new(number(0, 2)));
    assert_eq!(
        evaluate::<Real>(&odd, input),
        Err(EvalError::Parse(ParserError::ExpectedOperator(0)))
    );
    let first_error = Expr::Binary(
        Operator::Plus,
        Box::new(Expr::Variable { start: 0, end: 1 }),
        Box::new(Expr::Variable { start: 1, end: 2 }),
    );
    assert_eq!(
        evaluate::<Real>(&first_error, input),
        Err(EvalError::Parse(ParserError::UnrecognizedUnit(0, 1)))
    );
}

#[test]
fn long_chains_terminate() {
    let mut text = String::from("1");
    for _ in 0..200 {
        text.push_str(" + 2 * -3");
    }
    assert_eq!(scalar(&text), 1.0 - 1200.0);
    let mut nested = String::new();
    for _ in 0..50 {
        nested.push('(');
    }
    nested.push('7');
    for _ in 0..50 {
        nested.push(')');
    }
    assert_eq!(scalar(&nested), 7.0);
}
