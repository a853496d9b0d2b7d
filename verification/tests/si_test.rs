use ee_calc::si::{
    Number, ParseUnitError, Unit, UnitRules, UnitWithExponent, Value, ValueError,
};

#[derive(Clone, Copy, Debug, PartialEq)]
struct Real(f64);

impl Number for Real {
    fn written(text: String) -> Self {
        Real(text.parse::<f64>().unwrap())
    }
    fn ten_to(exponent: i32) -> Self {
        Real(10f64.powi(exponent))
    }
    fn sum(self, other: Self) -> Self {
        Real(self.0 + other.0)
    }
    fn negation(self) -> Self {
        Real(-self.0)
    }
    fn product(self, other: Self) -> Self {
        Real(self.0 * other.0)
    }
    fn inverse(self) -> Self {
        Real(1.0 / self.0)
    }
    fn zero(self) -> bool {
        self.0 == 0.0
    }
    fn text(self) -> String {
        self.0.to_string()
    }
    fn from_decimal(text: &str) -> Self {
        Self::written(text.to_string())
    }
    fn power_of_ten(exponent: i32) -> Self {
        Self::ten_to(exponent)
    }
    fn plus(self, other: Self) -> Self {
        self.sum(other)
    }
    fn negated(self) -> Self {
        self.negation()
    }
    fn times(self, other: Self) -> Self {
        self.product(other)
    }
    fn reciprocal(self) -> Self {
        self.inverse()
    }
    fn is_zero(self) -> bool {
        self.zero()
    }
    fn to_text(self) -> String {
        self.text()
    }
}

fn unit(m: i32, kg: i32, s: i32, a: i32) -> Unit {
    Unit { meter: m, kilogram: kg, second: s, ampere: a, kelvin: 0, mole: 0, candela: 0 }
}

#[test]
fn unit_algebra() {
    let newton = unit(1, 1, -2, 0);
    let meter = unit(1, 0, 0, 0);
    assert_eq!(newton.multiply(&meter), unit(2, 1, -2, 0));
    assert_eq!(newton.divide(&meter), unit(0, 1, -2, 0));
    assert_eq!(newton.invert(), unit(-1, -1, 2, 0));
    assert_eq!(newton.raise(2), unit(2, 2, -4, 0));
    assert_eq!(newton.raise(-1), newton.invert());
    assert_eq!(newton.raise(0), Unit::default());
}

#[test]
fn scalar_is_the_identity() {
    let newton = unit(1, 1, -2, 0);
    assert_eq!(newton.multiply(&Unit::default()), newton);
    assert_eq!(newton.divide(&Unit::default()), newton);
    assert_eq!(newton.divide(&newton), Unit::default());
    assert_eq!(Unit::dimensionless(), Unit::default());
}

#[test]
fn exponents_wrap() {
    let big = Unit { meter: i32::MAX, ..Unit::default() };
    let one = Unit { meter: 1, ..Unit::default() };
    assert_eq!(big.multiply(&one).meter, i32::MIN);
    let small = Unit { meter: i32::MIN, ..Unit::default() };
    assert_eq!(small.invert().meter, i32::MIN);
    assert_eq!(small.divide(&one).meter, i32::MAX);
    assert_eq!(big.raise(2).meter, -2);
}

#[test]
fn prefix_table() {
    assert_eq!(Unit::get_prefix('g'), Some(9));
    assert_eq!(Unit::get_prefix('M'), Some(6));
    assert_eq!(Unit::get_prefix('k'), Some(3));
    assert_eq!(Unit::get_prefix('c'), Some(-2));
    assert_eq!(Unit::get_prefix('m'), Some(-3));
    assert_eq!(Unit::get_prefix('u'), Some(-6));
    assert_eq!(Unit::get_prefix('n'), Some(-9));
    assert_eq!(Unit::get_prefix('p'), Some(-12));
    assert_eq!(Unit::get_prefix('f'), Some(-15));
    assert_eq!(Unit::get_prefix('a'), Some(-18));
    assert_eq!(Unit::get_prefix('G'), None);
    assert_eq!(Unit::get_prefix('x'), None);
}

#[test]
fn scaled_units() {
    let a = UnitWithExponent::new(unit(1, 0, 0, 0), 3);
    let b = UnitWithExponent::new(unit(0, 0, 1, 0), -6);
    assert_eq!(a.raise_scalar_exponent(-5), UnitWithExponent::new(unit(1, 0, 0, 0), -2));
    assert_eq!(a.multiply(&b), UnitWithExponent::new(unit(1, 0, 1, 0), -3));
    assert_eq!(a.divide(&b), UnitWithExponent::new(unit(1, 0, -1, 0), 9));
    assert_eq!(a.raise(2), UnitWithExponent::new(unit(2, 0, 0, 0), 6));
    assert_eq!(UnitWithExponent::default(), UnitWithExponent::new(Unit::default(), 0));
}

#[test]
fn built_in_table() {
    let rules = UnitRules::default();
    assert_eq!(rules.len(), 13);
    assert_eq!(rules.resolve("_"), Some(UnitWithExponent::new(Unit::default(), 0)));
    assert_eq!(rules.resolve("m"), Some(UnitWithExponent::new(unit(1, 0, 0, 0), 0)));
    assert_eq!(rules.resolve("kg"), Some(UnitWithExponent::new(unit(0, 1, 0, 0), 0)));
    assert_eq!(rules.resolve("g"), Some(UnitWithExponent::new(unit(0, 1, 0, 0), -3)));
    assert_eq!(rules.resolve("n"), Some(UnitWithExponent::new(unit(1, 1, -2, 0), 0)));
    assert_eq!(rules.resolve("j"), Some(UnitWithExponent::new(unit(2, 1, -2, 0), 0)));
    assert_eq!(rules.resolve("w"), Some(UnitWithExponent::new(unit(2, 1, -3, 0), 0)));
    assert_eq!(rules.resolve("v"), Some(UnitWithExponent::new(unit(2, 1, -3, -1), 0)));
    assert_eq!(
        rules.resolve("mol"),
        Some(UnitWithExponent::new(Unit { mole: 1, ..Unit::default() }, 0))
    );
}

#[test]
fn prefixes_add_to_the_scale() {
    let rules = UnitRules::default();
    assert_eq!(rules.resolve("km"), Some(UnitWithExponent::new(unit(1, 0, 0, 0), 3)));
    assert_eq!(rules.resolve("mg"), Some(UnitWithExponent::new(unit(0, 1, 0, 0), -6)));
    assert_eq!(rules.resolve("kkg"), Some(UnitWithExponent::new(unit(0, 1, 0, 0), 3)));
    assert_eq!(rules.resolve("k_"), Some(UnitWithExponent::new(Unit::default(), 3)));
    assert_eq!(rules.resolve("us"), Some(UnitWithExponent::new(unit(0, 0, 1, 0), -6)));
    assert_eq!(UnitWithExponent::from_str_single(&rules, "Mv").map(|ue| ue.power10), Some(6));
}

#[test]
fn exact_match_wins_over_prefix() {
    let rules = UnitRules::default();
    // `cd` is the candela, not a hundredth of a `d`; `mol` is the mole.
    assert_eq!(
        rules.resolve("cd"),
        Some(UnitWithExponent::new(Unit { candela: 1, ..Unit::default() }, 0))
    );
    assert_eq!(rules.resolve("kg").unwrap().power10, 0);
}

#[test]
fn unresolved_symbols() {
    let rules = UnitRules::default();
    assert_eq!(rules.resolve("xyz"), None);
    assert_eq!(rules.resolve(""), None);
    assert_eq!(rules.resolve("x"), None);
    assert_eq!(rules.resolve("zm"), None);
    assert_eq!(rules.resolve("kx"), None);
}

#[test]
fn lookups_by_name_and_unit() {
    let rules = UnitRules::default();
    let (short, ue) = rules.longhand("newton").unwrap();
    assert_eq!(short, "n");
    assert_eq!(ue.unit, unit(1, 1, -2, 0));
    let (long, _) = rules.shorthand("v").unwrap();
    assert_eq!(long, "volt");
    assert!(rules.longhand("stone").is_none());
    assert!(rules.shorthand("kv").is_none());
    assert_eq!(rules.names_of(&unit(1, 1, -2, 0)), Some(("newton", "n")));
    assert_eq!(rules.names_of(&unit(0, 1, 0, 0)), Some(("gram", "g")));
    assert_eq!(rules.names_of(&unit(9, 9, 9, 9)), None);
}

#[test]
fn round_trip_of_every_built_in_symbol() {
    let rules = UnitRules::default();
    for symbol in ["_", "m", "kg", "s", "a", "k", "mol", "cd", "g", "n", "j", "w", "v"] {
        let ue = rules.resolve(symbol).unwrap();
        let (_, back) = rules.names_of(&ue.unit).unwrap();
        assert_eq!(rules.resolve(back).unwrap().unit, ue.unit);
    }
}

#[test]
fn later_registration_wins() {
    let mut rules = UnitRules::new();
    rules.new_unit("first", "x", unit(1, 0, 0, 0));
    rules.new_unit("second", "x", unit(0, 1, 0, 0));
    assert_eq!(rules.len(), 2);
    assert_eq!(rules.resolve("x").unwrap().unit, unit(0, 1, 0, 0));
    assert_eq!(rules.longhand("first").unwrap().1.unit, unit(1, 0, 0, 0));
    rules.new_unit_exponent("third", "y", UnitWithExponent::new(unit(0, 1, 0, 0), 2));
    assert_eq!(rules.names_of(&unit(0, 1, 0, 0)), Some(("third", "y")));
    rules.new_unit_rule("fourth", "z", "x*y^2");
    assert_eq!(rules.resolve("z"), Some(UnitWithExponent::new(unit(0, 3, 0, 0), 4)));
}

#[test]
fn unit_expressions() {
    let rules = UnitRules::default();
    let parse = |s: &str| UnitWithExponent::from_str(&rules, s);
    assert_eq!(parse("kg*m/s^2"), Ok(UnitWithExponent::new(unit(1, 1, -2, 0), 0)));
    assert_eq!(parse("m/s"), Ok(UnitWithExponent::new(unit(1, 0, -1, 0), 0)));
    assert_eq!(parse("s^-2"), Ok(UnitWithExponent::new(unit(0, 0, -2, 0), 0)));
    assert_eq!(parse("s^+2"), Ok(UnitWithExponent::new(unit(0, 0, 2, 0), 0)));
    assert_eq!(parse("km^2"), Ok(UnitWithExponent::new(unit(2, 0, 0, 0), 6)));
    assert_eq!(parse("m/ms"), Ok(UnitWithExponent::new(unit(1, 0, -1, 0), 3)));
    assert_eq!(parse("n/m^2"), Ok(UnitWithExponent::new(unit(-1, 1, -2, 0), 0)));
    assert_eq!(parse("m/s/s"), Ok(UnitWithExponent::new(unit(1, 0, -2, 0), 0)));
}

#[test]
fn unit_expression_errors() {
    let rules = UnitRules::default();
    let parse = |s: &str| UnitWithExponent::from_str(&rules, s);
    assert_eq!(parse(""), Err(ParseUnitError::EarlyEndOfLine));
    assert_eq!(parse("kg*"), Err(ParseUnitError::EarlyEndOfLine));
    assert_eq!(parse("m^"), Err(ParseUnitError::EarlyEndOfLine));
    assert_eq!(parse("kg*xyz"), Err(ParseUnitError::UnrecognizedUnit(3, 6)));
    assert_eq!(parse("kg**m"), Err(ParseUnitError::UnrecognizedUnit(3, 3)));
    assert_eq!(parse("m^x"), Err(ParseUnitError::IntegerParseError(2, 3)));
    assert_eq!(parse("m^2.5"), Err(ParseUnitError::IntegerParseError(2, 5)));
    assert_eq!(parse("m^*s"), Err(ParseUnitError::IntegerParseError(2, 2)));
    assert_eq!(parse("m^99999999999"), Err(ParseUnitError::IntegerParseError(2, 13)));
    assert_eq!(parse("xyz^q"), Err(ParseUnitError::IntegerParseError(4, 5)));
    assert_eq!(parse("N/m^2"), Err(ParseUnitError::UnrecognizedUnit(0, 1)));
}

#[test]
fn value_arithmetic() {
    let a = Value::new(Real(6.0), unit(1, 0, 0, 0));
    let b = Value::new(Real(2.0), unit(1, 0, 0, 0));
    let t = Value::new(Real(4.0), unit(0, 0, 1, 0));
    assert_eq!(a.add(&b), Ok(Value::new(Real(8.0), unit(1, 0, 0, 0))));
    assert_eq!(a.subtract(&b), Ok(Value::new(Real(4.0), unit(1, 0, 0, 0))));
    assert_eq!(a.add(&t), Err(ValueError::DimensionMismatch));
    assert_eq!(a.subtract(&t), Err(ValueError::DimensionMismatch));
    assert_eq!(a.negate(), Value::new(Real(-6.0), unit(1, 0, 0, 0)));
    assert_eq!(a.multiply(&t), Value::new(Real(24.0), unit(1, 0, 1, 0)));
    assert_eq!(a.divide(&t), Ok(Value::new(Real(1.5), unit(1, 0, -1, 0))));
    assert_eq!(t.invert(), Ok(Value::new(Real(0.25), unit(0, 0, -1, 0))));
    assert_eq!(a.scale(Real(0.5)), Value::new(Real(3.0), unit(1, 0, 0, 0)));
}

#[test]
fn division_by_zero_is_an_error() {
    let a = Value::new(Real(6.0), unit(1, 0, 0, 0));
    let zero = Value::new(Real(0.0), unit(0, 0, 1, 0));
    assert_eq!(a.divide(&zero), Err(ValueError::DivisionByZero));
    assert_eq!(zero.invert(), Err(ValueError::DivisionByZero));
    assert_eq!(a.invert_unless(true), Err(ValueError::DivisionByZero));
    assert_eq!(a.invert_unless(false).unwrap().unit, unit(-1, 0, 0, 0));
}

#[test]
fn multiplicative_identity() {
    let one = Value::new(Real(1.0), Unit::default());
    let a = Value::new(Real(2.5), unit(1, 1, -2, 0));
    assert_eq!(a.multiply(&one), a);
}

#[test]
fn inverse_law() {
    let a = Value::new(Real(2.5), unit(1, 1, -2, 0));
    let q = a.divide(&a).unwrap();
    assert_eq!(q.unit, Unit::default());
    assert!((q.number.0 - 1.0).abs() < 1e-12);
}

#[test]
fn literals() {
    let rules = UnitRules::default();
    let value = |s: &str| Value::<Real>::from_str(&rules, s);
    assert_eq!(value("10kg"), Ok(Value::new(Real(10.0), unit(0, 1, 0, 0))));
    assert_eq!(value("5kg"), Ok(Value::new(Real(5.0), unit(0, 1, 0, 0))));
    assert_eq!(value("m"), Ok(Value::new(Real(1.0), unit(1, 0, 0, 0))));
    assert_eq!(value("1000"), Ok(Value::new(Real(1000.0), Unit::default())));
    assert_eq!(value("1000_"), Ok(Value::new(Real(1000.0), Unit::default())));
    assert_eq!(value("1k_"), Ok(Value::new(Real(1000.0), Unit::default())));
    assert_eq!(value("2km"), Ok(Value::new(Real(2000.0), unit(1, 0, 0, 0))));
    assert_eq!(value("-3m"), Ok(Value::new(Real(-3.0), unit(1, 0, 0, 0))));
    assert_eq!(value(".5s"), Ok(Value::new(Real(0.5), unit(0, 0, 1, 0))));
    let g = value("5g").unwrap();
    assert_eq!(g.unit, unit(0, 1, 0, 0));
    assert!((g.number.0 - 0.005).abs() < 1e-12);
    let a = value("9.8m/s^2").unwrap();
    assert_eq!(a.unit, unit(1, 0, -2, 0));
    assert!((a.number.0 - 9.8).abs() < 1e-12);
}

#[test]
fn literal_errors() {
    let rules = UnitRules::default();
    let value = |s: &str| Value::<Real>::from_str(&rules, s);
    assert_eq!(value(""), Err(ParseUnitError::EarlyEndOfLine));
    assert_eq!(value("3xyz"), Err(ParseUnitError::UnrecognizedUnit(0, 3)));
    assert_eq!(value("1..2m"), Err(ParseUnitError::IntegerParseError(0, 4)));
    assert_eq!(value("1 m"), Err(ParseUnitError::IntegerParseError(0, 2)));
    assert_eq!(value("#"), Err(ParseUnitError::IntegerParseError(0, 1)));
    assert_eq!(value("2m^"), Err(ParseUnitError::EarlyEndOfLine));
    assert_eq!(
        Value::<Real>::from_parts(&rules, "", ""),
        Err(ParseUnitError::EarlyEndOfLine)
    );
    assert_eq!(UnitWithExponent::from_parts(&rules, "x", "m"), Err(ParseUnitError::IntegerParseError(0, 1)));
}

#[test]
fn make_value_applies_the_scale() {
    let km = UnitWithExponent::new(unit(1, 0, 0, 0), 3);
    assert_eq!(km.make_value(Real(2.0)), Value::new(Real(2000.0), unit(1, 0, 0, 0)));
    assert_eq!(km.quantity::<Real>(""), Value::new(Real(1000.0), unit(1, 0, 0, 0)));
    assert_eq!(km.quantity::<Real>("0.5"), Value::new(Real(500.0), unit(1, 0, 0, 0)));
}

#[test]
fn unit_rendering() {
    assert_eq!(Unit::default().to_string(), "");
    assert_eq!(unit(1, 1, -2, 0).to_string(), "m^1kg^1s^-2");
    assert_eq!(unit(0, 0, 0, 3).to_string(), "a^3");
    let all = Unit { meter: 10, kilogram: -1, second: 2, ampere: 3, kelvin: 4, mole: -120, candela: 7 };
    assert_eq!(all.to_string(), "m^10kg^-1s^2a^3k^4mol^-120cd^7");
    let ends = Unit { meter: i32::MIN, candela: i32::MAX, ..Unit::default() };
    assert_eq!(ends.to_string(), "m^-2147483648cd^2147483647");
}

#[test]
fn value_rendering() {
    let v = Value::new(Real(19.6), unit(1, 1, -2, 0));
    assert_eq!(v.to_string(), "19.6m^1kg^1s^-2");
    assert_eq!(v.render_with("x"), "xm^1kg^1s^-2");
    assert_eq!(Value::new(Real(14.0), Unit::default()).to_string(), "14");
}

#[test]
fn meter_and_mole_render_differently() {
    let meter = Unit { meter: 1, ..Unit::default() };
    let mole = Unit { mole: 1, ..Unit::default() };
    let kilogram = Unit { kilogram: 1, ..Unit::default() };
    let kelvin = Unit { kelvin: 1, ..Unit::default() };
    assert_eq!(meter.to_string(), "m^1");
    assert_eq!(mole.to_string(), "mol^1");
    assert_eq!(kilogram.to_string(), "kg^1");
    assert_eq!(kelvin.to_string(), "k^1");
}

#[test]
fn rendering_names_the_registered_base_symbols() {
    let rules = UnitRules::default();
    for symbol in ["m", "kg", "s", "a", "k", "mol", "cd"] {
        let ue = rules.resolve(symbol).unwrap();
        assert_eq!(ue.unit.to_string(), format!("{}^1", symbol));
    }
}

#[test]
fn watt_is_joule_per_second() {
    let rules = UnitRules::default();
    let joule = rules.resolve("j").unwrap();
    let second = rules.resolve("s").unwrap();
    let ampere = rules.resolve("a").unwrap();
    let watt = rules.resolve("w").unwrap();
    assert_eq!(watt, joule.divide(&second));
    assert_eq!(rules.resolve("v").unwrap(), watt.divide(&ampere));
}

#[test]
fn a_bad_rule_is_reported() {
    let mut rules = UnitRules::default();
    assert_eq!(
        rules.try_new_unit_rule("pascal", "pa", "n/q^2"),
        Err(ParseUnitError::UnrecognizedUnit(2, 5))
    );
    assert_eq!(rules.len(), 13);
    assert_eq!(rules.try_new_unit_rule("pascal", "pa", "n/m^"), Err(ParseUnitError::EarlyEndOfLine));
    assert_eq!(rules.try_new_unit_rule("pascal", "pa", "n/m^2"), Ok(()));
    assert_eq!(rules.len(), 14);
    assert_eq!(rules.resolve("pa"), Some(UnitWithExponent::new(unit(-1, 1, -2, 0), 0)));
}

#[test]
fn subtraction_is_addition_of_the_negation() {
    let a = Value::new(Real(6.5), unit(1, 0, 0, 0));
    let b = Value::new(Real(2.25), unit(1, 0, 0, 0));
    assert_eq!(a.subtract(&b), a.add(&b.negate()));
    assert_eq!(a.subtract(&b), Ok(Value::new(Real(4.25), unit(1, 0, 0, 0))));
}

#[test]
fn division_is_multiplication_by_the_reciprocal() {
    let a = Value::new(Real(6.0), unit(1, 0, 0, 0));
    let b = Value::new(Real(4.0), unit(0, 0, 1, 0));
    assert_eq!(a.divide(&b), Ok(a.multiply(&b.invert().unwrap())));
    let zero = Value::new(Real(0.0), unit(1, 0, 0, 0));
    assert_eq!(zero.divide(&b), Ok(Value::new(Real(0.0), unit(1, 0, -1, 0))));
    let minus_zero = Value::new(Real(-0.0), unit(0, 0, 1, 0));
    assert_eq!(a.divide(&minus_zero), Err(ValueError::DivisionByZero));
}
