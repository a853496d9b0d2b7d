use crate::si::{Number, Unit, Value};
use vstd::prelude::*;
use vstd::string::StringExecFns;

verus! {

/// The character that writes a digit value below ten.
pub open spec fn digit_char(d: int) -> char {
    if d == 0 {
        '0'
    } else if d == 1 {
        '1'
    } else if d == 2 {
        '2'
    } else if d == 3 {
        '3'
    } else if d == 4 {
        '4'
    } else if d == 5 {
        '5'
    } else if d == 6 {
        '6'
    } else if d == 7 {
        '7'
    } else if d == 8 {
        '8'
    } else {
        '9'
    }
}

/// A natural number in base ten, without leading zeros.
pub open spec fn nat_text(n: nat) -> Seq<char>
    decreases n,
{
    if n < 10 {
        seq![digit_char(n as int)]
    } else {
        nat_text(n / 10).push(digit_char((n % 10) as int))
    }
}

/// An integer in base ten, with `-` before a negative one.
pub open spec fn int_text(i: int) -> Seq<char> {
    if i < 0 {
        seq!['-'] + nat_text((-i) as nat)
    } else {
        nat_text(i as nat)
    }
}

/// What one dimension adds to the rendering of a unit: nothing where the
/// exponent is zero, and otherwise the symbol, `^` and the exponent.
pub open spec fn component_text(symbol: Seq<char>, exponent: int) -> Seq<char> {
    if exponent == 0 {
        Seq::<char>::empty()
    } else {
        symbol + seq!['^'] + int_text(exponent)
    }
}

impl Unit {
    /// The unit as text: the nonzero dimensions in the order meter,
    /// kilogram, second, ampere, kelvin, mole, candela, each as the symbol
    /// of its base unit, `^` and its exponent, with nothing in between. The
    /// dimensionless unit is the empty text.
    pub open spec fn rendering(self) -> Seq<char> {
        component_text("m"@, self.meter as int) + component_text("kg"@, self.kilogram as int)
            + component_text("s"@, self.second as int) + component_text("a"@, self.ampere as int)
            + component_text("k"@, self.kelvin as int) + component_text("mol"@, self.mole as int)
            + component_text("cd"@, self.candela as int)
    }

    /// The unit as text.
    pub fn to_string(&self) -> (r: String)
        ensures
            r@ == self.rendering(),
    {
        let mut out = String::new();
        append_component(&mut out, "m", self.meter);
        append_component(&mut out, "kg", self.kilogram);
        append_component(&mut out, "s", self.second);
        append_component(&mut out, "a", self.ampere);
        append_component(&mut out, "k", self.kelvin);
        append_component(&mut out, "mol", self.mole);
        append_component(&mut out, "cd", self.candela);
        assert(out@ =~= self.rendering());
        out
    }
}

fn digit_text(d: u32) -> (r: &'static str)
    requires
        d < 10,
    ensures
        r@ == seq![digit_char(d as int)],
{
    proof {
        reveal_strlit("0");
        reveal_strlit("1");
        reveal_strlit("2");
        reveal_strlit("3");
        reveal_strlit("4");
        reveal_strlit("5");
        reveal_strlit("6");
        reveal_strlit("7");
        reveal_strlit("8");
        reveal_strlit("9");
    }
    let r = if d == 0 {
        "0"
    } else if d == 1 {
        "1"
    } else if d == 2 {
        "2"
    } else if d == 3 {
        "3"
    } else if d == 4 {
        "4"
    } else if d == 5 {
        "5"
    } else if d == 6 {
        "6"
    } else if d == 7 {
        "7"
    } else if d == 8 {
        "8"
    } else {
        "9"
    };
    assert(r@ =~= seq![digit_char(d as int)]);
    r
}

/// Appends a natural number in base ten.
fn append_nat(out: &mut String, n: u32)
    ensures
        final(out)@ == old(out)@ + nat_text(n as nat),
    decreases n,
{
    if n < 10 {
        out.append(digit_text(n));
    } else {
        append_nat(out, n / 10);
        out.append(digit_text(n % 10));
        assert(out@ =~= old(out)@ + nat_text(n as nat));
    }
}

/// Appends an integer in base ten.
pub fn append_int(out: &mut String, i: i32)
    ensures
        final(out)@ == old(out)@ + int_text(i as int),
{
    if i < 0 {
        proof {
            reveal_strlit("-");
        }
        out.append("-");
        let magnitude: u32 = if i == i32::MIN {
            0x8000_0000
        } else {
            (-i) as u32
        };
        append_nat(out, magnitude);
        assert(out@ =~= old(out)@ + int_text(i as int));
    } else {
        append_nat(out, i as u32);
    }
}

/// Appends what one dimension adds to the rendering of a unit.
fn append_component(out: &mut String, symbol: &str, exponent: i32)
    ensures
        final(out)@ == old(out)@ + component_text(symbol@, exponent as int),
{
    if exponent != 0 {
        proof {
            reveal_strlit("^");
        }
        out.append(symbol);
        out.append("^");
        append_int(out, exponent);
        assert(out@ =~= old(out)@ + component_text(symbol@, exponent as int));
    } else {
        assert(out@ =~= old(out)@ + component_text(symbol@, exponent as int));
    }
}

impl<N: Number> Value<N> {
    /// The value as text, given the text of its number: the number and,
    /// right behind it, the unit.
    pub fn render_with(&self, number: &str) -> (r: String)
        ensures
            r@ == number@ + self.unit.rendering(),
    {
        let mut out = String::from_str(number);
        let unit = self.unit.to_string();
        out.append(unit.as_str());
        out
    }

    /// The value as text: the number as it renders itself and, right behind
    /// it, the unit.
    pub fn to_string(&self) -> (r: String)
        ensures
            r@ == self.number.text()@ + self.unit.rendering(),
    {
        let number = self.number.to_text();
        self.render_with(number.as_str())
    }
}

} // verus!
