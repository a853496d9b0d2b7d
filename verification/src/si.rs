use crate::text::{
    decimal, first_word_start, integer_value, is_decimal, parse_integer, same_text, word_start_index,
};
use vstd::prelude::*;
use vstd::string::StrSliceExecFns;

verus! {

/// Exponent arithmetic is carried out in `i32` and wraps around at the ends
/// of that range; `wrap` is the `i32` that an exact result is reduced to.
/// Inside the range it changes nothing.
pub open spec fn wrap(i: int) -> i32 {
    let m = i % 0x1_0000_0000;
    if m > i32::MAX {
        (m - 0x1_0000_0000) as i32
    } else {
        m as i32
    }
}

/// `wrap` is the identity on every value that an `i32` can hold.
pub proof fn wrap_in_range(i: int)
    requires
        i32::MIN <= i <= i32::MAX,
    ensures
        wrap(i) == i,
{
    if i >= 0 {
        assert(i % 0x1_0000_0000 == i);
    } else {
        assert(i % 0x1_0000_0000 == i + 0x1_0000_0000);
    }
}

fn wrapping_sum(a: i32, b: i32) -> (r: i32)
    ensures
        r == wrap(a + b),
{
    proof {
        let s = a + b;
        if s > i32::MAX {
            assert(s % 0x1_0000_0000 == s);
        } else if s < i32::MIN {
            assert(s % 0x1_0000_0000 == s + 0x1_0000_0000);
        } else {
            wrap_in_range(s);
        }
    }
    a.wrapping_add(b)
}

fn wrapping_difference(a: i32, b: i32) -> (r: i32)
    ensures
        r == wrap(a - b),
{
    proof {
        let s = a - b;
        if s > i32::MAX {
            assert(s % 0x1_0000_0000 == s);
        } else if s < i32::MIN {
            assert(s % 0x1_0000_0000 == s + 0x1_0000_0000);
        } else {
            wrap_in_range(s);
        }
    }
    a.wrapping_sub(b)
}

fn wrapping_product(a: i32, b: i32) -> (r: i32)
    ensures
        r == wrap(a * b),
{
    a.wrapping_mul(b)
}

/// A physical dimension: one signed exponent per SI base dimension.
/// Two units are the same dimension exactly when all seven exponents agree.
/// The zero vector is the dimensionless scalar.
#[derive(PartialEq, Eq, Structural, Clone, Copy, Debug, Hash)]
pub struct Unit {
    pub meter: i32,
    pub kilogram: i32,
    pub second: i32,
    pub ampere: i32,
    pub kelvin: i32,
    pub mole: i32,
    pub candela: i32,
}

impl Unit {
    /// The dimensionless unit: every exponent is zero.
    pub open spec fn scalar() -> Unit {
        Unit { meter: 0, kilogram: 0, second: 0, ampere: 0, kelvin: 0, mole: 0, candela: 0 }
    }

    /// Component-wise sum of the exponents.
    pub open spec fn product(self, other: Unit) -> Unit {
        Unit {
            meter: wrap(self.meter + other.meter),
            kilogram: wrap(self.kilogram + other.kilogram),
            second: wrap(self.second + other.second),
            ampere: wrap(self.ampere + other.ampere),
            kelvin: wrap(self.kelvin + other.kelvin),
            mole: wrap(self.mole + other.mole),
            candela: wrap(self.candela + other.candela),
        }
    }

    /// Component-wise difference of the exponents.
    pub open spec fn quotient(self, other: Unit) -> Unit {
        Unit {
            meter: wrap(self.meter - other.meter),
            kilogram: wrap(self.kilogram - other.kilogram),
            second: wrap(self.second - other.second),
            ampere: wrap(self.ampere - other.ampere),
            kelvin: wrap(self.kelvin - other.kelvin),
            mole: wrap(self.mole - other.mole),
            candela: wrap(self.candela - other.candela),
        }
    }

    /// Component-wise negation of the exponents.
    pub open spec fn inverse(self) -> Unit {
        Unit {
            meter: wrap(-self.meter),
            kilogram: wrap(-self.kilogram),
            second: wrap(-self.second),
            ampere: wrap(-self.ampere),
            kelvin: wrap(-self.kelvin),
            mole: wrap(-self.mole),
            candela: wrap(-self.candela),
        }
    }

    /// Every exponent multiplied by `n`.
    pub open spec fn power(self, n: int) -> Unit {
        Unit {
            meter: wrap(self.meter * n),
            kilogram: wrap(self.kilogram * n),
            second: wrap(self.second * n),
            ampere: wrap(self.ampere * n),
            kelvin: wrap(self.kelvin * n),
            mole: wrap(self.mole * n),
            candela: wrap(self.candela * n),
        }
    }

    /// The dimensionless unit.
    pub fn dimensionless() -> (r: Unit)
        ensures
            r == Unit::scalar(),
    {
        Unit { meter: 0, kilogram: 0, second: 0, ampere: 0, kelvin: 0, mole: 0, candela: 0 }
    }

    /// The unit of a product: exponents add.
    pub fn multiply(&self, other: &Unit) -> (r: Unit)
        ensures
            r == self.product(*other),
    {
        Unit {
            meter: wrapping_sum(self.meter, other.meter),
            kilogram: wrapping_sum(self.kilogram, other.kilogram),
            second: wrapping_sum(self.second, other.second),
            ampere: wrapping_sum(self.ampere, other.ampere),
            kelvin: wrapping_sum(self.kelvin, other.kelvin),
            mole: wrapping_sum(self.mole, other.mole),
            candela: wrapping_sum(self.candela, other.candela),
        }
    }

    /// The unit of a quotient: exponents subtract.
    pub fn divide(&self, other: &Unit) -> (r: Unit)
        ensures
            r == self.quotient(*other),
    {
        Unit {
            meter: wrapping_difference(self.meter, other.meter),
            kilogram: wrapping_difference(self.kilogram, other.kilogram),
            second: wrapping_difference(self.second, other.second),
            ampere: wrapping_difference(self.ampere, other.ampere),
            kelvin: wrapping_difference(self.kelvin, other.kelvin),
            mole: wrapping_difference(self.mole, other.mole),
            candela: wrapping_difference(self.candela, other.candela),
        }
    }

    /// The unit of a reciprocal: exponents change sign.
    pub fn invert(&self) -> (r: Unit)
        ensures
            r == self.inverse(),
    {
        Unit {
            meter: wrapping_difference(0, self.meter),
            kilogram: wrapping_difference(0, self.kilogram),
            second: wrapping_difference(0, self.second),
            ampere: wrapping_difference(0, self.ampere),
            kelvin: wrapping_difference(0, self.kelvin),
            mole: wrapping_difference(0, self.mole),
            candela: wrapping_difference(0, self.candela),
        }
    }

    /// The unit raised to an integer power, negative powers included.
    pub fn raise(&self, power: i32) -> (r: Unit)
        ensures
            r == self.power(power as int),
    {
        Unit {
            meter: wrapping_product(self.meter, power),
            kilogram: wrapping_product(self.kilogram, power),
            second: wrapping_product(self.second, power),
            ampere: wrapping_product(self.ampere, power),
            kelvin: wrapping_product(self.kelvin, power),
            mole: wrapping_product(self.mole, power),
            candela: wrapping_product(self.candela, power),
        }
    }

    /// The decimal exponent that a metric prefix letter stands for. The
    /// table is `g` 9, `M` 6, `k` 3, `c` -2, `m` -3, `u` -6, `n` -9, `p` -12,
    /// `f` -15 and `a` -18. Giga is the lower-case `g`; `G` is no prefix.
    pub open spec fn prefix_power(c: char) -> Option<i32> {
        if c == 'g' {
            Some(9i32)
        } else if c == 'M' {
            Some(6i32)
        } else if c == 'k' {
            Some(3i32)
        } else if c == 'c' {
            Some(-2i32)
        } else if c == 'm' {
            Some(-3i32)
        } else if c == 'u' {
            Some(-6i32)
        } else if c == 'n' {
            Some(-9i32)
        } else if c == 'p' {
            Some(-12i32)
        } else if c == 'f' {
            Some(-15i32)
        } else if c == 'a' {
            Some(-18i32)
        } else {
            None
        }
    }

    /// Looks a metric prefix letter up in the prefix table.
    pub fn get_prefix(c: char) -> (r: Option<i32>)
        ensures
            r == Unit::prefix_power(c),
    {
        match c {
            'g' => Some(9),
            'M' => Some(6),
            'k' => Some(3),
            'c' => Some(-2),
            'm' => Some(-3),
            'u' => Some(-6),
            'n' => Some(-9),
            'p' => Some(-12),
            'f' => Some(-15),
            'a' => Some(-18),
            _ => None,
        }
    }
}

impl Default for Unit {
    fn default() -> (r: Unit)
        ensures
            r == Unit::scalar(),
    {
        Unit::dimensionless()
    }
}

/// A unit together with the decimal exponent that prefixes and scaled
/// definitions have contributed: the quantity `10^power10` of `unit`.
#[derive(PartialEq, Eq, Structural, Clone, Copy, Debug)]
pub struct UnitWithExponent {
    pub unit: Unit,
    pub power10: i32,
}

impl UnitWithExponent {
    /// One of the dimensionless unit, with no scaling.
    pub open spec fn scalar() -> UnitWithExponent {
        UnitWithExponent { unit: Unit::scalar(), power10: 0 }
    }

    /// The same unit with `power10` more decimal places of scale.
    pub open spec fn scaled(self, power10: int) -> UnitWithExponent {
        UnitWithExponent { unit: self.unit, power10: wrap(self.power10 + power10) }
    }

    /// Product of two scaled units: dimensions multiply, scales add.
    pub open spec fn times(self, other: UnitWithExponent) -> UnitWithExponent {
        UnitWithExponent {
            unit: self.unit.product(other.unit),
            power10: wrap(self.power10 + other.power10),
        }
    }

    /// Quotient of two scaled units: dimensions divide, scales subtract.
    pub open spec fn over(self, other: UnitWithExponent) -> UnitWithExponent {
        UnitWithExponent {
            unit: self.unit.quotient(other.unit),
            power10: wrap(self.power10 - other.power10),
        }
    }

    /// A scaled unit raised to an integer power: the dimension exponents and
    /// the decimal scale are all multiplied by `n`.
    pub open spec fn raised(self, n: int) -> UnitWithExponent {
        UnitWithExponent { unit: self.unit.power(n), power10: wrap(self.power10 * n) }
    }

    /// `10^power10` of `unit`.
    pub fn new(unit: Unit, power10: i32) -> (r: UnitWithExponent)
        ensures
            r.unit == unit,
            r.power10 == power10,
    {
        UnitWithExponent { unit, power10 }
    }

    /// Adds `power10` to the decimal scale and leaves the dimension alone.
    pub fn raise_scalar_exponent(self, power10: i32) -> (r: UnitWithExponent)
        ensures
            r == self.scaled(power10 as int),
    {
        UnitWithExponent { unit: self.unit, power10: wrapping_sum(self.power10, power10) }
    }

    /// Product of two scaled units.
    pub fn multiply(&self, other: &UnitWithExponent) -> (r: UnitWithExponent)
        ensures
            r == self.times(*other),
    {
        UnitWithExponent {
            unit: self.unit.multiply(&other.unit),
            power10: wrapping_sum(self.power10, other.power10),
        }
    }

    /// Quotient of two scaled units.
    pub fn divide(&self, other: &UnitWithExponent) -> (r: UnitWithExponent)
        ensures
            r == self.over(*other),
    {
        UnitWithExponent {
            unit: self.unit.divide(&other.unit),
            power10: wrapping_difference(self.power10, other.power10),
        }
    }

    /// A scaled unit raised to an integer power.
    pub fn raise(&self, power: i32) -> (r: UnitWithExponent)
        ensures
            r == self.raised(power as int),
    {
        UnitWithExponent {
            unit: self.unit.raise(power),
            power10: wrapping_product(self.power10, power),
        }
    }
}

impl Default for UnitWithExponent {
    fn default() -> (r: UnitWithExponent)
        ensures
            r == UnitWithExponent::scalar(),
    {
        UnitWithExponent { unit: Unit::dimensionless(), power10: 0 }
    }
}

/// Why a unit expression could not be read. Positions count characters
/// from the start of the text that was handed in.
#[derive(PartialEq, Eq, Structural, Clone, Copy, Debug)]
pub enum ParseUnitError {
    /// The symbol in the segment from the first position to the second is
    /// not in the registry, with or without a prefix.
    UnrecognizedUnit(usize, usize),
    /// The text from the first position to the second should be an integer
    /// exponent and is not.
    IntegerParseError(usize, usize),
    /// The text ended where a unit or an exponent had to follow.
    EarlyEndOfLine,
}

/// One registered unit, as the contracts see it.
pub struct UnitRecord {
    pub longhand: Seq<char>,
    pub shorthand: Seq<char>,
    pub unit: UnitWithExponent,
}

/// One registered unit: its long name, its short symbol and what it stands
/// for.
pub struct UnitEntry {
    pub longhand: &'static str,
    pub shorthand: &'static str,
    pub unit: UnitWithExponent,
}

impl View for UnitEntry {
    type V = UnitRecord;

    open spec fn view(&self) -> UnitRecord {
        UnitRecord { longhand: self.longhand@, shorthand: self.shorthand@, unit: self.unit }
    }
}

/// The registry of units. Entries are kept in the order of registration;
/// where a name or a dimension was registered more than once, the latest
/// registration is the one that a lookup finds.
pub struct UnitRules {
    entries: Vec<UnitEntry>,
}

impl View for UnitRules {
    type V = Seq<UnitRecord>;

    closed spec fn view(&self) -> Seq<UnitRecord> {
        Seq::new(self.entries@.len(), |i: int| self.entries@[i]@)
    }
}

/// The index of the latest entry whose short symbol is `symbol`.
pub open spec fn find_shorthand(table: Seq<UnitRecord>, symbol: Seq<char>) -> Option<int>
    decreases table.len(),
{
    if table.len() == 0 {
        None
    } else if table.last().shorthand == symbol {
        Some(table.len() - 1)
    } else {
        find_shorthand(table.drop_last(), symbol)
    }
}

/// The index of the latest entry whose long name is `name`.
pub open spec fn find_longhand(table: Seq<UnitRecord>, name: Seq<char>) -> Option<int>
    decreases table.len(),
{
    if table.len() == 0 {
        None
    } else if table.last().longhand == name {
        Some(table.len() - 1)
    } else {
        find_longhand(table.drop_last(), name)
    }
}

/// The index of the latest entry whose dimension is `unit`.
pub open spec fn find_unit(table: Seq<UnitRecord>, unit: Unit) -> Option<int>
    decreases table.len(),
{
    if table.len() == 0 {
        None
    } else if table.last().unit.unit == unit {
        Some(table.len() - 1)
    } else {
        find_unit(table.drop_last(), unit)
    }
}

/// What a unit symbol stands for. An exact match with a registered short
/// symbol wins. Failing that, a symbol of two or more characters is read as
/// a metric prefix letter before a registered short symbol, and the prefix
/// adds its power of ten to the scale. Any registered symbol takes a
/// prefix, the dimensionless unit too.
pub open spec fn resolve_symbol(table: Seq<UnitRecord>, symbol: Seq<char>) -> Option<
    UnitWithExponent,
> {
    match find_shorthand(table, symbol) {
        Some(i) => Some(table[i].unit),
        None => if symbol.len() >= 2 {
            match (
                Unit::prefix_power(symbol[0]),
                find_shorthand(table, symbol.subrange(1, symbol.len() as int)),
            ) {
                (Some(p), Some(i)) => Some(table[i].unit.scaled(p as int)),
                _ => None,
            }
        } else {
            None
        },
    }
}

/// A lookup by short symbol finds an entry with that symbol which no later
/// entry shares, and finds nothing only where no entry has the symbol.
pub proof fn find_shorthand_found(table: Seq<UnitRecord>, symbol: Seq<char>)
    ensures
        match find_shorthand(table, symbol) {
            Some(i) => 0 <= i < table.len() && table[i].shorthand == symbol && forall|k: int|
                i < k < table.len() ==> (#[trigger] table[k]).shorthand != symbol,
            None => forall|k: int| 0 <= k < table.len() ==> (#[trigger] table[k]).shorthand != symbol,
        },
    decreases table.len(),
{
    if table.len() > 0 && table.last().shorthand != symbol {
        find_shorthand_found(table.drop_last(), symbol);
        assert forall|k: int| 0 <= k < table.len() - 1 implies table.drop_last()[k] == table[k] by {}
        match find_shorthand(table.drop_last(), symbol) {
            Some(i) => {
                assert forall|k: int| i < k < table.len() implies (#[trigger] table[k]).shorthand
                    != symbol by {
                    if k < table.len() - 1 {
                        assert(table.drop_last()[k] == table[k]);
                    }
                }
            },
            None => {
                assert forall|k: int| 0 <= k < table.len() implies (#[trigger] table[k]).shorthand
                    != symbol by {
                    if k < table.len() - 1 {
                        assert(table.drop_last()[k] == table[k]);
                    }
                }
            },
        }
    }
}

/// A lookup by dimension finds an entry of that dimension which no later
/// entry shares, and finds nothing only where no entry has the dimension.
pub proof fn find_unit_found(table: Seq<UnitRecord>, unit: Unit)
    ensures
        match find_unit(table, unit) {
            Some(i) => 0 <= i < table.len() && table[i].unit.unit == unit && forall|k: int|
                i < k < table.len() ==> (#[trigger] table[k]).unit.unit != unit,
            None => forall|k: int| 0 <= k < table.len() ==> (#[trigger] table[k]).unit.unit != unit,
        },
    decreases table.len(),
{
    if table.len() > 0 && table.last().unit.unit != unit {
        find_unit_found(table.drop_last(), unit);
        match find_unit(table.drop_last(), unit) {
            Some(i) => {
                assert forall|k: int| i < k < table.len() implies (#[trigger] table[k]).unit.unit
                    != unit by {
                    if k < table.len() - 1 {
                        assert(table.drop_last()[k] == table[k]);
                    }
                }
            },
            None => {
                assert forall|k: int| 0 <= k < table.len() implies (#[trigger] table[k]).unit.unit
                    != unit by {
                    if k < table.len() - 1 {
                        assert(table.drop_last()[k] == table[k]);
                    }
                }
            },
        }
    }
}

impl UnitRules {
    /// A registry without entries.
    pub fn new() -> (r: UnitRules)
        ensures
            r@ == Seq::<UnitRecord>::empty(),
    {
        let r = UnitRules { entries: Vec::new() };
        assert(r@ =~= Seq::<UnitRecord>::empty());
        r
    }

    /// Registers a unit under a long name and a short symbol. Earlier
    /// entries stay; lookups prefer the new one.
    pub fn new_unit_exponent(
        &mut self,
        longhand: &'static str,
        shorthand: &'static str,
        ue: UnitWithExponent,
    )
        ensures
            final(self)@ == old(self)@.push(
                UnitRecord { longhand: longhand@, shorthand: shorthand@, unit: ue },
            ),
    {
        self.entries.push(UnitEntry { longhand, shorthand, unit: ue });
        assert(self@ =~= old(self)@.push(
            UnitRecord { longhand: longhand@, shorthand: shorthand@, unit: ue },
        ));
    }

    /// Registers a base unit: `unit` itself, unscaled.
    pub fn new_unit(&mut self, longhand: &'static str, shorthand: &'static str, unit: Unit)
        ensures
            final(self)@ == old(self)@.push(
                UnitRecord {
                    longhand: longhand@,
                    shorthand: shorthand@,
                    unit: UnitWithExponent { unit, power10: 0 },
                },
            ),
    {
        self.new_unit_exponent(longhand, shorthand, UnitWithExponent::new(unit, 0));
    }

    /// The number of registrations made so far.
    pub fn len(&self) -> (n: usize)
        ensures
            n == self@.len(),
    {
        self.entries.len()
    }

    /// The latest entry registered under the short symbol `symbol`.
    fn shorthand_index(&self, symbol: &str) -> (r: Option<usize>)
        ensures
            r is Some <==> find_shorthand(self@, symbol@) is Some,
            r is Some ==> r->0 == find_shorthand(self@, symbol@)->0 && r->0 < self.entries@.len(),
    {
        let mut i: usize = self.entries.len();
        assert(self@.subrange(0, i as int) =~= self@);
        while i > 0
            invariant
                i <= self.entries@.len(),
                self@.len() == self.entries@.len(),
                find_shorthand(self@, symbol@) == find_shorthand(self@.subrange(0, i as int), symbol@),
            decreases i,
        {
            proof {
                let t = self@.subrange(0, i as int);
                assert(t.last() == self.entries@[i - 1]@);
                assert(t.drop_last() =~= self@.subrange(0, i - 1));
            }
            if same_text(self.entries[i - 1].shorthand, symbol) {
                return Some(i - 1);
            }
            i = i - 1;
        }
        None
    }

    /// What a unit symbol stands for: an exact match with a short symbol,
    /// or else a metric prefix letter before a short symbol.
    pub fn resolve(&self, symbol: &str) -> (r: Option<UnitWithExponent>)
        ensures
            r == resolve_symbol(self@, symbol@),
    {
        match self.shorthand_index(symbol) {
            Some(i) => Some(self.entries[i].unit),
            None => {
                let n = symbol.unicode_len();
                if n >= 2 {
                    let rest = symbol.substring_char(1, n);
                    match (Unit::get_prefix(symbol.get_char(0)), self.shorthand_index(rest)) {
                        (Some(p), Some(i)) => Some(self.entries[i].unit.raise_scalar_exponent(p)),
                        _ => None,
                    }
                } else {
                    None
                }
            },
        }
    }

    /// The short symbol and the meaning of the unit whose long name is
    /// `name`.
    pub fn longhand(&self, name: &str) -> (r: Option<(&'static str, UnitWithExponent)>)
        ensures
            match find_longhand(self@, name@) {
                Some(i) => r matches Some((symbol, unit)) && symbol@ == self@[i].shorthand && unit
                    == self@[i].unit,
                None => r is None,
            },
    {
        let mut i: usize = self.entries.len();
        assert(self@.subrange(0, i as int) =~= self@);
        while i > 0
            invariant
                i <= self.entries@.len(),
                self@.len() == self.entries@.len(),
                find_longhand(self@, name@) == find_longhand(self@.subrange(0, i as int), name@),
            decreases i,
        {
            proof {
                let t = self@.subrange(0, i as int);
                assert(t.last() == self.entries@[i - 1]@);
                assert(t.drop_last() =~= self@.subrange(0, i - 1));
            }
            if same_text(self.entries[i - 1].longhand, name) {
                return Some((self.entries[i - 1].shorthand, self.entries[i - 1].unit));
            }
            i = i - 1;
        }
        None
    }

    /// The long name and the meaning of the unit whose short symbol is
    /// exactly `symbol`.
    pub fn shorthand(&self, symbol: &str) -> (r: Option<(&'static str, UnitWithExponent)>)
        ensures
            match find_shorthand(self@, symbol@) {
                Some(i) => r matches Some((name, unit)) && name@ == self@[i].longhand && unit
                    == self@[i].unit,
                None => r is None,
            },
    {
        match self.shorthand_index(symbol) {
            Some(i) => Some((self.entries[i].longhand, self.entries[i].unit)),
            None => None,
        }
    }

    /// The long name and the short symbol registered for a dimension.
    pub fn names_of(&self, unit: &Unit) -> (r: Option<(&'static str, &'static str)>)
        ensures
            match find_unit(self@, *unit) {
                Some(i) => r matches Some((name, symbol)) && name@ == self@[i].longhand && symbol@
                    == self@[i].shorthand,
                None => r is None,
            },
    {
        let mut i: usize = self.entries.len();
        assert(self@.subrange(0, i as int) =~= self@);
        while i > 0
            invariant
                i <= self.entries@.len(),
                self@.len() == self.entries@.len(),
                find_unit(self@, *unit) == find_unit(self@.subrange(0, i as int), *unit),
            decreases i,
        {
            proof {
                let t = self@.subrange(0, i as int);
                assert(t.last() == self.entries@[i - 1]@);
                assert(t.drop_last() =~= self@.subrange(0, i - 1));
            }
            if self.entries[i - 1].unit.unit == *unit {
                return Some((self.entries[i - 1].longhand, self.entries[i - 1].shorthand));
            }
            i = i - 1;
        }
        None
    }
}

/// The two characters that join the segments of a unit expression.
pub open spec fn is_unit_operator(c: char) -> bool {
    c == '*' || c == '/'
}

/// The end of the segment that begins at `i`: the index of the next `*` or
/// `/`, or the length of the text where none follows.
pub open spec fn segment_end(s: Seq<char>, i: int) -> int
    decreases s.len() - i,
{
    if 0 <= i < s.len() && !is_unit_operator(s[i]) {
        segment_end(s, i + 1)
    } else {
        i
    }
}

/// The index of the first `^` between `i` and `end`, or `end`.
pub open spec fn caret_position(s: Seq<char>, i: int, end: int) -> int
    decreases end - i,
{
    if 0 <= i < end && i < s.len() && s[i] != '^' {
        caret_position(s, i + 1, end)
    } else if i < end {
        i
    } else {
        end
    }
}

/// The exponent that `t` writes, where it is an integer that fits in `i32`.
pub open spec fn exponent_value(t: Seq<char>) -> Option<i32> {
    match integer_value(t) {
        Some(v) => if i32::MIN <= v <= i32::MAX {
            Some(v as i32)
        } else {
            None
        },
        None => None,
    }
}

/// The meaning of one segment, `s` from `pos` to `end`: a unit symbol,
/// which may be followed by `^` and an integer exponent. The exponent is
/// examined before the symbol.
pub open spec fn segment_value(table: Seq<UnitRecord>, s: Seq<char>, pos: int, end: int) -> Result<
    UnitWithExponent,
    ParseUnitError,
> {
    let caret = caret_position(s, pos, end);
    if caret < end {
        if caret + 1 == s.len() {
            Err(ParseUnitError::EarlyEndOfLine)
        } else {
            match exponent_value(s.subrange(caret + 1, end)) {
                None => Err(ParseUnitError::IntegerParseError((caret + 1) as usize, end as usize)),
                Some(n) => match resolve_symbol(table, s.subrange(pos, caret)) {
                    None => Err(ParseUnitError::UnrecognizedUnit(pos as usize, end as usize)),
                    Some(ue) => Ok(ue.raised(n as int)),
                },
            }
        }
    } else {
        match resolve_symbol(table, s.subrange(pos, end)) {
            None => Err(ParseUnitError::UnrecognizedUnit(pos as usize, end as usize)),
            Some(ue) => Ok(ue),
        }
    }
}

/// The meaning of the segments of `s` from `pos` on, folded from left to
/// right into `acc`. `dividing` tells whether the segment at `pos` follows
/// a `/`.
pub open spec fn unit_expression_from(
    table: Seq<UnitRecord>,
    s: Seq<char>,
    pos: int,
    acc: UnitWithExponent,
    dividing: bool,
) -> Result<UnitWithExponent, ParseUnitError>
    decreases s.len() - pos,
{
    if pos < 0 || pos >= s.len() {
        Err(ParseUnitError::EarlyEndOfLine)
    } else {
        let end = segment_end(s, pos);
        match segment_value(table, s, pos, end) {
            Err(e) => Err(e),
            Ok(ue) => {
                let next = if dividing {
                    acc.over(ue)
                } else {
                    acc.times(ue)
                };
                if end >= s.len() {
                    Ok(next)
                } else {
                    proof {
                        segment_end_bounds(s, pos);
                    }
                    unit_expression_from(table, s, end + 1, next, s[end] == '/')
                }
            },
        }
    }
}

/// The meaning of a unit expression such as `kg*m/s^2`: segments joined by
/// `*` and `/`, combined from left to right, starting from the
/// dimensionless unit.
pub open spec fn unit_expression(table: Seq<UnitRecord>, s: Seq<char>) -> Result<
    UnitWithExponent,
    ParseUnitError,
> {
    unit_expression_from(table, s, 0, UnitWithExponent::scalar(), false)
}

/// A segment ends inside the text, and where it ends before the end of the
/// text, a `*` or a `/` stands.
pub proof fn segment_end_bounds(s: Seq<char>, i: int)
    requires
        0 <= i <= s.len(),
    ensures
        i <= segment_end(s, i) <= s.len(),
        segment_end(s, i) < s.len() ==> is_unit_operator(s[segment_end(s, i)]),
    decreases s.len() - i,
{
    if i < s.len() && !is_unit_operator(s[i]) {
        segment_end_bounds(s, i + 1);
    }
}

impl UnitWithExponent {
    /// What a single unit symbol stands for in `rules`.
    pub fn from_str_single(rules: &UnitRules, s: &str) -> (r: Option<UnitWithExponent>)
        ensures
            r == resolve_symbol(rules@, s@),
    {
        rules.resolve(s)
    }

    /// Reads one segment of a unit expression.
    fn segment(rules: &UnitRules, s: &str, len: usize, pos: usize, end: usize) -> (r: Result<
        UnitWithExponent,
        ParseUnitError,
    >)
        requires
            len == s@.len(),
            pos <= end <= len,
        ensures
            r == segment_value(rules@, s@, pos as int, end as int),
    {
        let mut caret: usize = pos;
        while caret < end && s.get_char(caret) != '^'
            invariant
                len == s@.len(),
                pos <= caret <= end <= len,
                caret_position(s@, pos as int, end as int) == caret_position(
                    s@,
                    caret as int,
                    end as int,
                ),
            decreases end - caret,
        {
            caret = caret + 1;
        }
        if caret < end {
            if caret + 1 == len {
                return Err(ParseUnitError::EarlyEndOfLine);
            }
            let exponent = match parse_integer(s, caret + 1, end) {
                Some(v) => if -0x8000_0000 <= v && v <= 0x7fff_ffff {
                    v as i32
                } else {
                    return Err(ParseUnitError::IntegerParseError(caret + 1, end));
                },
                None => {
                    return Err(ParseUnitError::IntegerParseError(caret + 1, end));
                },
            };
            match rules.resolve(s.substring_char(pos, caret)) {
                None => Err(ParseUnitError::UnrecognizedUnit(pos, end)),
                Some(ue) => Ok(ue.raise(exponent)),
            }
        } else {
            match rules.resolve(s.substring_char(pos, end)) {
                None => Err(ParseUnitError::UnrecognizedUnit(pos, end)),
                Some(ue) => Ok(ue),
            }
        }
    }

    /// Reads a unit expression such as `kg*m/s^2` against `rules`.
    pub fn from_str(rules: &UnitRules, s: &str) -> (r: Result<UnitWithExponent, ParseUnitError>)
        ensures
            r == unit_expression(rules@, s@),
    {
        let len = s.unicode_len();
        let mut acc = UnitWithExponent { unit: Unit::dimensionless(), power10: 0 };
        let mut dividing = false;
        let mut pos: usize = 0;
        loop
            invariant
                len == s@.len(),
                pos <= len,
                unit_expression(rules@, s@) == unit_expression_from(
                    rules@,
                    s@,
                    pos as int,
                    acc,
                    dividing,
                ),
            decreases len - pos,
        {
            if pos >= len {
                return Err(ParseUnitError::EarlyEndOfLine);
            }
            let mut end: usize = pos;
            proof {
                segment_end_bounds(s@, pos as int);
            }
            while end < len && !(s.get_char(end) == '*' || s.get_char(end) == '/')
                invariant
                    len == s@.len(),
                    pos <= end <= len,
                    segment_end(s@, pos as int) == segment_end(s@, end as int),
                decreases len - end,
            {
                end = end + 1;
            }
            let ue = match UnitWithExponent::segment(rules, s, len, pos, end) {
                Ok(ue) => ue,
                Err(e) => {
                    return Err(e);
                },
            };
            acc = if dividing {
                acc.divide(&ue)
            } else {
                acc.multiply(&ue)
            };
            if end >= len {
                return Ok(acc);
            }
            dividing = s.get_char(end) == '/';
            pos = end + 1;
        }
    }
}

impl UnitRules {
    /// Registers a derived unit whose meaning is given by a unit expression
    /// over the units registered so far. A rule that cannot be read is an
    /// error and leaves the registry as it was.
    pub fn try_new_unit_rule(
        &mut self,
        longhand: &'static str,
        shorthand: &'static str,
        rule: &str,
    ) -> (r: Result<(), ParseUnitError>)
        ensures
            match unit_expression(old(self)@, rule@) {
                Ok(ue) => r is Ok && final(self)@ == old(self)@.push(
                    UnitRecord { longhand: longhand@, shorthand: shorthand@, unit: ue },
                ),
                Err(e) => r == Err::<(), ParseUnitError>(e) && final(self)@ == old(self)@,
            },
    {
        match UnitWithExponent::from_str(self, rule) {
            Ok(ue) => {
                self.new_unit_exponent(longhand, shorthand, ue);
                Ok(())
            },
            Err(e) => Err(e),
        }
    }

    /// Registers a derived unit whose meaning is given by a unit expression
    /// over the units registered so far. The rule has to be one that can be
    /// read; `try_new_unit_rule` takes any rule.
    pub fn new_unit_rule(&mut self, longhand: &'static str, shorthand: &'static str, rule: &str)
        requires
            unit_expression(old(self)@, rule@) is Ok,
        ensures
            final(self)@ == old(self)@.push(
                UnitRecord {
                    longhand: longhand@,
                    shorthand: shorthand@,
                    unit: unit_expression(old(self)@, rule@)->Ok_0,
                },
            ),
    {
        let _ = self.try_new_unit_rule(longhand, shorthand, rule);
    }
}

/// The arithmetic that a dimensioned value needs from its number. The
/// registry and the dimension rules are independent of how numbers are
/// represented; an implementation supplies the representation.
///
/// Each operation comes twice: as the function that computes it, and as
/// the spec function that names what it computes, which the contracts of
/// the library speak of. Every operation returns what its spec function
/// names, and nothing else is said of these functions. An implementation
/// writes each pair as one and the same computation on the arguments alone.
pub trait Number: Copy {
    /// The number that the decimal literal `text` writes.
    spec fn written(text: String) -> Self;

    /// Ten to the power `exponent`.
    spec fn ten_to(exponent: i32) -> Self;

    /// `self + other`.
    spec fn sum(self, other: Self) -> Self;

    /// `-self`.
    spec fn negation(self) -> Self;

    /// `self * other`.
    spec fn product(self, other: Self) -> Self;

    /// `1 / self`.
    spec fn inverse(self) -> Self;

    /// Whether the number is zero.
    spec fn zero(self) -> bool;

    /// The number as text.
    spec fn text(self) -> String;

    /// The number that the characters of a decimal literal write: what
    /// `written` gives for the text that holds these characters.
    open spec fn decimal(text: Seq<char>) -> Self {
        Self::written(choose|t: String| t@ == text)
    }

    /// The number that a decimal literal writes.
    fn from_decimal(text: &str) -> (r: Self)
        requires
            is_decimal(text@),
        ensures
            r == Self::decimal(text@),
    ;

    /// Ten to the power `exponent`.
    fn power_of_ten(exponent: i32) -> (r: Self)
        ensures
            r == Self::ten_to(exponent),
    ;

    /// `self + other`.
    fn plus(self, other: Self) -> (r: Self)
        ensures
            r == self.sum(other),
    ;

    /// `-self`.
    fn negated(self) -> (r: Self)
        ensures
            r == self.negation(),
    ;

    /// `self * other`.
    fn times(self, other: Self) -> (r: Self)
        ensures
            r == self.product(other),
    ;

    /// `1 / self`. Callers ask only for the reciprocal of a number that
    /// `is_zero` has denied to be zero.
    fn reciprocal(self) -> (r: Self)
        ensures
            r == self.inverse(),
    ;

    /// Whether the number is zero.
    fn is_zero(self) -> (r: bool)
        ensures
            r == self.zero(),
    ;

    /// The number as text.
    fn to_text(self) -> (r: String)
        ensures
            r == self.text(),
    ;
}

/// Why an operation on two values has no result.
#[derive(PartialEq, Eq, Structural, Clone, Copy, Debug)]
pub enum ValueError {
    /// A sum or a difference of values of different dimensions.
    DimensionMismatch,
    /// A reciprocal or a quotient whose divisor is zero.
    DivisionByZero,
}

/// A number with a physical dimension.
#[derive(Clone, Copy, Debug, PartialEq)]
pub struct Value<N> {
    pub unit: Unit,
    pub number: N,
}

impl<N: Number> Value<N> {
    /// The sum of two values: defined for values of one dimension, whose
    /// numbers add.
    pub open spec fn sum(self, other: Value<N>) -> Result<Value<N>, ValueError> {
        if self.unit == other.unit {
            Ok(Value { unit: self.unit, number: self.number.sum(other.number) })
        } else {
            Err(ValueError::DimensionMismatch)
        }
    }

    /// The value with its number negated.
    pub open spec fn negation(self) -> Value<N> {
        Value { unit: self.unit, number: self.number.negation() }
    }

    /// The difference of two values: the sum of the first and the negated
    /// second.
    pub open spec fn difference(self, other: Value<N>) -> Result<Value<N>, ValueError> {
        self.sum(other.negation())
    }

    /// The product of two values: dimensions and numbers multiply.
    pub open spec fn product(self, other: Value<N>) -> Value<N> {
        Value { unit: self.unit.product(other.unit), number: self.number.product(other.number) }
    }

    /// The reciprocal of a value: defined unless the number is zero.
    pub open spec fn inverse(self) -> Result<Value<N>, ValueError> {
        if self.number.zero() {
            Err(ValueError::DivisionByZero)
        } else {
            Ok(Value { unit: self.unit.inverse(), number: self.number.inverse() })
        }
    }

    /// The quotient of two values: the product of the first and the
    /// reciprocal of the second.
    pub open spec fn quotient(self, other: Value<N>) -> Result<Value<N>, ValueError> {
        match other.inverse() {
            Ok(reciprocal) => Ok(self.product(reciprocal)),
            Err(e) => Err(e),
        }
    }

    /// The value with its number multiplied by `k`.
    pub open spec fn scaled(self, k: N) -> Value<N> {
        Value { unit: self.unit, number: self.number.product(k) }
    }

    /// `number` of `unit`.
    pub fn new(number: N, unit: Unit) -> (r: Value<N>)
        ensures
            r.unit == unit,
            r.number == number,
    {
        Value { unit, number }
    }

    /// The sum of two values of one dimension; the dimension stays.
    pub fn add(self, other: &Value<N>) -> (r: Result<Value<N>, ValueError>)
        ensures
            r == self.sum(*other),
            self.unit == other.unit ==> r is Ok && r->Ok_0.unit == self.unit,
            self.unit != other.unit ==> r == Err::<Value<N>, ValueError>(
                ValueError::DimensionMismatch,
            ),
    {
        if self.unit == other.unit {
            Ok(Value { unit: self.unit, number: self.number.plus(other.number) })
        } else {
            Err(ValueError::DimensionMismatch)
        }
    }

    /// The value with its number negated; the dimension stays.
    pub fn negate(self) -> (r: Value<N>)
        ensures
            r == self.negation(),
    {
        Value { unit: self.unit, number: self.number.negated() }
    }

    /// The difference of two values of one dimension: the sum of the first
    /// and the negated second. The dimension stays.
    pub fn subtract(self, other: &Value<N>) -> (r: Result<Value<N>, ValueError>)
        ensures
            r == self.difference(*other),
            self.unit == other.unit ==> r is Ok && r->Ok_0.unit == self.unit,
            self.unit != other.unit ==> r == Err::<Value<N>, ValueError>(
                ValueError::DimensionMismatch,
            ),
    {
        let negated = other.negate();
        self.add(&negated)
    }

    /// The product of two values; their dimensions multiply. A
    /// dimensionless factor leaves the dimension as it is.
    pub fn multiply(&self, other: &Value<N>) -> (r: Value<N>)
        ensures
            r == self.product(*other),
            other.unit == Unit::scalar() ==> r.unit == self.unit,
    {
        proof {
            self.unit.scalar_is_identity();
        }
        Value { unit: self.unit.multiply(&other.unit), number: self.number.times(other.number) }
    }

    /// The reciprocal of a value, given the answer to whether its number is
    /// zero: none for zero, and otherwise the reciprocal number of the
    /// inverse dimension.
    pub fn invert_unless(&self, zero: bool) -> (r: Result<Value<N>, ValueError>)
        ensures
            zero ==> r == Err::<Value<N>, ValueError>(ValueError::DivisionByZero),
            !zero ==> r == Ok::<Value<N>, ValueError>(
                Value { unit: self.unit.inverse(), number: self.number.inverse() },
            ),
    {
        if zero {
            Err(ValueError::DivisionByZero)
        } else {
            Ok(Value { unit: self.unit.invert(), number: self.number.reciprocal() })
        }
    }

    /// The reciprocal of a value: an error exactly where the number is
    /// zero.
    pub fn invert(&self) -> (r: Result<Value<N>, ValueError>)
        ensures
            r == self.inverse(),
            r is Err <==> self.number.zero(),
    {
        let zero = self.number.is_zero();
        self.invert_unless(zero)
    }

    /// The quotient of two values: the product of the first and the
    /// reciprocal of the second, and an error exactly where the number of
    /// the second is zero. Their dimensions divide, so the quotient of two
    /// values of one dimension is dimensionless.
    pub fn divide(&self, other: &Value<N>) -> (r: Result<Value<N>, ValueError>)
        ensures
            r == self.quotient(*other),
            r is Err <==> other.number.zero(),
            r matches Ok(v) ==> v.unit == self.unit.quotient(other.unit) && (self.unit
                == other.unit ==> v.unit == Unit::scalar()),
    {
        proof {
            self.unit.quotient_is_product_with_inverse(other.unit);
            self.unit.divided_by_itself();
        }
        match other.invert() {
            Ok(inverse) => Ok(self.multiply(&inverse)),
            Err(e) => Err(e),
        }
    }

    /// The value with its number multiplied by `k`; the dimension stays.
    pub fn scale(self, k: N) -> (r: Value<N>)
        ensures
            r == self.scaled(k),
    {
        Value { unit: self.unit, number: self.number.times(k) }
    }
}

impl UnitWithExponent {
    /// `number` of this unit as a value: the number is multiplied by ten
    /// to the power of the scale.
    pub open spec fn value<N: Number>(self, number: N) -> Value<N> {
        Value { unit: self.unit, number: number.product(N::ten_to(self.power10)) }
    }

    /// The value of `value` of this unit: the number is multiplied by ten
    /// to the power of the scale.
    pub fn make_value<N: Number>(&self, value: N) -> (r: Value<N>)
        ensures
            r == self.value(value),
    {
        Value { unit: self.unit, number: value.times(N::power_of_ten(self.power10)) }
    }
}

/// The number that the number part of a literal writes: the decimal number
/// written there, and one, as ten to the power zero, where nothing is
/// written.
pub open spec fn literal_number<N: Number>(number: Seq<char>) -> N {
    if number.len() == 0 {
        N::ten_to(0)
    } else {
        N::decimal(number)
    }
}

/// The unit of a quantity that is written as a number and a unit
/// expression, either of which may be missing, not both. A missing unit
/// expression is the dimensionless unit. Positions in an error from the unit
/// expression count from its own start; the error for a number that is no
/// decimal number spans the number.
pub open spec fn quantity_unit(table: Seq<UnitRecord>, number: Seq<char>, unit: Seq<char>) -> Result<
    UnitWithExponent,
    ParseUnitError,
> {
    if number.len() == 0 && unit.len() == 0 {
        Err(ParseUnitError::EarlyEndOfLine)
    } else {
        let meaning = if unit.len() == 0 {
            Ok(UnitWithExponent::scalar())
        } else {
            unit_expression(table, unit)
        };
        match meaning {
            Err(e) => Err(e),
            Ok(ue) => if number.len() == 0 || is_decimal(number) {
                Ok(ue)
            } else {
                Err(ParseUnitError::IntegerParseError(0, number.len() as usize))
            },
        }
    }
}

impl UnitWithExponent {
    /// The unit of a quantity that is written as a number and a unit
    /// expression, either of which may be empty.
    pub fn from_parts(rules: &UnitRules, number: &str, unit: &str) -> (r: Result<
        UnitWithExponent,
        ParseUnitError,
    >)
        ensures
            r == quantity_unit(rules@, number@, unit@),
    {
        let number_len = number.unicode_len();
        let unit_len = unit.unicode_len();
        if number_len == 0 && unit_len == 0 {
            return Err(ParseUnitError::EarlyEndOfLine);
        }
        let ue = if unit_len == 0 {
            UnitWithExponent { unit: Unit::dimensionless(), power10: 0 }
        } else {
            match UnitWithExponent::from_str(rules, unit) {
                Ok(ue) => ue,
                Err(e) => {
                    return Err(e);
                },
            }
        };
        if number_len == 0 || decimal(number) {
            Ok(ue)
        } else {
            Err(ParseUnitError::IntegerParseError(0, number_len))
        }
    }

    /// The value of the decimal number `number` of this unit; of one of
    /// this unit where `number` is empty.
    pub fn quantity<N: Number>(&self, number: &str) -> (r: Value<N>)
        requires
            number@.len() == 0 || is_decimal(number@),
        ensures
            r == self.value(literal_number::<N>(number@)),
    {
        if number.unicode_len() == 0 {
            self.make_value(N::power_of_ten(0))
        } else {
            self.make_value(N::from_decimal(number))
        }
    }
}

/// The value of a quantity that is written as a number and a unit
/// expression: the written number, or one, of the written unit, or of the
/// dimensionless unit.
pub open spec fn quantity_value<N: Number>(
    table: Seq<UnitRecord>,
    number: Seq<char>,
    unit: Seq<char>,
) -> Result<Value<N>, ParseUnitError> {
    match quantity_unit(table, number, unit) {
        Ok(ue) => Ok(ue.value(literal_number::<N>(number))),
        Err(e) => Err(e),
    }
}

/// The value of a literal such as `9.8m/s^2`: the number runs up to the
/// first character that may begin a word, and the unit expression from
/// there.
pub open spec fn literal_value<N: Number>(table: Seq<UnitRecord>, s: Seq<char>) -> Result<
    Value<N>,
    ParseUnitError,
> {
    let i = word_start_index(s, 0);
    quantity_value(table, s.subrange(0, i), s.subrange(i, s.len() as int))
}

impl<N: Number> Value<N> {
    /// The value that a number and a unit expression write together. A
    /// missing number is one; a missing unit expression is the dimensionless
    /// unit.
    pub fn from_parts(rules: &UnitRules, number: &str, unit: &str) -> (r: Result<
        Value<N>,
        ParseUnitError,
    >)
        ensures
            r == quantity_value::<N>(rules@, number@, unit@),
    {
        match UnitWithExponent::from_parts(rules, number, unit) {
            Ok(ue) => Ok(ue.quantity(number)),
            Err(e) => Err(e),
        }
    }

    /// The value that a literal such as `9.8m/s^2` writes.
    pub fn from_str(rules: &UnitRules, s: &str) -> (r: Result<Value<N>, ParseUnitError>)
        ensures
            r == literal_value::<N>(rules@, s@),
    {
        let len = s.unicode_len();
        let unit_index = first_word_start(s, len);
        Value::from_parts(rules, s.substring_char(0, unit_index), s.substring_char(unit_index, len))
    }
}

/// The negation of an `i32`, wrapped back into `i32`, cancels it.
proof fn wrap_cancels(x: i32)
    ensures
        wrap(x + wrap(-x)) == 0,
        wrap(x - x) == 0,
        wrap(x + 0) == x,
        wrap(0 + x) == x,
        wrap(x - 0) == x,
{
    wrap_in_range(x as int);
    if x == i32::MIN {
        assert((-x) % 0x1_0000_0000 == 0x8000_0000);
    } else {
        wrap_in_range(-x);
    }
}

/// Subtracting is adding the wrapped negation.
proof fn wrap_difference(a: i32, b: i32)
    ensures
        wrap(a - b) == wrap(a + wrap(-b)),
{
    if b == i32::MIN {
        assert((-b) % 0x1_0000_0000 == 0x8000_0000);
        assert(wrap(-b) == b);
        assert((a - b) % 0x1_0000_0000 == (a + b) % 0x1_0000_0000);
    } else {
        wrap_in_range(-b);
    }
}

impl Unit {
    /// The dimensionless unit is the identity of multiplication and of
    /// division: multiplying by it, from either side, and dividing by it
    /// leave every unit as it is.
    pub proof fn scalar_is_identity(self)
        ensures
            self.product(Unit::scalar()) == self,
            Unit::scalar().product(self) == self,
            self.quotient(Unit::scalar()) == self,
    {
        wrap_cancels(self.meter);
        wrap_cancels(self.kilogram);
        wrap_cancels(self.second);
        wrap_cancels(self.ampere);
        wrap_cancels(self.kelvin);
        wrap_cancels(self.mole);
        wrap_cancels(self.candela);
    }

    /// A unit divided by itself is dimensionless, and so is a unit
    /// multiplied by its inverse.
    pub proof fn divided_by_itself(self)
        ensures
            self.quotient(self) == Unit::scalar(),
            self.product(self.inverse()) == Unit::scalar(),
    {
        wrap_cancels(self.meter);
        wrap_cancels(self.kilogram);
        wrap_cancels(self.second);
        wrap_cancels(self.ampere);
        wrap_cancels(self.kelvin);
        wrap_cancels(self.mole);
        wrap_cancels(self.candela);
    }

    /// Dividing by a unit is multiplying by its inverse.
    pub proof fn quotient_is_product_with_inverse(self, other: Unit)
        ensures
            self.quotient(other) == self.product(other.inverse()),
    {
        wrap_difference(self.meter, other.meter);
        wrap_difference(self.kilogram, other.kilogram);
        wrap_difference(self.second, other.second);
        wrap_difference(self.ampere, other.ampere);
        wrap_difference(self.kelvin, other.kelvin);
        wrap_difference(self.mole, other.mole);
        wrap_difference(self.candela, other.candela);
    }
}

/// Whether every short symbol has one dimension: entries that share a
/// short symbol share their dimension.
pub open spec fn symbols_keep_their_dimension(table: Seq<UnitRecord>) -> bool {
    forall|i: int, j: int|
        0 <= i < j < table.len() && (#[trigger] table[i]).shorthand == (#[trigger] table[j]).shorthand
            ==> table[i].unit.unit == table[j].unit.unit
}

/// In a registry where every short symbol has one dimension, every
/// registered symbol comes back from its dimension: the symbol resolves to
/// the dimension registered under it, that dimension is registered under
/// some symbol, and that symbol resolves to the same dimension.
pub proof fn round_trip(table: Seq<UnitRecord>, i: int)
    requires
        0 <= i < table.len(),
        symbols_keep_their_dimension(table),
    ensures
        ({
            &&& resolve_symbol(table, table[i].shorthand) matches Some(found)
            &&& found.unit == table[i].unit.unit
            &&& find_unit(table, found.unit) matches Some(j)
            &&& 0 <= j < table.len()
            &&& resolve_symbol(table, table[j].shorthand) matches Some(back)
            &&& back.unit == found.unit
        }),
{
    find_shorthand_found(table, table[i].shorthand);
    let first = find_shorthand(table, table[i].shorthand)->0;
    assert(table[first].shorthand == table[i].shorthand);
    find_unit_found(table, table[first].unit.unit);
    let j = find_unit(table, table[first].unit.unit)->0;
    find_shorthand_found(table, table[j].shorthand);
    let last = find_shorthand(table, table[j].shorthand)->0;
    assert(table[last].shorthand == table[j].shorthand);
}

} // verus!
