use crate::si::{
    caret_position, find_shorthand, find_shorthand_found, find_unit, resolve_symbol, round_trip,
    segment_end, segment_value, unit_expression, unit_expression_from, ParseUnitError, Unit,
    UnitRecord, UnitRules, UnitWithExponent,
};
use crate::reading::rendering_tells_units_apart;
use crate::text::{all_digits, digits_value, integer_value};
use vstd::prelude::*;

verus! {

/// The unit with the given exponents, in the order meter, kilogram,
/// second, ampere, kelvin, mole, candela.
pub open spec fn unit_of(m: i32, kg: i32, s: i32, a: i32, k: i32, mol: i32, cd: i32) -> Unit {
    Unit { meter: m, kilogram: kg, second: s, ampere: a, kelvin: k, mole: mol, candela: cd }
}

/// The built-in units in the order of their registration: the
/// dimensionless unit and the seven base units, then the derived units,
/// each defined over those before it.
pub open spec fn builtin_record(i: int) -> UnitRecord {
    if i == 0 {
        UnitRecord {
            longhand: "scalar"@,
            shorthand: "_"@,
            unit: UnitWithExponent { unit: unit_of(0, 0, 0, 0, 0, 0, 0), power10: 0 },
        }
    } else if i == 1 {
        UnitRecord {
            longhand: "meter"@,
            shorthand: "m"@,
            unit: UnitWithExponent { unit: unit_of(1, 0, 0, 0, 0, 0, 0), power10: 0 },
        }
    } else if i == 2 {
        UnitRecord {
            longhand: "kilogram"@,
            shorthand: "kg"@,
            unit: UnitWithExponent { unit: unit_of(0, 1, 0, 0, 0, 0, 0), power10: 0 },
        }
    } else if i == 3 {
        UnitRecord {
            longhand: "second"@,
            shorthand: "s"@,
            unit: UnitWithExponent { unit: unit_of(0, 0, 1, 0, 0, 0, 0), power10: 0 },
        }
    } else if i == 4 {
        UnitRecord {
            longhand: "ampere"@,
            shorthand: "a"@,
            unit: UnitWithExponent { unit: unit_of(0, 0, 0, 1, 0, 0, 0), power10: 0 },
        }
    } else if i == 5 {
        UnitRecord {
            longhand: "kelvin"@,
            shorthand: "k"@,
            unit: UnitWithExponent { unit: unit_of(0, 0, 0, 0, 1, 0, 0), power10: 0 },
        }
    } else if i == 6 {
        UnitRecord {
            longhand: "mole"@,
            shorthand: "mol"@,
            unit: UnitWithExponent { unit: unit_of(0, 0, 0, 0, 0, 1, 0), power10: 0 },
        }
    } else if i == 7 {
        UnitRecord {
            longhand: "candela"@,
            shorthand: "cd"@,
            unit: UnitWithExponent { unit: unit_of(0, 0, 0, 0, 0, 0, 1), power10: 0 },
        }
    } else if i == 8 {
        UnitRecord {
            longhand: "gram"@,
            shorthand: "g"@,
            unit: UnitWithExponent { unit: unit_of(0, 1, 0, 0, 0, 0, 0), power10: -3i32 },
        }
    } else if i == 9 {
        UnitRecord {
            longhand: "newton"@,
            shorthand: "n"@,
            unit: UnitWithExponent { unit: unit_of(1, 1, -2i32, 0, 0, 0, 0), power10: 0 },
        }
    } else if i == 10 {
        UnitRecord {
            longhand: "joule"@,
            shorthand: "j"@,
            unit: UnitWithExponent { unit: unit_of(2, 1, -2i32, 0, 0, 0, 0), power10: 0 },
        }
    } else if i == 11 {
        UnitRecord {
            longhand: "watt"@,
            shorthand: "w"@,
            unit: UnitWithExponent { unit: unit_of(2, 1, -3i32, 0, 0, 0, 0), power10: 0 },
        }
    } else {
        UnitRecord {
            longhand: "volt"@,
            shorthand: "v"@,
            unit: UnitWithExponent { unit: unit_of(2, 1, -3i32, -1i32, 0, 0, 0), power10: 0 },
        }
    }
}

/// The first `count` built-in units.
pub open spec fn builtin_prefix(count: int) -> Seq<UnitRecord> {
    Seq::new(count as nat, |i: int| builtin_record(i))
}

/// The table of the built-in units.
pub open spec fn builtin() -> Seq<UnitRecord> {
    builtin_prefix(13)
}

/// The length and the first character of a text; texts that differ in
/// either are different texts.
spec fn signature(t: Seq<char>) -> (nat, char) {
    (t.len(), t[0])
}

/// What the short symbols of the built-in units are, character by
/// character.
proof fn builtin_symbols()
    ensures
        signature(builtin_record(0).shorthand) == (1nat, '_'),
        signature(builtin_record(1).shorthand) == (1nat, 'm'),
        signature(builtin_record(2).shorthand) == (2nat, 'k'),
        builtin_record(2).shorthand[1] == 'g',
        signature(builtin_record(3).shorthand) == (1nat, 's'),
        signature(builtin_record(4).shorthand) == (1nat, 'a'),
        signature(builtin_record(5).shorthand) == (1nat, 'k'),
        signature(builtin_record(6).shorthand) == (3nat, 'm'),
        builtin_record(6).shorthand[1] == 'o',
        signature(builtin_record(7).shorthand) == (2nat, 'c'),
        signature(builtin_record(8).shorthand) == (1nat, 'g'),
        signature(builtin_record(9).shorthand) == (1nat, 'n'),
        signature(builtin_record(10).shorthand) == (1nat, 'j'),
        signature(builtin_record(11).shorthand) == (1nat, 'w'),
        signature(builtin_record(12).shorthand) == (1nat, 'v'),
{
    reveal_strlit("_");
    reveal_strlit("m");
    reveal_strlit("kg");
    reveal_strlit("s");
    reveal_strlit("a");
    reveal_strlit("k");
    reveal_strlit("mol");
    reveal_strlit("cd");
    reveal_strlit("g");
    reveal_strlit("n");
    reveal_strlit("j");
    reveal_strlit("w");
    reveal_strlit("v");
}

/// No two built-in units share a short symbol.
pub proof fn builtin_symbols_differ(i: int, j: int)
    requires
        0 <= i < 13,
        0 <= j < 13,
        i != j,
    ensures
        builtin_record(i).shorthand != builtin_record(j).shorthand,
{
    builtin_symbols();
    assert(signature(builtin_record(i).shorthand) != signature(builtin_record(j).shorthand));
}

/// Among the first `count` built-in units, the short symbol of the unit
/// `i` finds the unit `i`.
pub proof fn builtin_lookup(count: int, i: int)
    requires
        0 <= i < count <= 13,
    ensures
        find_shorthand(builtin_prefix(count), builtin_record(i).shorthand) == Some(i),
{
    let table = builtin_prefix(count);
    let symbol = builtin_record(i).shorthand;
    find_shorthand_found(table, symbol);
    assert(table[i].shorthand == symbol);
    match find_shorthand(table, symbol) {
        Some(k) => {
            if k != i {
                builtin_symbols_differ(i, k);
                assert(table[k].shorthand == builtin_record(k).shorthand);
            }
        },
        None => {},
    }
}

/// A symbol that none of the first `count` built-in units has finds
/// nothing among them.
proof fn builtin_lookup_fails(count: int, symbol: Seq<char>)
    requires
        0 <= count <= 13,
        forall|i: int| 0 <= i < count ==> (#[trigger] builtin_record(i)).shorthand != symbol,
    ensures
        find_shorthand(builtin_prefix(count), symbol) is None,
{
    let table = builtin_prefix(count);
    find_shorthand_found(table, symbol);
    match find_shorthand(table, symbol) {
        Some(k) => {
            assert(table[k].shorthand == builtin_record(k).shorthand);
        },
        None => {},
    }
}

/// A segment of one character that is the short symbol of the built-in
/// unit `i` means that unit.
proof fn letter_segment(count: int, s: Seq<char>, pos: int, i: int)
    requires
        0 <= i < count <= 13,
        0 <= pos < s.len(),
        builtin_record(i).shorthand.len() == 1,
        s[pos] == builtin_record(i).shorthand[0],
        s[pos] != '^',
        segment_end(s, pos) == pos + 1,
    ensures
        segment_value(builtin_prefix(count), s, pos, pos + 1) == Ok::<
            UnitWithExponent,
            ParseUnitError,
        >(builtin_record(i).unit),
{
    reveal_with_fuel(caret_position, 2);
    assert(s.subrange(pos, pos + 1) =~= builtin_record(i).shorthand);
    builtin_lookup(count, i);
}

/// `mkg`, a thousandth of a kilogram, is what `gram` is registered as.
proof fn gram_rule()
    ensures
        unit_expression(builtin_prefix(8), "mkg"@) == Ok::<
            UnitWithExponent,
            ParseUnitError,
        >(builtin_record(8).unit),
{
    builtin_symbols();
    reveal_strlit("mkg");
    let s = "mkg"@;
    let table = builtin_prefix(8);
    reveal_with_fuel(segment_end, 4);
    reveal_with_fuel(caret_position, 4);
    assert(segment_end(s, 0) == 3);
    assert(caret_position(s, 0, 3) == 3);
    let whole = s.subrange(0, 3);
    assert(whole.len() == 3 && whole[0] == 'm' && whole[1] == 'k');
    builtin_lookup_fails(8, whole);
    let rest = whole.subrange(1, 3);
    assert(rest =~= builtin_record(2).shorthand);
    builtin_lookup(8, 2);
    assert(resolve_symbol(table, whole) == Some(builtin_record(8).unit));
}

/// The first segment of `kg*m/s^2` is the kilogram.
proof fn newton_first_segment()
    ensures
        segment_end("kg*m/s^2"@, 0) == 2,
        segment_value(builtin_prefix(9), "kg*m/s^2"@, 0, 2) == Ok::<
            UnitWithExponent,
            ParseUnitError,
        >(builtin_record(2).unit),
{
    builtin_symbols();
    reveal_strlit("kg*m/s^2");
    let s = "kg*m/s^2"@;
    reveal_with_fuel(segment_end, 3);
    reveal_with_fuel(caret_position, 3);
    assert(caret_position(s, 0, 2) == 2);
    assert(s.subrange(0, 2) =~= builtin_record(2).shorthand);
    builtin_lookup(9, 2);
}

/// The second segment of `kg*m/s^2` is the meter.
proof fn newton_second_segment()
    ensures
        segment_end("kg*m/s^2"@, 3) == 4,
        segment_value(builtin_prefix(9), "kg*m/s^2"@, 3, 4) == Ok::<
            UnitWithExponent,
            ParseUnitError,
        >(builtin_record(1).unit),
{
    builtin_symbols();
    reveal_strlit("kg*m/s^2");
    reveal_with_fuel(segment_end, 2);
    letter_segment(9, "kg*m/s^2"@, 3, 1);
}

/// The third segment of `kg*m/s^2` is the second, squared.
proof fn newton_third_segment()
    ensures
        segment_end("kg*m/s^2"@, 5) == 8,
        segment_value(builtin_prefix(9), "kg*m/s^2"@, 5, 8) == Ok::<
            UnitWithExponent,
            ParseUnitError,
        >(builtin_record(3).unit.raised(2)),
{
    builtin_symbols();
    reveal_strlit("kg*m/s^2");
    let s = "kg*m/s^2"@;
    assert(segment_end(s, 5) == 8) by {
        reveal_with_fuel(segment_end, 4);
    }
    assert(caret_position(s, 5, 8) == 6) by {
        reveal_with_fuel(caret_position, 2);
    }
    let exponent = s.subrange(7, 8);
    assert(integer_value(exponent) == Some(2int)) by {
        reveal_with_fuel(digits_value, 2);
        assert(exponent.len() == 1 && exponent[0] == '2');
        assert(all_digits(exponent));
        assert(exponent.drop_last().len() == 0);
        assert(digits_value(exponent) == 2);
    }
    assert(s.subrange(5, 6) =~= builtin_record(3).shorthand);
    builtin_lookup(9, 3);
}

/// `kg*m/s^2` is what `newton` is registered as.
proof fn newton_rule()
    ensures
        unit_expression(builtin_prefix(9), "kg*m/s^2"@) == Ok::<
            UnitWithExponent,
            ParseUnitError,
        >(builtin_record(9).unit),
{
    newton_first_segment();
    newton_second_segment();
    newton_third_segment();
    reveal_strlit("kg*m/s^2");
    let s = "kg*m/s^2"@;
    let table = builtin_prefix(9);
    let first = UnitWithExponent::scalar().times(builtin_record(2).unit);
    let next = first.times(builtin_record(1).unit);
    let last = next.over(builtin_record(3).unit.raised(2));
    assert(last == builtin_record(9).unit);
    assert(unit_expression_from(table, s, 5, next, true) == Ok::<
        UnitWithExponent,
        ParseUnitError,
    >(last));
    assert(unit_expression_from(table, s, 3, first, false) == unit_expression_from(
        table,
        s,
        5,
        next,
        true,
    ));
}

/// A rule of two letters joined by `*` or `/` means the product or the
/// quotient of the two built-in units that the letters name.
proof fn two_letter_rule(count: int, s: Seq<char>, i: int, j: int)
    requires
        0 <= i < count <= 13,
        0 <= j < count,
        s.len() == 3,
        builtin_record(i).shorthand.len() == 1,
        builtin_record(j).shorthand.len() == 1,
        s[0] == builtin_record(i).shorthand[0],
        s[2] == builtin_record(j).shorthand[0],
        s[0] != '^' && s[0] != '*' && s[0] != '/',
        s[2] != '^' && s[2] != '*' && s[2] != '/',
        s[1] == '*' || s[1] == '/',
    ensures
        unit_expression(builtin_prefix(count), s) == Ok::<
            UnitWithExponent,
            ParseUnitError,
        >(
            if s[1] == '/' {
                UnitWithExponent::scalar().times(builtin_record(i).unit).over(
                    builtin_record(j).unit,
                )
            } else {
                UnitWithExponent::scalar().times(builtin_record(i).unit).times(
                    builtin_record(j).unit,
                )
            },
        ),
{
    let table = builtin_prefix(count);
    reveal_with_fuel(segment_end, 3);
    reveal_with_fuel(unit_expression_from, 3);
    assert(segment_end(s, 0) == 1);
    letter_segment(count, s, 0, i);
    assert(segment_end(s, 2) == 3);
    letter_segment(count, s, 2, j);
}

/// `n*m` is what `joule` is registered as.
proof fn joule_rule()
    ensures
        unit_expression(builtin_prefix(10), "n*m"@) == Ok::<UnitWithExponent, ParseUnitError>(
            builtin_record(10).unit,
        ),
{
    builtin_symbols();
    reveal_strlit("n*m");
    two_letter_rule(10, "n*m"@, 9, 1);
    assert(UnitWithExponent::scalar().times(builtin_record(9).unit).times(builtin_record(1).unit)
        == builtin_record(10).unit);
}

/// `j/s` is what `watt` is registered as.
proof fn watt_rule()
    ensures
        unit_expression(builtin_prefix(11), "j/s"@) == Ok::<UnitWithExponent, ParseUnitError>(
            builtin_record(11).unit,
        ),
{
    builtin_symbols();
    reveal_strlit("j/s");
    two_letter_rule(11, "j/s"@, 10, 3);
    assert(UnitWithExponent::scalar().times(builtin_record(10).unit).over(builtin_record(3).unit)
        == builtin_record(11).unit);
}

/// `w/a` is what `volt` is registered as.
proof fn volt_rule()
    ensures
        unit_expression(builtin_prefix(12), "w/a"@) == Ok::<UnitWithExponent, ParseUnitError>(
            builtin_record(12).unit,
        ),
{
    builtin_symbols();
    reveal_strlit("w/a");
    two_letter_rule(12, "w/a"@, 11, 4);
    assert(UnitWithExponent::scalar().times(builtin_record(11).unit).over(builtin_record(4).unit)
        == builtin_record(12).unit);
}

/// The rules of the derived units mean what the units are registered as.
proof fn derived_rules()
    ensures
        unit_expression(builtin_prefix(8), "mkg"@) is Ok,
        unit_expression(builtin_prefix(8), "mkg"@)->Ok_0 == builtin_record(8).unit,
        unit_expression(builtin_prefix(9), "kg*m/s^2"@) is Ok,
        unit_expression(builtin_prefix(9), "kg*m/s^2"@)->Ok_0 == builtin_record(9).unit,
        unit_expression(builtin_prefix(10), "n*m"@) is Ok,
        unit_expression(builtin_prefix(10), "n*m"@)->Ok_0 == builtin_record(10).unit,
        unit_expression(builtin_prefix(11), "j/s"@) is Ok,
        unit_expression(builtin_prefix(11), "j/s"@)->Ok_0 == builtin_record(11).unit,
        unit_expression(builtin_prefix(12), "w/a"@) is Ok,
        unit_expression(builtin_prefix(12), "w/a"@)->Ok_0 == builtin_record(12).unit,
{
    gram_rule();
    newton_rule();
    joule_rule();
    watt_rule();
    volt_rule();
}

impl Default for UnitRules {
    /// The registry of the built-in units.
    fn default() -> (r: UnitRules)
        ensures
            r@ == builtin(),
    {
        let mut r = UnitRules::new();
        let scalar = Unit::dimensionless();
        r.new_unit("scalar", "_", scalar);
        r.new_unit("meter", "m", Unit { meter: 1, ..scalar });
        r.new_unit("kilogram", "kg", Unit { kilogram: 1, ..scalar });
        r.new_unit("second", "s", Unit { second: 1, ..scalar });
        r.new_unit("ampere", "a", Unit { ampere: 1, ..scalar });
        r.new_unit("kelvin", "k", Unit { kelvin: 1, ..scalar });
        r.new_unit("mole", "mol", Unit { mole: 1, ..scalar });
        r.new_unit("candela", "cd", Unit { candela: 1, ..scalar });
        proof {
            derived_rules();
            assert(r@ =~= builtin_prefix(8));
        }
        r.new_unit_rule("gram", "g", "mkg");
        assert(r@ =~= builtin_prefix(9));
        r.new_unit_rule("newton", "n", "kg*m/s^2");
        assert(r@ =~= builtin_prefix(10));
        r.new_unit_rule("joule", "j", "n*m");
        assert(r@ =~= builtin_prefix(11));
        r.new_unit_rule("watt", "w", "j/s");
        assert(r@ =~= builtin_prefix(12));
        r.new_unit_rule("volt", "v", "w/a");
        assert(r@ =~= builtin_prefix(13));
        r
    }
}

/// Every built-in symbol comes back from its dimension: it resolves to the
/// unit registered under it, and the symbol that the table holds for that
/// unit's dimension resolves to the same dimension.
pub proof fn builtin_round_trip(i: int)
    requires
        0 <= i < 13,
    ensures
        resolve_symbol(builtin(), builtin_record(i).shorthand) == Some(builtin_record(i).unit),
        ({
            &&& find_unit(builtin(), builtin_record(i).unit.unit) matches Some(j)
            &&& 0 <= j < 13
            &&& resolve_symbol(builtin(), builtin_record(j).shorthand) matches Some(back)
            &&& back.unit == builtin_record(i).unit.unit
        }),
{
    let table = builtin();
    assert forall|a: int, b: int|
        0 <= a < b < table.len() && (#[trigger] table[a]).shorthand == (
        #[trigger] table[b]).shorthand implies table[a].unit.unit == table[b].unit.unit by {
        builtin_symbols_differ(a, b);
    }
    round_trip(table, i);
    builtin_lookup(13, i);
    assert(table[i] == builtin_record(i));
}

/// Every built-in symbol comes back from the text of its dimension: the
/// text stands for one dimension only, the table holds a symbol for that
/// dimension, and the symbol resolves to the same dimension.
pub proof fn builtin_text_round_trip(i: int, read: Unit)
    requires
        0 <= i < 13,
        read.rendering() == builtin_record(i).unit.unit.rendering(),
    ensures
        ({
            &&& read == builtin_record(i).unit.unit
            &&& find_unit(builtin(), read) matches Some(j)
            &&& 0 <= j < 13
            &&& resolve_symbol(builtin(), builtin_record(j).shorthand) matches Some(back)
            &&& back.unit == read
        }),
{
    rendering_tells_units_apart(read, builtin_record(i).unit.unit);
    builtin_round_trip(i);
}

} // verus!
