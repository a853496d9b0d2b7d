use crate::render::{component_text, digit_char, int_text, nat_text};
use crate::si::Unit;
use crate::text::{all_digits, digits_end, digits_end_in_suffix, digits_value, is_digit};
use vstd::prelude::*;

verus! {

/// Whether the text `t` begins with the text `p`.
pub open spec fn begins_with(t: Seq<char>, p: Seq<char>) -> bool {
    p.len() <= t.len() && t.subrange(0, p.len() as int) == p
}

/// The integer at the start of `t`, an optional `-` and the digits behind
/// it, and the number of characters that write it.
pub open spec fn read_int(t: Seq<char>) -> (int, int) {
    let start = if t.len() > 0 && t[0] == '-' {
        1int
    } else {
        0int
    };
    let end = digits_end(t, start);
    let magnitude = digits_value(t.subrange(start, end)) as int;
    (
        if start == 1 {
            -magnitude
        } else {
            magnitude
        },
        end,
    )
}

/// The exponent that `t` gives for the dimension written `symbol`, and the
/// text behind it: where `t` begins with the symbol and `^`, the integer
/// that follows; otherwise zero, and all of `t` is left.
pub open spec fn read_component(symbol: Seq<char>, t: Seq<char>) -> (int, Seq<char>) {
    if begins_with(t, symbol.push('^')) {
        let body = t.subrange(symbol.len() as int + 1, t.len() as int);
        let (exponent, used) = read_int(body);
        (exponent, body.subrange(used, body.len() as int))
    } else {
        (0, t)
    }
}

/// The symbol under which the dimension `k` is rendered, in the order
/// meter, kilogram, second, ampere, kelvin, mole, candela.
pub open spec fn symbol(k: int) -> Seq<char> {
    if k == 0 {
        "m"@
    } else if k == 1 {
        "kg"@
    } else if k == 2 {
        "s"@
    } else if k == 3 {
        "a"@
    } else if k == 4 {
        "k"@
    } else if k == 5 {
        "mol"@
    } else {
        "cd"@
    }
}

/// The exponent of the dimension `k` of a unit.
pub open spec fn exponent(u: Unit, k: int) -> int {
    if k == 0 {
        u.meter as int
    } else if k == 1 {
        u.kilogram as int
    } else if k == 2 {
        u.second as int
    } else if k == 3 {
        u.ampere as int
    } else if k == 4 {
        u.kelvin as int
    } else if k == 5 {
        u.mole as int
    } else {
        u.candela as int
    }
}

/// The rendering of a unit from the dimension `k` on.
pub open spec fn tail(u: Unit, k: int) -> Seq<char>
    decreases 7 - k,
{
    if 0 <= k < 7 {
        component_text(symbol(k), exponent(u, k)) + tail(u, k + 1)
    } else {
        Seq::<char>::empty()
    }
}

/// The exponents that a text gives for the dimensions from `k` on, read
/// from left to right.
pub open spec fn read_from(t: Seq<char>, k: int) -> Seq<int>
    decreases 7 - k,
{
    if 0 <= k < 7 {
        let (value, rest) = read_component(symbol(k), t);
        seq![value] + read_from(rest, k + 1)
    } else {
        Seq::<int>::empty()
    }
}

/// The exponents of a unit from the dimension `k` on.
pub open spec fn exponents_from(u: Unit, k: int) -> Seq<int>
    decreases 7 - k,
{
    if 0 <= k < 7 {
        seq![exponent(u, k)] + exponents_from(u, k + 1)
    } else {
        Seq::<int>::empty()
    }
}

proof fn digit_chars(d: int)
    requires
        0 <= d < 10,
    ensures
        is_digit(digit_char(d)),
        digit_char(d) as u32 - '0' as u32 == d,
        digit_char(d) != '-',
{
}

/// The text of a natural number is a run of digits that writes it.
proof fn nat_text_reads(n: nat)
    ensures
        nat_text(n).len() >= 1,
        all_digits(nat_text(n)),
        digits_value(nat_text(n)) == n,
    decreases n,
{
    reveal_with_fuel(digits_value, 2);
    if n < 10 {
        digit_chars(n as int);
        let t = nat_text(n);
        assert(t.len() == 1 && t[0] == digit_char(n as int));
        assert(t.drop_last().len() == 0);
    } else {
        nat_text_reads(n / 10);
        digit_chars((n % 10) as int);
        let shorter = nat_text(n / 10);
        let t = shorter.push(digit_char((n % 10) as int));
        assert(t.drop_last() =~= shorter);
        assert(t.last() == digit_char((n % 10) as int));
        assert forall|k: int| 0 <= k < t.len() implies is_digit(#[trigger] t[k]) by {
            if k < shorter.len() {
                assert(t[k] == shorter[k]);
            }
        }
    }
}

/// A run of digits that something other than a digit follows ends where
/// that follows.
proof fn digits_run_ends(d: Seq<char>, rest: Seq<char>, i: int)
    requires
        all_digits(d),
        rest.len() == 0 || !is_digit(rest[0]),
        0 <= i <= d.len(),
    ensures
        digits_end(d + rest, i) == d.len(),
    decreases d.len() - i,
{
    let t = d + rest;
    if i < d.len() {
        assert(t[i] == d[i]);
        digits_run_ends(d, rest, i + 1);
    } else if rest.len() > 0 {
        assert(t[i] == rest[0]);
    }
}

/// The text of an integer, with something other than a digit behind it,
/// reads as that integer.
proof fn int_text_reads(i: int, rest: Seq<char>)
    requires
        rest.len() == 0 || !is_digit(rest[0]),
    ensures
        read_int(int_text(i) + rest) == (i, int_text(i).len() as int),
{
    let t = int_text(i) + rest;
    if i < 0 {
        let digits = nat_text((-i) as nat);
        nat_text_reads((-i) as nat);
        assert(int_text(i) =~= seq!['-'] + digits);
        assert(t[0] == '-');
        let behind = t.subrange(1, t.len() as int);
        assert(behind =~= digits + rest);
        digits_run_ends(digits, rest, 0);
        digits_end_in_suffix(t, 1, 0);
        assert(digits_end(t, 1) == 1 + digits.len());
        assert(t.subrange(1, 1 + digits.len() as int) =~= digits);
    } else {
        let digits = nat_text(i as nat);
        nat_text_reads(i as nat);
        assert(t[0] == digits[0]);
        assert(is_digit(digits[0]));
        digits_run_ends(digits, rest, 0);
        assert(t.subrange(0, digits.len() as int) =~= digits);
    }
}

/// What a text begins with, it holds character by character.
proof fn begins_with_at(t: Seq<char>, p: Seq<char>, i: int)
    requires
        begins_with(t, p),
        0 <= i < p.len(),
    ensures
        t[i] == p[i],
{
    assert(t.subrange(0, p.len() as int)[i] == t[i]);
}

/// A component reads back as its exponent and leaves what follows it,
/// where what follows begins with no digit and, behind an absent component,
/// not with the component's own symbol and `^`.
proof fn component_reads(sym: Seq<char>, e: int, rest: Seq<char>)
    requires
        rest.len() == 0 || !is_digit(rest[0]),
        e == 0 ==> !begins_with(rest, sym.push('^')),
    ensures
        read_component(sym, component_text(sym, e) + rest) == (e, rest),
{
    let t = component_text(sym, e) + rest;
    if e == 0 {
        assert(t =~= rest);
    } else {
        let head = sym.push('^');
        assert(t =~= head + (int_text(e) + rest));
        assert(t.subrange(0, head.len() as int) =~= head);
        let body = t.subrange(sym.len() as int + 1, t.len() as int);
        assert(body =~= int_text(e) + rest);
        int_text_reads(e, rest);
        assert(body.subrange(int_text(e).len() as int, body.len() as int) =~= rest);
    }
}

/// What the symbols are, character by character.
proof fn symbols()
    ensures
        symbol(0) == seq!['m'],
        symbol(1) == seq!['k', 'g'],
        symbol(2) == seq!['s'],
        symbol(3) == seq!['a'],
        symbol(4) == seq!['k'],
        symbol(5) == seq!['m', 'o', 'l'],
        symbol(6) == seq!['c', 'd'],
{
    reveal_strlit("m");
    reveal_strlit("kg");
    reveal_strlit("s");
    reveal_strlit("a");
    reveal_strlit("k");
    reveal_strlit("mol");
    reveal_strlit("cd");
    assert(symbol(0) =~= seq!['m']);
    assert(symbol(1) =~= seq!['k', 'g']);
    assert(symbol(2) =~= seq!['s']);
    assert(symbol(3) =~= seq!['a']);
    assert(symbol(4) =~= seq!['k']);
    assert(symbol(5) =~= seq!['m', 'o', 'l']);
    assert(symbol(6) =~= seq!['c', 'd']);
}

/// No text begins with the symbols of two dimensions, each with its `^`.
proof fn symbols_clash(t: Seq<char>, k: int, j: int)
    requires
        0 <= k < j < 7,
        begins_with(t, symbol(j).push('^')),
    ensures
        !begins_with(t, symbol(k).push('^')),
        !is_digit(t[0]),
{
    symbols();
    let later = symbol(j).push('^');
    let earlier = symbol(k).push('^');
    begins_with_at(t, later, 0);
    begins_with_at(t, later, 1);
    if begins_with(t, earlier) {
        begins_with_at(t, earlier, 0);
        begins_with_at(t, earlier, 1);
    }
}

/// The first dimension at or behind `k` whose exponent is not zero, or 7.
pub open spec fn first_present(u: Unit, k: int) -> int
    decreases 7 - k,
{
    if 0 <= k < 7 && exponent(u, k) == 0 {
        first_present(u, k + 1)
    } else {
        k
    }
}

/// The rendering from `k` on is empty or begins with the symbol of a
/// dimension at or behind `k` and `^`.
proof fn tail_begins(u: Unit, k: int)
    requires
        0 <= k <= 7,
    ensures
        k <= first_present(u, k) <= 7,
        first_present(u, k) == 7 ==> tail(u, k).len() == 0,
        first_present(u, k) < 7 ==> begins_with(
            tail(u, k),
            symbol(first_present(u, k)).push('^'),
        ),
    decreases 7 - k,
{
    if k < 7 {
        if exponent(u, k) == 0 {
            tail_begins(u, k + 1);
            assert(tail(u, k) =~= tail(u, k + 1));
        } else {
            let head = symbol(k).push('^');
            assert(tail(u, k) =~= head + (int_text(exponent(u, k)) + tail(u, k + 1)));
            assert(tail(u, k).subrange(0, head.len() as int) =~= head);
        }
    }
}

/// The rendering of a unit from the dimension `k` on reads back as the
/// exponents of the unit from `k` on.
proof fn tail_reads(u: Unit, k: int)
    requires
        0 <= k <= 7,
    ensures
        read_from(tail(u, k), k) == exponents_from(u, k),
    decreases 7 - k,
{
    if k < 7 {
        let rest = tail(u, k + 1);
        tail_begins(u, k + 1);
        let j = first_present(u, k + 1);
        if j < 7 {
            symbols_clash(rest, k, j);
        }
        component_reads(symbol(k), exponent(u, k), rest);
        tail_reads(u, k + 1);
    }
}

/// Joining texts does not depend on how the joins are grouped.
proof fn joins_regroup(x: Seq<char>, y: Seq<char>, z: Seq<char>)
    ensures
        (x + y) + z == x + (y + z),
{
    assert((x + y) + z =~= x + (y + z));
}

/// The rendering of a unit is its seven components in order.
proof fn rendering_is_tail(u: Unit)
    ensures
        u.rendering() == tail(u, 0),
{
    let c0 = component_text(symbol(0), exponent(u, 0));
    let c1 = component_text(symbol(1), exponent(u, 1));
    let c2 = component_text(symbol(2), exponent(u, 2));
    let c3 = component_text(symbol(3), exponent(u, 3));
    let c4 = component_text(symbol(4), exponent(u, 4));
    let c5 = component_text(symbol(5), exponent(u, 5));
    let c6 = component_text(symbol(6), exponent(u, 6));
    assert(tail(u, 7) == Seq::<char>::empty());
    assert(tail(u, 6) == c6 + tail(u, 7));
    assert(tail(u, 6) =~= c6);
    assert(tail(u, 5) == c5 + tail(u, 6));
    assert(tail(u, 4) == c4 + tail(u, 5));
    assert(tail(u, 3) == c3 + tail(u, 4));
    assert(tail(u, 2) == c2 + tail(u, 3));
    assert(tail(u, 1) == c1 + tail(u, 2));
    assert(tail(u, 0) == c0 + tail(u, 1));
    let p1 = c0 + c1;
    let p2 = p1 + c2;
    let p3 = p2 + c3;
    let p4 = p3 + c4;
    let p5 = p4 + c5;
    assert(u.rendering() == p5 + c6);
    joins_regroup(p4, c5, c6);
    joins_regroup(p3, c4, tail(u, 5));
    joins_regroup(p2, c3, tail(u, 4));
    joins_regroup(p1, c2, tail(u, 3));
    joins_regroup(c0, c1, tail(u, 2));
}

/// Different units render differently: the text of a unit stands for that
/// unit and for no other.
pub proof fn rendering_tells_units_apart(a: Unit, b: Unit)
    requires
        a.rendering() == b.rendering(),
    ensures
        a == b,
{
    rendering_is_tail(a);
    rendering_is_tail(b);
    tail_reads(a, 0);
    tail_reads(b, 0);
    reveal_with_fuel(exponents_from, 8);
    let ea = exponents_from(a, 0);
    let eb = exponents_from(b, 0);
    assert(ea == eb);
    assert(ea[0] == exponent(a, 0) && eb[0] == exponent(b, 0));
    assert(ea[1] == exponent(a, 1) && eb[1] == exponent(b, 1));
    assert(ea[2] == exponent(a, 2) && eb[2] == exponent(b, 2));
    assert(ea[3] == exponent(a, 3) && eb[3] == exponent(b, 3));
    assert(ea[4] == exponent(a, 4) && eb[4] == exponent(b, 4));
    assert(ea[5] == exponent(a, 5) && eb[5] == exponent(b, 5));
    assert(ea[6] == exponent(a, 6) && eb[6] == exponent(b, 6));
}

} // verus!
