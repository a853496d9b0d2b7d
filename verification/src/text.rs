use vstd::prelude::*;
use vstd::string::StrSliceExecFns;

verus! {

/// A decimal digit, `0` to `9`.
pub open spec fn is_digit(c: char) -> bool {
    '0' <= c && c <= '9'
}

/// A letter of the ASCII alphabet.
pub open spec fn is_alpha(c: char) -> bool {
    ('a' <= c && c <= 'z') || ('A' <= c && c <= 'Z')
}

/// A character that may begin a word: a letter or `_`.
pub open spec fn is_word_start(c: char) -> bool {
    is_alpha(c) || c == '_'
}

/// A character that may continue a word: a letter, a digit or `_`.
pub open spec fn is_word_char(c: char) -> bool {
    is_alpha(c) || is_digit(c) || c == '_'
}

/// Whether `c` is a decimal digit.
pub fn digit(c: char) -> (r: bool)
    ensures
        r == is_digit(c),
{
    '0' <= c && c <= '9'
}

/// Whether `c` may begin a word.
pub fn word_start(c: char) -> (r: bool)
    ensures
        r == is_word_start(c),
{
    ('a' <= c && c <= 'z') || ('A' <= c && c <= 'Z') || c == '_'
}

/// Whether `c` may continue a word.
pub fn word_char(c: char) -> (r: bool)
    ensures
        r == is_word_char(c),
{
    word_start(c) || digit(c)
}

/// The end of the run of digits that begins at `i`: the first index at or
/// after `i` that holds no digit.
pub open spec fn digits_end(s: Seq<char>, i: int) -> int
    decreases s.len() - i,
{
    if 0 <= i < s.len() && is_digit(s[i]) {
        digits_end(s, i + 1)
    } else {
        i
    }
}

/// The end of the run of word characters that begins at `i`.
pub open spec fn word_end(s: Seq<char>, i: int) -> int
    decreases s.len() - i,
{
    if 0 <= i < s.len() && is_word_char(s[i]) {
        word_end(s, i + 1)
    } else {
        i
    }
}

/// The end of the run of spaces that begins at `i`.
pub open spec fn spaces_end(s: Seq<char>, i: int) -> int
    decreases s.len() - i,
{
    if 0 <= i < s.len() && s[i] == ' ' {
        spaces_end(s, i + 1)
    } else {
        i
    }
}

/// A run of digits ends inside the text and holds digits only.
pub proof fn digits_end_bounds(s: Seq<char>, i: int)
    requires
        0 <= i <= s.len(),
    ensures
        i <= digits_end(s, i) <= s.len(),
        forall|k: int| i <= k < digits_end(s, i) ==> is_digit(#[trigger] s[k]),
    decreases s.len() - i,
{
    if i < s.len() && is_digit(s[i]) {
        digits_end_bounds(s, i + 1);
    }
}

/// A run of word characters ends inside the text and holds word characters
/// only.
pub proof fn word_end_bounds(s: Seq<char>, i: int)
    requires
        0 <= i <= s.len(),
    ensures
        i <= word_end(s, i) <= s.len(),
        forall|k: int| i <= k < word_end(s, i) ==> is_word_char(#[trigger] s[k]),
    decreases s.len() - i,
{
    if i < s.len() && is_word_char(s[i]) {
        word_end_bounds(s, i + 1);
    }
}

/// A run of spaces ends inside the text.
pub proof fn spaces_end_bounds(s: Seq<char>, i: int)
    requires
        0 <= i <= s.len(),
    ensures
        i <= spaces_end(s, i) <= s.len(),
    decreases s.len() - i,
{
    if i < s.len() && s[i] == ' ' {
        spaces_end_bounds(s, i + 1);
    }
}

/// Walks over the digits that begin at `from`.
pub fn scan_digits(s: &str, len: usize, from: usize) -> (end: usize)
    requires
        len == s@.len(),
        from <= len,
    ensures
        end == digits_end(s@, from as int),
        from <= end <= len,
{
    let mut i: usize = from;
    proof {
        digits_end_bounds(s@, from as int);
    }
    while i < len && digit(s.get_char(i))
        invariant
            len == s@.len(),
            from <= i <= len,
            digits_end(s@, from as int) == digits_end(s@, i as int),
        decreases len - i,
    {
        i = i + 1;
    }
    i
}

/// Walks over the word characters that begin at `from`.
pub fn scan_word(s: &str, len: usize, from: usize) -> (end: usize)
    requires
        len == s@.len(),
        from <= len,
    ensures
        end == word_end(s@, from as int),
        from <= end <= len,
{
    let mut i: usize = from;
    while i < len && word_char(s.get_char(i))
        invariant
            len == s@.len(),
            from <= i <= len,
            word_end(s@, from as int) == word_end(s@, i as int),
        decreases len - i,
    {
        i = i + 1;
    }
    i
}

/// Walks over the spaces that begin at `from`.
pub fn scan_spaces(s: &str, len: usize, from: usize) -> (end: usize)
    requires
        len == s@.len(),
        from <= len,
    ensures
        end == spaces_end(s@, from as int),
        from <= end <= len,
{
    let mut i: usize = from;
    while i < len && s.get_char(i) == ' '
        invariant
            len == s@.len(),
            from <= i <= len,
            spaces_end(s@, from as int) == spaces_end(s@, i as int),
        decreases len - i,
    {
        i = i + 1;
    }
    i
}

/// Whether two strings hold the same characters.
pub fn same_text(a: &str, b: &str) -> (r: bool)
    ensures
        r == (a@ == b@),
{
    let n = a.unicode_len();
    if n != b.unicode_len() {
        return false;
    }
    let mut i: usize = 0;
    while i < n
        invariant
            n == a@.len(),
            n == b@.len(),
            i <= n,
            forall|k: int| 0 <= k < i ==> a@[k] == b@[k],
        decreases n - i,
    {
        if a.get_char(i) != b.get_char(i) {
            return false;
        }
        i = i + 1;
    }
    assert(a@ =~= b@);
    true
}

/// Whether every character of `t` is a digit.
pub open spec fn all_digits(t: Seq<char>) -> bool {
    forall|k: int| 0 <= k < t.len() ==> is_digit(#[trigger] t[k])
}

/// The number that a run of digits writes in base ten; the empty run is 0.
pub open spec fn digits_value(t: Seq<char>) -> nat
    decreases t.len(),
{
    if t.len() == 0 {
        0
    } else {
        (digits_value(t.drop_last()) * 10 + (t.last() as u32 - '0' as u32)) as nat
    }
}

/// The integer that `t` writes: an optional sign, `+` or `-`, and then one
/// or more digits and nothing else. `None` for any other text.
pub open spec fn integer_value(t: Seq<char>) -> Option<int> {
    if t.len() > 0 && (t[0] == '-' || t[0] == '+') {
        let d = t.subrange(1, t.len() as int);
        if d.len() > 0 && all_digits(d) {
            Some(
                if t[0] == '-' {
                    -(digits_value(d) as int)
                } else {
                    digits_value(d) as int
                },
            )
        } else {
            None
        }
    } else if t.len() > 0 && all_digits(t) {
        Some(digits_value(t) as int)
    } else {
        None
    }
}

/// Reads the digits of `s` between `from` and `to` as a number. The
/// result is `None` where a character is no digit, the run is empty, or the
/// number is above `limit`.
fn parse_digits(s: &str, from: usize, to: usize, limit: u64) -> (r: Option<u64>)
    requires
        from <= to <= s@.len(),
    ensures
        r is Some <==> from < to && all_digits(s@.subrange(from as int, to as int))
            && digits_value(s@.subrange(from as int, to as int)) <= limit,
        r is Some ==> r->0 == digits_value(s@.subrange(from as int, to as int)),
{
    if from == to {
        return None;
    }
    let ghost t = s@.subrange(from as int, to as int);
    let mut acc: u64 = 0;
    let mut over: bool = false;
    let mut i: usize = from;
    while i < to
        invariant
            from <= i <= to <= s@.len(),
            t == s@.subrange(from as int, to as int),
            all_digits(t.subrange(0, i - from)),
            !over ==> acc == digits_value(t.subrange(0, i - from)) && acc <= limit,
            over ==> digits_value(t.subrange(0, i - from)) > limit,
        decreases to - i,
    {
        let c = s.get_char(i);
        if !digit(c) {
            assert(!is_digit(t[i - from]));
            return None;
        }
        let d: u64 = (c as u32 - '0' as u32) as u64;
        proof {
            let longer = t.subrange(0, i - from + 1);
            assert(longer.drop_last() =~= t.subrange(0, i - from));
            assert(longer.last() == c);
            assert forall|k: int| 0 <= k < longer.len() implies is_digit(#[trigger] longer[k]) by {
                if k < i - from {
                    assert(longer[k] == t.subrange(0, i - from)[k]);
                }
            }
        }
        if !over {
            if limit < d || acc > (limit - d) / 10 {
                over = true;
            } else {
                acc = acc * 10 + d;
            }
        }
        i = i + 1;
    }
    proof {
        assert(t.subrange(0, to - from) =~= t);
    }
    if over {
        None
    } else {
        Some(acc)
    }
}

/// Reads the characters of `s` between `from` and `to` as a signed decimal
/// integer that fits in 64 bits.
pub fn parse_integer(s: &str, from: usize, to: usize) -> (r: Option<i64>)
    requires
        from <= to <= s@.len(),
    ensures
        r == match integer_value(s@.subrange(from as int, to as int)) {
            Some(v) => if i64::MIN <= v <= i64::MAX {
                Some(v as i64)
            } else {
                None
            },
            None => None,
        },
{
    let ghost t = s@.subrange(from as int, to as int);
    if from == to {
        return None;
    }
    let first = s.get_char(from);
    assert(first == t[0]);
    if first == '-' || first == '+' {
        proof {
            assert(t.subrange(1, t.len() as int) =~= s@.subrange(from + 1, to as int));
        }
        if first == '-' {
            match parse_digits(s, from + 1, to, 0x8000_0000_0000_0000) {
                Some(m) => {
                    if m == 0x8000_0000_0000_0000 {
                        Some(i64::MIN)
                    } else {
                        Some(-(m as i64))
                    }
                },
                None => None,
            }
        } else {
            match parse_digits(s, from + 1, to, 0x7fff_ffff_ffff_ffff) {
                Some(m) => Some(m as i64),
                None => None,
            }
        }
    } else {
        match parse_digits(s, from, to, 0x7fff_ffff_ffff_ffff) {
            Some(m) => Some(m as i64),
            None => None,
        }
    }
}

/// Where the number that begins at `i` ends, and whether it is written
/// with a fraction. A number is an optional `-`, then either digits, which
/// a `.` and more digits may follow, or a `.` and digits.
pub open spec fn number_end(s: Seq<char>, i: int) -> Option<(int, bool)> {
    let j = if 0 <= i < s.len() && s[i] == '-' {
        i + 1
    } else {
        i
    };
    let k = digits_end(s, j);
    if k > j {
        if k < s.len() && s[k] == '.' && digits_end(s, k + 1) > k + 1 {
            Some((digits_end(s, k + 1), true))
        } else {
            Some((k, false))
        }
    } else if 0 <= j < s.len() && s[j] == '.' && digits_end(s, j + 1) > j + 1 {
        Some((digits_end(s, j + 1), true))
    } else {
        None
    }
}

/// Whether the whole of `t` is one number.
pub open spec fn is_decimal(t: Seq<char>) -> bool {
    number_end(t, 0) matches Some((end, _)) && end == t.len()
}

/// Finds the end of the number that begins at `from`, if one begins there.
pub fn scan_number(s: &str, len: usize, from: usize) -> (r: Option<(usize, bool)>)
    requires
        len == s@.len(),
        from <= len,
    ensures
        match number_end(s@, from as int) {
            Some((end, fraction)) => r == Some((end as usize, fraction)) && from < end <= len,
            None => r is None,
        },
{
    let j: usize = if from < len && s.get_char(from) == '-' {
        from + 1
    } else {
        from
    };
    let k = scan_digits(s, len, j);
    if k > j {
        if k < len && s.get_char(k) == '.' {
            let e = scan_digits(s, len, k + 1);
            if e > k + 1 {
                return Some((e, true));
            }
        }
        Some((k, false))
    } else if j < len && s.get_char(j) == '.' {
        let e = scan_digits(s, len, j + 1);
        if e > j + 1 {
            Some((e, true))
        } else {
            None
        }
    } else {
        None
    }
}

/// Whether the whole of `s` is one number.
pub fn decimal(s: &str) -> (r: bool)
    ensures
        r == is_decimal(s@),
{
    let len = s.unicode_len();
    match scan_number(s, len, 0) {
        Some((end, _)) => end == len,
        None => false,
    }
}

/// The index of the first character at or after `i` that may begin a word,
/// or the length of the text.
pub open spec fn word_start_index(s: Seq<char>, i: int) -> int
    decreases s.len() - i,
{
    if 0 <= i < s.len() && !is_word_start(s[i]) {
        word_start_index(s, i + 1)
    } else {
        i
    }
}

/// Finds the first character that may begin a word.
pub fn first_word_start(s: &str, len: usize) -> (r: usize)
    requires
        len == s@.len(),
    ensures
        r == word_start_index(s@, 0),
        r <= len,
{
    let mut i: usize = 0;
    while i < len && !word_start(s.get_char(i))
        invariant
            len == s@.len(),
            i <= len,
            word_start_index(s@, 0) == word_start_index(s@, i as int),
        decreases len - i,
    {
        i = i + 1;
    }
    i
}

/// The run of digits that begins at `i` is the same in the text cut off at
/// `end`, as long as it lies before `end`.
pub proof fn digits_end_in_prefix(s: Seq<char>, i: int, end: int)
    requires
        0 <= i <= end <= s.len(),
        digits_end(s, i) <= end,
    ensures
        digits_end(s.subrange(0, end), i) == digits_end(s, i),
    decreases end - i,
{
    digits_end_bounds(s, i);
    if i < end && is_digit(s[i]) {
        assert(s.subrange(0, end)[i] == s[i]);
        digits_end_in_prefix(s, i + 1, end);
    }
}

/// The run of digits that begins at `from + i` in `s` is the run that
/// begins at `i` in the text that starts at `from`.
pub proof fn digits_end_in_suffix(s: Seq<char>, from: int, i: int)
    requires
        0 <= from,
        0 <= i,
        from + i <= s.len(),
    ensures
        digits_end(s.subrange(from, s.len() as int), i) == digits_end(s, from + i) - from,
    decreases s.len() - from - i,
{
    let t = s.subrange(from, s.len() as int);
    if from + i < s.len() && is_digit(s[from + i]) {
        assert(t[i] == s[from + i]);
        digits_end_in_suffix(s, from, i + 1);
    }
}

/// A number that is cut out of a text is, on its own, that number.
pub proof fn number_end_of_span(s: Seq<char>, p: int)
    requires
        0 <= p <= s.len(),
        number_end(s, p) is Some,
    ensures
        ({
            let (end, fraction) = number_end(s, p)->0;
            &&& p < end <= s.len()
            &&& number_end(s.subrange(p, end), 0) == Some((end - p, fraction))
            &&& is_decimal(s.subrange(p, end))
        }),
{
    let (end, fraction) = number_end(s, p)->0;
    let j = if p < s.len() && s[p] == '-' {
        p + 1
    } else {
        p
    };
    digits_end_bounds(s, j);
    let k = digits_end(s, j);
    if k < s.len() {
        digits_end_bounds(s, k + 1);
    }
    if j < s.len() {
        digits_end_bounds(s, j + 1);
    }
    let tail = s.subrange(p, s.len() as int);
    let t = s.subrange(p, end);
    assert(t =~= tail.subrange(0, end - p));
    digits_end_in_suffix(s, p, j - p);
    digits_end_in_prefix(tail, j - p, end - p);
    if k > j {
        if k < s.len() && s[k] == '.' && digits_end(s, k + 1) > k + 1 {
            digits_end_in_suffix(s, p, k + 1 - p);
            digits_end_in_prefix(tail, k + 1 - p, end - p);
            assert(t[k - p] == '.');
        } else {
            assert(end == k);
        }
    } else {
        digits_end_in_suffix(s, p, j + 1 - p);
        digits_end_in_prefix(tail, j + 1 - p, end - p);
        assert(t[j - p] == '.');
    }
}

/// Behind a run of spaces stands no space.
pub proof fn spaces_end_stops(s: Seq<char>, i: int)
    requires
        0 <= i <= s.len(),
    ensures
        spaces_end(s, i) < s.len() ==> s[spaces_end(s, i)] != ' ',
        spaces_end(s, spaces_end(s, i)) == spaces_end(s, i),
    decreases s.len() - i,
{
    if i < s.len() && s[i] == ' ' {
        spaces_end_stops(s, i + 1);
    }
}

/// A number that begins at `p` ends behind `p` and inside the text.
pub proof fn number_end_bounds(s: Seq<char>, p: int)
    requires
        0 <= p <= s.len(),
    ensures
        number_end(s, p) matches Some((end, _)) ==> p < end <= s.len(),
{
    let j = if p < s.len() && s[p] == '-' {
        p + 1
    } else {
        p
    };
    digits_end_bounds(s, j);
    if digits_end(s, j) < s.len() {
        digits_end_bounds(s, digits_end(s, j) + 1);
    }
    if j < s.len() {
        digits_end_bounds(s, j + 1);
    }
}

} // verus!
