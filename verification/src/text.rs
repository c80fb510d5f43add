//! Small text tools: trimming, prefixes, numbers as text and back.

use vstd::prelude::*;

verus! {

/// The characters Unicode calls white space.
pub open spec fn white_space(c: char) -> bool {
    let n = c as u32;
    ||| 0x09 <= n <= 0x0d
    ||| n == 0x20
    ||| n == 0x85
    ||| n == 0xa0
    ||| n == 0x1680
    ||| 0x2000 <= n <= 0x200a
    ||| n == 0x2028
    ||| n == 0x2029
    ||| n == 0x202f
    ||| n == 0x205f
    ||| n == 0x3000
}

pub fn is_white_space(c: char) -> (yes: bool)
    ensures
        yes == white_space(c),
{
    let n: u32 = c as u32;
    (0x09 <= n && n <= 0x0d) || n == 0x20 || n == 0x85 || n == 0xa0 || n == 0x1680 || (0x2000 <= n
        && n <= 0x200a) || n == 0x2028 || n == 0x2029 || n == 0x202f || n == 0x205f || n == 0x3000
}

/// The control characters.
pub open spec fn control(c: char) -> bool {
    let n = c as u32;
    n <= 0x1f || 0x7f <= n <= 0x9f
}

pub fn is_control(c: char) -> (yes: bool)
    ensures
        yes == control(c),
{
    let n: u32 = c as u32;
    n <= 0x1f || (0x7f <= n && n <= 0x9f)
}

/// Text without leading white space.
pub open spec fn trimmed_start(s: Seq<char>) -> Seq<char>
    decreases s.len(),
{
    if s.len() > 0 && white_space(s[0]) {
        trimmed_start(s.drop_first())
    } else {
        s
    }
}

/// Text without trailing white space.
pub open spec fn trimmed_end(s: Seq<char>) -> Seq<char>
    decreases s.len(),
{
    if s.len() > 0 && white_space(s.last()) {
        trimmed_end(s.drop_last())
    } else {
        s
    }
}

/// Text without white space at either end.
pub open spec fn trimmed(s: Seq<char>) -> Seq<char> {
    trimmed_end(trimmed_start(s))
}

pub fn trim(s: &str) -> (r: String)
    ensures
        r@ == trimmed(s@),
{
    let n: usize = s.unicode_len();
    let mut from: usize = 0;
    assert(s@.skip(0) =~= s@);
    while from < n && is_white_space(s.get_char(from))
        invariant
            from <= n,
            n == s@.len(),
            trimmed_start(s@) == trimmed_start(s@.skip(from as int)),
        decreases n - from,
    {
        assert(s@.skip(from as int).drop_first() =~= s@.skip(from as int + 1));
        from = from + 1;
    }
    let mut to: usize = n;
    assert(s@.subrange(from as int, to as int) =~= s@.skip(from as int));
    while to > from && is_white_space(s.get_char(to - 1))
        invariant
            from <= to <= n,
            n == s@.len(),
            trimmed(s@) == trimmed_end(s@.subrange(from as int, to as int)),
        decreases to,
    {
        assert(s@.subrange(from as int, to as int).drop_last() =~= s@.subrange(
            from as int,
            to as int - 1,
        ));
        to = to - 1;
    }
    s.substring_char(from, to).to_owned()
}

/// Text without the slashes at its end.
pub open spec fn without_slashes(s: Seq<char>) -> Seq<char>
    decreases s.len(),
{
    if s.len() > 0 && s.last() == '/' {
        without_slashes(s.drop_last())
    } else {
        s
    }
}

pub fn trim_slashes(s: &str) -> (r: String)
    ensures
        r@ == without_slashes(s@),
{
    let n: usize = s.unicode_len();
    let mut to: usize = n;
    assert(s@.take(n as int) =~= s@);
    while to > 0 && s.get_char(to - 1) == '/'
        invariant
            to <= n,
            n == s@.len(),
            without_slashes(s@) == without_slashes(s@.take(to as int)),
        decreases to,
    {
        assert(s@.take(to as int).drop_last() =~= s@.take(to as int - 1));
        to = to - 1;
    }
    assert(s@.subrange(0, to as int) =~= s@.take(to as int));
    s.substring_char(0, to).to_owned()
}

/// The first `n` characters of a text, or all of it.
pub open spec fn capped(s: Seq<char>, n: int) -> Seq<char> {
    if s.len() <= n {
        s
    } else {
        s.take(n)
    }
}

pub fn cap(s: &str, n: usize) -> (r: String)
    ensures
        r@ == capped(s@, n as int),
{
    if s.unicode_len() <= n {
        s.to_owned()
    } else {
        let r = s.substring_char(0, n).to_owned();
        assert(r@ =~= s@.take(n as int));
        r
    }
}

/// Whether two texts are the same.
pub fn same(a: &str, b: &str) -> (yes: bool)
    ensures
        yes == (a@ == b@),
{
    a.to_owned() == b.to_owned()
}

/// Whether a text begins with another.
pub open spec fn begins_with(s: Seq<char>, prefix: Seq<char>) -> bool {
    prefix.len() <= s.len() && s.take(prefix.len() as int) == prefix
}

/// What follows a prefix, where the text begins with it.
pub fn after_prefix(s: &str, prefix: &str) -> (rest: Option<String>)
    ensures
        rest is Some <==> begins_with(s@, prefix@),
        rest matches Some(r) ==> r@ == s@.skip(prefix@.len() as int),
{
    let n: usize = prefix.unicode_len();
    let len: usize = s.unicode_len();
    if n > len {
        return None;
    }
    let head = s.substring_char(0, n);
    assert(head@ =~= s@.take(n as int));
    if !same(head, prefix) {
        return None;
    }
    let rest = s.substring_char(n, len).to_owned();
    assert(rest@ =~= s@.skip(n as int));
    Some(rest)
}

/// The character of a decimal digit.
pub open spec fn digit(d: int) -> char {
    if d == 0 {
        '0'
    } else if d == 1 {
        '1'
    } else if d == 2 {
        '2'
    } else if d == 3 {
        '3'
    } else if d == 4 {
        '4'
    } else if d == 5 {
        '5'
    } else if d == 6 {
        '6'
    } else if d == 7 {
        '7'
    } else if d == 8 {
        '8'
    } else {
        '9'
    }
}

/// A number in decimal, without leading zeros.
pub open spec fn decimal(n: nat) -> Seq<char>
    decreases n,
{
    if n < 10 {
        seq![digit(n as int)]
    } else {
        decimal(n / 10).push(digit((n % 10) as int))
    }
}

/// A digit as text.
fn digit_text(d: u64) -> (s: &'static str)
    requires
        d < 10,
    ensures
        s@ == seq![digit(d as int)],
{
    proof {
        reveal_strlit("0");
        reveal_strlit("1");
        reveal_strlit("2");
        reveal_strlit("3");
        reveal_strlit("4");
        reveal_strlit("5");
        reveal_strlit("6");
        reveal_strlit("7");
        reveal_strlit("8");
        reveal_strlit("9");
    }
    let s: &'static str = match d {
        0 => "0",
        1 => "1",
        2 => "2",
        3 => "3",
        4 => "4",
        5 => "5",
        6 => "6",
        7 => "7",
        8 => "8",
        _ => "9",
    };
    assert(s@ =~= seq![digit(d as int)]);
    s
}

pub fn decimal_text(n: u64) -> (s: String)
    ensures
        s@ == decimal(n as nat),
    decreases n,
{
    if n < 10 {
        digit_text(n).to_owned()
    } else {
        let mut s = decimal_text(n / 10);
        s.append(digit_text(n % 10));
        assert(s@ =~= decimal((n / 10) as nat).push(digit((n % 10) as int)));
        s
    }
}

/// A number in decimal, with a sign when it is negative.
pub open spec fn signed_decimal(n: int) -> Seq<char> {
    if n >= 0 {
        decimal(n as nat)
    } else {
        seq!['-'] + decimal((-n) as nat)
    }
}

pub fn signed_text(n: i64) -> (s: String)
    ensures
        s@ == signed_decimal(n as int),
{
    if n >= 0 {
        decimal_text(n as u64)
    } else {
        proof {
            reveal_strlit("-");
        }
        let mut s = "-".to_owned();
        assert(s@ =~= seq!['-']);
        let magnitude: u64 = (-(n + 1)) as u64 + 1;
        s.append(decimal_text(magnitude).as_str());
        s
    }
}

/// A number in decimal, with a leading zero below ten.
pub open spec fn two_digits(n: nat) -> Seq<char> {
    if n < 10 {
        seq!['0', digit(n as int)]
    } else {
        decimal(n)
    }
}

pub fn two_digit_text(n: u64) -> (s: String)
    ensures
        s@ == two_digits(n as nat),
{
    if n < 10 {
        proof {
            reveal_strlit("0");
        }
        let mut s = "0".to_owned();
        s.append(digit_text(n));
        assert(s@ =~= two_digits(n as nat));
        s
    } else {
        decimal_text(n)
    }
}

/// The same text over and over.
pub open spec fn repeated(s: Seq<char>, times: nat) -> Seq<char>
    decreases times,
{
    if times == 0 {
        Seq::empty()
    } else {
        repeated(s, (times - 1) as nat) + s
    }
}

pub fn repeat(s: &str, times: u64) -> (r: String)
    ensures
        r@ == repeated(s@, times as nat),
{
    let mut r = String::new();
    for i in 0..times
        invariant
            r@ == repeated(s@, i as nat),
    {
        r.append(s);
    }
    r
}

/// The value of a decimal digit.
pub open spec fn digit_value(c: char) -> Option<nat> {
    if '0' <= c <= '9' {
        Some((c as u32 - '0' as u32) as nat)
    } else {
        None
    }
}

/// The number a row of digits stands for; nothing unless all are digits.
pub open spec fn digits_value(s: Seq<char>) -> Option<nat>
    decreases s.len(),
{
    if s.len() == 0 {
        Some(0)
    } else {
        match (digits_value(s.drop_last()), digit_value(s.last())) {
            (Some(high), Some(low)) => Some(10 * high + low),
            _ => None,
        }
    }
}

/// The number a text stands for: digits, at least one, with an optional plus sign
/// in front.
pub open spec fn number_in(s: Seq<char>) -> Option<nat> {
    let digits = if s.len() > 0 && s[0] == '+' {
        s.drop_first()
    } else {
        s
    };
    if digits.len() == 0 {
        None
    } else {
        digits_value(digits)
    }
}

proof fn lemma_digits_prefix(s: Seq<char>, k: int)
    requires
        0 <= k <= s.len(),
        digits_value(s) is Some,
    ensures
        digits_value(s.take(k)) is Some,
        digits_value(s.take(k))->0 <= digits_value(s)->0,
    decreases s.len() - k,
{
    if k < s.len() {
        lemma_digits_prefix(s, k + 1);
        assert(s.take(k + 1).drop_last() =~= s.take(k));
    } else {
        assert(s.take(k) =~= s);
    }
}

/// Reads a number that may be `max` at most.
pub fn parse_number(s: &str, max: u64) -> (r: Option<u64>)
    ensures
        match r {
            Some(v) => number_in(s@) == Some(v as nat) && v <= max,
            None => number_in(s@) is None || number_in(s@)->0 > max,
        },
{
    let n: usize = s.unicode_len();
    let from: usize = if n > 0 && s.get_char(0) == '+' {
        1
    } else {
        0
    };
    if from == n {
        assert(from == 1 ==> s@.drop_first() =~= Seq::empty());
        return None;
    }
    let ghost digits = s@.skip(from as int);
    assert(from == 1 ==> digits =~= s@.drop_first());
    assert(from == 0 ==> digits =~= s@);
    let mut value: u64 = 0;
    let mut i: usize = from;
    while i < n
        invariant
            from <= i <= n,
            n == s@.len(),
            digits == s@.skip(from as int),
            number_in(s@) == digits_value(digits),
            digits_value(digits.take(i - from)) == Some(value as nat),
            value <= max,
        decreases n - i,
    {
        let c = s.get_char(i);
        let k = (i - from) as usize;
        assert(digits.take(k as int + 1).drop_last() =~= digits.take(k as int));
        assert(digits.take(k as int + 1).last() == c);
        if !('0' <= c && c <= '9') {
            assert(number_in(s@) is None) by {
                if digits_value(digits) is Some {
                    lemma_digits_prefix(digits, k as int + 1);
                }
            }
            return None;
        }
        let d: u64 = (c as u32 - '0' as u32) as u64;
        if d > max || value > (max - d) / 10 {
            assert(10 * value + d > max);
            assert(number_in(s@) is None || number_in(s@)->0 > max) by {
                if digits_value(digits) is Some {
                    lemma_digits_prefix(digits, k as int + 1);
                }
            }
            return None;
        }
        value = 10 * value + d;
        i = i + 1;
    }
    assert(digits.take(n - from) =~= digits);
    Some(value)
}

/// Where a character first stands in a text, from a position on; the end of the
/// text where it does not.
pub open spec fn place_of(s: Seq<char>, c: char, from: int) -> int
    decreases s.len() - from,
{
    if from >= s.len() || s[from] == c {
        from
    } else {
        place_of(s, c, from + 1)
    }
}

fn find(s: &str, c: char) -> (at: usize)
    ensures
        at == place_of(s@, c, 0),
        at <= s@.len(),
        at < s@.len() ==> s@[at as int] == c,
{
    let n: usize = s.unicode_len();
    let mut at: usize = 0;
    while at < n
        invariant
            n == s@.len(),
            at <= n,
            place_of(s@, c, 0) == place_of(s@, c, at as int),
        ensures
            at <= n,
            place_of(s@, c, 0) == at,
            at < n ==> s@[at as int] == c,
        decreases n - at,
    {
        if s.get_char(at) == c {
            break;
        }
        at = at + 1;
    }
    at
}

/// A power of ten.
pub open spec fn ten_to(k: nat) -> nat
    decreases k,
{
    if k == 0 {
        1
    } else {
        10 * ten_to((k - 1) as nat)
    }
}

/// A number moved by some decimal places, to the nearest whole one; what lies in the
/// middle goes up.
pub open spec fn moved_by(n: nat, places: int) -> nat {
    if places >= 0 {
        n * ten_to(places as nat)
    } else {
        let unit = ten_to((-places) as nat);
        (2 * n + unit) / (2 * unit)
    }
}

proof fn lemma_ten_to(k: nat, least: nat)
    requires
        least <= k,
    ensures
        ten_to(least) <= ten_to(k),
        ten_to(k) >= 1,
    decreases k,
{
    if least < k {
        lemma_ten_to((k - 1) as nat, least);
    } else if k > 0 {
        lemma_ten_to((k - 1) as nat, (k - 1) as nat);
    }
}

/// Moves a number by some decimal places, as long as the result can be held.
fn move_by(n: u64, places: i128) -> (r: Option<u64>)
    requires
        places >= i128::MIN / 2,
    ensures
        match r {
            Some(v) => v == moved_by(n as nat, places as int),
            None => moved_by(n as nat, places as int) > u64::MAX,
        },
{
    if places < -19 {
        let ghost unit = ten_to((-places) as nat);
        proof {
            reveal_with_fuel(ten_to, 21);
            lemma_ten_to((-places) as nat, 20);
            assert((2 * (n as nat) + unit) / (2 * unit) == 0) by (nonlinear_arith)
                requires
                    n <= u64::MAX,
                    unit >= 100_000_000_000_000_000_000,
            ;
        }
        return Some(0);
    }
    if places < 0 {
        let k: u32 = (-places) as u32;
        let mut unit: u128 = 1;
        for i in 0..k
            invariant
                k <= 19,
                unit == ten_to(i as nat),
                unit <= 10_000_000_000_000_000_000,
        {
            proof {
                reveal_with_fuel(ten_to, 20);
                lemma_ten_to(19, (i + 1) as nat);
            }
            unit = 10 * unit;
        }
        let sum: u128 = 2 * (n as u128) + unit;
        assert(unit >= 10) by {
            reveal_with_fuel(ten_to, 2);
            lemma_ten_to(k as nat, 1);
        }
        assert(sum as int / (2 * unit) <= u64::MAX) by (nonlinear_arith)
            requires
                sum == 2 * n + unit,
                unit >= 10,
                n <= u64::MAX,
        ;
        return Some((sum / (2 * unit)) as u64);
    }
    if n == 0 {
        return Some(0);
    }
    let mut v: u64 = n;
    let mut left: i128 = places;
    while left > 0
        invariant
            0 <= left,
            v > 0,
            moved_by(n as nat, places as int) == v * ten_to(left as nat),
        decreases left,
    {
        let ghost rest = ten_to((left - 1) as nat);
        proof {
            lemma_ten_to((left - 1) as nat, (left - 1) as nat);
            assert(v * (10 * rest) == (10 * v) * rest) by (nonlinear_arith);
            assert((10 * v) * rest >= 10 * v) by (nonlinear_arith)
                requires
                    rest >= 1,
            ;
        }
        if v > u64::MAX / 10 {
            return None;
        }
        v = 10 * v;
        left = left - 1;
    }
    assert(ten_to(0) == 1);
    assert(v * ten_to(0) == v) by (nonlinear_arith)
        requires
            ten_to(0) == 1,
    ;
    Some(v)
}

/// A decimal exponent: a number of at most four digits' worth, with a sign where it
/// is negative.
pub open spec fn exponent_in(s: Seq<char>) -> Option<int> {
    let negative = s.len() > 0 && s[0] == '-';
    let size = if negative {
        number_in(s.drop_first())
    } else {
        number_in(s)
    };
    match size {
        Some(n) if n <= 9_999 => Some(
            if negative {
                -(n as int)
            } else {
                n as int
            },
        ),
        _ => None,
    }
}

fn parse_exponent(s: &str) -> (r: Option<i128>)
    ensures
        match r {
            Some(x) => exponent_in(s@) == Some(x as int) && -9_999 <= x <= 9_999,
            None => exponent_in(s@) is None,
        },
{
    let n: usize = s.unicode_len();
    if n > 0 && s.get_char(0) == '-' {
        let rest = s.substring_char(1, n);
        assert(rest@ =~= s@.drop_first());
        match parse_number(rest, 9_999) {
            Some(v) => Some(-(v as i128)),
            None => None,
        }
    } else {
        match parse_number(s, 9_999) {
            Some(v) => Some(v as i128),
            None => None,
        }
    }
}

/// The whole number nearest to one that may be written with a fraction and an
/// exponent.
pub open spec fn rounded_in(s: Seq<char>) -> Option<u64> {
    let e = place_of(s, 'e', 0);
    let power = if e < s.len() {
        exponent_in(s.skip(e + 1))
    } else {
        Some(0)
    };
    let mantissa = s.take(e);
    let p = place_of(mantissa, '.', 0);
    let fraction = if p < mantissa.len() {
        mantissa.skip(p + 1)
    } else {
        Seq::empty()
    };
    match (number_in(mantissa.take(p) + fraction), power) {
        (Some(n), Some(x)) if n <= u64::MAX && moved_by(n, x - fraction.len()) <= u64::MAX => Some(
            moved_by(n, x - fraction.len()) as u64,
        ),
        _ => None,
    }
}

/// Reads a number that may be written with a fraction and an exponent, to the
/// nearest whole one.
pub fn parse_rounded(s: &str) -> (r: Option<u64>)
    ensures
        r == rounded_in(s@),
{
    let n: usize = s.unicode_len();
    let e: usize = find(s, 'e');
    let power: i128 = if e < n {
        let tail = s.substring_char(e + 1, n);
        assert(tail@ =~= s@.skip(e + 1));
        match parse_exponent(tail) {
            Some(x) => x,
            None => return None,
        }
    } else {
        0
    };
    let mantissa = s.substring_char(0, e);
    assert(mantissa@ =~= s@.take(e as int));
    let p: usize = find(mantissa, '.');
    let mut digits: String = mantissa.substring_char(0, p).to_owned();
    assert(digits@ =~= mantissa@.take(p as int));
    let places: usize = if p < e {
        let fraction = mantissa.substring_char(p + 1, e);
        assert(fraction@ =~= mantissa@.skip(p + 1));
        digits.append(fraction);
        fraction.unicode_len()
    } else {
        assert(digits@ + Seq::<char>::empty() =~= digits@);
        0
    };
    match parse_number(digits.as_str(), u64::MAX) {
        Some(v) => move_by(v, power - places as i128),
        None => None,
    }
}

proof fn lemma_no_such_place(s: Seq<char>, c: char, from: int)
    requires
        0 <= from <= s.len(),
        forall|i: int| 0 <= i < s.len() ==> #[trigger] s[i] != c,
    ensures
        place_of(s, c, from) == s.len(),
    decreases s.len() - from,
{
    if from < s.len() {
        lemma_no_such_place(s, c, from + 1);
    }
}

proof fn lemma_decimal_is_digits(n: nat)
    ensures
        forall|i: int| 0 <= i < decimal(n).len() ==> '0' <= #[trigger] decimal(n)[i] <= '9',
    decreases n,
{
    if n >= 10 {
        let high = decimal(n / 10);
        lemma_decimal_is_digits(n / 10);
        assert forall|i: int| 0 <= i < decimal(n).len() implies '0' <= #[trigger] decimal(n)[i]
            <= '9' by {
            if i < high.len() {
                assert(decimal(n)[i] == high[i]);
            } else {
                assert(decimal(n)[i] == digit((n % 10) as int));
            }
        }
    }
}

/// A whole number needs no rounding.
pub proof fn law_whole_numbers_need_no_rounding(n: u64)
    ensures
        rounded_in(decimal(n as nat)) == Some(n),
{
    let s = decimal(n as nat);
    lemma_decimal_is_digits(n as nat);
    lemma_no_such_place(s, 'e', 0);
    assert(s.take(s.len() as int) =~= s);
    lemma_no_such_place(s, '.', 0);
    assert(s + Seq::<char>::empty() =~= s);
    law_decimal_reads_back(n as nat);
    assert(ten_to(0) == 1);
    assert((n as nat) * ten_to(0) == n) by (nonlinear_arith)
        requires
            ten_to(0) == 1,
    ;
}

/// The character of a hexadecimal digit, in lower case.
pub open spec fn hex_digit(d: int) -> char {
    if d < 10 {
        digit(d)
    } else if d == 10 {
        'a'
    } else if d == 11 {
        'b'
    } else if d == 12 {
        'c'
    } else if d == 13 {
        'd'
    } else if d == 14 {
        'e'
    } else {
        'f'
    }
}

/// A byte as two hexadecimal digits.
pub open spec fn hex(b: u8) -> Seq<char> {
    seq![hex_digit(b as int / 16), hex_digit(b as int % 16)]
}

fn hex_digit_text(d: u8) -> (s: &'static str)
    requires
        d < 16,
    ensures
        s@ == seq![hex_digit(d as int)],
{
    if d < 10 {
        return digit_text(d as u64);
    }
    proof {
        reveal_strlit("a");
        reveal_strlit("b");
        reveal_strlit("c");
        reveal_strlit("d");
        reveal_strlit("e");
        reveal_strlit("f");
    }
    let s: &'static str = match d {
        10 => "a",
        11 => "b",
        12 => "c",
        13 => "d",
        14 => "e",
        _ => "f",
    };
    assert(s@ =~= seq![hex_digit(d as int)]);
    s
}

/// The bytes as hexadecimal digits, two each.
pub open spec fn hex_of(bytes: Seq<u8>) -> Seq<char>
    decreases bytes.len(),
{
    if bytes.len() == 0 {
        Seq::empty()
    } else {
        hex_of(bytes.drop_last()) + hex(bytes.last())
    }
}

pub fn hex_text(bytes: &[u8]) -> (s: String)
    ensures
        s@ == hex_of(bytes@),
{
    let mut s = String::new();
    for i in 0..bytes.len()
        invariant
            s@ == hex_of(bytes@.take(i as int)),
    {
        let ghost sofar = s@;
        assert(bytes@.take(i as int + 1).drop_last() =~= bytes@.take(i as int));
        s.append(hex_digit_text(bytes[i] / 16));
        s.append(hex_digit_text(bytes[i] % 16));
        assert(s@ =~= sofar + hex(bytes@[i as int]));
    }
    assert(bytes@.take(bytes@.len() as int) =~= bytes@);
    s
}

/// Trimming twice is trimming once, and trimmed text has no white space at
/// either end.
pub proof fn law_trimming_is_idempotent(s: Seq<char>)
    ensures
        trimmed(s).len() > 0 ==> !white_space(trimmed(s)[0]) && !white_space(trimmed(s).last()),
        trimmed(trimmed(s)) == trimmed(s),
{
    lemma_trimmed_start(s);
    lemma_trimmed_end(trimmed_start(s));
}

proof fn lemma_trimmed_start(s: Seq<char>)
    ensures
        trimmed_start(s).len() > 0 ==> !white_space(trimmed_start(s)[0]),
    decreases s.len(),
{
    if s.len() > 0 && white_space(s[0]) {
        lemma_trimmed_start(s.drop_first());
    }
}

proof fn lemma_trimmed_end(s: Seq<char>)
    ensures
        trimmed_end(s).len() > 0 ==> !white_space(trimmed_end(s).last()) && trimmed_end(s)[0]
            == s[0],
    decreases s.len(),
{
    if s.len() > 0 && white_space(s.last()) {
        lemma_trimmed_end(s.drop_last());
    }
}

/// A number written in decimal reads back as that number.
pub proof fn law_decimal_reads_back(n: nat)
    ensures
        number_in(decimal(n)) == Some(n),
    decreases n,
{
    lemma_decimal(n);
}

proof fn lemma_decimal(n: nat)
    ensures
        digits_value(decimal(n)) == Some(n),
        decimal(n).len() > 0,
        decimal(n)[0] != '+',
    decreases n,
{
    reveal_with_fuel(digits_value, 2);
    if n >= 10 {
        lemma_decimal(n / 10);
        assert(decimal(n).drop_last() =~= decimal(n / 10));
    } else {
        assert(decimal(n).drop_last() =~= Seq::empty());
    }
}

/// Trimming takes white space from both ends and nothing else: what is left is one
/// stretch of the text, from `a` to `b`, with only white space before and after it.
pub proof fn law_trimming_takes_only_the_ends(s: Seq<char>) -> (ends: (int, int))
    ensures
        ({
            let (a, b) = ends;
            &&& 0 <= a <= b <= s.len()
            &&& trimmed(s) == s.subrange(a, b)
            &&& forall|i: int| 0 <= i < a ==> white_space(#[trigger] s[i])
            &&& forall|i: int| b <= i < s.len() ==> white_space(#[trigger] s[i])
        }),
{
    let a = lemma_start_cut(s);
    let core = s.skip(a);
    let n = lemma_end_cut(core);
    assert(core.take(n) =~= s.subrange(a, a + n));
    assert forall|i: int| a + n <= i < s.len() implies white_space(#[trigger] s[i]) by {
        assert(core[i - a] == s[i]);
    }
    (a, a + n)
}

proof fn lemma_start_cut(s: Seq<char>) -> (a: int)
    ensures
        0 <= a <= s.len(),
        trimmed_start(s) == s.skip(a),
        forall|i: int| 0 <= i < a ==> white_space(#[trigger] s[i]),
    decreases s.len(),
{
    if s.len() > 0 && white_space(s[0]) {
        let rest = s.drop_first();
        let n = lemma_start_cut(rest);
        assert(rest.skip(n) =~= s.skip(n + 1));
        assert forall|i: int| 0 <= i < n + 1 implies white_space(#[trigger] s[i]) by {
            if i > 0 {
                assert(rest[i - 1] == s[i]);
            }
        }
        n + 1
    } else {
        assert(s.skip(0) =~= s);
        0
    }
}

proof fn lemma_end_cut(s: Seq<char>) -> (n: int)
    ensures
        0 <= n <= s.len(),
        trimmed_end(s) == s.take(n),
        forall|i: int| n <= i < s.len() ==> white_space(#[trigger] s[i]),
    decreases s.len(),
{
    if s.len() > 0 && white_space(s.last()) {
        let rest = s.drop_last();
        let n = lemma_end_cut(rest);
        assert(rest.take(n) =~= s.take(n));
        assert forall|i: int| n <= i < s.len() implies white_space(#[trigger] s[i]) by {
            if i < rest.len() {
                assert(rest[i] == s[i]);
            }
        }
        n
    } else {
        assert(s.take(s.len() as int) =~= s);
        s.len() as int
    }
}

/// Only slashes at the end are dropped, and all of them.
pub proof fn law_only_trailing_slashes_go(s: Seq<char>)
    ensures
        ({
            let r = without_slashes(s);
            &&& r.len() <= s.len()
            &&& r == s.take(r.len() as int)
            &&& forall|i: int| r.len() <= i < s.len() ==> #[trigger] s[i] == '/'
            &&& r.len() > 0 ==> r.last() != '/'
        }),
    decreases s.len(),
{
    if s.len() > 0 && s.last() == '/' {
        let rest = s.drop_last();
        law_only_trailing_slashes_go(rest);
        let r = without_slashes(s);
        assert(rest.take(r.len() as int) =~= s.take(r.len() as int));
        assert forall|i: int| r.len() <= i < s.len() implies #[trigger] s[i] == '/' by {
            if i < rest.len() {
                assert(rest[i] == s[i]);
            }
        }
    } else {
        assert(s.take(s.len() as int) =~= s);
    }
}

/// A number is read digit by digit, from the highest on, with or without a plus sign
/// in front. Anything else in it makes it no number.
pub proof fn law_numbers_are_read_digit_by_digit(s: Seq<char>, c: char)
    ensures
        number_in(Seq::empty()) is None,
        s.len() > 0 && number_in(s) is Some && '0' <= c <= '9' ==> number_in(s.push(c)) == Some(
            (10 * number_in(s)->0 + (c as u32 - '0' as u32)) as nat,
        ),
        s.len() > 0 && !('0' <= c <= '9') ==> number_in(s.push(c)) is None,
        s.len() > 0 && s[0] != '+' ==> number_in(seq!['+'] + s) == number_in(s),
        '0' <= c <= '9' ==> number_in(seq![c]) == Some((c as u32 - '0' as u32) as nat),
{
    reveal_with_fuel(digits_value, 2);
    if s.len() > 0 {
        let longer = s.push(c);
        assert(longer.drop_last() =~= s);
        assert(longer.drop_first().drop_last() =~= s.drop_first());
        assert((seq!['+'] + s).drop_first() =~= s);
    }
    assert(seq![c].drop_last() =~= Seq::<char>::empty());
}

/// The digits are written as they are.
pub proof fn law_digits_are_written_in_order(n: nat)
    ensures
        n < 10 ==> decimal(n) == seq![('0' as u32 + n) as char],
        n >= 10 ==> decimal(n) == decimal(n / 10) + decimal(n % 10),
        n < 10 ==> two_digits(n) == seq!['0'] + decimal(n),
        n >= 10 ==> two_digits(n) == decimal(n),
        signed_decimal(n as int) == decimal(n),
        n > 0 ==> signed_decimal(-(n as int)) == seq!['-'] + decimal(n),
{
    if n < 10 {
        assert(two_digits(n) =~= seq!['0'] + decimal(n));
    } else {
        assert(decimal(n) =~= decimal(n / 10) + decimal(n % 10));
    }
}

/// A byte is written as its high and its low half, each as one of sixteen digits in
/// small letters, and a row of bytes in order.
pub proof fn law_bytes_are_written_half_by_half(bytes: Seq<u8>, b: u8, d: int)
    requires
        0 <= d < 16,
    ensures
        d < 10 ==> hex_digit(d) == ('0' as u32 + d) as char,
        d >= 10 ==> hex_digit(d) == ('a' as u32 + d - 10) as char,
        hex_of(Seq::empty()) == Seq::<char>::empty(),
        hex_of(bytes.push(b)) == hex_of(bytes).push(hex_digit(b as int / 16)).push(
            hex_digit(b as int % 16),
        ),
{
    assert(bytes.push(b).drop_last() =~= bytes);
    assert(hex_of(bytes) + hex(b) =~= hex_of(bytes).push(hex_digit(b as int / 16)).push(
        hex_digit(b as int % 16),
    ));
}

/// Moving the point to the right multiplies by ten each time; moving it to the left
/// rounds to the nearest whole number, and a half goes up.
pub proof fn law_moving_the_point_rounds(n: nat, places: nat)
    ensures
        ten_to(0) == 1,
        ten_to(places + 1) == 10 * ten_to(places),
        moved_by(n, places as int) == n * ten_to(places),
        ({
            let (unit, r) = (ten_to(places) as int, moved_by(n, -(places as int)) as int);
            -unit < 2 * (r * unit) - 2 * n <= unit
        }),
{
    let unit = ten_to(places) as int;
    lemma_ten_to(places, 0);
    if places == 0 {
        assert(n * 1 == n);
        assert(moved_by(n, 0) == n);
        assert((n as int) * 1 == n);
    } else {
        let r = moved_by(n, -(places as int)) as int;
        let whole = 2 * n + unit;
        vstd::arithmetic::div_mod::lemma_fundamental_div_mod(whole, 2 * unit);
        vstd::arithmetic::div_mod::lemma_mod_bound(whole, 2 * unit);
        assert(2 * unit * r == 2 * (r * unit)) by (nonlinear_arith);
    }
}

proof fn lemma_place_in_front(a: Seq<char>, c: char, b: Seq<char>, from: int)
    requires
        0 <= from <= a.len(),
        forall|i: int| 0 <= i < a.len() ==> #[trigger] a[i] != c,
    ensures
        place_of(a + seq![c] + b, c, from) == a.len(),
        place_of(a, c, from) == a.len(),
    decreases a.len() - from,
{
    let s = a + seq![c] + b;
    if from < a.len() {
        assert(s[from] == a[from]);
        lemma_place_in_front(a, c, b, from + 1);
    } else {
        assert(s[from] == c);
    }
}

/// A number with a fraction is read as if the point were not there, and the point is
/// then put back, to the nearest whole number.
pub proof fn law_a_fraction_is_rounded(a: Seq<char>, b: Seq<char>)
    requires
        forall|i: int| 0 <= i < a.len() ==> '0' <= #[trigger] a[i] <= '9',
        forall|i: int| 0 <= i < b.len() ==> '0' <= #[trigger] b[i] <= '9',
        number_in(a + b) matches Some(n) && n <= u64::MAX,
    ensures
        rounded_in(a + seq!['.'] + b) == Some(
            moved_by(number_in(a + b)->0, -(b.len() as int)) as u64,
        ) || moved_by(number_in(a + b)->0, -(b.len() as int)) > u64::MAX,
{
    let s = a + seq!['.'] + b;
    assert forall|i: int| 0 <= i < s.len() implies #[trigger] s[i] != 'e' by {
        if i < a.len() {
            assert(s[i] == a[i]);
        } else if i > a.len() {
            assert(s[i] == b[i - a.len() - 1]);
        }
    }
    lemma_place_in_front(s, 'e', Seq::empty(), 0);
    assert(s.take(s.len() as int) =~= s);
    lemma_place_in_front(a, '.', b, 0);
    assert(s.take(a.len() as int) =~= a);
    assert(s.skip(a.len() as int + 1) =~= b);
}

} // verus!
