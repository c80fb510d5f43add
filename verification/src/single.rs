//! Single precision numbers, worked out in whole ones.
//!
//! A single precision number has twenty-four binary digits and an exponent. Two
//! things in the game come in that format: the progress into a tile as it goes
//! over the wire, and the share of a score that a thief gets away with. Whole
//! numbers give the same results to the last digit.

use vstd::prelude::*;
#[allow(unused_imports)]
use vstd::arithmetic::div_mod::{
    lemma_div_denominator, lemma_fundamental_div_mod, lemma_fundamental_div_mod_converse,
};
#[allow(unused_imports)]
use vstd::arithmetic::power2::{
    lemma2_to64, lemma2_to64_rest, lemma_pow2_adds, lemma_pow2_pos,
    lemma_pow2_strictly_increases, lemma_pow2_unfold, pow2,
};

verus! {

/// The whole number nearest to a ratio; of two as near, the even one.
pub open spec fn nearest(n: int, d: int) -> int {
    let (q, r) = (n / d, n % d);
    if 2 * r < d || 2 * r == d && q % 2 == 0 {
        q
    } else {
        q + 1
    }
}

fn nearest_ratio(n: u128, d: u128) -> (q: u128)
    requires
        0 < d < 0x4000_0000_0000_0000_0000_0000_0000_0000,
        n < 0x4000_0000_0000_0000_0000_0000_0000_0000,
    ensures
        q == nearest(n as int, d as int),
{
    let q: u128 = n / d;
    let r: u128 = n % d;
    assert(q <= n) by (nonlinear_arith)
        requires
            q == n / d,
            d > 0,
    ;
    if 2 * r < d || 2 * r == d && q % 2 == 0 {
        q
    } else {
        q + 1
    }
}

/// A whole number that lies within half a step of a ratio is the nearest to it.
proof fn lemma_nearest(n: int, d: int, q: int)
    requires
        d > 0,
        2 * (n - q * d) < d,
        2 * (q * d - n) < d,
    ensures
        nearest(n, d) == q,
{
    if n >= q * d {
        lemma_fundamental_div_mod_converse(n, d, q, n - q * d);
    } else {
        assert(n == d * (q - 1) + (n - q * d + d)) by (nonlinear_arith);
        lemma_fundamental_div_mod_converse(n, d, q - 1, n - q * d + d);
    }
}

/// The nearest number to a ratio lies within half a step of it.
proof fn lemma_near(n: int, d: int)
    requires
        d > 0,
    ensures
        2 * (n - nearest(n, d) * d) <= d,
        2 * (nearest(n, d) * d - n) <= d,
        n / d <= nearest(n, d) <= n / d + 1,
{
    let (q, r) = (n / d, n % d);
    lemma_fundamental_div_mod(n, d);
    assert((q + 1) * d == q * d + d) by (nonlinear_arith);
    assert(d * q == q * d) by (nonlinear_arith);
}

/// A ratio and its nearest number do not depend on a common factor.
proof fn lemma_nearest_scales(n: int, d: int, c: int)
    requires
        d > 0,
        c > 0,
    ensures
        nearest(n * c, d * c) == nearest(n, d),
{
    let (q, r) = (n / d, n % d);
    lemma_fundamental_div_mod(n, d);
    assert(n * c == (d * c) * q + r * c) by (nonlinear_arith)
        requires
            n == d * q + r,
    ;
    assert(0 <= r * c < d * c) by (nonlinear_arith)
        requires
            0 <= r < d,
            c > 0,
    ;
    lemma_fundamental_div_mod_converse(n * c, d * c, q, r * c);
    assert((2 * r < d <==> 2 * (r * c) < d * c) && (2 * r == d <==> 2 * (r * c) == d * c))
        by (nonlinear_arith)
        requires
            c > 0,
    ;
}

/// The last of the twenty-four binary digits of a whole number.
pub open spec fn digit_of(x: int) -> int
    decreases x,
{
    if x < 0x100_0000 {
        1
    } else {
        2 * digit_of(x / 2)
    }
}

/// A whole number in single precision: the nearest one of twenty-four digits.
pub open spec fn to_single(x: int) -> int {
    nearest(x, digit_of(x)) * digit_of(x)
}

/// The last digit is a power of two.
proof fn lemma_digit_is_a_power(x: int, n: nat) -> (k: nat)
    requires
        0 <= x < 0x100_0000 * pow2(n),
    ensures
        k <= n,
        digit_of(x) == pow2(k),
        x < 0x100_0000 * pow2(k),
        k > 0 ==> 0x80_0000 * pow2(k) <= x,
    decreases n,
{
    lemma2_to64();
    if x < 0x100_0000 {
        0
    } else {
        lemma_pow2_unfold(n);
        let k = lemma_digit_is_a_power(x / 2, (n - 1) as nat);
        lemma_pow2_unfold(k + 1);
        k + 1
    }
}

proof fn lemma_digit(x: int)
    requires
        0 <= x < 0x100_0000_0000_0000,
    ensures
        1 <= digit_of(x) <= 0x1_0000_0000,
        x < 0x100_0000 ==> digit_of(x) == 1,
        x >= 0x100_0000 ==> 0x80_0000 * digit_of(x) <= x,
        x < 0x100_0000 * digit_of(x),
{
    lemma2_to64();
    let k = lemma_digit_is_a_power(x, 32);
    if k < 32 {
        lemma_pow2_strictly_increases(k, 32);
    }
    lemma_pow2_pos(k);
}

/// Two to the power of twenty-seven is a multiple of the last digit of a number
/// that is not too large.
proof fn lemma_digit_divides(x: int)
    requires
        0 <= x < 0x1_0000_0000_0000,
    ensures
        1 <= digit_of(x) <= 0x100_0000,
        0x800_0000int % digit_of(x) == 0,
{
    lemma2_to64();
    let k = lemma_digit_is_a_power(x, 24);
    if k < 24 {
        lemma_pow2_strictly_increases(k, 24);
    }
    lemma_pow2_pos(k);
    lemma_pow2_adds(k, (27 - k) as nat);
    let rest = pow2((27 - k) as nat);
    assert(pow2(k) * rest == rest * pow2(k)) by (nonlinear_arith);
    lemma_fundamental_div_mod_converse(
        0x800_0000,
        pow2(k) as int,
        rest as int,
        0,
    );
}

/// Rounds a whole number to single precision.
pub fn rounded(x: u64) -> (r: u64)
    requires
        x < 0x100_0000_0000_0000,
    ensures
        r == to_single(x as int),
        r <= 0x100_0000_0000_0000,
{
    let mut digit: u64 = 1;
    proof {
        lemma_digit(x as int);
        assert(x as int / 1 == x);
    }
    while x / digit >= 0x100_0000
        invariant
            1 <= digit <= 0x1_0000_0000,
            1 <= digit_of(x as int) <= 0x1_0000_0000,
            digit_of(x as int) == digit * digit_of(x as int / digit as int),
        decreases 0x1_0000_0000 - digit,
    {
        let ghost y = x as int / digit as int;
        assert(digit_of(y) == 2 * digit_of(y / 2));
        proof {
            lemma_div_denominator(x as int, digit as int, 2);
            assert(digit as int * 2 == 2 * digit);
        }
        assert(digit_of(y / 2) >= 1) by {
            if digit_of(y / 2) <= 0 {
                assert(digit * digit_of(y) <= 0) by (nonlinear_arith)
                    requires
                        digit >= 1,
                        digit_of(y) <= 0,
                ;
            }
        }
        assert(digit * (2 * digit_of(y / 2)) == (2 * digit) * digit_of(y / 2)) by (nonlinear_arith);
        assert(2 * digit <= (2 * digit) * digit_of(y / 2)) by (nonlinear_arith)
            requires
                digit_of(y / 2) >= 1,
                digit >= 1,
        ;
        digit = 2 * digit;
    }
    assert(digit_of(x as int) == digit);
    proof {
        lemma_near(x as int, digit as int);
        lemma_to_single(x as int);
    }
    let n: u64 = nearest_ratio(x as u128, digit as u128) as u64;
    n * digit
}

/// Rounding moves a number by half its last digit at most.
proof fn lemma_to_single(x: int)
    requires
        0 <= x < 0x100_0000_0000_0000,
    ensures
        0 <= to_single(x) <= 0x100_0000 * digit_of(x) <= 0x100_0000_0000_0000,
        2 * (x - to_single(x)) <= digit_of(x),
        2 * (to_single(x) - x) <= digit_of(x),
        x < 0x100_0000 ==> to_single(x) == x,
{
    let u = digit_of(x);
    lemma_digit(x);
    lemma_near(x, u);
    let q = nearest(x, u);
    lemma_fundamental_div_mod(x, u);
    assert(q <= 0x100_0000) by (nonlinear_arith)
        requires
            x < 0x100_0000 * u,
            q <= x / u + 1,
            x == u * (x / u) + x % u,
            0 <= x % u,
            u >= 1,
    ;
    assert(0 <= x / u) by (nonlinear_arith)
        requires
            x >= 0,
            u >= 1,
    ;
    assert(0 <= q * u <= 0x100_0000 * u) by (nonlinear_arith)
        requires
            0 <= q <= 0x100_0000,
            u >= 1,
    ;
}

/// Rounding never goes back past a multiple of a power of two that the number
/// itself has reached.
proof fn lemma_rounding_keeps_whole_parts(x: int, k: int)
    requires
        0 <= k * 0x800_0000 <= x < 0x1_0000_0000_0000,
    ensures
        k * 0x800_0000 <= to_single(x),
{
    let u = digit_of(x);
    lemma_digit_divides(x);
    lemma_near(x, u);
    lemma_fundamental_div_mod(x, u);
    let q = nearest(x, u);
    let c = 0x800_0000int / u;
    lemma_fundamental_div_mod(0x800_0000, u);
    assert(k * 0x800_0000 == (k * c) * u) by (nonlinear_arith)
        requires
            0x800_0000 == u * c,
    ;
    assert(k * c <= x / u) by (nonlinear_arith)
        requires
            (k * c) * u <= x,
            x == u * (x / u) + x % u,
            x % u < u,
            u >= 1,
    ;
    assert((k * c) * u <= q * u) by (nonlinear_arith)
        requires
            k * c <= q,
            u >= 1,
    ;
}

/// A score times the tenth of single precision: within range, the exact tenth as
/// long as single precision holds the score, and close to it beyond.
pub proof fn lemma_a_share_is_a_tenth(x: int)
    requires
        0 <= x <= u32::MAX,
    ensures
        0 <= to_single(x) <= 0x1_0000_0000,
        0 <= to_single(to_single(x) * 13_421_773) <= 0x100_0000_0000_0000,
        x < 0x100_0000 ==> to_single(to_single(x) * 13_421_773) / 134_217_728 == x / 10,
        x >= 0x100_0000 ==> {
            let share = to_single(to_single(x) * 13_421_773) / 134_217_728;
            &&& 10 * share <= x + x / 1_000_000
            &&& x - x / 1_000_000 <= 10 * share + 10
        },
{
    lemma2_to64();
    let j = lemma_digit_is_a_power(x, 8);
    if j < 8 {
        lemma_pow2_strictly_increases(j, 8);
    }
    lemma_to_single(x);
    lemma_digit(x);
    let p = to_single(x) * 13_421_773;
    lemma_to_single(p);
    lemma_digit(p);
    let s = to_single(p);
    if x < 0x100_0000 {
        let k = x / 10;
        assert(p == k * 0x800_0000 + 2 * k + (x % 10) * 13_421_773);
        lemma_rounding_keeps_whole_parts(p, k);
        lemma_digit_divides(p);
        assert(k * 0x800_0000 <= s < k * 0x800_0000 + 0x800_0000);
    }
}

/// The bits of the single precision number nearest to `num / den`, divided by two
/// `k` times: the ratio is doubled until it has twenty-four digits, and each
/// doubling takes one off the exponent.
pub open spec fn bits_from(num: int, den: int, k: int) -> int
    decreases 0x100_0000 * den - num,
{
    if num <= 0 || num >= 0x80_0000 * den {
        (149 - k) * 0x80_0000 + nearest(num, den)
    } else {
        bits_from(2 * num, den, k + 1)
    }
}

/// The bits of the single precision number nearest to `num / den`.
pub open spec fn bits_of(num: int, den: int) -> int {
    if num == 0 {
        0
    } else if num > 0 {
        bits_from(num, den * 0x100_0000_0000, -40)
    } else {
        0x8000_0000 + bits_from(-num, den * 0x100_0000_0000, -40)
    }
}

/// How many parts of `1 / den` the size of a single precision number comes to: the
/// nearest whole number. What is no number, or too small for the format's
/// twenty-four digits, comes to nothing.
pub open spec fn size_in_parts(bits: int, den: int) -> int {
    let exponent = bits / 0x80_0000 % 256;
    let digits = bits % 0x80_0000;
    if exponent == 0 || exponent == 255 && digits > 0 {
        0
    } else if exponent < 150 {
        nearest((digits + 0x80_0000) * den, pow2((150 - exponent) as nat) as int)
    } else {
        (digits + 0x80_0000) * den * pow2((exponent - 150) as nat)
    }
}

/// The number of parts of `1 / den` in a single precision number, up to a limit on
/// either side.
pub open spec fn parts_in(bits: int, den: int, limit: int) -> int {
    let size = if size_in_parts(bits, den) <= limit {
        size_in_parts(bits, den)
    } else {
        limit
    };
    if bits >= 0x8000_0000 {
        -size
    } else {
        size
    }
}

/// The parts stay within the limit.
pub proof fn lemma_parts_in_range(bits: int, den: int, limit: int)
    requires
        bits >= 0,
        den > 0,
        limit >= 0,
    ensures
        -limit <= parts_in(bits, den, limit) <= limit,
{
    let exponent = bits / 0x80_0000 % 256;
    let whole = (bits % 0x80_0000 + 0x80_0000) * den;
    assert(whole >= 0) by (nonlinear_arith)
        requires
            whole == (bits % 0x80_0000 + 0x80_0000) * den,
            den > 0,
    ;
    if exponent < 150 {
        let p = pow2((150 - exponent) as nat) as int;
        lemma_pow2_pos((150 - exponent) as nat);
        lemma_near(whole, p);
        assert(whole / p >= 0) by (nonlinear_arith)
            requires
                whole >= 0,
                p > 0,
        ;
    } else {
        let p = pow2((exponent - 150) as nat) as int;
        assert(whole * p >= 0) by (nonlinear_arith)
            requires
                whole >= 0,
                p >= 0,
        ;
    }
}

/// Doubling comes to an end, and gives the ratio its twenty-four digits.
proof fn lemma_bits_from(num: int, den: int, k: int) -> (j: nat)
    requires
        den > 0,
        0 < num < 0x100_0000 * den,
    ensures
        0x80_0000 * den <= num * pow2(j) < 0x100_0000 * den,
        bits_from(num, den, k) == (149 - k - j) * 0x80_0000 + nearest(num * pow2(j), den),
    decreases 0x100_0000 * den - num,
{
    lemma2_to64();
    if num >= 0x80_0000 * den {
        0
    } else {
        let j = lemma_bits_from(2 * num, den, k + 1);
        lemma_pow2_unfold(j + 1);
        assert((2 * num) * pow2(j) == num * (2 * pow2(j))) by (nonlinear_arith);
        j + 1
    }
}

/// The bits of a single precision number near a ratio. The ratio is less than two
/// to the power of forty.
pub fn single_bits(num: i64, den: u32) -> (bits: u32)
    requires
        0x80_0000 < den < 0x100_0000,
    ensures
        bits == bits_of(num as int, den as int),
{
    if num == 0 {
        return 0;
    }
    let size: u128 = if num > 0 {
        num as u128
    } else {
        (-(num as i128)) as u128
    };
    let wide: u128 = den as u128 * 0x100_0000_0000;
    let mut top: u128 = size;
    let mut k: i32 = -40;
    proof {
        lemma2_to64();
    }
    while top < 0x80_0000 * wide
        invariant
            wide == den * 0x100_0000_0000,
            0x80_0000 < den < 0x100_0000,
            -40 <= k <= 60,
            top > 0,
            pow2((k + 40) as nat) <= top < 0x100_0000 * wide,
            bits_from(size as int, wide as int, -40) == bits_from(
                top as int,
                wide as int,
                k as int,
            ),
        decreases 0x100_0000 * wide - top,
    {
        proof {
            lemma_pow2_unfold((k + 41) as nat);
            if k >= 59 {
                lemma2_to64_rest();
                lemma2_to64();
                lemma_pow2_adds(64, 35);
                if k > 59 {
                    lemma_pow2_strictly_increases(99, (k + 40) as nat);
                }
                assert(pow2(99) > 0x100_0000 * (0x100_0000 * 0x100_0000_0000));
            }
        }
        top = 2 * top;
        k = k + 1;
    }
    proof {
        lemma_near(top as int, wide as int);
        lemma_fundamental_div_mod(top as int, wide as int);
        assert(top as int / wide as int <= 0xFF_FFFF) by (nonlinear_arith)
            requires
                top < 0x100_0000 * wide,
                top as int == wide as int * (top as int / wide as int) + top as int % wide as int,
                0 <= top as int % wide as int,
                wide > 0,
        ;
        assert(top as int / wide as int >= 0) by (nonlinear_arith)
            requires
                top >= 0,
                wide > 0,
        ;
    }
    let digits: u32 = nearest_ratio(top, wide) as u32;
    let size_bits: u32 = (149 - k) as u32 * 0x80_0000 + digits;
    if num > 0 {
        size_bits
    } else {
        0x8000_0000 + size_bits
    }
}

/// A power of two.
fn power(k: u32) -> (p: u128)
    requires
        k <= 100,
    ensures
        p == pow2(k as nat),
        0 < p <= 0x10_0000_0000_0000_0000_0000_0000,
{
    proof {
        lemma2_to64();
        lemma2_to64_rest();
        lemma_pow2_adds(64, 36);
        if k < 100 {
            lemma_pow2_strictly_increases(k as nat, 100);
        }
    }
    let mut p: u128 = 1;
    for i in 0..k
        invariant
            p == pow2(i as nat),
            p > 0,
            pow2(k as nat) <= 0x10_0000_0000_0000_0000_0000_0000,
    {
        proof {
            lemma_pow2_unfold((i + 1) as nat);
            if i + 1 < k {
                lemma_pow2_strictly_increases((i + 1) as nat, k as nat);
            }
        }
        p = 2 * p;
    }
    p
}

/// The number of parts of `1 / den` in a single precision number, up to a limit on
/// either side.
pub fn parts_of_single(bits: u32, den: u32, limit: i64) -> (parts: i64)
    requires
        0x80_0000 < den < 0x100_0000,
        0 <= limit < 0x1000_0000_0000_0000,
    ensures
        parts == parts_in(bits as int, den as int, limit as int),
{
    let exponent: u32 = bits / 0x80_0000 % 256;
    let digits: u32 = bits % 0x80_0000;
    let ghost exact = size_in_parts(bits as int, den as int);
    assert(0x80_0000 * 0x80_0000 <= (digits + 0x80_0000) * den < 0x100_0000 * 0x100_0000)
        by (nonlinear_arith)
        requires
            digits < 0x80_0000,
            0x80_0000 < den < 0x100_0000,
    ;
    let whole: u128 = (digits as u128 + 0x80_0000) * den as u128;
    let size: u128 = if exponent == 0 || exponent == 255 && digits > 0 {
        0
    } else if exponent < 50 {
        proof {
            lemma2_to64();
            lemma_pow2_strictly_increases(64, (150 - exponent) as nat);
            lemma_nearest(whole as int, pow2((150 - exponent) as nat) as int, 0);
        }
        0
    } else if exponent < 150 {
        nearest_ratio(whole, power(150 - exponent))
    } else if exponent < 180 {
        let p: u128 = power(exponent - 150);
        proof {
            lemma2_to64();
            lemma_pow2_strictly_increases((exponent - 150) as nat, 30);
            assert(0 <= whole * p <= 0x1_0000_0000_0000 * 0x4000_0000) by (nonlinear_arith)
                requires
                    whole <= 0x1_0000_0000_0000,
                    p <= 0x4000_0000,
            ;
        }
        whole * p
    } else {
        proof {
            lemma2_to64();
            if exponent > 180 {
                lemma_pow2_strictly_increases(30, (exponent - 150) as nat);
            }
            let p = pow2((exponent - 150) as nat);
            assert(whole * p >= 0x4000_0000_0000 * 0x4000_0000) by (nonlinear_arith)
                requires
                    whole >= 0x4000_0000_0000,
                    p >= 0x4000_0000,
            ;
        }
        0x1000_0000_0000_0000
    };
    assert(size == exact || size > limit && exact > limit);
    let capped: i64 = if size <= limit as u128 {
        size as i64
    } else {
        limit
    };
    if bits >= 0x8000_0000 {
        -capped
    } else {
        capped
    }
}

/// The digits of a part of a whole, and how often it is doubled to have that many.
proof fn lemma_bits_of_a_part(part: int, den: int) -> (k: nat)
    requires
        0 < part < den < 0x100_0000,
    ensures
        24 <= k < 48,
        0x80_0000 <= nearest(part * pow2(k), den) < 0x100_0000,
        bits_of(part, den) == (149 - k) * 0x80_0000 + nearest(part * pow2(k), den),
{
    let c = 0x100_0000_0000int;
    assert(part < 0x100_0000 * (den * c)) by (nonlinear_arith)
        requires
            0 <= part < den,
            c == 0x100_0000_0000,
    ;
    let j = lemma_bits_from(part, den * c, -40);
    lemma2_to64();
    lemma2_to64_rest();
    // The ratio is less than one, so it is doubled often enough to shift it by
    // all of its digits.
    assert(pow2(j) > 0x8000_0000_0000_0000) by (nonlinear_arith)
        requires
            0x80_0000 * (den * c) <= part * pow2(j),
            c == 0x100_0000_0000,
            0 < part < den,
    ;
    if j <= 63 {
        if j < 63 {
            lemma_pow2_strictly_increases(j, 63);
        }
    }
    assert(pow2(j) < 0x100_0000 * (0x100_0000 * c)) by (nonlinear_arith)
        requires
            part * pow2(j) < 0x100_0000 * (den * c),
            c == 0x100_0000_0000,
            0 < part < den < 0x100_0000,
    ;
    lemma_pow2_adds(64, 24);
    if j >= 88 {
        if j > 88 {
            lemma_pow2_strictly_increases(88, j);
        }
    }
    let k = (j - 40) as nat;
    let shift = pow2(k) as int;
    lemma_pow2_adds(k, 40);
    let n = part * shift;
    assert(part * pow2(j) == n * c) by (nonlinear_arith)
        requires
            pow2(j) == shift * c,
            n == part * shift,
    ;
    assert(0x80_0000 * den <= n < 0x100_0000 * den) by (nonlinear_arith)
        requires
            0x80_0000 * (den * c) <= n * c < 0x100_0000 * (den * c),
            c > 0,
    ;
    lemma_nearest_scales(n, den, c);
    let m = nearest(n, den);
    lemma_near(n, den);
    lemma_fundamental_div_mod(n, den);
    assert(0x80_0000 <= n / den < 0x100_0000) by (nonlinear_arith)
        requires
            0x80_0000 * den <= n < 0x100_0000 * den,
            n == den * (n / den) + n % den,
            0 <= n % den < den,
    ;
    // The digits never round up to one more: the gap to the next power of two
    // is a multiple of more than half a step.
    lemma_pow2_adds(24, (k - 24) as nat);
    let room = 0x100_0000 * den - n;
    let rest = den - part * pow2((k - 24) as nat);
    assert(room == 0x100_0000 * rest) by (nonlinear_arith)
        requires
            room == 0x100_0000 * den - part * shift,
            shift == 0x100_0000 * pow2((k - 24) as nat),
            rest == den - part * pow2((k - 24) as nat),
    ;
    assert(rest >= 1);
    if m == 0x100_0000 {
        assert(false);
    }
    k
}

/// The parts of a whole come through single precision unharmed, as long as a whole
/// has fewer than sixteen million of them.
pub proof fn law_parts_survive_single_precision(part: int, den: int, limit: int)
    requires
        0 <= part < den < 0x100_0000,
        den <= limit,
    ensures
        0 <= bits_of(part, den) < 0x8000_0000,
        parts_in(bits_of(part, den), den, limit) == part,
{
    if part > 0 {
        let k = lemma_bits_of_a_part(part, den);
        let shift = pow2(k) as int;
        let m = nearest(part * shift, den);
        let bits = bits_of(part, den);
        lemma_near(part * shift, den);
        assert(bits / 0x80_0000 == 150 - k);
        assert(bits % 0x80_0000 == m - 0x80_0000);
        lemma2_to64();
        lemma_pow2_pos(k);
        if k > 24 {
            lemma_pow2_strictly_increases(24, k);
        }
        lemma_nearest(m * den, shift, part);
    } else {
        assert(parts_in(0, den, limit) == 0);
    }
}

/// The bits of a part of a whole are those of the single precision number nearest to
/// it: an exponent, counted from 150, and twenty-three digits below a leading one,
/// that together are off by at most half a step.
pub proof fn law_the_bits_name_the_nearest_single(part: int, den: int)
    requires
        0 < part < den < 0x100_0000,
    ensures
        ({
            let bits = bits_of(part, den);
            let (exponent, digits) = (bits / 0x80_0000, bits % 0x80_0000 + 0x80_0000);
            let off = part * pow2((150 - exponent) as nat) - digits * den;
            &&& 102 < exponent <= 126
            &&& -den <= 2 * off <= den
        }),
{
    let k = lemma_bits_of_a_part(part, den);
    let m = nearest(part * pow2(k), den);
    assert(bits_of(part, den) / 0x80_0000 == 150 - k);
    assert(bits_of(part, den) % 0x80_0000 == m - 0x80_0000);
    law_nearest_is_nearest(part * pow2(k), den);
}

/// The nearest whole number is off by at most a half, and in the middle it is the even
/// one.
pub proof fn law_nearest_is_nearest(n: int, d: int)
    requires
        d > 0,
    ensures
        ({
            let off = n - nearest(n, d) * d;
            &&& -d <= 2 * off <= d
            &&& 2 * off == d || 2 * off == -d ==> nearest(n, d) % 2 == 0
        }),
{
    let (q, r) = (n / d, n % d);
    vstd::arithmetic::div_mod::lemma_fundamental_div_mod(n, d);
    vstd::arithmetic::div_mod::lemma_mod_bound(n, d);
    assert(q * d == d * q) by (nonlinear_arith);
    assert((q + 1) * d == d * q + d) by (nonlinear_arith);
}

} // verus!
