use vstd::prelude::*;

use crate::nbt_number::{binary_floor, lemma_power2_grows, lemma_power2_positive, power2};
use vstd::arithmetic::div_mod::lemma_fundamental_div_mod;

verus! {

/// A finite IEEE 754 double: `(-1)^negative × significand × 2^exponent`.
///
/// The significand is either zero, with a clear sign and a zero exponent, or holds
/// exactly 53 bits. Zero carries no sign: nothing computed here can tell the two zeros
/// apart.
#[derive(Debug, Clone, Copy, PartialEq, Eq, Structural)]
pub struct Double {
    pub negative: bool,
    pub significand: u64,
    pub exponent: i64,
}

/// The bound on exponents that keeps every computation here far from overflow.
pub open spec fn exponent_bound() -> int {
    0x100_0000_0000
}

/// Whether a value is a double in the form above, with its exponent in bounds.
pub open spec fn is_double(d: Double) -> bool {
    &&& (d.significand == 0 && !d.negative && d.exponent == 0) || (power2(52) <= d.significand
        < power2(53))
    &&& -exponent_bound() <= d.exponent <= exponent_bound()
}

pub open spec fn zero() -> Double {
    Double { negative: false, significand: 0, exponent: 0 }
}

/// The number of binary digits of `n`.
pub open spec fn bit_length(n: nat) -> nat
    decreases n,
{
    if n == 0 {
        0
    } else {
        1 + bit_length(n / 2)
    }
}

/// `±n × 2^e` rounded to the nearest double, ties to the even significand.
pub closed spec fn rounded(negative: bool, n: int, e: int) -> Double {
    if n <= 0 {
        zero()
    } else {
        let length = bit_length(n as nat) as int;
        if length <= 53 {
            Double {
                negative,
                significand: (n * power2(53 - length)) as u64,
                exponent: (e - (53 - length)) as i64,
            }
        } else {
            let dropped = length - 53;
            let kept = n / power2(dropped);
            let rest = n % power2(dropped);
            let half = power2(dropped - 1);
            let up = rest > half || (rest == half && kept % 2 == 1);
            let significand = if up {
                kept + 1
            } else {
                kept
            };
            if significand == power2(53) {
                Double {
                    negative,
                    significand: power2(52) as u64,
                    exponent: (e + dropped + 1) as i64,
                }
            } else {
                Double { negative, significand: significand as u64, exponent: (e + dropped) as i64 }
            }
        }
    }
}

pub proof fn lemma_power2_adds(a: int, b: int)
    requires
        0 <= a,
        0 <= b,
    ensures
        power2(a + b) == power2(a) * power2(b),
    decreases b,
{
    if b > 0 {
        lemma_power2_adds(a, b - 1);
        assert(power2(a) * power2(b) == power2(a) * (2 * power2(b - 1))) by {
            assert(power2(b) == 2 * power2(b - 1));
        }
        assert(power2(a) * (2 * power2(b - 1)) == 2 * (power2(a) * power2(b - 1))) by (
        nonlinear_arith);
    }
}

/// `bit_length(n)` is the `b` with `2^(b-1) <= n < 2^b`.
pub proof fn lemma_bit_length_bounds(n: nat)
    ensures
        n > 0 ==> power2(bit_length(n) - 1) <= n < power2(bit_length(n as nat) as int),
        n == 0 ==> bit_length(n) == 0,
        n > 0 ==> bit_length(n) >= 1,
    decreases n,
{
    if n > 0 {
        lemma_bit_length_bounds(n / 2);
        let b = bit_length(n / 2);
        if n / 2 == 0 {
            assert(n == 1);
        } else {
            assert(power2(b as int) == 2 * power2(b - 1));
        }
        assert(power2(b + 1 as int) == 2 * power2(b as int));
    }
}

/// The `b` with `2^(b-1) <= n < 2^b` is the bit length.
pub proof fn lemma_bit_length_is(n: nat, b: int)
    requires
        b >= 1,
        power2(b - 1) <= n < power2(b),
    ensures
        bit_length(n) == b,
{
    lemma_bit_length_bounds(n);
    lemma_power2_positive(b - 1);
    let found = bit_length(n) as int;
    if found < b {
        lemma_power2_grows(found, b - 1);
    } else if found > b {
        lemma_power2_grows(b, found - 1);
    }
}

/// The powers of two the arithmetic below leans on.
pub proof fn lemma_power2_values()
    ensures
        power2(52) == 0x10_0000_0000_0000,
        power2(53) == 0x20_0000_0000_0000,
        power2(63) == 0x8000_0000_0000_0000,
        power2(64) == 0x1_0000_0000_0000_0000,
        power2(126) == 0x4000_0000_0000_0000_0000_0000_0000_0000,
        power2(127) == 0x8000_0000_0000_0000_0000_0000_0000_0000,
        power2(128) == 0x1_0000_0000_0000_0000_0000_0000_0000_0000,
{
    assert(power2(64) == 0x1_0000_0000_0000_0000) by {
        reveal_with_fuel(power2, 65);
    }
    lemma_power2_adds(64, 64);
    lemma_power2_adds(63, 64);
    lemma_power2_adds(62, 64);
    assert(power2(62) == 0x4000_0000_0000_0000) by {
        reveal_with_fuel(power2, 63);
    }
    assert(power2(52) == 0x10_0000_0000_0000) by {
        reveal_with_fuel(power2, 53);
    }
    assert(power2(53) == 0x20_0000_0000_0000) by {
        reveal_with_fuel(power2, 54);
    }
    assert(power2(63) == 0x8000_0000_0000_0000) by {
        reveal_with_fuel(power2, 64);
    }
}

/// Past the bit length, powers of two exceed the number.
pub proof fn lemma_bit_length_at_most(n: nat, b: int)
    requires
        b >= 0,
        n < power2(b),
    ensures
        bit_length(n) <= b,
{
    lemma_bit_length_bounds(n);
    if n > 0 && bit_length(n) > b {
        lemma_power2_grows(b, bit_length(n) - 1);
    }
}

pub(crate) fn power_of_two(exponent: u32) -> (power: u128)
    requires
        exponent < 127,
    ensures
        power == power2(exponent as int),
{
    let mut power: u128 = 1;
    let mut done: u32 = 0;
    while done < exponent
        invariant
            done <= exponent < 127,
            power == power2(done as int),
        decreases exponent - done,
    {
        proof {
            lemma_power2_grows(done + 1, 126);
            lemma_power2_values();
        }
        power = power * 2;
        done += 1;
    }
    power
}

pub(crate) fn bits_of(n: u128) -> (length: u32)
    ensures
        length == bit_length(n as nat),
        length <= 128,
{
    proof {
        lemma_power2_values();
        lemma_bit_length_at_most(n as nat, 128);
    }
    let mut rest = n;
    let mut length: u32 = 0;
    while rest > 0
        invariant
            bit_length(n as nat) == length + bit_length(rest as nat),
            length + bit_length(rest as nat) <= 128,
        decreases rest,
    {
        rest = rest / 2;
        length += 1;
    }
    length
}

/// The double nearest an integer.
pub open spec fn from_integer(n: int) -> Double {
    if n < 0 {
        rounded(true, -n, 0)
    } else {
        rounded(false, n, 0)
    }
}

/// `0.5`.
pub open spec fn one_half() -> Double {
    Double { negative: false, significand: 0x10_0000_0000_0000, exponent: -53i64 }
}

/// The product of two doubles, rounded.
pub open spec fn product_of(x: Double, y: Double) -> Double {
    rounded(x.negative != y.negative, x.significand * y.significand, x.exponent + y.exponent)
}

/// The quotient of two doubles, rounded: the significands' ratio, scaled to 53 bits,
/// rounded half to even by its remainder.
pub open spec fn quotient_of(x: Double, y: Double) -> Double {
    if x.significand == 0 {
        zero()
    } else {
        let shift: int = if x.significand >= y.significand {
            52
        } else {
            53
        };
        let scaled = x.significand * power2(shift);
        let kept = scaled / (y.significand as int);
        let rest = scaled % (y.significand as int);
        let up = 2 * rest > y.significand || (2 * rest == y.significand && kept % 2 == 1);
        let significand = if up {
            kept + 1
        } else {
            kept
        };
        let exponent = x.exponent - y.exponent - shift;
        if significand == power2(53) {
            Double {
                negative: x.negative != y.negative,
                significand: power2(52) as u64,
                exponent: (exponent + 1) as i64,
            }
        } else {
            Double {
                negative: x.negative != y.negative,
                significand: significand as u64,
                exponent: exponent as i64,
            }
        }
    }
}

/// A double's significand with its sign.
pub open spec fn signed_significand(d: Double) -> int {
    if d.negative {
        -(d.significand as int)
    } else {
        d.significand as int
    }
}

/// The sum of two doubles, rounded: both are brought to the smaller exponent, added
/// exactly, and the result rounded.
pub open spec fn sum_of(x: Double, y: Double) -> Double {
    let low = if x.exponent <= y.exponent {
        x.exponent as int
    } else {
        y.exponent as int
    };
    let total = signed_significand(x) * power2(x.exponent - low) + signed_significand(y) * power2(
        y.exponent - low,
    );
    if total < 0 {
        rounded(true, -total, low)
    } else {
        rounded(false, total, low)
    }
}

/// `x` with its sign flipped; zero stays as it is.
pub open spec fn negated(x: Double) -> Double {
    if x.significand == 0 {
        x
    } else {
        Double { negative: !x.negative, ..x }
    }
}

/// The difference of two doubles, rounded.
pub open spec fn difference_of(x: Double, y: Double) -> Double {
    sum_of(x, negated(y))
}

/// `floor(x)` clamped to `0..=max`, as a saturating float-to-integer cast of the floor
/// gives it.
pub open spec fn clamped_floor(x: Double, max: int) -> int {
    let floored = binary_floor(x.negative, x.significand as int, x.exponent as int);
    if floored < 0 {
        0
    } else if floored > max {
        max
    } else {
        floored
    }
}

/// Whether the sum of two exponents' sizes leaves room for an operation.
pub open spec fn exponents_fit(x: Double, y: Double) -> bool {
    &&& -exponent_bound() / 8 <= x.exponent <= exponent_bound() / 8
    &&& -exponent_bound() / 8 <= y.exponent <= exponent_bound() / 8
}

/// A number between two multiples of `d` has its quotient between the factors.
pub proof fn lemma_quotient_range(n: int, d: int, low: int, high: int)
    requires
        d > 0,
        low * d <= n < high * d,
    ensures
        low <= n / d < high,
        0 <= n % d < d,
{
    lemma_fundamental_div_mod(n, d);
    let q = n / d;
    let r = n % d;
    assert(low <= q) by (nonlinear_arith)
        requires
            n == d * q + r,
            0 <= r < d,
            low * d <= n,
            d > 0,
    ;
    assert(q < high) by (nonlinear_arith)
        requires
            n == d * q + r,
            0 <= r < d,
            n < high * d,
            d > 0,
    ;
}

/// Rounds `±n × 2^e` to the nearest double, ties to the even significand.
fn round(negative: bool, n: u128, e: i64) -> (d: Double)
    requires
        -exponent_bound() / 2 <= e <= exponent_bound() / 2,
    ensures
        d == rounded(negative, n as int, e as int),
        is_double(d),
        n > 0 ==> e - 53 <= d.exponent <= e + 76,
        n > 0 <==> d.significand != 0,
{
    if n == 0 {
        return Double { negative: false, significand: 0, exponent: 0 };
    }
    let length = bits_of(n);
    proof {
        lemma_bit_length_bounds(n as nat);
        lemma_power2_values();
    }
    if length <= 53 {
        let shift = 53 - length;
        let scale = power_of_two(shift);
        proof {
            lemma_power2_positive(shift as int);
            lemma_power2_adds(length - 1, shift as int);
            lemma_power2_adds(length as int, shift as int);
            assert(power2(length - 1) * scale <= n * scale < power2(length as int) * scale) by (
            nonlinear_arith)
                requires
                    power2(length - 1) <= n < power2(length as int),
                    scale >= 1,
            ;
        }
        let significand = (n * scale) as u64;
        return Double { negative, significand, exponent: e - (shift as i64) };
    }
    let dropped = length - 53;
    let scale = power_of_two(dropped);
    proof {
        lemma_power2_adds(52, dropped as int);
        lemma_power2_adds(53, dropped as int);
        assert(power2(length - 1) == power2(52 + dropped));
        assert(power2(length as int) == power2(53 + dropped));
        lemma_quotient_range(n as int, scale as int, power2(52), power2(53));
        assert(scale == 2 * power2(dropped - 1));
    }
    let kept = n / scale;
    let rest = n % scale;
    let half = scale / 2;
    let up = rest > half || (rest == half && kept % 2 == 1);
    let significand: u128 = if up {
        kept + 1
    } else {
        kept
    };
    if significand == 0x20_0000_0000_0000 {
        Double {
            negative,
            significand: 0x10_0000_0000_0000,
            exponent: e + (dropped as i64) + 1,
        }
    } else {
        Double { negative, significand: significand as u64, exponent: e + (dropped as i64) }
    }
}

/// The sum does not depend on the order of its operands.
pub proof fn lemma_sum_commutes(x: Double, y: Double)
    ensures
        sum_of(x, y) == sum_of(y, x),
{
}

/// A double's own value, written with `k` more bits, rounds back to the double.
proof fn lemma_rounded_own_value(d: Double, k: int)
    requires
        is_double(d),
        d.significand != 0,
        k >= 0,
    ensures
        rounded(d.negative, d.significand * power2(k), d.exponent - k) == d,
{
    lemma_power2_values();
    lemma_power2_positive(k);
    let sig = d.significand as int;
    let n = sig * power2(k);
    lemma_power2_adds(52, k);
    lemma_power2_adds(53, k);
    assert(power2(52) * power2(k) <= n < power2(53) * power2(k)) by (nonlinear_arith)
        requires
            power2(52) <= sig < power2(53),
            power2(k) >= 1,
            n == sig * power2(k),
    ;
    lemma_bit_length_is(n as nat, 53 + k);
    if k == 0 {
        assert(power2(0) == 1);
        assert(n == sig);
    } else {
        assert(n < (sig + 1) * power2(k)) by (nonlinear_arith)
            requires
                n == sig * power2(k),
                power2(k) >= 1,
        ;
        lemma_quotient_range(n, power2(k), sig, sig + 1);
        assert(n % power2(k) == 0) by {
            lemma_fundamental_div_mod(n, power2(k));
            assert(n / power2(k) == sig);
            assert(n == power2(k) * sig + n % power2(k));
            assert(power2(k) * sig == n) by (nonlinear_arith)
                requires
                    n == sig * power2(k),
            ;
        }
        lemma_power2_positive(k - 1);
    }
}

/// Adding zero gives the other operand.
proof fn lemma_sum_with_zero(zero_operand: Double, d: Double)
    requires
        is_double(zero_operand),
        zero_operand.significand == 0,
        is_double(d),
    ensures
        sum_of(zero_operand, d) == d,
        sum_of(d, zero_operand) == d,
{
    lemma_sum_commutes(zero_operand, d);
    assert(signed_significand(zero_operand) == 0);
    let sig = d.significand as int;
    if d.significand == 0 {
        assert(sum_of(zero_operand, d) == zero());
    } else if d.exponent <= 0 {
        lemma_rounded_own_value(d, 0);
        assert(power2(0) == 1);
        assert(0 * power2(0 - d.exponent) == 0) by (nonlinear_arith);
        assert(signed_significand(d) * power2(0) == signed_significand(d));
        assert(sig * power2(0) == sig);
    } else {
        let k = d.exponent as int;
        lemma_power2_positive(k);
        lemma_rounded_own_value(d, k);
        assert(power2(0) == 1);
        assert(0 * power2(0) == 0) by (nonlinear_arith);
        assert(-(-sig * power2(k)) == sig * power2(k)) by (nonlinear_arith);
        assert(signed_significand(d) * power2(k) < 0 <==> d.negative) by (nonlinear_arith)
            requires
                sig >= 1,
                power2(k) >= 1,
                signed_significand(d) == if d.negative {
                    -sig
                } else {
                    sig
                },
        ;
    }
}

/// A double whose exponent exceeds the other's by more than seventy absorbs it: the
/// smaller one is less than a quarter of the larger one's last place.
proof fn lemma_tiny_addend(big: Double, small: Double)
    requires
        is_double(big),
        is_double(small),
        big.significand != 0,
        small.significand != 0,
        big.exponent - small.exponent > 70,
    ensures
        sum_of(big, small) == big,
        sum_of(small, big) == big,
{
    lemma_sum_commutes(big, small);
    lemma_power2_values();
    let gap = big.exponent - small.exponent;
    let low = small.exponent as int;
    let b = big.significand as int;
    let p = power2(gap);
    let h = power2(gap - 1);
    let q = power2(gap - 2);
    assert(p == 2 * h && h == 2 * q);
    lemma_power2_grows(53, gap - 2);
    assert(power2(0) == 1);
    let delta = if big.negative {
        -signed_significand(small)
    } else {
        signed_significand(small)
    };
    assert(-power2(53) < delta < power2(53));
    let m = b * p;
    let total = signed_significand(big) * p + signed_significand(small);
    let t = m + delta;
    assert(m >= power2(52) * p) by (nonlinear_arith)
        requires
            b >= power2(52),
            p >= 1,
            m == b * p,
    ;
    assert(power2(52) * p >= power2(52) * 4 * power2(53)) by (nonlinear_arith)
        requires
            p == 4 * q,
            q >= power2(53),
            power2(52) >= 1,
    ;
    assert(signed_significand(big) * p == if big.negative {
        -(b * p)
    } else {
        b * p
    }) by (nonlinear_arith)
        requires
            signed_significand(big) == if big.negative {
                -b
            } else {
                b
            },
    ;
    if big.negative {
        assert(total == -t);
        assert(total < 0);
    } else {
        assert(total == t);
        assert(total >= 0);
    }
    lemma_power2_adds(52, gap as int);
    lemma_power2_adds(53, gap as int);
    lemma_power2_adds(52, gap - 1);
    lemma_power2_adds(53, gap - 1);
    if delta >= 0 {
        assert(b * p <= t < (b + 1) * p) by (nonlinear_arith)
            requires
                t == b * p + delta,
                0 <= delta < power2(53),
                power2(53) <= q,
                p == 4 * q,
        ;
        assert((b + 1) * p <= power2(53) * p) by (nonlinear_arith)
            requires
                b + 1 <= power2(53),
                p >= 1,
        ;
        assert(power2(52) * p <= b * p) by (nonlinear_arith)
            requires
                power2(52) <= b,
                p >= 1,
        ;
        lemma_bit_length_is(t as nat, 53 + gap);
        lemma_quotient_range(t, p, b, b + 1);
        lemma_fundamental_div_mod(t, p);
        assert(t % p == delta) by (nonlinear_arith)
            requires
                t == p * (t / p) + t % p,
                t / p == b,
                t == b * p + delta,
        ;
    } else if b > power2(52) {
        assert((b - 1) * p <= t < b * p) by (nonlinear_arith)
            requires
                t == b * p + delta,
                -power2(53) < delta < 0,
                power2(53) <= q,
                p == 4 * q,
        ;
        assert(power2(52) * p <= (b - 1) * p) by (nonlinear_arith)
            requires
                power2(52) <= b - 1,
                p >= 1,
        ;
        assert(b * p <= power2(53) * p) by (nonlinear_arith)
            requires
                b <= power2(53),
                p >= 1,
        ;
        lemma_bit_length_is(t as nat, 53 + gap);
        lemma_quotient_range(t, p, b - 1, b);
        lemma_fundamental_div_mod(t, p);
        assert(t % p == p + delta) by (nonlinear_arith)
            requires
                t == p * (t / p) + t % p,
                t / p == b - 1,
                t == b * p + delta,
        ;
    } else {
        assert(b == power2(52));
        assert(t == power2(52) * p + delta);
        assert(power2(52) * p == power2(53) * h) by (nonlinear_arith)
            requires
                p == 2 * h,
                power2(53) == 2 * power2(52),
        ;
        assert((power2(53) - 1) * h <= t < power2(53) * h) by (nonlinear_arith)
            requires
                t == power2(53) * h + delta,
                -power2(53) < delta < 0,
                power2(53) <= q,
                h == 2 * q,
        ;
        assert(power2(52) * h <= (power2(53) - 1) * h) by (nonlinear_arith)
            requires
                power2(53) == 2 * power2(52),
                power2(52) >= 1,
                h >= 1,
        ;
        lemma_bit_length_is(t as nat, 52 + gap);
        lemma_quotient_range(t, h, power2(53) - 1, power2(53));
        lemma_fundamental_div_mod(t, h);
        assert(t % h == h + delta) by (nonlinear_arith)
            requires
                t == h * (t / h) + t % h,
                t / h == power2(53) - 1,
                t == power2(53) * h + delta,
        ;
    }
}

/// The sum of two doubles.
pub fn sum(x: Double, y: Double) -> (sum: Double)
    requires
        is_double(x),
        is_double(y),
        exponents_fit(x, y),
    ensures
        sum == sum_of(x, y),
        is_double(sum),
        sum.significand == 0 || (x.exponent - 53 <= sum.exponent || y.exponent - 53
            <= sum.exponent) && (sum.exponent <= x.exponent + 76 || sum.exponent <= y.exponent
            + 76),
{
    if x.significand == 0 {
        proof {
            lemma_sum_with_zero(x, y);
        }
        return y;
    }
    if y.significand == 0 {
        proof {
            lemma_sum_with_zero(y, x);
        }
        return x;
    }
    proof {
        lemma_sum_commutes(x, y);
        lemma_power2_values();
    }
    let (big, small) = if x.exponent >= y.exponent {
        (x, y)
    } else {
        (y, x)
    };
    let gap: i64 = big.exponent - small.exponent;
    if gap > 70 {
        proof {
            lemma_tiny_addend(big, small);
        }
        return big;
    }
    let scale = power_of_two(gap as u32);
    proof {
        lemma_power2_grows(gap as int, 70);
        assert(power2(70) == 0x40_0000_0000_0000_0000) by {
            lemma_power2_adds(64, 6);
            assert(power2(6) == 64) by {
                reveal_with_fuel(power2, 7);
            }
        }
        assert((big.significand as int) * scale <= 0x20_0000_0000_0000 * 0x40_0000_0000_0000_0000) by (
        nonlinear_arith)
            requires
                big.significand < 0x20_0000_0000_0000,
                scale <= 0x40_0000_0000_0000_0000,
                scale >= 0,
        ;
        assert(power2(0) == 1);
    }
    let a: u128 = (big.significand as u128) * scale;
    let b: u128 = small.significand as u128;
    proof {
        assert(sum_of(x, y) == sum_of(big, small));
        let total = signed_significand(big) * power2(gap as int) + signed_significand(small)
            * power2(0);
        assert(signed_significand(big) * power2(gap as int) == if big.negative {
            -(a as int)
        } else {
            a as int
        }) by (nonlinear_arith)
            requires
                a == big.significand * power2(gap as int),
                signed_significand(big) == if big.negative {
                    -(big.significand as int)
                } else {
                    big.significand as int
                },
        ;
        assert(signed_significand(small) * power2(0) == signed_significand(small));
        if small.exponent <= big.exponent {
            assert(sum_of(big, small) == if total < 0 {
                rounded(true, -total, small.exponent as int)
            } else {
                rounded(false, total, small.exponent as int)
            }) by {
                if big.exponent <= small.exponent {
                    assert(big.exponent == small.exponent);
                    assert(gap == 0);
                }
            }
        }
    }
    if big.negative == small.negative {
        round(big.negative, a + b, small.exponent)
    } else if a >= b {
        round(big.negative, a - b, small.exponent)
    } else {
        round(small.negative, b - a, small.exponent)
    }
}

/// The difference of two doubles.
pub fn difference(x: Double, y: Double) -> (difference: Double)
    requires
        is_double(x),
        is_double(y),
        exponents_fit(x, y),
    ensures
        difference == difference_of(x, y),
        is_double(difference),
        difference.significand == 0 || (x.exponent - 53 <= difference.exponent || y.exponent - 53
            <= difference.exponent) && (difference.exponent <= x.exponent + 76
            || difference.exponent <= y.exponent + 76),
{
    let flipped = if y.significand == 0 {
        y
    } else {
        Double { negative: !y.negative, ..y }
    };
    sum(x, flipped)
}

/// The double nearest an integer.
pub fn from_u64(n: u64) -> (d: Double)
    ensures
        d == from_integer(n as int),
        is_double(d),
        -53 <= d.exponent <= 76,
        n > 0 <==> d.significand != 0,
{
    round(false, n as u128, 0)
}

/// The product of two doubles.
pub fn product(x: Double, y: Double) -> (product: Double)
    requires
        is_double(x),
        is_double(y),
        exponents_fit(x, y),
    ensures
        product == product_of(x, y),
        is_double(product),
        x.exponent + y.exponent - 53 <= product.exponent <= x.exponent + y.exponent + 76
            || product.significand == 0,
{
    proof {
        lemma_power2_values();
        assert((x.significand as int) * (y.significand as int) < 0x1_0000_0000_0000_0000_0000_0000_0000_0000) by (nonlinear_arith)
            requires
                x.significand < 0x20_0000_0000_0000,
                y.significand < 0x20_0000_0000_0000,
        ;
    }
    let magnitude: u128 = (x.significand as u128) * (y.significand as u128);
    round(x.negative != y.negative, magnitude, x.exponent + y.exponent)
}

/// The quotient of two doubles.
pub fn quotient(x: Double, y: Double) -> (quotient: Double)
    requires
        is_double(x),
        is_double(y),
        y.significand != 0,
        exponents_fit(x, y),
    ensures
        quotient == quotient_of(x, y),
        is_double(quotient),
        x.exponent - y.exponent - 53 <= quotient.exponent <= x.exponent - y.exponent
            || quotient.significand == 0,
{
    if x.significand == 0 {
        return Double { negative: false, significand: 0, exponent: 0 };
    }
    proof {
        lemma_power2_values();
    }
    let shift: u32 = if x.significand >= y.significand {
        52
    } else {
        53
    };
    let scale = power_of_two(shift);
    proof {
        assert((x.significand as int) * scale < 0x20_0000_0000_0000 * 0x20_0000_0000_0000) by (
        nonlinear_arith)
            requires
                x.significand < 0x20_0000_0000_0000,
                scale <= 0x20_0000_0000_0000,
                scale >= 0,
        ;
    }
    let scaled: u128 = (x.significand as u128) * scale;
    let divisor = y.significand as u128;
    proof {
        let sx = x.significand as int;
        let sy = y.significand as int;
        if shift == 52 {
            assert(scale == 0x10_0000_0000_0000);
            assert(0x10_0000_0000_0000 * sy <= sx * 0x10_0000_0000_0000);
            assert(sx * 0x10_0000_0000_0000 < 0x20_0000_0000_0000 * sy);
        } else {
            assert(scale == 0x20_0000_0000_0000);
            assert(0x10_0000_0000_0000 * sy <= sx * 0x20_0000_0000_0000);
            assert(sx * 0x20_0000_0000_0000 < 0x20_0000_0000_0000 * sy);
        }
        lemma_quotient_range(sx * scale, sy, power2(52), power2(53));
    }
    let kept = scaled / divisor;
    let rest = scaled % divisor;
    let up = 2 * rest > divisor || (2 * rest == divisor && kept % 2 == 1);
    let significand: u128 = if up {
        kept + 1
    } else {
        kept
    };
    let exponent: i64 = x.exponent - y.exponent - (shift as i64);
    if significand == 0x20_0000_0000_0000 {
        Double {
            negative: x.negative != y.negative,
            significand: 0x10_0000_0000_0000,
            exponent: exponent + 1,
        }
    } else {
        Double {
            negative: x.negative != y.negative,
            significand: significand as u64,
            exponent,
        }
    }
}

/// `floor(x)` clamped to `0..=max`.
pub fn floor_clamped(x: Double, max: u64) -> (floored: u64)
    requires
        is_double(x),
    ensures
        floored == clamped_floor(x, max as int),
{
    proof {
        lemma_power2_values();
    }
    let ghost sig = x.significand as int;
    if x.significand == 0 {
        proof {
            if x.exponent < 0 {
                lemma_power2_positive(-x.exponent);
            }
        }
        return 0;
    }
    if x.negative {
        proof {
            if x.exponent >= 0 {
                lemma_power2_positive(x.exponent as int);
                assert(-sig * power2(x.exponent as int) < 0) by (nonlinear_arith)
                    requires
                        sig >= 1,
                        power2(x.exponent as int) >= 1,
                ;
            } else {
                let p = power2(-x.exponent);
                lemma_power2_positive(-x.exponent);
                lemma_fundamental_div_mod(-sig, p);
                assert((-sig) / p < 0) by (nonlinear_arith)
                    requires
                        p >= 1,
                        sig >= 1,
                        -sig == p * ((-sig) / p) + (-sig) % p,
                        0 <= (-sig) % p < p,
                ;
            }
        }
        return 0;
    }
    if x.exponent >= 0 {
        if x.exponent >= 12 {
            proof {
                lemma_power2_grows(12, x.exponent as int);
                assert(power2(12) == 4096) by {
                    reveal_with_fuel(power2, 13);
                }
                assert(sig * power2(x.exponent as int) >= 0x10_0000_0000_0000 * 4096) by (
                nonlinear_arith)
                    requires
                        sig >= 0x10_0000_0000_0000,
                        power2(x.exponent as int) >= 4096,
                ;
            }
            return max;
        }
        let scale = power_of_two(x.exponent as u32);
        proof {
            lemma_power2_grows(x.exponent as int, 12);
            assert(power2(12) == 4096) by {
                reveal_with_fuel(power2, 13);
            }
            assert(sig * scale <= 0x20_0000_0000_0000 * 4096) by (nonlinear_arith)
                requires
                    sig < 0x20_0000_0000_0000,
                    scale <= 4096,
                    sig >= 0,
                    scale >= 0,
            ;
        }
        let value: u128 = (x.significand as u128) * scale;
        return if value > max as u128 {
            max
        } else {
            value as u64
        };
    }
    let shift = (-x.exponent) as u64;
    if shift >= 64 {
        proof {
            lemma_power2_grows(64, shift as int);
            lemma_quotient_range(sig, power2(shift as int), 0, 1);
        }
        return 0;
    }
    let scale = power_of_two(shift as u32);
    proof {
        lemma_power2_grows(shift as int, 63);
    }
    let value: u64 = ((x.significand as u128) / scale) as u64;
    proof {
        assert(sig < (sig + 1) * scale) by (nonlinear_arith)
            requires
                scale >= 1,
                sig >= 0,
        ;
        lemma_quotient_range(sig, scale as int, 0, sig + 1);
    }
    if value > max {
        max
    } else {
        value
    }
}

} // verus!
