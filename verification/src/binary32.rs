use vstd::prelude::*;

use crate::binary64::{
    bit_length, bits_of, lemma_bit_length_at_most, lemma_bit_length_bounds, lemma_bit_length_is, lemma_power2_adds,
    lemma_power2_values, lemma_quotient_range, power_of_two,
};
use crate::nbt_number::{binary_floor, lemma_power2_grows, lemma_power2_positive, power2};
use vstd::arithmetic::div_mod::{lemma_fundamental_div_mod, lemma_mul_mod_noop_general};

verus! {

/// The powers of two single precision leans on.
pub proof fn lemma_single_powers()
    ensures
        power2(23) == 0x80_0000,
        power2(24) == 0x100_0000,
        power2(40) == 0x100_0000_0000,
        power2(41) == 0x200_0000_0000,
{
    assert(power2(23) == 0x80_0000) by {
        reveal_with_fuel(power2, 24);
    }
    assert(power2(24) == 0x100_0000) by {
        reveal_with_fuel(power2, 25);
    }
    assert(power2(40) == 0x100_0000_0000) by {
        reveal_with_fuel(power2, 41);
    }
    assert(power2(41) == 0x200_0000_0000) by {
        reveal_with_fuel(power2, 42);
    }
}

/// A finite IEEE 754 single: `(-1)^negative × significand × 2^exponent`.
///
/// The significand is either zero, with a clear sign and a zero exponent, or holds
/// exactly 24 bits. Zero carries no sign: nothing computed here can tell the two zeros
/// apart.
#[derive(Debug, Clone, Copy, PartialEq, Eq, Structural)]
pub struct Single {
    pub negative: bool,
    pub significand: u64,
    pub exponent: i64,
}

/// The bound on exponents that keeps every computation here far from overflow.
pub open spec fn exponent_bound() -> int {
    0x100_0000_0000
}

/// Whether a value is a single in the form above, with its exponent in bounds.
pub open spec fn is_single(d: Single) -> bool {
    &&& (d.significand == 0 && !d.negative && d.exponent == 0) || (power2(23) <= d.significand
        < power2(24))
    &&& -exponent_bound() <= d.exponent <= exponent_bound()
}

pub open spec fn zero() -> Single {
    Single { negative: false, significand: 0, exponent: 0 }
}

/// `±n × 2^e` rounded to the nearest single, ties to the even significand.
pub closed spec fn rounded(negative: bool, n: int, e: int) -> Single {
    if n <= 0 {
        zero()
    } else {
        let length = bit_length(n as nat) as int;
        if length <= 24 {
            Single {
                negative,
                significand: (n * power2(24 - length)) as u64,
                exponent: (e - (24 - length)) as i64,
            }
        } else {
            let dropped = length - 24;
            let kept = n / power2(dropped);
            let rest = n % power2(dropped);
            let half = power2(dropped - 1);
            let up = rest > half || (rest == half && kept % 2 == 1);
            let significand = if up {
                kept + 1
            } else {
                kept
            };
            if significand == power2(24) {
                Single {
                    negative,
                    significand: power2(23) as u64,
                    exponent: (e + dropped + 1) as i64,
                }
            } else {
                Single { negative, significand: significand as u64, exponent: (e + dropped) as i64 }
            }
        }
    }
}

/// The single nearest an integer.
pub open spec fn from_integer(n: int) -> Single {
    if n < 0 {
        rounded(true, -n, 0)
    } else {
        rounded(false, n, 0)
    }
}

/// `0.5`.
pub open spec fn one_half() -> Single {
    Single { negative: false, significand: 0x80_0000, exponent: -24i64 }
}

/// The product of two singles, rounded.
pub closed spec fn product_of(x: Single, y: Single) -> Single {
    rounded(x.negative != y.negative, x.significand * y.significand, x.exponent + y.exponent)
}

/// The quotient of two singles, rounded: the significands' ratio, scaled to 24 bits,
/// rounded half to even by its remainder.
pub closed spec fn quotient_of(x: Single, y: Single) -> Single {
    if x.significand == 0 {
        zero()
    } else {
        let shift: int = if x.significand >= y.significand {
            23
        } else {
            24
        };
        let scaled = x.significand * power2(shift);
        let kept = scaled / (y.significand as int);
        let rest = scaled % (y.significand as int);
        let up = 2 * rest > y.significand || (2 * rest == y.significand && kept % 2 == 1);
        let significand = if up {
            kept + 1
        } else {
            kept
        };
        let exponent = x.exponent - y.exponent - shift;
        if significand == power2(24) {
            Single {
                negative: x.negative != y.negative,
                significand: power2(23) as u64,
                exponent: (exponent + 1) as i64,
            }
        } else {
            Single {
                negative: x.negative != y.negative,
                significand: significand as u64,
                exponent: exponent as i64,
            }
        }
    }
}

/// A single's significand with its sign.
pub open spec fn signed_significand(d: Single) -> int {
    if d.negative {
        -(d.significand as int)
    } else {
        d.significand as int
    }
}

/// The sum of two singles, rounded: both are brought to the smaller exponent, added
/// exactly, and the result rounded.
pub closed spec fn sum_of(x: Single, y: Single) -> Single {
    let low = if x.exponent <= y.exponent {
        x.exponent as int
    } else {
        y.exponent as int
    };
    let total = signed_significand(x) * power2(x.exponent - low) + signed_significand(y) * power2(
        y.exponent - low,
    );
    if total < 0 {
        rounded(true, -total, low)
    } else {
        rounded(false, total, low)
    }
}

/// `x` with its sign flipped; zero stays as it is.
pub open spec fn negated(x: Single) -> Single {
    if x.significand == 0 {
        x
    } else {
        Single { negative: !x.negative, ..x }
    }
}

/// The difference of two singles, rounded.
pub closed spec fn difference_of(x: Single, y: Single) -> Single {
    sum_of(x, negated(y))
}

/// `floor(x)` clamped to `0..=max`, as a saturating float-to-integer cast of the floor
/// gives it.
pub open spec fn clamped_floor(x: Single, max: int) -> int {
    let floored = binary_floor(x.negative, x.significand as int, x.exponent as int);
    if floored < 0 {
        0
    } else if floored > max {
        max
    } else {
        floored
    }
}

/// Whether the sum of two exponents' sizes leaves room for an operation.
pub open spec fn exponents_fit(x: Single, y: Single) -> bool {
    &&& -exponent_bound() / 8 <= x.exponent <= exponent_bound() / 8
    &&& -exponent_bound() / 8 <= y.exponent <= exponent_bound() / 8
}

/// Rounds `±n × 2^e` to the nearest single, ties to the even significand.
fn round(negative: bool, n: u128, e: i64) -> (d: Single)
    requires
        -exponent_bound() / 2 <= e <= exponent_bound() / 2,
    ensures
        d == rounded(negative, n as int, e as int),
        is_single(d),
        n > 0 ==> e - 24 <= d.exponent <= e + 105,
        n > 0 <==> d.significand != 0,
{
    if n == 0 {
        return Single { negative: false, significand: 0, exponent: 0 };
    }
    let length = bits_of(n);
    proof {
        lemma_bit_length_bounds(n as nat);
        lemma_power2_values();
        lemma_single_powers();
    }
    if length <= 24 {
        let shift = 24 - length;
        let scale = power_of_two(shift);
        proof {
            lemma_power2_positive(shift as int);
            lemma_power2_adds(length - 1, shift as int);
            lemma_power2_adds(length as int, shift as int);
            assert(power2(length - 1) * scale <= n * scale < power2(length as int) * scale) by (
            nonlinear_arith)
                requires
                    power2(length - 1) <= n < power2(length as int),
                    scale >= 1,
            ;
        }
        let significand = (n * scale) as u64;
        return Single { negative, significand, exponent: e - (shift as i64) };
    }
    let dropped = length - 24;
    let scale = power_of_two(dropped);
    proof {
        lemma_power2_adds(23, dropped as int);
        lemma_power2_adds(24, dropped as int);
        assert(power2(length - 1) == power2(23 + dropped));
        assert(power2(length as int) == power2(24 + dropped));
        lemma_quotient_range(n as int, scale as int, power2(23), power2(24));
        assert(scale == 2 * power2(dropped - 1));
    }
    let kept = n / scale;
    let rest = n % scale;
    let half = scale / 2;
    let up = rest > half || (rest == half && kept % 2 == 1);
    let significand: u128 = if up {
        kept + 1
    } else {
        kept
    };
    if significand == 0x100_0000 {
        Single {
            negative,
            significand: 0x80_0000,
            exponent: e + (dropped as i64) + 1,
        }
    } else {
        Single { negative, significand: significand as u64, exponent: e + (dropped as i64) }
    }
}

/// The sum does not depend on the order of its operands.
pub proof fn lemma_sum_commutes(x: Single, y: Single)
    ensures
        sum_of(x, y) == sum_of(y, x),
{
}

/// A single's own value, written with `k` more bits, rounds back to the single.
proof fn lemma_rounded_own_value(d: Single, k: int)
    requires
        is_single(d),
        d.significand != 0,
        k >= 0,
    ensures
        rounded(d.negative, d.significand * power2(k), d.exponent - k) == d,
{
    lemma_power2_values();
        lemma_single_powers();
    lemma_power2_positive(k);
    let sig = d.significand as int;
    let n = sig * power2(k);
    lemma_power2_adds(23, k);
    lemma_power2_adds(24, k);
    assert(power2(23) * power2(k) <= n < power2(24) * power2(k)) by (nonlinear_arith)
        requires
            power2(23) <= sig < power2(24),
            power2(k) >= 1,
            n == sig * power2(k),
    ;
    lemma_bit_length_is(n as nat, 24 + k);
    if k == 0 {
        assert(power2(0) == 1);
        assert(n == sig) by (nonlinear_arith)
            requires
                n == sig * power2(k),
                power2(k) == 1,
        ;
    } else {
        assert(n < (sig + 1) * power2(k)) by (nonlinear_arith)
            requires
                n == sig * power2(k),
                power2(k) >= 1,
        ;
        lemma_quotient_range(n, power2(k), sig, sig + 1);
        assert(n % power2(k) == 0) by {
            lemma_fundamental_div_mod(n, power2(k));
            assert(n / power2(k) == sig);
            assert(n == power2(k) * sig + n % power2(k));
            assert(power2(k) * sig == n) by (nonlinear_arith)
                requires
                    n == sig * power2(k),
            ;
        }
        lemma_power2_positive(k - 1);
    }
}

/// Adding zero gives the other operand.
proof fn lemma_sum_with_zero(zero_operand: Single, d: Single)
    requires
        is_single(zero_operand),
        zero_operand.significand == 0,
        is_single(d),
    ensures
        sum_of(zero_operand, d) == d,
        sum_of(d, zero_operand) == d,
{
    lemma_sum_commutes(zero_operand, d);
    assert(signed_significand(zero_operand) == 0);
    let sig = d.significand as int;
    if d.significand == 0 {
        assert(sum_of(zero_operand, d) == zero());
    } else if d.exponent <= 0 {
        lemma_rounded_own_value(d, 0);
        assert(power2(0) == 1);
        assert(0 * power2(0 - d.exponent) == 0) by (nonlinear_arith);
        assert(signed_significand(d) * power2(0) == signed_significand(d));
        assert(sig * power2(0) == sig);
    } else {
        let k = d.exponent as int;
        lemma_power2_positive(k);
        lemma_rounded_own_value(d, k);
        assert(power2(0) == 1);
        assert(0 * power2(0) == 0) by (nonlinear_arith);
        assert(-(-sig * power2(k)) == sig * power2(k)) by (nonlinear_arith);
        assert(signed_significand(d) * power2(k) < 0 <==> d.negative) by (nonlinear_arith)
            requires
                sig >= 1,
                power2(k) >= 1,
                signed_significand(d) == if d.negative {
                    -sig
                } else {
                    sig
                },
        ;
    }
}

/// A single whose exponent exceeds the other's by more than seventy absorbs it: the
/// smaller one is less than a quarter of the larger one's last place.
proof fn lemma_tiny_addend(big: Single, small: Single)
    requires
        is_single(big),
        is_single(small),
        big.significand != 0,
        small.significand != 0,
        big.exponent - small.exponent > 70,
    ensures
        sum_of(big, small) == big,
        sum_of(small, big) == big,
{
    lemma_sum_commutes(big, small);
    lemma_power2_values();
        lemma_single_powers();
    let gap = big.exponent - small.exponent;
    let low = small.exponent as int;
    let b = big.significand as int;
    let p = power2(gap);
    let h = power2(gap - 1);
    let q = power2(gap - 2);
    assert(p == 2 * h && h == 2 * q);
    lemma_power2_grows(24, gap - 2);
    assert(power2(0) == 1);
    let delta = if big.negative {
        -signed_significand(small)
    } else {
        signed_significand(small)
    };
    assert(-power2(24) < delta < power2(24));
    let m = b * p;
    let total = signed_significand(big) * p + signed_significand(small);
    let t = m + delta;
    assert(m >= power2(23) * p) by (nonlinear_arith)
        requires
            b >= power2(23),
            p >= 1,
            m == b * p,
    ;
    assert(power2(23) * p >= power2(23) * 4 * power2(24)) by (nonlinear_arith)
        requires
            p == 4 * q,
            q >= power2(24),
            power2(23) >= 1,
    ;
    assert(signed_significand(big) * p == if big.negative {
        -(b * p)
    } else {
        b * p
    }) by (nonlinear_arith)
        requires
            signed_significand(big) == if big.negative {
                -b
            } else {
                b
            },
    ;
    if big.negative {
        assert(total == -t);
        assert(total < 0);
    } else {
        assert(total == t);
        assert(total >= 0);
    }
    lemma_power2_adds(23, gap as int);
    lemma_power2_adds(24, gap as int);
    lemma_power2_adds(23, gap - 1);
    lemma_power2_adds(24, gap - 1);
    if delta >= 0 {
        assert(b * p <= t < (b + 1) * p) by (nonlinear_arith)
            requires
                t == b * p + delta,
                0 <= delta < power2(24),
                power2(24) <= q,
                p == 4 * q,
        ;
        assert((b + 1) * p <= power2(24) * p) by (nonlinear_arith)
            requires
                b + 1 <= power2(24),
                p >= 1,
        ;
        assert(power2(23) * p <= b * p) by (nonlinear_arith)
            requires
                power2(23) <= b,
                p >= 1,
        ;
        lemma_bit_length_is(t as nat, 24 + gap);
        lemma_quotient_range(t, p, b, b + 1);
        lemma_fundamental_div_mod(t, p);
        assert(t % p == delta) by (nonlinear_arith)
            requires
                t == p * (t / p) + t % p,
                t / p == b,
                t == b * p + delta,
        ;
    } else if b > power2(23) {
        assert((b - 1) * p <= t < b * p) by (nonlinear_arith)
            requires
                t == b * p + delta,
                -power2(24) < delta < 0,
                power2(24) <= q,
                p == 4 * q,
        ;
        assert(power2(23) * p <= (b - 1) * p) by (nonlinear_arith)
            requires
                power2(23) <= b - 1,
                p >= 1,
        ;
        assert(b * p <= power2(24) * p) by (nonlinear_arith)
            requires
                b <= power2(24),
                p >= 1,
        ;
        lemma_bit_length_is(t as nat, 24 + gap);
        lemma_quotient_range(t, p, b - 1, b);
        lemma_fundamental_div_mod(t, p);
        assert(t % p == p + delta) by (nonlinear_arith)
            requires
                t == p * (t / p) + t % p,
                t / p == b - 1,
                t == b * p + delta,
        ;
    } else {
        assert(b == power2(23));
        assert(t == power2(23) * p + delta);
        assert(power2(23) * p == power2(24) * h) by (nonlinear_arith)
            requires
                p == 2 * h,
                power2(24) == 2 * power2(23),
        ;
        assert((power2(24) - 1) * h <= t < power2(24) * h) by (nonlinear_arith)
            requires
                t == power2(24) * h + delta,
                -power2(24) < delta < 0,
                power2(24) <= q,
                h == 2 * q,
        ;
        assert(power2(23) * h <= (power2(24) - 1) * h) by (nonlinear_arith)
            requires
                power2(24) == 2 * power2(23),
                power2(23) >= 1,
                h >= 1,
        ;
        lemma_bit_length_is(t as nat, 23 + gap);
        lemma_quotient_range(t, h, power2(24) - 1, power2(24));
        lemma_fundamental_div_mod(t, h);
        assert(t % h == h + delta) by (nonlinear_arith)
            requires
                t == h * (t / h) + t % h,
                t / h == power2(24) - 1,
                t == power2(24) * h + delta,
        ;
    }
}

/// The sum of two singles.
pub fn sum(x: Single, y: Single) -> (sum: Single)
    requires
        is_single(x),
        is_single(y),
        exponents_fit(x, y),
    ensures
        sum == sum_of(x, y),
        is_single(sum),
        sum.significand == 0 || (x.exponent - 24 <= sum.exponent || y.exponent - 24
            <= sum.exponent) && (sum.exponent <= x.exponent + 105 || sum.exponent <= y.exponent
            + 105),
{
    if x.significand == 0 {
        proof {
            lemma_sum_with_zero(x, y);
        }
        return y;
    }
    if y.significand == 0 {
        proof {
            lemma_sum_with_zero(y, x);
        }
        return x;
    }
    proof {
        lemma_sum_commutes(x, y);
        lemma_power2_values();
        lemma_single_powers();
    }
    let (big, small) = if x.exponent >= y.exponent {
        (x, y)
    } else {
        (y, x)
    };
    let gap: i64 = big.exponent - small.exponent;
    if gap > 70 {
        proof {
            lemma_tiny_addend(big, small);
        }
        return big;
    }
    let scale = power_of_two(gap as u32);
    proof {
        lemma_power2_grows(gap as int, 70);
        assert(power2(70) == 0x40_0000_0000_0000_0000) by {
            lemma_power2_adds(64, 6);
            assert(power2(6) == 64) by {
                reveal_with_fuel(power2, 7);
            }
        }
        assert((big.significand as int) * scale <= 0x100_0000 * 0x40_0000_0000_0000_0000) by (
        nonlinear_arith)
            requires
                big.significand < 0x100_0000,
                scale <= 0x40_0000_0000_0000_0000,
                scale >= 0,
        ;
        assert(power2(0) == 1);
    }
    let a: u128 = (big.significand as u128) * scale;
    let b: u128 = small.significand as u128;
    proof {
        assert(sum_of(x, y) == sum_of(big, small));
        let total = signed_significand(big) * power2(gap as int) + signed_significand(small)
            * power2(0);
        assert(signed_significand(big) * power2(gap as int) == if big.negative {
            -(a as int)
        } else {
            a as int
        }) by (nonlinear_arith)
            requires
                a == big.significand * power2(gap as int),
                signed_significand(big) == if big.negative {
                    -(big.significand as int)
                } else {
                    big.significand as int
                },
        ;
        assert(power2(0) == 1);
        assert(signed_significand(small) * power2(0) == signed_significand(small)) by (
        nonlinear_arith)
            requires
                power2(0) == 1,
        ;
        if small.exponent <= big.exponent {
            assert(sum_of(big, small) == if total < 0 {
                rounded(true, -total, small.exponent as int)
            } else {
                rounded(false, total, small.exponent as int)
            }) by {
                if big.exponent <= small.exponent {
                    assert(big.exponent == small.exponent);
                    assert(gap == 0);
                }
            }
        }
    }
    if big.negative == small.negative {
        round(big.negative, a + b, small.exponent)
    } else if a >= b {
        round(big.negative, a - b, small.exponent)
    } else {
        round(small.negative, b - a, small.exponent)
    }
}

/// The difference of two singles.
pub fn difference(x: Single, y: Single) -> (difference: Single)
    requires
        is_single(x),
        is_single(y),
        exponents_fit(x, y),
    ensures
        difference == difference_of(x, y),
        is_single(difference),
        difference.significand == 0 || (x.exponent - 24 <= difference.exponent || y.exponent - 24
            <= difference.exponent) && (difference.exponent <= x.exponent + 105
            || difference.exponent <= y.exponent + 105),
{
    let flipped = if y.significand == 0 {
        y
    } else {
        Single { negative: !y.negative, ..y }
    };
    sum(x, flipped)
}

/// The single nearest an integer.
pub fn from_u64(n: u64) -> (d: Single)
    ensures
        d == from_integer(n as int),
        is_single(d),
        -24 <= d.exponent <= 105,
        n > 0 <==> d.significand != 0,
{
    round(false, n as u128, 0)
}

/// The product of two singles.
pub fn product(x: Single, y: Single) -> (product: Single)
    requires
        is_single(x),
        is_single(y),
        exponents_fit(x, y),
    ensures
        product == product_of(x, y),
        is_single(product),
        x.exponent + y.exponent - 24 <= product.exponent <= x.exponent + y.exponent + 105
            || product.significand == 0,
{
    proof {
        lemma_power2_values();
        lemma_single_powers();
        assert((x.significand as int) * (y.significand as int) < 0x1_0000_0000_0000_0000_0000_0000_0000_0000) by (nonlinear_arith)
            requires
                x.significand < 0x100_0000,
                y.significand < 0x100_0000,
        ;
    }
    let magnitude: u128 = (x.significand as u128) * (y.significand as u128);
    round(x.negative != y.negative, magnitude, x.exponent + y.exponent)
}

/// The quotient of two singles.
pub fn quotient(x: Single, y: Single) -> (quotient: Single)
    requires
        is_single(x),
        is_single(y),
        y.significand != 0,
        exponents_fit(x, y),
    ensures
        quotient == quotient_of(x, y),
        is_single(quotient),
        x.exponent - y.exponent - 24 <= quotient.exponent <= x.exponent - y.exponent
            || quotient.significand == 0,
{
    if x.significand == 0 {
        return Single { negative: false, significand: 0, exponent: 0 };
    }
    proof {
        lemma_power2_values();
        lemma_single_powers();
    }
    let shift: u32 = if x.significand >= y.significand {
        23
    } else {
        24
    };
    let scale = power_of_two(shift);
    proof {
        assert((x.significand as int) * scale < 0x100_0000 * 0x100_0000) by (
        nonlinear_arith)
            requires
                x.significand < 0x100_0000,
                scale <= 0x100_0000,
                scale >= 0,
        ;
    }
    let scaled: u128 = (x.significand as u128) * scale;
    let divisor = y.significand as u128;
    proof {
        let sx = x.significand as int;
        let sy = y.significand as int;
        if shift == 23 {
            assert(scale == 0x80_0000);
            assert(sy <= sx < 2 * sy);
            assert(0x80_0000 * sy <= sx * 0x80_0000) by (nonlinear_arith)
                requires
                    sy <= sx,
            ;
            assert(sx * 0x80_0000 < 0x100_0000 * sy) by (nonlinear_arith)
                requires
                    sx < 2 * sy,
            ;
        } else {
            assert(scale == 0x100_0000);
            assert(0x80_0000 * sy <= sx * 0x100_0000);
            assert(sx * 0x100_0000 < 0x100_0000 * sy);
        }
        lemma_quotient_range(sx * scale, sy, power2(23), power2(24));
    }
    let kept = scaled / divisor;
    let rest = scaled % divisor;
    let up = 2 * rest > divisor || (2 * rest == divisor && kept % 2 == 1);
    let significand: u128 = if up {
        kept + 1
    } else {
        kept
    };
    let exponent: i64 = x.exponent - y.exponent - (shift as i64);
    if significand == 0x100_0000 {
        Single {
            negative: x.negative != y.negative,
            significand: 0x80_0000,
            exponent: exponent + 1,
        }
    } else {
        Single {
            negative: x.negative != y.negative,
            significand: significand as u64,
            exponent,
        }
    }
}

/// `floor(x)` clamped to `0..=max`.
pub fn floor_clamped(x: Single, max: u64) -> (floored: u64)
    requires
        is_single(x),
    ensures
        floored == clamped_floor(x, max as int),
{
    proof {
        lemma_power2_values();
        lemma_single_powers();
    }
    let ghost sig = x.significand as int;
    if x.significand == 0 {
        proof {
            if x.exponent < 0 {
                lemma_power2_positive(-x.exponent);
            }
        }
        return 0;
    }
    if x.negative {
        proof {
            if x.exponent >= 0 {
                lemma_power2_positive(x.exponent as int);
                assert(-sig * power2(x.exponent as int) < 0) by (nonlinear_arith)
                    requires
                        sig >= 1,
                        power2(x.exponent as int) >= 1,
                ;
            } else {
                let p = power2(-x.exponent);
                lemma_power2_positive(-x.exponent);
                lemma_fundamental_div_mod(-sig, p);
                assert((-sig) / p < 0) by (nonlinear_arith)
                    requires
                        p >= 1,
                        sig >= 1,
                        -sig == p * ((-sig) / p) + (-sig) % p,
                        0 <= (-sig) % p < p,
                ;
            }
        }
        return 0;
    }
    if x.exponent >= 0 {
        if x.exponent >= 41 {
            proof {
                lemma_power2_grows(41, x.exponent as int);
                assert(sig * power2(x.exponent as int) >= 0x80_0000 * 0x200_0000_0000) by (
                nonlinear_arith)
                    requires
                        sig >= 0x80_0000,
                        power2(x.exponent as int) >= 0x200_0000_0000,
                ;
            }
            return max;
        }
        let scale = power_of_two(x.exponent as u32);
        proof {
            lemma_power2_grows(x.exponent as int, 40);
            assert(sig * scale <= 0x100_0000 * 0x100_0000_0000) by (nonlinear_arith)
                requires
                    sig < 0x100_0000,
                    scale <= 0x100_0000_0000,
                    sig >= 0,
                    scale >= 0,
            ;
        }
        let value: u128 = (x.significand as u128) * scale;
        return if value > max as u128 {
            max
        } else {
            value as u64
        };
    }
    let shift = (-x.exponent) as u64;
    if shift >= 64 {
        proof {
            lemma_power2_grows(64, shift as int);
            lemma_quotient_range(sig, power2(shift as int), 0, 1);
        }
        return 0;
    }
    let scale = power_of_two(shift as u32);
    proof {
        lemma_power2_grows(shift as int, 63);
    }
    let value: u64 = ((x.significand as u128) / scale) as u64;
    proof {
        assert(sig < (sig + 1) * scale) by (nonlinear_arith)
            requires
                scale >= 1,
                sig >= 0,
        ;
        lemma_quotient_range(sig, scale as int, 0, sig + 1);
    }
    if value > max {
        max
    } else {
        value
    }
}

/// Whether `x` is less than `y` as numbers.
pub closed spec fn less_than(x: Single, y: Single) -> bool {
    let low = if x.exponent <= y.exponent {
        x.exponent as int
    } else {
        y.exponent as int
    };
    signed_significand(x) * power2(x.exponent - low) < signed_significand(y) * power2(
        y.exponent - low,
    )
}

/// The larger of two numbers, the first when they are equal.
pub open spec fn larger(x: Single, y: Single) -> Single {
    if less_than(x, y) {
        y
    } else {
        x
    }
}

/// The smaller of two numbers, the first when they are equal.
pub open spec fn smaller(x: Single, y: Single) -> Single {
    if less_than(y, x) {
        y
    } else {
        x
    }
}

/// The absolute value.
pub open spec fn magnitude(x: Single) -> Single {
    Single { negative: false, ..x }
}

/// The largest finite single, `(2^24 - 1) × 2^104`.
pub open spec fn largest_single() -> Single {
    Single { negative: false, significand: 0xff_ffff, exponent: 104 }
}

/// `x % 6` as the remainder operator computes it: exactly, with the sign of `x`.
pub closed spec fn remainder_six(x: Single) -> Single {
    if x.significand == 0 {
        zero()
    } else if x.exponent >= 0 {
        rounded(x.negative, (x.significand * power2(x.exponent as int)) % 6, 0)
    } else {
        rounded(x.negative, (x.significand as int) % (6 * power2(-x.exponent)), x.exponent as int)
    }
}

/// `x.rem_euclid(6)`: the remainder, moved up by 6 when it is negative.
pub closed spec fn rem_euclid_six(x: Single) -> Single {
    let remainder = remainder_six(x);
    if remainder.negative {
        sum_of(remainder, from_integer(6))
    } else {
        remainder
    }
}

/// A positive double below another in exponent is below it in value.
proof fn lemma_exponent_orders(x: Single, y: Single)
    requires
        is_single(x),
        is_single(y),
        x.significand != 0,
        y.significand != 0,
        x.exponent < y.exponent,
    ensures
        (x.significand as int) < (y.significand as int) * power2(y.exponent - x.exponent),
{
    lemma_single_powers();
    lemma_power2_grows(1, y.exponent - x.exponent);
    assert(power2(1) == 2) by {
        reveal_with_fuel(power2, 2);
    }
    assert((y.significand as int) * power2(y.exponent - x.exponent) >= 0x80_0000 * 2) by (
    nonlinear_arith)
        requires
            y.significand >= 0x80_0000,
            power2(y.exponent - x.exponent) >= 2,
    ;
}

/// Compares two numbers.
pub fn is_less(x: Single, y: Single) -> (less: bool)
    requires
        is_single(x),
        is_single(y),
    ensures
        less == less_than(x, y),
{
    let ghost sx = x.significand as int;
    let ghost sy = y.significand as int;
    proof {
        lemma_single_powers();
        assert(power2(0) == 1);
    }
    let x_sign: i8 = if x.significand == 0 {
        0
    } else if x.negative {
        -1
    } else {
        1
    };
    let y_sign: i8 = if y.significand == 0 {
        0
    } else if y.negative {
        -1
    } else {
        1
    };
    proof {
        let low = if x.exponent <= y.exponent {
            x.exponent as int
        } else {
            y.exponent as int
        };
        let px = power2(x.exponent - low);
        let py = power2(y.exponent - low);
        lemma_power2_positive(x.exponent - low);
        lemma_power2_positive(y.exponent - low);
        assert(sx * px >= 0 && sy * py >= 0) by (nonlinear_arith)
            requires
                sx >= 0,
                sy >= 0,
                px >= 1,
                py >= 1,
        ;
        assert(x.significand != 0 ==> sx * px > 0) by (nonlinear_arith)
            requires
                sx == x.significand,
                sx >= 0,
                px >= 1,
        ;
        assert(y.significand != 0 ==> sy * py > 0) by (nonlinear_arith)
            requires
                sy == y.significand,
                sy >= 0,
                py >= 1,
        ;
        assert(signed_significand(x) * px == x_sign * (sx * px)) by (nonlinear_arith)
            requires
                signed_significand(x) == x_sign * sx,
        ;
        assert(signed_significand(y) * py == y_sign * (sy * py)) by (nonlinear_arith)
            requires
                signed_significand(y) == y_sign * sy,
        ;
        if x.significand != 0 && y.significand != 0 {
            if x.exponent < y.exponent {
                lemma_exponent_orders(x, y);
            } else if y.exponent < x.exponent {
                lemma_exponent_orders(y, x);
            }
        }
    }
    if x_sign != y_sign {
        return x_sign < y_sign;
    }
    if x_sign == 0 {
        return false;
    }
    if x.exponent != y.exponent {
        if x_sign > 0 {
            x.exponent < y.exponent
        } else {
            x.exponent > y.exponent
        }
    } else if x_sign > 0 {
        x.significand < y.significand
    } else {
        x.significand > y.significand
    }
}

/// The larger of two numbers.
pub fn max(x: Single, y: Single) -> (larger_one: Single)
    requires
        is_single(x),
        is_single(y),
    ensures
        larger_one == larger(x, y),
{
    if is_less(x, y) {
        y
    } else {
        x
    }
}

/// The smaller of two numbers.
pub fn min(x: Single, y: Single) -> (smaller_one: Single)
    requires
        is_single(x),
        is_single(y),
    ensures
        smaller_one == smaller(x, y),
{
    if is_less(y, x) {
        y
    } else {
        x
    }
}

/// Powers of two leave remainders 2 and 4 by 6, alternately.
proof fn lemma_power2_mod_six(e: int)
    requires
        e >= 1,
    ensures
        power2(e) % 6 == if e % 2 == 1 {
            2int
        } else {
            4int
        },
    decreases e,
{
    if e > 1 {
        lemma_power2_mod_six(e - 1);
        assert(power2(e) == 2 * power2(e - 1));
        lemma_mul_mod_noop_general(2, power2(e - 1), 6);
    } else {
        assert(power2(1) == 2) by {
            reveal_with_fuel(power2, 2);
        }
    }
}

/// `x.rem_euclid(6.0)`.
pub fn rem_euclid(x: Single) -> (remainder: Single)
    requires
        is_single(x),
        -0x10_0000_0000 <= x.exponent <= 0x10_0000_0000,
    ensures
        remainder == rem_euclid_six(x),
        is_single(remainder),
        remainder.significand == 0 || (remainder.exponent >= x.exponent - 1000
            || remainder.exponent >= -1000) && remainder.exponent <= 300,
{
    proof {
        lemma_power2_values();
        lemma_single_powers();
    }
    let remainder = if x.significand == 0 {
        Single { negative: false, significand: 0, exponent: 0 }
    } else if x.exponent >= 0 {
        let cycle: u64 = if x.exponent == 0 {
            1
        } else if x.exponent % 2 == 1 {
            2
        } else {
            4
        };
        proof {
            if x.exponent == 0 {
                assert(power2(0) == 1);
            } else {
                lemma_power2_mod_six(x.exponent as int);
            }
            lemma_mul_mod_noop_general(x.significand as int, power2(x.exponent as int), 6);
            assert(cycle == power2(x.exponent as int) % 6);
        }
        let left = (x.significand % 6) * cycle % 6;
        proof {
            lemma_mul_mod_noop_general(x.significand as int, cycle as int, 6);
        }
        round(x.negative, left as u128, 0)
    } else if x.exponent < -100 {
        proof {
            let k = -x.exponent;
            lemma_power2_grows(64, k);
            assert(x.significand < 6 * power2(k));
            assert((x.significand as int) % (6 * power2(k)) == x.significand) by {
                lemma_quotient_range(x.significand as int, 6 * power2(k), 0, 1);
                lemma_fundamental_div_mod(x.significand as int, 6 * power2(k));
            }
            lemma_rounded_own_value(x, 0);
            assert(power2(0) == 1);
            assert(x.significand * power2(0) == x.significand);
        }
        x
    } else {
        let k = (-x.exponent) as u32;
        let scale = power_of_two(k);
        proof {
            lemma_power2_grows(k as int, 100);
            assert(power2(100) < 0x1_0000_0000_0000_0000_0000_0000_0000int / 6) by {
                lemma_power2_adds(64, 36);
                assert(power2(36) == 0x10_0000_0000) by {
                    reveal_with_fuel(power2, 37);
                }
            }
        }
        let modulus: u128 = 6 * scale;
        round(x.negative, (x.significand as u128) % modulus, x.exponent)
    };
    if remainder.negative {
        sum(remainder, from_u64(6))
    } else {
        remainder
    }
}

/// A positive integer of `b` bits, `b` at most 24, is a single exactly: its bits moved to
/// the top of the significand.
proof fn lemma_rounded_small(negative: bool, n: int, e: int, b: int)
    requires
        1 <= b <= 24,
        power2(b - 1) <= n < power2(b),
        -exponent_bound() / 2 <= e <= exponent_bound() / 2,
    ensures
        rounded(negative, n, e) == (Single {
            negative,
            significand: (n * power2(24 - b)) as u64,
            exponent: (e - (24 - b)) as i64,
        }),
{
    lemma_power2_positive(b - 1);
    lemma_bit_length_is(n as nat, b);
}

/// The positive single with this significand and exponent.
pub open spec fn single_of(significand: int, exponent: int) -> Single {
    Single { negative: false, significand: significand as u64, exponent: exponent as i64 }
}

/// The singles nearest a few small integers.
pub proof fn lemma_small_integers()
    ensures
        from_integer(0) == zero(),
        from_integer(1) == single_of(0x80_0000, -23),
        from_integer(2) == single_of(0x80_0000, -22),
        from_integer(3) == single_of(0xC0_0000, -22),
        from_integer(4) == single_of(0x80_0000, -21),
        from_integer(6) == single_of(0xC0_0000, -21),
        from_integer(85) == single_of(0xAA_0000, -17),
        from_integer(170) == single_of(0xAA_0000, -16),
        from_integer(255) == single_of(0xFF_0000, -16),
{
    lemma_single_powers();
    assert(power2(0) == 1 && power2(1) == 2 && power2(2) == 4 && power2(3) == 8) by {
        reveal_with_fuel(power2, 4);
    }
    assert(power2(6) == 64 && power2(7) == 128 && power2(8) == 256) by {
        reveal_with_fuel(power2, 9);
    }
    assert(power2(16) == 0x1_0000 && power2(17) == 0x2_0000 && power2(21) == 0x20_0000
        && power2(22) == 0x40_0000) by {
        reveal_with_fuel(power2, 23);
    }
    lemma_rounded_small(false, 1, 0, 1);
    lemma_rounded_small(false, 2, 0, 2);
    lemma_rounded_small(false, 3, 0, 2);
    lemma_rounded_small(false, 4, 0, 3);
    lemma_rounded_small(false, 6, 0, 3);
    lemma_rounded_small(false, 85, 0, 7);
    lemma_rounded_small(false, 170, 0, 8);
    lemma_rounded_small(false, 255, 0, 8);
}

/// The quotients met in the colour model of the sixteen named colours: channels over 255,
/// spans over themselves and over the top channel, and sixths.
pub proof fn lemma_channel_quotients()
    ensures
        quotient_of(zero(), single_of(0xff0000, -16)) == zero(),
        quotient_of(single_of(0xaa0000, -17), single_of(0xff0000, -16)) == single_of(0xaaaaab, -25),
        quotient_of(single_of(0xaa0000, -16), single_of(0xff0000, -16)) == single_of(0xaaaaab, -24),
        quotient_of(single_of(0xff0000, -16), single_of(0xff0000, -16)) == single_of(0x800000, -23),
        quotient_of(zero(), single_of(0xaaaaab, -24)) == zero(),
        quotient_of(zero(), single_of(0x800000, -23)) == zero(),
        quotient_of(zero(), single_of(0xaaaaaa, -24)) == zero(),
        quotient_of(single_of(0xaaaaab, -24), single_of(0xaaaaab, -24)) == single_of(0x800000, -23),
        quotient_of(negated(single_of(0xaaaaab, -24)), single_of(0xaaaaab, -24)) == negated(single_of(0x800000, -23)),
        quotient_of(single_of(0xaaaaaa, -24), single_of(0xaaaaaa, -24)) == single_of(0x800000, -23),
        quotient_of(negated(single_of(0xaaaaaa, -24)), single_of(0xaaaaaa, -24)) == negated(single_of(0x800000, -23)),
        quotient_of(single_of(0xaaaaab, -24), single_of(0x800000, -23)) == single_of(0xaaaaab, -24),
        quotient_of(single_of(0x800000, -23), single_of(0x800000, -23)) == single_of(0x800000, -23),
        quotient_of(single_of(0xaaaaaa, -24), single_of(0x800000, -23)) == single_of(0xaaaaaa, -24),
        quotient_of(zero(), single_of(0xc00000, -21)) == zero(),
        quotient_of(single_of(0x800000, -23), single_of(0xc00000, -21)) == single_of(0xaaaaab, -26),
        quotient_of(single_of(0x800000, -22), single_of(0xc00000, -21)) == single_of(0xaaaaab, -25),
        quotient_of(single_of(0xc00000, -22), single_of(0xc00000, -21)) == single_of(0x800000, -24),
        quotient_of(single_of(0x800000, -21), single_of(0xc00000, -21)) == single_of(0xaaaaab, -24),
        quotient_of(single_of(0xa00000, -21), single_of(0xc00000, -21)) == single_of(0xd55555, -24),
        quotient_of(single_of(0xaaaaab, -24), single_of(0xc00000, -21)) == single_of(0xe38e39, -27),
{
    lemma_single_powers();
}

/// The sums and differences met in the colour model of the sixteen named colours.
#[verifier::spinoff_prover]
pub proof fn lemma_channel_differences()
    ensures
        difference_of(single_of(0xaaaaab, -24), zero()) == single_of(0xaaaaab, -24),
        difference_of(single_of(0x800000, -23), zero()) == single_of(0x800000, -23),
        difference_of(single_of(0x800000, -23), single_of(0xaaaaab, -25)) == single_of(0xaaaaaa, -24),
        difference_of(zero(), zero()) == zero(),
        difference_of(single_of(0xaaaaab, -25), single_of(0xaaaaab, -25)) == zero(),
        difference_of(single_of(0xaaaaab, -24), single_of(0xaaaaab, -24)) == zero(),
        difference_of(single_of(0x800000, -23), single_of(0x800000, -23)) == zero(),
        difference_of(single_of(0xaaaaab, -25), single_of(0x800000, -23)) == negated(single_of(0xaaaaaa, -24)),
        sum_of(zero(), single_of(0x800000, -22)) == single_of(0x800000, -22),
        sum_of(zero(), single_of(0x800000, -21)) == single_of(0x800000, -21),
        sum_of(single_of(0x800000, -23), single_of(0x800000, -22)) == single_of(0xc00000, -22),
{
    assert(power2(23) == 0x80_0000 && power2(24) == 0x100_0000 && power2(25) == 0x200_0000
        && power2(26) == 0x400_0000 && power2(0) == 1 && power2(1) == 2 && power2(2) == 4) by {
        reveal_with_fuel(power2, 27);
    }
    lemma_bit_length_is(11184811nat, 24);
    lemma_bit_length_is(22369621nat, 25);
    lemma_bit_length_is(25165824nat, 25);
    lemma_bit_length_is(41943040nat, 26);
    lemma_bit_length_is(8388608nat, 24);
    lemma_difference_self(single_of(0xaaaaab, -25));
    lemma_difference_self(single_of(0xaaaaab, -24));
    lemma_difference_self(single_of(0x800000, -23));
    lemma_difference_self(zero());
    lemma_sum_with_zero(zero(), single_of(0xaaaaab, -24));
    lemma_sum_with_zero(zero(), single_of(0x800000, -23));
    assert(signed_significand(negated(single_of(0xaaaaab, -25))) == -0xaaaaab as int);
    assert(sum_of(single_of(0x800000, -23), negated(single_of(0xaaaaab, -25))) == rounded(false, 22369621, -25));
}

/// The remainders by six met in the colour model of the sixteen named colours.
#[verifier::spinoff_prover]
pub proof fn lemma_channel_remainders()
    ensures
        rem_euclid_six(zero()) == zero(),
        rem_euclid_six(negated(single_of(0x800000, -23))) == single_of(0xa00000, -21),
        rem_euclid_six(single_of(0xaaaaab, -24)) == single_of(0xaaaaab, -24),
        rem_euclid_six(single_of(0x800000, -23)) == single_of(0x800000, -23),
{
    assert(power2(23) == 0x80_0000 && power2(24) == 0x100_0000 && power2(25) == 0x200_0000
        && power2(26) == 0x400_0000 && power2(0) == 1 && power2(1) == 2 && power2(2) == 4) by {
        reveal_with_fuel(power2, 27);
    }
    lemma_bit_length_is(11184811nat, 24);
    lemma_bit_length_is(22369621nat, 25);
    lemma_bit_length_is(25165824nat, 25);
    lemma_bit_length_is(41943040nat, 26);
    lemma_bit_length_is(8388608nat, 24);
    lemma_small_integers();
    let minus_one = negated(single_of(0x800000, -23));
    assert(minus_one.exponent == -23 && minus_one.significand == 0x80_0000 && minus_one.negative);
    assert(power2(-minus_one.exponent) == 0x80_0000);
    vstd::arithmetic::div_mod::lemma_small_mod(0x80_0000, 6 * 0x80_0000);
    assert((minus_one.significand as int) % (6 * power2(-minus_one.exponent)) == 0x80_0000);
    assert(remainder_six(minus_one) == rounded(true, 0x80_0000, -23));
    assert(rounded(true, 0x80_0000, -23) == minus_one);
    let six = single_of(0xc0_0000, -21);
    assert(from_integer(6) == six);
    assert(signed_significand(minus_one) == -0x80_0000int);
    assert(signed_significand(six) == 0xc0_0000int);
    assert(signed_significand(minus_one) * power2(0) + signed_significand(six) * power2(2) == 0x280_0000int);
    assert(sum_of(minus_one, six) == rounded(false, 0x280_0000, -23));
    assert(rounded(false, 0x280_0000, -23) == single_of(0xa0_0000, -21));
    let two_thirds = single_of(0xaaaaab, -24);
    assert(two_thirds.exponent == -24 && two_thirds.significand == 0xaaaaab);
    assert(power2(-two_thirds.exponent) == 0x100_0000);
    vstd::arithmetic::div_mod::lemma_small_mod(0xaaaaab, 6 * 0x100_0000);
    assert((two_thirds.significand as int) % (6 * power2(-two_thirds.exponent)) == 0xaaaaab);
    assert(remainder_six(two_thirds) == rounded(false, 0xaaaaab, -24));
}

/// A positive amount rounds to a single with its sign: a significand of 24 bits and an
/// exponent close to the one it was scaled by.
pub proof fn lemma_rounded_shape(negative: bool, n: int, e: int)
    requires
        0 < n < power2(128),
        -exponent_bound() / 2 <= e <= exponent_bound() / 2,
    ensures
        rounded(negative, n, e).negative == negative,
        power2(23) <= rounded(negative, n, e).significand < power2(24),
        e - 23 <= rounded(negative, n, e).exponent <= e + 105,
        is_single(rounded(negative, n, e)),
{
    lemma_single_powers();
    lemma_bit_length_bounds(n as nat);
    lemma_bit_length_at_most(n as nat, 128);
    let length = bit_length(n as nat) as int;
    if length <= 24 {
        let shift = 24 - length;
        lemma_power2_positive(shift);
        lemma_power2_adds(length - 1, shift);
        lemma_power2_adds(length, shift);
        assert(power2(length - 1) * power2(shift) <= n * power2(shift) < power2(length) * power2(shift)) by (
        nonlinear_arith)
            requires
                power2(length - 1) <= n < power2(length),
                power2(shift) >= 1,
        ;
    } else {
        let dropped = length - 24;
        lemma_power2_adds(23, dropped);
        lemma_power2_adds(24, dropped);
        lemma_power2_positive(dropped);
        lemma_quotient_range(n, power2(dropped), power2(23), power2(24));
    }
}

/// The square of a single is never negative, and is zero only for zero.
pub proof fn lemma_square_sign(x: Single)
    requires
        is_single(x),
        -exponent_bound() / 4 <= x.exponent <= exponent_bound() / 4,
    ensures
        !product_of(x, x).negative,
        (product_of(x, x).significand == 0) <==> (x.significand == 0),
        is_single(product_of(x, x)),
{
    lemma_single_powers();
    if x.significand != 0 {
        assert((x.significand as int) * (x.significand as int) > 0) by (nonlinear_arith)
            requires
                x.significand > 0,
        ;
        assert((x.significand as int) * (x.significand as int) < power2(128)) by {
            lemma_power2_values();
            assert((x.significand as int) * (x.significand as int) < 0x100_0000 * 0x100_0000) by (
            nonlinear_arith)
                requires
                    x.significand < 0x100_0000,
            ;
        }
        lemma_rounded_shape(false, x.significand * x.significand, x.exponent + x.exponent);
    }
}

/// A product of two singles is zero only when one of them is, and otherwise carries the
/// sign of the product.
pub proof fn lemma_product_shape(x: Single, y: Single)
    requires
        is_single(x),
        is_single(y),
        -exponent_bound() / 4 <= x.exponent <= exponent_bound() / 4,
        -exponent_bound() / 4 <= y.exponent <= exponent_bound() / 4,
    ensures
        (product_of(x, y).significand == 0) <==> (x.significand == 0 || y.significand == 0),
        product_of(x, y).significand != 0 ==> product_of(x, y).negative == (x.negative != y.negative),
        product_of(x, y).significand == 0 ==> product_of(x, y) == zero(),
        product_of(x, y).significand != 0 ==> x.exponent + y.exponent - 23 <= product_of(x, y).exponent
            <= x.exponent + y.exponent + 105,
        is_single(product_of(x, y)),
{
    lemma_single_powers();
    if x.significand != 0 && y.significand != 0 {
        assert((x.significand as int) * (y.significand as int) > 0) by (nonlinear_arith)
            requires
                x.significand > 0,
                y.significand > 0,
        ;
        assert((x.significand as int) * (y.significand as int) < power2(128)) by {
            lemma_power2_values();
            assert((x.significand as int) * (y.significand as int) < 0x100_0000 * 0x100_0000) by (
            nonlinear_arith)
                requires
                    x.significand < 0x100_0000,
                    y.significand < 0x100_0000,
            ;
        }
        lemma_rounded_shape(x.negative != y.negative, x.significand * y.significand, x.exponent + y.exponent);
    } else {
        assert((x.significand as int) * (y.significand as int) == 0) by (nonlinear_arith)
            requires
                x.significand == 0 || y.significand == 0,
        ;
    }
}

/// A significand scaled by at most `2^70` stays below `2^94`, and two of them below `2^128`.
proof fn lemma_scaled_bound(s: int, p: int)
    requires
        0 <= s < power2(24),
        1 <= p <= power2(70),
    ensures
        0 <= s * p < power2(94),
        2 * power2(94) <= power2(128),
{
    lemma_power2_adds(24, 70);
    lemma_power2_positive(24);
    assert(s * p < power2(24) * power2(70)) by (nonlinear_arith)
        requires
            0 <= s < power2(24),
            1 <= p <= power2(70),
    ;
    assert(0 <= s * p) by (nonlinear_arith)
        requires
            0 <= s,
            1 <= p,
    ;
    assert(power2(95) == 2 * power2(94));
    lemma_power2_grows(95, 128);
}

/// Whether a single's exponent lies within `bound` either way.
pub open spec fn bounded_single(x: Single, bound: int) -> bool {
    is_single(x) && -bound <= x.exponent <= bound
}

/// A sum of two singles that are not negative is not negative, and is zero only when both
/// are.
pub proof fn lemma_sum_nonnegative(a: Single, b: Single)
    requires
        bounded_single(a, 8000),
        bounded_single(b, 8000),
        !a.negative,
        !b.negative,
    ensures
        !sum_of(a, b).negative,
        (sum_of(a, b).significand == 0) <==> (a.significand == 0 && b.significand == 0),
        sum_of(a, b).significand == 0 ==> sum_of(a, b) == zero(),
        sum_of(a, b).significand != 0 ==> (a.exponent - 23 <= sum_of(a, b).exponent || b.exponent - 23
            <= sum_of(a, b).exponent) && (sum_of(a, b).exponent <= a.exponent + 105
            || sum_of(a, b).exponent <= b.exponent + 105),
        is_single(sum_of(a, b)),
{
    lemma_single_powers();
    let low = if a.exponent <= b.exponent { a.exponent as int } else { b.exponent as int };
    let pa = power2(a.exponent - low);
    let pb = power2(b.exponent - low);
    lemma_power2_positive(a.exponent - low);
    lemma_power2_positive(b.exponent - low);
    let total = signed_significand(a) * pa + signed_significand(b) * pb;
    if a.significand == 0 && b.significand == 0 {
        assert(total == 0);
    } else if a.significand == 0 {
        lemma_sum_with_zero(a, b);
    } else if b.significand == 0 {
        lemma_sum_with_zero(b, a);
    } else if a.exponent - b.exponent > 70 || b.exponent - a.exponent > 70 {
        if a.exponent > b.exponent {
            lemma_tiny_addend(a, b);
        } else {
            lemma_tiny_addend(b, a);
        }
    } else {
        lemma_power2_grows(a.exponent - low, 70);
        lemma_power2_grows(b.exponent - low, 70);
        lemma_scaled_bound(a.significand as int, pa);
        lemma_scaled_bound(b.significand as int, pb);
        assert(signed_significand(a) * pa > 0) by (nonlinear_arith)
            requires
                signed_significand(a) > 0,
                pa >= 1,
        ;
        assert(total > 0 && total < power2(128));
        lemma_rounded_shape(false, total, low);
    }
}

/// A single that is not negative is not below zero, and is above it unless it is zero.
pub proof fn lemma_sign_against_zero(d: Single)
    requires
        is_single(d),
    ensures
        !d.negative ==> !less_than(d, zero()),
        (!d.negative && d.significand != 0) ==> less_than(zero(), d),
{
    let low = if d.exponent <= 0 { d.exponent as int } else { 0int };
    lemma_power2_positive(d.exponent - low);
    assert(signed_significand(zero()) == 0);
    if !d.negative {
        assert(signed_significand(d) * power2(d.exponent - low) >= 0) by (nonlinear_arith)
            requires
                signed_significand(d) >= 0,
                power2(d.exponent - low) >= 1,
        ;
        if d.significand != 0 {
            assert(signed_significand(d) * power2(d.exponent - low) > 0) by (nonlinear_arith)
                requires
                    signed_significand(d) > 0,
                    power2(d.exponent - low) >= 1,
            ;
        }
    }
    assert(0 * power2(0 - low) == 0);
}

/// A single less itself is zero.
pub proof fn lemma_difference_self(x: Single)
    requires
        is_single(x),
    ensures
        difference_of(x, x) == zero(),
{
    assert(power2(0) == 1);
    if x.significand != 0 {
        assert(signed_significand(x) * power2(0) + signed_significand(negated(x)) * power2(0) == 0);
    }
}

/// Two different moderate singles have a difference that is not zero.
#[verifier::spinoff_prover]
pub proof fn lemma_difference_nonzero(x: Single, y: Single)
    requires
        bounded_single(x, 5000),
        bounded_single(y, 5000),
        x != y,
    ensures
        difference_of(x, y).significand != 0,
        x.exponent - 23 <= difference_of(x, y).exponent || y.exponent - 23 <= difference_of(x, y).exponent,
        difference_of(x, y).exponent <= x.exponent + 105 || difference_of(x, y).exponent <= y.exponent + 105,
        is_single(difference_of(x, y)),
{
    lemma_single_powers();
    let ny = negated(y);
    if x.significand == 0 {
        lemma_sum_with_zero(x, ny);
        return;
    }
    if y.significand == 0 {
        lemma_sum_with_zero(ny, x);
        return;
    }
    if x.exponent - y.exponent > 70 {
        lemma_tiny_addend(x, ny);
        return;
    }
    if y.exponent - x.exponent > 70 {
        lemma_tiny_addend(ny, x);
        return;
    }
    let low = if x.exponent <= y.exponent { x.exponent as int } else { y.exponent as int };
    let px = power2(x.exponent - low);
    let py = power2(y.exponent - low);
    lemma_power2_positive(x.exponent - low);
    lemma_power2_positive(y.exponent - low);
    let sx = x.significand as int;
    let sy = y.significand as int;
    if x.exponent == y.exponent {
        assert(power2(0) == 1);
        assert(px == 1 && py == 1);
    } else if x.exponent < y.exponent {
        lemma_exponent_orders(x, y);
    } else {
        lemma_exponent_orders(y, x);
    }
    let total = signed_significand(x) * px + signed_significand(ny) * py;
    assert(power2(0) == 1);
    if x.exponent == y.exponent {
        assert(low == x.exponent && low == y.exponent);
        assert(px == 1 && py == 1);
        assert(total == signed_significand(x) + signed_significand(ny)) by (nonlinear_arith)
            requires
                total == signed_significand(x) * px + signed_significand(ny) * py,
                px == 1,
                py == 1,
        ;
    } else if x.exponent < y.exponent {
        assert(low == x.exponent);
        assert(px == 1);
        assert(py == power2(y.exponent - x.exponent));
        assert(total == signed_significand(x) + signed_significand(ny) * py) by (nonlinear_arith)
            requires
                total == signed_significand(x) * px + signed_significand(ny) * py,
                px == 1,
        ;
        assert(sy * py > sx);
        assert(signed_significand(ny) * py == (if y.negative { sy * py } else { -(sy * py) })) by (
        nonlinear_arith)
            requires
                signed_significand(ny) == (if y.negative { sy } else { -sy }),
        ;
    } else {
        assert(low == y.exponent);
        assert(py == 1);
        assert(px == power2(x.exponent - y.exponent));
        assert(total == signed_significand(x) * px + signed_significand(ny)) by (nonlinear_arith)
            requires
                total == signed_significand(x) * px + signed_significand(ny) * py,
                py == 1,
        ;
        assert(sx * px > sy);
        assert(signed_significand(x) * px == (if x.negative { -(sx * px) } else { sx * px })) by (
        nonlinear_arith)
            requires
                signed_significand(x) == (if x.negative { -sx } else { sx }),
        ;
    }
    assert(total != 0);
    lemma_power2_grows(x.exponent - low, 70);
    lemma_power2_grows(y.exponent - low, 70);
    lemma_scaled_bound(sx, px);
    lemma_scaled_bound(sy, py);
    assert(signed_significand(x) * px == (if x.negative { -(sx * px) } else { sx * px })) by (
    nonlinear_arith)
        requires
            signed_significand(x) == (if x.negative { -sx } else { sx }),
    ;
    assert(signed_significand(ny) * py == (if y.negative { sy * py } else { -(sy * py) })) by (
    nonlinear_arith)
        requires
            signed_significand(ny) == (if y.negative { sy } else { -sy }),
    ;
    let magnitude_total = if total < 0 { -total } else { total };
    assert(magnitude_total < power2(128));
    lemma_rounded_shape(total < 0, magnitude_total, low);
}

/// Zero less two thirds.
pub proof fn lemma_zero_less_two_thirds()
    ensures
        difference_of(zero(), single_of(0xaaaaab, -24)) == negated(single_of(0xaaaaab, -24)),
{
    lemma_single_powers();
    let x = negated(single_of(0xaaaaab, -24));
    assert(is_single(x));
    lemma_sum_with_zero(zero(), x);
}

/// The gaps between the sixths of a turn that named colours have as hues.
#[verifier::spinoff_prover]
pub proof fn lemma_hue_gaps()
    ensures
        difference_of(single_of(0xaaaaab, -26), single_of(0xaaaaab, -25)) == negated(single_of(0xaaaaab, -26)),
        difference_of(single_of(0xaaaaab, -26), single_of(0x800000, -24)) == negated(single_of(0xaaaaaa, -25)),
        difference_of(single_of(0xaaaaab, -26), single_of(0xaaaaab, -24)) == negated(single_of(0x800000, -24)),
        difference_of(single_of(0xaaaaab, -26), single_of(0xd55555, -24)) == negated(single_of(0xaaaaaa, -24)),
        difference_of(single_of(0xaaaaab, -25), single_of(0xaaaaab, -26)) == single_of(0xaaaaab, -26),
        difference_of(single_of(0xaaaaab, -25), single_of(0x800000, -24)) == negated(single_of(0xaaaaaa, -26)),
        difference_of(single_of(0xaaaaab, -25), single_of(0xaaaaab, -24)) == negated(single_of(0xaaaaab, -25)),
        difference_of(single_of(0xaaaaab, -25), single_of(0xd55555, -24)) == negated(single_of(0xffffff, -25)),
        difference_of(single_of(0x800000, -24), single_of(0xaaaaab, -26)) == single_of(0xaaaaaa, -25),
        difference_of(single_of(0x800000, -24), single_of(0xaaaaab, -25)) == single_of(0xaaaaaa, -26),
        difference_of(single_of(0x800000, -24), single_of(0xaaaaab, -24)) == negated(single_of(0xaaaaac, -26)),
        difference_of(single_of(0x800000, -24), single_of(0xd55555, -24)) == negated(single_of(0xaaaaaa, -25)),
        difference_of(single_of(0xaaaaab, -24), single_of(0xaaaaab, -26)) == single_of(0x800000, -24),
        difference_of(single_of(0xaaaaab, -24), single_of(0xaaaaab, -25)) == single_of(0xaaaaab, -25),
        difference_of(single_of(0xaaaaab, -24), single_of(0x800000, -24)) == single_of(0xaaaaac, -26),
        difference_of(single_of(0xaaaaab, -24), single_of(0xd55555, -24)) == negated(single_of(0xaaaaa8, -26)),
        difference_of(single_of(0xd55555, -24), single_of(0xaaaaab, -26)) == single_of(0xaaaaaa, -24),
        difference_of(single_of(0xd55555, -24), single_of(0xaaaaab, -25)) == single_of(0xffffff, -25),
        difference_of(single_of(0xd55555, -24), single_of(0x800000, -24)) == single_of(0xaaaaaa, -25),
        difference_of(single_of(0xd55555, -24), single_of(0xaaaaab, -24)) == single_of(0xaaaaa8, -26),
        difference_of(single_of(0xaaaaab, -26), zero()) == single_of(0xaaaaab, -26),
        difference_of(zero(), single_of(0xaaaaab, -26)) == negated(single_of(0xaaaaab, -26)),
        difference_of(single_of(0xaaaaab, -25), zero()) == single_of(0xaaaaab, -25),
        difference_of(zero(), single_of(0xaaaaab, -25)) == negated(single_of(0xaaaaab, -25)),
        difference_of(single_of(0x800000, -24), zero()) == single_of(0x800000, -24),
        difference_of(zero(), single_of(0x800000, -24)) == negated(single_of(0x800000, -24)),
        difference_of(single_of(0xaaaaab, -24), zero()) == single_of(0xaaaaab, -24),
        difference_of(zero(), single_of(0xaaaaab, -24)) == negated(single_of(0xaaaaab, -24)),
        difference_of(single_of(0xd55555, -24), zero()) == single_of(0xd55555, -24),
        difference_of(zero(), single_of(0xd55555, -24)) == negated(single_of(0xd55555, -24)),
{
    lemma_single_powers();
    assert(power2(23) == 0x80_0000 && power2(24) == 0x100_0000 && power2(25) == 0x200_0000
        && power2(26) == 0x400_0000 && power2(0) == 1 && power2(1) == 2 && power2(2) == 4
        && power2(3) == 8 && power2(21) == 0x20_0000 && power2(22) == 0x40_0000) by {
        reveal_with_fuel(power2, 27);
    }
    lemma_bit_length_is(11184811nat, 24);
    lemma_bit_length_is(16777215nat, 24);
    lemma_bit_length_is(22369621nat, 25);
    lemma_bit_length_is(2796202nat, 22);
    lemma_bit_length_is(2796203nat, 22);
    lemma_bit_length_is(33554433nat, 26);
    lemma_bit_length_is(44739241nat, 26);
    lemma_bit_length_is(5592405nat, 23);
    lemma_sum_with_zero(zero(), single_of(0xaaaaab, -26));
    lemma_sum_with_zero(zero(), negated(single_of(0xaaaaab, -26)));
    lemma_sum_with_zero(zero(), single_of(0xaaaaab, -25));
    lemma_sum_with_zero(zero(), negated(single_of(0xaaaaab, -25)));
    lemma_sum_with_zero(zero(), single_of(0x800000, -24));
    lemma_sum_with_zero(zero(), negated(single_of(0x800000, -24)));
    lemma_sum_with_zero(zero(), single_of(0xaaaaab, -24));
    lemma_sum_with_zero(zero(), negated(single_of(0xaaaaab, -24)));
    lemma_sum_with_zero(zero(), single_of(0xd55555, -24));
    lemma_sum_with_zero(zero(), negated(single_of(0xd55555, -24)));
}

/// How the channel fractions of named colours compare.
#[verifier::spinoff_prover]
pub proof fn lemma_channel_order()
    ensures
        !less_than(zero(), zero()),
        less_than(zero(), single_of(0xaaaaab, -25)),
        less_than(zero(), single_of(0xaaaaab, -24)),
        less_than(zero(), single_of(0x800000, -23)),
        !less_than(single_of(0xaaaaab, -25), zero()),
        !less_than(single_of(0xaaaaab, -25), single_of(0xaaaaab, -25)),
        less_than(single_of(0xaaaaab, -25), single_of(0xaaaaab, -24)),
        less_than(single_of(0xaaaaab, -25), single_of(0x800000, -23)),
        !less_than(single_of(0xaaaaab, -24), zero()),
        !less_than(single_of(0xaaaaab, -24), single_of(0xaaaaab, -25)),
        !less_than(single_of(0xaaaaab, -24), single_of(0xaaaaab, -24)),
        less_than(single_of(0xaaaaab, -24), single_of(0x800000, -23)),
        !less_than(single_of(0x800000, -23), zero()),
        !less_than(single_of(0x800000, -23), single_of(0xaaaaab, -25)),
        !less_than(single_of(0x800000, -23), single_of(0xaaaaab, -24)),
        !less_than(single_of(0x800000, -23), single_of(0x800000, -23)),
{
    assert(power2(23) == 0x80_0000 && power2(24) == 0x100_0000 && power2(25) == 0x200_0000
        && power2(26) == 0x400_0000 && power2(0) == 1 && power2(1) == 2 && power2(2) == 4
        && power2(3) == 8) by {
        reveal_with_fuel(power2, 27);
    }
    assert(signed_significand(single_of(0xaaaaab, -24)) * power2(1) == 2 * 0xaaaaab);
    assert(signed_significand(single_of(0xaaaaab, -25)) * power2(0) == 0xaaaaab);
}

/// Zero over anything is zero.
pub proof fn lemma_quotient_of_zero(y: Single)
    ensures
        quotient_of(zero(), y) == zero(),
{
}

} // verus!
