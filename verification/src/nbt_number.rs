use vstd::prelude::*;

use crate::nbt::{Nbt, NbtValue};
use vstd::arithmetic::div_mod::{lemma_fundamental_div_mod, lemma_fundamental_div_mod_converse_div};

verus! {

pub open spec fn power2(exponent: int) -> int
    decreases exponent,
{
    if exponent <= 0 {
        1
    } else {
        2 * power2(exponent - 1)
    }
}

pub proof fn lemma_power2_positive(exponent: int)
    ensures
        power2(exponent) >= 1,
    decreases exponent,
{
    if exponent > 0 {
        lemma_power2_positive(exponent - 1);
    }
}

pub proof fn lemma_power2_grows(low: int, high: int)
    requires
        0 <= low <= high,
    ensures
        1 <= power2(low) <= power2(high),
    decreases high,
{
    lemma_power2_positive(low);
    if high > low {
        lemma_power2_grows(low, high - 1);
    }
}

/// `x` cast to `i32` the way Rust casts a float: values beyond the range saturate.
pub open spec fn saturated_i32(x: int) -> i32 {
    if x < i32::MIN {
        i32::MIN
    } else if x > i32::MAX {
        i32::MAX
    } else {
        x as i32
    }
}

/// The floor of `±significand × 2^exponent`.
pub open spec fn binary_floor(negative: bool, significand: int, exponent: int) -> int {
    let signed = if negative {
        -significand
    } else {
        significand
    };
    if exponent >= 0 {
        signed * power2(exponent)
    } else {
        signed / power2(-exponent)
    }
}

/// An IEEE 754 binary number, given by its fields, floored and cast to `i32`.
///
/// An exponent field of all ones is an infinity, which saturates, or a NaN, which becomes
/// zero. A zero exponent field is a subnormal number, without the implicit leading one.
pub open spec fn float_floor_i32(
    negative: bool,
    biased_exponent: int,
    fraction: int,
    fraction_bits: int,
    exponent_all_ones: int,
    bias: int,
) -> i32 {
    if biased_exponent == exponent_all_ones {
        if fraction != 0 {
            0
        } else if negative {
            i32::MIN
        } else {
            i32::MAX
        }
    } else if biased_exponent == 0 {
        saturated_i32(binary_floor(negative, fraction, 1 - bias - fraction_bits))
    } else {
        saturated_i32(
            binary_floor(
                negative,
                fraction + power2(fraction_bits),
                biased_exponent - bias - fraction_bits,
            ),
        )
    }
}

/// `f32::floor` followed by a cast to `i32`, on the float's bit pattern.
pub open spec fn f32_floor_i32(bits: u32) -> i32 {
    float_floor_i32(
        bits >= 0x8000_0000,
        ((bits / 0x80_0000) % 0x100) as int,
        (bits % 0x80_0000) as int,
        23,
        0xff,
        127,
    )
}

/// `f64::floor` followed by a cast to `i32`, on the float's bit pattern.
pub open spec fn f64_floor_i32(bits: u64) -> i32 {
    float_floor_i32(
        bits >= 0x8000_0000_0000_0000,
        ((bits / 0x10_0000_0000_0000) % 0x800) as int,
        (bits % 0x10_0000_0000_0000) as int,
        52,
        0x7ff,
        1023,
    )
}

/// A number read as an `i32`: integers are cast, truncating a `Long` to its low 32 bits,
/// and floats are floored first; anything that is not a number has no such reading.
pub open spec fn nbt_as_i32(value: Nbt) -> Option<i32> {
    match value {
        Nbt::Byte(v) => Some(v as i32),
        Nbt::Short(v) => Some(v as i32),
        Nbt::Int(v) => Some(v),
        Nbt::Long(v) => Some(v as i32),
        Nbt::Float(bits) => Some(f32_floor_i32(bits)),
        Nbt::Double(bits) => Some(f64_floor_i32(bits)),
        _ => None,
    }
}

fn power_of_two(exponent: u32) -> (power: u64)
    requires
        exponent < 64,
    ensures
        power == power2(exponent as int),
{
    proof {
        assert(power2(63) == 0x8000_0000_0000_0000) by {
            reveal_with_fuel(power2, 64);
        }
    }
    let mut power: u64 = 1;
    let mut done: u32 = 0;
    while done < exponent
        invariant
            done <= exponent < 64,
            power == power2(done as int),
            power2(63) == 0x8000_0000_0000_0000,
        decreases exponent - done,
    {
        proof {
            lemma_power2_grows(done + 1, 63);
        }
        power = power * 2;
        done += 1;
    }
    power
}

fn saturate(value: i128) -> (cast: i32)
    ensures
        cast == saturated_i32(value as int),
{
    if value < -0x8000_0000 {
        i32::MIN
    } else if value > 0x7fff_ffff {
        i32::MAX
    } else {
        value as i32
    }
}

fn floor_to_i32(negative: bool, significand: u64, exponent: i32) -> (floored: i32)
    requires
        significand < 0x20_0000_0000_0000,
        -1100 <= exponent <= 1100,
    ensures
        floored == saturated_i32(binary_floor(negative, significand as int, exponent as int)),
{
    let ghost sig = significand as int;
    let ghost signed: int = if negative {
        -sig
    } else {
        sig
    };
    if significand == 0 {
        proof {
            lemma_power2_grows(0, if exponent >= 0 {
                exponent as int
            } else {
                -exponent
            });
            if exponent < 0 {
                lemma_fundamental_div_mod_converse_div(0, power2(-exponent), 0, 0);
            }
        }
        return 0;
    }
    if exponent >= 0 {
        if exponent >= 31 {
            proof {
                lemma_power2_grows(31, exponent as int);
                assert(power2(31) == 0x8000_0000) by {
            reveal_with_fuel(power2, 32);
        }
                let p = power2(exponent as int);
                assert(sig * p >= p) by (nonlinear_arith)
                    requires
                        sig >= 1,
                        p >= 1,
                ;
                assert(signed * p == if negative {
                    -(sig * p)
                } else {
                    sig * p
                }) by (nonlinear_arith)
                    requires
                        signed == if negative {
                            -sig
                        } else {
                            sig
                        },
                ;
            }
            return if negative {
                i32::MIN
            } else {
                i32::MAX
            };
        }
        let power = power_of_two(exponent as u32);
        proof {
            lemma_power2_grows(exponent as int, 30);
            assert(power2(30) == 0x4000_0000) by {
            reveal_with_fuel(power2, 31);
        }
            assert(sig * power <= 0x20_0000_0000_0000 * 0x4000_0000) by (nonlinear_arith)
                requires
                    sig < 0x20_0000_0000_0000,
                    power <= 0x4000_0000,
                    sig >= 0,
                    power >= 0,
            ;
        }
        let scaled: i128 = significand as i128 * power as i128;
        proof {
            assert(signed * power == if negative {
                -(sig * power)
            } else {
                sig * power
            }) by (nonlinear_arith)
                requires
                    signed == if negative {
                        -sig
                    } else {
                        sig
                    },
            ;
        }
        return saturate(if negative {
            -scaled
        } else {
            scaled
        });
    }
    let shift = (-exponent) as u32;
    if shift >= 64 {
        proof {
            lemma_power2_grows(64, shift as int);
            assert(power2(64) == 0x1_0000_0000_0000_0000) by {
            reveal_with_fuel(power2, 65);
        }
            let p = power2(shift as int);
            lemma_fundamental_div_mod_converse_div(sig, p, 0, sig);
            lemma_fundamental_div_mod_converse_div(-sig, p, -1, p - sig);
        }
        return if negative {
            -1
        } else {
            0
        };
    }
    let power = power_of_two(shift);
    proof {
        lemma_power2_grows(0, shift as int);
    }
    let quotient = significand / power;
    let remainder = significand % power;
    proof {
        lemma_fundamental_div_mod(sig, power as int);
        assert(quotient <= sig) by (nonlinear_arith)
            requires
                quotient == sig / (power as int),
                power >= 1,
                sig >= 0,
        ;
        assert(sig == power * quotient + remainder);
        assert(-sig == (-(quotient as int) - 1) * power + (power - remainder)) by (nonlinear_arith)
            requires
                sig == power * quotient + remainder,
        ;
        if negative {
            if remainder > 0 {
                lemma_fundamental_div_mod_converse_div(
                    -sig,
                    power as int,
                    -(quotient as int) - 1,
                    power - remainder,
                );
            } else {
                assert(-sig == (-(quotient as int)) * power + 0) by (nonlinear_arith)
                    requires
                        sig == power * quotient + remainder,
                        remainder == 0,
                ;
                lemma_fundamental_div_mod_converse_div(-sig, power as int, -(quotient as int), 0);
            }
        }
    }
    let floored: i128 = if negative {
        if remainder > 0 {
            -(quotient as i128) - 1
        } else {
            -(quotient as i128)
        }
    } else {
        quotient as i128
    };
    saturate(floored)
}

/// `Value::as_i32` on a float's bits: the floor of the value, saturated to the `i32`
/// range, with NaN read as zero.
pub fn f32_bits_floor_i32(bits: u32) -> (floored: i32)
    ensures
        floored == f32_floor_i32(bits),
{
    let negative = bits >= 0x8000_0000;
    let biased = (bits / 0x80_0000) % 0x100;
    let fraction = bits % 0x80_0000;
    if biased == 0xff {
        if fraction != 0 {
            0
        } else if negative {
            i32::MIN
        } else {
            i32::MAX
        }
    } else if biased == 0 {
        floor_to_i32(negative, fraction as u64, 1 - 127 - 23)
    } else {
        proof {
            assert(power2(23) == 0x80_0000) by {
            reveal_with_fuel(power2, 24);
        }
        }
        floor_to_i32(negative, fraction as u64 + 0x80_0000, biased as i32 - 127 - 23)
    }
}

/// The same reading of a double's bits.
pub fn f64_bits_floor_i32(bits: u64) -> (floored: i32)
    ensures
        floored == f64_floor_i32(bits),
{
    let negative = bits >= 0x8000_0000_0000_0000;
    let biased = (bits / 0x10_0000_0000_0000) % 0x800;
    let fraction = bits % 0x10_0000_0000_0000;
    if biased == 0x7ff {
        if fraction != 0 {
            0
        } else if negative {
            i32::MIN
        } else {
            i32::MAX
        }
    } else if biased == 0 {
        floor_to_i32(negative, fraction, 1 - 1023 - 52)
    } else {
        proof {
            assert(power2(52) == 0x10_0000_0000_0000) by {
            reveal_with_fuel(power2, 53);
        }
        }
        floor_to_i32(negative, fraction + 0x10_0000_0000_0000, biased as i32 - 1023 - 52)
    }
}

/// Reads a number as an `i32`, as `Value::as_i32` does.
pub fn as_i32(value: &NbtValue) -> (number: Option<i32>)
    ensures
        number == nbt_as_i32(value@),
{
    match value {
        NbtValue::Byte(v) => Some(*v as i32),
        NbtValue::Short(v) => Some(*v as i32),
        NbtValue::Int(v) => Some(*v),
        NbtValue::Long(v) => Some(*v as i32),
        NbtValue::Float(bits) => Some(f32_bits_floor_i32(*bits)),
        NbtValue::Double(bits) => Some(f64_bits_floor_i32(*bits)),
        _ => None,
    }
}

} // verus!
