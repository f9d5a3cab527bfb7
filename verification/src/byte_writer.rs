use vstd::prelude::*;

use crate::byte_reader::{power128, signed32, string_at, var_int_at, var_int_from};
use vstd::arithmetic::div_mod::{lemma_div_denominator, lemma_fundamental_div_mod, lemma_mod_breakdown};
use vstd::arithmetic::mul::lemma_mul_is_commutative;
use vstd::utf8::{encode_scalar, encode_utf8, encode_utf8_decode_utf8, encode_utf8_valid_utf8};

verus! {

/// The seven-bit groups of `bits`, least significant first, each but the last with its
/// high bit set.
pub open spec fn var_int_groups(bits: nat) -> Seq<u8>
    decreases bits,
{
    if bits < 128 {
        seq![bits as u8]
    } else {
        seq![(bits % 128 + 128) as u8] + var_int_groups(bits / 128)
    }
}

/// The 32-bit pattern of a value, read as an unsigned number.
pub open spec fn unsigned32(value: i32) -> nat {
    if value < 0 {
        (value + 0x1_0000_0000) as nat
    } else {
        value as nat
    }
}

/// The bytes of a VarInt: the groups of the value's 32-bit pattern. A negative value
/// always takes five bytes.
pub open spec fn var_int_bytes(value: i32) -> Seq<u8> {
    var_int_groups(unsigned32(value))
}

/// The bytes of a protocol string: the UTF-8 length as a VarInt, then the UTF-8 bytes.
pub open spec fn string_bytes(text: Seq<char>) -> Seq<u8> {
    var_int_bytes(encode_utf8(text).len() as i32) + encode_utf8(text)
}

/// Appends `value` as a VarInt.
pub fn write_var_int(buffer: &mut Vec<u8>, value: i32)
    ensures
        final(buffer)@ == old(buffer)@ + var_int_bytes(value),
{
    let mut bits: u32 = if value < 0 {
        (value as i64 + 0x1_0000_0000i64) as u32
    } else {
        value as u32
    };
    let ghost start = old(buffer)@;
    proof {
        assert(start + var_int_groups(bits as nat) =~= buffer@ + var_int_groups(bits as nat));
    }
    loop
        invariant
            start == old(buffer)@,
            start + var_int_bytes(value) == buffer@ + var_int_groups(bits as nat),
        decreases bits,
    {
        if bits < 128 {
            let ghost before = buffer@;
            buffer.push(bits as u8);
            proof {
                assert(buffer@ =~= before + var_int_groups(bits as nat));
            }
            return;
        }
        let ghost before = buffer@;
        let ghost old_bits = bits;
        let group: u8 = (bits % 128 + 128) as u8;
        buffer.push(group);
        bits = bits / 128;
        proof {
            assert(var_int_groups(old_bits as nat) == seq![group] + var_int_groups(bits as nat));
            assert(buffer@ + var_int_groups(bits as nat) =~= before + var_int_groups(old_bits as nat));
        }
    }
}

/// UTF-8 spends at most four bytes on a character.
pub proof fn lemma_encode_utf8_length(text: Seq<char>)
    ensures
        encode_utf8(text).len() <= 4 * text.len(),
    decreases text.len(),
{
    if text.len() > 0 {
        assert(encode_scalar(text[0] as u32).len() <= 4);
        lemma_encode_utf8_length(text.drop_first());
    }
}

/// Appends `text` as a length-prefixed UTF-8 string.
pub fn write_string(buffer: &mut Vec<u8>, text: &str)
    requires
        encode_utf8(text@).len() <= i32::MAX,
    ensures
        final(buffer)@ == old(buffer)@ + string_bytes(text@),
{
    let bytes = text.as_bytes();
    write_var_int(buffer, bytes.len() as i32);
    let ghost start = buffer@;
    let mut index: usize = 0;
    while index < bytes.len()
        invariant
            0 <= index <= bytes@.len(),
            buffer@ == start + bytes@.take(index as int),
        decreases bytes@.len() - index,
    {
        buffer.push(bytes[index]);
        proof {
            assert(bytes@.take(index + 1) =~= bytes@.take(index as int).push(bytes@[index as int]));
        }
        index += 1;
    }
    proof {
        assert(bytes@.take(index as int) =~= bytes@);
        assert(buffer@ =~= old(buffer)@ + string_bytes(text@));
    }
}

proof fn lemma_var_int_steps(bytes: Seq<u8>, at: int, count: int, bits: nat)
    requires
        0 <= at,
        0 <= count <= 4,
        bits < 0x1_0000_0000,
        at + count + var_int_groups(bits / (power128(count) as nat)).len() <= bytes.len(),
        bytes.subrange(
            at + count,
            at + count + var_int_groups(bits / (power128(count) as nat)).len(),
        ) == var_int_groups(bits / (power128(count) as nat)),
    ensures
        power128(count) > 0,
        var_int_from(bytes, at, count, bits as int % power128(count)) == Ok::<
            (i32, int),
            crate::byte_reader::PacketDecodeError,
        >(
            (
                signed32(bits as int) as i32,
                at + count + var_int_groups(bits / (power128(count) as nat)).len(),
            ),
        ),
    decreases 4 - count,
{
    reveal_with_fuel(power128, 5);
    assert(power128(count) > 0);
    let scale = power128(count);
    let rest: nat = bits / (scale as nat);
    let groups = var_int_groups(rest);
    assert(groups[0] == bytes[at + count]) by {
        assert(bytes.subrange(at + count, at + count + groups.len())[0] == bytes[at + count]);
    }
    lemma_fundamental_div_mod(bits as int, scale);
    if rest < 128 {
        assert(bytes[at + count] == rest);
        assert((bits as int % scale) + (rest % 128) * scale == bits) by {
            lemma_mul_is_commutative(scale, rest as int);
        }
        assert((bits as int) % 0x1_0000_0000 == bits);
    } else {
        assert(count < 4) by {
            if count == 4 {
                assert(scale == 0x1000_0000);
                assert(bits as int / scale < 16) by (nonlinear_arith)
                    requires
                        scale == 0x1000_0000,
                        bits < 0x1_0000_0000,
                ;
            }
        }
        let byte = bytes[at + count];
        assert(byte == rest % 128 + 128);
        assert(byte % 128 == rest % 128);
        let next = bits as int % scale + (rest % 128) * scale;
        assert(power128(count + 1) == scale * 128);
        lemma_mod_breakdown(bits as int, scale, 128);
        lemma_mul_is_commutative(scale, (rest % 128) as int);
        assert(next == bits as int % power128(count + 1));
        lemma_div_denominator(bits as int, scale, 128);
        assert(rest / 128 == bits / (power128(count + 1) as nat));
        assert(groups == seq![byte] + var_int_groups(rest / 128));
        assert(bytes.subrange(
            at + count + 1,
            at + count + 1 + var_int_groups(rest / 128).len(),
        ) =~= var_int_groups(rest / 128)) by {
            assert forall|k: int| 0 <= k < var_int_groups(rest / 128).len() implies #[trigger] bytes.subrange(
                at + count + 1,
                at + count + 1 + var_int_groups(rest / 128).len(),
            )[k] == var_int_groups(rest / 128)[k] by {
                assert(bytes.subrange(at + count, at + count + groups.len())[k + 1] == groups[k
                    + 1]);
            }
        }
        lemma_var_int_steps(bytes, at, count + 1, bits);
    }
}

/// A VarInt reads back as the value it was written from, and ends where its bytes end.
pub proof fn lemma_var_int_round_trip(bytes: Seq<u8>, at: int, value: i32)
    requires
        0 <= at,
        at + var_int_bytes(value).len() <= bytes.len(),
        bytes.subrange(at, at + var_int_bytes(value).len()) == var_int_bytes(value),
    ensures
        var_int_at(bytes, at) == Ok::<(i32, int), crate::byte_reader::PacketDecodeError>(
            (value, at + var_int_bytes(value).len()),
        ),
{
    reveal_with_fuel(power128, 1);
    let bits = unsigned32(value);
    assert(power128(0) == 1);
    assert(bits / 1 == bits && bits as int % 1 == 0) by (nonlinear_arith);
    lemma_var_int_steps(bytes, at, 0, bits);
    assert(signed32(bits as int) == value);
}

/// A string reads back as the text it was written from, whatever limit at least its
/// length in characters the reader applies.
pub proof fn lemma_string_round_trip(bytes: Seq<u8>, at: int, text: Seq<char>, limit: int)
    requires
        0 <= at,
        text.len() <= limit,
        encode_utf8(text).len() <= i32::MAX,
        at + string_bytes(text).len() <= bytes.len(),
        bytes.subrange(at, at + string_bytes(text).len()) == string_bytes(text),
    ensures
        string_at(bytes, at, limit) == Ok::<(Seq<char>, int), crate::byte_reader::PacketDecodeError>(
            (text, at + string_bytes(text).len()),
        ),
{
    let encoded = encode_utf8(text);
    let length = encoded.len() as i32;
    let prefix = var_int_bytes(length);
    assert(bytes.subrange(at, at + prefix.len()) =~= prefix) by {
        assert forall|k: int| 0 <= k < prefix.len() implies #[trigger] bytes.subrange(
            at,
            at + prefix.len(),
        )[k] == prefix[k] by {
            assert(bytes.subrange(at, at + string_bytes(text).len())[k] == string_bytes(text)[k]);
        }
    }
    lemma_var_int_round_trip(bytes, at, length);
    let start = at + prefix.len();
    assert(bytes.subrange(start, start + length) =~= encoded) by {
        assert forall|k: int| 0 <= k < encoded.len() implies #[trigger] bytes.subrange(
            start,
            start + length,
        )[k] == encoded[k] by {
            assert(bytes.subrange(at, at + string_bytes(text).len())[prefix.len() + k]
                == string_bytes(text)[prefix.len() + k]);
        }
    }
    lemma_encode_utf8_length(text);
    encode_utf8_valid_utf8(text);
    encode_utf8_decode_utf8(text);
}

} // verus!
