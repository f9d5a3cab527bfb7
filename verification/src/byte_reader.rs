use vstd::prelude::*;

use crate::strs::{chars_of, decimal_text, push_decimal, push_str};
use vstd::utf8::{decode_utf8, valid_utf8};

verus! {

/// Why a packet's bytes could not be read.
#[derive(Debug, Clone, Copy, PartialEq, Eq, Structural)]
pub enum PacketDecodeError {
    /// The frame ended before the value did.
    UnexpectedEnd,
    /// A VarInt ran past the five bytes a 32-bit value needs.
    VarIntTooLong,
    /// A length prefix was negative.
    NegativeLength { length: i32 },
    /// A string held more characters, or more bytes, than its field allows.
    StringTooLong { actual: usize, limit: usize },
    /// A string's bytes were not UTF-8.
    InvalidUtf8,
    /// A byte array, or a list counted like one, was longer than its field allows.
    ByteArrayTooLong { actual: usize, limit: usize },
}

/// The text UTF-8 bytes encode, or `None` when they are not valid UTF-8.
pub open spec fn utf8_text(bytes: Seq<u8>) -> Option<Seq<char>> {
    if valid_utf8(bytes) {
        Some(decode_utf8(bytes))
    } else {
        None
    }
}

/// `String::from_utf8`: the text the bytes encode when they are valid UTF-8, and an
/// error otherwise.
#[verifier::external_body]
fn utf8_string(bytes: Vec<u8>) -> (text: Option<String>)
    ensures
        match text {
            Some(decoded) => utf8_text(bytes@) == Some(decoded@),
            None => utf8_text(bytes@) is None,
        },
{
    match String::from_utf8(bytes) {
        Ok(decoded) => Some(decoded),
        Err(_) => None,
    }
}

/// The value of bytes read most significant first.
pub open spec fn big_endian(bytes: Seq<u8>) -> nat
    decreases bytes.len(),
{
    if bytes.len() == 0 {
        0
    } else {
        big_endian(bytes.drop_last()) * 256 + bytes.last() as nat
    }
}

/// A 32-bit pattern read as a two's-complement number.
pub open spec fn signed32(bits: int) -> int {
    if bits >= 0x8000_0000 {
        bits - 0x1_0000_0000
    } else {
        bits
    }
}

/// A 64-bit pattern read as a two's-complement number.
pub open spec fn signed64(bits: int) -> int {
    if bits >= 0x8000_0000_0000_0000 {
        bits - 0x1_0000_0000_0000_0000
    } else {
        bits
    }
}

pub open spec fn power128(exponent: int) -> int
    decreases exponent,
{
    if exponent <= 0 {
        1
    } else {
        128 * power128(exponent - 1)
    }
}

/// Reading a VarInt from `at`, having read `count` of its bytes worth `value` so far:
/// seven bits a byte, least significant group first, the high bit marking that another
/// byte follows; the value and the position after it.
pub open spec fn var_int_from(bytes: Seq<u8>, at: int, count: int, value: int) -> Result<
    (i32, int),
    PacketDecodeError,
>
    decreases 5 - count,
{
    if count >= 5 {
        Err(PacketDecodeError::VarIntTooLong)
    } else if at + count < 0 || at + count >= bytes.len() {
        Err(PacketDecodeError::UnexpectedEnd)
    } else {
        let byte = bytes[at + count];
        let next = value + (byte % 128) * power128(count);
        if byte < 128 {
            Ok((signed32(next % 0x1_0000_0000) as i32, at + count + 1))
        } else {
            var_int_from(bytes, at, count + 1, next)
        }
    }
}

/// The VarInt at `at` and the position after it.
pub open spec fn var_int_at(bytes: Seq<u8>, at: int) -> Result<(i32, int), PacketDecodeError> {
    var_int_from(bytes, at, 0, 0)
}

/// The `width` bytes at `at`, read most significant first.
pub open spec fn fixed_at(bytes: Seq<u8>, at: int, width: int) -> Result<(nat, int), PacketDecodeError> {
    if 0 <= at && at + width <= bytes.len() {
        Ok((big_endian(bytes.subrange(at, at + width)), at + width))
    } else {
        Err(PacketDecodeError::UnexpectedEnd)
    }
}

/// A length-prefixed UTF-8 string of at most `limit` characters at `at`.
///
/// The byte length may not exceed four bytes a character, the most UTF-8 spends.
pub open spec fn string_at(bytes: Seq<u8>, at: int, limit: int) -> Result<
    (Seq<char>, int),
    PacketDecodeError,
> {
    match var_int_at(bytes, at) {
        Err(error) => Err(error),
        Ok((length, start)) => if length < 0 {
            Err(PacketDecodeError::NegativeLength { length })
        } else if length > 4 * limit {
            Err(PacketDecodeError::StringTooLong { actual: length as usize, limit: (4 * limit) as usize })
        } else if start + length > bytes.len() {
            Err(PacketDecodeError::UnexpectedEnd)
        } else {
            match utf8_text(bytes.subrange(start, start + length)) {
                None => Err(PacketDecodeError::InvalidUtf8),
                Some(text) => if text.len() > limit {
                    Err(PacketDecodeError::StringTooLong { actual: text.len() as usize, limit: limit as usize })
                } else {
                    Ok((text, start + length))
                },
            }
        },
    }
}

/// A length-prefixed byte array of at most `limit` bytes at `at`.
pub open spec fn byte_array_at(bytes: Seq<u8>, at: int, limit: int) -> Result<
    (Seq<u8>, int),
    PacketDecodeError,
> {
    match var_int_at(bytes, at) {
        Err(error) => Err(error),
        Ok((length, start)) => if length < 0 {
            Err(PacketDecodeError::NegativeLength { length })
        } else if length > limit {
            Err(PacketDecodeError::ByteArrayTooLong { actual: length as usize, limit: limit as usize })
        } else if start + length > bytes.len() {
            Err(PacketDecodeError::UnexpectedEnd)
        } else {
            Ok((bytes.subrange(start, start + length), start + length))
        },
    }
}

/// A cursor over the bytes of one packet.
pub struct ByteReader {
    bytes: Vec<u8>,
    position: usize,
}

impl View for ByteReader {
    /// The packet's bytes and how many of them have been read.
    type V = (Seq<u8>, int);

    closed spec fn view(&self) -> (Seq<u8>, int) {
        (self.bytes@, self.position as int)
    }
}

impl ByteReader {
    /// The position never passes the end of the bytes.
    #[verifier::type_invariant]
    spec fn well_formed(self) -> bool {
        self.position <= self.bytes@.len()
    }

    pub fn new(bytes: Vec<u8>) -> (reader: ByteReader)
        ensures
            reader@ == (bytes@, 0int),
    {
        ByteReader { bytes, position: 0 }
    }

    /// How many bytes are left to read.
    pub fn remaining(&self) -> (count: usize)
        ensures
            count == self@.0.len() - self@.1,
    {
        proof {
            use_type_invariant(&*self);
        }
        self.bytes.len() - self.position
    }

    pub fn has_remaining(&self) -> (any: bool)
        ensures
            any == (self@.1 < self@.0.len()),
    {
        proof {
            use_type_invariant(&*self);
        }
        self.position < self.bytes.len()
    }

    /// Reads a VarInt.
    pub fn read_var_int(&mut self) -> (value: Result<i32, PacketDecodeError>)
        ensures
            final(self)@.0 == old(self)@.0,
            match var_int_at(old(self)@.0, old(self)@.1) {
                Ok((expected, after)) => value == Ok::<i32, PacketDecodeError>(expected)
                    && final(self)@.1 == after,
                Err(error) => value == Err::<i32, PacketDecodeError>(error),
            },
    {
        proof {
            use_type_invariant(&*self);
        }
        let ghost start = self.position as int;
        let mut total: u64 = 0;
        let mut count: usize = 0;
        let mut scale: u64 = 1;
        while count < 5
            invariant
                0 <= count <= 5,
                self.position <= self.bytes@.len(),
                self@.0 == old(self)@.0,
                self.position == start,
                start == old(self)@.1,
                scale == power128(count as int),
                total < scale,
                var_int_at(self@.0, start) == var_int_from(self@.0, start, count as int, total as int),
                scale >= 1,
            decreases 5 - count,
        {
            if self.bytes.len() - self.position <= count {
                return Err(PacketDecodeError::UnexpectedEnd);
            }
            let byte = self.bytes[self.position + count];
            proof {
                reveal_with_fuel(power128, 6);
                lemma_power128_grows(count as int, 4);
                assert(((byte % 128) as int) * (scale as int) <= 127 * (scale as int)) by (nonlinear_arith)
                    requires
                        0 <= byte % 128 <= 127,
                        0 < scale,
                ;
            }
            let next = total + ((byte % 128) as u64) * scale;
            if byte < 128 {
                self.position = self.position + count + 1;
                let low = next % 0x1_0000_0000;
                let value: i32 = if low >= 0x8000_0000 {
                    (low as i64 - 0x1_0000_0000) as i32
                } else {
                    low as i32
                };
                return Ok(value);
            }
            total = next;
            scale = scale * 128;
            count += 1;
        }
        Err(PacketDecodeError::VarIntTooLong)
    }

    /// Reads `width` bytes as one number, most significant first.
    fn read_fixed(&mut self, width: usize) -> (value: Result<u128, PacketDecodeError>)
        requires
            width <= 16,
        ensures
            final(self)@.0 == old(self)@.0,
            match fixed_at(old(self)@.0, old(self)@.1, width as int) {
                Ok((expected, after)) => value == Ok::<u128, PacketDecodeError>(expected as u128)
                    && final(self)@.1 == after,
                Err(error) => value == Err::<u128, PacketDecodeError>(error),
            },
    {
        proof {
            use_type_invariant(&*self);
        }
        if self.bytes.len() - self.position < width {
            return Err(PacketDecodeError::UnexpectedEnd);
        }
        let ghost start = self.position as int;
        let mut total: u128 = 0;
        let mut index: usize = 0;
        while index < width
            invariant
                0 <= index <= width <= 16,
                start + width <= self.bytes.len(),
                self.position == start,
                self@.0 == old(self)@.0,
                self.position <= self.bytes@.len(),
                total == big_endian(self@.0.subrange(start, start + index)),
                total < power256(index as int),
            decreases width - index,
        {
            let byte = self.bytes[self.position + index];
            proof {
                let read = self@.0.subrange(start, start + index + 1);
                assert(read.drop_last() =~= self@.0.subrange(start, start + index));
                assert(power256(index as int) <= power256(15)) by {
                    lemma_power256_grows(index as int, 15);
                }
                reveal_with_fuel(power256, 17);
                assert((total as int) * 256 + (byte as int) < power256(index + 1)) by (nonlinear_arith)
                    requires
                        total < power256(index as int),
                        byte < 256,
                        power256(index + 1) == 256 * power256(index as int),
                ;
            }
            total = total * 256 + byte as u128;
            index += 1;
        }
        self.position = self.position + width;
        Ok(total)
    }

    pub fn read_u8(&mut self) -> (value: Result<u8, PacketDecodeError>)
        ensures
            final(self)@.0 == old(self)@.0,
            match fixed_at(old(self)@.0, old(self)@.1, 1) {
                Ok((expected, after)) => value == Ok::<u8, PacketDecodeError>(expected as u8)
                    && final(self)@.1 == after,
                Err(error) => value == Err::<u8, PacketDecodeError>(error),
            },
    {
        proof {
            use_type_invariant(&*self);
        }
        let ghost before = self@;
        let read = self.read_fixed(1);
        proof {
            lemma_fixed_bound(before.0, before.1, 1);
            lemma_power256_values();
        }
        match read {
            Ok(value) => Ok(value as u8),
            Err(error) => Err(error),
        }
    }

    /// Reads a boolean: any byte but zero is true.
    pub fn read_bool(&mut self) -> (value: Result<bool, PacketDecodeError>)
        ensures
            final(self)@.0 == old(self)@.0,
            match fixed_at(old(self)@.0, old(self)@.1, 1) {
                Ok((expected, after)) => value == Ok::<bool, PacketDecodeError>(expected != 0)
                    && final(self)@.1 == after,
                Err(error) => value == Err::<bool, PacketDecodeError>(error),
            },
    {
        proof {
            use_type_invariant(&*self);
        }
        let ghost before = self@;
        proof {
            lemma_fixed_bound(before.0, before.1, 1);
            lemma_power256_values();
        }
        match self.read_u8() {
            Ok(byte) => Ok(byte != 0),
            Err(error) => Err(error),
        }
    }

    pub fn read_u16(&mut self) -> (value: Result<u16, PacketDecodeError>)
        ensures
            final(self)@.0 == old(self)@.0,
            match fixed_at(old(self)@.0, old(self)@.1, 2) {
                Ok((expected, after)) => value == Ok::<u16, PacketDecodeError>(expected as u16)
                    && final(self)@.1 == after,
                Err(error) => value == Err::<u16, PacketDecodeError>(error),
            },
    {
        proof {
            use_type_invariant(&*self);
        }
        let ghost before = self@;
        let read = self.read_fixed(2);
        proof {
            lemma_fixed_bound(before.0, before.1, 2);
            lemma_power256_values();
        }
        match read {
            Ok(value) => Ok(value as u16),
            Err(error) => Err(error),
        }
    }

    pub fn read_i32(&mut self) -> (value: Result<i32, PacketDecodeError>)
        ensures
            final(self)@.0 == old(self)@.0,
            match fixed_at(old(self)@.0, old(self)@.1, 4) {
                Ok((expected, after)) => value == Ok::<i32, PacketDecodeError>(
                    signed32(expected as int) as i32,
                ) && final(self)@.1 == after,
                Err(error) => value == Err::<i32, PacketDecodeError>(error),
            },
    {
        proof {
            use_type_invariant(&*self);
        }
        let ghost before = self@;
        let read = self.read_fixed(4);
        proof {
            lemma_fixed_bound(before.0, before.1, 4);
            lemma_power256_values();
        }
        match read {
            Ok(bits) => {
                if bits >= 0x8000_0000 {
                    Ok((bits as i64 - 0x1_0000_0000) as i32)
                } else {
                    Ok(bits as i32)
                }
            },
            Err(error) => Err(error),
        }
    }

    pub fn read_i64(&mut self) -> (value: Result<i64, PacketDecodeError>)
        ensures
            final(self)@.0 == old(self)@.0,
            match fixed_at(old(self)@.0, old(self)@.1, 8) {
                Ok((expected, after)) => value == Ok::<i64, PacketDecodeError>(
                    signed64(expected as int) as i64,
                ) && final(self)@.1 == after,
                Err(error) => value == Err::<i64, PacketDecodeError>(error),
            },
    {
        proof {
            use_type_invariant(&*self);
        }
        let ghost before = self@;
        let read = self.read_fixed(8);
        proof {
            lemma_fixed_bound(before.0, before.1, 8);
            lemma_power256_values();
        }
        match read {
            Ok(bits) => {
                if bits >= 0x8000_0000_0000_0000 {
                    Ok((bits as i128 - 0x1_0000_0000_0000_0000) as i64)
                } else {
                    Ok(bits as i64)
                }
            },
            Err(error) => Err(error),
        }
    }

    /// Reads a UUID as its 128-bit value, most significant byte first.
    pub fn read_uuid(&mut self) -> (value: Result<u128, PacketDecodeError>)
        ensures
            final(self)@.0 == old(self)@.0,
            match fixed_at(old(self)@.0, old(self)@.1, 16) {
                Ok((expected, after)) => value == Ok::<u128, PacketDecodeError>(expected as u128)
                    && final(self)@.1 == after,
                Err(error) => value == Err::<u128, PacketDecodeError>(error),
            },
    {
        proof {
            use_type_invariant(&*self);
        }
        let ghost before = self@;
        proof {
            lemma_fixed_bound(before.0, before.1, 16);
            lemma_power256_values();
        }
        self.read_fixed(16)
    }

    /// Takes `count` bytes off the front of what is left.
    fn take(&mut self, count: usize) -> (taken: Vec<u8>)
        requires
            old(self)@.1 + count <= old(self)@.0.len(),
        ensures
            final(self)@.0 == old(self)@.0,
            final(self)@.1 == old(self)@.1 + count,
            taken@ == old(self)@.0.subrange(old(self)@.1, old(self)@.1 + count),
    {
        proof {
            use_type_invariant(&*self);
        }
        let mut taken: Vec<u8> = Vec::new();
        let available: usize = self.bytes.len() - self.position;
        let end = self.position + count;
        assert(end <= self.position + available);
        while self.position < end
            invariant
                old(self)@.1 <= self.position <= end <= self@.0.len(),
                end == old(self)@.1 + count,
                self@.0 == old(self)@.0,
                taken@ == self@.0.subrange(old(self)@.1, self.position as int),
            decreases end - self.position,
        {
            taken.push(self.bytes[self.position]);
            self.position = self.position + 1;
            proof {
                assert(taken@ =~= self@.0.subrange(old(self)@.1, self.position as int));
            }
        }
        taken
    }

    /// Reads a length-prefixed UTF-8 string of at most `limit` characters.
    pub fn read_string(&mut self, limit: usize) -> (value: Result<String, PacketDecodeError>)
        requires
            limit <= 0x1000_0000,
        ensures
            final(self)@.0 == old(self)@.0,
            match string_at(old(self)@.0, old(self)@.1, limit as int) {
                Ok((expected, after)) => value matches Ok(text) && text@ == expected
                    && final(self)@.1 == after,
                Err(error) => value == Err::<String, PacketDecodeError>(error),
            },
    {
        proof {
            use_type_invariant(&*self);
        }
        let length = match self.read_var_int() {
            Ok(length) => length,
            Err(error) => return Err(error),
        };
        if length < 0 {
            return Err(PacketDecodeError::NegativeLength { length });
        }
        let length = length as usize;
        if length > 4 * limit {
            return Err(PacketDecodeError::StringTooLong { actual: length, limit: 4 * limit });
        }
        proof {
            use_type_invariant(&*self);
        }
        if self.bytes.len() - self.position < length {
            return Err(PacketDecodeError::UnexpectedEnd);
        }
        let raw = self.take(length);
        let text = match utf8_string(raw) {
            Some(text) => text,
            None => return Err(PacketDecodeError::InvalidUtf8),
        };
        let count = chars_of(text.as_str()).len();
        if count > limit {
            return Err(PacketDecodeError::StringTooLong { actual: count, limit });
        }
        Ok(text)
    }

    /// Reads a length-prefixed byte array of at most `limit` bytes.
    pub fn read_byte_array(&mut self, limit: usize) -> (value: Result<Vec<u8>, PacketDecodeError>)
        ensures
            final(self)@.0 == old(self)@.0,
            match byte_array_at(old(self)@.0, old(self)@.1, limit as int) {
                Ok((expected, after)) => value matches Ok(array) && array@ == expected
                    && final(self)@.1 == after,
                Err(error) => value == Err::<Vec<u8>, PacketDecodeError>(error),
            },
    {
        proof {
            use_type_invariant(&*self);
        }
        let length = match self.read_var_int() {
            Ok(length) => length,
            Err(error) => return Err(error),
        };
        if length < 0 {
            return Err(PacketDecodeError::NegativeLength { length });
        }
        let length = length as usize;
        if length > limit {
            return Err(PacketDecodeError::ByteArrayTooLong { actual: length, limit });
        }
        proof {
            use_type_invariant(&*self);
        }
        if self.bytes.len() - self.position < length {
            return Err(PacketDecodeError::UnexpectedEnd);
        }
        Ok(self.take(length))
    }

    /// Takes everything that is left.
    pub fn read_rest(&mut self) -> (rest: Vec<u8>)
        ensures
            final(self)@.0 == old(self)@.0,
            final(self)@.1 == old(self)@.0.len(),
            rest@ == old(self)@.0.subrange(old(self)@.1, old(self)@.0.len() as int),
    {
        proof {
            use_type_invariant(&*self);
        }
        let count = self.bytes.len() - self.position;
        self.take(count)
    }
}

pub open spec fn power256(exponent: int) -> int
    decreases exponent,
{
    if exponent <= 0 {
        1
    } else {
        256 * power256(exponent - 1)
    }
}

proof fn lemma_power128_grows(low: int, high: int)
    requires
        0 <= low <= high,
    ensures
        power128(low) <= power128(high),
        power128(low) >= 1,
    decreases high - low,
{
    if low < high {
        lemma_power128_grows(low, high - 1);
        assert(power128(high) == 128 * power128(high - 1));
    } else {
        lemma_power128_positive(low);
    }
}

proof fn lemma_power128_positive(exponent: int)
    ensures
        power128(exponent) >= 1,
    decreases exponent,
{
    if exponent > 0 {
        lemma_power128_positive(exponent - 1);
    }
}

pub proof fn lemma_power256_values()
    ensures
        power256(1) == 0x100,
        power256(2) == 0x1_0000,
        power256(4) == 0x1_0000_0000,
        power256(8) == 0x1_0000_0000_0000_0000,
        power256(16) == 0x1_0000_0000_0000_0000_0000_0000_0000_0000,
{
    reveal_with_fuel(power256, 17);
}

proof fn lemma_power256_grows(low: int, high: int)
    requires
        0 <= low <= high,
    ensures
        power256(low) <= power256(high),
        power256(low) >= 1,
    decreases high - low,
{
    if low < high {
        lemma_power256_grows(low, high - 1);
        assert(power256(high) == 256 * power256(high - 1));
    } else {
        lemma_power256_positive(low);
    }
}

proof fn lemma_power256_positive(exponent: int)
    ensures
        power256(exponent) >= 1,
    decreases exponent,
{
    if exponent > 0 {
        lemma_power256_positive(exponent - 1);
    }
}

proof fn lemma_big_endian_bound(bytes: Seq<u8>)
    ensures
        big_endian(bytes) < power256(bytes.len() as int),
    decreases bytes.len(),
{
    if bytes.len() > 0 {
        lemma_big_endian_bound(bytes.drop_last());
        let rest = big_endian(bytes.drop_last());
        let bound = power256(bytes.len() - 1);
        assert(rest * 256 + bytes.last() < 256 * bound) by (nonlinear_arith)
            requires
                rest < bound,
                bytes.last() < 256,
        ;
    }
}

/// A number read from `width` bytes is below `256` to the `width`.
pub proof fn lemma_fixed_bound(bytes: Seq<u8>, at: int, width: int)
    requires
        0 <= width <= 16,
    ensures
        fixed_at(bytes, at, width) matches Ok((value, _)) ==> value < power256(width),
{
    if 0 <= at && at + width <= bytes.len() {
        lemma_big_endian_bound(bytes.subrange(at, at + width));
    }
}

/// The text a [`PacketDecodeError`] is reported with.
pub open spec fn decode_error_message(error: PacketDecodeError) -> Seq<char> {
    match error {
        PacketDecodeError::UnexpectedEnd => "the frame ended before the value did"@,
        PacketDecodeError::VarIntTooLong => "a VarInt ran past five bytes"@,
        PacketDecodeError::NegativeLength { length } => "negative length "@ + if length < 0 {
            "-"@ + decimal_text((-length) as nat)
        } else {
            decimal_text(length as nat)
        },
        PacketDecodeError::StringTooLong { actual, limit } => "a string of length "@ + decimal_text(
            actual as nat,
        ) + " exceeds its limit of "@ + decimal_text(limit as nat),
        PacketDecodeError::InvalidUtf8 => "a string is not valid UTF-8"@,
        PacketDecodeError::ByteArrayTooLong { actual, limit } => "a byte array of length "@
            + decimal_text(actual as nat) + " exceeds its limit of "@ + decimal_text(limit as nat),
    }
}

impl PacketDecodeError {
    /// What went wrong, in words.
    pub fn message(&self) -> (text: String)
        ensures
            text@ == decode_error_message(*self),
    {
        let mut text = String::new();
        match self {
            PacketDecodeError::UnexpectedEnd => {
                push_str(&mut text, "the frame ended before the value did");
            },
            PacketDecodeError::VarIntTooLong => {
                push_str(&mut text, "a VarInt ran past five bytes");
            },
            PacketDecodeError::NegativeLength { length } => {
                push_str(&mut text, "negative length ");
                if *length < 0 {
                    push_str(&mut text, "-");
                    let magnitude: u64 = (0i64 - (*length as i64)) as u64;
                    push_decimal(&mut text, magnitude);
                } else {
                    push_decimal(&mut text, *length as u64);
                }
            },
            PacketDecodeError::StringTooLong { actual, limit } => {
                push_str(&mut text, "a string of length ");
                push_decimal(&mut text, *actual as u64);
                push_str(&mut text, " exceeds its limit of ");
                push_decimal(&mut text, *limit as u64);
            },
            PacketDecodeError::InvalidUtf8 => {
                push_str(&mut text, "a string is not valid UTF-8");
            },
            PacketDecodeError::ByteArrayTooLong { actual, limit } => {
                push_str(&mut text, "a byte array of length ");
                push_decimal(&mut text, *actual as u64);
                push_str(&mut text, " exceeds its limit of ");
                push_decimal(&mut text, *limit as u64);
            },
        }
        proof {
            assert(text@ =~= decode_error_message(*self));
        }
        text
    }
}

} // verus!
