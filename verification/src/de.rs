//! The structured deserializer: a cursor over a byte slice that reads each
//! kind of value in wire format and knows how many bytes it has taken.

use crate::bits::{
    from_bits_i16, from_bits_i32, from_bits_i64, from_bits_i8, lemma_be_len, lemma_be_value_of_be,
    spec_be, spec_be_value, spec_from_twos, u16_from_be, u32_from_be, u64_from_be,
};
use crate::err::Error;
use crate::ser::{spec_bool, spec_bytes, spec_str};
use crate::text::str_from_utf8;
use crate::var_int::{
    decode_u32, decode_u64, decode_usize, lemma_decode_encode, lemma_encode_shape,
    lemma_encoded_len_bound, lemma_pow128_values, max_groups, spec_decode_u32, spec_decode_u64,
    spec_decode_usize, spec_encode, VarIntError,
};
use vstd::array::*;
use vstd::prelude::*;
use vstd::slice::slice_subrange;
use vstd::utf8::{
    decode_utf8, encode_utf8, encode_utf8_decode_utf8, encode_utf8_valid_utf8, valid_utf8,
};

verus! {

/// What reading a value from the front of some bytes gives: the value and
/// the number of bytes it took, or the failure.
pub type Parsed<T> = Result<(T, nat), Error>;

/// The first `n` bytes.
pub open spec fn spec_parse_take(bytes: Seq<u8>, n: nat) -> Parsed<Seq<u8>> {
    if bytes.len() < n {
        Err(Error::Eof)
    } else {
        Ok((bytes.take(n as int), n))
    }
}

/// An unsigned integer of `width` bytes, most significant first.
pub open spec fn spec_parse_be(bytes: Seq<u8>, width: nat) -> Parsed<nat> {
    if bytes.len() < width {
        Err(Error::Eof)
    } else {
        Ok((spec_be_value(bytes.take(width as int)), width))
    }
}

/// A signed integer of `width` bytes in two's complement, most significant
/// first; `modulus` is `256` to the power `width`.
pub open spec fn spec_parse_be_signed(bytes: Seq<u8>, width: nat, modulus: nat) -> Parsed<int> {
    match spec_parse_be(bytes, width) {
        Ok((bits, consumed)) => Ok((spec_from_twos(bits, modulus), consumed)),
        Err(e) => Err(e),
    }
}

/// A boolean: one byte, true unless it is zero.
pub open spec fn spec_parse_bool(bytes: Seq<u8>) -> Parsed<bool> {
    if bytes.len() < 1 {
        Err(Error::Eof)
    } else {
        Ok((bytes[0] != 0, 1))
    }
}

/// The failure of the deserializer for a failure to read a variable-length
/// integer.
pub open spec fn spec_var_int_error(e: VarIntError) -> Error {
    match e {
        VarIntError::Incomplete => Error::Eof,
        VarIntError::Overflow => Error::Overflow,
    }
}

/// A variable-length integer as the deserializer reads it: the value first,
/// then the bytes taken.
pub open spec fn spec_parse_var(decoded: Result<(nat, nat), VarIntError>) -> Parsed<nat> {
    match decoded {
        Ok((consumed, value)) => Ok((value, consumed)),
        Err(e) => Err(spec_var_int_error(e)),
    }
}

/// A variable-length integer for a 32-bit target.
pub open spec fn spec_parse_var_u32(bytes: Seq<u8>) -> Parsed<nat> {
    spec_parse_var(spec_decode_u32(bytes))
}

/// A variable-length integer for a 64-bit target.
pub open spec fn spec_parse_var_u64(bytes: Seq<u8>) -> Parsed<nat> {
    spec_parse_var(spec_decode_u64(bytes))
}

/// A variable-length integer for a target as wide as `usize`.
pub open spec fn spec_parse_var_usize(bytes: Seq<u8>) -> Parsed<nat> {
    spec_parse_var(spec_decode_usize(bytes))
}

/// A variable-length integer read as the signed 32-bit number with its bit
/// pattern.
pub open spec fn spec_parse_var_i32(bytes: Seq<u8>) -> Parsed<int> {
    match spec_parse_var_u32(bytes) {
        Ok((bits, consumed)) => Ok((spec_from_twos(bits, 0x1_0000_0000), consumed)),
        Err(e) => Err(e),
    }
}

/// A byte string: its length, then as many bytes.
pub open spec fn spec_parse_bytes(bytes: Seq<u8>) -> Parsed<Seq<u8>> {
    match spec_parse_var_usize(bytes) {
        Ok((len, prefix)) => if bytes.len() - prefix < len {
            Err(Error::Eof)
        } else {
            Ok((bytes.subrange(prefix as int, (prefix + len) as int), prefix + len))
        },
        Err(e) => Err(e),
    }
}

/// A string: a byte string that is valid UTF-8.
pub open spec fn spec_parse_str(bytes: Seq<u8>) -> Parsed<Seq<char>> {
    match spec_parse_bytes(bytes) {
        Ok((encoded, consumed)) => if valid_utf8(encoded) {
            Ok((decode_utf8(encoded), consumed))
        } else {
            Err(Error::BadUtf8Input)
        },
        Err(e) => Err(e),
    }
}

/// The failure of the deserializer for a failure to read a variable-length
/// integer.
pub fn var_int_error(e: VarIntError) -> (r: Error)
    ensures
        r == spec_var_int_error(e),
{
    match e {
        VarIntError::Incomplete => Error::Eof,
        VarIntError::Overflow => Error::Overflow,
    }
}

/// A cursor over a byte slice: the bytes, and how many of them were taken.
/// Nothing is ever taken past the end.
pub struct Slice<'a> {
    data: &'a [u8],
    position: usize,
}

impl<'a> View for Slice<'a> {
    type V = Seq<u8>;

    /// The bytes not yet taken.
    open spec fn view(&self) -> Seq<u8> {
        self.input().skip(self.position() as int)
    }
}

impl<'a> Slice<'a> {
    #[verifier::type_invariant]
    spec fn within_input(&self) -> bool {
        self.position <= self.data@.len()
    }

    /// All the bytes that the cursor was made over.
    pub closed spec fn input(&self) -> Seq<u8> {
        self.data@
    }

    /// The number of bytes taken so far.
    pub closed spec fn position(&self) -> nat {
        self.position as nat
    }

    /// Whether this cursor came from `pre` by taking `consumed` bytes.
    pub open spec fn advanced(&self, pre: &Self, consumed: nat) -> bool {
        &&& self.input() == pre.input()
        &&& self.position() == pre.position() + consumed
        &&& consumed <= pre@.len()
        &&& self@ == pre@.skip(consumed as int)
    }

    /// Whether this cursor stands where `pre` stands, over the same bytes.
    pub open spec fn unmoved(&self, pre: &Self) -> bool {
        &&& self.input() == pre.input()
        &&& self.position() == pre.position()
    }

    /// A cursor at the start of `slice`.
    pub fn new(slice: &'a [u8]) -> (s: Self)
        ensures
            s.input() == slice@,
            s.position() == 0,
            s@ == slice@,
    {
        Self { data: slice, position: 0 }
    }

    /// The number of bytes not yet taken.
    pub fn size(&self) -> (n: usize)
        ensures
            n == self@.len(),
            n == self.input().len() - self.position(),
    {
        proof {
            use_type_invariant(self);
        }
        self.data.len() - self.position
    }

    /// The number of bytes taken so far.
    pub fn consumed(&self) -> (n: usize)
        ensures
            n == self.position(),
    {
        self.position
    }

    /// The bytes not yet taken, without taking them.
    pub fn rest(&self) -> (bytes: &'a [u8])
        ensures
            bytes@ == self@,
    {
        proof {
            use_type_invariant(self);
        }
        slice_subrange(self.data, self.position, self.data.len())
    }

    /// Goes on by `n` bytes.
    fn advance(&mut self, n: usize)
        requires
            n <= old(self)@.len(),
        ensures
            final(self).advanced(old(self), n as nat),
    {
        proof {
            use_type_invariant(&*self);
            assert(self@.len() == self.data@.len() - self.position);
            assert(self.data@.len() == self.data.len());
        }
        self.position = self.position + n;
        assert(self@ =~= old(self)@.skip(n as int));
    }

    /// Goes back to where `mark` bytes had been taken. A mark ahead of the
    /// cursor is not gone to.
    pub fn rewind(&mut self, mark: usize)
        ensures
            final(self).input() == old(self).input(),
            final(self).position() == if mark <= old(self).position() {
                mark as nat
            } else {
                old(self).position()
            },
    {
        proof {
            use_type_invariant(&*self);
        }
        if mark <= self.position {
            self.position = mark;
        }
    }

    /// Takes the next `n` bytes; nothing when fewer are left.
    pub fn try_take_n(&mut self, n: usize) -> (r: Result<&'a [u8], Error>)
        ensures
            match spec_parse_take(old(self)@, n as nat) {
                Ok((bytes, consumed)) => r matches Ok(taken) && taken@ == bytes
                    && final(self).advanced(old(self), consumed),
                Err(e) => r == Err::<&[u8], Error>(e) && final(self).unmoved(old(self)),
            },
    {
        proof {
            use_type_invariant(&*self);
            assert(self@.len() == self.data@.len() - self.position);
            assert(self.data@.len() == self.data.len());
        }
        if self.size() < n {
            Err(Error::Eof)
        } else {
            let taken = slice_subrange(self.data, self.position, self.position + n);
            assert(taken@ =~= self@.take(n as int));
            self.advance(n);
            Ok(taken)
        }
    }

    /// Takes the next `N` bytes as an array; nothing when fewer are left.
    pub fn try_take_n_exact<const N: usize>(&mut self) -> (r: Result<[u8; N], Error>)
        ensures
            match spec_parse_take(old(self)@, N as nat) {
                Ok((bytes, consumed)) => r matches Ok(taken) && taken@ == bytes
                    && final(self).advanced(old(self), consumed),
                Err(e) => r == Err::<[u8; N], Error>(e) && final(self).unmoved(old(self)),
            },
    {
        match self.try_take_n(N) {
            Ok(bytes) => {
                let mut taken: [u8; N] = array_fill_for_copy_types(0u8);
                let mut i: usize = 0;
                while i < N
                    invariant
                        i <= N,
                        bytes@.len() == N,
                        forall|j: int| 0 <= j < i ==> taken@[j] == bytes@[j],
                    decreases N - i,
                {
                    taken[i] = bytes[i];
                    i = i + 1;
                }
                assert(taken@ =~= bytes@);
                Ok(taken)
            },
            Err(e) => Err(e),
        }
    }
}

/// A reader of values in wire format from a byte slice.
pub struct Deserializer<'a> {
    data: Slice<'a>,
}

impl<'a> View for Deserializer<'a> {
    type V = Seq<u8>;

    /// The bytes not yet read.
    open spec fn view(&self) -> Seq<u8> {
        self.input().skip(self.position() as int)
    }
}

impl<'a> Deserializer<'a> {
    /// All the bytes this deserializer was made over.
    pub closed spec fn input(&self) -> Seq<u8> {
        self.data.input()
    }

    /// The number of bytes read so far.
    pub closed spec fn position(&self) -> nat {
        self.data.position()
    }

    /// Whether this deserializer came from `pre` by reading `consumed`
    /// bytes.
    pub open spec fn advanced(&self, pre: &Self, consumed: nat) -> bool {
        &&& self.input() == pre.input()
        &&& self.position() == pre.position() + consumed
        &&& consumed <= pre@.len()
        &&& self@ == pre@.skip(consumed as int)
    }

    /// Whether this deserializer stands where `pre` stands, over the same
    /// input.
    pub open spec fn unmoved(&self, pre: &Self) -> bool {
        &&& self.input() == pre.input()
        &&& self.position() == pre.position()
    }

    /// Reading on from where a first value ended takes the bytes of both.
    pub proof fn lemma_advanced_twice(first: &Self, second: &Self, third: &Self, n1: nat, n2: nat)
        requires
            second.advanced(first, n1),
            third.advanced(second, n2),
        ensures
            third.advanced(first, n1 + n2),
    {
        assert(first@.skip(n1 as int).skip(n2 as int) =~= first@.skip((n1 + n2) as int));
    }

    /// A deserializer at the start of `input`.
    pub fn from_slice(input: &'a [u8]) -> (d: Self)
        ensures
            d.input() == input@,
            d.position() == 0,
            d@ == input@,
    {
        Self { data: Slice::new(input) }
    }

    /// The number of bytes not yet read.
    pub fn size(&self) -> (n: usize)
        ensures
            n == self@.len(),
            n == self.input().len() - self.position(),
    {
        self.data.size()
    }

    /// The number of bytes read so far.
    pub fn consumed(&self) -> (n: usize)
        ensures
            n == self.position(),
    {
        self.data.consumed()
    }

    /// The bytes not yet read, without reading them.
    pub fn rest(&self) -> (bytes: &'a [u8])
        ensures
            bytes@ == self@,
    {
        self.data.rest()
    }

    /// Goes on by `n` bytes.
    fn advance(&mut self, n: usize)
        requires
            n <= old(self)@.len(),
        ensures
            final(self).advanced(old(self), n as nat),
    {
        self.data.advance(n);
    }

    /// Reads the next `n` bytes; takes nothing when fewer are left.
    pub fn try_take_n(&mut self, n: usize) -> (r: Result<&'a [u8], Error>)
        ensures
            match spec_parse_take(old(self)@, n as nat) {
                Ok((bytes, consumed)) => r matches Ok(taken) && taken@ == bytes
                    && final(self).advanced(old(self), consumed),
                Err(e) => r == Err::<&[u8], Error>(e) && final(self).unmoved(old(self)),
            },
    {
        self.data.try_take_n(n)
    }

    /// Reads a boolean: one byte, true unless it is zero.
    pub fn deserialize_bool(&mut self) -> (r: Result<bool, Error>)
        ensures
            match spec_parse_bool(old(self)@) {
                Ok((value, consumed)) => r == Ok::<bool, Error>(value) && final(self).advanced(
                    old(self),
                    consumed,
                ),
                Err(e) => r == Err::<bool, Error>(e) && final(self).unmoved(old(self)),
            },
    {
        match self.try_take_n(1) {
            Ok(bytes) => Ok(bytes[0] != 0),
            Err(e) => Err(e),
        }
    }

    /// Reads a byte.
    pub fn deserialize_u8(&mut self) -> (r: Result<u8, Error>)
        ensures
            match spec_parse_be(old(self)@, 1) {
                Ok((value, consumed)) => r == Ok::<u8, Error>(value as u8) && value <= u8::MAX
                    && final(self).advanced(old(self), consumed),
                Err(e) => r == Err::<u8, Error>(e) && final(self).unmoved(old(self)),
            },
    {
        match self.try_take_n(1) {
            Ok(bytes) => {
                proof {
                    reveal_with_fuel(spec_be_value, 2);
                    assert(bytes@.drop_last().len() == 0);
                }
                Ok(bytes[0])
            },
            Err(e) => Err(e),
        }
    }

    /// Reads an unsigned 16-bit integer, most significant byte first.
    pub fn deserialize_u16(&mut self) -> (r: Result<u16, Error>)
        ensures
            match spec_parse_be(old(self)@, 2) {
                Ok((value, consumed)) => r == Ok::<u16, Error>(value as u16) && value <= u16::MAX
                    && final(self).advanced(old(self), consumed),
                Err(e) => r == Err::<u16, Error>(e) && final(self).unmoved(old(self)),
            },
    {
        match self.data.try_take_n_exact::<2>() {
            Ok(bytes) => Ok(u16_from_be(bytes)),
            Err(e) => Err(e),
        }
    }

    /// Reads an unsigned 32-bit integer, most significant byte first.
    pub fn deserialize_u32(&mut self) -> (r: Result<u32, Error>)
        ensures
            match spec_parse_be(old(self)@, 4) {
                Ok((value, consumed)) => r == Ok::<u32, Error>(value as u32) && value <= u32::MAX
                    && final(self).advanced(old(self), consumed),
                Err(e) => r == Err::<u32, Error>(e) && final(self).unmoved(old(self)),
            },
    {
        match self.data.try_take_n_exact::<4>() {
            Ok(bytes) => Ok(u32_from_be(bytes)),
            Err(e) => Err(e),
        }
    }

    /// Reads an unsigned 64-bit integer, most significant byte first.
    pub fn deserialize_u64(&mut self) -> (r: Result<u64, Error>)
        ensures
            match spec_parse_be(old(self)@, 8) {
                Ok((value, consumed)) => r == Ok::<u64, Error>(value as u64) && value <= u64::MAX
                    && final(self).advanced(old(self), consumed),
                Err(e) => r == Err::<u64, Error>(e) && final(self).unmoved(old(self)),
            },
    {
        match self.data.try_take_n_exact::<8>() {
            Ok(bytes) => Ok(u64_from_be(bytes)),
            Err(e) => Err(e),
        }
    }

    /// Reads a signed byte from its bit pattern.
    pub fn deserialize_i8(&mut self) -> (r: Result<i8, Error>)
        ensures
            match spec_parse_be_signed(old(self)@, 1, 0x100) {
                Ok((value, consumed)) => r == Ok::<i8, Error>(value as i8) && i8::MIN <= value
                    <= i8::MAX && final(self).advanced(old(self), consumed),
                Err(e) => r == Err::<i8, Error>(e) && final(self).unmoved(old(self)),
            },
    {
        match self.deserialize_u8() {
            Ok(bits) => Ok(from_bits_i8(bits)),
            Err(e) => Err(e),
        }
    }

    /// Reads a signed 16-bit integer, most significant byte first.
    pub fn deserialize_i16(&mut self) -> (r: Result<i16, Error>)
        ensures
            match spec_parse_be_signed(old(self)@, 2, 0x1_0000) {
                Ok((value, consumed)) => r == Ok::<i16, Error>(value as i16) && i16::MIN <= value
                    <= i16::MAX && final(self).advanced(old(self), consumed),
                Err(e) => r == Err::<i16, Error>(e) && final(self).unmoved(old(self)),
            },
    {
        match self.deserialize_u16() {
            Ok(bits) => Ok(from_bits_i16(bits)),
            Err(e) => Err(e),
        }
    }

    /// Reads a signed 32-bit integer, most significant byte first.
    pub fn deserialize_i32(&mut self) -> (r: Result<i32, Error>)
        ensures
            match spec_parse_be_signed(old(self)@, 4, 0x1_0000_0000) {
                Ok((value, consumed)) => r == Ok::<i32, Error>(value as i32) && i32::MIN <= value
                    <= i32::MAX && final(self).advanced(old(self), consumed),
                Err(e) => r == Err::<i32, Error>(e) && final(self).unmoved(old(self)),
            },
    {
        match self.deserialize_u32() {
            Ok(bits) => Ok(from_bits_i32(bits)),
            Err(e) => Err(e),
        }
    }

    /// Reads a signed 64-bit integer, most significant byte first.
    pub fn deserialize_i64(&mut self) -> (r: Result<i64, Error>)
        ensures
            match spec_parse_be_signed(old(self)@, 8, 0x1_0000_0000_0000_0000) {
                Ok((value, consumed)) => r == Ok::<i64, Error>(value as i64) && i64::MIN <= value
                    <= i64::MAX && final(self).advanced(old(self), consumed),
                Err(e) => r == Err::<i64, Error>(e) && final(self).unmoved(old(self)),
            },
    {
        match self.deserialize_u64() {
            Ok(bits) => Ok(from_bits_i64(bits)),
            Err(e) => Err(e),
        }
    }

    /// Reads a variable-length integer for a 32-bit target.
    pub fn deserialize_var_u32(&mut self) -> (r: Result<u32, Error>)
        ensures
            match spec_parse_var_u32(old(self)@) {
                Ok((value, consumed)) => r == Ok::<u32, Error>(value as u32) && value <= u32::MAX
                    && final(self).advanced(old(self), consumed),
                Err(e) => r == Err::<u32, Error>(e) && final(self).unmoved(old(self)),
            },
    {
        match decode_u32(self.rest()) {
            Ok((consumed, value)) => {
                proof {
                    crate::var_int::lemma_decode_bounds(self@, 5);
                }
                self.advance(consumed);
                Ok(value)
            },
            Err(e) => Err(var_int_error(e)),
        }
    }

    /// Reads a variable-length integer for a 64-bit target.
    pub fn deserialize_var_u64(&mut self) -> (r: Result<u64, Error>)
        ensures
            match spec_parse_var_u64(old(self)@) {
                Ok((value, consumed)) => r == Ok::<u64, Error>(value as u64) && value <= u64::MAX
                    && final(self).advanced(old(self), consumed),
                Err(e) => r == Err::<u64, Error>(e) && final(self).unmoved(old(self)),
            },
    {
        match decode_u64(self.rest()) {
            Ok((consumed, value)) => {
                proof {
                    crate::var_int::lemma_decode_bounds(self@, 10);
                }
                self.advance(consumed);
                Ok(value)
            },
            Err(e) => Err(var_int_error(e)),
        }
    }

    /// Reads a variable-length integer for a target as wide as `usize`.
    pub fn deserialize_var_usize(&mut self) -> (r: Result<usize, Error>)
        ensures
            match spec_parse_var_usize(old(self)@) {
                Ok((value, consumed)) => r == Ok::<usize, Error>(value as usize) && value
                    <= usize::MAX && final(self).advanced(old(self), consumed),
                Err(e) => r == Err::<usize, Error>(e) && final(self).unmoved(old(self)),
            },
    {
        match decode_usize(self.rest()) {
            Ok((consumed, value)) => {
                proof {
                    crate::var_int::lemma_decode_bounds(self@, max_groups(usize::BITS as nat));
                }
                self.advance(consumed);
                Ok(value)
            },
            Err(e) => Err(var_int_error(e)),
        }
    }

    /// Reads a variable-length integer as the signed 32-bit number with its
    /// bit pattern.
    pub fn deserialize_var_i32(&mut self) -> (r: Result<i32, Error>)
        ensures
            match spec_parse_var_i32(old(self)@) {
                Ok((value, consumed)) => r == Ok::<i32, Error>(value as i32) && i32::MIN <= value
                    <= i32::MAX && final(self).advanced(old(self), consumed),
                Err(e) => r == Err::<i32, Error>(e) && final(self).unmoved(old(self)),
            },
    {
        match self.deserialize_var_u32() {
            Ok(bits) => Ok(from_bits_i32(bits)),
            Err(e) => Err(e),
        }
    }

    /// Reads the discriminant of an enum variant.
    pub fn deserialize_identifier(&mut self) -> (r: Result<u32, Error>)
        ensures
            match spec_parse_var_u32(old(self)@) {
                Ok((value, consumed)) => r == Ok::<u32, Error>(value as u32) && value <= u32::MAX
                    && final(self).advanced(old(self), consumed),
                Err(e) => r == Err::<u32, Error>(e) && final(self).unmoved(old(self)),
            },
    {
        self.deserialize_var_u32()
    }

    /// Reads a byte string: its length, then as many bytes. Takes nothing
    /// when the bytes end early.
    pub fn deserialize_bytes(&mut self) -> (r: Result<&'a [u8], Error>)
        ensures
            match spec_parse_bytes(old(self)@) {
                Ok((bytes, consumed)) => r matches Ok(taken) && taken@ == bytes
                    && final(self).advanced(old(self), consumed),
                Err(e) => r == Err::<&[u8], Error>(e) && final(self).unmoved(old(self)),
            },
    {
        let rest = self.rest();
        match decode_usize(rest) {
            Ok((prefix, len)) => {
                proof {
                    crate::var_int::lemma_decode_bounds(self@, max_groups(usize::BITS as nat));
                }
                if rest.len() - prefix < len {
                    Err(Error::Eof)
                } else {
                    let taken = slice_subrange(rest, prefix, prefix + len);
                    self.advance(prefix + len);
                    Ok(taken)
                }
            },
            Err(e) => Err(var_int_error(e)),
        }
    }

    /// Reads a byte string into a buffer of its own.
    pub fn deserialize_byte_buf(&mut self) -> (r: Result<Vec<u8>, Error>)
        ensures
            match spec_parse_bytes(old(self)@) {
                Ok((bytes, consumed)) => r matches Ok(taken) && taken@ == bytes
                    && final(self).advanced(old(self), consumed),
                Err(e) => r == Err::<Vec<u8>, Error>(e) && final(self).unmoved(old(self)),
            },
    {
        match self.deserialize_bytes() {
            Ok(bytes) => Ok(vstd::slice::slice_to_vec(bytes)),
            Err(e) => Err(e),
        }
    }

    /// Reads a string: a byte string that must be UTF-8. Takes nothing when
    /// it is not.
    pub fn deserialize_str(&mut self) -> (r: Result<&'a str, Error>)
        ensures
            match spec_parse_str(old(self)@) {
                Ok((text, consumed)) => r matches Ok(taken) && taken@ == text
                    && final(self).advanced(old(self), consumed),
                Err(e) => r == Err::<&str, Error>(e) && final(self).unmoved(old(self)),
            },
    {
        let start = self.consumed();
        match self.deserialize_bytes() {
            Ok(bytes) => match str_from_utf8(bytes) {
                Some(text) => Ok(text),
                None => {
                    self.rewind(start);
                    Err(Error::BadUtf8Input)
                },
            },
            Err(e) => Err(e),
        }
    }

    /// Reads a string into a buffer of its own.
    pub fn deserialize_string(&mut self) -> (r: Result<String, Error>)
        ensures
            match spec_parse_str(old(self)@) {
                Ok((text, consumed)) => r matches Ok(taken) && taken@ == text
                    && final(self).advanced(old(self), consumed),
                Err(e) => r == Err::<String, Error>(e) && final(self).unmoved(old(self)),
            },
    {
        match self.deserialize_str() {
            Ok(text) => Ok(text.to_owned()),
            Err(e) => Err(e),
        }
    }

    /// Goes back to where `mark` was taken: to the state before a value that
    /// turned out not to be readable. A mark ahead of the deserializer is
    /// not gone to.
    pub fn rewind(&mut self, mark: usize)
        ensures
            final(self).input() == old(self).input(),
            final(self).position() == if mark <= old(self).position() {
                mark as nat
            } else {
                old(self).position()
            },
    {
        self.data.rewind(mark);
    }
}

/// What follows a first part is what is left when the first part is
/// skipped.
pub proof fn lemma_skip_concat(first: Seq<u8>, rest: Seq<u8>)
    ensures
        (first + rest).skip(first.len() as int) == rest,
{
    assert((first + rest).skip(first.len() as int) =~= rest);
}

/// Round trip for unsigned integers of fixed width.
pub proof fn lemma_parse_be_round_trip(value: nat, width: nat, rest: Seq<u8>)
    requires
        value < crate::bits::pow256(width),
    ensures
        spec_parse_be(spec_be(value, width) + rest, width) == Ok::<(nat, nat), Error>(
            (value, width),
        ),
{
    lemma_be_len(value, width);
    lemma_be_value_of_be(value, width);
    assert((spec_be(value, width) + rest).take(width as int) =~= spec_be(value, width));
}

/// Round trip for signed integers of fixed width.
pub proof fn lemma_parse_be_signed_round_trip(value: int, width: nat, modulus: nat, rest: Seq<u8>)
    requires
        modulus == crate::bits::pow256(width),
        modulus % 2 == 0,
        -(modulus / 2) <= value < modulus / 2,
    ensures
        spec_parse_be_signed(
            spec_be(crate::bits::spec_twos(value, modulus), width) + rest,
            width,
            modulus,
        ) == Ok::<(int, nat), Error>((value, width)),
{
    crate::bits::lemma_twos_round_trip(value, 0, modulus);
    lemma_parse_be_round_trip(crate::bits::spec_twos(value, modulus), width, rest);
}

/// Round trip for booleans.
pub proof fn lemma_parse_bool_round_trip(value: bool, rest: Seq<u8>)
    ensures
        spec_parse_bool(spec_bool(value) + rest) == Ok::<(bool, nat), Error>((value, 1)),
{
}

/// Round trip for variable-length integers: a value that its target can
/// hold reads back, whatever follows it.
pub proof fn lemma_parse_var_round_trip(value: nat, rest: Seq<u8>)
    ensures
        value <= u32::MAX ==> spec_parse_var_u32(spec_encode(value) + rest) == Ok::<
            (nat, nat),
            Error,
        >((value, spec_encode(value).len())),
        value <= u64::MAX ==> spec_parse_var_u64(spec_encode(value) + rest) == Ok::<
            (nat, nat),
            Error,
        >((value, spec_encode(value).len())),
        value <= usize::MAX ==> spec_parse_var_usize(spec_encode(value) + rest) == Ok::<
            (nat, nat),
            Error,
        >((value, spec_encode(value).len())),
{
    lemma_pow128_values();
    lemma_encode_shape(value);
    lemma_encoded_len_bound(value, 5);
    lemma_encoded_len_bound(value, 10);
    lemma_encoded_len_bound(value, max_groups(usize::BITS as nat));
    if value <= u32::MAX {
        lemma_decode_encode(value, rest, 5);
    }
    if value <= u64::MAX {
        lemma_decode_encode(value, rest, 10);
    }
    if value <= usize::MAX {
        lemma_decode_encode(value, rest, max_groups(usize::BITS as nat));
    }
}

/// Round trip for signed 32-bit integers in variable-length form.
pub proof fn lemma_parse_var_i32_round_trip(value: int, rest: Seq<u8>)
    requires
        i32::MIN <= value <= i32::MAX,
    ensures
        spec_parse_var_i32(spec_encode(crate::bits::spec_twos(value, 0x1_0000_0000)) + rest)
            == Ok::<(int, nat), Error>(
            (value, spec_encode(crate::bits::spec_twos(value, 0x1_0000_0000)).len()),
        ),
{
    crate::bits::lemma_twos_round_trip(value, 0, 0x1_0000_0000);
    lemma_parse_var_round_trip(crate::bits::spec_twos(value, 0x1_0000_0000), rest);
}

/// Round trip for byte strings whose length fits in `usize`.
pub proof fn lemma_parse_bytes_round_trip(bytes: Seq<u8>, rest: Seq<u8>)
    requires
        bytes.len() <= usize::MAX,
    ensures
        spec_parse_bytes(spec_bytes(bytes) + rest) == Ok::<(Seq<u8>, nat), Error>(
            (bytes, spec_bytes(bytes).len()),
        ),
{
    let prefix = spec_encode(bytes.len());
    assert(spec_bytes(bytes) + rest =~= prefix + (bytes + rest));
    lemma_parse_var_round_trip(bytes.len(), bytes + rest);
    assert((spec_bytes(bytes) + rest).subrange(
        prefix.len() as int,
        (prefix.len() + bytes.len()) as int,
    )
        =~= bytes);
}

/// Round trip for strings whose encoding has a length that fits in `usize`.
pub proof fn lemma_parse_str_round_trip(text: Seq<char>, rest: Seq<u8>)
    requires
        encode_utf8(text).len() <= usize::MAX,
    ensures
        spec_parse_str(spec_str(text) + rest) == Ok::<(Seq<char>, nat), Error>(
            (text, spec_str(text).len()),
        ),
{
    lemma_parse_bytes_round_trip(encode_utf8(text), rest);
    encode_utf8_valid_utf8(text);
    encode_utf8_decode_utf8(text);
}

} // verus!
