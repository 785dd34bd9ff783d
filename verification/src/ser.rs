//! The structured serializer: each kind of value appended to a growing byte
//! buffer in wire format.

use crate::bits::{
    be_bytes_u16, be_bytes_u32, be_bytes_u64, bits_i16, bits_i32, bits_i64, bits_i8, spec_be,
    spec_bits_i16, spec_bits_i32, spec_bits_i64, spec_bits_i8,
};
use crate::text::char_to_utf8;
use crate::var_int::{encode_u32, encode_u64, encode_usize, spec_encode};
use vstd::prelude::*;
use vstd::utf8::encode_utf8;

verus! {

/// A boolean on the wire: one byte, `0x01` for true.
pub open spec fn spec_bool(value: bool) -> Seq<u8> {
    seq![if value { 1u8 } else { 0u8 }]
}

/// A byte string on the wire: its length as a variable-length integer, then
/// its bytes.
pub open spec fn spec_bytes(bytes: Seq<u8>) -> Seq<u8> {
    spec_encode(bytes.len()) + bytes
}

/// A string on the wire: the byte string of its UTF-8 encoding.
pub open spec fn spec_str(text: Seq<char>) -> Seq<u8> {
    spec_bytes(encode_utf8(text))
}

/// Appends `bytes` to `out`.
pub fn append_bytes(out: &mut Vec<u8>, bytes: &[u8])
    ensures
        final(out)@ == old(out)@ + bytes@,
{
    out.extend_from_slice(bytes);
    assert(out@ =~= old(out)@ + bytes@);
}

/// A byte buffer that values are serialized into, one after another.
#[derive(Debug)]
pub struct Serializer {
    output: Vec<u8>,
}

impl View for Serializer {
    type V = Seq<u8>;

    /// The bytes written so far.
    closed spec fn view(&self) -> Seq<u8> {
        self.output@
    }
}

impl Serializer {
    /// An empty serializer.
    pub fn new() -> (s: Self)
        ensures
            s@ == Seq::<u8>::empty(),
    {
        Self { output: Vec::with_capacity(16) }
    }

    /// The bytes written so far.
    pub fn output(self) -> (bytes: Vec<u8>)
        ensures
            bytes@ == self@,
    {
        self.output
    }

    /// The number of bytes written so far.
    pub fn len(&self) -> (n: usize)
        ensures
            n == self@.len(),
    {
        self.output.len()
    }

    /// Writes `bytes` as they are, without a length.
    pub fn write_raw(&mut self, bytes: &[u8])
        ensures
            final(self)@ == old(self)@ + bytes@,
    {
        append_bytes(&mut self.output, bytes);
    }

    /// Writes a boolean.
    pub fn serialize_bool(&mut self, v: bool)
        ensures
            final(self)@ == old(self)@ + spec_bool(v),
    {
        self.output.push(if v { 1 } else { 0 });
        assert(self.output@ =~= old(self)@ + spec_bool(v));
    }

    /// Writes a signed byte as its bit pattern.
    pub fn serialize_i8(&mut self, v: i8)
        ensures
            final(self)@ == old(self)@ + spec_be(spec_bits_i8(v), 1),
    {
        self.serialize_u8(bits_i8(v));
    }

    /// Writes a signed 16-bit integer, most significant byte first.
    pub fn serialize_i16(&mut self, v: i16)
        ensures
            final(self)@ == old(self)@ + spec_be(spec_bits_i16(v), 2),
    {
        self.serialize_u16(bits_i16(v));
    }

    /// Writes a signed 32-bit integer, most significant byte first.
    pub fn serialize_i32(&mut self, v: i32)
        ensures
            final(self)@ == old(self)@ + spec_be(spec_bits_i32(v), 4),
    {
        self.serialize_u32(bits_i32(v));
    }

    /// Writes a signed 64-bit integer, most significant byte first.
    pub fn serialize_i64(&mut self, v: i64)
        ensures
            final(self)@ == old(self)@ + spec_be(spec_bits_i64(v), 8),
    {
        self.serialize_u64(bits_i64(v));
    }

    /// Writes a byte.
    pub fn serialize_u8(&mut self, v: u8)
        ensures
            final(self)@ == old(self)@ + spec_be(v as nat, 1),
    {
        self.output.push(v);
        proof {
            reveal_with_fuel(spec_be, 2);
            assert(self.output@ =~= old(self)@ + spec_be(v as nat, 1));
        }
    }

    /// Writes an unsigned 16-bit integer, most significant byte first.
    pub fn serialize_u16(&mut self, v: u16)
        ensures
            final(self)@ == old(self)@ + spec_be(v as nat, 2),
    {
        let bytes = be_bytes_u16(v);
        append_bytes(&mut self.output, bytes.as_slice());
    }

    /// Writes an unsigned 32-bit integer, most significant byte first.
    pub fn serialize_u32(&mut self, v: u32)
        ensures
            final(self)@ == old(self)@ + spec_be(v as nat, 4),
    {
        let bytes = be_bytes_u32(v);
        append_bytes(&mut self.output, bytes.as_slice());
    }

    /// Writes an unsigned 64-bit integer, most significant byte first.
    pub fn serialize_u64(&mut self, v: u64)
        ensures
            final(self)@ == old(self)@ + spec_be(v as nat, 8),
    {
        let bytes = be_bytes_u64(v);
        append_bytes(&mut self.output, bytes.as_slice());
    }

    /// Writes a character as its UTF-8 encoding, without a length.
    pub fn serialize_char(&mut self, v: char)
        ensures
            final(self)@ == old(self)@ + encode_utf8(seq![v]),
    {
        let encoded = char_to_utf8(v);
        append_bytes(&mut self.output, encoded.as_slice());
    }

    /// Writes a string: the length of its UTF-8 encoding, then the encoding.
    pub fn serialize_str(&mut self, v: &str)
        ensures
            final(self)@ == old(self)@ + spec_str(v@),
            encode_utf8(v@).len() <= usize::MAX,
    {
        self.serialize_bytes(v.as_bytes());
    }

    /// Writes a byte string: its length, then its bytes.
    pub fn serialize_bytes(&mut self, v: &[u8])
        ensures
            final(self)@ == old(self)@ + spec_bytes(v@),
            v@.len() <= usize::MAX,
    {
        encode_usize(v.len(), &mut self.output);
        append_bytes(&mut self.output, v);
        assert(self.output@ =~= old(self)@ + spec_bytes(v@));
    }

    /// Writes an absent optional value: nothing.
    pub fn serialize_none(&mut self)
        ensures
            final(self)@ == old(self)@,
    {
    }

    /// Writes the unit value: nothing.
    pub fn serialize_unit(&mut self)
        ensures
            final(self)@ == old(self)@,
    {
    }

    /// Writes the discriminant of an enum variant; the variant's fields
    /// follow it.
    pub fn serialize_variant(&mut self, variant_index: u32)
        ensures
            final(self)@ == old(self)@ + spec_encode(variant_index as nat),
    {
        encode_u32(variant_index, &mut self.output);
    }

    /// Writes a variant without fields: its discriminant alone.
    pub fn serialize_unit_variant(&mut self, variant_index: u32)
        ensures
            final(self)@ == old(self)@ + spec_encode(variant_index as nat),
    {
        self.serialize_variant(variant_index);
    }

    /// Writes an unsigned 32-bit integer in variable-length form.
    pub fn serialize_var_u32(&mut self, v: u32)
        ensures
            final(self)@ == old(self)@ + spec_encode(v as nat),
    {
        encode_u32(v, &mut self.output);
    }

    /// Writes an unsigned 64-bit integer in variable-length form.
    pub fn serialize_var_u64(&mut self, v: u64)
        ensures
            final(self)@ == old(self)@ + spec_encode(v as nat),
    {
        encode_u64(v, &mut self.output);
    }

    /// Writes a `usize` in variable-length form.
    pub fn serialize_var_usize(&mut self, v: usize)
        ensures
            final(self)@ == old(self)@ + spec_encode(v as nat),
    {
        encode_usize(v, &mut self.output);
    }

    /// Writes the bit pattern of a signed 32-bit integer in variable-length
    /// form.
    pub fn serialize_var_i32(&mut self, v: i32)
        ensures
            final(self)@ == old(self)@ + spec_encode(spec_bits_i32(v)),
    {
        encode_u32(bits_i32(v), &mut self.output);
    }

    /// Writes the bit pattern of a signed 64-bit integer in variable-length
    /// form.
    pub fn serialize_var_i64(&mut self, v: i64)
        ensures
            final(self)@ == old(self)@ + spec_encode(spec_bits_i64(v)),
    {
        encode_u64(bits_i64(v), &mut self.output);
    }
}

/// `body` with its length before it: a frame.
pub open spec fn spec_with_size(body: Seq<u8>) -> Seq<u8> {
    spec_bytes(body)
}

/// `body` with its length before it, in a buffer of its own.
pub fn with_size(body: &[u8]) -> (frame: Vec<u8>)
    ensures
        frame@ == spec_with_size(body@),
{
    let mut serializer = Serializer::new();
    serializer.serialize_bytes(body);
    serializer.output()
}

} // verus!
