//! Records on the wire: what a type must say to be written and read, and
//! the functions that turn a record into bytes and back.

use crate::de::Deserializer;
use crate::err::Error;
use crate::bits::spec_bits_i32;
use crate::ser::{spec_with_size, with_size, Serializer};
use crate::var_int::spec_encode;
use vstd::prelude::*;

verus! {

/// A record with a wire format. The format is stated over the record's view,
/// so that what is proved of it is proved of values, not of buffers.
pub trait Wire: Sized + View {
    /// Whether `v` can be the view of a record in memory: each of its
    /// strings and byte strings has a length that fits in `usize`.
    spec fn spec_valid(v: Self::V) -> bool;

    /// The bytes of `v`: its fields in declaration order, nothing between
    /// them.
    spec fn spec_wire(v: Self::V) -> Seq<u8>;

    /// Reads a record from the front of `bytes`.
    spec fn spec_parse(bytes: Seq<u8>) -> Result<(Self::V, nat), Error>;

    /// Appends the record to what `serializer` holds.
    fn encode(&self, serializer: &mut Serializer)
        ensures
            final(serializer)@ == old(serializer)@ + Self::spec_wire(self@),
            Self::spec_valid(self@),
    ;

    /// Reads a record and moves `deserializer` past it; on failure the
    /// deserializer stays where it was.
    fn decode(deserializer: &mut Deserializer<'_>) -> (r: Result<Self, Error>)
        ensures
            match Self::spec_parse(old(deserializer)@) {
                Ok((v, consumed)) => r matches Ok(record) && record@ == v
                    && final(deserializer).advanced(old(deserializer), consumed),
                Err(e) => r == Err::<Self, Error>(e) && final(deserializer).unmoved(
                    old(deserializer),
                ),
            },
    ;

    /// Round trip: what was written reads back as the same record, taking
    /// exactly the bytes written, whatever follows them.
    proof fn lemma_round_trip(v: Self::V, rest: Seq<u8>)
        requires
            Self::spec_valid(v),
        ensures
            Self::spec_parse(Self::spec_wire(v) + rest) == Ok::<(Self::V, nat), Error>(
                (v, Self::spec_wire(v).len()),
            ),
    ;
}

/// The bytes of `data`.
pub fn to_vec<T: Wire>(data: &T) -> (bytes: Vec<u8>)
    ensures
        bytes@ == T::spec_wire(data@),
{
    let mut serializer = Serializer::new();
    data.encode(&mut serializer);
    assert(Seq::<u8>::empty() + T::spec_wire(data@) =~= T::spec_wire(data@));
    serializer.output()
}

/// The body of the packet with the id `id` that carries `data`: the id in
/// variable-length form, then the record.
pub fn to_vec_with_id<T: Wire>(id: i32, data: &T) -> (bytes: Vec<u8>)
    ensures
        bytes@ == spec_encode(spec_bits_i32(id)) + T::spec_wire(data@),
{
    let mut serializer = Serializer::new();
    serializer.serialize_var_i32(id);
    data.encode(&mut serializer);
    assert(Seq::<u8>::empty() + spec_encode(spec_bits_i32(id)) + T::spec_wire(data@)
        =~= spec_encode(spec_bits_i32(id)) + T::spec_wire(data@));
    serializer.output()
}

/// The bytes of `data` behind their length: a frame.
pub fn to_vec_with_size<T: Wire>(data: &T) -> (bytes: Vec<u8>)
    ensures
        bytes@ == spec_with_size(T::spec_wire(data@)),
{
    let body = to_vec(data);
    with_size(body.as_slice())
}

/// Reads a record from the front of `slice`: the number of bytes it took and
/// the record. Bytes after the record are left alone, so that the caller can
/// go on from there.
pub fn from_slice<T: Wire>(slice: &[u8]) -> (r: Result<(usize, T), Error>)
    ensures
        match T::spec_parse(slice@) {
            Ok((v, consumed)) => r matches Ok((read, record)) && record@ == v && read == consumed,
            Err(e) => r == Err::<(usize, T), Error>(e),
        },
{
    let mut deserializer = Deserializer::from_slice(slice);
    match T::decode(&mut deserializer) {
        Ok(data) => Ok((deserializer.consumed(), data)),
        Err(e) => Err(e),
    }
}

} // verus!
