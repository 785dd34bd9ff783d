//! Packet bodies under compression: the length of the body before it was
//! deflated, zero where it was not, and then the data.

use crate::err::FrameError;
use crate::ser::append_bytes;
use crate::var_int::{
    decode_u32, encode_usize, lemma_decode_bounds, lemma_decode_encode, lemma_encode_shape,
    lemma_encoded_len_bound, lemma_pow128_values, spec_decode_u32, spec_encode,
};
use std::io::{Read, Write};
use vstd::prelude::*;
use vstd::slice::{slice_subrange, slice_to_vec};

verus! {

/// The largest body that is inflated, and the largest frame that is taken
/// from or put on the wire.
pub const MAX_BODY_LEN: usize = 0x20_0000;

/// The zlib stream that deflating `data` at the default level gives.
pub uninterp spec fn zlib_deflated(data: Seq<u8>) -> Seq<u8>;

/// The first `limit` bytes, or all if there are fewer, of what the zlib
/// stream `data` inflates to; nothing where the stream is corrupt.
pub uninterp spec fn zlib_inflated(data: Seq<u8>, limit: nat) -> Option<Seq<u8>>;

/// `flate2::write::ZlibEncoder` at `Compression::default()`, over all of
/// `data`. What it gives inflates back to `data` under any limit that leaves
/// room for it.
#[verifier::external_body]
fn zlib_deflate(data: &[u8]) -> (r: Vec<u8>)
    ensures
        r@ == zlib_deflated(data@),
        forall|limit: nat|
            limit >= data@.len() ==> #[trigger] zlib_inflated(r@, limit) == Some(data@),
{
    let mut encoder = flate2::write::ZlibEncoder::new(Vec::new(), flate2::Compression::default());
    match encoder.write_all(data) {
        Ok(()) => encoder.finish().unwrap_or_default(),
        Err(_) => Vec::new(),
    }
}

/// `flate2::bufread::ZlibDecoder` over `data`, read to its end but for no
/// more than `limit` bytes.
#[verifier::external_body]
fn zlib_inflate(data: &[u8], limit: usize) -> (r: Option<Vec<u8>>)
    ensures
        match r {
            Some(bytes) => zlib_inflated(data@, limit as nat) == Some(bytes@) && bytes@.len()
                <= limit,
            None => zlib_inflated(data@, limit as nat) is None,
        },
{
    let mut out = Vec::new();
    match flate2::bufread::ZlibDecoder::new(data).take(limit as u64).read_to_end(&mut out) {
        Ok(_) => Some(out),
        Err(_) => None,
    }
}

/// A body as it travels when compression is on: deflated, behind its own
/// length, when it is longer than `threshold`; as it is, behind a zero, when
/// it is not.
pub open spec fn spec_pack(body: Seq<u8>, threshold: nat) -> Seq<u8> {
    if body.len() > threshold {
        spec_encode(body.len()) + zlib_deflated(body)
    } else {
        spec_encode(0) + body
    }
}

/// What inflating gave, held against the declared length: the body, where
/// it has exactly that length.
pub open spec fn spec_check_inflated(inflated: Option<Seq<u8>>, declared: nat) -> Result<
    Seq<u8>,
    FrameError,
> {
    match inflated {
        Some(body) => if body.len() == declared {
            Ok(body)
        } else {
            Err(FrameError::BadCompression)
        },
        None => Err(FrameError::BadCompression),
    }
}

/// The body that the payload of a frame holds when compression is on.
pub open spec fn spec_unpack(payload: Seq<u8>) -> Result<Seq<u8>, FrameError> {
    match spec_decode_u32(payload) {
        Err(_) => Err(FrameError::Malformed),
        Ok((prefix, declared)) => if declared == 0 {
            Ok(payload.skip(prefix as int))
        } else if declared > MAX_BODY_LEN {
            Err(FrameError::TooLarge)
        } else {
            spec_check_inflated(
                zlib_inflated(payload.skip(prefix as int), declared + 1),
                declared,
            )
        },
    }
}

/// The payload that declares `declared` bytes and carries `data`.
pub fn pack_with(declared: usize, data: &[u8]) -> (payload: Vec<u8>)
    ensures
        payload@ == spec_encode(declared as nat) + data@,
{
    let mut payload = Vec::new();
    encode_usize(declared, &mut payload);
    append_bytes(&mut payload, data);
    assert(payload@ =~= spec_encode(declared as nat) + data@);
    payload
}

/// Packs `body` for a connection with compression on: deflated exactly when
/// it is longer than `threshold`. A body within the limit unpacks to itself.
pub fn pack(body: &[u8], threshold: usize) -> (payload: Vec<u8>)
    ensures
        payload@ == spec_pack(body@, threshold as nat),
        body@.len() <= MAX_BODY_LEN ==> spec_unpack(payload@) == Ok::<Seq<u8>, FrameError>(body@),
{
    if body.len() > threshold {
        let deflated = zlib_deflate(body);
        let payload = pack_with(body.len(), deflated.as_slice());
        proof {
            if body@.len() <= MAX_BODY_LEN {
                lemma_unpack_of(body@.len(), deflated@);
                assert(zlib_inflated(deflated@, (body@.len() + 1) as nat) == Some(body@));
            }
        }
        payload
    } else {
        let payload = pack_with(0, body);
        proof {
            lemma_unpack_of(0, body@);
        }
        payload
    }
}

/// What the payload that declares `declared` bytes and carries `data`
/// unpacks to.
pub proof fn lemma_unpack_of(declared: nat, data: Seq<u8>)
    requires
        declared <= MAX_BODY_LEN,
    ensures
        spec_unpack(spec_encode(declared) + data) == if declared == 0 {
            Ok::<Seq<u8>, FrameError>(data)
        } else {
            spec_check_inflated(zlib_inflated(data, declared + 1), declared)
        },
{
    lemma_pow128_values();
    lemma_encode_shape(declared);
    lemma_encoded_len_bound(declared, 5);
    lemma_decode_encode(declared, data, 5);
    assert((spec_encode(declared) + data).skip(spec_encode(declared).len() as int) =~= data);
}

/// The length that a packed body declares is zero exactly when the body was
/// not longer than the threshold, and the length of the body when it was.
pub proof fn lemma_pack_declares(body: Seq<u8>, threshold: nat)
    requires
        body.len() <= u32::MAX,
    ensures
        spec_decode_u32(spec_pack(body, threshold)) matches Ok((_, declared)) && declared == (
        if body.len() > threshold {
            body.len()
        } else {
            0
        }) && (declared == 0 <==> body.len() <= threshold),
{
    let declared: nat = if body.len() > threshold {
        body.len()
    } else {
        0
    };
    lemma_pow128_values();
    lemma_encode_shape(declared);
    lemma_encoded_len_bound(declared, 5);
    if body.len() > threshold {
        lemma_decode_encode(declared, zlib_deflated(body), 5);
    } else {
        lemma_decode_encode(declared, body, 5);
    }
}

/// Holds what inflating gave against the declared length.
pub fn check_inflated(inflated: Option<Vec<u8>>, declared: usize) -> (r: Result<
    Vec<u8>,
    FrameError,
>)
    ensures
        match spec_check_inflated(
            match inflated {
                Some(bytes) => Some(bytes@),
                None => None,
            },
            declared as nat,
        ) {
            Ok(body) => r matches Ok(bytes) && bytes@ == body,
            Err(e) => r == Err::<Vec<u8>, FrameError>(e),
        },
{
    match inflated {
        Some(bytes) => if bytes.len() == declared {
            Ok(bytes)
        } else {
            Err(FrameError::BadCompression)
        },
        None => Err(FrameError::BadCompression),
    }
}

/// Unpacks the payload of a frame on a connection with compression on.
/// Nothing is inflated for a declared length over the limit.
pub fn unpack(payload: &[u8]) -> (r: Result<Vec<u8>, FrameError>)
    ensures
        match spec_unpack(payload@) {
            Ok(body) => r matches Ok(bytes) && bytes@ == body,
            Err(e) => r == Err::<Vec<u8>, FrameError>(e),
        },
{
    match decode_u32(payload) {
        Err(_) => Err(FrameError::Malformed),
        Ok((prefix, declared)) => {
            proof {
                lemma_decode_bounds(payload@, 5);
            }
            let data = slice_subrange(payload, prefix, payload.len());
            if declared == 0 {
                Ok(slice_to_vec(data))
            } else if declared as usize > MAX_BODY_LEN {
                Err(FrameError::TooLarge)
            } else {
                let inflated = zlib_inflate(data, declared as usize + 1);
                check_inflated(inflated, declared as usize)
            }
        },
    }
}

} // verus!
