//! Variable-length integers: seven payload bits per byte, least significant
//! group first, the high bit of a byte set when another group follows.

use crate::bits::{
    bits_i32, bits_i64, from_bits_i32, from_bits_i64, spec_bits_i32, spec_bits_i64,
};
use vstd::prelude::*;

verus! {

/// Why a variable-length integer could not be read.
#[derive(Clone, Copy, Debug, PartialEq, Eq, Structural)]
pub enum VarIntError {
    /// The bytes end before a group without the continuation flag.
    Incomplete,
    /// More groups than the target width allows, or a value it cannot hold.
    Overflow,
}

/// `128` raised to the power `n`.
pub open spec fn pow128(n: nat) -> nat
    decreases n,
{
    if n == 0 {
        1
    } else {
        128 * pow128((n - 1) as nat)
    }
}

/// The number of groups that a target of `bits` bits may take.
pub open spec fn max_groups(bits: nat) -> nat {
    (bits + 6) / 7
}

/// The encoding of `value`.
pub open spec fn spec_encode(value: nat) -> Seq<u8>
    decreases value,
{
    if value < 128 {
        seq![value as u8]
    } else {
        seq![(value % 128 + 128) as u8] + spec_encode(value / 128)
    }
}

/// The number of bytes in the encoding of `value`.
pub open spec fn spec_encoded_len(value: nat) -> nat
    decreases value,
{
    if value < 128 {
        1
    } else {
        1 + spec_encoded_len(value / 128)
    }
}

/// Reads one integer of at most `groups` groups from the front of `bytes`:
/// the number of bytes it takes and its value.
pub open spec fn spec_decode(bytes: Seq<u8>, groups: nat) -> Result<(nat, nat), VarIntError>
    decreases groups,
{
    if groups == 0 {
        Err(VarIntError::Overflow)
    } else if bytes.len() == 0 {
        Err(VarIntError::Incomplete)
    } else if bytes[0] < 128 {
        Ok((1, bytes[0] as nat))
    } else {
        match spec_decode(bytes.skip(1), (groups - 1) as nat) {
            Ok((consumed, value)) => Ok((consumed + 1, (bytes[0] - 128) as nat + 128 * value)),
            Err(e) => Err(e),
        }
    }
}

/// Reads one integer from the front of `bytes` for a target that takes at
/// most `groups` groups and holds values up to `max`.
pub open spec fn spec_decode_bounded(bytes: Seq<u8>, groups: nat, max: nat) -> Result<
    (nat, nat),
    VarIntError,
> {
    match spec_decode(bytes, groups) {
        Ok((consumed, value)) => if value <= max {
            Ok((consumed, value))
        } else {
            Err(VarIntError::Overflow)
        },
        Err(e) => Err(e),
    }
}

/// Reading for a 32-bit target.
pub open spec fn spec_decode_u32(bytes: Seq<u8>) -> Result<(nat, nat), VarIntError> {
    spec_decode_bounded(bytes, 5, 0xffff_ffff)
}

/// Reading for a 64-bit target.
pub open spec fn spec_decode_u64(bytes: Seq<u8>) -> Result<(nat, nat), VarIntError> {
    spec_decode_bounded(bytes, 10, 0xffff_ffff_ffff_ffff)
}

/// Reading for a target as wide as `usize`.
pub open spec fn spec_decode_usize(bytes: Seq<u8>) -> Result<(nat, nat), VarIntError> {
    spec_decode_bounded(bytes, max_groups(usize::BITS as nat), usize::MAX as nat)
}

/// The first powers of `128`.
pub proof fn lemma_pow128_values()
    ensures
        pow128(0) == 1,
        pow128(1) == 0x80,
        pow128(2) == 0x4000,
        pow128(3) == 0x20_0000,
        pow128(4) == 0x1000_0000,
        pow128(5) == 0x8_0000_0000,
        pow128(6) == 0x400_0000_0000,
        pow128(7) == 0x2_0000_0000_0000,
        pow128(8) == 0x100_0000_0000_0000,
        pow128(9) == 0x8000_0000_0000_0000,
        pow128(10) == 0x40_0000_0000_0000_0000,
{
    reveal_with_fuel(pow128, 11);
}

/// `pow128` grows with its argument.
pub proof fn lemma_pow128_monotonic(a: nat, b: nat)
    requires
        a <= b,
    ensures
        1 <= pow128(a) <= pow128(b),
    decreases b,
{
    if b == 0 {
    } else if a == b {
        lemma_pow128_monotonic(0, (b - 1) as nat);
    } else {
        lemma_pow128_monotonic(a, (b - 1) as nat);
    }
}

/// An encoding is never empty, has the length `spec_encoded_len` gives, and
/// only its last byte lacks the continuation flag.
pub proof fn lemma_encode_shape(value: nat)
    ensures
        spec_encode(value).len() == spec_encoded_len(value),
        spec_encoded_len(value) >= 1,
        spec_encode(value).last() < 128,
        forall|i: int| 0 <= i < spec_encode(value).len() - 1 ==> spec_encode(value)[i] >= 128,
    decreases value,
{
    if value >= 128 {
        lemma_encode_shape(value / 128);
        let head = seq![(value % 128 + 128) as u8];
        let tail = spec_encode(value / 128);
        assert(spec_encode(value) == head + tail);
        assert forall|i: int| 0 <= i < spec_encode(value).len() - 1 implies spec_encode(value)[i]
            >= 128 by {
            if i > 0 {
                assert(spec_encode(value)[i] == tail[i - 1]);
            }
        }
    }
}

/// The encoding of `value` has at most `groups` bytes exactly when `value`
/// is below `128` to the power `groups`.
pub proof fn lemma_encoded_len_bound(value: nat, groups: nat)
    ensures
        spec_encoded_len(value) <= groups <==> (groups >= 1 && value < pow128(groups)),
    decreases groups,
{
    if groups == 0 {
        lemma_encode_shape(value);
    } else if value < 128 {
        lemma_pow128_monotonic(1, groups);
        reveal_with_fuel(pow128, 2);
    } else {
        lemma_encoded_len_bound(value / 128, (groups - 1) as nat);
        lemma_encode_shape(value / 128);
        if groups == 1 {
            reveal_with_fuel(pow128, 2);
        }
    }
}

/// Round trip: an encoding followed by any bytes reads back as the value,
/// taking exactly the encoding's bytes, when the target allows that many
/// groups.
pub proof fn lemma_decode_encode(value: nat, rest: Seq<u8>, groups: nat)
    requires
        spec_encoded_len(value) <= groups,
    ensures
        spec_decode(spec_encode(value) + rest, groups) == Ok::<(nat, nat), VarIntError>(
            (spec_encoded_len(value), value),
        ),
    decreases value,
{
    let bytes = spec_encode(value) + rest;
    if value < 128 {
        assert(bytes[0] == value as u8);
    } else {
        let tail = spec_encode(value / 128);
        assert(bytes[0] == (value % 128 + 128) as u8);
        assert(bytes.skip(1) =~= tail + rest);
        lemma_decode_encode(value / 128, rest, (groups - 1) as nat);
    }
}

/// What was read is a number of bytes within the input and within the
/// group limit, and a value below `128` to the power of that number.
pub proof fn lemma_decode_bounds(bytes: Seq<u8>, groups: nat)
    ensures
        spec_decode(bytes, groups) matches Ok((consumed, value)) ==> {
            &&& 1 <= consumed <= bytes.len()
            &&& consumed <= groups
            &&& value < pow128(consumed)
            &&& bytes[consumed - 1] < 128
            &&& forall|i: int| 0 <= i < consumed - 1 ==> bytes[i] >= 128
        },
    decreases groups,
{
    if groups > 0 && bytes.len() > 0 {
        if bytes[0] < 128 {
            reveal_with_fuel(pow128, 2);
        } else {
            lemma_decode_bounds(bytes.skip(1), (groups - 1) as nat);
            if let Ok((consumed, value)) = spec_decode(bytes.skip(1), (groups - 1) as nat) {
                assert forall|i: int| 0 <= i < consumed implies bytes[i] >= 128 by {
                    if i > 0 {
                        assert(bytes[i] == bytes.skip(1)[i - 1]);
                    }
                }
                assert(bytes[consumed as int] == bytes.skip(1)[consumed - 1]);
            }
        }
    }
}

/// Bytes after a complete integer do not change what is read, and bytes
/// after too many groups do not mend them.
pub proof fn lemma_decode_extend(bytes: Seq<u8>, more: Seq<u8>, groups: nat)
    requires
        spec_decode(bytes, groups) != Err::<(nat, nat), VarIntError>(VarIntError::Incomplete),
    ensures
        spec_decode(bytes + more, groups) == spec_decode(bytes, groups),
    decreases groups,
{
    if groups > 0 {
        assert(bytes.len() > 0);
        assert((bytes + more)[0] == bytes[0]);
        if bytes[0] >= 128 {
            assert((bytes + more).skip(1) =~= bytes.skip(1) + more);
            lemma_decode_extend(bytes.skip(1), more, (groups - 1) as nat);
        }
    }
}

/// A run of `groups` bytes that all carry the continuation flag is refused,
/// whatever follows.
pub proof fn lemma_decode_too_long(bytes: Seq<u8>, groups: nat)
    requires
        bytes.len() >= groups,
        forall|i: int| 0 <= i < groups ==> bytes[i] >= 128,
    ensures
        spec_decode(bytes, groups) == Err::<(nat, nat), VarIntError>(VarIntError::Overflow),
    decreases groups,
{
    if groups > 0 {
        assert forall|i: int| 0 <= i < groups - 1 implies bytes.skip(1)[i] >= 128 by {
            assert(bytes.skip(1)[i] == bytes[i + 1]);
        }
        lemma_decode_too_long(bytes.skip(1), (groups - 1) as nat);
    }
}

/// Zero is the single byte `0x00`.
pub proof fn lemma_encode_zero()
    ensures
        spec_encode(0) == seq![0u8],
{
}

/// The largest 32-bit value takes five bytes and reads back for a 32-bit
/// target; the largest 64-bit value takes ten and reads back for a 64-bit
/// target.
pub proof fn lemma_max_values_round_trip(rest: Seq<u8>)
    ensures
        spec_encoded_len(0xffff_ffff) == 5,
        spec_decode_u32(spec_encode(0xffff_ffff) + rest) == Ok::<(nat, nat), VarIntError>(
            (5, 0xffff_ffff),
        ),
        spec_encoded_len(0xffff_ffff_ffff_ffff) == 10,
        spec_decode_u64(spec_encode(0xffff_ffff_ffff_ffff) + rest) == Ok::<
            (nat, nat),
            VarIntError,
        >((10, 0xffff_ffff_ffff_ffff)),
{
    reveal_with_fuel(spec_encoded_len, 11);
    lemma_decode_encode(0xffff_ffff, rest, 5);
    lemma_decode_encode(0xffff_ffff_ffff_ffff, rest, 10);
}

/// Appends the encoding of `value` to `out`.
pub fn encode_u64(value: u64, out: &mut Vec<u8>)
    ensures
        final(out)@ == old(out)@ + spec_encode(value as nat),
{
    let mut rest: u64 = value;
    while rest >= 128
        invariant
            out@ + spec_encode(rest as nat) == old(out)@ + spec_encode(value as nat),
        decreases rest,
    {
        let ghost before = out@;
        out.push((rest % 128 + 128) as u8);
        proof {
            let head = seq![(rest % 128 + 128) as u8];
            assert(spec_encode(rest as nat) == head + spec_encode((rest / 128) as nat));
            assert(out@ == before + head);
            assert(out@ + spec_encode((rest / 128) as nat) =~= before + spec_encode(rest as nat));
        }
        rest = rest / 128;
    }
    let ghost before = out@;
    out.push(rest as u8);
    proof {
        assert(out@ == before + spec_encode(rest as nat));
    }
}

/// Appends the encoding of `value` to `out`.
pub fn encode_u32(value: u32, out: &mut Vec<u8>)
    ensures
        final(out)@ == old(out)@ + spec_encode(value as nat),
{
    encode_u64(value as u64, out)
}

/// Appends the encoding of `value` to `out`.
pub fn encode_usize(value: usize, out: &mut Vec<u8>)
    ensures
        final(out)@ == old(out)@ + spec_encode(value as nat),
{
    encode_u64(value as u64, out)
}

/// Appends the encoding of the bit pattern of `value` to `out`.
pub fn encode_i32(value: i32, out: &mut Vec<u8>)
    ensures
        final(out)@ == old(out)@ + spec_encode(spec_bits_i32(value)),
{
    encode_u64(bits_i32(value) as u64, out)
}

/// Appends the encoding of the bit pattern of `value` to `out`.
pub fn encode_i64(value: i64, out: &mut Vec<u8>)
    ensures
        final(out)@ == old(out)@ + spec_encode(spec_bits_i64(value)),
{
    encode_u64(bits_i64(value), out)
}

/// The number of bytes that the encoding of `value` takes.
pub fn encoded_len(value: u64) -> (len: usize)
    ensures
        len == spec_encoded_len(value as nat),
        1 <= len <= 10,
{
    let mut rest: u64 = value;
    let mut len: usize = 1;
    proof {
        lemma_pow128_values();
        lemma_encoded_len_bound(value as nat, 10);
    }
    while rest >= 128
        invariant
            len + spec_encoded_len(rest as nat) == 1 + spec_encoded_len(value as nat),
            spec_encoded_len(value as nat) <= 10,
        decreases rest,
    {
        rest = rest / 128;
        len = len + 1;
    }
    len
}

/// Reads one integer from the front of `bytes` for a target that takes at
/// most `groups` groups and holds values up to `max`. Ten groups are what a
/// target of sixty-four bits takes, and the most that can be asked for.
fn decode_bounded(bytes: &[u8], groups: usize, max: u64) -> (r: Result<
    (usize, u64),
    VarIntError,
>)
    requires
        groups <= 10,
    ensures
        match r {
            Ok((consumed, value)) => spec_decode_bounded(bytes@, groups as nat, max as nat) == Ok::<
                (nat, nat),
                VarIntError,
            >((consumed as nat, value as nat)),
            Err(e) => spec_decode_bounded(bytes@, groups as nat, max as nat) == Err::<
                (nat, nat),
                VarIntError,
            >(e),
        },
{
    let mut value: u128 = 0;
    let mut scale: u128 = 1;
    let mut index: usize = 0;
    proof {
        lemma_pow128_values();
        assert(bytes@.skip(0) =~= bytes@);
    }
    while index < groups
        invariant
            index <= groups <= 10,
            index <= bytes@.len(),
            scale == pow128(index as nat),
            value < scale,
            spec_decode(bytes@, groups as nat) == match spec_decode(
                bytes@.skip(index as int),
                (groups - index) as nat,
            ) {
                Ok((consumed, rest)) => Ok(
                    (consumed + index as nat, value as nat + scale as nat * rest),
                ),
                Err(e) => Err(e),
            },
        decreases groups - index,
    {
        proof {
            lemma_pow128_monotonic(index as nat, 9);
            lemma_pow128_values();
        }
        if index >= bytes.len() {
            return Err(VarIntError::Incomplete);
        }
        let byte = bytes[index];
        let ghost tail = bytes@.skip(index as int);
        assert(tail[0] == byte);
        assert(tail.skip(1) =~= bytes@.skip(index + 1));
        if byte < 128 {
            assert(byte as u128 * scale <= 127 * scale) by (nonlinear_arith)
                requires
                    byte < 128,
            ;
            let total = value + byte as u128 * scale;
            assert(scale as nat * (byte as nat) == byte as u128 * scale) by (nonlinear_arith);
            if total > max as u128 {
                return Err(VarIntError::Overflow);
            }
            return Ok((index + 1, total as u64));
        }
        let digit = (byte - 128) as u128;
        assert(digit * scale <= 127 * scale) by (nonlinear_arith)
            requires
                digit < 128,
        ;
        proof {
            let sub = spec_decode(tail.skip(1), (groups - index - 1) as nat);
            if let Ok((consumed, rest)) = sub {
                assert(scale as nat * (digit as nat + 128 * rest) == (digit * scale) as nat + (scale
                    * 128) as nat * rest) by (nonlinear_arith);
            }
        }
        value = value + digit * scale;
        scale = scale * 128;
        index = index + 1;
    }
    Err(VarIntError::Overflow)
}

/// Reads one integer from the front of `bytes` for a 32-bit target.
pub fn decode_u32(bytes: &[u8]) -> (r: Result<(usize, u32), VarIntError>)
    ensures
        match r {
            Ok((consumed, value)) => spec_decode_u32(bytes@) == Ok::<(nat, nat), VarIntError>(
                (consumed as nat, value as nat),
            ),
            Err(e) => spec_decode_u32(bytes@) == Err::<(nat, nat), VarIntError>(e),
        },
{
    match decode_bounded(bytes, 5, 0xffff_ffff) {
        Ok((consumed, value)) => Ok((consumed, value as u32)),
        Err(e) => Err(e),
    }
}

/// Reads one integer from the front of `bytes` for a 64-bit target.
pub fn decode_u64(bytes: &[u8]) -> (r: Result<(usize, u64), VarIntError>)
    ensures
        match r {
            Ok((consumed, value)) => spec_decode_u64(bytes@) == Ok::<(nat, nat), VarIntError>(
                (consumed as nat, value as nat),
            ),
            Err(e) => spec_decode_u64(bytes@) == Err::<(nat, nat), VarIntError>(e),
        },
{
    decode_bounded(bytes, 10, 0xffff_ffff_ffff_ffff)
}

/// Reads one integer from the front of `bytes` for a target as wide as
/// `usize`.
pub fn decode_usize(bytes: &[u8]) -> (r: Result<(usize, usize), VarIntError>)
    ensures
        match r {
            Ok((consumed, value)) => spec_decode_usize(bytes@) == Ok::<(nat, nat), VarIntError>(
                (consumed as nat, value as nat),
            ),
            Err(e) => spec_decode_usize(bytes@) == Err::<(nat, nat), VarIntError>(e),
        },
{
    let groups: usize = ((usize::BITS + 6) / 7) as usize;
    match decode_bounded(bytes, groups, usize::MAX as u64) {
        Ok((consumed, value)) => Ok((consumed, value as usize)),
        Err(e) => Err(e),
    }
}

/// Reads one integer from the front of `bytes` and gives the signed 32-bit
/// number with its bit pattern.
pub fn decode_i32(bytes: &[u8]) -> (r: Result<(usize, i32), VarIntError>)
    ensures
        match r {
            Ok((consumed, value)) => spec_decode_u32(bytes@) == Ok::<(nat, nat), VarIntError>(
                (consumed as nat, spec_bits_i32(value)),
            ),
            Err(e) => spec_decode_u32(bytes@) == Err::<(nat, nat), VarIntError>(e),
        },
{
    match decode_u32(bytes) {
        Ok((consumed, value)) => Ok((consumed, from_bits_i32(value))),
        Err(e) => Err(e),
    }
}

/// Reads one integer from the front of `bytes` and gives the signed 64-bit
/// number with its bit pattern.
pub fn decode_i64(bytes: &[u8]) -> (r: Result<(usize, i64), VarIntError>)
    ensures
        match r {
            Ok((consumed, value)) => spec_decode_u64(bytes@) == Ok::<(nat, nat), VarIntError>(
                (consumed as nat, spec_bits_i64(value)),
            ),
            Err(e) => spec_decode_u64(bytes@) == Err::<(nat, nat), VarIntError>(e),
        },
{
    match decode_u64(bytes) {
        Ok((consumed, value)) => Ok((consumed, from_bits_i64(value))),
        Err(e) => Err(e),
    }
}

} // verus!
