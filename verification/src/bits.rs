//! Fixed-width integers as bit patterns and as big-endian bytes.

use vstd::prelude::*;

verus! {

/// The unsigned number below `modulus` that two's complement gives `value`.
pub open spec fn spec_twos(value: int, modulus: nat) -> nat {
    if value >= 0 {
        value as nat
    } else {
        (value + modulus) as nat
    }
}

/// The signed number that two's complement reads in `bits`, below `modulus`.
pub open spec fn spec_from_twos(bits: nat, modulus: nat) -> int {
    if 2 * bits < modulus {
        bits as int
    } else {
        bits - modulus
    }
}

/// The unsigned number with the bit pattern of `value`.
pub open spec fn spec_bits_i8(value: i8) -> nat {
    spec_twos(value as int, 0x100)
}

/// The unsigned number with the bit pattern of `value`.
pub open spec fn spec_bits_i16(value: i16) -> nat {
    spec_twos(value as int, 0x1_0000)
}

/// The unsigned number with the bit pattern of `value`.
pub open spec fn spec_bits_i32(value: i32) -> nat {
    spec_twos(value as int, 0x1_0000_0000)
}

/// The unsigned number with the bit pattern of `value`.
pub open spec fn spec_bits_i64(value: i64) -> nat {
    spec_twos(value as int, 0x1_0000_0000_0000_0000)
}

/// Two's complement loses nothing: reading the pattern of a number in range
/// gives the number, and the pattern of what was read is the pattern.
pub proof fn lemma_twos_round_trip(value: int, bits: nat, modulus: nat)
    requires
        modulus % 2 == 0,
    ensures
        -(modulus / 2) <= value < modulus / 2 ==> spec_from_twos(spec_twos(value, modulus), modulus)
            == value,
        -(modulus / 2) <= value < modulus / 2 ==> spec_twos(value, modulus) < modulus,
        bits < modulus ==> spec_twos(spec_from_twos(bits, modulus), modulus) == bits,
        bits < modulus ==> -(modulus / 2) <= spec_from_twos(bits, modulus) < modulus / 2,
{
}

/// The unsigned number with the bit pattern of `value`.
pub fn bits_i8(value: i8) -> (bits: u8)
    ensures
        bits == spec_bits_i8(value),
{
    if value >= 0 {
        value as u8
    } else {
        0xffu8 - ((-(value + 1)) as u8)
    }
}

/// The unsigned number with the bit pattern of `value`.
pub fn bits_i16(value: i16) -> (bits: u16)
    ensures
        bits == spec_bits_i16(value),
{
    if value >= 0 {
        value as u16
    } else {
        0xffffu16 - ((-(value + 1)) as u16)
    }
}

/// The unsigned number with the bit pattern of `value`.
pub fn bits_i32(value: i32) -> (bits: u32)
    ensures
        bits == spec_bits_i32(value),
{
    if value >= 0 {
        value as u32
    } else {
        0xffff_ffffu32 - ((-(value + 1)) as u32)
    }
}

/// The unsigned number with the bit pattern of `value`.
pub fn bits_i64(value: i64) -> (bits: u64)
    ensures
        bits == spec_bits_i64(value),
{
    if value >= 0 {
        value as u64
    } else {
        0xffff_ffff_ffff_ffffu64 - ((-(value + 1)) as u64)
    }
}

/// The signed number with the bit pattern of `bits`.
pub fn from_bits_i8(bits: u8) -> (value: i8)
    ensures
        value == spec_from_twos(bits as nat, 0x100),
        spec_bits_i8(value) == bits,
{
    if bits < 0x80 {
        bits as i8
    } else {
        -((0xffu8 - bits) as i8) - 1
    }
}

/// The signed number with the bit pattern of `bits`.
pub fn from_bits_i16(bits: u16) -> (value: i16)
    ensures
        value == spec_from_twos(bits as nat, 0x1_0000),
        spec_bits_i16(value) == bits,
{
    if bits < 0x8000 {
        bits as i16
    } else {
        -((0xffffu16 - bits) as i16) - 1
    }
}

/// The signed number with the bit pattern of `bits`.
pub fn from_bits_i32(bits: u32) -> (value: i32)
    ensures
        value == spec_from_twos(bits as nat, 0x1_0000_0000),
        spec_bits_i32(value) == bits,
{
    if bits < 0x8000_0000 {
        bits as i32
    } else {
        -((0xffff_ffffu32 - bits) as i32) - 1
    }
}

/// The signed number with the bit pattern of `bits`.
pub fn from_bits_i64(bits: u64) -> (value: i64)
    ensures
        value == spec_from_twos(bits as nat, 0x1_0000_0000_0000_0000),
        spec_bits_i64(value) == bits,
{
    if bits < 0x8000_0000_0000_0000 {
        bits as i64
    } else {
        -((0xffff_ffff_ffff_ffffu64 - bits) as i64) - 1
    }
}

/// `256` raised to the power `n`.
pub open spec fn pow256(n: nat) -> nat
    decreases n,
{
    if n == 0 {
        1
    } else {
        256 * pow256((n - 1) as nat)
    }
}

/// The `width` low-order bytes of `value`, most significant first.
pub open spec fn spec_be(value: nat, width: nat) -> Seq<u8>
    decreases width,
{
    if width == 0 {
        Seq::empty()
    } else {
        spec_be(value / 256, (width - 1) as nat).push((value % 256) as u8)
    }
}

/// The number that `bytes` spell, most significant first.
pub open spec fn spec_be_value(bytes: Seq<u8>) -> nat
    decreases bytes.len(),
{
    if bytes.len() == 0 {
        0
    } else {
        256 * spec_be_value(bytes.drop_last()) + bytes.last() as nat
    }
}

/// The first powers of `256`.
pub proof fn lemma_pow256_values()
    ensures
        pow256(0) == 1,
        pow256(1) == 0x100,
        pow256(2) == 0x1_0000,
        pow256(4) == 0x1_0000_0000,
        pow256(8) == 0x1_0000_0000_0000_0000,
{
    reveal_with_fuel(pow256, 9);
}

/// `spec_be` gives `width` bytes.
pub proof fn lemma_be_len(value: nat, width: nat)
    ensures
        spec_be(value, width).len() == width,
    decreases width,
{
    if width > 0 {
        lemma_be_len(value / 256, (width - 1) as nat);
    }
}

/// Round trip: the bytes of a number that fits in `width` bytes spell it.
pub proof fn lemma_be_value_of_be(value: nat, width: nat)
    requires
        value < pow256(width),
    ensures
        spec_be_value(spec_be(value, width)) == value,
    decreases width,
{
    if width > 0 {
        let head = spec_be(value / 256, (width - 1) as nat);
        lemma_be_value_of_be(value / 256, (width - 1) as nat);
        assert(spec_be(value, width).drop_last() =~= head);
    }
}

/// Round trip: the number that bytes spell has those bytes, and fits in as
/// many.
pub proof fn lemma_be_of_be_value(bytes: Seq<u8>)
    ensures
        spec_be(spec_be_value(bytes), bytes.len()) == bytes,
        spec_be_value(bytes) < pow256(bytes.len()),
    decreases bytes.len(),
{
    if bytes.len() > 0 {
        lemma_be_of_be_value(bytes.drop_last());
        let value = spec_be_value(bytes);
        assert(value / 256 == spec_be_value(bytes.drop_last()));
        assert(value % 256 == bytes.last() as nat);
        assert(spec_be(value, bytes.len()) =~= bytes);
    }
}

/// The two bytes of `value`, most significant first.
pub fn be_bytes_u16(value: u16) -> (bytes: [u8; 2])
    ensures
        bytes@ == spec_be(value as nat, 2),
{
    let bytes = [(value / 0x100) as u8, (value % 0x100) as u8];
    proof {
        reveal_with_fuel(spec_be, 3);
        assert(bytes@ =~= spec_be(value as nat, 2));
    }
    bytes
}

/// The four bytes of `value`, most significant first.
pub fn be_bytes_u32(value: u32) -> (bytes: [u8; 4])
    ensures
        bytes@ == spec_be(value as nat, 4),
{
    let b3 = (value % 0x100) as u8;
    let r2 = value / 0x100;
    let b2 = (r2 % 0x100) as u8;
    let r1 = r2 / 0x100;
    let b1 = (r1 % 0x100) as u8;
    let r0 = r1 / 0x100;
    let bytes = [r0 as u8, b1, b2, b3];
    proof {
        reveal_with_fuel(spec_be, 5);
        assert(bytes@ =~= spec_be(value as nat, 4));
    }
    bytes
}

/// The eight bytes of `value`, most significant first.
pub fn be_bytes_u64(value: u64) -> (bytes: [u8; 8])
    ensures
        bytes@ == spec_be(value as nat, 8),
{
    let b7 = (value % 0x100) as u8;
    let r6 = value / 0x100;
    let b6 = (r6 % 0x100) as u8;
    let r5 = r6 / 0x100;
    let b5 = (r5 % 0x100) as u8;
    let r4 = r5 / 0x100;
    let b4 = (r4 % 0x100) as u8;
    let r3 = r4 / 0x100;
    let b3 = (r3 % 0x100) as u8;
    let r2 = r3 / 0x100;
    let b2 = (r2 % 0x100) as u8;
    let r1 = r2 / 0x100;
    let b1 = (r1 % 0x100) as u8;
    let r0 = r1 / 0x100;
    let bytes = [r0 as u8, b1, b2, b3, b4, b5, b6, b7];
    proof {
        reveal_with_fuel(spec_be, 9);
        assert(bytes@ =~= spec_be(value as nat, 8));
    }
    bytes
}

/// The number that two bytes spell, most significant first.
pub fn u16_from_be(bytes: [u8; 2]) -> (value: u16)
    ensures
        value == spec_be_value(bytes@),
{
    proof {
        reveal_with_fuel(spec_be_value, 3);
        assert(bytes@.drop_last().drop_last().len() == 0);
    }
    bytes[0] as u16 * 0x100 + bytes[1] as u16
}

/// The number that four bytes spell, most significant first.
pub fn u32_from_be(bytes: [u8; 4]) -> (value: u32)
    ensures
        value == spec_be_value(bytes@),
{
    let mut value: u32 = 0;
    let mut index: usize = 0;
    proof {
        lemma_pow256_values();
        assert(bytes@.take(0).len() == 0);
    }
    while index < 4
        invariant
            index <= 4,
            bytes@.len() == 4,
            value == spec_be_value(bytes@.take(index as int)),
            value < pow256(index as nat),
        decreases 4 - index,
    {
        proof {
            lemma_pow256_values();
            reveal_with_fuel(pow256, 5);
            let next = bytes@.take(index + 1);
            assert(next.drop_last() =~= bytes@.take(index as int));
            assert(next.last() == bytes@[index as int]);
        }
        value = value * 0x100 + bytes[index] as u32;
        index = index + 1;
    }
    proof {
        assert(bytes@.take(4) =~= bytes@);
    }
    value
}

/// The number that eight bytes spell, most significant first.
pub fn u64_from_be(bytes: [u8; 8]) -> (value: u64)
    ensures
        value == spec_be_value(bytes@),
{
    let mut value: u64 = 0;
    let mut index: usize = 0;
    proof {
        lemma_pow256_values();
        assert(bytes@.take(0).len() == 0);
    }
    while index < 8
        invariant
            index <= 8,
            bytes@.len() == 8,
            value == spec_be_value(bytes@.take(index as int)),
            value < pow256(index as nat),
        decreases 8 - index,
    {
        proof {
            lemma_pow256_values();
            reveal_with_fuel(pow256, 9);
            let next = bytes@.take(index + 1);
            assert(next.drop_last() =~= bytes@.take(index as int));
            assert(next.last() == bytes@[index as int]);
        }
        value = value * 0x100 + bytes[index] as u64;
        index = index + 1;
    }
    proof {
        assert(bytes@.take(8) =~= bytes@);
    }
    value
}

} // verus!
