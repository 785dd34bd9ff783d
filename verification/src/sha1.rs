//! The server hash of the login: a SHA-1 digest read as a signed number and
//! written in hexadecimal, sign first, without leading zeros.

use crate::bits::{lemma_be_of_be_value, pow256, spec_be_value};
use crate::ser::append_bytes;
use crate::text::{digit_str, spec_digit_char};
use vstd::prelude::*;
use vstd::slice::slice_to_vec;
use vstd::string::*;

verus! {

/// The number of bytes of a SHA-1 digest.
pub const DIGEST_LEN: usize = 20;

/// The SHA-1 digest of `data`.
pub uninterp spec fn sha1_of(data: Seq<u8>) -> Seq<u8>;

/// `sha1_smol::Sha1`, fed with all of `data`, and the bytes of its digest.
#[verifier::external_body]
fn sha1_digest(data: &[u8]) -> (digest: [u8; 20])
    ensures
        digest@ == sha1_of(data@),
{
    let mut hash = sha1_smol::Sha1::new();
    hash.update(data);
    hash.digest().bytes()
}

/// The hexadecimal numeral of `n` in lower case; no digit at all for zero.
pub open spec fn spec_hex_digits(n: nat) -> Seq<char>
    decreases n,
{
    if n == 0 {
        Seq::empty()
    } else {
        spec_hex_digits(n / 16).push(spec_digit_char(n % 16))
    }
}

/// Whether the bytes, read as a number in two's complement, are negative.
pub open spec fn spec_is_negative(bytes: Seq<u8>) -> bool {
    bytes.len() > 0 && bytes[0] >= 0x80
}

/// The absolute value of the number that the bytes spell in two's
/// complement, most significant byte first.
pub open spec fn spec_magnitude(bytes: Seq<u8>) -> nat {
    if spec_is_negative(bytes) {
        (pow256(bytes.len()) - spec_be_value(bytes)) as nat
    } else {
        spec_be_value(bytes)
    }
}

/// The bytes as a signed hexadecimal numeral: a minus sign where the number
/// is negative, then the digits of its absolute value.
pub open spec fn spec_signed_hex(bytes: Seq<u8>) -> Seq<char> {
    if spec_is_negative(bytes) {
        seq!['-'] + spec_hex_digits(spec_magnitude(bytes))
    } else {
        spec_hex_digits(spec_magnitude(bytes))
    }
}

/// The bytes as a signed hexadecimal numeral that writes zero as `0`.
pub open spec fn spec_signed_hex_or_zero(bytes: Seq<u8>) -> Seq<char> {
    if spec_magnitude(bytes) == 0 {
        seq!['0']
    } else {
        spec_signed_hex(bytes)
    }
}

/// The number that a byte string spells is the number of its front, shifted
/// by the length of its back, plus the number of its back.
pub proof fn lemma_be_value_concat(front: Seq<u8>, back: Seq<u8>)
    ensures
        spec_be_value(front + back) == spec_be_value(front) * pow256(back.len()) + spec_be_value(
            back,
        ),
    decreases back.len(),
{
    let a = spec_be_value(front);
    if back.len() == 0 {
        assert(front + back =~= front);
        assert(a * 1 == a) by (nonlinear_arith);
    } else {
        let shorter = back.drop_last();
        lemma_be_value_concat(front, shorter);
        assert((front + back).drop_last() =~= front + shorter);
        assert((front + back).last() == back.last());
        let p = pow256(shorter.len());
        assert(pow256(back.len()) == 256 * p);
        assert(spec_be_value(front + back) == 256 * (a * p + spec_be_value(shorter)) + back.last());
        assert(256 * (a * p + spec_be_value(shorter)) == a * (256 * p) + 256 * spec_be_value(
            shorter,
        )) by (nonlinear_arith);
    }
}

/// `bnum::Int::<20>::from_be_slice(..)` and `to_str_radix(16)` on it: the
/// twenty bytes read as a signed number, written in hexadecimal with the
/// sign first, in lower case, zero as `0`.
#[verifier::external_body]
fn signed_hex_of(value: &[u8; 20]) -> (hex: String)
    ensures
        hex@ == spec_signed_hex_or_zero(value@),
{
    match bnum::Int::<20>::from_be_slice(value) {
        Some(number) => number.to_str_radix(16),
        None => String::new(),
    }
}

/// The digest as a signed hexadecimal numeral. The all-zero digest gives
/// the empty string.
pub fn hex_digest(hash: [u8; 20]) -> (hex: String)
    ensures
        hex@ == spec_signed_hex(hash@),
{
    let negative = hash[0] >= 0x80;
    let mut hex = String::new();
    let mut magnitude = slice_to_vec(hash.as_slice());
    if negative {
        hex.append("-");
        proof {
            reveal_strlit("-");
        }
        // two's complement: every byte inverted, and one added at the end
        let mut carry = true;
        let mut i: usize = DIGEST_LEN;
        proof {
            assert(magnitude@.skip(20).len() == 0);
            assert(hash@.skip(20).len() == 0);
            assert(magnitude@.take(20) =~= hash@.take(20));
        }
        while i > 0
            invariant
                i <= 20,
                magnitude@.len() == 20,
                hash@.len() == 20,
                magnitude@.take(i as int) == hash@.take(i as int),
                spec_be_value(magnitude@.skip(i as int)) + (if carry {
                    pow256((20 - i) as nat)
                } else {
                    0
                }) == pow256((20 - i) as nat) - spec_be_value(hash@.skip(i as int)),
            decreases i,
        {
            let ghost before = magnitude@;
            let ghost old_carry: int = if carry { 1 } else { 0 };
            i = i - 1;
            let inverted = 255 - magnitude[i];
            let byte = if carry {
                if inverted == 255 {
                    0
                } else {
                    carry = false;
                    inverted + 1
                }
            } else {
                inverted
            };
            magnitude.set(i, byte);
            proof {
                let new_carry: int = if carry { 1 } else { 0 };
                let p = pow256((19 - i) as nat);
                let old_tail = hash@.skip(i + 1);
                let new_tail = before.skip(i + 1);
                assert(before[i as int] == hash@[i as int]) by {
                    assert(before.take(i + 1)[i as int] == hash@.take(i + 1)[i as int]);
                }
                assert(magnitude@.skip(i as int) =~= seq![byte] + new_tail);
                assert(hash@.skip(i as int) =~= seq![hash@[i as int]] + old_tail);
                lemma_be_value_concat(seq![byte], new_tail);
                lemma_be_value_concat(seq![hash@[i as int]], old_tail);
                reveal_with_fuel(spec_be_value, 2);
                assert(spec_be_value(seq![byte]) == byte) by {
                    assert(seq![byte].drop_last().len() == 0);
                }
                assert(spec_be_value(seq![hash@[i as int]]) == hash@[i as int]) by {
                    assert(seq![hash@[i as int]].drop_last().len() == 0);
                }
                let hb = hash@[i as int] as int;
                let nb = byte as int;
                assert(nb + 256 * new_carry == 255 - hb + old_carry);
                assert(nb * p + 256 * new_carry * p == (255 - hb + old_carry) * p)
                    by (nonlinear_arith)
                    requires
                        nb + 256 * new_carry == 255 - hb + old_carry,
                ;
                assert((255 - hb + old_carry) * p == 256 * p - hb * p - p + old_carry * p)
                    by (nonlinear_arith);
                assert(pow256((20 - i) as nat) == 256 * p);
                assert(magnitude@.take(i as int) =~= hash@.take(i as int)) by {
                    assert forall|j: int| 0 <= j < i implies magnitude@[j] == hash@[j] by {
                        assert(before.take(i + 1)[j] == hash@.take(i + 1)[j]);
                    }
                }
            }
        }
        proof {
            assert(magnitude@.skip(0) =~= magnitude@);
            assert(hash@.skip(0) =~= hash@);
            lemma_be_of_be_value(magnitude@);
            lemma_be_of_be_value(hash@);
            lemma_be_value_concat(seq![hash@[0]], hash@.skip(1));
            assert(seq![hash@[0]] + hash@.skip(1) =~= hash@);
            reveal_with_fuel(spec_be_value, 2);
            assert(seq![hash@[0]].drop_last().len() == 0);
            assert(spec_be_value(hash@) > 0) by {
                let p = pow256(19);
                crate::bits::lemma_be_of_be_value(hash@.skip(1));
                assert(p >= 1) by {
                    reveal_with_fuel(pow256, 20);
                }
                assert(hash@[0] as int * p >= 1) by (nonlinear_arith)
                    requires
                        hash@[0] >= 0x80,
                        p >= 1,
                ;
            }
        }
    }
    let ghost sign: Seq<char> = hex@;
    let mut started = false;
    let mut i: usize = 0;
    proof {
        assert(magnitude@.take(0).len() == 0);
        assert(magnitude@.len() == 20);
        assert(hex@ =~= sign + spec_hex_digits(0));
        if !negative {
            assert(magnitude@ == hash@);
        }
    }
    while i < DIGEST_LEN
        invariant
            i <= 20,
            magnitude@.len() == 20,
            hex@ == sign + spec_hex_digits(spec_be_value(magnitude@.take(i as int))),
            started <==> spec_be_value(magnitude@.take(i as int)) > 0,
        decreases 20 - i,
    {
        let byte = magnitude[i];
        let high = byte / 16;
        let low = byte % 16;
        let ghost value = spec_be_value(magnitude@.take(i as int));
        let ghost digits = hex@;
        proof {
            let next = magnitude@.take(i + 1);
            assert(next.drop_last() =~= magnitude@.take(i as int));
            assert(next.last() == byte);
            assert(spec_be_value(next) == 256 * value + byte);
            reveal_with_fuel(spec_hex_digits, 3);
            assert((256 * value + byte) / 16 == 16 * value + high);
            assert((256 * value + byte) % 16 == low as int);
            assert((16 * value + high) / 16 == value);
            assert((16 * value + high) % 16 == high as int);
        }
        if started || high != 0 {
            hex.append(digit_str(high));
            started = true;
        }
        if started || low != 0 {
            hex.append(digit_str(low));
            started = true;
        }
        i = i + 1;
        proof {
            let n = (256 * value + byte) as nat;
            let upper = (16 * value + high) as nat;
            if upper == 0 {
                if low == 0 {
                    assert(hex@ =~= sign + spec_hex_digits(n));
                } else {
                    assert(spec_hex_digits(n) =~= seq![spec_digit_char(low as nat)]);
                    assert(hex@ =~= sign + spec_hex_digits(n));
                }
            } else {
                assert(spec_hex_digits(upper) =~= spec_hex_digits(value).push(
                    spec_digit_char(high as nat),
                ));
                assert(hex@ =~= sign + spec_hex_digits(n));
            }
        }
    }
    proof {
        assert(magnitude@.take(20) =~= magnitude@);
    }
    hex
}

/// The digest as a signed hexadecimal numeral, zero written as `0`.
pub fn notchian_hexdigest(value: &[u8; 20]) -> (hex: String)
    ensures
        hex@ == spec_signed_hex_or_zero(value@),
{
    signed_hex_of(value)
}

/// The SHA-1 digest of `data`.
pub fn sha1(data: &[u8]) -> (digest: [u8; 20])
    ensures
        digest@ == sha1_of(data@),
{
    sha1_digest(data)
}

/// The signed hexadecimal numeral of the SHA-1 digest of a name.
pub fn calc_hash(name: &str) -> (hex: String)
    ensures
        hex@ == spec_signed_hex(sha1_of(vstd::utf8::encode_utf8(name@))),
{
    hex_digest(sha1(name.as_bytes()))
}

/// The signed hexadecimal numeral of the SHA-1 digest of a text.
pub fn sha1_notchian_hexdigest(value: &str) -> (hex: String)
    ensures
        hex@ == spec_signed_hex_or_zero(sha1_of(vstd::utf8::encode_utf8(value@))),
{
    let digest = sha1(value.as_bytes());
    notchian_hexdigest(&digest)
}

/// All the bytes of `values`, one after the other.
pub open spec fn spec_concat(values: Seq<Seq<u8>>) -> Seq<u8>
    decreases values.len(),
{
    if values.len() == 0 {
        Seq::empty()
    } else {
        spec_concat(values.drop_last()) + values.last()
    }
}

/// The signed hexadecimal numeral of the SHA-1 digest of several byte
/// strings taken as one.
pub fn sha1_notchian_hexdigest_arr(values: &[&[u8]]) -> (hex: String)
    ensures
        hex@ == spec_signed_hex_or_zero(
            sha1_of(spec_concat(values@.map_values(|v: &[u8]| v@))),
        ),
{
    let mut all: Vec<u8> = Vec::new();
    let mut i: usize = 0;
    let ghost views = values@.map_values(|v: &[u8]| v@);
    proof {
        assert(views.take(0).len() == 0);
    }
    while i < values.len()
        invariant
            i <= values@.len(),
            views == values@.map_values(|v: &[u8]| v@),
            all@ == spec_concat(views.take(i as int)),
        decreases values@.len() - i,
    {
        proof {
            let next = views.take(i + 1);
            assert(next.drop_last() =~= views.take(i as int));
            assert(next.last() == values@[i as int]@);
        }
        append_bytes(&mut all, values[i]);
        i = i + 1;
    }
    proof {
        assert(views.take(values@.len() as int) =~= views);
    }
    let digest = sha1(all.as_slice());
    notchian_hexdigest(&digest)
}

} // verus!
