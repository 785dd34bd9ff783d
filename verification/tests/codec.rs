use aes::cipher::{AsyncStreamCipher, KeyIvInit};
use std::io::Read;
use troad::cipher::Encryption;
use troad::compress::{pack, unpack};
use troad::err::FrameError;
use troad::net::Connection;
use troad::sha1::{calc_hash, hex_digest, sha1_notchian_hexdigest};
use troad::var_int::{decode_u32, decode_u64, encode_u64, VarIntError};

#[test]
fn test_sha1_hex_digest() {
    assert_eq!(
        "4ed1f46bbe04bc756bcb17c0c7ce3e4632f06a48",
        sha1_notchian_hexdigest("Notch")
    );
    assert_eq!(
        "-7c9d5b0044c130109a5d7b5fb5c317c02b4e28c1",
        sha1_notchian_hexdigest("jeb_")
    );
    assert_eq!(
        "88e16a1019277b15d58faf0541e11910eb756f6",
        sha1_notchian_hexdigest("simon")
    )
}

#[test]
fn calc_hash_agrees_with_the_reference_digests() {
    assert_eq!("4ed1f46bbe04bc756bcb17c0c7ce3e4632f06a48", calc_hash("Notch"));
    assert_eq!("-7c9d5b0044c130109a5d7b5fb5c317c02b4e28c1", calc_hash("jeb_"));
    assert_eq!("88e16a1019277b15d58faf0541e11910eb756f6", calc_hash("simon"));
}

#[test]
fn hex_digest_of_zero_is_empty() {
    assert_eq!("", hex_digest([0u8; 20]));
}

#[test]
fn var_int_zero_is_one_zero_byte() {
    let mut out = Vec::new();
    encode_u64(0, &mut out);
    assert_eq!(out, vec![0x00]);
}

#[test]
fn var_int_round_trips_at_the_boundaries() {
    for value in [0u64, 1, 127, 128, 300, 0xffff_ffff, u64::MAX] {
        let mut out = Vec::new();
        encode_u64(value, &mut out);
        assert_eq!(decode_u64(&out), Ok((out.len(), value)));
    }
    let mut out = Vec::new();
    encode_u64(0xffff_ffff, &mut out);
    assert_eq!(out, vec![0xff, 0xff, 0xff, 0xff, 0x0f]);
    assert_eq!(decode_u32(&out), Ok((5, 0xffff_ffff)));
}

#[test]
fn var_int_with_too_many_groups_overflows() {
    assert_eq!(decode_u32(&[0x80, 0x80, 0x80, 0x80, 0x80, 0x01]), Err(VarIntError::Overflow));
    assert_eq!(decode_u32(&[0xff, 0xff, 0xff, 0xff, 0x7f]), Err(VarIntError::Overflow));
    assert_eq!(decode_u32(&[0x80, 0x80]), Err(VarIntError::Incomplete));
    assert_eq!(decode_u32(&[]), Err(VarIntError::Incomplete));
}

#[test]
fn cipher_matches_the_published_vector() {
    // key and register are the same bytes here, as the protocol has it
    let secret = [0x42u8; 16];
    let mut a = Encryption::new(&secret).unwrap();
    let mut b = Encryption::new(&secret).unwrap();
    let plain = b"hello world! this is my plaintext.".to_vec();
    let mut once = plain.clone();
    a.encrypt(&mut once);
    assert_ne!(once, plain);
    // in pieces, through a second instance
    let mut first = plain[..7].to_vec();
    let mut second = plain[7..].to_vec();
    b.encrypt(&mut first);
    b.encrypt(&mut second);
    first.extend_from_slice(&second);
    assert_eq!(first, once);
    let mut back = once.clone();
    b.decrypt(&mut back);
    assert_eq!(back, plain);
}

#[test]
fn cipher_refuses_a_secret_of_the_wrong_length() {
    assert!(Encryption::new(&[0u8; 15]).is_err());
    assert!(Encryption::new(&[0u8; 17]).is_err());
    assert!(Encryption::new(&[]).is_err());
    assert!(Encryption::new(&[0u8; 16]).is_ok());
}

#[test]
fn packing_deflates_only_over_the_threshold() {
    let body = vec![7u8; 300];
    let packed = pack(&body, 256);
    assert_eq!(&packed[..2], &[0xac, 0x02]);
    assert!(packed.len() < body.len());
    assert_eq!(unpack(&packed), Ok(body.clone()));
    let small = vec![7u8; 256];
    let packed = pack(&small, 256);
    assert_eq!(packed[0], 0);
    assert_eq!(&packed[1..], &small[..]);
    assert_eq!(unpack(&packed), Ok(small));
}

#[test]
fn unpacking_refuses_a_wrong_declared_length() {
    let body = vec![7u8; 300];
    let mut packed = pack(&body, 256);
    packed[0] = 0xad;
    assert_eq!(unpack(&packed), Err(FrameError::BadCompression));
    assert_eq!(unpack(&[0x05, 1, 2, 3]), Err(FrameError::BadCompression));
    assert_eq!(unpack(&[0x80]), Err(FrameError::Malformed));
}

#[test]
fn frames_come_out_whole_however_the_bytes_arrive() {
    let mut sender = Connection::new();
    let first = sender.frame(&[0x00, 0x2f, 0x09]).unwrap();
    let second = sender.frame(&[0x01, 1, 2, 3, 4, 5, 6, 7, 8]).unwrap();
    let mut wire = first.clone();
    wire.extend_from_slice(&second);

    let mut whole = Connection::new();
    whole.feed(&wire);
    assert_eq!(whole.poll(), Ok(Some(vec![0x00, 0x2f, 0x09])));
    assert_eq!(whole.poll(), Ok(Some(vec![0x01, 1, 2, 3, 4, 5, 6, 7, 8])));
    assert_eq!(whole.poll(), Ok(None));

    let mut pieces = Connection::new();
    let mut got = Vec::new();
    for byte in &wire {
        pieces.feed(&[*byte]);
        while let Some(body) = pieces.poll().unwrap() {
            got.push(body);
        }
    }
    assert_eq!(got, vec![vec![0x00, 0x2f, 0x09], vec![0x01, 1, 2, 3, 4, 5, 6, 7, 8]]);
}

#[test]
fn frames_pass_through_cipher_and_compression() {
    let secret = [9u8; 16];
    let mut sender = Connection::new();
    let mut receiver = Connection::new();
    sender.enable_encryption(&secret).unwrap();
    receiver.enable_encryption(&secret).unwrap();
    sender.set_threshold(Some(64));
    receiver.set_threshold(Some(64));
    let small = vec![1u8, 2, 3];
    let large: Vec<u8> = (0..1000u32).map(|i| (i % 7) as u8).collect();
    let mut wire = sender.frame(&small).unwrap();
    wire.extend_from_slice(&sender.frame(&large).unwrap());
    let (a, b) = wire.split_at(wire.len() / 2);
    receiver.feed(a);
    assert_eq!(receiver.poll(), Ok(Some(small)));
    assert_eq!(receiver.poll(), Ok(None));
    receiver.feed(b);
    assert_eq!(receiver.poll(), Ok(Some(large)));
    assert_eq!(receiver.poll(), Ok(None));
}

#[test]
fn var_int_de_ser() {
    let x: i32 = 42949;
    let y: isize = isize::MAX;
    let z: u128 = 455434355;

    let mut wire = Vec::new();
    troad::var_int::encode_i32(x, &mut wire);
    troad::var_int::encode_usize(y as usize, &mut wire);
    encode_u64(z as u64, &mut wire);

    let (a, got_x) = troad::var_int::decode_i32(&wire).unwrap();
    let (b, got_y) = troad::var_int::decode_usize(&wire[a..]).unwrap();
    let (c, got_z) = decode_u64(&wire[a + b..]).unwrap();
    assert_eq!((got_x, got_y as isize, got_z as u128), (x, y, z));
    assert_eq!(a + b + c, wire.len());
}

#[test]
fn var_int_keeps_the_bit_pattern_of_negative_numbers() {
    let mut wire = Vec::new();
    troad::var_int::encode_i32(-1, &mut wire);
    assert_eq!(wire, vec![0xff, 0xff, 0xff, 0xff, 0x0f]);
    assert_eq!(troad::var_int::decode_i32(&wire), Ok((5, -1)));
    let mut wire = Vec::new();
    troad::var_int::encode_i64(i64::MIN, &mut wire);
    assert_eq!(wire.len(), 10);
    assert_eq!(troad::var_int::decode_i64(&wire), Ok((10, i64::MIN)));
    assert_eq!(troad::var_int::encoded_len(u64::MAX), 10);
    assert_eq!(troad::var_int::encoded_len(127), 1);
    assert_eq!(troad::var_int::encoded_len(128), 2);
}

#[test]
fn var_int_takes_only_its_own_bytes() {
    assert_eq!(decode_u32(&[0xac, 0x02, 0xff, 0xff]), Ok((2, 300)));
    // a longer spelling of a small number is taken as well
    assert_eq!(decode_u32(&[0x80, 0x00]), Ok((2, 0)));
}

#[test]
fn cipher_agrees_with_the_cipher_crate() {
    let secret = [0x24u8; 16];
    let plain = b"hello world! this is my plaintext.".to_vec();
    let mut expected = plain.clone();
    cfb8::Encryptor::<aes::Aes128>::new(&secret.into(), &secret.into()).encrypt(&mut expected);
    let mut ours = plain.clone();
    Encryption::new(&secret).unwrap().encrypt(&mut ours);
    assert_eq!(ours, expected);

    // decryption in pieces of any size
    let mut receiver = Encryption::new(&secret).unwrap();
    let mut got = Vec::new();
    for piece in expected.chunks(5) {
        let mut piece = piece.to_vec();
        receiver.decrypt(&mut piece);
        got.extend_from_slice(&piece);
    }
    assert_eq!(got, plain);
}

#[test]
fn cipher_handles_every_length() {
    for len in 0..40usize {
        let secret = [len as u8; 16];
        let plain: Vec<u8> = (0..len).map(|i| (i * 3) as u8).collect();
        let mut a = Encryption::new(&secret).unwrap();
        let mut b = Encryption::new(&secret).unwrap();
        let mut first = plain.clone();
        let mut second = plain.clone();
        a.encrypt(&mut first);
        b.encrypt(&mut second);
        assert_eq!(first, second);
        assert_eq!(first.len(), len);
        b.decrypt(&mut first);
        assert_eq!(first, plain);
    }
}

#[test]
fn packing_agrees_with_the_compression_crate() {
    let body: Vec<u8> = (0..5000u32).map(|i| (i % 13) as u8).collect();
    let packed = pack(&body, 100);
    let (prefix, declared) = decode_u32(&packed).unwrap();
    assert_eq!(declared as usize, body.len());
    let mut inflated = Vec::new();
    flate2::read::ZlibDecoder::new(&packed[prefix..]).read_to_end(&mut inflated).unwrap();
    assert_eq!(inflated, body);
}

#[test]
fn the_threshold_itself_is_not_deflated() {
    for (len, deflated) in [(0usize, false), (63, false), (64, false), (65, true), (1000, true)] {
        let body = vec![3u8; len];
        let packed = pack(&body, 64);
        let (prefix, declared) = decode_u32(&packed).unwrap();
        assert_eq!(declared != 0, deflated);
        if deflated {
            assert_eq!(declared as usize, len);
        } else {
            assert_eq!(&packed[prefix..], &body[..]);
        }
        assert_eq!(unpack(&packed), Ok(body));
    }
}

#[test]
fn bytes_fed_in_any_pieces_give_the_same_packets() {
    let mut sender = Connection::new();
    sender.enable_encryption(&[1u8; 16]).unwrap();
    sender.set_threshold(Some(16));
    let bodies: Vec<Vec<u8>> =
        (0..6u8).map(|i| (0..(i as usize * 37)).map(|j| (j as u8) ^ i).collect()).collect();
    let mut wire = Vec::new();
    for body in &bodies {
        wire.extend_from_slice(&sender.frame(body).unwrap());
    }
    for size in [1usize, 2, 3, 7, 64, wire.len()] {
        let mut receiver = Connection::new();
        receiver.enable_encryption(&[1u8; 16]).unwrap();
        receiver.set_threshold(Some(16));
        let mut got = Vec::new();
        for piece in wire.chunks(size) {
            receiver.feed(piece);
            while let Some(body) = receiver.poll().unwrap() {
                got.push(body);
            }
        }
        assert_eq!(got, bodies);
        assert_eq!(receiver.pending_len(), 0);
    }
}

#[test]
fn unpacking_refuses_a_length_over_the_limit() {
    let mut payload = Vec::new();
    encode_u64(troad::compress::MAX_BODY_LEN as u64 + 1, &mut payload);
    payload.extend_from_slice(&[1, 2, 3]);
    assert_eq!(unpack(&payload), Err(FrameError::TooLarge));
}

#[test]
fn a_frame_over_the_limit_is_refused_before_it_is_waited_for() {
    let mut receiver = Connection::new();
    let mut length = Vec::new();
    encode_u64(troad::compress::MAX_BODY_LEN as u64 + 1, &mut length);
    receiver.feed(&length);
    assert_eq!(receiver.poll(), Err(FrameError::TooLarge));
    let mut receiver = Connection::new();
    receiver.feed(&[0x80, 0x80, 0x80, 0x80, 0x80]);
    assert_eq!(receiver.poll(), Err(FrameError::Malformed));
    let mut sender = Connection::new();
    let body = vec![0u8; troad::compress::MAX_BODY_LEN + 1];
    assert_eq!(sender.frame(&body), Err(FrameError::TooLarge));
}

#[test]
fn a_length_split_across_reads_is_put_together() {
    let body = vec![5u8; 300];
    let mut sender = Connection::new();
    let wire = sender.frame(&body).unwrap();
    assert_eq!(&wire[..2], &[0xac, 0x02]);
    let mut receiver = Connection::new();
    receiver.feed(&wire[..1]);
    assert_eq!(receiver.poll(), Ok(None));
    receiver.feed(&wire[1..100]);
    assert_eq!(receiver.poll(), Ok(None));
    assert_eq!(receiver.pending_len(), 100);
    receiver.feed(&wire[100..]);
    assert_eq!(receiver.poll(), Ok(Some(body)));
    assert_eq!(receiver.pending_len(), 0);
}

#[test]
fn turning_compression_on_announces_it_in_the_old_format() {
    let mut sender = Connection::new();
    let announced = sender.set_compression(Some(256)).unwrap().unwrap();
    // length 3, packet id 3, threshold 256
    assert_eq!(announced, vec![0x03, 0x03, 0x80, 0x02]);
    assert_eq!(sender.compression_threshold(), Some(256));
    let next = sender.frame(&[0x02, 0x01]).unwrap();
    // length 3, not deflated, then the body
    assert_eq!(next, vec![0x03, 0x00, 0x02, 0x01]);
    assert_eq!(sender.set_compression(None), Ok(None));
    assert_eq!(sender.compression_threshold(), None);
}

#[test]
fn sha1_digests_of_several_parts_are_those_of_the_whole() {
    let whole = sha1_notchian_hexdigest("Notch");
    let parts = troad::sha1::sha1_notchian_hexdigest_arr(&[b"No", b"", b"tch"]);
    assert_eq!(whole, parts);
    assert_eq!(troad::sha1::notchian_hexdigest(&[0u8; 20]), "0");
    let mut one = [0u8; 20];
    one[19] = 1;
    assert_eq!(hex_digest(one), "1");
    assert_eq!(hex_digest([0xff; 20]), "-1");
    let mut least = [0u8; 20];
    least[0] = 0x80;
    assert_eq!(hex_digest(least), "-8000000000000000000000000000000000000000");
    assert_eq!(troad::sha1::notchian_hexdigest(&least), "-8000000000000000000000000000000000000000");
}
