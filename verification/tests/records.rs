use troad::de::{Deserializer, Slice};
use troad::err::Error;
use troad::handshake;
use troad::handshake::{Handshake, LegacyServerListPing};
use troad::login;
use troad::login::{
    EncryptionRequest, EncryptionResponse, LoginStart, LoginSuccess, SetCompression,
};
use troad::packets::{
    ClientSettings, Description, Header, HeldItemChange, JoinGame, Ping, PlayersStatus,
    PluginMessage, ServerDifficulty, SpawnPosition, Status, StringPck, TimeUpdate, VarInt,
    VersionInfo,
};
use troad::ser::Serializer;
use troad::state::State;
use troad::status;
use troad::wire::{from_slice, to_vec, to_vec_with_id, to_vec_with_size, Wire};

fn handshake_bytes() -> Vec<u8> {
    let mut bytes = vec![0x00, 0x2f, 0x09];
    bytes.extend_from_slice(b"localhost");
    bytes.extend_from_slice(&[0x63, 0xdd, 0x01]);
    bytes
}

#[test]
fn primitives_are_written_big_endian_without_padding() {
    let mut s = Serializer::new();
    s.serialize_bool(true);
    s.serialize_bool(false);
    s.serialize_u8(0xab);
    s.serialize_i8(-2);
    s.serialize_u16(0x1234);
    s.serialize_i16(-2);
    s.serialize_u32(0xdead_beef);
    s.serialize_i32(-2);
    s.serialize_u64(0x0102_0304_0506_0708);
    s.serialize_i64(-2);
    assert_eq!(s.len(), 32);
    let bytes = s.output();
    assert_eq!(
        bytes,
        vec![
            0x01, 0x00, 0xab, 0xfe, 0x12, 0x34, 0xff, 0xfe, 0xde, 0xad, 0xbe, 0xef, 0xff, 0xff,
            0xff, 0xfe, 0x01, 0x02, 0x03, 0x04, 0x05, 0x06, 0x07, 0x08, 0xff, 0xff, 0xff, 0xff,
            0xff, 0xff, 0xff, 0xfe,
        ]
    );
    let mut d = Deserializer::from_slice(&bytes);
    assert_eq!(d.deserialize_bool(), Ok(true));
    assert_eq!(d.deserialize_bool(), Ok(false));
    assert_eq!(d.deserialize_u8(), Ok(0xab));
    assert_eq!(d.deserialize_i8(), Ok(-2));
    assert_eq!(d.deserialize_u16(), Ok(0x1234));
    assert_eq!(d.deserialize_i16(), Ok(-2));
    assert_eq!(d.deserialize_u32(), Ok(0xdead_beef));
    assert_eq!(d.deserialize_i32(), Ok(-2));
    assert_eq!(d.deserialize_u64(), Ok(0x0102_0304_0506_0708));
    assert_eq!(d.deserialize_i64(), Ok(-2));
    assert_eq!(d.size(), 0);
    assert_eq!(d.consumed(), 32);
}

#[test]
fn extreme_values_round_trip() {
    let mut s = Serializer::new();
    s.serialize_i8(i8::MIN);
    s.serialize_i16(i16::MIN);
    s.serialize_i32(i32::MIN);
    s.serialize_i64(i64::MIN);
    s.serialize_i64(i64::MAX);
    s.serialize_u64(u64::MAX);
    s.serialize_var_i32(i32::MIN);
    s.serialize_var_u64(u64::MAX);
    s.serialize_var_usize(usize::MAX);
    let bytes = s.output();
    let mut d = Deserializer::from_slice(&bytes);
    assert_eq!(d.deserialize_i8(), Ok(i8::MIN));
    assert_eq!(d.deserialize_i16(), Ok(i16::MIN));
    assert_eq!(d.deserialize_i32(), Ok(i32::MIN));
    assert_eq!(d.deserialize_i64(), Ok(i64::MIN));
    assert_eq!(d.deserialize_i64(), Ok(i64::MAX));
    assert_eq!(d.deserialize_u64(), Ok(u64::MAX));
    assert_eq!(d.deserialize_var_i32(), Ok(i32::MIN));
    assert_eq!(d.deserialize_var_u64(), Ok(u64::MAX));
    assert_eq!(d.deserialize_var_usize(), Ok(usize::MAX));
    assert_eq!(d.size(), 0);
}

#[test]
fn any_byte_but_zero_reads_as_true() {
    let mut d = Deserializer::from_slice(&[0x02, 0xff, 0x00]);
    assert_eq!(d.deserialize_bool(), Ok(true));
    assert_eq!(d.deserialize_bool(), Ok(true));
    assert_eq!(d.deserialize_bool(), Ok(false));
    assert_eq!(d.deserialize_bool(), Err(Error::Eof));
}

#[test]
fn strings_and_bytes_carry_their_length() {
    let mut s = Serializer::new();
    s.serialize_str("héllo");
    s.serialize_bytes(&[1, 2, 3]);
    s.serialize_char('é');
    s.serialize_unit_variant(300);
    s.serialize_none();
    s.serialize_unit();
    let bytes = s.output();
    assert_eq!(
        bytes,
        vec![0x06, b'h', 0xc3, 0xa9, b'l', b'l', b'o', 0x03, 1, 2, 3, 0xc3, 0xa9, 0xac, 0x02]
    );
    let mut d = Deserializer::from_slice(&bytes);
    assert_eq!(d.deserialize_str(), Ok("héllo"));
    assert_eq!(d.deserialize_byte_buf(), Ok(vec![1, 2, 3]));
    assert_eq!(d.try_take_n(2), Ok(&[0xc3u8, 0xa9][..]));
    assert_eq!(d.deserialize_identifier(), Ok(300));
    assert_eq!(d.rest(), &[] as &[u8]);
}

#[test]
fn a_failed_read_takes_nothing() {
    // a string that announces more bytes than there are
    let bytes = [0x05, b'a', b'b'];
    let mut d = Deserializer::from_slice(&bytes);
    assert_eq!(d.deserialize_string(), Err(Error::Eof));
    assert_eq!(d.size(), 3);
    // bytes that are no text
    let bytes = [0x02, 0xff, 0xfe, 0x07];
    let mut d = Deserializer::from_slice(&bytes);
    assert_eq!(d.deserialize_string(), Err(Error::BadUtf8Input));
    assert_eq!(d.size(), 4);
    assert_eq!(d.deserialize_bytes(), Ok(&[0xffu8, 0xfe][..]));
    assert_eq!(d.deserialize_u16(), Err(Error::Eof));
    assert_eq!(d.size(), 1);
    assert_eq!(d.try_take_n(2), Err(Error::Eof));
    assert_eq!(d.deserialize_u8(), Ok(7));
    // a variable-length integer that goes on for too long, or not long enough
    let mut d = Deserializer::from_slice(&[0xff, 0xff, 0xff, 0xff, 0xff, 0x01]);
    assert_eq!(d.deserialize_var_u32(), Err(Error::Overflow));
    assert_eq!(d.size(), 6);
    let mut d = Deserializer::from_slice(&[0xff, 0xff]);
    assert_eq!(d.deserialize_var_u32(), Err(Error::Eof));
    assert_eq!(d.deserialize_var_u64(), Err(Error::Eof));
    assert_eq!(d.size(), 2);
}

#[test]
fn the_cursor_never_goes_past_the_end() {
    let bytes = [1u8, 2, 3, 4, 5];
    let mut cursor = Slice::new(&bytes);
    assert_eq!(cursor.size(), 5);
    assert_eq!(cursor.try_take_n(2), Ok(&[1u8, 2][..]));
    assert_eq!(cursor.consumed(), 2);
    assert_eq!(cursor.try_take_n_exact::<2>(), Ok([3u8, 4]));
    assert_eq!(cursor.try_take_n_exact::<2>(), Err(Error::Eof));
    assert_eq!(cursor.try_take_n(2), Err(Error::Eof));
    assert_eq!(cursor.size(), 1);
    assert_eq!(cursor.rest(), &[5u8][..]);
    assert_eq!(cursor.try_take_n(0), Ok(&[][..]));
    assert_eq!(cursor.try_take_n_exact::<1>(), Ok([5u8]));
    assert_eq!(cursor.size(), 0);
    cursor.rewind(9);
    assert_eq!(cursor.size(), 0);
    cursor.rewind(1);
    assert_eq!(cursor.size(), 4);
    assert_eq!(cursor.try_take_n(4), Ok(&[2u8, 3, 4, 5][..]));
}

#[test]
fn errors_say_what_went_wrong() {
    assert_eq!(Error::Eof.message(), "unexpected end of input");
    assert_eq!(Error::UnexpectedEof(12, 3).message(), "unexpected end of input (12, 3)");
    assert_eq!(Error::BadUtf8Input.message(), "bad utf-8 input");
    assert_eq!(Error::Message(String::from("custom")).message(), "custom");
    assert_eq!(Error::UnknownVariant(7).message(), "unknown variant 7");
    assert_eq!(Error::Overflow.message(), "var int is too long");
}

#[test]
fn the_handshake_has_the_documented_bytes() {
    let packet = handshake::ServerBound::Handshake(Handshake {
        protocol_version: 47,
        server_address: String::from("localhost"),
        server_port: 25565,
        next_state: State::Status,
    });
    assert_eq!(to_vec(&packet), handshake_bytes());
    let mut framed = vec![0x0f];
    framed.extend_from_slice(&handshake_bytes());
    assert_eq!(to_vec_with_size(&packet), framed);

    let (read, handshake::ServerBound::Handshake(back)) =
        from_slice::<handshake::ServerBound>(&handshake_bytes()).unwrap();
    assert_eq!(read, 15);
    assert_eq!(back.protocol_version, 47);
    assert_eq!(back.server_address, "localhost");
    assert_eq!(back.server_port, 25565);
    assert_eq!(back.next_state, State::Status);
}

#[test]
fn from_slice_says_where_the_next_record_starts() {
    let mut bytes = handshake_bytes();
    let first_len = bytes.len();
    bytes.extend_from_slice(&[0x01, 0, 0, 0, 0, 0, 0, 0, 42]);
    let (read, _) = from_slice::<handshake::ServerBound>(&bytes).unwrap();
    assert_eq!(read, first_len);
    let (read, ping) = from_slice::<status::ServerBound>(&bytes[read..]).unwrap();
    assert_eq!(read, 9);
    assert!(matches!(ping, status::ServerBound::Ping(42)));
}

#[test]
fn a_truncated_or_unknown_record_is_an_error() {
    let bytes = handshake_bytes();
    for cut in 0..bytes.len() {
        let mut d = Deserializer::from_slice(&bytes[..cut]);
        assert!(matches!(handshake::ServerBound::decode(&mut d), Err(Error::Eof)));
        assert_eq!(d.size(), cut);
    }
    assert!(matches!(
        from_slice::<handshake::ServerBound>(&[0x01, 0x00]),
        Err(Error::UnknownVariant(1))
    ));
    assert!(matches!(from_slice::<status::ServerBound>(&[0x02]), Err(Error::UnknownVariant(2))));
    assert!(matches!(from_slice::<State>(&[0x04]), Err(Error::UnknownVariant(4))));
    let mut bad = handshake_bytes();
    let last = bad.len() - 1;
    bad[last] = 0x09;
    assert!(matches!(
        from_slice::<handshake::ServerBound>(&bad),
        Err(Error::UnknownVariant(9))
    ));
}

#[test]
fn states_travel_as_their_place_in_the_list() {
    for (state, index) in
        [(State::Handshaking, 0u8), (State::Status, 1), (State::Login, 2), (State::Play, 3)]
    {
        assert_eq!(to_vec(&state), vec![index]);
        assert_eq!(from_slice::<State>(&[index]).unwrap(), (1, state));
    }
    assert_eq!(State::from(0), State::Play);
    assert_eq!(State::from(1), State::Status);
    assert_eq!(State::from(2), State::Login);
    assert_eq!(State::from(-3), State::Handshaking);
    assert_eq!(State::requested(7), State::Handshaking);
    assert!(State::Handshaking.may_follow(State::Login));
    assert!(State::Handshaking.may_follow(State::Status));
    assert!(State::Login.may_follow(State::Play));
    assert!(!State::Play.may_follow(State::Login));
    assert!(!State::Status.may_follow(State::Login));
    assert!(!State::Handshaking.may_follow(State::Play));
}

#[test]
fn status_packets_round_trip() {
    assert_eq!(to_vec(&status::ServerBound::Request), vec![0x00]);
    assert_eq!(
        to_vec(&status::ServerBound::Ping(0x0102_0304_0506_0708)),
        vec![0x01, 1, 2, 3, 4, 5, 6, 7, 8]
    );
    let response = to_vec(&status::ClientBound::Response(String::from("{}")));
    assert_eq!(response, vec![0x00, 0x02, b'{', b'}']);
    let (read, back) = from_slice::<status::ClientBound>(&response).unwrap();
    assert_eq!(read, 4);
    assert!(matches!(back, status::ClientBound::Response(text) if text == "{}"));
    let pong = to_vec(&status::ClientBound::Pong(9));
    let (_, back) = from_slice::<status::ClientBound>(&pong).unwrap();
    assert!(matches!(back, status::ClientBound::Pong(9)));
}

#[test]
fn login_packets_round_trip() {
    let start = to_vec(&login::ServerBound::LoginStart(LoginStart { name: String::from("Notch") }));
    assert_eq!(start, vec![0x00, 0x05, b'N', b'o', b't', b'c', b'h']);
    let (_, back) = from_slice::<login::ServerBound>(&start).unwrap();
    assert!(matches!(back, login::ServerBound::LoginStart(s) if s.name == "Notch"));

    let response = to_vec(&login::ServerBound::EncryptionResponse(EncryptionResponse {
        shared_secret: vec![1, 2, 3],
        verify_token: vec![4, 5],
    }));
    assert_eq!(response, vec![0x01, 0x03, 1, 2, 3, 0x02, 4, 5]);
    let (read, back) = from_slice::<login::ServerBound>(&response).unwrap();
    assert_eq!(read, 8);
    assert!(matches!(
        back,
        login::ServerBound::EncryptionResponse(r)
            if r.shared_secret == vec![1, 2, 3] && r.verify_token == vec![4, 5]
    ));

    let request = to_vec(&login::ClientBound::EncryptionRequest(EncryptionRequest {
        server_id: String::new(),
        public_key: vec![9; 3],
        verify_token: vec![8; 2],
    }));
    assert_eq!(request, vec![0x01, 0x00, 0x03, 9, 9, 9, 0x02, 8, 8]);
    let (_, back) = from_slice::<login::ClientBound>(&request).unwrap();
    assert!(matches!(
        back,
        login::ClientBound::EncryptionRequest(r)
            if r.server_id.is_empty() && r.public_key == vec![9; 3] && r.verify_token == vec![8; 2]
    ));

    let success = to_vec(&login::ClientBound::LoginSuccess(LoginSuccess {
        uuid: String::from("u"),
        username: String::from("n"),
    }));
    assert_eq!(success, vec![0x02, 0x01, b'u', 0x01, b'n']);
    let (_, back) = from_slice::<login::ClientBound>(&success).unwrap();
    assert!(matches!(back, login::ClientBound::LoginSuccess(s) if s.uuid == "u" && s.username == "n"));

    let compression =
        to_vec(&login::ClientBound::SetCompression(SetCompression { threshold: 256 }));
    assert_eq!(compression, vec![0x03, 0x80, 0x02]);
    let (_, back) = from_slice::<login::ClientBound>(&compression).unwrap();
    assert!(matches!(back, login::ClientBound::SetCompression(s) if s.threshold == 256));

    let disconnect = to_vec(&login::ClientBound::Disconnect(String::from("bye")));
    assert_eq!(disconnect, vec![0x00, 0x03, b'b', b'y', b'e']);
    let (_, back) = from_slice::<login::ClientBound>(&disconnect).unwrap();
    assert!(matches!(back, login::ClientBound::Disconnect(s) if s == "bye"));
}

#[test]
fn play_payloads_round_trip() {
    let join = JoinGame {
        entity_id: -7,
        game_mode: 1,
        dimension: -1,
        difficulty: 2,
        max_players: 100,
        level_type: String::from("flat"),
        reduced_debug_info: true,
    };
    let bytes = to_vec(&join);
    assert_eq!(
        bytes,
        vec![0xff, 0xff, 0xff, 0xf9, 0x01, 0xff, 0x02, 100, 0x04, b'f', b'l', b'a', b't', 0x01]
    );
    let (read, back) = from_slice::<JoinGame>(&bytes).unwrap();
    assert_eq!(read, bytes.len());
    assert_eq!(back.entity_id, -7);
    assert_eq!(back.dimension, -1);
    assert_eq!(back.level_type, "flat");
    assert!(back.reduced_debug_info);

    let settings = ClientSettings {
        locale: String::from("en_GB"),
        view_distance: 8,
        chat_mode: 0,
        chat_colors: true,
        displayed_skin_parts: 0x7f,
    };
    let bytes = to_vec(&settings);
    let (_, back) = from_slice::<ClientSettings>(&bytes).unwrap();
    assert_eq!(back.locale, "en_GB");
    assert_eq!(back.view_distance, 8);
    assert!(back.chat_colors);
    assert_eq!(back.displayed_skin_parts, 0x7f);

    let message = PluginMessage { channel: String::from("MC|Brand"), data: b"troad".to_vec() };
    let bytes = to_vec(&message);
    assert_eq!(bytes[0], 8);
    assert_eq!(&bytes[9..], &[5, b't', b'r', b'o', b'a', b'd']);
    let (_, back) = from_slice::<PluginMessage>(&bytes).unwrap();
    assert_eq!(back.channel, "MC|Brand");
    assert_eq!(back.data, b"troad");

    let time = TimeUpdate { world_age: 1, time_of_day: -1 };
    let (_, back) = from_slice::<TimeUpdate>(&to_vec(&time)).unwrap();
    assert_eq!((back.world_age, back.time_of_day), (1, -1));
    let (_, back) =
        from_slice::<ServerDifficulty>(&to_vec(&ServerDifficulty { difficulty: 3 })).unwrap();
    assert_eq!(back.difficulty, 3);
    let (_, back) =
        from_slice::<SpawnPosition>(&to_vec(&SpawnPosition { location: u64::MAX })).unwrap();
    assert_eq!(back.location, u64::MAX);
    let (_, back) = from_slice::<HeldItemChange>(&to_vec(&HeldItemChange { slot: -1 })).unwrap();
    assert_eq!(back.slot, -1);
    let (_, back) = from_slice::<Ping>(&to_vec(&Ping { value: i64::MIN })).unwrap();
    assert_eq!(back.value, i64::MIN);
    let (_, back) =
        from_slice::<StringPck>(&to_vec(&StringPck { str: String::from("x") })).unwrap();
    assert_eq!(back.str, "x");
    let (_, back) = from_slice::<LegacyServerListPing>(&[0x01]).unwrap();
    assert_eq!(back.payload, 1);
}

#[test]
fn the_header_is_two_variable_length_integers() {
    let header = Header { len: VarInt(300), id: VarInt(0x15) };
    let bytes = to_vec(&header);
    assert_eq!(bytes, vec![0xac, 0x02, 0x15]);
    let (read, back) = from_slice::<Header>(&bytes).unwrap();
    assert_eq!(read, 3);
    assert_eq!((back.len, back.id), (VarInt(300), VarInt(0x15)));
    assert_eq!(to_vec(&VarInt(-1)), vec![0xff, 0xff, 0xff, 0xff, 0x0f]);
    assert_eq!(to_vec_with_id(0x15, &VarInt(300)), vec![0x15, 0xac, 0x02]);
    assert_eq!(from_slice::<VarInt>(&[0xff, 0xff, 0xff, 0xff, 0x0f]).unwrap(), (5, VarInt(-1)));
}

#[test]
fn the_status_is_valid_json() {
    let status = Status {
        version: VersionInfo { name: String::from("Troad 1.8.x"), protocol: 47 },
        players: PlayersStatus { max: 1, online: 0 },
        description: Description { text: String::from("unfortunate") },
    };
    let json = status.json();
    assert_eq!(
        json,
        "{\"version\":{\"name\":\"Troad 1.8.x\",\"protocol\":47},\"players\":{\"max\":1,\"online\":0},\"description\":{\"text\":\"unfortunate\"}}"
    );
    let value: serde_json::Value = serde_json::from_str(&json).unwrap();
    assert_eq!(value["version"]["protocol"], 47);
    assert_eq!(value["players"]["max"], 1);
    assert_eq!(value["description"]["text"], "unfortunate");
}
