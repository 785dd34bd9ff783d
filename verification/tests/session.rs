use rsa::pkcs8::DecodePublicKey;
use troad::auth::{classify, has_joined_url, Answer, PlayerAuthenticationStatus};
use troad::chat::{is_link, Chat, Color};
use troad::key_pool::{generate_key, key_pair, DecryptRsa, RsaKeyPool};
use troad::login;
use troad::net::{Connection, RecvError};
use troad::packets::{Description, PlayersStatus, Status, VersionInfo};
use troad::session::{handle_event, Action, Event, LoginPhase, Session};
use troad::state::State;
use troad::status;
use troad::text::decimal;
use troad::wire::from_slice;

fn status_json() -> String {
    Status {
        version: VersionInfo { name: String::from("Troad 1.8.x"), protocol: 47 },
        players: PlayersStatus { max: 20, online: 0 },
        description: Description { text: String::from("unfortunate") },
    }
    .json()
}

fn handshake_frame(next_state: u8) -> Vec<u8> {
    let mut bytes = vec![0x0f, 0x00, 0x2f, 0x09];
    bytes.extend_from_slice(b"localhost");
    bytes.extend_from_slice(&[0x63, 0xdd, next_state]);
    bytes
}

fn login_start_frame(name: &str) -> Vec<u8> {
    let mut bytes = vec![(name.len() + 2) as u8, 0x00, name.len() as u8];
    bytes.extend_from_slice(name.as_bytes());
    bytes
}

#[test]
fn scenario_handshake() {
    let mut session = Session::new(false, None, status_json());
    assert_eq!(session.state(), State::Handshaking);
    let actions = handle_event(&mut session, Event::Received(handshake_frame(1)));
    assert!(actions.is_empty());
    assert_eq!(session.state(), State::Status);
    assert!(!session.is_closed());
}

#[test]
fn scenario_status_ping() {
    let mut session = Session::new(false, None, status_json());
    handle_event(&mut session, Event::Received(handshake_frame(1)));
    let actions = handle_event(&mut session, Event::Received(vec![0x01, 0x00]));
    assert_eq!(actions.len(), 1);
    let Action::Send(wire) = &actions[0] else { panic!("expected bytes to send") };

    // exactly one frame, with packet id 0 and a JSON string
    let mut client = Connection::new();
    client.feed(wire);
    let body = client.poll().unwrap().unwrap();
    assert_eq!(client.pending_len(), 0);
    assert_eq!(body[0], 0x00);
    let (read, answer) = from_slice::<status::ClientBound>(&body).unwrap();
    assert_eq!(read, body.len());
    let status::ClientBound::Response(json) = answer else { panic!("expected a response") };
    assert!(json.contains("\"protocol\":47"));
    let value: serde_json::Value = serde_json::from_str(&json).unwrap();
    assert_eq!(value["version"]["protocol"], 47);

    // the ping comes back as it went, and ends the connection
    let ping = vec![0x09, 0x01, 1, 2, 3, 4, 5, 6, 7, 8];
    let actions = handle_event(&mut session, Event::Received(ping.clone()));
    assert_eq!(actions.len(), 2);
    assert!(matches!(&actions[0], Action::Send(wire) if wire == &ping));
    assert!(matches!(&actions[1], Action::Close));
    assert!(session.is_closed());
    assert!(handle_event(&mut session, Event::Received(vec![0x01, 0x00])).is_empty());
}

#[test]
fn scenario_login_success() {
    let mut session = Session::new(false, None, status_json());
    handle_event(&mut session, Event::Received(handshake_frame(2)));
    assert_eq!(session.state(), State::Login);
    let actions = handle_event(&mut session, Event::Received(login_start_frame("Notch")));
    assert_eq!(session.state(), State::Play);
    assert_eq!(session.player_name(), "Notch");
    assert_eq!(actions.len(), 2);
    let Action::Send(wire) = &actions[0] else { panic!("expected bytes to send") };
    let mut client = Connection::new();
    client.feed(wire);
    let success = client.recv::<login::ClientBound>().unwrap().unwrap();
    let login::ClientBound::LoginSuccess(success) = success else { panic!("expected success") };
    assert_eq!(success.username, "Notch");
    assert_eq!(success.uuid.len(), 36);
    assert_eq!(success.uuid.matches('-').count(), 4);
    assert!(matches!(
        &actions[1],
        Action::Joined { uuid, username } if *uuid == success.uuid && username == "Notch"
    ));
}

#[test]
fn every_login_without_the_session_server_gets_an_identifier_of_its_own() {
    let login = || {
        let mut session = Session::new(false, None, String::new());
        handle_event(&mut session, Event::Received(handshake_frame(2)));
        let actions = handle_event(&mut session, Event::Received(login_start_frame("Notch")));
        match actions.into_iter().last() {
            Some(Action::Joined { uuid, .. }) => uuid,
            _ => panic!("expected the player to be in"),
        }
    };
    assert_ne!(login(), login());
}

#[test]
fn a_queued_packet_goes_out_framed() {
    let mut session = Session::new(false, None, String::new());
    let actions = handle_event(&mut session, Event::Outbound(vec![0x02, 0x01]));
    assert!(matches!(&actions[..], [Action::Send(wire)] if wire == &vec![0x02, 0x02, 0x01]));
    let actions =
        handle_event(&mut session, Event::Outbound(vec![0; troad::compress::MAX_BODY_LEN + 1]));
    assert!(matches!(&actions[..], [Action::Close]));
    assert!(handle_event(&mut session, Event::Outbound(vec![0x00])).is_empty());
}

#[test]
fn a_login_with_a_given_identifier_has_exact_bytes() {
    let mut session = Session::new(false, None, String::new());
    session.handle(Event::Received(handshake_frame(2)), "x");
    let actions = session.handle(Event::Received(login_start_frame("Notch")), "abc");
    let Action::Send(wire) = &actions[0] else { panic!("expected bytes to send") };
    assert_eq!(wire, &vec![0x0b, 0x02, 0x03, b'a', b'b', b'c', 0x05, b'N', b'o', b't', b'c', b'h']);
}

#[test]
fn packets_in_one_read_are_handled_in_order() {
    let mut session = Session::new(false, None, status_json());
    let mut bytes = handshake_frame(2);
    bytes.extend_from_slice(&login_start_frame("jeb_"));
    bytes.extend_from_slice(&[0x02, 0x00, 0x05]);
    bytes.extend_from_slice(&[0x01, 0x7f]);
    let actions = session.handle(Event::Received(bytes), "id");
    assert_eq!(session.state(), State::Play);
    assert_eq!(actions.len(), 4);
    assert!(matches!(&actions[0], Action::Send(_)));
    assert!(matches!(&actions[1], Action::Joined { .. }));
    assert!(matches!(&actions[2], Action::Dispatch { id: 0, body } if body == &vec![0x05]));
    assert!(matches!(&actions[3], Action::Unhandled { id: 0x7f }));
    assert!(!session.is_closed());
}

#[test]
fn a_handshake_in_pieces_is_the_same_handshake() {
    let frame = handshake_frame(1);
    for cut in 0..frame.len() {
        let mut session = Session::new(false, None, status_json());
        let first = session.handle(Event::Received(frame[..cut].to_vec()), "id");
        assert!(first.is_empty());
        assert_eq!(session.state(), State::Handshaking);
        let second = session.handle(Event::Received(frame[cut..].to_vec()), "id");
        assert!(second.is_empty());
        assert_eq!(session.state(), State::Status);
    }
}

#[test]
fn what_is_not_a_proper_handshake_closes_the_connection() {
    // a handshake that asks for the play state
    let mut session = Session::new(false, None, status_json());
    let actions = session.handle(Event::Received(handshake_frame(3)), "id");
    assert!(matches!(&actions[..], [Action::Close]));
    assert!(session.is_closed());
    assert_eq!(session.state(), State::Handshaking);
    // another packet id
    let mut session = Session::new(false, None, status_json());
    let actions = session.handle(Event::Received(vec![0x01, 0x01]), "id");
    assert!(matches!(&actions[..], [Action::Close]));
    // a legacy ping, however it arrives
    let mut session = Session::new(false, None, status_json());
    let actions = session.handle(Event::Received(vec![0xfe, 0x01, 0xfa, 0x00]), "id");
    assert!(matches!(&actions[..], [Action::Close]));
    let mut session = Session::new(false, None, status_json());
    assert!(session.handle(Event::Received(vec![0xfe, 0x01]), "id").is_empty());
    let actions = session.handle(Event::Received(vec![0xfa]), "id");
    assert!(matches!(&actions[..], [Action::Close]));
    assert!(troad::handshake::is_legacy_ping(&[0xfe, 0x01, 0xfa]));
    assert!(!troad::handshake::is_legacy_ping(&[0xfe, 0x01, 0x00]));
    assert!(!troad::handshake::is_legacy_ping(&[0xfe, 0x01]));
    // a length that never ends
    let mut session = Session::new(false, None, status_json());
    let actions = session.handle(Event::Received(vec![0xff; 5]), "id");
    assert!(matches!(&actions[..], [Action::Close]));
    assert!(session.is_closed());
}

#[test]
fn a_long_handshake_is_no_legacy_ping() {
    // a frame of 254 bytes starts with the first two bytes of the legacy ping
    let address = "a".repeat(247);
    let mut frame = vec![0xfe, 0x01, 0x00, 0x2f, 0xf7, 0x01];
    frame.extend_from_slice(address.as_bytes());
    frame.extend_from_slice(&[0x63, 0xdd, 0x02]);
    assert_eq!(frame.len(), 256);
    let mut session = Session::new(false, None, status_json());
    assert!(session.handle(Event::Received(frame), "id").is_empty());
    assert_eq!(session.state(), State::Login);
}

#[test]
fn a_login_with_compression_announces_the_threshold_first() {
    let mut session = Session::new(false, Some(64), status_json());
    session.handle(Event::Received(handshake_frame(2)), "id");
    let actions = session.handle(Event::Received(login_start_frame("Notch")), "some-id");
    assert_eq!(actions.len(), 3);
    let Action::Send(announcement) = &actions[0] else { panic!("expected bytes to send") };
    assert_eq!(announcement, &vec![0x02, 0x03, 0x40]);
    let Action::Send(success) = &actions[1] else { panic!("expected bytes to send") };
    let mut client = Connection::new();
    client.feed(announcement);
    let set = client.recv::<login::ClientBound>().unwrap().unwrap();
    assert!(matches!(set, login::ClientBound::SetCompression(s) if s.threshold == 64));
    client.set_threshold(Some(64));
    client.feed(success);
    let packet = client.recv::<login::ClientBound>().unwrap().unwrap();
    assert!(matches!(packet, login::ClientBound::LoginSuccess(s) if s.uuid == "some-id"));
    assert_eq!(session.connection().compression_threshold(), Some(64));
    assert_eq!(session.state(), State::Play);
}

#[test]
fn an_online_login_goes_through_key_cipher_and_session_server() {
    let mut session = Session::new(true, None, status_json());
    session.handle(Event::Received(handshake_frame(2)), "unused");
    let actions = session.handle(Event::Received(login_start_frame("Notch")), "unused");
    assert!(matches!(&actions[..], [Action::RequestKey]));
    assert_eq!(session.phase(), LoginPhase::AwaitKey);

    let public_key = vec![0x30, 0x81, 0x9f];
    let token = vec![1, 2, 3, 4];
    let actions = session.handle(
        Event::KeyReady { public_key: public_key.clone(), verify_token: token.clone() },
        "unused",
    );
    let Action::Send(wire) = &actions[0] else { panic!("expected bytes to send") };
    let mut client = Connection::new();
    client.feed(wire);
    let request = client.recv::<login::ClientBound>().unwrap().unwrap();
    assert!(matches!(
        request,
        login::ClientBound::EncryptionRequest(r)
            if r.server_id.is_empty() && r.public_key == public_key && r.verify_token == token
    ));
    assert_eq!(session.phase(), LoginPhase::AwaitResponse);

    // the response carries what the client encrypted with the public key
    let response = client
        .send(&login::ServerBound::EncryptionResponse(login::EncryptionResponse {
            shared_secret: vec![0xaa; 8],
            verify_token: vec![0xbb; 8],
        }))
        .unwrap();
    let actions = session.handle(Event::Received(response), "unused");
    assert!(matches!(
        &actions[..],
        [Action::DecryptRsa { shared_secret, verify_token }]
            if shared_secret == &vec![0xaa; 8] && verify_token == &vec![0xbb; 8]
    ));

    let secret = vec![7u8; 16];
    let actions = session.handle(
        Event::Decrypted { shared_secret: Some(secret.clone()), verify_token: Some(token) },
        "unused",
    );
    let mut hashed = secret.clone();
    hashed.extend_from_slice(&public_key);
    let expected_hash = troad::sha1::notchian_hexdigest(&troad::sha1::sha1(&hashed));
    assert!(matches!(
        &actions[..],
        [Action::Authenticate { username, server_hash }]
            if username == "Notch" && *server_hash == expected_hash
    ));
    assert!(session.connection().is_encrypted());
    client.enable_encryption(&secret).unwrap();

    let actions = session.handle(
        Event::Authenticated(PlayerAuthenticationStatus::Authenticated(String::from(
            "069a79f4-44e9-4726-a5be-fca90e38aaf5",
        ))),
        "unused",
    );
    assert_eq!(actions.len(), 2);
    let Action::Send(wire) = &actions[0] else { panic!("expected bytes to send") };
    client.feed(wire);
    let success = client.recv::<login::ClientBound>().unwrap().unwrap();
    assert!(matches!(
        success,
        login::ClientBound::LoginSuccess(s)
            if s.uuid == "069a79f4-44e9-4726-a5be-fca90e38aaf5" && s.username == "Notch"
    ));
    assert_eq!(session.state(), State::Play);
}

fn session_awaiting_decrypt() -> Session {
    let mut session = Session::new(true, None, status_json());
    session.handle(Event::Received(handshake_frame(2)), "unused");
    session.handle(Event::Received(login_start_frame("Notch")), "unused");
    session.handle(Event::KeyReady { public_key: vec![1], verify_token: vec![9, 9] }, "unused");
    session.handle(Event::Received(vec![0x05, 0x01, 0x01, 0xaa, 0x01, 0xbb]), "unused");
    assert_eq!(session.phase(), LoginPhase::AwaitDecrypt);
    session
}

#[test]
fn a_wrong_verify_token_ends_the_login() {
    let mut session = session_awaiting_decrypt();
    let actions = session.handle(
        Event::Decrypted { shared_secret: Some(vec![7; 16]), verify_token: Some(vec![9, 8]) },
        "unused",
    );
    assert!(matches!(&actions[..], [Action::Close]));
    assert!(session.is_closed());
    assert!(!session.connection().is_encrypted());

    let mut session = session_awaiting_decrypt();
    let actions = session.handle(
        Event::Decrypted { shared_secret: None, verify_token: Some(vec![9, 9]) },
        "unused",
    );
    assert!(matches!(&actions[..], [Action::Close]));

    let mut session = session_awaiting_decrypt();
    let actions = session.handle(
        Event::Decrypted { shared_secret: Some(vec![7; 15]), verify_token: Some(vec![9, 9]) },
        "unused",
    );
    assert!(matches!(&actions[..], [Action::Close]));
}

#[test]
fn what_the_session_server_says_decides_the_login() {
    let ready = || {
        let mut session = session_awaiting_decrypt();
        session.handle(
            Event::Decrypted { shared_secret: Some(vec![7; 16]), verify_token: Some(vec![9, 9]) },
            "unused",
        );
        assert_eq!(session.phase(), LoginPhase::AwaitAuth);
        session
    };
    let read_reason = |wire: &Vec<u8>| {
        let mut client = Connection::new();
        client.enable_encryption(&[7; 16]).unwrap();
        client.feed(wire);
        match client.recv::<login::ClientBound>().unwrap().unwrap() {
            login::ClientBound::Disconnect(reason) => reason,
            _ => panic!("expected a disconnect"),
        }
    };

    let mut session = ready();
    let actions = session
        .handle(Event::Authenticated(PlayerAuthenticationStatus::Unauthenticated), "unused");
    assert!(matches!(&actions[..], [Action::Close]));

    let mut session = ready();
    let actions =
        session.handle(Event::Authenticated(PlayerAuthenticationStatus::ServerError), "unused");
    assert!(matches!(&actions[..], [Action::Send(_), Action::Close]));
    let Action::Send(wire) = &actions[0] else { panic!("expected bytes to send") };
    assert_eq!(read_reason(wire), "{\"text\":\"Authentication server is unavailable.\"}");

    let mut session = ready();
    let actions = session.handle(Event::AuthenticationFailed, "unused");
    let Action::Send(wire) = &actions[0] else { panic!("expected bytes to send") };
    assert_eq!(read_reason(wire), "{\"text\":\"Authentication failure!\"}");
    assert!(session.is_closed());

    // an answer that nothing waits for changes nothing
    let mut session = Session::new(true, None, status_json());
    assert!(session.handle(Event::AuthenticationFailed, "unused").is_empty());
    assert!(session
        .handle(Event::KeyReady { public_key: vec![], verify_token: vec![] }, "unused")
        .is_empty());
    assert!(!session.is_closed());
}

#[test]
fn a_record_of_the_wrong_kind_is_a_decode_error() {
    let mut connection = Connection::new();
    connection.feed(&[0x01, 0x05]);
    assert_eq!(
        connection.recv::<status::ServerBound>().map(|_| ()),
        Err(RecvError::Decode(troad::err::Error::UnknownVariant(5)))
    );
    connection.feed(&[0x01]);
    assert!(matches!(connection.recv::<status::ServerBound>(), Ok(None)));
    let mut connection = Connection::new();
    connection.feed(&[0xff; 5]);
    assert_eq!(
        connection.recv::<status::ServerBound>().map(|_| ()),
        Err(RecvError::Frame(troad::err::FrameError::Malformed))
    );
}

#[test]
fn chat_is_built_piece_by_piece() {
    let chat = Chat::new()
        .text("Hello, world!")
        .bold()
        .color(Color::Pink)
        .text("I am inside you.")
        .reset()
        .obfuscated()
        .text("ALALALALALAL")
        .click_url("https://google.com")
        .underlined()
        .finish();
    assert_eq!(
        chat,
        "{\"text\":\"Hello, world!\",\"bold\":true,\"color\":\"light_purple\",\"extra\":[{\"text\":\"I am inside you.\",\"reset\":true,\"obfuscated\":true},{\"text\":\"ALALALALALAL\",\"clickEvent\":{\"action\":\"open_url\",\"value\":\"https://google.com\"},\"underlined\":true}]}"
    );
    let value: serde_json::Value = serde_json::from_str(&chat).unwrap();
    assert_eq!(value["extra"][1]["text"], "ALALALALALAL");
    assert_eq!(Chat::new().finish(), "{}");
    assert_eq!(Chat::new().color(Color::Black).finish(), "{\"color\":0}");
    assert_eq!(
        Chat::new().italic().strikethrough().space().finish(),
        "{\"italic\":true,\"strikethrough\":true,\"text\":\" \"}"
    );
}

#[test]
fn a_component_takes_one_event_of_each_kind() {
    let chat = Chat::new()
        .click_run_command("/a")
        .click_suggest_command("/b")
        .hover_show_text("one")
        .hover_show_item("two")
        .finish();
    assert_eq!(
        chat,
        "{\"clickEvent\":{\"action\":\"run_command\",\"value\":\"/a\"},\"hoverEvent\":{\"action\":\"show_text\",\"value\":\"one\"}}"
    );
    // each text after the first opens a component, which takes events of its own
    let chat = Chat::new()
        .text("a")
        .click_change_book_page(12)
        .text("b")
        .click_suggest_command("/b")
        .hover_show_entity("e")
        .text("c")
        .hover_show_achievement("a")
        .finish();
    assert_eq!(
        chat,
        "{\"text\":\"a\",\"clickEvent\":{\"action\":\"suggest_command\",\"value\":\"12\"},\"extra\":[{\"text\":\"b\",\"clickEvent\":{\"action\":\"suggest_command\",\"value\":\"/b\"},\"hoverEvent\":{\"action\":\"show_entity\",\"value\":\"e\"}},{\"text\":\"c\",\"hoverEvent\":{\"action\":\"show_achievement\",\"value\":\"a\"}}]}"
    );
    let value: serde_json::Value = serde_json::from_str(&chat).unwrap();
    assert_eq!(value["extra"][1]["hoverEvent"]["value"], "a");
    // a component opened by hand is set off by a comma
    assert_eq!(Chat::new().bold().extra().italic().finish(), "{\"bold\":true,\"extra\":[{\"italic\":true}]}");
    let inner = Chat::new().text("x");
    assert_eq!(
        Chat::new().hover_show_text_chat(inner).finish(),
        "{\"hoverEvent\":{\"action\":\"show_text\",\"value\":\"{\"text\":\"x\"}\"}}"
    );
    assert!(is_link("http://a"));
    assert!(is_link("https"));
    assert!(!is_link("htt"));
    assert!(!is_link("ftp://a"));
    assert_eq!(Color::DarkCyan.name(), "dark_aqua");
    assert_eq!(Color::BrightGreen.name(), "green");
    assert_eq!(Color::White.name(), "white");
}

#[test]
fn numbers_are_written_in_decimal() {
    assert_eq!(decimal(0), "0");
    assert_eq!(decimal(9), "9");
    assert_eq!(decimal(10), "10");
    assert_eq!(decimal(25565), "25565");
    assert_eq!(decimal(u64::MAX), "18446744073709551615");
}

#[test]
fn the_answer_of_the_session_server_is_read_by_its_status() {
    assert_eq!(classify(200), Answer::Profile);
    assert_eq!(classify(204), Answer::Unauthorized);
    assert_eq!(classify(302), Answer::WeirdResponse);
    assert_eq!(classify(404), Answer::Failed);
    assert_eq!(classify(500), Answer::Failed);
    assert_eq!(classify(599), Answer::Failed);
    assert_eq!(classify(600), Answer::WeirdResponse);
    assert_eq!(
        has_joined_url("Notch", "-1a", None),
        "https://sessionserver.mojang.com/session/minecraft/hasJoined?username=Notch&serverId=-1a"
    );
    assert_eq!(
        has_joined_url("Notch", "2b", Some("10.0.0.1")),
        "https://sessionserver.mojang.com/session/minecraft/hasJoined?username=Notch&serverId=2b&ip=10.0.0.1"
    );
}

#[test]
fn keys_leave_the_pool_in_the_order_in_which_they_came() {
    let mut pool = RsaKeyPool::new(4);
    assert_eq!(pool.size(), 4);
    assert_eq!(pool.len(), 0);
    assert!(pool.is_low());
    assert!(pool.try_pop().is_none());
    pool.replenish(Some(1));
    assert!(pool.len() <= 1);
    let key = generate_key().expect("a key pair");
    let der = key.2.clone();
    pool.push(key);
    let len = pool.len();
    let first = if len == 2 { Some(pool.pop()) } else { None };
    let last = pool.pop();
    assert_eq!(last.2, der);
    assert!(first.map_or(true, |k| k.2 != der));
    assert_eq!(pool.len(), 0);

    // an attempt that gave nothing changes nothing; one that gave a key adds it
    pool.put(None);
    assert_eq!(pool.len(), 0);
    assert!(key_pair(last.0.clone(), last.1.clone(), None).is_none());
    pool.put(key_pair(last.0.clone(), last.1.clone(), Some(der.clone())));
    assert_eq!(pool.len(), 1);
    assert_eq!(pool.try_pop().map(|k| k.2), Some(der.clone()));

    // the public key travels as DER and reads back as the same key
    assert!(!der.is_empty());
    assert_eq!(rsa::RsaPublicKey::from_public_key_der(&der).unwrap(), last.0);

    // what was encrypted with the public key decrypts with the private one
    let secret = b"sixteen byte key";
    let encrypted =
        last.0.encrypt(&mut rand::thread_rng(), rsa::Pkcs1v15Encrypt, secret).unwrap();
    assert_eq!(last.1.decrypt_ct(&encrypted), Some(secret.to_vec()));
    assert_eq!(last.1.decrypt_ct(&[1, 2, 3]), None);
}
