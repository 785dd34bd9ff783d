//! Records that travel in packets beside those of the handshake, the status and the login:
//! the packet header, the description of the server, and payloads of the play state.

use crate::bits::{lemma_be_len, lemma_pow256_values, spec_be, spec_twos};
use crate::de::{
    lemma_parse_be_round_trip, lemma_parse_be_signed_round_trip, lemma_parse_bool_round_trip,
    lemma_parse_bytes_round_trip, lemma_parse_str_round_trip, lemma_parse_var_i32_round_trip,
    lemma_skip_concat,
    spec_parse_be, spec_parse_be_signed, spec_parse_bool, spec_parse_bytes, spec_parse_str,
    spec_parse_var_i32, Deserializer,
};
use crate::err::Error;
use crate::ser::{spec_bool, spec_bytes, spec_str, Serializer};
use crate::text::{decimal, spec_decimal};
use crate::var_int::spec_encode;
use crate::wire::Wire;
use vstd::prelude::*;
use vstd::string::*;
use vstd::utf8::encode_utf8;

verus! {

/// A signed 32-bit integer that travels in variable-length form, as its bit
/// pattern.
#[derive(Clone, Copy, Debug, PartialEq, Eq, Structural)]
pub struct VarInt(pub i32);

impl View for VarInt {
    type V = i32;

    open spec fn view(&self) -> i32 {
        self.0
    }
}

impl Wire for VarInt {
    open spec fn spec_valid(v: i32) -> bool {
        true
    }

    open spec fn spec_wire(v: i32) -> Seq<u8> {
        spec_encode(spec_twos(v as int, 0x1_0000_0000))
    }

    open spec fn spec_parse(bytes: Seq<u8>) -> Result<(i32, nat), Error> {
        match spec_parse_var_i32(bytes) {
            Err(e) => Err(e),
            Ok((value, n)) => Ok((value as i32, n)),
        }
    }

    fn encode(&self, serializer: &mut Serializer) {
        serializer.serialize_var_i32(self.0);
    }

    fn decode(deserializer: &mut Deserializer<'_>) -> (r: Result<Self, Error>) {
        match deserializer.deserialize_var_i32() {
            Ok(value) => Ok(VarInt(value)),
            Err(e) => Err(e),
        }
    }

    proof fn lemma_round_trip(v: i32, rest: Seq<u8>) {
        lemma_parse_var_i32_round_trip(v as int, rest);
    }
}

/// What every packet starts with: the length of what follows, and the packet id.
#[derive(Debug)]
pub struct Header {
    pub len: VarInt,
    pub id: VarInt,
}

/// A `Header` as values.
pub struct HeaderView {
    pub len: i32,
    pub id: i32,
}

impl View for Header {
    type V = HeaderView;

    open spec fn view(&self) -> HeaderView {
        HeaderView {
            len: self.len@,
            id: self.id@,
        }
    }
}

impl Wire for Header {
    open spec fn spec_valid(v: HeaderView) -> bool {
        &&& VarInt::spec_valid(v.len)
        &&& VarInt::spec_valid(v.id)
    }

    open spec fn spec_wire(v: HeaderView) -> Seq<u8> {
        VarInt::spec_wire(v.len) + VarInt::spec_wire(v.id)
    }

    open spec fn spec_parse(bytes: Seq<u8>) -> Result<(HeaderView, nat), Error> {
        match VarInt::spec_parse(bytes) {
            Err(e) => Err(e),
            Ok((x0, n0)) => {
                let after0 = bytes.skip(n0 as int);
                match VarInt::spec_parse(after0) {
                    Err(e) => Err(e),
                    Ok((x1, n1)) => Ok(
                        (
                            HeaderView {
                                len: x0,
                                id: x1,
                            },
                            n0 + n1,
                        ),
                    ),
                }
            },
        }
    }

    fn encode(&self, serializer: &mut Serializer) {
        self.len.encode(serializer);
        self.id.encode(serializer);
    }

    fn decode(deserializer: &mut Deserializer<'_>) -> (r: Result<Self, Error>) {
        let start = deserializer.consumed();
        let ghost d0 = *deserializer;
        let len = match VarInt::decode(deserializer) {
            Ok(v) => v,
            Err(e) => {
                return Err(e);
            },
        };
        let ghost d1 = *deserializer;
        let id = match VarInt::decode(deserializer) {
            Ok(v) => v,
            Err(e) => {
                deserializer.rewind(start);
                return Err(e);
            },
        };
        proof {
            let n0 = (d1.position() - d0.position()) as nat;
            let n1 = (deserializer.position() - d1.position()) as nat;
            Deserializer::lemma_advanced_twice(&d0, &d1, &*deserializer, n0, n1);
        }
        Ok(Header { len, id })
    }

    proof fn lemma_round_trip(v: HeaderView, rest: Seq<u8>) {
        let w0 = VarInt::spec_wire(v.len);
        let w1 = VarInt::spec_wire(v.id);
        let t1 = w1 + rest;
        let t0 = w0 + t1;
        assert(Self::spec_wire(v) + rest == t0) by {
            assert(Self::spec_wire(v) + rest =~= t0);
        }
        VarInt::lemma_round_trip(v.len, t1);
        lemma_skip_concat(w0, t1);
        VarInt::lemma_round_trip(v.id, rest);
    }
}

/// The version that a server announces.
#[derive(Debug)]
pub struct VersionInfo {
    pub name: String,
    pub protocol: u64,
}

/// The player counts that a server announces.
#[derive(Debug)]
pub struct PlayersStatus {
    pub max: u64,
    pub online: u64,
}

/// The line of text under which a server appears in the server list.
#[derive(Debug)]
pub struct Description {
    pub text: String,
}

/// What a server says of itself in answer to a status request.
#[derive(Debug)]
pub struct Status {
    pub version: VersionInfo,
    pub players: PlayersStatus,
    pub description: Description,
}

impl Status {
    /// The status as JSON text. The two texts go in as they are: a quote or
    /// a backslash in them is the caller's to escape.
    pub open spec fn spec_json(&self) -> Seq<char> {
        "{\"version\":{\"name\":\""@ + self.version.name@ + "\",\"protocol\":"@ + spec_decimal(
            self.version.protocol as nat,
        ) + "},\"players\":{\"max\":"@ + spec_decimal(self.players.max as nat)
            + ",\"online\":"@ + spec_decimal(self.players.online as nat)
            + "},\"description\":{\"text\":\""@ + self.description.text@ + "\"}}"@
    }

    /// The status as JSON text.
    pub fn json(&self) -> (text: String)
        ensures
            text@ == self.spec_json(),
    {
        let mut text = String::from_str("{\"version\":{\"name\":\"");
        text.append(self.version.name.as_str());
        text.append("\",\"protocol\":");
        text.append(decimal(self.version.protocol).as_str());
        text.append("},\"players\":{\"max\":");
        text.append(decimal(self.players.max).as_str());
        text.append(",\"online\":");
        text.append(decimal(self.players.online).as_str());
        text.append("},\"description\":{\"text\":\"");
        text.append(self.description.text.as_str());
        text.append("\"}}");
        text
    }
}

/// A ping of the status state, and its answer: the payload comes back as it went.
#[derive(Debug)]
pub struct Ping {
    pub value: i64,
}

/// A `Ping` as values.
pub struct PingView {
    pub value: i64,
}

impl View for Ping {
    type V = PingView;

    open spec fn view(&self) -> PingView {
        PingView {
            value: self.value,
        }
    }
}

impl Wire for Ping {
    open spec fn spec_valid(v: PingView) -> bool {
        true
    }

    open spec fn spec_wire(v: PingView) -> Seq<u8> {
        spec_be(spec_twos(v.value as int, 0x1_0000_0000_0000_0000), 8)
    }

    open spec fn spec_parse(bytes: Seq<u8>) -> Result<(PingView, nat), Error> {
        match spec_parse_be_signed(bytes, 8, 0x1_0000_0000_0000_0000) {
            Err(e) => Err(e),
            Ok((x0, n0)) => Ok(
                (
                    PingView {
                        value: x0 as i64,
                    },
                    n0,
                ),
            ),
        }
    }

    fn encode(&self, serializer: &mut Serializer) {
        serializer.serialize_i64(self.value);
    }

    fn decode(deserializer: &mut Deserializer<'_>) -> (r: Result<Self, Error>) {
        let value = match deserializer.deserialize_i64() {
            Ok(v) => v,
            Err(e) => {
                return Err(e);
            },
        };
        Ok(Ping { value })
    }

    proof fn lemma_round_trip(v: PingView, rest: Seq<u8>) {
        lemma_pow256_values();
        lemma_be_len(spec_twos(v.value as int, 0x1_0000_0000_0000_0000), 8);
        lemma_parse_be_signed_round_trip(v.value as int, 8, 0x1_0000_0000_0000_0000, rest);
    }
}

/// A packet that is one string.
#[derive(Debug)]
pub struct StringPck {
    pub str: String,
}

/// A `StringPck` as values.
pub struct StringPckView {
    pub str: Seq<char>,
}

impl View for StringPck {
    type V = StringPckView;

    open spec fn view(&self) -> StringPckView {
        StringPckView {
            str: self.str@,
        }
    }
}

impl Wire for StringPck {
    open spec fn spec_valid(v: StringPckView) -> bool {
        encode_utf8(v.str).len() <= usize::MAX
    }

    open spec fn spec_wire(v: StringPckView) -> Seq<u8> {
        spec_str(v.str)
    }

    open spec fn spec_parse(bytes: Seq<u8>) -> Result<(StringPckView, nat), Error> {
        match spec_parse_str(bytes) {
            Err(e) => Err(e),
            Ok((x0, n0)) => Ok(
                (
                    StringPckView {
                        str: x0,
                    },
                    n0,
                ),
            ),
        }
    }

    fn encode(&self, serializer: &mut Serializer) {
        serializer.serialize_str(self.str.as_str());
    }

    fn decode(deserializer: &mut Deserializer<'_>) -> (r: Result<Self, Error>) {
        let str = match deserializer.deserialize_string() {
            Ok(v) => v,
            Err(e) => {
                return Err(e);
            },
        };
        Ok(StringPck { str })
    }

    proof fn lemma_round_trip(v: StringPckView, rest: Seq<u8>) {
        lemma_parse_str_round_trip(v.str, rest);
    }
}

/// Tells a client that it has joined the game, and under which rules.
#[derive(Debug)]
pub struct JoinGame {
    pub entity_id: i32,
    /// Survival, creative, adventure or spectator, in this order from zero; bit 3 marks
    /// hardcore.
    pub game_mode: u8,
    /// Nether, overworld or end, in this order from minus one.
    pub dimension: i8,
    /// Peaceful, easy, normal or hard, in this order from zero.
    pub difficulty: u8,
    /// Used by the client to draw the player list.
    pub max_players: u8,
    pub level_type: String,
    pub reduced_debug_info: bool,
}

/// A `JoinGame` as values.
pub struct JoinGameView {
    pub entity_id: i32,
    pub game_mode: u8,
    pub dimension: i8,
    pub difficulty: u8,
    pub max_players: u8,
    pub level_type: Seq<char>,
    pub reduced_debug_info: bool,
}

impl View for JoinGame {
    type V = JoinGameView;

    open spec fn view(&self) -> JoinGameView {
        JoinGameView {
            entity_id: self.entity_id,
            game_mode: self.game_mode,
            dimension: self.dimension,
            difficulty: self.difficulty,
            max_players: self.max_players,
            level_type: self.level_type@,
            reduced_debug_info: self.reduced_debug_info,
        }
    }
}

impl Wire for JoinGame {
    open spec fn spec_valid(v: JoinGameView) -> bool {
        encode_utf8(v.level_type).len() <= usize::MAX
    }

    open spec fn spec_wire(v: JoinGameView) -> Seq<u8> {
        spec_be(spec_twos(v.entity_id as int, 0x1_0000_0000), 4)
            + spec_be(v.game_mode as nat, 1)
            + spec_be(spec_twos(v.dimension as int, 0x100), 1)
            + spec_be(v.difficulty as nat, 1)
            + spec_be(v.max_players as nat, 1)
            + spec_str(v.level_type)
            + spec_bool(v.reduced_debug_info)
    }

    open spec fn spec_parse(bytes: Seq<u8>) -> Result<(JoinGameView, nat), Error> {
        match spec_parse_be_signed(bytes, 4, 0x1_0000_0000) {
            Err(e) => Err(e),
            Ok((x0, n0)) => {
                let after0 = bytes.skip(n0 as int);
                match spec_parse_be(after0, 1) {
                    Err(e) => Err(e),
                    Ok((x1, n1)) => {
                        let after1 = after0.skip(n1 as int);
                        match spec_parse_be_signed(after1, 1, 0x100) {
                            Err(e) => Err(e),
                            Ok((x2, n2)) => {
                                let after2 = after1.skip(n2 as int);
                                match spec_parse_be(after2, 1) {
                                    Err(e) => Err(e),
                                    Ok((x3, n3)) => {
                                        let after3 = after2.skip(n3 as int);
                                        match spec_parse_be(after3, 1) {
                                            Err(e) => Err(e),
                                            Ok((x4, n4)) => {
                                                let after4 = after3.skip(n4 as int);
                                                match spec_parse_str(after4) {
                                                    Err(e) => Err(e),
                                                    Ok((x5, n5)) => {
                                                        let after5 = after4.skip(n5 as int);
                                                        match spec_parse_bool(after5) {
                                                            Err(e) => Err(e),
                                                            Ok((x6, n6)) => Ok(
                                                                (
                                                                    JoinGameView {
                                                                        entity_id: x0 as i32,
                                                                        game_mode: x1 as u8,
                                                                        dimension: x2 as i8,
                                                                        difficulty: x3 as u8,
                                                                        max_players: x4 as u8,
                                                                        level_type: x5,
                                                                        reduced_debug_info: x6,
                                                                    },
                                                                    n0 + n1 + n2 + n3 + n4 + n5 + n6,
                                                                ),
                                                            ),
                                                        }
                                                    },
                                                }
                                            },
                                        }
                                    },
                                }
                            },
                        }
                    },
                }
            },
        }
    }

    fn encode(&self, serializer: &mut Serializer) {
        serializer.serialize_i32(self.entity_id);
        serializer.serialize_u8(self.game_mode);
        serializer.serialize_i8(self.dimension);
        serializer.serialize_u8(self.difficulty);
        serializer.serialize_u8(self.max_players);
        serializer.serialize_str(self.level_type.as_str());
        serializer.serialize_bool(self.reduced_debug_info);
        assert(serializer@ =~= old(serializer)@ + Self::spec_wire(self@));
    }

    fn decode(deserializer: &mut Deserializer<'_>) -> (r: Result<Self, Error>) {
        let start = deserializer.consumed();
        let ghost d0 = *deserializer;
        let entity_id = match deserializer.deserialize_i32() {
            Ok(v) => v,
            Err(e) => {
                return Err(e);
            },
        };
        let ghost d1 = *deserializer;
        let game_mode = match deserializer.deserialize_u8() {
            Ok(v) => v,
            Err(e) => {
                deserializer.rewind(start);
                return Err(e);
            },
        };
        let ghost d2 = *deserializer;
        let dimension = match deserializer.deserialize_i8() {
            Ok(v) => v,
            Err(e) => {
                deserializer.rewind(start);
                return Err(e);
            },
        };
        let ghost d3 = *deserializer;
        let difficulty = match deserializer.deserialize_u8() {
            Ok(v) => v,
            Err(e) => {
                deserializer.rewind(start);
                return Err(e);
            },
        };
        let ghost d4 = *deserializer;
        let max_players = match deserializer.deserialize_u8() {
            Ok(v) => v,
            Err(e) => {
                deserializer.rewind(start);
                return Err(e);
            },
        };
        let ghost d5 = *deserializer;
        let level_type = match deserializer.deserialize_string() {
            Ok(v) => v,
            Err(e) => {
                deserializer.rewind(start);
                return Err(e);
            },
        };
        let ghost d6 = *deserializer;
        let reduced_debug_info = match deserializer.deserialize_bool() {
            Ok(v) => v,
            Err(e) => {
                deserializer.rewind(start);
                return Err(e);
            },
        };
        proof {
            let n0 = (d1.position() - d0.position()) as nat;
            let n1 = (d2.position() - d1.position()) as nat;
            let n2 = (d3.position() - d2.position()) as nat;
            let n3 = (d4.position() - d3.position()) as nat;
            let n4 = (d5.position() - d4.position()) as nat;
            let n5 = (d6.position() - d5.position()) as nat;
            let n6 = (deserializer.position() - d6.position()) as nat;
            Deserializer::lemma_advanced_twice(&d0, &d1, &d2, n0, n1);
            Deserializer::lemma_advanced_twice(&d0, &d2, &d3, n0 + n1, n2);
            Deserializer::lemma_advanced_twice(&d0, &d3, &d4, n0 + n1 + n2, n3);
            Deserializer::lemma_advanced_twice(&d0, &d4, &d5, n0 + n1 + n2 + n3, n4);
            Deserializer::lemma_advanced_twice(&d0, &d5, &d6, n0 + n1 + n2 + n3 + n4, n5);
            let n05 = n0 + n1 + n2 + n3 + n4 + n5;
            Deserializer::lemma_advanced_twice(&d0, &d6, &*deserializer, n05, n6);
        }
        Ok(
            JoinGame {
                entity_id,
                game_mode,
                dimension,
                difficulty,
                max_players,
                level_type,
                reduced_debug_info,
            },
        )
    }

    #[verifier::rlimit(40)]
    proof fn lemma_round_trip(v: JoinGameView, rest: Seq<u8>) {
        let w0 = spec_be(spec_twos(v.entity_id as int, 0x1_0000_0000), 4);
        let w1 = spec_be(v.game_mode as nat, 1);
        let w2 = spec_be(spec_twos(v.dimension as int, 0x100), 1);
        let w3 = spec_be(v.difficulty as nat, 1);
        let w4 = spec_be(v.max_players as nat, 1);
        let w5 = spec_str(v.level_type);
        let w6 = spec_bool(v.reduced_debug_info);
        let t6 = w6 + rest;
        let t5 = w5 + t6;
        let t4 = w4 + t5;
        let t3 = w3 + t4;
        let t2 = w2 + t3;
        let t1 = w1 + t2;
        let t0 = w0 + t1;
        assert(Self::spec_wire(v) + rest == t0) by {
            assert(Self::spec_wire(v) + rest =~= t0);
        }
        lemma_pow256_values();
        lemma_be_len(spec_twos(v.entity_id as int, 0x1_0000_0000), 4);
        lemma_parse_be_signed_round_trip(v.entity_id as int, 4, 0x1_0000_0000, t1);
        lemma_skip_concat(w0, t1);
        lemma_pow256_values();
        lemma_be_len(v.game_mode as nat, 1);
        lemma_parse_be_round_trip(v.game_mode as nat, 1, t2);
        lemma_skip_concat(w1, t2);
        lemma_pow256_values();
        lemma_be_len(spec_twos(v.dimension as int, 0x100), 1);
        lemma_parse_be_signed_round_trip(v.dimension as int, 1, 0x100, t3);
        lemma_skip_concat(w2, t3);
        lemma_pow256_values();
        lemma_be_len(v.difficulty as nat, 1);
        lemma_parse_be_round_trip(v.difficulty as nat, 1, t4);
        lemma_skip_concat(w3, t4);
        lemma_pow256_values();
        lemma_be_len(v.max_players as nat, 1);
        lemma_parse_be_round_trip(v.max_players as nat, 1, t5);
        lemma_skip_concat(w4, t5);
        lemma_parse_str_round_trip(v.level_type, t6);
        lemma_skip_concat(w5, t6);
        lemma_parse_bool_round_trip(v.reduced_debug_info, rest);
    }
}

/// What a client tells of its settings.
#[derive(Debug)]
pub struct ClientSettings {
    pub locale: String,
    pub view_distance: i8,
    pub chat_mode: i8,
    pub chat_colors: bool,
    /// One bit for each part of the skin that is shown.
    pub displayed_skin_parts: i8,
}

/// A `ClientSettings` as values.
pub struct ClientSettingsView {
    pub locale: Seq<char>,
    pub view_distance: i8,
    pub chat_mode: i8,
    pub chat_colors: bool,
    pub displayed_skin_parts: i8,
}

impl View for ClientSettings {
    type V = ClientSettingsView;

    open spec fn view(&self) -> ClientSettingsView {
        ClientSettingsView {
            locale: self.locale@,
            view_distance: self.view_distance,
            chat_mode: self.chat_mode,
            chat_colors: self.chat_colors,
            displayed_skin_parts: self.displayed_skin_parts,
        }
    }
}

impl Wire for ClientSettings {
    open spec fn spec_valid(v: ClientSettingsView) -> bool {
        encode_utf8(v.locale).len() <= usize::MAX
    }

    open spec fn spec_wire(v: ClientSettingsView) -> Seq<u8> {
        spec_str(v.locale)
            + spec_be(spec_twos(v.view_distance as int, 0x100), 1)
            + spec_be(spec_twos(v.chat_mode as int, 0x100), 1)
            + spec_bool(v.chat_colors)
            + spec_be(spec_twos(v.displayed_skin_parts as int, 0x100), 1)
    }

    open spec fn spec_parse(bytes: Seq<u8>) -> Result<(ClientSettingsView, nat), Error> {
        match spec_parse_str(bytes) {
            Err(e) => Err(e),
            Ok((x0, n0)) => {
                let after0 = bytes.skip(n0 as int);
                match spec_parse_be_signed(after0, 1, 0x100) {
                    Err(e) => Err(e),
                    Ok((x1, n1)) => {
                        let after1 = after0.skip(n1 as int);
                        match spec_parse_be_signed(after1, 1, 0x100) {
                            Err(e) => Err(e),
                            Ok((x2, n2)) => {
                                let after2 = after1.skip(n2 as int);
                                match spec_parse_bool(after2) {
                                    Err(e) => Err(e),
                                    Ok((x3, n3)) => {
                                        let after3 = after2.skip(n3 as int);
                                        match spec_parse_be_signed(after3, 1, 0x100) {
                                            Err(e) => Err(e),
                                            Ok((x4, n4)) => Ok(
                                                (
                                                    ClientSettingsView {
                                                        locale: x0,
                                                        view_distance: x1 as i8,
                                                        chat_mode: x2 as i8,
                                                        chat_colors: x3,
                                                        displayed_skin_parts: x4 as i8,
                                                    },
                                                    n0 + n1 + n2 + n3 + n4,
                                                ),
                                            ),
                                        }
                                    },
                                }
                            },
                        }
                    },
                }
            },
        }
    }

    fn encode(&self, serializer: &mut Serializer) {
        serializer.serialize_str(self.locale.as_str());
        serializer.serialize_i8(self.view_distance);
        serializer.serialize_i8(self.chat_mode);
        serializer.serialize_bool(self.chat_colors);
        serializer.serialize_i8(self.displayed_skin_parts);
        assert(serializer@ =~= old(serializer)@ + Self::spec_wire(self@));
    }

    fn decode(deserializer: &mut Deserializer<'_>) -> (r: Result<Self, Error>) {
        let start = deserializer.consumed();
        let ghost d0 = *deserializer;
        let locale = match deserializer.deserialize_string() {
            Ok(v) => v,
            Err(e) => {
                return Err(e);
            },
        };
        let ghost d1 = *deserializer;
        let view_distance = match deserializer.deserialize_i8() {
            Ok(v) => v,
            Err(e) => {
                deserializer.rewind(start);
                return Err(e);
            },
        };
        let ghost d2 = *deserializer;
        let chat_mode = match deserializer.deserialize_i8() {
            Ok(v) => v,
            Err(e) => {
                deserializer.rewind(start);
                return Err(e);
            },
        };
        let ghost d3 = *deserializer;
        let chat_colors = match deserializer.deserialize_bool() {
            Ok(v) => v,
            Err(e) => {
                deserializer.rewind(start);
                return Err(e);
            },
        };
        let ghost d4 = *deserializer;
        let displayed_skin_parts = match deserializer.deserialize_i8() {
            Ok(v) => v,
            Err(e) => {
                deserializer.rewind(start);
                return Err(e);
            },
        };
        proof {
            let n0 = (d1.position() - d0.position()) as nat;
            let n1 = (d2.position() - d1.position()) as nat;
            let n2 = (d3.position() - d2.position()) as nat;
            let n3 = (d4.position() - d3.position()) as nat;
            let n4 = (deserializer.position() - d4.position()) as nat;
            Deserializer::lemma_advanced_twice(&d0, &d1, &d2, n0, n1);
            Deserializer::lemma_advanced_twice(&d0, &d2, &d3, n0 + n1, n2);
            Deserializer::lemma_advanced_twice(&d0, &d3, &d4, n0 + n1 + n2, n3);
            Deserializer::lemma_advanced_twice(&d0, &d4, &*deserializer, n0 + n1 + n2 + n3, n4);
        }
        Ok(ClientSettings { locale, view_distance, chat_mode, chat_colors, displayed_skin_parts })
    }

    #[verifier::rlimit(40)]
    proof fn lemma_round_trip(v: ClientSettingsView, rest: Seq<u8>) {
        let w0 = spec_str(v.locale);
        let w1 = spec_be(spec_twos(v.view_distance as int, 0x100), 1);
        let w2 = spec_be(spec_twos(v.chat_mode as int, 0x100), 1);
        let w3 = spec_bool(v.chat_colors);
        let w4 = spec_be(spec_twos(v.displayed_skin_parts as int, 0x100), 1);
        let t4 = w4 + rest;
        let t3 = w3 + t4;
        let t2 = w2 + t3;
        let t1 = w1 + t2;
        let t0 = w0 + t1;
        assert(Self::spec_wire(v) + rest == t0) by {
            assert(Self::spec_wire(v) + rest =~= t0);
        }
        lemma_parse_str_round_trip(v.locale, t1);
        lemma_skip_concat(w0, t1);
        lemma_pow256_values();
        lemma_be_len(spec_twos(v.view_distance as int, 0x100), 1);
        lemma_parse_be_signed_round_trip(v.view_distance as int, 1, 0x100, t2);
        lemma_skip_concat(w1, t2);
        lemma_pow256_values();
        lemma_be_len(spec_twos(v.chat_mode as int, 0x100), 1);
        lemma_parse_be_signed_round_trip(v.chat_mode as int, 1, 0x100, t3);
        lemma_skip_concat(w2, t3);
        lemma_parse_bool_round_trip(v.chat_colors, t4);
        lemma_skip_concat(w3, t4);
        lemma_pow256_values();
        lemma_be_len(spec_twos(v.displayed_skin_parts as int, 0x100), 1);
        lemma_parse_be_signed_round_trip(v.displayed_skin_parts as int, 1, 0x100, rest);
    }
}

/// A message on a named channel, for mods and plugins to make what they want of.
#[derive(Debug)]
pub struct PluginMessage {
    pub channel: String,
    pub data: Vec<u8>,
}

/// A `PluginMessage` as values.
pub struct PluginMessageView {
    pub channel: Seq<char>,
    pub data: Seq<u8>,
}

impl View for PluginMessage {
    type V = PluginMessageView;

    open spec fn view(&self) -> PluginMessageView {
        PluginMessageView {
            channel: self.channel@,
            data: self.data@,
        }
    }
}

impl Wire for PluginMessage {
    open spec fn spec_valid(v: PluginMessageView) -> bool {
        &&& encode_utf8(v.channel).len() <= usize::MAX
        &&& v.data.len() <= usize::MAX
    }

    open spec fn spec_wire(v: PluginMessageView) -> Seq<u8> {
        spec_str(v.channel) + spec_bytes(v.data)
    }

    open spec fn spec_parse(bytes: Seq<u8>) -> Result<(PluginMessageView, nat), Error> {
        match spec_parse_str(bytes) {
            Err(e) => Err(e),
            Ok((x0, n0)) => {
                let after0 = bytes.skip(n0 as int);
                match spec_parse_bytes(after0) {
                    Err(e) => Err(e),
                    Ok((x1, n1)) => Ok(
                        (
                            PluginMessageView {
                                channel: x0,
                                data: x1,
                            },
                            n0 + n1,
                        ),
                    ),
                }
            },
        }
    }

    fn encode(&self, serializer: &mut Serializer) {
        serializer.serialize_str(self.channel.as_str());
        serializer.serialize_bytes(self.data.as_slice());
    }

    fn decode(deserializer: &mut Deserializer<'_>) -> (r: Result<Self, Error>) {
        let start = deserializer.consumed();
        let ghost d0 = *deserializer;
        let channel = match deserializer.deserialize_string() {
            Ok(v) => v,
            Err(e) => {
                return Err(e);
            },
        };
        let ghost d1 = *deserializer;
        let data = match deserializer.deserialize_byte_buf() {
            Ok(v) => v,
            Err(e) => {
                deserializer.rewind(start);
                return Err(e);
            },
        };
        proof {
            let n0 = (d1.position() - d0.position()) as nat;
            let n1 = (deserializer.position() - d1.position()) as nat;
            Deserializer::lemma_advanced_twice(&d0, &d1, &*deserializer, n0, n1);
        }
        Ok(PluginMessage { channel, data })
    }

    proof fn lemma_round_trip(v: PluginMessageView, rest: Seq<u8>) {
        let w0 = spec_str(v.channel);
        let w1 = spec_bytes(v.data);
        let t1 = w1 + rest;
        let t0 = w0 + t1;
        assert(Self::spec_wire(v) + rest == t0) by {
            assert(Self::spec_wire(v) + rest =~= t0);
        }
        lemma_parse_str_round_trip(v.channel, t1);
        lemma_skip_concat(w0, t1);
        lemma_parse_bytes_round_trip(v.data, rest);
    }
}

/// The age of the world and the time of its day, in ticks.
#[derive(Debug)]
pub struct TimeUpdate {
    pub world_age: i64,
    pub time_of_day: i64,
}

/// A `TimeUpdate` as values.
pub struct TimeUpdateView {
    pub world_age: i64,
    pub time_of_day: i64,
}

impl View for TimeUpdate {
    type V = TimeUpdateView;

    open spec fn view(&self) -> TimeUpdateView {
        TimeUpdateView {
            world_age: self.world_age,
            time_of_day: self.time_of_day,
        }
    }
}

impl Wire for TimeUpdate {
    open spec fn spec_valid(v: TimeUpdateView) -> bool {
        true
    }

    open spec fn spec_wire(v: TimeUpdateView) -> Seq<u8> {
        spec_be(spec_twos(v.world_age as int, 0x1_0000_0000_0000_0000), 8)
            + spec_be(spec_twos(v.time_of_day as int, 0x1_0000_0000_0000_0000), 8)
    }

    open spec fn spec_parse(bytes: Seq<u8>) -> Result<(TimeUpdateView, nat), Error> {
        match spec_parse_be_signed(bytes, 8, 0x1_0000_0000_0000_0000) {
            Err(e) => Err(e),
            Ok((x0, n0)) => {
                let after0 = bytes.skip(n0 as int);
                match spec_parse_be_signed(after0, 8, 0x1_0000_0000_0000_0000) {
                    Err(e) => Err(e),
                    Ok((x1, n1)) => Ok(
                        (
                            TimeUpdateView {
                                world_age: x0 as i64,
                                time_of_day: x1 as i64,
                            },
                            n0 + n1,
                        ),
                    ),
                }
            },
        }
    }

    fn encode(&self, serializer: &mut Serializer) {
        serializer.serialize_i64(self.world_age);
        serializer.serialize_i64(self.time_of_day);
    }

    fn decode(deserializer: &mut Deserializer<'_>) -> (r: Result<Self, Error>) {
        let start = deserializer.consumed();
        let ghost d0 = *deserializer;
        let world_age = match deserializer.deserialize_i64() {
            Ok(v) => v,
            Err(e) => {
                return Err(e);
            },
        };
        let ghost d1 = *deserializer;
        let time_of_day = match deserializer.deserialize_i64() {
            Ok(v) => v,
            Err(e) => {
                deserializer.rewind(start);
                return Err(e);
            },
        };
        proof {
            let n0 = (d1.position() - d0.position()) as nat;
            let n1 = (deserializer.position() - d1.position()) as nat;
            Deserializer::lemma_advanced_twice(&d0, &d1, &*deserializer, n0, n1);
        }
        Ok(TimeUpdate { world_age, time_of_day })
    }

    proof fn lemma_round_trip(v: TimeUpdateView, rest: Seq<u8>) {
        let w0 = spec_be(spec_twos(v.world_age as int, 0x1_0000_0000_0000_0000), 8);
        let w1 = spec_be(spec_twos(v.time_of_day as int, 0x1_0000_0000_0000_0000), 8);
        let t1 = w1 + rest;
        let t0 = w0 + t1;
        assert(Self::spec_wire(v) + rest == t0) by {
            assert(Self::spec_wire(v) + rest =~= t0);
        }
        lemma_pow256_values();
        lemma_be_len(spec_twos(v.world_age as int, 0x1_0000_0000_0000_0000), 8);
        lemma_parse_be_signed_round_trip(v.world_age as int, 8, 0x1_0000_0000_0000_0000, t1);
        lemma_skip_concat(w0, t1);
        lemma_pow256_values();
        lemma_be_len(spec_twos(v.time_of_day as int, 0x1_0000_0000_0000_0000), 8);
        lemma_parse_be_signed_round_trip(v.time_of_day as int, 8, 0x1_0000_0000_0000_0000, rest);
    }
}

/// The difficulty that the server runs at.
#[derive(Debug)]
pub struct ServerDifficulty {
    pub difficulty: u8,
}

/// A `ServerDifficulty` as values.
pub struct ServerDifficultyView {
    pub difficulty: u8,
}

impl View for ServerDifficulty {
    type V = ServerDifficultyView;

    open spec fn view(&self) -> ServerDifficultyView {
        ServerDifficultyView {
            difficulty: self.difficulty,
        }
    }
}

impl Wire for ServerDifficulty {
    open spec fn spec_valid(v: ServerDifficultyView) -> bool {
        true
    }

    open spec fn spec_wire(v: ServerDifficultyView) -> Seq<u8> {
        spec_be(v.difficulty as nat, 1)
    }

    open spec fn spec_parse(bytes: Seq<u8>) -> Result<(ServerDifficultyView, nat), Error> {
        match spec_parse_be(bytes, 1) {
            Err(e) => Err(e),
            Ok((x0, n0)) => Ok(
                (
                    ServerDifficultyView {
                        difficulty: x0 as u8,
                    },
                    n0,
                ),
            ),
        }
    }

    fn encode(&self, serializer: &mut Serializer) {
        serializer.serialize_u8(self.difficulty);
    }

    fn decode(deserializer: &mut Deserializer<'_>) -> (r: Result<Self, Error>) {
        let difficulty = match deserializer.deserialize_u8() {
            Ok(v) => v,
            Err(e) => {
                return Err(e);
            },
        };
        Ok(ServerDifficulty { difficulty })
    }

    proof fn lemma_round_trip(v: ServerDifficultyView, rest: Seq<u8>) {
        lemma_pow256_values();
        lemma_be_len(v.difficulty as nat, 1);
        lemma_parse_be_round_trip(v.difficulty as nat, 1, rest);
    }
}

/// Where players appear: three coordinates packed into one number.
#[derive(Debug)]
pub struct SpawnPosition {
    pub location: u64,
}

/// A `SpawnPosition` as values.
pub struct SpawnPositionView {
    pub location: u64,
}

impl View for SpawnPosition {
    type V = SpawnPositionView;

    open spec fn view(&self) -> SpawnPositionView {
        SpawnPositionView {
            location: self.location,
        }
    }
}

impl Wire for SpawnPosition {
    open spec fn spec_valid(v: SpawnPositionView) -> bool {
        true
    }

    open spec fn spec_wire(v: SpawnPositionView) -> Seq<u8> {
        spec_be(v.location as nat, 8)
    }

    open spec fn spec_parse(bytes: Seq<u8>) -> Result<(SpawnPositionView, nat), Error> {
        match spec_parse_be(bytes, 8) {
            Err(e) => Err(e),
            Ok((x0, n0)) => Ok(
                (
                    SpawnPositionView {
                        location: x0 as u64,
                    },
                    n0,
                ),
            ),
        }
    }

    fn encode(&self, serializer: &mut Serializer) {
        serializer.serialize_u64(self.location);
    }

    fn decode(deserializer: &mut Deserializer<'_>) -> (r: Result<Self, Error>) {
        let location = match deserializer.deserialize_u64() {
            Ok(v) => v,
            Err(e) => {
                return Err(e);
            },
        };
        Ok(SpawnPosition { location })
    }

    proof fn lemma_round_trip(v: SpawnPositionView, rest: Seq<u8>) {
        lemma_pow256_values();
        lemma_be_len(v.location as nat, 8);
        lemma_parse_be_round_trip(v.location as nat, 8, rest);
    }
}

/// The slot of the hotbar that the player holds.
#[derive(Debug)]
pub struct HeldItemChange {
    pub slot: i8,
}

/// A `HeldItemChange` as values.
pub struct HeldItemChangeView {
    pub slot: i8,
}

impl View for HeldItemChange {
    type V = HeldItemChangeView;

    open spec fn view(&self) -> HeldItemChangeView {
        HeldItemChangeView {
            slot: self.slot,
        }
    }
}

impl Wire for HeldItemChange {
    open spec fn spec_valid(v: HeldItemChangeView) -> bool {
        true
    }

    open spec fn spec_wire(v: HeldItemChangeView) -> Seq<u8> {
        spec_be(spec_twos(v.slot as int, 0x100), 1)
    }

    open spec fn spec_parse(bytes: Seq<u8>) -> Result<(HeldItemChangeView, nat), Error> {
        match spec_parse_be_signed(bytes, 1, 0x100) {
            Err(e) => Err(e),
            Ok((x0, n0)) => Ok(
                (
                    HeldItemChangeView {
                        slot: x0 as i8,
                    },
                    n0,
                ),
            ),
        }
    }

    fn encode(&self, serializer: &mut Serializer) {
        serializer.serialize_i8(self.slot);
    }

    fn decode(deserializer: &mut Deserializer<'_>) -> (r: Result<Self, Error>) {
        let slot = match deserializer.deserialize_i8() {
            Ok(v) => v,
            Err(e) => {
                return Err(e);
            },
        };
        Ok(HeldItemChange { slot })
    }

    proof fn lemma_round_trip(v: HeldItemChangeView, rest: Seq<u8>) {
        lemma_pow256_values();
        lemma_be_len(spec_twos(v.slot as int, 0x100), 1);
        lemma_parse_be_signed_round_trip(v.slot as int, 1, 0x100, rest);
    }
}

} // verus!
