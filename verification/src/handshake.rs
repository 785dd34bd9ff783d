//! The packets of the handshaking state.

use crate::bits::{lemma_pow256_values, spec_be};
use crate::de::{
    lemma_parse_be_round_trip, lemma_parse_str_round_trip, lemma_parse_var_round_trip,
    spec_parse_be, spec_parse_str, spec_parse_var_u32, Deserializer,
};
use crate::err::Error;
use crate::ser::{spec_str, Serializer};
use crate::state::State;
use crate::var_int::spec_encode;
use crate::wire::Wire;
use vstd::prelude::*;
use vstd::utf8::encode_utf8;

verus! {

/// The first packet of a connection: what the client speaks, whom it
/// believes it reached, and what it wants next.
#[derive(Debug)]
pub struct Handshake {
    pub protocol_version: u32,
    pub server_address: String,
    pub server_port: u16,
    pub next_state: State,
}

/// A `Handshake` as values.
pub struct HandshakeView {
    pub protocol_version: u32,
    pub server_address: Seq<char>,
    pub server_port: u16,
    pub next_state: State,
}

impl View for Handshake {
    type V = HandshakeView;

    open spec fn view(&self) -> HandshakeView {
        HandshakeView {
            protocol_version: self.protocol_version,
            server_address: self.server_address@,
            server_port: self.server_port,
            next_state: self.next_state,
        }
    }
}

impl Wire for Handshake {
    open spec fn spec_valid(v: HandshakeView) -> bool {
        encode_utf8(v.server_address).len() <= usize::MAX
    }

    open spec fn spec_wire(v: HandshakeView) -> Seq<u8> {
        spec_encode(v.protocol_version as nat) + spec_str(v.server_address) + spec_be(
            v.server_port as nat,
            2,
        ) + State::spec_wire(v.next_state)
    }

    open spec fn spec_parse(bytes: Seq<u8>) -> Result<(HandshakeView, nat), Error> {
        match spec_parse_var_u32(bytes) {
            Err(e) => Err(e),
            Ok((version, n1)) => match spec_parse_str(bytes.skip(n1 as int)) {
                Err(e) => Err(e),
                Ok((address, n2)) => match spec_parse_be(bytes.skip(n1 as int).skip(n2 as int), 2) {
                    Err(e) => Err(e),
                    Ok((port, n3)) => match State::spec_parse(
                        bytes.skip(n1 as int).skip(n2 as int).skip(n3 as int),
                    ) {
                        Err(e) => Err(e),
                        Ok((next, n4)) => Ok(
                            (
                                HandshakeView {
                                    protocol_version: version as u32,
                                    server_address: address,
                                    server_port: port as u16,
                                    next_state: next,
                                },
                                n1 + n2 + n3 + n4,
                            ),
                        ),
                    },
                },
            },
        }
    }

    fn encode(&self, serializer: &mut Serializer) {
        serializer.serialize_var_u32(self.protocol_version);
        serializer.serialize_str(self.server_address.as_str());
        serializer.serialize_u16(self.server_port);
        self.next_state.encode(serializer);
    }

    fn decode(deserializer: &mut Deserializer<'_>) -> (r: Result<Self, Error>) {
        let start = deserializer.consumed();
        let ghost d0 = *deserializer;
        let protocol_version = match deserializer.deserialize_var_u32() {
            Ok(v) => v,
            Err(e) => {
                return Err(e);
            },
        };
        let ghost d1 = *deserializer;
        let server_address = match deserializer.deserialize_string() {
            Ok(v) => v,
            Err(e) => {
                deserializer.rewind(start);
                return Err(e);
            },
        };
        let ghost d2 = *deserializer;
        let server_port = match deserializer.deserialize_u16() {
            Ok(v) => v,
            Err(e) => {
                deserializer.rewind(start);
                return Err(e);
            },
        };
        let ghost d3 = *deserializer;
        let next_state = match State::decode(deserializer) {
            Ok(v) => v,
            Err(e) => {
                deserializer.rewind(start);
                return Err(e);
            },
        };
        proof {
            let n1 = (d1.position() - d0.position()) as nat;
            let n2 = (d2.position() - d1.position()) as nat;
            let n3 = (d3.position() - d2.position()) as nat;
            let n4 = (deserializer.position() - d3.position()) as nat;
            Deserializer::lemma_advanced_twice(&d0, &d1, &d2, n1, n2);
            Deserializer::lemma_advanced_twice(&d0, &d2, &d3, n1 + n2, n3);
            Deserializer::lemma_advanced_twice(&d0, &d3, &*deserializer, n1 + n2 + n3, n4);
        }
        Ok(Handshake { protocol_version, server_address, server_port, next_state })
    }

    proof fn lemma_round_trip(v: HandshakeView, rest: Seq<u8>) {
        let a = spec_encode(v.protocol_version as nat);
        let b = spec_str(v.server_address);
        let c = spec_be(v.server_port as nat, 2);
        let d = State::spec_wire(v.next_state);
        let all = Self::spec_wire(v) + rest;
        lemma_pow256_values();
        assert(all =~= a + (b + c + d + rest));
        lemma_parse_var_round_trip(v.protocol_version as nat, b + c + d + rest);
        assert(all.skip(a.len() as int) =~= b + (c + d + rest));
        lemma_parse_str_round_trip(v.server_address, c + d + rest);
        assert(all.skip(a.len() as int).skip(b.len() as int) =~= c + (d + rest));
        lemma_parse_be_round_trip(v.server_port as nat, 2, d + rest);
        crate::bits::lemma_be_len(v.server_port as nat, 2);
        assert(all.skip(a.len() as int).skip(b.len() as int).skip(2) =~= d + rest);
        State::lemma_round_trip(v.next_state, rest);
    }
}

/// The probe that clients from before framing send to ask for the server
/// list entry.
#[derive(Debug)]
pub struct LegacyServerListPing {
    pub payload: u8,
}

impl View for LegacyServerListPing {
    type V = u8;

    open spec fn view(&self) -> u8 {
        self.payload
    }
}

impl Wire for LegacyServerListPing {
    open spec fn spec_valid(v: u8) -> bool {
        true
    }

    open spec fn spec_wire(v: u8) -> Seq<u8> {
        spec_be(v as nat, 1)
    }

    open spec fn spec_parse(bytes: Seq<u8>) -> Result<(u8, nat), Error> {
        match spec_parse_be(bytes, 1) {
            Err(e) => Err(e),
            Ok((payload, n)) => Ok((payload as u8, n)),
        }
    }

    fn encode(&self, serializer: &mut Serializer) {
        serializer.serialize_u8(self.payload);
    }

    fn decode(deserializer: &mut Deserializer<'_>) -> (r: Result<Self, Error>) {
        match deserializer.deserialize_u8() {
            Ok(payload) => Ok(LegacyServerListPing { payload }),
            Err(e) => Err(e),
        }
    }

    proof fn lemma_round_trip(v: u8, rest: Seq<u8>) {
        reveal_with_fuel(crate::bits::pow256, 2);
        crate::bits::lemma_be_len(v as nat, 1);
        lemma_parse_be_round_trip(v as nat, 1, rest);
    }
}

/// The bytes that a legacy server list ping starts with.
pub const LEGACY_PING: [u8; 3] = [0xfe, 0x01, 0xfa];

/// Whether the bytes that a connection starts with are a legacy server list
/// ping rather than a frame. A frame may start with the first two bytes of
/// the ping, as the length of a long handshake, but its third byte is then
/// the packet id, which is not the third byte of the ping.
pub open spec fn spec_is_legacy_ping(bytes: Seq<u8>) -> bool {
    bytes.len() >= 3 && bytes[0] == 0xfe && bytes[1] == 0x01 && bytes[2] == 0xfa
}

/// Whether the bytes that a connection starts with are a legacy server list
/// ping rather than a frame.
pub fn is_legacy_ping(bytes: &[u8]) -> (b: bool)
    ensures
        b == spec_is_legacy_ping(bytes@),
{
    bytes.len() >= 3 && bytes[0] == LEGACY_PING[0] && bytes[1] == LEGACY_PING[1] && bytes[2]
        == LEGACY_PING[2]
}

/// No frame whose packet id is not the third byte of the ping is taken for
/// a legacy ping, whatever its length and whatever follows it.
pub proof fn lemma_frame_is_no_legacy_ping(body: Seq<u8>, rest: Seq<u8>)
    requires
        body.len() > 0,
        body[0] != 0xfa,
    ensures
        !spec_is_legacy_ping(crate::ser::spec_with_size(body) + rest),
{
    let length = spec_encode(body.len());
    let bytes = crate::ser::spec_with_size(body) + rest;
    crate::var_int::lemma_encode_shape(body.len());
    if spec_is_legacy_ping(bytes) {
        assert(bytes[0] == length[0]);
        assert(length.len() >= 2);
        assert(bytes[1] == length[1]);
        assert(length.len() == 2);
        assert(bytes[2] == body[0]);
    }
}

/// What a client may send while the connection is in the handshaking
/// state.
#[derive(Debug)]
pub enum ServerBound {
    Handshake(Handshake),
}

impl View for ServerBound {
    type V = HandshakeView;

    open spec fn view(&self) -> HandshakeView {
        match self {
            ServerBound::Handshake(h) => h@,
        }
    }
}

impl Wire for ServerBound {
    open spec fn spec_valid(v: HandshakeView) -> bool {
        Handshake::spec_valid(v)
    }

    open spec fn spec_wire(v: HandshakeView) -> Seq<u8> {
        spec_encode(0) + Handshake::spec_wire(v)
    }

    open spec fn spec_parse(bytes: Seq<u8>) -> Result<(HandshakeView, nat), Error> {
        match spec_parse_var_u32(bytes) {
            Err(e) => Err(e),
            Ok((id, n1)) => if id == 0 {
                match Handshake::spec_parse(bytes.skip(n1 as int)) {
                    Err(e) => Err(e),
                    Ok((handshake, n2)) => Ok((handshake, n1 + n2)),
                }
            } else {
                Err(Error::UnknownVariant(id as u32))
            },
        }
    }

    fn encode(&self, serializer: &mut Serializer) {
        match self {
            ServerBound::Handshake(h) => {
                serializer.serialize_variant(0);
                h.encode(serializer);
                assert(serializer@ =~= old(serializer)@ + Self::spec_wire(self@));
            },
        }
    }

    fn decode(deserializer: &mut Deserializer<'_>) -> (r: Result<Self, Error>) {
        let start = deserializer.consumed();
        let ghost d0 = *deserializer;
        match deserializer.deserialize_identifier() {
            Err(e) => Err(e),
            Ok(0) => {
                let ghost d1 = *deserializer;
                match Handshake::decode(deserializer) {
                    Ok(h) => {
                        proof {
                            let n1 = (d1.position() - d0.position()) as nat;
                            let n2 = (deserializer.position() - d1.position()) as nat;
                            Deserializer::lemma_advanced_twice(&d0, &d1, &*deserializer, n1, n2);
                        }
                        Ok(ServerBound::Handshake(h))
                    },
                    Err(e) => {
                        deserializer.rewind(start);
                        Err(e)
                    },
                }
            },
            Ok(id) => {
                deserializer.rewind(start);
                Err(Error::UnknownVariant(id))
            },
        }
    }

    proof fn lemma_round_trip(v: HandshakeView, rest: Seq<u8>) {
        let id = spec_encode(0);
        let all = Self::spec_wire(v) + rest;
        assert(all =~= id + (Handshake::spec_wire(v) + rest));
        lemma_parse_var_round_trip(0, Handshake::spec_wire(v) + rest);
        assert(all.skip(id.len() as int) =~= Handshake::spec_wire(v) + rest);
        Handshake::lemma_round_trip(v, rest);
    }
}

} // verus!
