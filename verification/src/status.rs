//! The packets of the status state.

use crate::bits::{lemma_be_len, lemma_pow256_values, spec_be};
use crate::de::{
    lemma_parse_be_round_trip, lemma_parse_str_round_trip, lemma_parse_var_round_trip,
    lemma_skip_concat,
    spec_parse_be, spec_parse_str, spec_parse_var_u32, Deserializer,
};
use crate::err::Error;
use crate::ser::{spec_str, Serializer};
use crate::var_int::spec_encode;
use crate::wire::Wire;
use vstd::prelude::*;
use vstd::utf8::encode_utf8;

verus! {

/// What a client may send while the connection is in the status state.
#[derive(Debug)]
pub enum ServerBound {
    /// Asks for the description of the server.
    Request,
    /// Asks for the payload to be sent back.
    Ping(u64),
}

/// A `ServerBound` as values.
pub enum ServerBoundView {
    Request,
    Ping(u64),
}

impl View for ServerBound {
    type V = ServerBoundView;

    open spec fn view(&self) -> ServerBoundView {
        match self {
            ServerBound::Request => ServerBoundView::Request,
            ServerBound::Ping(p) => ServerBoundView::Ping(*p),
        }
    }
}

impl Wire for ServerBound {
    open spec fn spec_valid(v: ServerBoundView) -> bool {
        match v {
            ServerBoundView::Request => true,
            ServerBoundView::Ping(p) => true,
        }
    }

    open spec fn spec_wire(v: ServerBoundView) -> Seq<u8> {
        match v {
            ServerBoundView::Request => spec_encode(0),
            ServerBoundView::Ping(p) => spec_encode(1) + spec_be(p as nat, 8),
        }
    }

    open spec fn spec_parse(bytes: Seq<u8>) -> Result<(ServerBoundView, nat), Error> {
        match spec_parse_var_u32(bytes) {
            Err(e) => Err(e),
            Ok((id, n0)) => if id == 0 {
                Ok((ServerBoundView::Request, n0))
            } else if id == 1 {
                match spec_parse_be(bytes.skip(n0 as int), 8) {
                    Err(e) => Err(e),
                    Ok((x, n1)) => Ok((ServerBoundView::Ping(x as u64), n0 + n1)),
                }
            } else {
                Err(Error::UnknownVariant(id as u32))
            },
        }
    }

    fn encode(&self, serializer: &mut Serializer) {
        match self {
            ServerBound::Request => {
                serializer.serialize_variant(0);
            },
            ServerBound::Ping(p) => {
                serializer.serialize_variant(1);
                serializer.serialize_u64(*p);
                assert(serializer@ =~= old(serializer)@ + Self::spec_wire(self@));
            },
        }
    }

    fn decode(deserializer: &mut Deserializer<'_>) -> (r: Result<Self, Error>) {
        let start = deserializer.consumed();
        let ghost d0 = *deserializer;
        let id = match deserializer.deserialize_identifier() {
            Ok(v) => v,
            Err(e) => {
                return Err(e);
            },
        };
        let ghost d1 = *deserializer;
        if id == 0 {
            Ok(ServerBound::Request)
        } else if id == 1 {
            match deserializer.deserialize_u64() {
                Ok(p) => {
                    proof {
                        let n0 = (d1.position() - d0.position()) as nat;
                        let n1 = (deserializer.position() - d1.position()) as nat;
                        Deserializer::lemma_advanced_twice(&d0, &d1, &*deserializer, n0, n1);
                    }
                    Ok(ServerBound::Ping(p))
                },
                Err(e) => {
                    deserializer.rewind(start);
                    Err(e)
                },
            }
        } else {
            deserializer.rewind(start);
            Err(Error::UnknownVariant(id))
        }
    }

    proof fn lemma_round_trip(v: ServerBoundView, rest: Seq<u8>) {
        let all = Self::spec_wire(v) + rest;
        match v {
            ServerBoundView::Request => {
                lemma_parse_var_round_trip(0, rest);
            },
            ServerBoundView::Ping(p) => {
                let w = spec_be(p as nat, 8);
                assert(all == spec_encode(1) + (w + rest)) by {
                    assert(all =~= spec_encode(1) + (w + rest));
                }
                lemma_parse_var_round_trip(1, w + rest);
                lemma_skip_concat(spec_encode(1), w + rest);
                lemma_pow256_values();
                lemma_be_len(p as nat, 8);
                lemma_parse_be_round_trip(p as nat, 8, rest);
            },
        }
    }
}

/// What the server sends while the connection is in the status state.
#[derive(Debug)]
pub enum ClientBound {
    /// The description of the server, as JSON text.
    Response(String),
    /// The payload of the ping it answers.
    Pong(u64),
}

/// A `ClientBound` as values.
pub enum ClientBoundView {
    Response(Seq<char>),
    Pong(u64),
}

impl View for ClientBound {
    type V = ClientBoundView;

    open spec fn view(&self) -> ClientBoundView {
        match self {
            ClientBound::Response(p) => ClientBoundView::Response(p@),
            ClientBound::Pong(p) => ClientBoundView::Pong(*p),
        }
    }
}

impl Wire for ClientBound {
    open spec fn spec_valid(v: ClientBoundView) -> bool {
        match v {
            ClientBoundView::Response(p) => encode_utf8(p).len() <= usize::MAX,
            ClientBoundView::Pong(p) => true,
        }
    }

    open spec fn spec_wire(v: ClientBoundView) -> Seq<u8> {
        match v {
            ClientBoundView::Response(p) => spec_encode(0) + spec_str(p),
            ClientBoundView::Pong(p) => spec_encode(1) + spec_be(p as nat, 8),
        }
    }

    open spec fn spec_parse(bytes: Seq<u8>) -> Result<(ClientBoundView, nat), Error> {
        match spec_parse_var_u32(bytes) {
            Err(e) => Err(e),
            Ok((id, n0)) => if id == 0 {
                match spec_parse_str(bytes.skip(n0 as int)) {
                    Err(e) => Err(e),
                    Ok((x, n1)) => Ok((ClientBoundView::Response(x), n0 + n1)),
                }
            } else if id == 1 {
                match spec_parse_be(bytes.skip(n0 as int), 8) {
                    Err(e) => Err(e),
                    Ok((x, n1)) => Ok((ClientBoundView::Pong(x as u64), n0 + n1)),
                }
            } else {
                Err(Error::UnknownVariant(id as u32))
            },
        }
    }

    fn encode(&self, serializer: &mut Serializer) {
        match self {
            ClientBound::Response(p) => {
                serializer.serialize_variant(0);
                serializer.serialize_str(p.as_str());
                assert(serializer@ =~= old(serializer)@ + Self::spec_wire(self@));
            },
            ClientBound::Pong(p) => {
                serializer.serialize_variant(1);
                serializer.serialize_u64(*p);
                assert(serializer@ =~= old(serializer)@ + Self::spec_wire(self@));
            },
        }
    }

    fn decode(deserializer: &mut Deserializer<'_>) -> (r: Result<Self, Error>) {
        let start = deserializer.consumed();
        let ghost d0 = *deserializer;
        let id = match deserializer.deserialize_identifier() {
            Ok(v) => v,
            Err(e) => {
                return Err(e);
            },
        };
        let ghost d1 = *deserializer;
        if id == 0 {
            match deserializer.deserialize_string() {
                Ok(p) => {
                    proof {
                        let n0 = (d1.position() - d0.position()) as nat;
                        let n1 = (deserializer.position() - d1.position()) as nat;
                        Deserializer::lemma_advanced_twice(&d0, &d1, &*deserializer, n0, n1);
                    }
                    Ok(ClientBound::Response(p))
                },
                Err(e) => {
                    deserializer.rewind(start);
                    Err(e)
                },
            }
        } else if id == 1 {
            match deserializer.deserialize_u64() {
                Ok(p) => {
                    proof {
                        let n0 = (d1.position() - d0.position()) as nat;
                        let n1 = (deserializer.position() - d1.position()) as nat;
                        Deserializer::lemma_advanced_twice(&d0, &d1, &*deserializer, n0, n1);
                    }
                    Ok(ClientBound::Pong(p))
                },
                Err(e) => {
                    deserializer.rewind(start);
                    Err(e)
                },
            }
        } else {
            deserializer.rewind(start);
            Err(Error::UnknownVariant(id))
        }
    }

    proof fn lemma_round_trip(v: ClientBoundView, rest: Seq<u8>) {
        let all = Self::spec_wire(v) + rest;
        match v {
            ClientBoundView::Response(p) => {
                let w = spec_str(p);
                assert(all == spec_encode(0) + (w + rest)) by {
                    assert(all =~= spec_encode(0) + (w + rest));
                }
                lemma_parse_var_round_trip(0, w + rest);
                lemma_skip_concat(spec_encode(0), w + rest);
                lemma_parse_str_round_trip(p, rest);
            },
            ClientBoundView::Pong(p) => {
                let w = spec_be(p as nat, 8);
                assert(all == spec_encode(1) + (w + rest)) by {
                    assert(all =~= spec_encode(1) + (w + rest));
                }
                lemma_parse_var_round_trip(1, w + rest);
                lemma_skip_concat(spec_encode(1), w + rest);
                lemma_pow256_values();
                lemma_be_len(p as nat, 8);
                lemma_parse_be_round_trip(p as nat, 8, rest);
            },
        }
    }
}

} // verus!
