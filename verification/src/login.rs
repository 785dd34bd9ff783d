//! The packets of the login state.

use crate::de::{
    lemma_parse_bytes_round_trip, lemma_parse_str_round_trip, lemma_parse_var_round_trip,
    lemma_skip_concat,
    spec_parse_bytes, spec_parse_str, spec_parse_var_u32, spec_parse_var_usize, Deserializer,
};
use crate::err::Error;
use crate::ser::{spec_bytes, spec_str, Serializer};
use crate::var_int::spec_encode;
use crate::wire::Wire;
use vstd::prelude::*;
use vstd::utf8::encode_utf8;

verus! {

/// The first packet of a login: the name that the player wants.
#[derive(Debug)]
pub struct LoginStart {
    pub name: String,
}

/// A `LoginStart` as values.
pub struct LoginStartView {
    pub name: Seq<char>,
}

impl View for LoginStart {
    type V = LoginStartView;

    open spec fn view(&self) -> LoginStartView {
        LoginStartView {
            name: self.name@,
        }
    }
}

impl Wire for LoginStart {
    open spec fn spec_valid(v: LoginStartView) -> bool {
        encode_utf8(v.name).len() <= usize::MAX
    }

    open spec fn spec_wire(v: LoginStartView) -> Seq<u8> {
        spec_str(v.name)
    }

    open spec fn spec_parse(bytes: Seq<u8>) -> Result<(LoginStartView, nat), Error> {
        match spec_parse_str(bytes) {
            Err(e) => Err(e),
            Ok((x0, n0)) => Ok(
                (
                    LoginStartView {
                        name: x0,
                    },
                    n0,
                ),
            ),
        }
    }

    fn encode(&self, serializer: &mut Serializer) {
        serializer.serialize_str(self.name.as_str());
    }

    fn decode(deserializer: &mut Deserializer<'_>) -> (r: Result<Self, Error>) {
        let name = match deserializer.deserialize_string() {
            Ok(v) => v,
            Err(e) => {
                return Err(e);
            },
        };
        Ok(LoginStart { name })
    }

    proof fn lemma_round_trip(v: LoginStartView, rest: Seq<u8>) {
        lemma_parse_str_round_trip(v.name, rest);
    }
}

/// The answer to an encryption request: the shared secret and the verify token, both
/// encrypted with the public key of the server.
#[derive(Debug)]
pub struct EncryptionResponse {
    pub shared_secret: Vec<u8>,
    pub verify_token: Vec<u8>,
}

/// A `EncryptionResponse` as values.
pub struct EncryptionResponseView {
    pub shared_secret: Seq<u8>,
    pub verify_token: Seq<u8>,
}

impl View for EncryptionResponse {
    type V = EncryptionResponseView;

    open spec fn view(&self) -> EncryptionResponseView {
        EncryptionResponseView {
            shared_secret: self.shared_secret@,
            verify_token: self.verify_token@,
        }
    }
}

impl Wire for EncryptionResponse {
    open spec fn spec_valid(v: EncryptionResponseView) -> bool {
        &&& v.shared_secret.len() <= usize::MAX
        &&& v.verify_token.len() <= usize::MAX
    }

    open spec fn spec_wire(v: EncryptionResponseView) -> Seq<u8> {
        spec_bytes(v.shared_secret) + spec_bytes(v.verify_token)
    }

    open spec fn spec_parse(bytes: Seq<u8>) -> Result<(EncryptionResponseView, nat), Error> {
        match spec_parse_bytes(bytes) {
            Err(e) => Err(e),
            Ok((x0, n0)) => {
                let after0 = bytes.skip(n0 as int);
                match spec_parse_bytes(after0) {
                    Err(e) => Err(e),
                    Ok((x1, n1)) => Ok(
                        (
                            EncryptionResponseView {
                                shared_secret: x0,
                                verify_token: x1,
                            },
                            n0 + n1,
                        ),
                    ),
                }
            },
        }
    }

    fn encode(&self, serializer: &mut Serializer) {
        serializer.serialize_bytes(self.shared_secret.as_slice());
        serializer.serialize_bytes(self.verify_token.as_slice());
    }

    fn decode(deserializer: &mut Deserializer<'_>) -> (r: Result<Self, Error>) {
        let start = deserializer.consumed();
        let ghost d0 = *deserializer;
        let shared_secret = match deserializer.deserialize_byte_buf() {
            Ok(v) => v,
            Err(e) => {
                return Err(e);
            },
        };
        let ghost d1 = *deserializer;
        let verify_token = match deserializer.deserialize_byte_buf() {
            Ok(v) => v,
            Err(e) => {
                deserializer.rewind(start);
                return Err(e);
            },
        };
        proof {
            let n0 = (d1.position() - d0.position()) as nat;
            let n1 = (deserializer.position() - d1.position()) as nat;
            Deserializer::lemma_advanced_twice(&d0, &d1, &*deserializer, n0, n1);
        }
        Ok(EncryptionResponse { shared_secret, verify_token })
    }

    proof fn lemma_round_trip(v: EncryptionResponseView, rest: Seq<u8>) {
        let w0 = spec_bytes(v.shared_secret);
        let w1 = spec_bytes(v.verify_token);
        let t1 = w1 + rest;
        let t0 = w0 + t1;
        assert(Self::spec_wire(v) + rest == t0) by {
            assert(Self::spec_wire(v) + rest =~= t0);
        }
        lemma_parse_bytes_round_trip(v.shared_secret, t1);
        lemma_skip_concat(w0, t1);
        lemma_parse_bytes_round_trip(v.verify_token, rest);
    }
}

/// What a client may send while the connection is in the login state.
#[derive(Debug)]
pub enum ServerBound {
    LoginStart(LoginStart),
    EncryptionResponse(EncryptionResponse),
}

/// A `ServerBound` as values.
pub enum ServerBoundView {
    LoginStart(LoginStartView),
    EncryptionResponse(EncryptionResponseView),
}

impl View for ServerBound {
    type V = ServerBoundView;

    open spec fn view(&self) -> ServerBoundView {
        match self {
            ServerBound::LoginStart(p) => ServerBoundView::LoginStart(p@),
            ServerBound::EncryptionResponse(p) => ServerBoundView::EncryptionResponse(p@),
        }
    }
}

impl Wire for ServerBound {
    open spec fn spec_valid(v: ServerBoundView) -> bool {
        match v {
            ServerBoundView::LoginStart(p) => LoginStart::spec_valid(p),
            ServerBoundView::EncryptionResponse(p) => EncryptionResponse::spec_valid(p),
        }
    }

    open spec fn spec_wire(v: ServerBoundView) -> Seq<u8> {
        match v {
            ServerBoundView::LoginStart(p) => spec_encode(0) + LoginStart::spec_wire(p),
            ServerBoundView::EncryptionResponse(p) => {
                spec_encode(1) + EncryptionResponse::spec_wire(p)
            },
        }
    }

    open spec fn spec_parse(bytes: Seq<u8>) -> Result<(ServerBoundView, nat), Error> {
        match spec_parse_var_u32(bytes) {
            Err(e) => Err(e),
            Ok((id, n0)) => if id == 0 {
                match LoginStart::spec_parse(bytes.skip(n0 as int)) {
                    Err(e) => Err(e),
                    Ok((x, n1)) => Ok((ServerBoundView::LoginStart(x), n0 + n1)),
                }
            } else if id == 1 {
                match EncryptionResponse::spec_parse(bytes.skip(n0 as int)) {
                    Err(e) => Err(e),
                    Ok((x, n1)) => Ok((ServerBoundView::EncryptionResponse(x), n0 + n1)),
                }
            } else {
                Err(Error::UnknownVariant(id as u32))
            },
        }
    }

    fn encode(&self, serializer: &mut Serializer) {
        match self {
            ServerBound::LoginStart(p) => {
                serializer.serialize_variant(0);
                p.encode(serializer);
                assert(serializer@ =~= old(serializer)@ + Self::spec_wire(self@));
            },
            ServerBound::EncryptionResponse(p) => {
                serializer.serialize_variant(1);
                p.encode(serializer);
                assert(serializer@ =~= old(serializer)@ + Self::spec_wire(self@));
            },
        }
    }

    fn decode(deserializer: &mut Deserializer<'_>) -> (r: Result<Self, Error>) {
        let start = deserializer.consumed();
        let ghost d0 = *deserializer;
        let id = match deserializer.deserialize_identifier() {
            Ok(v) => v,
            Err(e) => {
                return Err(e);
            },
        };
        let ghost d1 = *deserializer;
        if id == 0 {
            match LoginStart::decode(deserializer) {
                Ok(p) => {
                    proof {
                        let n0 = (d1.position() - d0.position()) as nat;
                        let n1 = (deserializer.position() - d1.position()) as nat;
                        Deserializer::lemma_advanced_twice(&d0, &d1, &*deserializer, n0, n1);
                    }
                    Ok(ServerBound::LoginStart(p))
                },
                Err(e) => {
                    deserializer.rewind(start);
                    Err(e)
                },
            }
        } else if id == 1 {
            match EncryptionResponse::decode(deserializer) {
                Ok(p) => {
                    proof {
                        let n0 = (d1.position() - d0.position()) as nat;
                        let n1 = (deserializer.position() - d1.position()) as nat;
                        Deserializer::lemma_advanced_twice(&d0, &d1, &*deserializer, n0, n1);
                    }
                    Ok(ServerBound::EncryptionResponse(p))
                },
                Err(e) => {
                    deserializer.rewind(start);
                    Err(e)
                },
            }
        } else {
            deserializer.rewind(start);
            Err(Error::UnknownVariant(id))
        }
    }

    proof fn lemma_round_trip(v: ServerBoundView, rest: Seq<u8>) {
        let all = Self::spec_wire(v) + rest;
        match v {
            ServerBoundView::LoginStart(p) => {
                let w = LoginStart::spec_wire(p);
                assert(all == spec_encode(0) + (w + rest)) by {
                    assert(all =~= spec_encode(0) + (w + rest));
                }
                lemma_parse_var_round_trip(0, w + rest);
                lemma_skip_concat(spec_encode(0), w + rest);
                LoginStart::lemma_round_trip(p, rest);
            },
            ServerBoundView::EncryptionResponse(p) => {
                let w = EncryptionResponse::spec_wire(p);
                assert(all == spec_encode(1) + (w + rest)) by {
                    assert(all =~= spec_encode(1) + (w + rest));
                }
                lemma_parse_var_round_trip(1, w + rest);
                lemma_skip_concat(spec_encode(1), w + rest);
                EncryptionResponse::lemma_round_trip(p, rest);
            },
        }
    }
}

/// Asks the client to agree on a shared secret: the public key to encrypt it with, and a
/// token to send back as proof.
#[derive(Debug)]
pub struct EncryptionRequest {
    pub server_id: String,
    pub public_key: Vec<u8>,
    pub verify_token: Vec<u8>,
}

/// A `EncryptionRequest` as values.
pub struct EncryptionRequestView {
    pub server_id: Seq<char>,
    pub public_key: Seq<u8>,
    pub verify_token: Seq<u8>,
}

impl View for EncryptionRequest {
    type V = EncryptionRequestView;

    open spec fn view(&self) -> EncryptionRequestView {
        EncryptionRequestView {
            server_id: self.server_id@,
            public_key: self.public_key@,
            verify_token: self.verify_token@,
        }
    }
}

impl Wire for EncryptionRequest {
    open spec fn spec_valid(v: EncryptionRequestView) -> bool {
        &&& encode_utf8(v.server_id).len() <= usize::MAX
        &&& v.public_key.len() <= usize::MAX
        &&& v.verify_token.len() <= usize::MAX
    }

    open spec fn spec_wire(v: EncryptionRequestView) -> Seq<u8> {
        spec_str(v.server_id) + spec_bytes(v.public_key) + spec_bytes(v.verify_token)
    }

    open spec fn spec_parse(bytes: Seq<u8>) -> Result<(EncryptionRequestView, nat), Error> {
        match spec_parse_str(bytes) {
            Err(e) => Err(e),
            Ok((x0, n0)) => {
                let after0 = bytes.skip(n0 as int);
                match spec_parse_bytes(after0) {
                    Err(e) => Err(e),
                    Ok((x1, n1)) => {
                        let after1 = after0.skip(n1 as int);
                        match spec_parse_bytes(after1) {
                            Err(e) => Err(e),
                            Ok((x2, n2)) => Ok(
                                (
                                    EncryptionRequestView {
                                        server_id: x0,
                                        public_key: x1,
                                        verify_token: x2,
                                    },
                                    n0 + n1 + n2,
                                ),
                            ),
                        }
                    },
                }
            },
        }
    }

    fn encode(&self, serializer: &mut Serializer) {
        serializer.serialize_str(self.server_id.as_str());
        serializer.serialize_bytes(self.public_key.as_slice());
        serializer.serialize_bytes(self.verify_token.as_slice());
        assert(serializer@ =~= old(serializer)@ + Self::spec_wire(self@));
    }

    fn decode(deserializer: &mut Deserializer<'_>) -> (r: Result<Self, Error>) {
        let start = deserializer.consumed();
        let ghost d0 = *deserializer;
        let server_id = match deserializer.deserialize_string() {
            Ok(v) => v,
            Err(e) => {
                return Err(e);
            },
        };
        let ghost d1 = *deserializer;
        let public_key = match deserializer.deserialize_byte_buf() {
            Ok(v) => v,
            Err(e) => {
                deserializer.rewind(start);
                return Err(e);
            },
        };
        let ghost d2 = *deserializer;
        let verify_token = match deserializer.deserialize_byte_buf() {
            Ok(v) => v,
            Err(e) => {
                deserializer.rewind(start);
                return Err(e);
            },
        };
        proof {
            let n0 = (d1.position() - d0.position()) as nat;
            let n1 = (d2.position() - d1.position()) as nat;
            let n2 = (deserializer.position() - d2.position()) as nat;
            Deserializer::lemma_advanced_twice(&d0, &d1, &d2, n0, n1);
            Deserializer::lemma_advanced_twice(&d0, &d2, &*deserializer, n0 + n1, n2);
        }
        Ok(EncryptionRequest { server_id, public_key, verify_token })
    }

    proof fn lemma_round_trip(v: EncryptionRequestView, rest: Seq<u8>) {
        let w0 = spec_str(v.server_id);
        let w1 = spec_bytes(v.public_key);
        let w2 = spec_bytes(v.verify_token);
        let t2 = w2 + rest;
        let t1 = w1 + t2;
        let t0 = w0 + t1;
        assert(Self::spec_wire(v) + rest == t0) by {
            assert(Self::spec_wire(v) + rest =~= t0);
        }
        lemma_parse_str_round_trip(v.server_id, t1);
        lemma_skip_concat(w0, t1);
        lemma_parse_bytes_round_trip(v.public_key, t2);
        lemma_skip_concat(w1, t2);
        lemma_parse_bytes_round_trip(v.verify_token, rest);
    }
}

/// Ends the login: the identity under which the player goes on.
#[derive(Debug)]
pub struct LoginSuccess {
    pub uuid: String,
    pub username: String,
}

/// A `LoginSuccess` as values.
pub struct LoginSuccessView {
    pub uuid: Seq<char>,
    pub username: Seq<char>,
}

impl View for LoginSuccess {
    type V = LoginSuccessView;

    open spec fn view(&self) -> LoginSuccessView {
        LoginSuccessView {
            uuid: self.uuid@,
            username: self.username@,
        }
    }
}

impl Wire for LoginSuccess {
    open spec fn spec_valid(v: LoginSuccessView) -> bool {
        &&& encode_utf8(v.uuid).len() <= usize::MAX
        &&& encode_utf8(v.username).len() <= usize::MAX
    }

    open spec fn spec_wire(v: LoginSuccessView) -> Seq<u8> {
        spec_str(v.uuid) + spec_str(v.username)
    }

    open spec fn spec_parse(bytes: Seq<u8>) -> Result<(LoginSuccessView, nat), Error> {
        match spec_parse_str(bytes) {
            Err(e) => Err(e),
            Ok((x0, n0)) => {
                let after0 = bytes.skip(n0 as int);
                match spec_parse_str(after0) {
                    Err(e) => Err(e),
                    Ok((x1, n1)) => Ok(
                        (
                            LoginSuccessView {
                                uuid: x0,
                                username: x1,
                            },
                            n0 + n1,
                        ),
                    ),
                }
            },
        }
    }

    fn encode(&self, serializer: &mut Serializer) {
        serializer.serialize_str(self.uuid.as_str());
        serializer.serialize_str(self.username.as_str());
    }

    fn decode(deserializer: &mut Deserializer<'_>) -> (r: Result<Self, Error>) {
        let start = deserializer.consumed();
        let ghost d0 = *deserializer;
        let uuid = match deserializer.deserialize_string() {
            Ok(v) => v,
            Err(e) => {
                return Err(e);
            },
        };
        let ghost d1 = *deserializer;
        let username = match deserializer.deserialize_string() {
            Ok(v) => v,
            Err(e) => {
                deserializer.rewind(start);
                return Err(e);
            },
        };
        proof {
            let n0 = (d1.position() - d0.position()) as nat;
            let n1 = (deserializer.position() - d1.position()) as nat;
            Deserializer::lemma_advanced_twice(&d0, &d1, &*deserializer, n0, n1);
        }
        Ok(LoginSuccess { uuid, username })
    }

    proof fn lemma_round_trip(v: LoginSuccessView, rest: Seq<u8>) {
        let w0 = spec_str(v.uuid);
        let w1 = spec_str(v.username);
        let t1 = w1 + rest;
        let t0 = w0 + t1;
        assert(Self::spec_wire(v) + rest == t0) by {
            assert(Self::spec_wire(v) + rest =~= t0);
        }
        lemma_parse_str_round_trip(v.uuid, t1);
        lemma_skip_concat(w0, t1);
        lemma_parse_str_round_trip(v.username, rest);
    }
}

/// Turns compression on: every later packet whose body is longer than the threshold
/// travels deflated.
#[derive(Debug)]
pub struct SetCompression {
    pub threshold: usize,
}

/// A `SetCompression` as values.
pub struct SetCompressionView {
    pub threshold: usize,
}

impl View for SetCompression {
    type V = SetCompressionView;

    open spec fn view(&self) -> SetCompressionView {
        SetCompressionView {
            threshold: self.threshold,
        }
    }
}

impl Wire for SetCompression {
    open spec fn spec_valid(v: SetCompressionView) -> bool {
        true
    }

    open spec fn spec_wire(v: SetCompressionView) -> Seq<u8> {
        spec_encode(v.threshold as nat)
    }

    open spec fn spec_parse(bytes: Seq<u8>) -> Result<(SetCompressionView, nat), Error> {
        match spec_parse_var_usize(bytes) {
            Err(e) => Err(e),
            Ok((x0, n0)) => Ok(
                (
                    SetCompressionView {
                        threshold: x0 as usize,
                    },
                    n0,
                ),
            ),
        }
    }

    fn encode(&self, serializer: &mut Serializer) {
        serializer.serialize_var_usize(self.threshold);
    }

    fn decode(deserializer: &mut Deserializer<'_>) -> (r: Result<Self, Error>) {
        let threshold = match deserializer.deserialize_var_usize() {
            Ok(v) => v,
            Err(e) => {
                return Err(e);
            },
        };
        Ok(SetCompression { threshold })
    }

    proof fn lemma_round_trip(v: SetCompressionView, rest: Seq<u8>) {
        lemma_parse_var_round_trip(v.threshold as nat, rest);
    }
}

/// What the server sends while the connection is in the login state.
#[derive(Debug)]
pub enum ClientBound {
    /// Ends the connection; the reason is chat JSON.
    Disconnect(String),
    EncryptionRequest(EncryptionRequest),
    LoginSuccess(LoginSuccess),
    SetCompression(SetCompression),
}

/// A `ClientBound` as values.
pub enum ClientBoundView {
    Disconnect(Seq<char>),
    EncryptionRequest(EncryptionRequestView),
    LoginSuccess(LoginSuccessView),
    SetCompression(SetCompressionView),
}

impl View for ClientBound {
    type V = ClientBoundView;

    open spec fn view(&self) -> ClientBoundView {
        match self {
            ClientBound::Disconnect(p) => ClientBoundView::Disconnect(p@),
            ClientBound::EncryptionRequest(p) => ClientBoundView::EncryptionRequest(p@),
            ClientBound::LoginSuccess(p) => ClientBoundView::LoginSuccess(p@),
            ClientBound::SetCompression(p) => ClientBoundView::SetCompression(p@),
        }
    }
}

impl Wire for ClientBound {
    open spec fn spec_valid(v: ClientBoundView) -> bool {
        match v {
            ClientBoundView::Disconnect(p) => encode_utf8(p).len() <= usize::MAX,
            ClientBoundView::EncryptionRequest(p) => EncryptionRequest::spec_valid(p),
            ClientBoundView::LoginSuccess(p) => LoginSuccess::spec_valid(p),
            ClientBoundView::SetCompression(p) => SetCompression::spec_valid(p),
        }
    }

    open spec fn spec_wire(v: ClientBoundView) -> Seq<u8> {
        match v {
            ClientBoundView::Disconnect(p) => spec_encode(0) + spec_str(p),
            ClientBoundView::EncryptionRequest(p) => {
                spec_encode(1) + EncryptionRequest::spec_wire(p)
            },
            ClientBoundView::LoginSuccess(p) => spec_encode(2) + LoginSuccess::spec_wire(p),
            ClientBoundView::SetCompression(p) => spec_encode(3) + SetCompression::spec_wire(p),
        }
    }

    open spec fn spec_parse(bytes: Seq<u8>) -> Result<(ClientBoundView, nat), Error> {
        match spec_parse_var_u32(bytes) {
            Err(e) => Err(e),
            Ok((id, n0)) => if id == 0 {
                match spec_parse_str(bytes.skip(n0 as int)) {
                    Err(e) => Err(e),
                    Ok((x, n1)) => Ok((ClientBoundView::Disconnect(x), n0 + n1)),
                }
            } else if id == 1 {
                match EncryptionRequest::spec_parse(bytes.skip(n0 as int)) {
                    Err(e) => Err(e),
                    Ok((x, n1)) => Ok((ClientBoundView::EncryptionRequest(x), n0 + n1)),
                }
            } else if id == 2 {
                match LoginSuccess::spec_parse(bytes.skip(n0 as int)) {
                    Err(e) => Err(e),
                    Ok((x, n1)) => Ok((ClientBoundView::LoginSuccess(x), n0 + n1)),
                }
            } else if id == 3 {
                match SetCompression::spec_parse(bytes.skip(n0 as int)) {
                    Err(e) => Err(e),
                    Ok((x, n1)) => Ok((ClientBoundView::SetCompression(x), n0 + n1)),
                }
            } else {
                Err(Error::UnknownVariant(id as u32))
            },
        }
    }

    fn encode(&self, serializer: &mut Serializer) {
        match self {
            ClientBound::Disconnect(p) => {
                serializer.serialize_variant(0);
                serializer.serialize_str(p.as_str());
                assert(serializer@ =~= old(serializer)@ + Self::spec_wire(self@));
            },
            ClientBound::EncryptionRequest(p) => {
                serializer.serialize_variant(1);
                p.encode(serializer);
                assert(serializer@ =~= old(serializer)@ + Self::spec_wire(self@));
            },
            ClientBound::LoginSuccess(p) => {
                serializer.serialize_variant(2);
                p.encode(serializer);
                assert(serializer@ =~= old(serializer)@ + Self::spec_wire(self@));
            },
            ClientBound::SetCompression(p) => {
                serializer.serialize_variant(3);
                p.encode(serializer);
                assert(serializer@ =~= old(serializer)@ + Self::spec_wire(self@));
            },
        }
    }

    fn decode(deserializer: &mut Deserializer<'_>) -> (r: Result<Self, Error>) {
        let start = deserializer.consumed();
        let ghost d0 = *deserializer;
        let id = match deserializer.deserialize_identifier() {
            Ok(v) => v,
            Err(e) => {
                return Err(e);
            },
        };
        let ghost d1 = *deserializer;
        if id == 0 {
            match deserializer.deserialize_string() {
                Ok(p) => {
                    proof {
                        let n0 = (d1.position() - d0.position()) as nat;
                        let n1 = (deserializer.position() - d1.position()) as nat;
                        Deserializer::lemma_advanced_twice(&d0, &d1, &*deserializer, n0, n1);
                    }
                    Ok(ClientBound::Disconnect(p))
                },
                Err(e) => {
                    deserializer.rewind(start);
                    Err(e)
                },
            }
        } else if id == 1 {
            match EncryptionRequest::decode(deserializer) {
                Ok(p) => {
                    proof {
                        let n0 = (d1.position() - d0.position()) as nat;
                        let n1 = (deserializer.position() - d1.position()) as nat;
                        Deserializer::lemma_advanced_twice(&d0, &d1, &*deserializer, n0, n1);
                    }
                    Ok(ClientBound::EncryptionRequest(p))
                },
                Err(e) => {
                    deserializer.rewind(start);
                    Err(e)
                },
            }
        } else if id == 2 {
            match LoginSuccess::decode(deserializer) {
                Ok(p) => {
                    proof {
                        let n0 = (d1.position() - d0.position()) as nat;
                        let n1 = (deserializer.position() - d1.position()) as nat;
                        Deserializer::lemma_advanced_twice(&d0, &d1, &*deserializer, n0, n1);
                    }
                    Ok(ClientBound::LoginSuccess(p))
                },
                Err(e) => {
                    deserializer.rewind(start);
                    Err(e)
                },
            }
        } else if id == 3 {
            match SetCompression::decode(deserializer) {
                Ok(p) => {
                    proof {
                        let n0 = (d1.position() - d0.position()) as nat;
                        let n1 = (deserializer.position() - d1.position()) as nat;
                        Deserializer::lemma_advanced_twice(&d0, &d1, &*deserializer, n0, n1);
                    }
                    Ok(ClientBound::SetCompression(p))
                },
                Err(e) => {
                    deserializer.rewind(start);
                    Err(e)
                },
            }
        } else {
            deserializer.rewind(start);
            Err(Error::UnknownVariant(id))
        }
    }

    proof fn lemma_round_trip(v: ClientBoundView, rest: Seq<u8>) {
        let all = Self::spec_wire(v) + rest;
        match v {
            ClientBoundView::Disconnect(p) => {
                let w = spec_str(p);
                assert(all == spec_encode(0) + (w + rest)) by {
                    assert(all =~= spec_encode(0) + (w + rest));
                }
                lemma_parse_var_round_trip(0, w + rest);
                lemma_skip_concat(spec_encode(0), w + rest);
                lemma_parse_str_round_trip(p, rest);
            },
            ClientBoundView::EncryptionRequest(p) => {
                let w = EncryptionRequest::spec_wire(p);
                assert(all == spec_encode(1) + (w + rest)) by {
                    assert(all =~= spec_encode(1) + (w + rest));
                }
                lemma_parse_var_round_trip(1, w + rest);
                lemma_skip_concat(spec_encode(1), w + rest);
                EncryptionRequest::lemma_round_trip(p, rest);
            },
            ClientBoundView::LoginSuccess(p) => {
                let w = LoginSuccess::spec_wire(p);
                assert(all == spec_encode(2) + (w + rest)) by {
                    assert(all =~= spec_encode(2) + (w + rest));
                }
                lemma_parse_var_round_trip(2, w + rest);
                lemma_skip_concat(spec_encode(2), w + rest);
                LoginSuccess::lemma_round_trip(p, rest);
            },
            ClientBoundView::SetCompression(p) => {
                let w = SetCompression::spec_wire(p);
                assert(all == spec_encode(3) + (w + rest)) by {
                    assert(all =~= spec_encode(3) + (w + rest));
                }
                lemma_parse_var_round_trip(3, w + rest);
                lemma_skip_concat(spec_encode(3), w + rest);
                SetCompression::lemma_round_trip(p, rest);
            },
        }
    }
}

} // verus!
