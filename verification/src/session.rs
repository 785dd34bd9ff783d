//! The state machine of one connection: what arrives is taken apart into
//! packets, each packet is handled as the state of the connection asks, and
//! what has to happen next is handed back as a list of actions.
//!
//! The session owns the framing state, so that the cipher and compression
//! come into force between exactly the packets where the protocol wants
//! them. It reaches nothing outside: bytes come in as events, and so do the
//! key pair, the result of decrypting with the private key and the word of
//! the session server; bytes to write and requests for those go out as
//! actions.

use crate::auth::{PlayerAuthenticationStatus, PlayerAuthenticationStatusView};
use crate::chat::{Chat, ChatView};
use crate::cipher::{CipherState, SECRET_LEN};
use crate::de::spec_parse_var_u32;
use crate::handshake;
use crate::handshake::{is_legacy_ping, spec_is_legacy_ping};
use crate::login;
use crate::login::{
    EncryptionRequest, EncryptionRequestView, LoginSuccess, LoginSuccessView, SetCompression,
    SetCompressionView,
};
use crate::net::{Connection, ConnectionState};
use crate::ser::append_bytes;
use crate::sha1::{notchian_hexdigest, sha1, sha1_of, spec_signed_hex_or_zero};
use crate::state::State;
use crate::status;
use crate::var_int::decode_u32;
use crate::wire::{from_slice, to_vec, Wire};
use vstd::prelude::*;
use vstd::slice::{slice_subrange, slice_to_vec};
use vstd::string::*;

verus! {

/// How far a login has come.
#[derive(Clone, Copy, Debug, PartialEq, Eq, Structural)]
pub enum LoginPhase {
    /// Nothing has arrived yet.
    Start,
    /// The player has given a name; a key pair is needed to go on.
    AwaitKey,
    /// The encryption request is out; the response is awaited.
    AwaitResponse,
    /// The response is in; what it holds is being decrypted.
    AwaitDecrypt,
    /// The cipher is in place; the session server is being asked.
    AwaitAuth,
}

/// What happens to a connection from outside.
#[derive(Debug)]
#[allow(inconsistent_fields)]
pub enum Event {
    /// A read of the socket gave these bytes.
    Received(Vec<u8>),
    /// A key pair is at hand: the public key in the form in which clients
    /// take it, and the token that the client is to send back.
    KeyReady { public_key: Vec<u8>, verify_token: Vec<u8> },
    /// The private key was tried on the two parts of the encryption
    /// response; a part that did not decrypt is absent.
    Decrypted { shared_secret: Option<Vec<u8>>, verify_token: Option<Vec<u8>> },
    /// The session server has answered.
    Authenticated(PlayerAuthenticationStatus),
    /// The session server could not be asked.
    AuthenticationFailed,
    /// A packet body was queued from elsewhere to be sent on this
    /// connection.
    Outbound(Vec<u8>),
}

/// An `Event` as values.
#[allow(inconsistent_fields)]
pub enum EventView {
    Received(Seq<u8>),
    KeyReady { public_key: Seq<u8>, verify_token: Seq<u8> },
    Decrypted { shared_secret: Option<Seq<u8>>, verify_token: Option<Seq<u8>> },
    Authenticated(PlayerAuthenticationStatusView),
    AuthenticationFailed,
    Outbound(Seq<u8>),
}

impl View for Event {
    type V = EventView;

    open spec fn view(&self) -> EventView {
        match self {
            Event::Received(bytes) => EventView::Received(bytes@),
            Event::KeyReady { public_key, verify_token } => EventView::KeyReady {
                public_key: public_key@,
                verify_token: verify_token@,
            },
            Event::Decrypted { shared_secret, verify_token } => EventView::Decrypted {
                shared_secret: match shared_secret {
                    Some(s) => Some(s@),
                    None => None,
                },
                verify_token: match verify_token {
                    Some(s) => Some(s@),
                    None => None,
                },
            },
            Event::Authenticated(status) => EventView::Authenticated(status@),
            Event::AuthenticationFailed => EventView::AuthenticationFailed,
            Event::Outbound(body) => EventView::Outbound(body@),
        }
    }
}

/// What the owner of the socket is to do for a connection.
#[derive(Debug)]
pub enum Action {
    /// Write these bytes to the socket.
    Send(Vec<u8>),
    /// Close the socket; the session takes nothing more.
    Close,
    /// Take a key pair from the pool and answer with `Event::KeyReady`.
    RequestKey,
    /// Decrypt both with the private key of the pair and answer with
    /// `Event::Decrypted`.
    DecryptRsa { shared_secret: Vec<u8>, verify_token: Vec<u8> },
    /// Ask the session server whether the player has joined, and answer
    /// with `Event::Authenticated` or `Event::AuthenticationFailed`.
    Authenticate { username: String, server_hash: String },
    /// The player is in: the game may begin.
    Joined { uuid: String, username: String },
    /// A packet of the play state for the game to handle: its id and what
    /// follows the id.
    Dispatch { id: u32, body: Vec<u8> },
    /// A packet of the play state with an id that nothing handles.
    Unhandled { id: u32 },
}

/// An `Action` as values.
pub enum ActionView {
    Send(Seq<u8>),
    Close,
    RequestKey,
    DecryptRsa { shared_secret: Seq<u8>, verify_token: Seq<u8> },
    Authenticate { username: Seq<char>, server_hash: Seq<char> },
    Joined { uuid: Seq<char>, username: Seq<char> },
    Dispatch { id: u32, body: Seq<u8> },
    Unhandled { id: u32 },
}

impl View for Action {
    type V = ActionView;

    open spec fn view(&self) -> ActionView {
        match self {
            Action::Send(bytes) => ActionView::Send(bytes@),
            Action::Close => ActionView::Close,
            Action::RequestKey => ActionView::RequestKey,
            Action::DecryptRsa { shared_secret, verify_token } => ActionView::DecryptRsa {
                shared_secret: shared_secret@,
                verify_token: verify_token@,
            },
            Action::Authenticate { username, server_hash } => ActionView::Authenticate {
                username: username@,
                server_hash: server_hash@,
            },
            Action::Joined { uuid, username } => ActionView::Joined {
                uuid: uuid@,
                username: username@,
            },
            Action::Dispatch { id, body } => ActionView::Dispatch { id: *id, body: body@ },
            Action::Unhandled { id } => ActionView::Unhandled { id: *id },
        }
    }
}

/// The views of a list of actions.
pub open spec fn spec_actions(actions: Seq<Action>) -> Seq<ActionView> {
    actions.map_values(|a: Action| a@)
}

/// Whether the play state has a handler for the packet id.
pub open spec fn spec_is_handled(id: u32) -> bool {
    id == 0x00 || id == 0x01 || id == 0x03 || id == 0x04 || id == 0x05 || id == 0x06 || id == 0x15
        || id == 0x17
}

/// Whether the play state has a handler for the packet id.
pub fn is_handled(id: u32) -> (b: bool)
    ensures
        b == spec_is_handled(id),
{
    id == 0x00 || id == 0x01 || id == 0x03 || id == 0x04 || id == 0x05 || id == 0x06 || id == 0x15
        || id == 0x17
}

/// The reason given to a player when the session server could not be
/// asked.
pub open spec fn spec_failure_reason() -> Seq<char> {
    ChatView::start().text("Authentication failure!"@).finish()
}

/// The reason given to a player when the session server gave no usable
/// answer.
pub open spec fn spec_unavailable_reason() -> Seq<char> {
    ChatView::start().text("Authentication server is unavailable."@).finish()
}

/// The hash under which the session server knows a login: the digest of the
/// shared secret followed by the public key, as a signed hexadecimal
/// numeral.
pub open spec fn spec_server_hash(shared_secret: Seq<u8>, public_key: Seq<u8>) -> Seq<char> {
    spec_signed_hex_or_zero(sha1_of(shared_secret + public_key))
}

/// A session as values.
pub struct SessionView {
    pub connection: ConnectionState,
    pub state: State,
    pub phase: LoginPhase,
    /// Whether logins are encrypted and checked with the session server.
    pub online: bool,
    /// The threshold with which compression is turned on at login.
    pub compression: Option<usize>,
    pub status_json: Seq<char>,
    pub player_name: Seq<char>,
    pub public_key: Seq<u8>,
    pub verify_token: Seq<u8>,
    pub closed: bool,
}

impl SessionView {
    /// A session that has seen nothing.
    pub open spec fn start(
        online: bool,
        compression: Option<usize>,
        status_json: Seq<char>,
    ) -> SessionView {
        SessionView {
            connection: ConnectionState::start(),
            state: State::Handshaking,
            phase: LoginPhase::Start,
            online,
            compression,
            status_json,
            player_name: Seq::empty(),
            public_key: Seq::empty(),
            verify_token: Seq::empty(),
            closed: false,
        }
    }

    /// The session closed.
    pub open spec fn close(self) -> (SessionView, Seq<ActionView>) {
        (SessionView { closed: true, ..self }, seq![ActionView::Close])
    }

    /// The session after the packet body `body` was framed for sending; a
    /// body that cannot be framed closes the session.
    pub open spec fn sent(self, body: Seq<u8>) -> (SessionView, Seq<ActionView>) {
        match self.connection.framed(body) {
            Ok(wire) => (
                SessionView { connection: self.connection.after_frame(body), ..self },
                seq![ActionView::Send(wire)],
            ),
            Err(_) => self.close(),
        }
    }

    /// The session after `body` was framed for sending as the last thing it
    /// does.
    pub open spec fn sent_last(self, body: Seq<u8>) -> (SessionView, Seq<ActionView>) {
        let (next, actions) = self.sent(body);
        if next.closed {
            (next, actions)
        } else {
            (SessionView { closed: true, ..next }, actions.push(ActionView::Close))
        }
    }

    /// A packet in the handshaking state: only a handshake that asks for
    /// the status or for a login is taken.
    pub open spec fn on_handshake(self, body: Seq<u8>) -> (SessionView, Seq<ActionView>) {
        match handshake::ServerBound::spec_parse(body) {
            Ok((handshake, _)) => if handshake.next_state == State::Status || handshake.next_state
                == State::Login {
                (SessionView { state: handshake.next_state, ..self }, Seq::empty())
            } else {
                self.close()
            },
            Err(_) => self.close(),
        }
    }

    /// A packet in the status state: a request is answered with the
    /// description of the server, a ping with its payload, and the ping ends
    /// the connection.
    pub open spec fn on_status(self, body: Seq<u8>) -> (SessionView, Seq<ActionView>) {
        match status::ServerBound::spec_parse(body) {
            Ok((status::ServerBoundView::Request, _)) => self.sent(
                status::ClientBound::spec_wire(status::ClientBoundView::Response(self.status_json)),
            ),
            Ok((status::ServerBoundView::Ping(payload), _)) => self.sent_last(
                status::ClientBound::spec_wire(status::ClientBoundView::Pong(payload)),
            ),
            Err(_) => self.close(),
        }
    }

    /// The player is told that the login succeeded, and the connection goes
    /// on to the play state.
    pub open spec fn welcomed(self, uuid: Seq<char>) -> (SessionView, Seq<ActionView>) {
        let (next, told) = self.sent(
            login::ClientBound::spec_wire(
                login::ClientBoundView::LoginSuccess(
                    LoginSuccessView { uuid, username: self.player_name },
                ),
            ),
        );
        if next.closed {
            (next, told)
        } else {
            (
                SessionView { state: State::Play, ..next },
                told.push(ActionView::Joined { uuid, username: self.player_name }),
            )
        }
    }

    /// The end of a login: where the session is set up for compression, the
    /// threshold is announced and comes into force; then the player is
    /// welcomed.
    pub open spec fn logged_in(self, uuid: Seq<char>) -> (SessionView, Seq<ActionView>) {
        match self.compression {
            Some(threshold) => {
                let (next, announced) = self.sent(
                    login::ClientBound::spec_wire(
                        login::ClientBoundView::SetCompression(SetCompressionView { threshold }),
                    ),
                );
                if next.closed {
                    (next, announced)
                } else {
                    let (last, told) = (SessionView {
                        connection: ConnectionState {
                            threshold: Some(threshold),
                            ..next.connection
                        },
                        ..next
                    }).welcomed(uuid);
                    (last, announced + told)
                }
            },
            None => self.welcomed(uuid),
        }
    }

    /// A packet in the login state. The login start is taken at the start,
    /// the encryption response while it is awaited, and nothing else.
    pub open spec fn on_login(self, body: Seq<u8>, uuid: Seq<char>) -> (
        SessionView,
        Seq<ActionView>,
    ) {
        match login::ServerBound::spec_parse(body) {
            Ok((login::ServerBoundView::LoginStart(start), _)) => if self.phase
                != LoginPhase::Start {
                self.close()
            } else if self.online {
                (
                    SessionView { player_name: start.name, phase: LoginPhase::AwaitKey, ..self },
                    seq![ActionView::RequestKey],
                )
            } else {
                (SessionView { player_name: start.name, ..self }).logged_in(uuid)
            },
            Ok((login::ServerBoundView::EncryptionResponse(response), _)) => if self.phase
                != LoginPhase::AwaitResponse {
                self.close()
            } else {
                (
                    SessionView { phase: LoginPhase::AwaitDecrypt, ..self },
                    seq![
                        ActionView::DecryptRsa {
                            shared_secret: response.shared_secret,
                            verify_token: response.verify_token,
                        },
                    ],
                )
            },
            Err(_) => self.close(),
        }
    }

    /// A packet in the play state: handed on by its id where the id is
    /// known, reported and passed over where it is not.
    pub open spec fn on_play(self, body: Seq<u8>) -> (SessionView, Seq<ActionView>) {
        match spec_parse_var_u32(body) {
            Ok((id, consumed)) => if spec_is_handled(id as u32) {
                (
                    self,
                    seq![ActionView::Dispatch { id: id as u32, body: body.skip(consumed as int) }],
                )
            } else {
                (self, seq![ActionView::Unhandled { id: id as u32 }])
            },
            Err(_) => self.close(),
        }
    }

    /// One packet, handled as the state of the connection asks.
    pub open spec fn on_packet(self, body: Seq<u8>, uuid: Seq<char>) -> (
        SessionView,
        Seq<ActionView>,
    ) {
        match self.state {
            State::Handshaking => self.on_handshake(body),
            State::Status => self.on_status(body),
            State::Login => self.on_login(body, uuid),
            State::Play => self.on_play(body),
        }
    }

    /// Every whole packet among the pending bytes, handled in order, until
    /// more bytes are needed or the session closes.
    pub open spec fn drained(self, uuid: Seq<char>) -> (SessionView, Seq<ActionView>)
        decreases self.connection.pending.len(),
    {
        if self.closed {
            (self, Seq::empty())
        } else {
            match self.connection.polled() {
                Ok(None) => (self, Seq::empty()),
                Err(_) => {
                    (SessionView { connection: self.connection.after_poll(), ..self }).close()
                },
                Ok(Some(body)) => {
                    let taken = SessionView { connection: self.connection.after_poll(), ..self };
                    let (next, first) = taken.on_packet(body, uuid);
                    if next.connection.pending.len() < self.connection.pending.len() {
                        let (last, rest) = next.drained(uuid);
                        (last, first + rest)
                    } else {
                        (next, first)
                    }
                },
            }
        }
    }

    /// Bytes from the socket: a legacy ping at the start of a connection
    /// closes it; everything else is framing.
    pub open spec fn on_received(self, bytes: Seq<u8>, uuid: Seq<char>) -> (
        SessionView,
        Seq<ActionView>,
    ) {
        let fed = SessionView { connection: self.connection.fed(bytes), ..self };
        if fed.state == State::Handshaking && spec_is_legacy_ping(fed.connection.pending) {
            fed.close()
        } else {
            fed.drained(uuid)
        }
    }

    /// A key pair arrived: the encryption request goes out.
    pub open spec fn on_key(self, public_key: Seq<u8>, verify_token: Seq<u8>) -> (
        SessionView,
        Seq<ActionView>,
    ) {
        let (next, actions) = (SessionView { public_key, verify_token, ..self }).sent(
            login::ClientBound::spec_wire(
                login::ClientBoundView::EncryptionRequest(
                    EncryptionRequestView { server_id: Seq::empty(), public_key, verify_token },
                ),
            ),
        );
        if next.closed {
            (next, actions)
        } else {
            (SessionView { phase: LoginPhase::AwaitResponse, ..next }, actions)
        }
    }

    /// The encryption response was decrypted: the token must be the one
    /// that went out and the secret must fit the cipher; then the cipher
    /// comes into force and the session server is asked.
    pub open spec fn on_decrypted(
        self,
        shared_secret: Option<Seq<u8>>,
        verify_token: Option<Seq<u8>>,
    ) -> (SessionView, Seq<ActionView>) {
        match (shared_secret, verify_token) {
            (Some(secret), Some(token)) => if token == self.verify_token && secret.len()
                == SECRET_LEN {
                (
                    SessionView {
                        connection: ConnectionState {
                            cipher: Some(CipherState::start(secret)),
                            ..self.connection
                        },
                        phase: LoginPhase::AwaitAuth,
                        ..self
                    },
                    seq![
                        ActionView::Authenticate {
                            username: self.player_name,
                            server_hash: spec_server_hash(secret, self.public_key),
                        },
                    ],
                )
            } else {
                self.close()
            },
            _ => self.close(),
        }
    }

    /// The session server answered.
    pub open spec fn on_authenticated(self, status: PlayerAuthenticationStatusView) -> (
        SessionView,
        Seq<ActionView>,
    ) {
        match status {
            PlayerAuthenticationStatusView::Authenticated(uuid) => self.logged_in(uuid),
            PlayerAuthenticationStatusView::Unauthenticated => self.close(),
            PlayerAuthenticationStatusView::ServerError => self.sent_last(
                login::ClientBound::spec_wire(
                    login::ClientBoundView::Disconnect(spec_unavailable_reason()),
                ),
            ),
        }
    }

    /// What an event makes of the session: the session after it, and what
    /// is to be done. A closed session takes nothing, and an answer that
    /// nothing waits for is passed over.
    pub open spec fn on_event(self, event: EventView, uuid: Seq<char>) -> (
        SessionView,
        Seq<ActionView>,
    ) {
        if self.closed {
            (self, Seq::empty())
        } else {
            match event {
                EventView::Received(bytes) => self.on_received(bytes, uuid),
                EventView::KeyReady { public_key, verify_token } => if self.state == State::Login
                    && self.phase == LoginPhase::AwaitKey {
                    self.on_key(public_key, verify_token)
                } else {
                    (self, Seq::empty())
                },
                EventView::Decrypted { shared_secret, verify_token } => if self.state
                    == State::Login && self.phase == LoginPhase::AwaitDecrypt {
                    self.on_decrypted(shared_secret, verify_token)
                } else {
                    (self, Seq::empty())
                },
                EventView::Authenticated(status) => if self.state == State::Login && self.phase
                    == LoginPhase::AwaitAuth {
                    self.on_authenticated(status)
                } else {
                    (self, Seq::empty())
                },
                EventView::AuthenticationFailed => if self.state == State::Login && self.phase
                    == LoginPhase::AwaitAuth {
                    self.sent_last(
                        login::ClientBound::spec_wire(
                            login::ClientBoundView::Disconnect(spec_failure_reason()),
                        ),
                    )
                } else {
                    (self, Seq::empty())
                },
                EventView::Outbound(body) => self.sent(body),
            }
        }
    }
}

/// Whether two byte strings are the same.
pub fn bytes_equal(a: &[u8], b: &[u8]) -> (same: bool)
    ensures
        same == (a@ == b@),
{
    if a.len() != b.len() {
        return false;
    }
    let mut i: usize = 0;
    while i < a.len()
        invariant
            i <= a@.len(),
            a@.len() == b@.len(),
            a@.take(i as int) == b@.take(i as int),
        decreases a@.len() - i,
    {
        if a[i] != b[i] {
            return false;
        }
        i = i + 1;
        assert(a@.take(i as int) =~= a@.take(i - 1).push(a@[i - 1]));
        assert(b@.take(i as int) =~= b@.take(i - 1).push(b@[i - 1]));
    }
    assert(a@.take(a@.len() as int) =~= a@);
    assert(b@.take(b@.len() as int) =~= b@);
    true
}

/// Puts `action` at the end of `actions`.
pub fn push_action(actions: &mut Vec<Action>, action: Action)
    ensures
        spec_actions(final(actions)@) == spec_actions(old(actions)@).push(action@),
{
    actions.push(action);
    assert(spec_actions(actions@) =~= spec_actions(old(actions)@).push(action@));
}

/// `uuid::Uuid::new_v4` and its `to_string`: a random identifier in the
/// hyphenated form, which has thirty-six characters.
#[verifier::external_body]
fn random_uuid() -> (text: String)
    ensures
        text@.len() == 36,
{
    uuid::Uuid::new_v4().to_string()
}

/// The state of one connection.
pub struct Session {
    connection: Connection,
    state: State,
    phase: LoginPhase,
    online: bool,
    compression: Option<usize>,
    status_json: String,
    player_name: String,
    public_key: Vec<u8>,
    verify_token: Vec<u8>,
    closed: bool,
}

impl View for Session {
    type V = SessionView;

    closed spec fn view(&self) -> SessionView {
        SessionView {
            connection: self.connection@,
            state: self.state,
            phase: self.phase,
            online: self.online,
            compression: self.compression,
            status_json: self.status_json@,
            player_name: self.player_name@,
            public_key: self.public_key@,
            verify_token: self.verify_token@,
            closed: self.closed,
        }
    }
}

impl Session {
    /// A session for a connection that was just accepted. `online` says
    /// whether logins are encrypted and checked with the session server,
    /// `compression` with which threshold compression is turned on at
    /// login, and `status_json` what the server says of itself.
    pub fn new(online: bool, compression: Option<usize>, status_json: String) -> (session: Self)
        ensures
            session@ == SessionView::start(online, compression, status_json@),
    {
        Self {
            connection: Connection::new(),
            state: State::Handshaking,
            phase: LoginPhase::Start,
            online,
            compression,
            status_json,
            player_name: String::new(),
            public_key: Vec::new(),
            verify_token: Vec::new(),
            closed: false,
        }
    }

    /// The state of the connection.
    pub fn state(&self) -> (state: State)
        ensures
            state == self@.state,
    {
        self.state
    }

    /// How far the login has come.
    pub fn phase(&self) -> (phase: LoginPhase)
        ensures
            phase == self@.phase,
    {
        self.phase
    }

    /// Whether the session is closed.
    pub fn is_closed(&self) -> (closed: bool)
        ensures
            closed == self@.closed,
    {
        self.closed
    }

    /// The name that the player gave at login.
    pub fn player_name(&self) -> (name: &str)
        ensures
            name@ == self@.player_name,
    {
        self.player_name.as_str()
    }

    /// The framing state of the connection.
    pub fn connection(&self) -> (connection: &Connection)
        ensures
            connection@ == self@.connection,
    {
        &self.connection
    }

    fn close(&mut self, actions: &mut Vec<Action>)
        ensures
            final(self)@ == old(self)@.close().0,
            spec_actions(final(actions)@) == spec_actions(old(actions)@) + old(self)@.close().1,
    {
        self.closed = true;
        push_action(actions, Action::Close);
        assert(spec_actions(actions@) =~= spec_actions(old(actions)@) + old(self)@.close().1);
    }

    fn send_body(&mut self, body: &[u8], actions: &mut Vec<Action>)
        ensures
            final(self)@ == old(self)@.sent(body@).0,
            spec_actions(final(actions)@) == spec_actions(old(actions)@) + old(self)@.sent(body@).1,
    {
        match self.connection.frame(body) {
            Ok(wire) => {
                push_action(actions, Action::Send(wire));
                assert(spec_actions(actions@) =~= spec_actions(old(actions)@) + old(self)@.sent(
                    body@,
                ).1);
            },
            Err(_) => {
                self.close(actions);
            },
        }
    }

    fn send_last(&mut self, body: &[u8], actions: &mut Vec<Action>)
        ensures
            final(self)@ == old(self)@.sent_last(body@).0,
            spec_actions(final(actions)@) == spec_actions(old(actions)@) + old(self)@.sent_last(
                body@,
            ).1,
    {
        self.send_body(body, actions);
        if !self.closed {
            self.closed = true;
            push_action(actions, Action::Close);
            assert(spec_actions(actions@) =~= spec_actions(old(actions)@) + old(self)@.sent_last(
                body@,
            ).1);
        }
    }

    fn on_handshake(&mut self, body: &[u8], actions: &mut Vec<Action>)
        ensures
            final(self)@ == old(self)@.on_handshake(body@).0,
            spec_actions(final(actions)@) == spec_actions(old(actions)@) + old(self)@.on_handshake(
                body@,
            ).1,
    {
        match from_slice::<handshake::ServerBound>(body) {
            Ok((_, handshake::ServerBound::Handshake(handshake))) => {
                match handshake.next_state {
                    State::Status => {
                        self.state = State::Status;
                        assert(spec_actions(actions@) =~= spec_actions(old(actions)@)
                            + Seq::<ActionView>::empty());
                    },
                    State::Login => {
                        self.state = State::Login;
                        assert(spec_actions(actions@) =~= spec_actions(old(actions)@)
                            + Seq::<ActionView>::empty());
                    },
                    _ => {
                        self.close(actions);
                    },
                }
            },
            Err(_) => {
                self.close(actions);
            },
        }
    }

    fn on_status(&mut self, body: &[u8], actions: &mut Vec<Action>)
        ensures
            final(self)@ == old(self)@.on_status(body@).0,
            spec_actions(final(actions)@) == spec_actions(old(actions)@) + old(self)@.on_status(
                body@,
            ).1,
    {
        match from_slice::<status::ServerBound>(body) {
            Ok((_, status::ServerBound::Request)) => {
                let answer = to_vec(&status::ClientBound::Response(self.status_json.clone()));
                self.send_body(answer.as_slice(), actions);
            },
            Ok((_, status::ServerBound::Ping(payload))) => {
                let answer = to_vec(&status::ClientBound::Pong(payload));
                self.send_last(answer.as_slice(), actions);
            },
            Err(_) => {
                self.close(actions);
            },
        }
    }

    fn welcome(&mut self, uuid: String, actions: &mut Vec<Action>)
        ensures
            final(self)@ == old(self)@.welcomed(uuid@).0,
            spec_actions(final(actions)@) == spec_actions(old(actions)@) + old(self)@.welcomed(
                uuid@,
            ).1,
    {
        let packet = login::ClientBound::LoginSuccess(
            LoginSuccess { uuid: uuid.clone(), username: self.player_name.clone() },
        );
        let body = to_vec(&packet);
        self.send_body(body.as_slice(), actions);
        if self.closed {
            return ;
        }
        self.state = State::Play;
        push_action(actions, Action::Joined { uuid, username: self.player_name.clone() });
        assert(spec_actions(actions@) =~= spec_actions(old(actions)@) + old(self)@.welcomed(
            uuid@,
        ).1);
    }

    fn logged_in(&mut self, uuid: String, actions: &mut Vec<Action>)
        ensures
            final(self)@ == old(self)@.logged_in(uuid@).0,
            spec_actions(final(actions)@) == spec_actions(old(actions)@) + old(self)@.logged_in(
                uuid@,
            ).1,
    {
        match self.compression {
            Some(threshold) => {
                let packet = login::ClientBound::SetCompression(SetCompression { threshold });
                let body = to_vec(&packet);
                self.send_body(body.as_slice(), actions);
                if self.closed {
                    return ;
                }
                let ghost announced = old(self)@.sent(body@).1;
                let ghost switched = self@;
                self.connection.set_threshold(Some(threshold));
                let ghost compressed = self@;
                self.welcome(uuid, actions);
                assert(spec_actions(actions@) =~= spec_actions(old(actions)@) + (announced
                    + compressed.welcomed(uuid@).1));
            },
            None => {
                self.welcome(uuid, actions);
            },
        }
    }

    fn on_login(&mut self, body: &[u8], uuid: &str, actions: &mut Vec<Action>)
        ensures
            final(self)@ == old(self)@.on_login(body@, uuid@).0,
            spec_actions(final(actions)@) == spec_actions(old(actions)@) + old(self)@.on_login(
                body@,
                uuid@,
            ).1,
    {
        match from_slice::<login::ServerBound>(body) {
            Ok((_, login::ServerBound::LoginStart(start))) => {
                if self.phase != LoginPhase::Start {
                    self.close(actions);
                } else if self.online {
                    self.player_name = start.name;
                    self.phase = LoginPhase::AwaitKey;
                    push_action(actions, Action::RequestKey);
                    assert(spec_actions(actions@) =~= spec_actions(old(actions)@) + old(
                        self,
                    )@.on_login(body@, uuid@).1);
                } else {
                    self.player_name = start.name;
                    self.logged_in(uuid.to_owned(), actions);
                }
            },
            Ok((_, login::ServerBound::EncryptionResponse(response))) => {
                if self.phase != LoginPhase::AwaitResponse {
                    self.close(actions);
                } else {
                    self.phase = LoginPhase::AwaitDecrypt;
                    push_action(
                        actions,
                        Action::DecryptRsa {
                            shared_secret: response.shared_secret,
                            verify_token: response.verify_token,
                        },
                    );
                    assert(spec_actions(actions@) =~= spec_actions(old(actions)@) + old(
                        self,
                    )@.on_login(body@, uuid@).1);
                }
            },
            Err(_) => {
                self.close(actions);
            },
        }
    }

    fn on_play(&mut self, body: &[u8], actions: &mut Vec<Action>)
        ensures
            final(self)@ == old(self)@.on_play(body@).0,
            spec_actions(final(actions)@) == spec_actions(old(actions)@) + old(self)@.on_play(
                body@,
            ).1,
    {
        match decode_u32(body) {
            Ok((consumed, id)) => {
                proof {
                    crate::var_int::lemma_decode_bounds(body@, 5);
                }
                if is_handled(id) {
                    let rest = slice_to_vec(slice_subrange(body, consumed, body.len()));
                    push_action(actions, Action::Dispatch { id, body: rest });
                } else {
                    push_action(actions, Action::Unhandled { id });
                }
                assert(spec_actions(actions@) =~= spec_actions(old(actions)@) + old(self)@.on_play(
                    body@,
                ).1);
            },
            Err(_) => {
                self.close(actions);
            },
        }
    }

    fn on_packet(&mut self, body: &[u8], uuid: &str, actions: &mut Vec<Action>)
        ensures
            final(self)@ == old(self)@.on_packet(body@, uuid@).0,
            spec_actions(final(actions)@) == spec_actions(old(actions)@) + old(self)@.on_packet(
                body@,
                uuid@,
            ).1,
    {
        match self.state {
            State::Handshaking => self.on_handshake(body, actions),
            State::Status => self.on_status(body, actions),
            State::Login => self.on_login(body, uuid, actions),
            State::Play => self.on_play(body, actions),
        }
    }

    /// Handles every whole packet among the pending bytes, in order, until
    /// more bytes are needed or the session closes.
    fn handle_incoming_data(&mut self, uuid: &str, actions: &mut Vec<Action>)
        ensures
            final(self)@ == old(self)@.drained(uuid@).0,
            spec_actions(final(actions)@) == spec_actions(old(actions)@) + old(self)@.drained(
                uuid@,
            ).1,
    {
        proof {
            assert(spec_actions(actions@) + self@.drained(uuid@).1 =~= spec_actions(old(actions)@)
                + old(self)@.drained(uuid@).1);
        }
        loop
            invariant_except_break
                old(self)@.drained(uuid@).0 == self@.drained(uuid@).0,
                spec_actions(old(actions)@) + old(self)@.drained(uuid@).1 == spec_actions(actions@)
                    + self@.drained(uuid@).1,
            ensures
                final(self)@ == old(self)@.drained(uuid@).0,
                spec_actions(actions@) == spec_actions(old(actions)@) + old(self)@.drained(uuid@).1,
            decreases self@.connection.pending.len(),
        {
            if self.closed {
                assert(spec_actions(actions@) + Seq::<ActionView>::empty() =~= spec_actions(
                    actions@,
                ));
                break ;
            }
            let ghost before = self@;
            let ghost done = spec_actions(actions@);
            match self.connection.poll() {
                Ok(None) => {
                    assert(done + Seq::<ActionView>::empty() =~= done);
                    break ;
                },
                Err(_) => {
                    self.close(actions);
                    break ;
                },
                Ok(Some(body)) => {
                    let ghost taken = self@;
                    self.on_packet(body.as_slice(), uuid, actions);
                    proof {
                        crate::net::lemma_poll_shrinks(before.connection);
                        lemma_packet_keeps_pending(taken, body@, uuid@);
                        let (next, first) = taken.on_packet(body@, uuid@);
                        assert(done + (first + next.drained(uuid@).1) =~= (done + first)
                            + next.drained(uuid@).1);
                    }
                },
            }
        }
    }

    /// What an event makes of the session, with `uuid` as the identifier
    /// for a player who logs in without the session server.
    pub fn handle(&mut self, event: Event, uuid: &str) -> (actions: Vec<Action>)
        ensures
            final(self)@ == old(self)@.on_event(event@, uuid@).0,
            spec_actions(actions@) == old(self)@.on_event(event@, uuid@).1,
    {
        let mut actions: Vec<Action> = Vec::new();
        proof {
            assert(spec_actions(actions@) =~= Seq::<ActionView>::empty());
        }
        if self.closed {
            return actions;
        }
        match event {
            Event::Received(bytes) => {
                self.connection.feed(bytes.as_slice());
                if self.state == State::Handshaking && is_legacy_ping(self.connection.pending()) {
                    self.close(&mut actions);
                } else {
                    self.handle_incoming_data(uuid, &mut actions);
                }
            },
            Event::KeyReady { public_key, verify_token } => {
                if self.state == State::Login && self.phase == LoginPhase::AwaitKey {
                    let packet = login::ClientBound::EncryptionRequest(
                        EncryptionRequest {
                            server_id: String::new(),
                            public_key: public_key.clone(),
                            verify_token: verify_token.clone(),
                        },
                    );
                    self.public_key = public_key;
                    self.verify_token = verify_token;
                    let body = to_vec(&packet);
                    self.send_body(body.as_slice(), &mut actions);
                    if !self.closed {
                        self.phase = LoginPhase::AwaitResponse;
                    }
                }
            },
            Event::Decrypted { shared_secret, verify_token } => {
                if self.state == State::Login && self.phase == LoginPhase::AwaitDecrypt {
                    match (shared_secret, verify_token) {
                        (Some(secret), Some(token)) => {
                            if bytes_equal(token.as_slice(), self.verify_token.as_slice()) {
                                match self.connection.enable_encryption(secret.as_slice()) {
                                    Ok(()) => {
                                        self.phase = LoginPhase::AwaitAuth;
                                        let mut hashed = secret;
                                        append_bytes(&mut hashed, self.public_key.as_slice());
                                        let digest = sha1(hashed.as_slice());
                                        push_action(
                                            &mut actions,
                                            Action::Authenticate {
                                                username: self.player_name.clone(),
                                                server_hash: notchian_hexdigest(&digest),
                                            },
                                        );
                                    },
                                    Err(_) => {
                                        self.close(&mut actions);
                                    },
                                }
                            } else {
                                self.close(&mut actions);
                            }
                        },
                        _ => {
                            self.close(&mut actions);
                        },
                    }
                }
            },
            Event::Authenticated(status) => {
                if self.state == State::Login && self.phase == LoginPhase::AwaitAuth {
                    match status {
                        PlayerAuthenticationStatus::Authenticated(uuid) => {
                            self.logged_in(uuid, &mut actions);
                        },
                        PlayerAuthenticationStatus::Unauthenticated => {
                            self.close(&mut actions);
                        },
                        PlayerAuthenticationStatus::ServerError => {
                            let reason = Chat::new().text(
                                "Authentication server is unavailable.",
                            ).finish();
                            let body = to_vec(&login::ClientBound::Disconnect(reason));
                            self.send_last(body.as_slice(), &mut actions);
                        },
                    }
                }
            },
            Event::AuthenticationFailed => {
                if self.state == State::Login && self.phase == LoginPhase::AwaitAuth {
                    let reason = Chat::new().text("Authentication failure!").finish();
                    let body = to_vec(&login::ClientBound::Disconnect(reason));
                    self.send_last(body.as_slice(), &mut actions);
                }
            },
            Event::Outbound(body) => {
                self.send_body(body.as_slice(), &mut actions);
            },
        }
        proof {
            assert(Seq::<ActionView>::empty() + old(self)@.on_event(event@, uuid@).1 =~= old(
                self,
            )@.on_event(event@, uuid@).1);
        }
        actions
    }
}

/// A packet leaves the pending bytes as they are: it was taken out of them
/// before it was handled.
pub proof fn lemma_packet_keeps_pending(session: SessionView, body: Seq<u8>, uuid: Seq<char>)
    ensures
        session.on_packet(body, uuid).0.connection.pending == session.connection.pending,
{
}

impl SessionView {
    /// What holds of every session that is not closed, whatever has arrived.
    /// Before the login there is neither cipher nor compression. During the
    /// login the cipher is in force exactly from the moment the shared
    /// secret was accepted, and compression is not yet. In the play state
    /// the cipher is there exactly for an online session, and the threshold
    /// is the one the session was set up with.
    pub open spec fn well_formed(self) -> bool {
        self.closed || {
            &&& (self.state == State::Handshaking || self.state == State::Status) ==> {
                &&& self.connection.cipher is None
                &&& self.connection.threshold is None
                &&& self.phase == LoginPhase::Start
            }
            &&& self.state == State::Login ==> {
                &&& self.connection.threshold is None
                &&& (self.connection.cipher is Some <==> self.phase == LoginPhase::AwaitAuth)
            }
            &&& self.state == State::Play ==> {
                &&& self.connection.threshold == self.compression
                &&& (self.connection.cipher is Some <==> self.online)
            }
            &&& !self.online ==> self.phase == LoginPhase::Start
        }
    }

    /// Whether `next` is the same session later on: set up alike, and, where
    /// both are in the play state, with compression and cipher as they
    /// were.
    pub open spec fn settled(self, next: SessionView) -> bool {
        &&& next.online == self.online
        &&& next.compression == self.compression
        &&& next.status_json == self.status_json
        &&& (self.state == State::Play && !next.closed) ==> {
            &&& next.state == State::Play
            &&& next.connection.threshold == self.connection.threshold
            &&& (next.connection.cipher is Some <==> self.connection.cipher is Some)
        }
    }
}

/// A packet keeps a session well formed and set up as it was.
pub proof fn lemma_packet_keeps_well_formed(session: SessionView, body: Seq<u8>, uuid: Seq<char>)
    requires
        session.well_formed(),
    ensures
        session.on_packet(body, uuid).0.well_formed(),
        session.settled(session.on_packet(body, uuid).0),
{
}

/// However many packets arrive together, the session stays well formed and
/// set up as it was.
pub proof fn lemma_drained_keeps_well_formed(session: SessionView, uuid: Seq<char>)
    requires
        session.well_formed(),
    ensures
        session.drained(uuid).0.well_formed(),
        session.settled(session.drained(uuid).0),
    decreases session.connection.pending.len(),
{
    if !session.closed {
        if let Ok(Some(body)) = session.connection.polled() {
            let taken = SessionView { connection: session.connection.after_poll(), ..session };
            let next = taken.on_packet(body, uuid).0;
            lemma_packet_keeps_well_formed(taken, body, uuid);
            if next.connection.pending.len() < session.connection.pending.len() {
                lemma_drained_keeps_well_formed(next, uuid);
            }
        }
    }
}

/// A session starts well formed.
pub proof fn lemma_start_well_formed(
    online: bool,
    compression: Option<usize>,
    status_json: Seq<char>,
)
    ensures
        SessionView::start(online, compression, status_json).well_formed(),
{
}

/// No event breaks a session: the cipher comes into force only with an
/// accepted secret, compression only at the end of the login, and once the
/// play state is reached neither changes again.
pub proof fn lemma_event_keeps_well_formed(session: SessionView, event: EventView, uuid: Seq<char>)
    requires
        session.well_formed(),
    ensures
        session.on_event(event, uuid).0.well_formed(),
        session.settled(session.on_event(event, uuid).0),
{
    if !session.closed {
        if let EventView::Received(bytes) = event {
            let fed = SessionView { connection: session.connection.fed(bytes), ..session };
            lemma_drained_keeps_well_formed(fed, uuid);
        }
    }
}

/// A wrong verify token ends the login: the session closes, and no cipher
/// comes into force.
pub proof fn lemma_wrong_token_is_fatal(
    session: SessionView,
    shared_secret: Option<Seq<u8>>,
    verify_token: Option<Seq<u8>>,
    uuid: Seq<char>,
)
    requires
        !session.closed,
        session.state == State::Login,
        session.phase == LoginPhase::AwaitDecrypt,
        verify_token != Some(session.verify_token),
    ensures
        ({
            let (next, actions) = session.on_event(
                EventView::Decrypted { shared_secret, verify_token },
                uuid,
            );
            &&& next.closed
            &&& actions == seq![ActionView::Close]
            &&& next.connection == session.connection
        }),
{
}

/// Whether `next` can follow `session`: the state is the same or one step
/// on, and a closed session stays closed.
pub open spec fn spec_follows(session: SessionView, next: SessionView) -> bool {
    &&& next.state == session.state || session.state.spec_may_follow(next.state)
    &&& session.closed ==> next.closed
}

/// A packet never takes a connection back: the state stays or goes one step
/// on.
pub proof fn lemma_packet_moves_forward(session: SessionView, body: Seq<u8>, uuid: Seq<char>)
    ensures
        spec_follows(session, session.on_packet(body, uuid).0),
{
}

/// However many packets arrive together, the state goes on by at most the
/// steps that the protocol has, in their order, and never back.
pub proof fn lemma_drained_moves_forward(session: SessionView, uuid: Seq<char>)
    ensures
        ({
            let last = session.drained(uuid).0;
            &&& session.closed ==> last.closed
            &&& last.state == session.state || session.state.spec_may_follow(last.state) || (
            session.state == State::Handshaking && last.state == State::Play)
        }),
    decreases session.connection.pending.len(),
{
    if !session.closed {
        if let Ok(Some(body)) = session.connection.polled() {
            let taken = SessionView { connection: session.connection.after_poll(), ..session };
            let next = taken.on_packet(body, uuid).0;
            lemma_packet_moves_forward(taken, body, uuid);
            if next.connection.pending.len() < session.connection.pending.len() {
                lemma_drained_moves_forward(next, uuid);
            }
        }
    }
}

/// No event takes a connection back to a state it has left, and no event
/// opens a closed session again.
pub proof fn lemma_event_moves_forward(session: SessionView, event: EventView, uuid: Seq<char>)
    ensures
        ({
            let last = session.on_event(event, uuid).0;
            &&& session.closed ==> last == session
            &&& last.state == session.state || session.state.spec_may_follow(last.state) || (
            session.state == State::Handshaking && last.state == State::Play)
        }),
{
    if !session.closed {
        if let EventView::Received(bytes) = event {
            let fed = SessionView { connection: session.connection.fed(bytes), ..session };
            lemma_drained_moves_forward(fed, uuid);
        }
    }
}

/// What an event makes of the session. A player who logs in without the
/// session server gets a random identifier: the outcome is that of `handle`
/// for some identifier of thirty-six characters.
pub fn handle_event(session: &mut Session, event: Event) -> (actions: Vec<Action>)
    ensures
        exists|uuid: Seq<char>|
            uuid.len() == 36 && final(session)@ == #[trigger] old(session)@.on_event(
                event@,
                uuid,
            ).0 && spec_actions(actions@) == old(session)@.on_event(event@, uuid).1,
{
    let uuid = random_uuid();
    let actions = session.handle(event, uuid.as_str());
    proof {
        assert(final(session)@ == old(session)@.on_event(event@, uuid@).0);
    }
    actions
}

} // verus!
