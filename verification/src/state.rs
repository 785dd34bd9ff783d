//! The states of a connection.

use crate::de::{lemma_parse_var_round_trip, spec_parse_var_u32, Deserializer};
use crate::err::Error;
use crate::ser::Serializer;
use crate::var_int::spec_encode;
use crate::wire::Wire;
use vstd::prelude::*;

verus! {

/// Where a connection stands in the protocol. A connection starts in
/// `Handshaking`, goes on to `Status` or `Login`, and from `Login` to
/// `Play`; it never goes back.
#[derive(Clone, Copy, Debug, PartialEq, Eq, Structural)]
pub enum State {
    Handshaking,
    Status,
    Login,
    Play,
}

impl View for State {
    type V = State;

    open spec fn view(&self) -> State {
        *self
    }
}

impl State {
    /// The discriminant of the state on the wire.
    pub open spec fn spec_index(self) -> nat {
        match self {
            State::Handshaking => 0,
            State::Status => 1,
            State::Login => 2,
            State::Play => 3,
        }
    }

    /// The state with the discriminant `index`.
    pub open spec fn spec_from_index(index: nat) -> Option<State> {
        if index == 0 {
            Some(State::Handshaking)
        } else if index == 1 {
            Some(State::Status)
        } else if index == 2 {
            Some(State::Login)
        } else if index == 3 {
            Some(State::Play)
        } else {
            None
        }
    }

    /// The state that a peer asks for with the number `value`: `1` is
    /// `Status`, `2` is `Login`, `0` is `Play`, and every other number leaves
    /// the connection in `Handshaking`.
    pub open spec fn spec_requested(value: i32) -> State {
        if value == 0 {
            State::Play
        } else if value == 1 {
            State::Status
        } else if value == 2 {
            State::Login
        } else {
            State::Handshaking
        }
    }

    /// The state that a peer asks for with the number `value`.
    pub fn requested(value: i32) -> (s: State)
        ensures
            s == State::spec_requested(value),
    {
        match value {
            0 => State::Play,
            1 => State::Status,
            2 => State::Login,
            _ => State::Handshaking,
        }
    }

    /// Whether a connection in this state may go on to `next`.
    pub open spec fn spec_may_follow(self, next: State) -> bool {
        match (self, next) {
            (State::Handshaking, State::Status) => true,
            (State::Handshaking, State::Login) => true,
            (State::Login, State::Play) => true,
            _ => false,
        }
    }

    /// Whether a connection in this state may go on to `next`.
    pub fn may_follow(self, next: State) -> (b: bool)
        ensures
            b == self.spec_may_follow(next),
    {
        match (self, next) {
            (State::Handshaking, State::Status) => true,
            (State::Handshaking, State::Login) => true,
            (State::Login, State::Play) => true,
            _ => false,
        }
    }
}

impl From<i32> for State {
    fn from(value: i32) -> (s: State) {
        State::requested(value)
    }
}

impl vstd::std_specs::convert::FromSpecImpl<i32> for State {
    open spec fn obeys_from_spec() -> bool {
        true
    }

    open spec fn from_spec(value: i32) -> State {
        State::spec_requested(value)
    }
}

impl Wire for State {
    open spec fn spec_valid(v: State) -> bool {
        true
    }

    open spec fn spec_wire(v: State) -> Seq<u8> {
        spec_encode(v.spec_index())
    }

    open spec fn spec_parse(bytes: Seq<u8>) -> Result<(State, nat), Error> {
        match spec_parse_var_u32(bytes) {
            Ok((index, consumed)) => match State::spec_from_index(index) {
                Some(state) => Ok((state, consumed)),
                None => Err(Error::UnknownVariant(index as u32)),
            },
            Err(e) => Err(e),
        }
    }

    fn encode(&self, serializer: &mut Serializer) {
        let index: u32 = match self {
            State::Handshaking => 0,
            State::Status => 1,
            State::Login => 2,
            State::Play => 3,
        };
        serializer.serialize_variant(index);
    }

    fn decode(deserializer: &mut Deserializer<'_>) -> (r: Result<Self, Error>) {
        let start = deserializer.consumed();
        match deserializer.deserialize_identifier() {
            Ok(0) => Ok(State::Handshaking),
            Ok(1) => Ok(State::Status),
            Ok(2) => Ok(State::Login),
            Ok(3) => Ok(State::Play),
            Ok(index) => {
                deserializer.rewind(start);
                Err(Error::UnknownVariant(index))
            },
            Err(e) => Err(e),
        }
    }

    proof fn lemma_round_trip(v: State, rest: Seq<u8>) {
        lemma_parse_var_round_trip(v.spec_index(), rest);
    }
}

} // verus!
