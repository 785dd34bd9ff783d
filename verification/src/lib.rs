//! Codec and connection framing for a length-prefixed, stateful game
//! protocol: variable-length integers, a structured serializer and
//! deserializer, a stream cipher and compression over packet frames, and the
//! connection state machine.
//!
//! Nothing here touches a socket. Bytes that were read are handed in, bytes
//! to write are handed out, and what the library does with them is stated
//! in contracts over sequences of bytes.

pub mod auth;
pub mod bits;
pub mod chat;
pub mod cipher;
pub mod compress;
pub mod de;
pub mod err;
pub mod handshake;
pub mod key_pool;
pub mod login;
pub mod net;
pub mod packets;
pub mod ser;
pub mod session;
pub mod sha1;
pub mod state;
pub mod status;
pub mod text;
pub mod var_int;
pub mod wire;

pub use crate::err::Error;
pub use crate::state::State;
pub use crate::wire::{from_slice, to_vec, to_vec_with_id, to_vec_with_size, Wire};
