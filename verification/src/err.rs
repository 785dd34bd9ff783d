//! What can go wrong while reading wire data.

use crate::text::{decimal, spec_decimal};
use vstd::prelude::*;
use vstd::string::*;

verus! {

/// A failure to read a value from wire data.
#[derive(Debug, PartialEq, Eq)]
pub enum Error {
    /// A failure described in words by whoever raised it.
    Message(String),
    /// The input ends before the value does.
    Eof,
    /// The input ends before the value does: the bytes needed and the bytes
    /// at hand.
    UnexpectedEof(usize, usize),
    /// A string whose bytes are not UTF-8.
    BadUtf8Input,
    /// A variable-length integer of too many groups, or too large for its
    /// target.
    Overflow,
    /// A discriminant that names no variant of the enum being read.
    UnknownVariant(u32),
}

impl Error {
    /// The failure in words.
    pub open spec fn spec_message(&self) -> Seq<char> {
        match self {
            Error::Message(text) => text@,
            Error::Eof => "unexpected end of input"@,
            Error::UnexpectedEof(needed, at_hand) => "unexpected end of input ("@ + spec_decimal(
                *needed as nat,
            ) + ", "@ + spec_decimal(*at_hand as nat) + ")"@,
            Error::BadUtf8Input => "bad utf-8 input"@,
            Error::Overflow => "var int is too long"@,
            Error::UnknownVariant(index) => "unknown variant "@ + spec_decimal(*index as nat),
        }
    }

    /// The failure in words.
    pub fn message(&self) -> (text: String)
        ensures
            text@ == self.spec_message(),
    {
        match self {
            Error::Message(text) => text.clone(),
            Error::Eof => String::from_str("unexpected end of input"),
            Error::UnexpectedEof(needed, at_hand) => {
                let mut text = String::from_str("unexpected end of input (");
                text.append(decimal(*needed as u64).as_str());
                text.append(", ");
                text.append(decimal(*at_hand as u64).as_str());
                text.append(")");
                text
            },
            Error::BadUtf8Input => String::from_str("bad utf-8 input"),
            Error::Overflow => String::from_str("var int is too long"),
            Error::UnknownVariant(index) => {
                let mut text = String::from_str("unknown variant ");
                text.append(decimal(*index as u64).as_str());
                text
            },
        }
    }
}

/// A failure to take a packet out of the byte stream of a connection.
#[derive(Clone, Copy, Debug, PartialEq, Eq, Structural)]
pub enum FrameError {
    /// A length that is no variable-length integer of its width.
    Malformed,
    /// A declared length over the limit; nothing was allocated for it.
    TooLarge,
    /// Compressed data that does not inflate, or not to its declared length.
    BadCompression,
}

} // verus!
