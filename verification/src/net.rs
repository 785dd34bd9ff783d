//! The framing layer of a connection: bytes arrive in pieces of any size and
//! leave as whole packets; packets go out length-prefixed, compressed and
//! encrypted as the connection is set up.
//!
//! The connection does no reading or writing itself. Whoever owns the socket
//! hands it what was read with `feed`, asks for packets with `poll` until
//! it answers that more bytes are needed, and writes what `frame` returns.

use crate::cipher::{cfb8_decrypted, CipherState, Encryption, InvalidSecret};
use crate::compress::{pack, spec_pack, spec_unpack, unpack, MAX_BODY_LEN};
use crate::err::{Error, FrameError};
use crate::login::{ClientBound, ClientBoundView, SetCompression, SetCompressionView};
use crate::ser::{append_bytes, spec_with_size, with_size};
use crate::var_int::{
    decode_u32, lemma_decode_bounds, lemma_decode_encode, lemma_decode_extend, lemma_encode_shape,
    lemma_encoded_len_bound, lemma_pow128_values, spec_decode_u32, spec_encode, VarIntError,
};
use crate::wire::{from_slice, to_vec, Wire};
use vstd::prelude::*;
use vstd::slice::{slice_subrange, slice_to_vec};

verus! {

/// The first frame in `pending`: its payload and the bytes it takes, length
/// included; nothing while the frame is not all there.
pub open spec fn spec_split(pending: Seq<u8>) -> Result<Option<(Seq<u8>, nat)>, FrameError> {
    match spec_decode_u32(pending) {
        Err(VarIntError::Incomplete) => Ok(None),
        Err(VarIntError::Overflow) => Err(FrameError::Malformed),
        Ok((prefix, len)) => if len > MAX_BODY_LEN {
            Err(FrameError::TooLarge)
        } else if pending.len() < prefix + len {
            Ok(None)
        } else {
            Ok(Some((pending.subrange(prefix as int, (prefix + len) as int), prefix + len)))
        },
    }
}

/// A connection as values: the bytes that arrived and were not handed out
/// yet, the compression threshold, and the cipher.
pub struct ConnectionState {
    pub pending: Seq<u8>,
    pub threshold: Option<usize>,
    pub cipher: Option<CipherState>,
}

impl ConnectionState {
    /// A connection that has seen nothing, without compression or cipher.
    pub open spec fn start() -> ConnectionState {
        ConnectionState { pending: Seq::empty(), threshold: None, cipher: None }
    }

    /// The connection after `chunk` arrived.
    pub open spec fn fed(self, chunk: Seq<u8>) -> ConnectionState {
        match self.cipher {
            Some(cipher) => ConnectionState {
                pending: self.pending + cipher.decrypted(chunk),
                cipher: Some(cipher.after_decrypt(chunk)),
                ..self
            },
            None => ConnectionState { pending: self.pending + chunk, ..self },
        }
    }

    /// The connection after each of `chunks` arrived, in order.
    pub open spec fn fed_all(self, chunks: Seq<Seq<u8>>) -> ConnectionState
        decreases chunks.len(),
    {
        if chunks.len() == 0 {
            self
        } else {
            self.fed(chunks.first()).fed_all(chunks.drop_first())
        }
    }

    /// The body that the payload of a frame holds.
    pub open spec fn opened(self, payload: Seq<u8>) -> Result<Seq<u8>, FrameError> {
        match self.threshold {
            Some(_) => spec_unpack(payload),
            None => Ok(payload),
        }
    }

    /// What asking for the next packet gives: its body, or nothing while
    /// more bytes are needed.
    pub open spec fn polled(self) -> Result<Option<Seq<u8>>, FrameError> {
        match spec_split(self.pending) {
            Err(e) => Err(e),
            Ok(None) => Ok(None),
            Ok(Some((payload, consumed))) => match self.opened(payload) {
                Ok(body) => Ok(Some(body)),
                Err(e) => Err(e),
            },
        }
    }

    /// The connection after it was asked for the next packet: a whole frame
    /// is gone from the pending bytes, whether or not its payload could be
    /// opened; all else stays.
    pub open spec fn after_poll(self) -> ConnectionState {
        match spec_split(self.pending) {
            Ok(Some((payload, consumed))) => ConnectionState {
                pending: self.pending.skip(consumed as int),
                ..self
            },
            _ => self,
        }
    }

    /// The payload of the frame that carries `body`.
    pub open spec fn payload_of(self, body: Seq<u8>) -> Seq<u8> {
        match self.threshold {
            Some(threshold) => spec_pack(body, threshold as nat),
            None => body,
        }
    }

    /// The bytes that go on the wire for `body`, where its payload is
    /// within the limit.
    pub open spec fn framed(self, body: Seq<u8>) -> Result<Seq<u8>, FrameError> {
        let frame = spec_with_size(self.payload_of(body));
        if self.payload_of(body).len() > MAX_BODY_LEN {
            Err(FrameError::TooLarge)
        } else {
            match self.cipher {
                Some(cipher) => Ok(cipher.encrypted(frame)),
                None => Ok(frame),
            }
        }
    }

    /// Whether the bytes that go on the wire for `body` decrypt to its
    /// frame from the register that they were encrypted from. This is what
    /// the cipher is there for; every call of `frame` establishes it.
    pub open spec fn deciphers(self, body: Seq<u8>) -> bool {
        match (self.cipher, self.framed(body)) {
            (Some(cipher), Ok(wire)) => cfb8_decrypted(cipher.key, cipher.encrypt_register, wire)
                == spec_with_size(self.payload_of(body)),
            _ => true,
        }
    }

    /// Whether a connection in state `receiver` is set up to read what this
    /// one sends: compression set alike, and either no cipher on both sides
    /// or ciphers in step.
    pub open spec fn reaches(self, receiver: ConnectionState) -> bool {
        &&& receiver.threshold == self.threshold
        &&& match (self.cipher, receiver.cipher) {
            (Some(ours), Some(theirs)) => ours.in_step(theirs),
            (None, None) => true,
            _ => false,
        }
    }

    /// The connection after the frame for `body` was made.
    pub open spec fn after_frame(self, body: Seq<u8>) -> ConnectionState {
        if self.payload_of(body).len() > MAX_BODY_LEN {
            self
        } else {
            match self.cipher {
                Some(cipher) => ConnectionState {
                    cipher: Some(cipher.after_encrypt(spec_with_size(self.payload_of(body)))),
                    ..self
                },
                None => self,
            }
        }
    }
}

/// The length that a frame starts with.
#[derive(Clone, Copy, Debug, PartialEq, Eq, Structural)]
pub struct PacketSize(pub usize);

impl View for PacketSize {
    type V = usize;

    open spec fn view(&self) -> usize {
        self.0
    }
}

impl Wire for PacketSize {
    open spec fn spec_valid(v: usize) -> bool {
        true
    }

    open spec fn spec_wire(v: usize) -> Seq<u8> {
        spec_encode(v as nat)
    }

    open spec fn spec_parse(bytes: Seq<u8>) -> Result<(usize, nat), Error> {
        match crate::de::spec_parse_var_usize(bytes) {
            Err(e) => Err(e),
            Ok((value, n)) => Ok((value as usize, n)),
        }
    }

    fn encode(&self, serializer: &mut crate::ser::Serializer) {
        serializer.serialize_var_usize(self.0);
    }

    fn decode(deserializer: &mut crate::de::Deserializer<'_>) -> (r: Result<Self, Error>) {
        match deserializer.deserialize_var_usize() {
            Ok(value) => Ok(PacketSize(value)),
            Err(e) => Err(e),
        }
    }

    proof fn lemma_round_trip(v: usize, rest: Seq<u8>) {
        crate::de::lemma_parse_var_round_trip(v as nat, rest);
    }
}

/// A failure to receive a record.
#[derive(Debug, PartialEq, Eq)]
pub enum RecvError {
    /// No packet could be taken out of the stream.
    Frame(FrameError),
    /// The body of the packet is not the record that was asked for.
    Decode(Error),
}

/// The framing state of one connection.
pub struct Connection {
    encryption: Option<Encryption>,
    compression_threshold: Option<usize>,
    pending: Vec<u8>,
}

impl View for Connection {
    type V = ConnectionState;

    closed spec fn view(&self) -> ConnectionState {
        ConnectionState {
            pending: self.pending@,
            threshold: self.compression_threshold,
            cipher: match self.encryption {
                Some(e) => Some(e@),
                None => None,
            },
        }
    }
}

impl Connection {
    /// A connection that has seen nothing, without compression or cipher.
    pub fn new() -> (c: Self)
        ensures
            c@ == ConnectionState::start(),
    {
        Self { encryption: None, compression_threshold: None, pending: Vec::new() }
    }

    /// The compression threshold, where compression is on.
    pub fn compression_threshold(&self) -> (t: Option<usize>)
        ensures
            t == self@.threshold,
    {
        self.compression_threshold
    }

    /// Whether a cipher is in place.
    pub fn is_encrypted(&self) -> (b: bool)
        ensures
            b == self@.cipher.is_some(),
    {
        self.encryption.is_some()
    }

    /// The number of bytes that arrived and were not handed out yet.
    pub fn pending_len(&self) -> (n: usize)
        ensures
            n == self@.pending.len(),
    {
        self.pending.len()
    }

    /// Puts a cipher made from `shared_secret` in place, for both
    /// directions, from the next byte on. A secret of the wrong length
    /// changes nothing.
    pub fn enable_encryption(&mut self, shared_secret: &[u8]) -> (r: Result<(), InvalidSecret>)
        ensures
            r is Ok <==> shared_secret@.len() == crate::cipher::SECRET_LEN,
            r is Ok ==> final(self)@ == (ConnectionState {
                cipher: Some(CipherState::start(shared_secret@)),
                ..old(self)@
            }),
            r is Err ==> final(self)@ == old(self)@,
    {
        match Encryption::new(shared_secret) {
            Ok(encryption) => {
                self.encryption = Some(encryption);
                Ok(())
            },
            Err(e) => Err(e),
        }
    }

    /// Turns compression on, with the given threshold, or off.
    pub fn set_threshold(&mut self, threshold: Option<usize>)
        ensures
            final(self)@ == (ConnectionState { threshold, ..old(self)@ }),
    {
        self.compression_threshold = threshold;
    }

    /// Takes in what a read of the socket gave: decrypted where a cipher is
    /// in place, then kept behind what is pending. However the bytes of the
    /// stream are cut into reads, the connection ends in the same state.
    pub fn feed(&mut self, chunk: &[u8])
        ensures
            final(self)@ == old(self)@.fed(chunk@),
            forall|n: int|
                #![trigger chunk@.take(n)]
                0 <= n <= chunk@.len() ==> final(self)@ == old(self)@.fed(chunk@.take(n)).fed(
                    chunk@.skip(n),
                ),
    {
        match &mut self.encryption {
            Some(encryption) => {
                let mut plain = slice_to_vec(chunk);
                encryption.decrypt(&mut plain);
                append_bytes(&mut self.pending, plain.as_slice());
            },
            None => {
                append_bytes(&mut self.pending, chunk);
            },
        }
        proof {
            assert forall|n: int| 0 <= n <= chunk@.len() implies final(self)@ == old(self)@.fed(
                #[trigger] chunk@.take(n),
            ).fed(chunk@.skip(n)) by {
                let pieces = old(self)@.fed(chunk@.take(n)).fed(chunk@.skip(n));
                assert(chunk@.take(n) + chunk@.skip(n) =~= chunk@);
                assert(pieces.pending =~= self@.pending);
            }
        }
    }

    /// Hands out the body of the next packet, or nothing while more bytes
    /// are needed. A whole frame leaves the pending bytes even where its
    /// payload cannot be opened; what follows it stays for the next call.
    pub fn poll(&mut self) -> (r: Result<Option<Vec<u8>>, FrameError>)
        ensures
            match old(self)@.polled() {
                Ok(Some(body)) => r matches Ok(Some(bytes)) && bytes@ == body,
                Ok(None) => r == Ok::<Option<Vec<u8>>, FrameError>(None),
                Err(e) => r == Err::<Option<Vec<u8>>, FrameError>(e),
            },
            final(self)@ == old(self)@.after_poll(),
    {
        match decode_u32(self.pending.as_slice()) {
            Err(VarIntError::Incomplete) => Ok(None),
            Err(VarIntError::Overflow) => Err(FrameError::Malformed),
            Ok((prefix, len)) => {
                proof {
                    lemma_decode_bounds(self.pending@, 5);
                }
                if len as usize > MAX_BODY_LEN {
                    Err(FrameError::TooLarge)
                } else if self.pending.len() - prefix < len as usize {
                    Ok(None)
                } else {
                    let end = prefix + len as usize;
                    let rest = self.pending.split_off(end);
                    let payload = slice_subrange(self.pending.as_slice(), prefix, end);
                    let r = match self.compression_threshold {
                        Some(_) => match unpack(payload) {
                            Ok(body) => Ok(Some(body)),
                            Err(e) => Err(e),
                        },
                        None => Ok(Some(slice_to_vec(payload))),
                    };
                    assert(payload@ =~= old(self)@.pending.subrange(prefix as int, end as int));
                    self.pending = rest;
                    r
                }
            },
        }
    }

    /// The pending bytes, as they arrived: for a look at what a connection
    /// starts with.
    pub fn pending(&self) -> (bytes: &[u8])
        ensures
            bytes@ == self@.pending,
    {
        self.pending.as_slice()
    }

    /// Makes the bytes that go on the wire for the packet body `body`:
    /// packed where compression is on, behind the payload's length, and
    /// encrypted where a cipher is in place. A payload over the limit is
    /// refused and changes nothing. The payload of a body within the limit
    /// opens to the body again on a connection with compression set alike.
    pub fn frame(&mut self, body: &[u8]) -> (r: Result<Vec<u8>, FrameError>)
        ensures
            match old(self)@.framed(body@) {
                Ok(wire) => r matches Ok(bytes) && bytes@ == wire,
                Err(e) => r == Err::<Vec<u8>, FrameError>(e),
            },
            final(self)@ == old(self)@.after_frame(body@),
            body@.len() <= MAX_BODY_LEN ==> old(self)@.opened(old(self)@.payload_of(body@)) == Ok::<
                Seq<u8>,
                FrameError,
            >(body@),
            old(self)@.deciphers(body@),
    {
        let mut frame = match self.compression_threshold {
            Some(threshold) => {
                let payload = pack(body, threshold);
                if payload.len() > MAX_BODY_LEN {
                    return Err(FrameError::TooLarge);
                }
                with_size(payload.as_slice())
            },
            None => {
                if body.len() > MAX_BODY_LEN {
                    return Err(FrameError::TooLarge);
                }
                with_size(body)
            },
        };
        match &mut self.encryption {
            Some(encryption) => {
                encryption.encrypt(&mut frame);
            },
            None => {},
        }
        Ok(frame)
    }
}

impl ConnectionState {
    /// What receiving a record of a type with the parser `parse` gives.
    pub open spec fn received<V>(
        self,
        parse: spec_fn(Seq<u8>) -> Result<(V, nat), Error>,
    ) -> Result<Option<V>, RecvError> {
        match self.polled() {
            Err(e) => Err(RecvError::Frame(e)),
            Ok(None) => Ok(None),
            Ok(Some(body)) => match parse(body) {
                Ok((v, consumed)) => Ok(Some(v)),
                Err(e) => Err(RecvError::Decode(e)),
            },
        }
    }

    /// The connection after compression was turned on or off, and the bytes
    /// to send before the change takes effect: the packet that announces
    /// the threshold, framed as the connection stood.
    pub open spec fn compression_set(self, threshold: Option<usize>) -> (
        ConnectionState,
        Result<Option<Seq<u8>>, FrameError>,
    ) {
        match threshold {
            Some(t) => {
                let body = ClientBound::spec_wire(
                    ClientBoundView::SetCompression(SetCompressionView { threshold: t }),
                );
                match self.framed(body) {
                    Ok(wire) => (
                        ConnectionState { threshold, ..self.after_frame(body) },
                        Ok(Some(wire)),
                    ),
                    Err(e) => (self, Err(e)),
                }
            },
            None => (ConnectionState { threshold, ..self }, Ok(None)),
        }
    }
}

impl Connection {
    /// Makes the bytes that go on the wire for the record `p`.
    pub fn send<P: Wire>(&mut self, p: &P) -> (r: Result<Vec<u8>, FrameError>)
        ensures
            match old(self)@.framed(P::spec_wire(p@)) {
                Ok(wire) => r matches Ok(bytes) && bytes@ == wire,
                Err(e) => r == Err::<Vec<u8>, FrameError>(e),
            },
            final(self)@ == old(self)@.after_frame(P::spec_wire(p@)),
    {
        let body = to_vec(p);
        self.frame(body.as_slice())
    }

    /// Hands out the next packet as a record, or nothing while more bytes
    /// are needed. Bytes of the body after the record are not looked at.
    pub fn recv<P: Wire>(&mut self) -> (r: Result<Option<P>, RecvError>)
        ensures
            match old(self)@.received(|bytes: Seq<u8>| P::spec_parse(bytes)) {
                Ok(Some(v)) => r matches Ok(Some(record)) && record@ == v,
                Ok(None) => r matches Ok(None),
                Err(e) => r matches Err(f) && f == e,
            },
            final(self)@ == old(self)@.after_poll(),
    {
        match self.poll() {
            Err(e) => Err(RecvError::Frame(e)),
            Ok(None) => Ok(None),
            Ok(Some(body)) => match from_slice::<P>(body.as_slice()) {
                Ok((_, record)) => Ok(Some(record)),
                Err(e) => Err(RecvError::Decode(e)),
            },
        }
    }

    /// Turns compression on, with the given threshold, or off. Turning it
    /// on gives the bytes that tell the client so; they are framed as the
    /// connection stood, and must be written before anything else. Where
    /// they cannot be made, nothing changes.
    pub fn set_compression(&mut self, threshold: Option<usize>) -> (r: Result<
        Option<Vec<u8>>,
        FrameError,
    >)
        ensures
            final(self)@ == old(self)@.compression_set(threshold).0,
            match old(self)@.compression_set(threshold).1 {
                Ok(Some(wire)) => r matches Ok(Some(bytes)) && bytes@ == wire,
                Ok(None) => r matches Ok(None),
                Err(e) => r == Err::<Option<Vec<u8>>, FrameError>(e),
            },
    {
        let announced = match threshold {
            Some(t) => {
                let packet = ClientBound::SetCompression(SetCompression { threshold: t });
                match self.send(&packet) {
                    Ok(bytes) => Some(bytes),
                    Err(e) => {
                        return Err(e);
                    },
                }
            },
            None => None,
        };
        self.compression_threshold = threshold;
        Ok(announced)
    }
}

/// A frame at the front of the bytes comes out whole, whatever follows it:
/// its payload, and exactly its own bytes taken.
pub proof fn lemma_split_frame(payload: Seq<u8>, rest: Seq<u8>)
    requires
        payload.len() <= MAX_BODY_LEN,
    ensures
        spec_split(spec_with_size(payload) + rest) == Ok::<Option<(Seq<u8>, nat)>, FrameError>(
            Some((payload, spec_with_size(payload).len())),
        ),
        (spec_with_size(payload) + rest).skip(spec_with_size(payload).len() as int) == rest,
{
    let prefix = spec_encode(payload.len());
    let all = spec_with_size(payload) + rest;
    lemma_pow128_values();
    lemma_encode_shape(payload.len());
    lemma_encoded_len_bound(payload.len(), 5);
    assert(all =~= prefix + (payload + rest));
    lemma_decode_encode(payload.len(), payload + rest, 5);
    assert(all.subrange(prefix.len() as int, (prefix.len() + payload.len()) as int) =~= payload);
    assert(all.skip(spec_with_size(payload).len() as int) =~= rest);
}

/// A record sent as a frame arrives as that record: framing, taking the
/// frame out of the stream and reading its body undo writing the record.
pub proof fn lemma_record_arrives<T: Wire>(v: T::V)
    requires
        T::spec_valid(v),
        T::spec_wire(v).len() <= MAX_BODY_LEN,
    ensures
        ConnectionState::start().framed(T::spec_wire(v)) == Ok::<Seq<u8>, FrameError>(
            spec_with_size(T::spec_wire(v)),
        ),
        ConnectionState::start().fed(spec_with_size(T::spec_wire(v))).received(
            |bytes: Seq<u8>| T::spec_parse(bytes),
        ) == Ok::<Option<T::V>, RecvError>(Some(v)),
{
    let body = T::spec_wire(v);
    let state = ConnectionState::start().fed(spec_with_size(body));
    assert(state.pending =~= spec_with_size(body) + Seq::<u8>::empty());
    lemma_split_frame(body, Seq::empty());
    T::lemma_round_trip(v, Seq::empty());
    assert(body + Seq::<u8>::empty() =~= body);
}

/// What one connection frames, another that it reaches takes apart again:
/// the body comes out as it went in, nothing is left over, and the two stay
/// set up for each other. The two facts about the sender are what `frame`
/// ensures of every body within the limit.
pub proof fn lemma_frame_arrives(
    sender: ConnectionState,
    receiver: ConnectionState,
    body: Seq<u8>,
    wire: Seq<u8>,
)
    requires
        sender.framed(body) == Ok::<Seq<u8>, FrameError>(wire),
        sender.opened(sender.payload_of(body)) == Ok::<Seq<u8>, FrameError>(body),
        sender.deciphers(body),
        sender.reaches(receiver),
        receiver.pending.len() == 0,
    ensures
        receiver.fed(wire).polled() == Ok::<Option<Seq<u8>>, FrameError>(Some(body)),
        receiver.fed(wire).after_poll().pending.len() == 0,
        sender.after_frame(body).reaches(receiver.fed(wire).after_poll()),
{
    let payload = sender.payload_of(body);
    let frame = spec_with_size(payload);
    let arrived = receiver.fed(wire);
    assert(arrived.pending =~= frame + Seq::<u8>::empty());
    lemma_split_frame(payload, Seq::empty());
}

/// The payloads of the whole frames at the front of `pending`, in order, up
/// to the first frame that is not all there or is refused.
pub open spec fn spec_payloads(pending: Seq<u8>) -> Seq<Seq<u8>>
    decreases pending.len(),
{
    match spec_split(pending) {
        Ok(Some((payload, consumed))) => if 0 < consumed <= pending.len() {
            seq![payload] + spec_payloads(pending.skip(consumed as int))
        } else {
            seq![payload]
        },
        _ => Seq::empty(),
    }
}

/// What is left of `pending` behind its whole frames.
pub open spec fn spec_leftover(pending: Seq<u8>) -> Seq<u8>
    decreases pending.len(),
{
    match spec_split(pending) {
        Ok(Some((payload, consumed))) => if 0 < consumed <= pending.len() {
            spec_leftover(pending.skip(consumed as int))
        } else {
            pending
        },
        _ => pending,
    }
}

/// The frames of `bodies`, one after the other.
pub open spec fn spec_frames(bodies: Seq<Seq<u8>>) -> Seq<u8>
    decreases bodies.len(),
{
    if bodies.len() == 0 {
        Seq::empty()
    } else {
        spec_with_size(bodies.first()) + spec_frames(bodies.drop_first())
    }
}

/// A whole frame takes at least the byte of its length, and no more than
/// is there.
pub proof fn lemma_split_consumes(pending: Seq<u8>)
    ensures
        spec_split(pending) matches Ok(Some((_, consumed))) ==> 0 < consumed <= pending.len(),
{
    lemma_decode_bounds(pending, 5);
}

/// Frame reassembly: what comes out of a stream does not depend on where a
/// read ended. The payloads in two reads are those of the first read,
/// followed by those of what the first read left over together with the
/// second; and this is what one read of all the bytes gives. Only a stream
/// whose first part was refused is left out: nothing is read after that.
pub proof fn lemma_payloads_in_two_reads(first: Seq<u8>, second: Seq<u8>)
    requires
        !(spec_split(spec_leftover(first)) is Err),
    ensures
        spec_payloads(first + second) == spec_payloads(first) + spec_payloads(
            spec_leftover(first) + second,
        ),
        spec_leftover(first + second) == spec_leftover(spec_leftover(first) + second),
    decreases first.len(),
{
    lemma_split_consumes(first);
    match spec_split(first) {
        Ok(Some((payload, consumed))) => {
            let rest = first.skip(consumed as int);
            lemma_split_extend(first, second);
            assert((first + second).skip(consumed as int) =~= rest + second);
            lemma_payloads_in_two_reads(rest, second);
            assert(seq![payload] + (spec_payloads(rest) + spec_payloads(
                spec_leftover(rest) + second,
            )) =~= (seq![payload] + spec_payloads(rest)) + spec_payloads(
                spec_leftover(rest) + second,
            ));
        },
        _ => {
            assert(Seq::<Seq<u8>>::empty() + spec_payloads(first + second) =~= spec_payloads(
                first + second,
            ));
        },
    }
}

/// Frame coalescing: however many packets arrive together, they come out
/// one by one in their order, each whole, with nothing lost and nothing
/// left.
pub proof fn lemma_payloads_of_frames(bodies: Seq<Seq<u8>>)
    requires
        forall|i: int| 0 <= i < bodies.len() ==> (#[trigger] bodies[i]).len() <= MAX_BODY_LEN,
    ensures
        spec_payloads(spec_frames(bodies)) == bodies,
        spec_leftover(spec_frames(bodies)) == Seq::<u8>::empty(),
    decreases bodies.len(),
{
    if bodies.len() == 0 {
        assert(spec_payloads(Seq::<u8>::empty()) =~= bodies);
    } else {
        let head = bodies.first();
        let tail = bodies.drop_first();
        assert(head == bodies[0]);
        assert forall|i: int| 0 <= i < tail.len() implies (#[trigger] tail[i]).len()
            <= MAX_BODY_LEN by {
            assert(tail[i] == bodies[i + 1]);
        }
        lemma_split_frame(head, spec_frames(tail));
        lemma_split_consumes(spec_frames(bodies));
        lemma_payloads_of_frames(tail);
        assert(seq![head] + tail =~= bodies);
    }
}

/// Two packets that arrive in one read come out one after the other, each
/// whole, with nothing lost and nothing left.
pub proof fn lemma_coalesced_frames(first: Seq<u8>, second: Seq<u8>)
    requires
        first.len() <= MAX_BODY_LEN,
        second.len() <= MAX_BODY_LEN,
    ensures
        ({
            let state = ConnectionState::start().fed(
                spec_with_size(first) + spec_with_size(second),
            );
            &&& state.polled() == Ok::<Option<Seq<u8>>, FrameError>(Some(first))
            &&& state.after_poll().polled() == Ok::<Option<Seq<u8>>, FrameError>(Some(second))
            &&& state.after_poll().after_poll().pending == Seq::<u8>::empty()
            &&& state.after_poll().after_poll().polled() == Ok::<Option<Seq<u8>>, FrameError>(
                None,
            )
        }),
{
    let wire = spec_with_size(first) + spec_with_size(second);
    let state = ConnectionState::start().fed(wire);
    assert(state.pending =~= wire);
    lemma_split_frame(first, spec_with_size(second));
    assert(state.after_poll().pending == spec_with_size(second));
    assert(spec_with_size(second) + Seq::<u8>::empty() =~= spec_with_size(second));
    lemma_split_frame(second, Seq::empty());
}

/// More bytes do not change a frame that is already whole, nor mend a
/// length that was refused: what was decided about the front of the stream
/// stands.
pub proof fn lemma_split_extend(pending: Seq<u8>, more: Seq<u8>)
    requires
        spec_split(pending) != Ok::<Option<(Seq<u8>, nat)>, FrameError>(None),
    ensures
        spec_split(pending + more) == spec_split(pending),
{
    lemma_decode_bounds(pending, 5);
    lemma_decode_extend(pending, more, 5);
    if let Ok((prefix, len)) = spec_decode_u32(pending) {
        if len <= MAX_BODY_LEN {
            assert((pending + more).subrange(prefix as int, (prefix + len) as int)
                =~= pending.subrange(prefix as int, (prefix + len) as int));
        }
    }
}

/// A packet that comes out takes bytes with it: asking again and again
/// comes to an end.
pub proof fn lemma_poll_shrinks(state: ConnectionState)
    requires
        spec_split(state.pending) matches Ok(Some(_)),
    ensures
        state.after_poll().pending.len() < state.pending.len(),
{
    lemma_decode_bounds(state.pending, 5);
}

/// While a frame is not all there, asking for it changes nothing: the next
/// bytes are added to what is pending.
pub proof fn lemma_poll_incomplete(state: ConnectionState)
    requires
        state.polled() == Ok::<Option<Seq<u8>>, FrameError>(None),
    ensures
        state.after_poll() == state,
{
}

/// Frame reassembly without a cipher: the bytes of a stream, cut into reads
/// of any sizes, leave the connection as one read of them all does.
pub proof fn lemma_reassembly(state: ConnectionState, chunks: Seq<Seq<u8>>)
    requires
        state.cipher is None,
    ensures
        state.fed_all(chunks) == state.fed(chunks.flatten()),
    decreases chunks.len(),
{
    if chunks.len() == 0 {
        assert(state.pending + Seq::<u8>::empty() =~= state.pending);
    } else {
        let next = state.fed(chunks.first());
        lemma_reassembly(next, chunks.drop_first());
        assert(next.pending + chunks.drop_first().flatten() =~= state.pending
            + chunks.flatten());
    }
}

} // verus!
