//! The symmetric stream cipher of a connection: AES-128 in CFB-8 mode, keyed
//! and initialised by the shared secret, one running state per direction.

use aes::cipher::inout::InOutBuf;
use aes::cipher::{BlockDecryptMut, BlockEncryptMut, IvState, KeyIvInit};
use vstd::prelude::*;

verus! {

/// The length of a shared secret: the key and the initial register of the
/// cipher.
pub const SECRET_LEN: usize = 16;

/// `aes::cipher::InvalidLength`: what the cipher answers to a key or a
/// register of the wrong length.
#[verifier::external_type_specification]
#[verifier::external_body]
pub struct ExInvalidLength(aes::cipher::InvalidLength);

/// The ciphertext that CFB-8 over AES-128 gives for `plain` under `key`,
/// starting from the register `iv`.
pub uninterp spec fn cfb8_encrypted(key: Seq<u8>, iv: Seq<u8>, plain: Seq<u8>) -> Seq<u8>;

/// The plaintext that CFB-8 over AES-128 gives for `cipher` under `key`,
/// starting from the register `iv`.
pub uninterp spec fn cfb8_decrypted(key: Seq<u8>, iv: Seq<u8>, cipher: Seq<u8>) -> Seq<u8>;

/// The register after `cipher` has passed through it: each ciphertext byte
/// is shifted in at the end, so what stays is the tail of the old register
/// followed by the ciphertext.
pub open spec fn spec_next_register(register: Seq<u8>, cipher: Seq<u8>) -> Seq<u8> {
    (register + cipher).skip(cipher.len() as int)
}

/// `cfb8::Encryptor::<aes::Aes128>::new_from_slices` with the secret as key
/// and as initial register: it refuses every length but sixteen.
#[verifier::external_body]
fn cfb8_check_secret(secret: &[u8]) -> (r: Result<(), aes::cipher::InvalidLength>)
    ensures
        r is Ok <==> secret@.len() == SECRET_LEN,
{
    match cfb8::Encryptor::<aes::Aes128>::new_from_slices(secret, secret) {
        Ok(_) => Ok(()),
        Err(e) => Err(e),
    }
}

/// `cfb8::Encryptor::<aes::Aes128>`, made from `key` and `iv`, run over `buf`
/// in place; the result is the register it ended with. The ciphertext is
/// as long as the plaintext, decrypts to it from the same start, and the
/// register is fed with ciphertext bytes.
#[verifier::external_body]
fn cfb8_encrypt(key: &[u8], iv: &[u8], buf: &mut Vec<u8>) -> (register: Vec<u8>)
    requires
        key@.len() == SECRET_LEN,
        iv@.len() == SECRET_LEN,
    ensures
        final(buf)@ == cfb8_encrypted(key@, iv@, old(buf)@),
        final(buf)@.len() == old(buf)@.len(),
        cfb8_decrypted(key@, iv@, final(buf)@) == old(buf)@,
        register@ == spec_next_register(iv@, final(buf)@),
{
    match cfb8::Encryptor::<aes::Aes128>::new_from_slices(key, iv) {
        Ok(mut cipher) => {
            let (blocks, _) = InOutBuf::from(&mut buf[..]).into_chunks();
            cipher.encrypt_blocks_inout_mut(blocks);
            cipher.iv_state().to_vec()
        },
        Err(_) => iv.to_vec(),
    }
}

/// `cfb8::Decryptor::<aes::Aes128>`, made from `key` and `iv`, run over `buf`
/// in place; the result is the register it ended with. The plaintext is as
/// long as the ciphertext, the register is fed with ciphertext bytes, and
/// the bytes are handled one by one: stopping anywhere and going on from the
/// register reached gives the same plaintext.
#[verifier::external_body]
fn cfb8_decrypt(key: &[u8], iv: &[u8], buf: &mut Vec<u8>) -> (register: Vec<u8>)
    requires
        key@.len() == SECRET_LEN,
        iv@.len() == SECRET_LEN,
    ensures
        final(buf)@ == cfb8_decrypted(key@, iv@, old(buf)@),
        final(buf)@.len() == old(buf)@.len(),
        register@ == spec_next_register(iv@, old(buf)@),
        forall|n: int|
            #![trigger old(buf)@.take(n)]
            0 <= n <= old(buf)@.len() ==> final(buf)@ == cfb8_decrypted(
                key@,
                iv@,
                old(buf)@.take(n),
            ) + cfb8_decrypted(
                key@,
                spec_next_register(iv@, old(buf)@.take(n)),
                old(buf)@.skip(n),
            ),
{
    match cfb8::Decryptor::<aes::Aes128>::new_from_slices(key, iv) {
        Ok(mut cipher) => {
            let (blocks, _) = InOutBuf::from(&mut buf[..]).into_chunks();
            cipher.decrypt_blocks_inout_mut(blocks);
            cipher.iv_state().to_vec()
        },
        Err(_) => iv.to_vec(),
    }
}

/// The shared secret was refused: it does not have the cipher's key length.
#[derive(Clone, Copy, Debug, PartialEq, Eq, Structural)]
pub struct InvalidSecret;

/// The state of a cipher as values: the key and the register of each
/// direction.
pub struct CipherState {
    pub key: Seq<u8>,
    pub encrypt_register: Seq<u8>,
    pub decrypt_register: Seq<u8>,
}

impl CipherState {
    /// The state that a shared secret starts from.
    pub open spec fn start(secret: Seq<u8>) -> CipherState {
        CipherState { key: secret, encrypt_register: secret, decrypt_register: secret }
    }

    /// The ciphertext for `plain` in this state.
    pub open spec fn encrypted(self, plain: Seq<u8>) -> Seq<u8> {
        cfb8_encrypted(self.key, self.encrypt_register, plain)
    }

    /// The state after `plain` was encrypted.
    pub open spec fn after_encrypt(self, plain: Seq<u8>) -> CipherState {
        CipherState {
            encrypt_register: spec_next_register(self.encrypt_register, self.encrypted(plain)),
            ..self
        }
    }

    /// The plaintext for `cipher` in this state.
    pub open spec fn decrypted(self, cipher: Seq<u8>) -> Seq<u8> {
        cfb8_decrypted(self.key, self.decrypt_register, cipher)
    }

    /// The state after `cipher` was decrypted.
    pub open spec fn after_decrypt(self, cipher: Seq<u8>) -> CipherState {
        CipherState {
            decrypt_register: spec_next_register(self.decrypt_register, cipher),
            ..self
        }
    }

    /// Whether a receiver in state `receiver` is in step with this sender:
    /// same key, and its decrypt register is this encrypt register.
    pub open spec fn in_step(self, receiver: CipherState) -> bool {
        &&& self.key == receiver.key
        &&& self.encrypt_register == receiver.decrypt_register
    }
}

/// The cipher of one connection.
pub struct Encryption {
    key: Vec<u8>,
    encrypt_register: Vec<u8>,
    decrypt_register: Vec<u8>,
}

impl View for Encryption {
    type V = CipherState;

    closed spec fn view(&self) -> CipherState {
        CipherState {
            key: self.key@,
            encrypt_register: self.encrypt_register@,
            decrypt_register: self.decrypt_register@,
        }
    }
}

impl Encryption {
    #[verifier::type_invariant]
    spec fn sized(&self) -> bool {
        &&& self.key@.len() == SECRET_LEN
        &&& self.encrypt_register@.len() == SECRET_LEN
        &&& self.decrypt_register@.len() == SECRET_LEN
    }

    /// A cipher keyed and initialised by `shared_secret`, which must have
    /// sixteen bytes.
    pub fn new(shared_secret: &[u8]) -> (r: Result<Self, InvalidSecret>)
        ensures
            r is Ok <==> shared_secret@.len() == SECRET_LEN,
            r matches Ok(e) ==> e@ == CipherState::start(shared_secret@),
    {
        match cfb8_check_secret(shared_secret) {
            Ok(()) => Ok(
                Self {
                    key: vstd::slice::slice_to_vec(shared_secret),
                    encrypt_register: vstd::slice::slice_to_vec(shared_secret),
                    decrypt_register: vstd::slice::slice_to_vec(shared_secret),
                },
            ),
            Err(_) => Err(InvalidSecret),
        }
    }

    /// Encrypts `buf` in place, whatever its length, and moves the encrypt
    /// state on. Decrypting the result from the state this call started in
    /// gives back what `buf` held.
    pub fn encrypt(&mut self, buf: &mut Vec<u8>)
        ensures
            final(buf)@ == old(self)@.encrypted(old(buf)@),
            final(buf)@.len() == old(buf)@.len(),
            final(self)@ == old(self)@.after_encrypt(old(buf)@),
            cfb8_decrypted(old(self)@.key, old(self)@.encrypt_register, final(buf)@) == old(buf)@,
    {
        proof {
            use_type_invariant(&*self);
        }
        let register = cfb8_encrypt(self.key.as_slice(), self.encrypt_register.as_slice(), buf);
        proof {
            lemma_register_chain(old(self)@.encrypt_register, buf@, 0);
        }
        self.encrypt_register = register;
    }

    /// Decrypts `buf` in place, whatever its length, and moves the decrypt
    /// state on. Decrypting in two pieces, one call after the other, gives
    /// the same bytes and the same state.
    pub fn decrypt(&mut self, buf: &mut Vec<u8>)
        ensures
            final(buf)@ == old(self)@.decrypted(old(buf)@),
            final(buf)@.len() == old(buf)@.len(),
            final(self)@ == old(self)@.after_decrypt(old(buf)@),
            forall|n: int|
                #![trigger old(buf)@.take(n)]
                0 <= n <= old(buf)@.len() ==> {
                    let first = old(buf)@.take(n);
                    let second = old(buf)@.skip(n);
                    &&& final(buf)@ == old(self)@.decrypted(first) + old(self)@.after_decrypt(
                        first,
                    ).decrypted(second)
                    &&& final(self)@ == old(self)@.after_decrypt(first).after_decrypt(second)
                },
    {
        proof {
            use_type_invariant(&*self);
        }
        let register = cfb8_decrypt(self.key.as_slice(), self.decrypt_register.as_slice(), buf);
        proof {
            lemma_register_chain(old(self)@.decrypt_register, old(buf)@, 0);
        }
        self.decrypt_register = register;
        proof {
            assert forall|n: int| 0 <= n <= old(buf)@.len() implies {
                let first = #[trigger] old(buf)@.take(n);
                let second = old(buf)@.skip(n);
                final(self)@ == old(self)@.after_decrypt(first).after_decrypt(second)
            } by {
                lemma_register_chain(old(self)@.decrypt_register, old(buf)@, n);
            }
        }
    }
}

/// Feeding a register with bytes in two pieces is feeding it with all of
/// them.
pub proof fn lemma_register_chain(register: Seq<u8>, cipher: Seq<u8>, n: int)
    requires
        0 <= n <= cipher.len(),
    ensures
        spec_next_register(spec_next_register(register, cipher.take(n)), cipher.skip(n))
            == spec_next_register(register, cipher),
        spec_next_register(register, cipher).len() == register.len(),
{
    let first = cipher.take(n);
    let second = cipher.skip(n);
    assert(spec_next_register(spec_next_register(register, first), second) =~= spec_next_register(
        register,
        cipher,
    ));
}

/// A sender and a receiver in step stay in step over every message: the
/// receiver's register after decrypting what the sender encrypted is the
/// sender's register.
pub proof fn lemma_stays_in_step(sender: CipherState, receiver: CipherState, plain: Seq<u8>)
    requires
        sender.in_step(receiver),
    ensures
        sender.after_encrypt(plain).in_step(receiver.after_decrypt(sender.encrypted(plain))),
        receiver.decrypted(sender.encrypted(plain)) == cfb8_decrypted(
            sender.key,
            sender.encrypt_register,
            sender.encrypted(plain),
        ),
{
}

/// Two ciphers with the same key and the same encrypt register, as two made
/// from the same secret are, encrypt the same bytes to the same ciphertext
/// and end with the same register.
pub proof fn lemma_same_secret_same_ciphertext(a: CipherState, b: CipherState, plain: Seq<u8>)
    requires
        a.key == b.key,
        a.encrypt_register == b.encrypt_register,
    ensures
        a.encrypted(plain) == b.encrypted(plain),
        a.after_encrypt(plain).encrypt_register == b.after_encrypt(plain).encrypt_register,
{
}

} // verus!
