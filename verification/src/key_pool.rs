//! The pool of RSA key pairs that logins draw from, filled ahead of time
//! because a key pair takes long to make.

use rsa::pkcs8::EncodePublicKey;
use std::collections::VecDeque;
use vstd::prelude::*;

verus! {

/// `rsa::RsaPrivateKey`: a private key, carried as it is.
#[verifier::external_type_specification]
#[verifier::external_body]
pub struct ExRsaPrivateKey(rsa::RsaPrivateKey);

/// `rsa::RsaPublicKey`: a public key, carried as it is.
#[verifier::external_type_specification]
#[verifier::external_body]
pub struct ExRsaPublicKey(rsa::RsaPublicKey);

/// A key pair of the pool: the public key, the private key, and the public
/// key in the form in which it is sent to clients.
pub type RsaKey = (rsa::RsaPublicKey, rsa::RsaPrivateKey, Vec<u8>);

/// The size in bits of the keys of the pool.
pub const KEY_BITS: usize = 1024;

/// `rsa::RsaPrivateKey::new` with `rand::thread_rng()`: a fresh private key
/// of `bits` bits, or nothing where none could be made. The sizes let in are
/// those for which making a key is known to come to an end.
#[verifier::external_body]
fn generate_private_key(bits: usize) -> (key: Option<rsa::RsaPrivateKey>)
    requires
        512 <= bits <= 8192,
{
    rsa::RsaPrivateKey::new(&mut rand::thread_rng(), bits).ok()
}

/// `rsa::RsaPrivateKey::to_public_key`: the public half of a key pair.
#[verifier::external_body]
fn public_key_of(key: &rsa::RsaPrivateKey) -> (public: rsa::RsaPublicKey) {
    key.to_public_key()
}

/// `rsa::pkcs8::EncodePublicKey::to_public_key_der`: the public key as a
/// DER-encoded subject public key info, or nothing where encoding fails.
#[verifier::external_body]
fn public_key_der(key: &rsa::RsaPublicKey) -> (der: Option<Vec<u8>>) {
    match key.to_public_key_der() {
        Ok(document) => Some(document.into_vec()),
        Err(_) => None,
    }
}

/// `rsa::RsaPrivateKey::decrypt` with `rsa::Pkcs1v15Encrypt`: the plaintext
/// of `data`, or nothing where `data` is no ciphertext for this key.
#[verifier::external_body]
fn pkcs1v15_decrypt(key: &rsa::RsaPrivateKey, data: &[u8]) -> (plain: Option<Vec<u8>>) {
    key.decrypt(rsa::Pkcs1v15Encrypt, data).ok()
}

/// A fresh key pair, or nothing where one could not be made.
pub fn generate_key() -> (key: Option<RsaKey>) {
    match generate_private_key(KEY_BITS) {
        Some(private) => {
            let public = public_key_of(&private);
            // A key whose public half cannot be encoded cannot be offered
            // to a client, so it is no key pair of the pool.
            let der = public_key_der(&public);
            key_pair(public, private, der)
        },
        None => None,
    }
}

/// What can decrypt what clients encrypted with a public key of the server.
pub trait DecryptRsa {
    /// The plaintext of `data`, or nothing where `data` is no ciphertext
    /// for this key.
    fn decrypt_ct(&self, data: &[u8]) -> Option<Vec<u8>>;
}

impl DecryptRsa for rsa::RsaPrivateKey {
    fn decrypt_ct(&self, data: &[u8]) -> Option<Vec<u8>> {
        pkcs1v15_decrypt(self, data)
    }
}

/// A pool of key pairs with the size it is meant to have. Keys leave it in
/// the order in which they came.
pub struct RsaKeyPool(usize, VecDeque<RsaKey>);

impl RsaKeyPool {
    /// The number of keys that the pool is meant to hold.
    pub closed spec fn spec_size(&self) -> usize {
        self.0
    }

    /// The keys in the pool, the next to leave first.
    pub closed spec fn keys(&self) -> Seq<RsaKey> {
        self.1@
    }

    /// Whether fewer than half of the keys are left.
    pub open spec fn spec_is_low(&self) -> bool {
        2 * self.keys().len() < self.spec_size()
    }

    /// An empty pool meant to hold `key_pool_size` keys.
    pub fn new(key_pool_size: usize) -> (pool: Self)
        ensures
            pool.spec_size() == key_pool_size,
            pool.keys() == Seq::<RsaKey>::empty(),
    {
        let vec = VecDeque::with_capacity(key_pool_size);
        Self(key_pool_size, vec)
    }

    /// The number of keys that the pool is meant to hold.
    pub fn size(&self) -> (n: usize)
        ensures
            n == self.spec_size(),
    {
        self.0
    }

    /// The number of keys in the pool.
    pub fn len(&self) -> (n: usize)
        ensures
            n == self.keys().len(),
    {
        self.1.len()
    }

    /// Takes the oldest key out of a pool that has one.
    pub fn pop(&mut self) -> (key: RsaKey)
        requires
            old(self).keys().len() > 0,
        ensures
            key == old(self).keys()[0],
            final(self).keys() == old(self).keys().skip(1),
            final(self).spec_size() == old(self).spec_size(),
    {
        let key = self.1.pop_front();
        assert(self.1@ =~= old(self).keys().skip(1));
        key.unwrap()
    }

    /// Takes the oldest key out of the pool, where it has one.
    pub fn try_pop(&mut self) -> (key: Option<RsaKey>)
        ensures
            old(self).keys().len() > 0 <==> key is Some,
            key matches Some(k) ==> k == old(self).keys()[0] && final(self).keys() == old(
                self,
            ).keys().skip(1),
            key is None ==> final(self).keys() == old(self).keys(),
            final(self).spec_size() == old(self).spec_size(),
    {
        if self.1.len() > 0 {
            Some(self.pop())
        } else {
            None
        }
    }

    /// Puts `key` behind the keys of the pool.
    pub fn push(&mut self, key: RsaKey)
        ensures
            final(self).keys() == old(self).keys().push(key),
            final(self).spec_size() == old(self).spec_size(),
    {
        self.1.push_back(key);
    }

    /// Makes up to `len` keys, or as many as the pool is meant to hold where
    /// no number is given, and puts them behind the keys of the pool. Keys
    /// that could not be made are left out; the keys that were there stay
    /// in front, in their order.
    pub fn replenish(&mut self, len: Option<usize>)
        ensures
            final(self).spec_size() == old(self).spec_size(),
            final(self).keys().len() >= old(self).keys().len(),
            final(self).keys().len() <= old(self).keys().len() + match len {
                Some(len) => len,
                None => old(self).spec_size(),
            },
            final(self).keys().take(old(self).keys().len() as int) == old(self).keys(),
    {
        let len = match len {
            Some(len) => len,
            None => self.0,
        };
        let mut made: usize = 0;
        proof {
            assert(self.keys().take(self.keys().len() as int) =~= self.keys());
        }
        while made < len
            invariant
                made <= len,
                self.spec_size() == old(self).spec_size(),
                old(self).keys().len() <= self.keys().len() <= old(self).keys().len() + made,
                self.keys().take(old(self).keys().len() as int) == old(self).keys(),
            decreases len - made,
        {
            let ghost before = self.keys();
            self.put(generate_key());
            assert(self.keys().take(old(self).keys().len() as int) =~= before.take(
                old(self).keys().len() as int,
            ));
            made = made + 1;
        }
    }

    /// Whether fewer than half of the keys are left: time to replenish.
    pub fn is_low(&self) -> (b: bool)
        ensures
            b == self.spec_is_low(),
    {
        let len = self.1.len();
        len < self.0 && len < self.0 - len
    }

    /// Takes in what an attempt to make a key gave: the key goes behind the
    /// keys of the pool, and a failed attempt changes nothing.
    pub fn put(&mut self, key: Option<RsaKey>)
        ensures
            final(self).keys() == match key {
                Some(key) => old(self).keys().push(key),
                None => old(self).keys(),
            },
            final(self).spec_size() == old(self).spec_size(),
    {
        match key {
            Some(key) => self.push(key),
            None => {},
        }
    }
}

/// The key pair of the pool for a private key, its public half and what
/// encoding the public half gave: a pair where there is an encoding, nothing
/// where there is none.
pub fn key_pair(
    public: rsa::RsaPublicKey,
    private: rsa::RsaPrivateKey,
    der: Option<Vec<u8>>,
) -> (key: Option<RsaKey>)
    ensures
        key == match der {
            Some(der) => Some((public, private, der)),
            None => None::<RsaKey>,
        },
{
    match der {
        Some(der) => Some((public, private, der)),
        None => None,
    }
}

} // verus!
