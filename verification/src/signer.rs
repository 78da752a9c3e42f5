//! Ed25519 keypairs.
use ed25519_dalek::Signer;
use vstd::prelude::*;

use crate::error::Error;
use crate::pubkey::Pubkey;
use crate::secret::SecretArray;

verus! {

/// The public key of a 32-byte Ed25519 secret key.
pub uninterp spec fn ed25519_public_key(secret: Seq<u8>) -> Seq<u8>;

/// The Ed25519 signature of a message under a secret key.
pub uninterp spec fn ed25519_signature(secret: Seq<u8>, message: Seq<u8>) -> Seq<u8>;

/// Calls `SigningKey::verifying_key` of `ed25519_dalek` on the key with this secret. The public
/// key is only named.
#[verifier::external_body]
fn public_key(secret: &[u8; 32]) -> (public: [u8; 32])
    ensures
        public@ == ed25519_public_key(secret@),
{
    ed25519_dalek::SigningKey::from_bytes(secret).verifying_key().to_bytes()
}

/// Calls `SigningKey::sign` of `ed25519_dalek`, which is deterministic. The signature is only
/// named.
#[verifier::external_body]
fn signature(secret: &[u8; 32], message: &[u8]) -> (signature: [u8; 64])
    ensures
        signature@ == ed25519_signature(secret@, message@),
{
    ed25519_dalek::SigningKey::from_bytes(secret).sign(message).to_bytes()
}

/// Calls `SigningKey::to_keypair_bytes` of `ed25519_dalek`: the secret key, then its public key.
#[verifier::external_body]
fn keypair_bytes(secret: &[u8; 32]) -> (bytes: [u8; 64])
    ensures
        bytes@ == secret@ + ed25519_public_key(secret@),
{
    ed25519_dalek::SigningKey::from_bytes(secret).to_keypair_bytes()
}

/// Calls `SigningKey::from_keypair_bytes` of `ed25519_dalek`: the secret key is the first half, and
/// it is given if and only if the second half is its public key.
#[verifier::external_body]
fn secret_of_keypair(bytes: &[u8; 64]) -> (secret: Option<[u8; 32]>)
    ensures
        secret is Some <==> bytes@.subrange(32, 64) == ed25519_public_key(bytes@.subrange(0, 32)),
        secret matches Some(s) ==> s@ == bytes@.subrange(0, 32),
{
    match ed25519_dalek::SigningKey::from_keypair_bytes(bytes) {
        Ok(key) => Some(key.to_bytes()),
        Err(_) => None,
    }
}

/// 64 bytes are a keypair if the second half is the public key of the first.
pub open spec fn valid_keypair(bytes: Seq<u8>) -> bool {
    bytes.len() == 64 && bytes.subrange(32, 64) == ed25519_public_key(bytes.subrange(0, 32))
}

/// An Ed25519 keypair, held as its secret key.
pub struct Keypair {
    secret: SecretArray<32>,
}

impl View for Keypair {
    type V = Seq<u8>;

    /// The secret key.
    closed spec fn view(&self) -> Seq<u8> {
        self.secret@
    }
}

impl Keypair {
    /// The secret key has a fixed length.
    pub proof fn lemma_len(&self)
        ensures
            self@.len() == 32,
    {
        self.secret.lemma_len();
    }

    /// The keypair of a secret key.
    pub fn new_from_array(secret: [u8; 32]) -> (keypair: Self)
        ensures
            keypair@ == secret@,
    {
        Keypair { secret: SecretArray::new(secret) }
    }

    /// The public key, which is the account's address.
    pub fn pubkey(&self) -> (key: Pubkey)
        ensures
            key@ == ed25519_public_key(self@),
    {
        Pubkey { bytes: public_key(self.secret.as_array()) }
    }

    /// The secret key, then the public key.
    pub fn to_keypair_bytes(&self) -> (bytes: SecretArray<64>)
        ensures
            bytes@ == self@ + ed25519_public_key(self@),
            valid_keypair(bytes@),
    {
        let bytes = keypair_bytes(self.secret.as_array());
        assert(bytes@.subrange(0, 32) =~= self@);
        assert(bytes@.subrange(32, 64) =~= ed25519_public_key(self@));
        SecretArray::new(bytes)
    }

    /// Signs a message.
    pub fn sign_message(&self, message: &[u8]) -> (signature: [u8; 64])
        ensures
            signature@ == ed25519_signature(self@, message@),
    {
        signature(self.secret.as_array(), message)
    }

    /// Reads a keypair: 64 bytes whose second half is the public key of the first.
    pub fn try_from(bytes: &[u8]) -> (keypair: Result<Keypair, Error>)
        ensures
            bytes@.len() != 64 ==> keypair == Err::<Keypair, Error>(Error::InvalidKeypairLength),
            bytes@.len() == 64 && !valid_keypair(bytes@) ==> keypair == Err::<Keypair, Error>(
                Error::KeypairMismatch,
            ),
            valid_keypair(bytes@) ==> (keypair matches Ok(k) && k@ == bytes@.subrange(0, 32)),
    {
        if bytes.len() != 64 {
            return Err(Error::InvalidKeypairLength);
        }
        let mut copy: [u8; 64] = [0;64];
        let mut i: usize = 0;
        while i < 64
            invariant
                i <= 64,
                bytes@.len() == 64,
                copy@.len() == 64,
                forall|k: int| 0 <= k < i ==> copy@[k] == bytes@[k],
            decreases 64 - i,
        {
            copy[i] = bytes[i];
            i += 1;
        }
        let copy: SecretArray<64> = SecretArray::new(copy);
        assert(copy@ =~= bytes@);
        match secret_of_keypair(copy.as_array()) {
            Some(secret) => Ok(Keypair::new_from_array(secret)),
            None => Err(Error::KeypairMismatch),
        }
    }
}

/// Reading what a keypair writes gives the same keypair back.
pub proof fn keypair_round_trip(secret: Seq<u8>)
    requires
        secret.len() == 32,
        ed25519_public_key(secret).len() == 32,
    ensures
        valid_keypair(secret + ed25519_public_key(secret)),
        (secret + ed25519_public_key(secret)).subrange(0, 32) == secret,
{
    let bytes = secret + ed25519_public_key(secret);
    assert(bytes.subrange(0, 32) =~= secret);
    assert(bytes.subrange(32, 64) =~= ed25519_public_key(secret));
}

} // verus!
