//! The node's signing identity. Keys and signatures are byte strings here;
//! the cryptography is libp2p's, reached through three declarations that are
//! believed, not proved.

use libp2p::identity::{Keypair, PublicKey};
use vstd::prelude::*;

verus! {

/// Whether libp2p accepts `signature` as a signature of `message` under the
/// public key that `public_key` encodes.
pub uninterp spec fn signature_verifies(
    public_key: Seq<u8>,
    message: Seq<u8>,
    signature: Seq<u8>,
) -> bool;

/// The signature that libp2p makes of `message` with the key pair that
/// `keypair` encodes, where it makes one.
pub uninterp spec fn signature_by(keypair: Seq<u8>, message: Seq<u8>) -> Option<Seq<u8>>;

/// The encoded public key of the key pair that `keypair` encodes, where it
/// encodes one.
pub uninterp spec fn public_key_of(keypair: Seq<u8>) -> Option<Seq<u8>>;

/// `PublicKey::try_decode_protobuf` followed by `PublicKey::verify` of
/// libp2p: bytes that decode to no public key verify nothing. The contract
/// claims only that the answer depends on the three byte strings alone.
#[verifier::external_body]
pub(crate) fn verify_signature(public_key: &[u8], message: &[u8], signature: &[u8]) -> (ok: bool)
    ensures
        ok == signature_verifies(public_key@, message@, signature@),
{
    match PublicKey::try_decode_protobuf(public_key) {
        Ok(key) => key.verify(message, signature),
        Err(_) => false,
    }
}

/// `Keypair::from_protobuf_encoding` followed by `Keypair::sign` of libp2p,
/// with the errors of both dropped. The contract claims only that the
/// signature depends on the key pair's bytes and the message alone.
#[verifier::external_body]
pub(crate) fn sign_bytes(keypair: &[u8], message: &[u8]) -> (signature: Option<Vec<u8>>)
    ensures
        match signature {
            Some(s) => signature_by(keypair@, message@) == Some(s@),
            None => signature_by(keypair@, message@) is None,
        },
{
    match Keypair::from_protobuf_encoding(keypair) {
        Ok(pair) => pair.sign(message).ok(),
        Err(_) => None,
    }
}

/// `Keypair::from_protobuf_encoding`, `Keypair::public` and
/// `PublicKey::encode_protobuf` of libp2p. The contract claims only that the
/// public key depends on the key pair's bytes alone.
#[verifier::external_body]
pub(crate) fn derive_public_key(keypair: &[u8]) -> (public_key: Option<Vec<u8>>)
    ensures
        match public_key {
            Some(k) => public_key_of(keypair@) == Some(k@),
            None => public_key_of(keypair@) is None,
        },
{
    match Keypair::from_protobuf_encoding(keypair) {
        Ok(pair) => Some(pair.public().encode_protobuf()),
        Err(_) => None,
    }
}

/// A key pair in its encoded form, together with its public key.
pub struct Identity {
    keypair: Vec<u8>,
    public_key: Vec<u8>,
}

impl Identity {
    /// The encoded key pair.
    pub closed spec fn keypair(&self) -> Seq<u8> {
        self.keypair@
    }

    /// The encoded public key.
    pub closed spec fn public_key(&self) -> Seq<u8> {
        self.public_key@
    }

    /// The public key is the one of the key pair.
    pub open spec fn wf(&self) -> bool {
        public_key_of(self.keypair()) == Some(self.public_key())
    }

    /// The identity of an encoded key pair; nothing where the bytes encode no
    /// key pair.
    pub fn from_protobuf_encoding(keypair: Vec<u8>) -> (r: Option<Identity>)
        ensures
            r is Some <==> public_key_of(keypair@) is Some,
            r matches Some(id) ==> id.wf() && id.keypair() == keypair@,
    {
        match derive_public_key(keypair.as_slice()) {
            Some(public_key) => Some(Identity { keypair, public_key }),
            None => None,
        }
    }

    /// The encoded public key.
    pub fn public_key_bytes(&self) -> (k: &Vec<u8>)
        ensures
            k@ == self.public_key(),
    {
        &self.public_key
    }

    /// Signs `message` with the key pair.
    pub fn sign(&self, message: &[u8]) -> (signature: Option<Vec<u8>>)
        ensures
            match signature {
                Some(s) => signature_by(self.keypair(), message@) == Some(s@),
                None => signature_by(self.keypair(), message@) is None,
            },
    {
        sign_bytes(self.keypair.as_slice(), message)
    }
}

} // verus!
