//! The message that opens a session: a node announces its session key and
//! where it can be reached, signed with that key.

use vstd::prelude::*;

use ed25519_dalek::Signer;

use crate::locator::{locator_bytes, NodeLocator};
use crate::CAPTP_VERSION;

verus! {

/// The Ed25519 signature of a message under a 32-byte secret key.
pub uninterp spec fn ed25519_signature(secret: Seq<u8>, message: Seq<u8>) -> Seq<u8>;

/// The Ed25519 public key of a 32-byte secret key.
pub uninterp spec fn ed25519_public_key(secret: Seq<u8>) -> Seq<u8>;

/// Whether a signature of a message checks out, strictly, under a public
/// key.
pub uninterp spec fn ed25519_verifies(public: Seq<u8>, message: Seq<u8>, signature: Seq<u8>) -> bool;

/// `SigningKey::from_bytes`, `Signer::sign` and `Signature::to_bytes`: the
/// signature of the message under the secret key. Signing is
/// deterministic; the contract only names the result.
#[verifier::external_body]
fn sign(secret: &[u8; 32], message: &[u8]) -> (res: [u8; 64])
    ensures
        res@ == ed25519_signature(secret@, message@),
{
    let key = ed25519_dalek::SigningKey::from_bytes(secret);
    let sig: ed25519_dalek::Signature = key.sign(message);
    sig.to_bytes()
}

/// `SigningKey::from_bytes`, `SigningKey::verifying_key` and
/// `VerifyingKey::to_bytes`: the public key of the secret key. The contract
/// only names the result.
#[verifier::external_body]
fn public_key(secret: &[u8; 32]) -> (res: [u8; 32])
    ensures
        res@ == ed25519_public_key(secret@),
{
    ed25519_dalek::SigningKey::from_bytes(secret).verifying_key().to_bytes()
}

/// `VerifyingKey::from_bytes`, `Signature::from_bytes` and
/// `VerifyingKey::verify_strict`: whether the signature of the message
/// checks out under the public key; bytes that are no key fail. The
/// contract only names the result.
#[verifier::external_body]
fn verify_strict(public: &[u8; 32], message: &[u8], signature: &[u8; 64]) -> (res: bool)
    ensures
        res == ed25519_verifies(public@, message@, signature@),
{
    match ed25519_dalek::VerifyingKey::from_bytes(public) {
        Ok(key) => key.verify_strict(message, &ed25519_dalek::Signature::from_bytes(signature)).is_ok(),
        Err(_) => false,
    }
}

/// A session's public key: the 32 bytes of an Ed25519 key.
#[derive(Debug, Clone, Copy, PartialEq, Eq)]
pub struct PublicKey {
    pub ecc: [u8; 32],
}

/// An Ed25519 signature: its 64 bytes.
#[derive(Debug, Clone, Copy, PartialEq, Eq)]
pub struct Signature {
    pub eddsa: [u8; 64],
}

/// The signature of a start message's location does not check out.
#[derive(Debug, Clone, Copy, PartialEq, Eq, Structural)]
pub struct SignatureError;

/// `op:start-session`: the protocol version, the session's public key, a
/// location of the sending node, and the signature of that location's
/// encoding under the session key.
#[derive(Debug, Clone)]
pub struct OpStartSession {
    pub captp_version: String,
    pub session_pubkey: PublicKey,
    pub acceptable_location: NodeLocator,
    pub acceptable_location_sig: Signature,
}

/// The location's signature checks out under the session key.
pub open spec fn location_verifies(m: OpStartSession) -> bool {
    ed25519_verifies(m.session_pubkey.ecc@, locator_bytes(m.acceptable_location@), m.acceptable_location_sig.eddsa@)
}

impl OpStartSession {
    /// A start message of this protocol version.
    pub fn new(session_pubkey: PublicKey, acceptable_location: NodeLocator, acceptable_location_sig: Signature) -> (res: Self)
        ensures
            res.captp_version@ == CAPTP_VERSION@,
            res.session_pubkey == session_pubkey,
            res.acceptable_location@ == acceptable_location@,
            res.acceptable_location_sig == acceptable_location_sig,
    {
        OpStartSession {
            captp_version: CAPTP_VERSION.to_owned(),
            session_pubkey,
            acceptable_location,
            acceptable_location_sig,
        }
    }

    /// Checks the signature of the location's encoding under the session
    /// key.
    pub fn verify_location(&self) -> (res: Result<(), SignatureError>)
        ensures
            res is Ok <==> location_verifies(*self),
    {
        let message = self.acceptable_location.encode().to_bytes();
        if verify_strict(&self.session_pubkey.ecc, message.as_slice(), &self.acceptable_location_sig.eddsa) {
            Ok(())
        } else {
            Err(SignatureError)
        }
    }
}

/// The start message of a node with the secret session key at the
/// location: the key's public half, and the signature of the location's
/// encoding.
pub fn generate_start_msg(secret: &[u8; 32], local_locator: NodeLocator) -> (res: OpStartSession)
    ensures
        res.captp_version@ == CAPTP_VERSION@,
        res.session_pubkey.ecc@ == ed25519_public_key(secret@),
        res.acceptable_location@ == local_locator@,
        res.acceptable_location_sig.eddsa@ == ed25519_signature(secret@, locator_bytes(local_locator@)),
{
    let message = local_locator.encode().to_bytes();
    let sig = sign(secret, message.as_slice());
    let pk = public_key(secret);
    OpStartSession::new(PublicKey { ecc: pk }, local_locator, Signature { eddsa: sig })
}

/// What a received start message gives a session: the remote's key and
/// location. The message must be of this protocol version, and its
/// location's signature must check out.
pub fn accept_start_session(msg: OpStartSession) -> (res: (PublicKey, NodeLocator))
    requires
        msg.captp_version@ == CAPTP_VERSION@,
        location_verifies(msg),
    ensures
        res.0 == msg.session_pubkey,
        res.1@ == msg.acceptable_location@,
{
    (msg.session_pubkey, msg.acceptable_location)
}

/// Checks a received start message and gives the remote's key and
/// location, or `None` where the message is of another protocol version
/// or its location's signature does not check out.
pub fn try_accept_start_session(msg: OpStartSession) -> (res: Option<(PublicKey, NodeLocator)>)
    ensures
        match res {
            Some((k, l)) => msg.captp_version@ == CAPTP_VERSION@ && location_verifies(msg)
                && k == msg.session_pubkey && l@ == msg.acceptable_location@,
            None => !(msg.captp_version@ == CAPTP_VERSION@ && location_verifies(msg)),
        },
{
    let version_ok = crate::de::lex::order::bytes_equal(msg.captp_version.as_str().as_bytes(), CAPTP_VERSION.as_bytes());
    proof {
        vstd::utf8::encode_utf8_decode_utf8(msg.captp_version@);
        vstd::utf8::encode_utf8_decode_utf8(CAPTP_VERSION@);
    }
    if !version_ok {
        return None;
    }
    match msg.verify_location() {
        Ok(()) => Some(accept_start_session(msg)),
        Err(_) => None,
    }
}

} // verus!
