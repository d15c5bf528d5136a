//! secp256k1 key pairs, ECDSA signatures over SHA-256 digests, and
//! addresses.

use crate::digest::hex_encode;
use crate::digest::hex_string;
use crate::digest::sha256;
use crate::digest::sha256_digest;
use crate::digest::Sha256Hash;
use crate::error::ChainError;
use rand::RngCore;
use vstd::prelude::*;

verus! {

/// The compressed public key of a secret key, or `None` where the 32 bytes
/// are no secret key of the curve.
pub uninterp spec fn secp256k1_public_key(secret: Seq<u8>) -> Option<Seq<u8>>;

/// The compact ECDSA signature, with the nonce of RFC 6979, that a secret
/// key gives for a digest; `None` where the bytes are no secret key.
pub uninterp spec fn ecdsa_signature(secret: Seq<u8>, digest: Seq<u8>) -> Option<Seq<u8>>;

/// Whether `signature` parses as a compact signature, `public_key` as a
/// public key, and the signature is valid for the digest under that key.
pub uninterp spec fn ecdsa_verifies(
    public_key: Seq<u8>,
    digest: Seq<u8>,
    signature: Seq<u8>,
) -> bool;

/// The bytes of an optional public key.
pub open spec fn key_option_view(k: Option<[u8; 33]>) -> Option<Seq<u8>> {
    match k {
        Some(bytes) => Some(bytes@),
        None => None,
    }
}

/// The bytes of an optional signature.
pub open spec fn signature_option_view(s: Option<[u8; 64]>) -> Option<Seq<u8>> {
    match s {
        Some(bytes) => Some(bytes@),
        None => None,
    }
}

/// Derives the public key with `secp256k1::PublicKey::from_secret_key` and
/// serialises it in compressed form. `secp256k1::SecretKey::from_slice`
/// refuses bytes that are zero or not below the curve order; the result
/// depends on the secret bytes alone.
#[verifier::external_body]
fn secp_public_key(secret: &[u8; 32]) -> (r: Option<[u8; 33]>)
    ensures
        key_option_view(r) == secp256k1_public_key(secret@),
{
    match secp256k1::SecretKey::from_slice(secret) {
        Ok(sk) => {
            let secp = secp256k1::Secp256k1::signing_only();
            Some(secp256k1::PublicKey::from_secret_key(&secp, &sk).serialize())
        },
        Err(_) => None,
    }
}

/// Signs a digest with `secp256k1::Secp256k1::sign_ecdsa`, which takes its
/// nonce from RFC 6979 and so gives one signature for one key and digest,
/// and serialises it in the 64-byte compact form.
#[verifier::external_body]
fn secp_sign(secret: &[u8; 32], digest: &Sha256Hash) -> (r: Option<[u8; 64]>)
    ensures
        signature_option_view(r) == ecdsa_signature(secret@, digest@),
{
    match secp256k1::SecretKey::from_slice(secret) {
        Ok(sk) => {
            let secp = secp256k1::Secp256k1::signing_only();
            let msg = secp256k1::Message::from_digest(*digest);
            Some(secp.sign_ecdsa(&msg, &sk).serialize_compact())
        },
        Err(_) => None,
    }
}

/// Checks a signature with `secp256k1::Secp256k1::verify_ecdsa`. The key is
/// parsed by `secp256k1::PublicKey::from_slice` and the signature by
/// `secp256k1::ecdsa::Signature::from_compact`; bytes that do not parse
/// count as a failed check.
#[verifier::external_body]
fn secp_verify(public_key: &[u8], digest: &Sha256Hash, signature: &[u8]) -> (ok: bool)
    ensures
        ok == ecdsa_verifies(public_key@, digest@, signature@),
{
    let key = secp256k1::PublicKey::from_slice(public_key);
    let sig = secp256k1::ecdsa::Signature::from_compact(signature);
    match (key, sig) {
        (Ok(pk), Ok(sig)) => {
            let secp = secp256k1::Secp256k1::verification_only();
            let msg = secp256k1::Message::from_digest(*digest);
            secp.verify_ecdsa(&msg, &sig, &pk).is_ok()
        },
        _ => false,
    }
}

/// Draws a secret key with `secp256k1::SecretKey::new` from
/// `rand::thread_rng` and hands out its 32 bytes. That function draws 32
/// bytes again and again until they pass the check that
/// `secp256k1::SecretKey::from_slice` makes, so what comes back is a secret
/// key of the curve. Nothing else is known of it.
#[verifier::external_body]
fn secp_generate() -> (secret: [u8; 32])
    ensures
        secp256k1_public_key(secret@) is Some,
{
    secp256k1::SecretKey::new(&mut rand::thread_rng()).secret_bytes()
}

/// Draws 32 bytes from `rand::thread_rng`. Nothing is known of them.
#[verifier::external_body]
pub(crate) fn random_seed() -> (seed: [u8; 32]) {
    let mut seed = [0u8; 32];
    rand::thread_rng().fill_bytes(&mut seed);
    seed
}

/// Whether `signature` is a valid signature of the SHA-256 digest of
/// `message` under `public_key`.
pub open spec fn signature_valid(
    public_key: Seq<u8>,
    message: Seq<u8>,
    signature: Seq<u8>,
) -> bool {
    ecdsa_verifies(public_key, sha256(message), signature)
}

/// The address of a public key: its SHA-256 digest in hexadecimal.
pub open spec fn spec_address_of(public_key: Seq<u8>) -> Seq<char> {
    hex_string(sha256(public_key))
}

/// Verifies a signature over the SHA-256 digest of `message`. A malformed
/// key, a malformed signature and a signature that does not match all give
/// `false`.
pub fn verify_signature(public_key: &[u8], message: &[u8], signature: &[u8]) -> (ok: bool)
    ensures
        ok == signature_valid(public_key@, message@, signature@),
{
    let digest = sha256_digest(message);
    secp_verify(public_key, &digest, signature)
}

/// The address of a public key.
pub fn address_of(public_key: &[u8]) -> (address: String)
    ensures
        address@ == spec_address_of(public_key@),
{
    let digest = sha256_digest(public_key);
    hex_encode(digest.as_slice())
}

/// A secret key: 32 bytes.
#[derive(Debug, Clone, Copy)]
pub struct SecretKey {
    pub bytes: [u8; 32],
}

/// A public key in compressed form: 33 bytes.
#[derive(Debug, Clone, Copy)]
pub struct PublicKey {
    pub bytes: [u8; 33],
}

impl SecretKey {
    /// The 32 secret bytes.
    pub fn secret_bytes(&self) -> (bytes: [u8; 32])
        ensures
            bytes == self.bytes,
    {
        self.bytes
    }
}

impl PublicKey {
    /// The 33 bytes of the compressed form.
    pub fn serialize(&self) -> (bytes: [u8; 33])
        ensures
            bytes == self.bytes,
    {
        self.bytes
    }
}

/// A secret key with its public key.
#[derive(Debug, Clone, Copy)]
pub struct KeyPair {
    pub secret_key: SecretKey,
    pub public_key: PublicKey,
}

impl KeyPair {
    /// The public key is the one that belongs to the secret key.
    pub open spec fn wf(&self) -> bool {
        secp256k1_public_key(self.secret_key.bytes@) == Some(self.public_key.bytes@)
    }

    /// A key pair with a fresh random secret key. Bytes that are no secret
    /// key of the curve are drawn again, so a key pair always comes back.
    pub fn generate() -> (r: Result<KeyPair, ChainError>)
        ensures
            r matches Ok(pair) && pair.wf(),
    {
        let secret = secp_generate();
        KeyPair::from_secret_bytes(secret.as_slice())
    }

    /// The key pair of the given secret bytes; a cryptographic error where
    /// they are not 32 bytes or no secret key of the curve.
    pub fn from_secret_bytes(secret: &[u8]) -> (r: Result<KeyPair, ChainError>)
        ensures
            match r {
                Ok(pair) => pair.wf() && pair.secret_key.bytes@ == secret@,
                Err(e) => e is CryptoError && (secret@.len() != 32 || secp256k1_public_key(
                    secret@,
                ) is None),
            },
    {
        if secret.len() != 32 {
            return Err(ChainError::CryptoError("Invalid secret key".to_owned()));
        }
        let mut bytes = [0u8; 32];
        let mut i: usize = 0;
        while i < 32
            invariant
                i <= 32,
                secret@.len() == 32,
                forall|j: int| 0 <= j < i ==> bytes@[j] == secret@[j],
            decreases 32 - i,
        {
            bytes[i] = secret[i];
            i += 1;
        }
        assert(bytes@ =~= secret@);
        match secp_public_key(&bytes) {
            Some(public) => Ok(
                KeyPair { secret_key: SecretKey { bytes }, public_key: PublicKey { bytes: public } },
            ),
            None => Err(ChainError::CryptoError("Invalid secret key".to_owned())),
        }
    }

    /// The address that belongs to the public key.
    pub fn address(&self) -> (address: String)
        ensures
            address@ == spec_address_of(self.public_key.bytes@),
    {
        address_of(self.public_key.bytes.as_slice())
    }

    /// Signs the SHA-256 digest of `message`; the signature has 64 bytes.
    pub fn sign(&self, message: &[u8]) -> (r: Result<Vec<u8>, ChainError>)
        ensures
            match ecdsa_signature(self.secret_key.bytes@, sha256(message@)) {
                Some(signature) => r matches Ok(bytes) && bytes@ == signature,
                None => r matches Err(e) && e is CryptoError,
            },
    {
        let digest = sha256_digest(message);
        match secp_sign(&self.secret_key.bytes, &digest) {
            Some(signature) => {
                let mut out: Vec<u8> = Vec::new();
                crate::bytes::append_bytes(&mut out, signature.as_slice());
                assert(out@ =~= signature@);
                Ok(out)
            },
            None => Err(ChainError::CryptoError("Invalid secret key".to_owned())),
        }
    }
}

} // verus!
