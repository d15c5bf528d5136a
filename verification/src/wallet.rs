//! Wallets: a key pair under a name, the secret key encrypted under a
//! password, and where wallet files live.

use aes_gcm::aead::Aead;
use aes_gcm::aead::AeadCore;
use aes_gcm::aead::KeyInit;
use aes_gcm::aead::OsRng;
use argon2::password_hash::PasswordHasher;
use argon2::password_hash::PasswordVerifier;
use base64::Engine;
use crate::clock::now_rfc3339;
use crate::codec::string_from_utf8;
use crate::crypto::secp256k1_public_key;
use crate::crypto::spec_address_of;
use crate::crypto::KeyPair;
use crate::digest::decoded_view;
use crate::digest::hex_decode;
use crate::digest::hex_decoded;
use crate::digest::hex_encode;
use crate::digest::hex_string;
use crate::error::ChainError;
use crate::error::ErrorView;
use crate::transaction::string_option_view;
use vstd::prelude::*;
use vstd::utf8::decode_utf8;
use vstd::utf8::encode_utf8;
use vstd::utf8::valid_utf8;

verus! {

/// The memory that the key derivation uses, in KiB.
pub const ARGON2_MEMORY_KIB: u32 = 19456;

/// The number of passes of the key derivation.
pub const ARGON2_PASSES: u32 = 2;

/// The number of lanes of the key derivation.
pub const ARGON2_LANES: u32 = 1;

/// The length of an encryption key in bytes.
pub const VAULT_KEY_LENGTH: usize = 32;

/// The length of an encryption nonce in bytes.
pub const VAULT_NONCE_LENGTH: usize = 12;

/// The greatest number of bytes that are written out in Base64.
pub const MAX_BASE64_INPUT: usize = usize::MAX / 2;

/// The Argon2id hash, version 0x13, of a password under a salt in Base64
/// without padding, with the memory, passes and lanes given and the
/// default output length: the hash as PHC text, and its raw bytes. `None`
/// where the salt is no salt, the parameters are out of range, or the
/// hash fails.
pub uninterp spec fn argon2id_hash(
    password: Seq<char>,
    salt: Seq<char>,
    memory_kib: u32,
    passes: u32,
    lanes: u32,
) -> Option<(Seq<char>, Seq<u8>)>;

/// Whether a password has the hash that a PHC text spells, by the
/// algorithm's default instance; `None` where the text is no PHC text.
pub uninterp spec fn argon2_verifies(password: Seq<char>, phc: Seq<char>) -> Option<bool>;

/// The salt in a PHC text; `None` where the text is no PHC text or has no
/// salt.
pub uninterp spec fn phc_salt(phc: Seq<char>) -> Option<Seq<char>>;

/// The AES-256-GCM ciphertext, with its tag, of a plaintext under a key of
/// 32 bytes and a nonce of 12 bytes, without associated data; `None` where
/// the plaintext is too long.
pub uninterp spec fn aes256_gcm_sealed(key: Seq<u8>, nonce: Seq<u8>, plain: Seq<u8>) -> Option<
    Seq<u8>,
>;

/// The plaintext of an AES-256-GCM ciphertext under a key of 32 bytes and
/// a nonce of 12 bytes; `None` where the ciphertext is shorter than a tag,
/// too long, or its tag does not fit.
pub uninterp spec fn aes256_gcm_opened(key: Seq<u8>, nonce: Seq<u8>, sealed: Seq<u8>) -> Option<
    Seq<u8>,
>;

/// Bytes in standard Base64 with padding.
pub uninterp spec fn base64_text(bytes: Seq<u8>) -> Seq<char>;

/// The bytes that a text in standard Base64 with padding spells; `None`
/// where it spells none.
pub uninterp spec fn base64_bytes(text: Seq<char>) -> Option<Seq<u8>>;

/// The text and the bytes of an optional hash.
pub open spec fn hash_option_view(o: Option<(String, Vec<u8>)>) -> Option<(Seq<char>, Seq<u8>)> {
    match o {
        Some((text, raw)) => Some((text@, raw@)),
        None => None,
    }
}

/// Hashes with `argon2::Argon2::hash_password`, on an instance made by
/// `Argon2::new` for Argon2id, version 0x13 and `Params::new` of the
/// memory, passes and lanes given with the default output length. The
/// salt is read by `SaltString::from_b64`. What comes back is the hash
/// written out as PHC text and its raw bytes; it depends on the arguments
/// alone.
#[verifier::external_body]
fn argon2_hash(password: &str, salt: &str, memory_kib: u32, passes: u32, lanes: u32) -> (r: Option<
    (String, Vec<u8>),
>)
    ensures
        hash_option_view(r) == argon2id_hash(password@, salt@, memory_kib, passes, lanes),
{
    let salt = argon2::password_hash::SaltString::from_b64(salt).ok()?;
    let params = argon2::Params::new(memory_kib, passes, lanes, None).ok()?;
    let hasher = argon2::Argon2::new(argon2::Algorithm::Argon2id, argon2::Version::V0x13, params);
    let hash = hasher.hash_password(password.as_bytes(), &salt).ok()?;
    let raw = hash.hash?.as_bytes().to_vec();
    Some((hash.to_string(), raw))
}

/// Checks a password with `verify_password` of `argon2::Argon2::default()`
/// against a hash that `argon2::PasswordHash::new` reads from PHC text.
/// `None` where the text does not parse; else whether the check passed.
#[verifier::external_body]
fn argon2_verify(password: &str, phc: &str) -> (r: Option<bool>)
    ensures
        r == argon2_verifies(password@, phc@),
{
    let parsed = argon2::PasswordHash::new(phc).ok()?;
    Some(argon2::Argon2::default().verify_password(password.as_bytes(), &parsed).is_ok())
}

/// Reads PHC text with `argon2::PasswordHash::new` and hands out the salt
/// in it as text.
#[verifier::external_body]
fn salt_of_phc(phc: &str) -> (r: Option<String>)
    ensures
        string_option_view(r) == phc_salt(phc@),
{
    let parsed = argon2::PasswordHash::new(phc).ok()?;
    Some(parsed.salt?.as_str().to_owned())
}

/// Encrypts with `encrypt` of `aes_gcm::Aes256Gcm`, made from the key by
/// `new_from_slice`. The ciphertext depends on key, nonce and plaintext
/// alone.
#[verifier::external_body]
fn aes_seal(key: &[u8; 32], nonce: &[u8; 12], plain: &[u8]) -> (r: Option<Vec<u8>>)
    ensures
        decoded_view(r) == aes256_gcm_sealed(key@, nonce@, plain@),
{
    let cipher = aes_gcm::Aes256Gcm::new_from_slice(key).ok()?;
    cipher.encrypt(aes_gcm::Nonce::from_slice(nonce), plain).ok()
}

/// Decrypts with `decrypt` of `aes_gcm::Aes256Gcm`, made from the key by
/// `new_from_slice`. The plaintext depends on key, nonce and ciphertext
/// alone; there is none where the ciphertext is shorter than a tag, too
/// long, or its tag does not fit them.
#[verifier::external_body]
fn aes_open(key: &[u8; 32], nonce: &[u8; 12], sealed: &[u8]) -> (r: Option<Vec<u8>>)
    ensures
        decoded_view(r) == aes256_gcm_opened(key@, nonce@, sealed@),
{
    let cipher = aes_gcm::Aes256Gcm::new_from_slice(key).ok()?;
    cipher.decrypt(aes_gcm::Nonce::from_slice(nonce), sealed).ok()
}

/// Writes bytes out with `encode` of `base64::engine::general_purpose::STANDARD`.
/// That function fails where the length of the text does not fit a
/// `usize`, which half of that range as input rules out.
#[verifier::external_body]
fn base64_encode(bytes: &[u8]) -> (text: String)
    requires
        bytes@.len() <= MAX_BASE64_INPUT,
    ensures
        text@ == base64_text(bytes@),
{
    base64::engine::general_purpose::STANDARD.encode(bytes)
}

/// Reads text with `decode` of `base64::engine::general_purpose::STANDARD`.
#[verifier::external_body]
fn base64_decode(text: &str) -> (r: Option<Vec<u8>>)
    ensures
        decoded_view(r) == base64_bytes(text@),
{
    base64::engine::general_purpose::STANDARD.decode(text).ok()
}

/// A fresh salt from `argon2::password_hash::SaltString::generate` with
/// the operating system's random numbers, as text. Nothing is known of
/// it.
#[verifier::external_body]
fn random_salt() -> (salt: String) {
    argon2::password_hash::SaltString::generate(&mut OsRng).as_str().to_owned()
}

/// A fresh nonce from `generate_nonce` of `aes_gcm::Aes256Gcm` with the
/// operating system's random numbers. Nothing is known of it.
#[verifier::external_body]
fn random_nonce() -> (nonce: [u8; 12]) {
    aes_gcm::Aes256Gcm::generate_nonce(&mut OsRng).into()
}

/// A wallet: a secret key in hexadecimal with the address that belongs to
/// it.
#[derive(Debug, Clone)]
pub struct Wallet {
    /// Optional wallet name.
    pub name: Option<String>,
    /// Wallet address, derived from the public key.
    pub address: String,
    /// Secret key in hexadecimal.
    pub secret_key_hex: String,
    /// Time of creation.
    pub created: String,
}

/// A wallet whose secret key is encrypted under a password.
#[derive(Debug, Clone)]
pub struct EncryptedWallet {
    pub name: Option<String>,
    pub address: String,
    /// The encrypted secret key in Base64.
    pub encrypted_secret_key: String,
    /// The Argon2 hash of the password.
    pub password_hash: String,
    /// The nonce of the encryption in Base64.
    pub nonce: String,
    pub created: String,
}

impl Wallet {
    /// The wallet of a key pair.
    pub fn with_keypair(name: Option<String>, keypair: &KeyPair, created: String) -> (wallet:
        Wallet)
        ensures
            wallet.name == name,
            wallet.created == created,
            wallet.address@ == spec_address_of(keypair.public_key.bytes@),
            wallet.secret_key_hex@ == hex_string(keypair.secret_key.bytes@),
            keypair.wf() ==> wallet.keys_belong(),
    {
        Wallet {
            name,
            address: keypair.address(),
            secret_key_hex: hex_encode(keypair.secret_key.bytes.as_slice()),
            created,
        }
    }

    /// Whether the address and the secret key of the wallet belong to one
    /// key pair: the secret key is the hexadecimal text of 32 bytes that
    /// are a secret key of the curve, and the address is that of their
    /// public key.
    pub open spec fn keys_belong(&self) -> bool {
        exists|secret: Seq<u8>, public: Seq<u8>|
            secret.len() == 32 && #[trigger] secp256k1_public_key(secret) == Some(public)
                && self.secret_key_hex@ == hex_string(secret) && self.address@
                == #[trigger] spec_address_of(public)
    }

    /// A new wallet with a freshly generated key pair, created now: it has
    /// the name given, and its address and secret key belong to one key
    /// pair.
    pub fn new(name: Option<String>) -> (r: Result<Wallet, ChainError>)
        ensures
            r matches Ok(wallet) && wallet.name == name && wallet.keys_belong(),
    {
        match KeyPair::generate() {
            Ok(keypair) => {
                let wallet = Wallet::with_keypair(name, &keypair, now_rfc3339());
                assert(secp256k1_public_key(keypair.secret_key.bytes@) == Some(
                    keypair.public_key.bytes@,
                ));
                assert(wallet.address@ == spec_address_of(keypair.public_key.bytes@));
                Ok(wallet)
            },
            Err(e) => Err(e),
        }
    }

    /// The key pair of the wallet. Fails with a wallet error where the
    /// secret key is no hexadecimal text, and with a cryptographic error
    /// where the bytes are no secret key.
    pub fn get_keypair(&self) -> (r: Result<KeyPair, ChainError>)
        ensures
            match hex_decoded(encode_utf8(self.secret_key_hex@)) {
                None => r matches Err(e) && e@ == crate::error::ErrorView::WalletError(
                    "Failed to decode secret key"@,
                ),
                Some(secret) => match r {
                    Ok(pair) => pair.wf() && pair.secret_key.bytes@ == secret,
                    Err(e) => e is CryptoError && (secret.len() != 32 || secp256k1_public_key(
                        secret,
                    ) is None),
                },
            },
    {
        match hex_decode(self.secret_key_hex.as_str()) {
            Some(secret) => KeyPair::from_secret_bytes(secret.as_slice()),
            None => Err(ChainError::WalletError("Failed to decode secret key".to_owned())),
        }
    }
}

/// The error of the wallet's cryptography with this reason.
pub open spec fn crypto_fault(reason: Seq<char>) -> ErrorView {
    ErrorView::CryptoError(reason)
}

/// The password hash as PHC text and the encryption key that a password
/// gives under a salt: the key is the first 32 bytes of the raw hash.
pub open spec fn derived_key(password: Seq<char>, salt: Seq<char>) -> Result<
    (Seq<char>, Seq<u8>),
    ErrorView,
> {
    match argon2id_hash(password, salt, ARGON2_MEMORY_KIB, ARGON2_PASSES, ARGON2_LANES) {
        None => Err(crypto_fault("Password hashing failed"@)),
        Some((phc, raw)) => if raw.len() < VAULT_KEY_LENGTH {
            Err(crypto_fault("Password hash is too short for a key"@))
        } else {
            Ok((phc, raw.take(VAULT_KEY_LENGTH as int)))
        },
    }
}

/// What encryption adds to a wallet, as plain values.
pub struct SealedView {
    pub encrypted_secret_key: Seq<char>,
    pub password_hash: Seq<char>,
    pub nonce: Seq<char>,
}

/// A secret key in hexadecimal, encrypted under a password with the salt
/// and the nonce given: the key comes from the password and the salt, the
/// ciphertext and the nonce are written in Base64.
pub open spec fn sealed_secret(
    secret_hex: Seq<char>,
    password: Seq<char>,
    salt: Seq<char>,
    nonce: Seq<u8>,
) -> Result<SealedView, ErrorView> {
    match derived_key(password, salt) {
        Err(error) => Err(error),
        Ok((phc, key)) => match aes256_gcm_sealed(key, nonce, encode_utf8(secret_hex)) {
            Some(sealed) if sealed.len() <= MAX_BASE64_INPUT => Ok(
                SealedView {
                    encrypted_secret_key: base64_text(sealed),
                    password_hash: phc,
                    nonce: base64_text(nonce),
                },
            ),
            _ => Err(crypto_fault("Encryption failed"@)),
        },
    }
}

/// The secret key in hexadecimal that a password opens. In this order:
/// the password hash must be PHC text; the password must have that hash;
/// the hash must name its salt; the key is derived from password and
/// salt; nonce and ciphertext must be Base64, the nonce of 12 bytes; the
/// ciphertext must open under key and nonce; the plaintext must be UTF-8.
pub open spec fn opened_secret(sealed: SealedView, password: Seq<char>) -> Result<
    Seq<char>,
    ErrorView,
> {
    match argon2_verifies(password, sealed.password_hash) {
        None => Err(crypto_fault("Invalid password hash"@)),
        Some(false) => Err(crypto_fault("Decryption failed - wrong password?"@)),
        Some(true) => match phc_salt(sealed.password_hash) {
            None => Err(crypto_fault("Salt not found in password hash"@)),
            Some(salt) => match derived_key(password, salt) {
                Err(error) => Err(error),
                Ok((_, key)) => match base64_bytes(sealed.nonce) {
                    Some(nonce) if nonce.len() == VAULT_NONCE_LENGTH => match base64_bytes(
                        sealed.encrypted_secret_key,
                    ) {
                        None => Err(crypto_fault("Invalid ciphertext"@)),
                        Some(ciphertext) => match aes256_gcm_opened(key, nonce, ciphertext) {
                            None => Err(crypto_fault("Decryption failed - wrong password?"@)),
                            Some(plain) => if valid_utf8(plain) {
                                Ok(decode_utf8(plain))
                            } else {
                                Err(crypto_fault("Invalid UTF-8"@))
                            },
                        },
                    },
                    _ => Err(crypto_fault("Invalid nonce"@)),
                },
            },
        },
    }
}

/// A copy of an optional name.
fn clone_name(name: &Option<String>) -> (copy: Option<String>)
    ensures
        copy == *name,
{
    match name {
        Some(text) => Some(text.clone()),
        None => None,
    }
}

/// The first `N` bytes of `bytes`.
fn first_bytes<const N: usize>(bytes: &[u8]) -> (front: [u8; N])
    requires
        bytes@.len() >= N,
    ensures
        front@ == bytes@.take(N as int),
{
    let mut front = [0u8; N];
    let mut i: usize = 0;
    while i < N
        invariant
            i <= N <= bytes@.len(),
            forall|j: int| 0 <= j < i ==> front@[j] == bytes@[j],
        decreases N - i,
    {
        front[i] = bytes[i];
        i += 1;
    }
    assert(front@ =~= bytes@.take(N as int));
    front
}

/// Derives the password hash and the encryption key from a password and
/// a salt.
fn derive_key(password: &str, salt: &str) -> (r: Result<(String, [u8; 32]), ChainError>)
    ensures
        match derived_key(password@, salt@) {
            Ok((phc, key)) => r matches Ok((text, bytes)) && text@ == phc && bytes@ == key,
            Err(error) => r matches Err(e) && e@ == error,
        },
{
    match argon2_hash(password, salt, ARGON2_MEMORY_KIB, ARGON2_PASSES, ARGON2_LANES) {
        None => Err(ChainError::CryptoError("Password hashing failed".to_owned())),
        Some((phc, raw)) => {
            if raw.len() < VAULT_KEY_LENGTH {
                return Err(
                    ChainError::CryptoError("Password hash is too short for a key".to_owned()),
                );
            }
            Ok((phc, first_bytes::<32>(raw.as_slice())))
        },
    }
}

impl EncryptedWallet {
    /// What encryption added to the wallet.
    pub open spec fn sealed(&self) -> SealedView {
        SealedView {
            encrypted_secret_key: self.encrypted_secret_key@,
            password_hash: self.password_hash@,
            nonce: self.nonce@,
        }
    }

    /// Whether `r` is what comes of encrypting `wallet` under a password
    /// with the salt and the nonce given: name, address and time of
    /// creation stay, the secret key is sealed; or the error of the
    /// sealing.
    pub open spec fn seals(
        r: Result<EncryptedWallet, ChainError>,
        wallet: &Wallet,
        password: Seq<char>,
        salt: Seq<char>,
        nonce: Seq<u8>,
    ) -> bool {
        match sealed_secret(wallet.secret_key_hex@, password, salt, nonce) {
            Ok(sealed) => r matches Ok(encrypted) && encrypted.name == wallet.name
                && encrypted.address == wallet.address && encrypted.created == wallet.created
                && encrypted.sealed() == sealed,
            Err(error) => r matches Err(e) && e@ == error,
        }
    }

    /// Encrypts the secret key of a wallet under a password, with the salt
    /// and the nonce given.
    pub fn from_wallet_with(wallet: &Wallet, password: &str, salt: &str, nonce: &[u8; 12]) -> (r:
        Result<EncryptedWallet, ChainError>)
        ensures
            EncryptedWallet::seals(r, wallet, password@, salt@, nonce@),
    {
        let (password_hash, key) = match derive_key(password, salt) {
            Ok(pair) => pair,
            Err(e) => { return Err(e); },
        };
        let ciphertext = match aes_seal(&key, nonce, wallet.secret_key_hex.as_str().as_bytes()) {
            Some(bytes) => bytes,
            None => { return Err(ChainError::CryptoError("Encryption failed".to_owned())); },
        };
        if ciphertext.len() > MAX_BASE64_INPUT {
            return Err(ChainError::CryptoError("Encryption failed".to_owned()));
        }
        Ok(
            EncryptedWallet {
                name: clone_name(&wallet.name),
                address: wallet.address.clone(),
                encrypted_secret_key: base64_encode(ciphertext.as_slice()),
                password_hash,
                nonce: base64_encode(nonce.as_slice()),
                created: wallet.created.clone(),
            },
        )
    }

    /// Encrypts the secret key of a wallet under a password, with a fresh
    /// random salt and a fresh random nonce of 12 bytes.
    pub fn from_wallet(wallet: &Wallet, password: &str) -> (r: Result<EncryptedWallet, ChainError>)
        ensures
            exists|salt: Seq<char>, nonce: Seq<u8>|
                nonce.len() == VAULT_NONCE_LENGTH && #[trigger] EncryptedWallet::seals(
                    r,
                    wallet,
                    password@,
                    salt,
                    nonce,
                ),
    {
        let salt = random_salt();
        let nonce = random_nonce();
        let r = EncryptedWallet::from_wallet_with(wallet, password, salt.as_str(), &nonce);
        assert(EncryptedWallet::seals(r, wallet, password@, salt@, nonce@));
        r
    }

    /// Decrypts the wallet with its password: name, address and time of
    /// creation stay, the secret key is the one that the password opens.
    pub fn decrypt(&self, password: &str) -> (r: Result<Wallet, ChainError>)
        ensures
            match opened_secret(self.sealed(), password@) {
                Ok(secret) => r matches Ok(wallet) && wallet.name == self.name && wallet.address
                    == self.address && wallet.created == self.created && wallet.secret_key_hex@
                    == secret,
                Err(error) => r matches Err(e) && e@ == error,
            },
    {
        match argon2_verify(password, self.password_hash.as_str()) {
            None => { return Err(ChainError::CryptoError("Invalid password hash".to_owned())); },
            Some(false) => {
                return Err(
                    ChainError::CryptoError("Decryption failed - wrong password?".to_owned()),
                );
            },
            Some(true) => {},
        }
        let salt = match salt_of_phc(self.password_hash.as_str()) {
            Some(text) => text,
            None => {
                return Err(ChainError::CryptoError("Salt not found in password hash".to_owned()));
            },
        };
        let (_, key) = match derive_key(password, salt.as_str()) {
            Ok(pair) => pair,
            Err(e) => { return Err(e); },
        };
        let nonce_bytes = match base64_decode(self.nonce.as_str()) {
            Some(bytes) => bytes,
            None => { return Err(ChainError::CryptoError("Invalid nonce".to_owned())); },
        };
        if nonce_bytes.len() != VAULT_NONCE_LENGTH {
            return Err(ChainError::CryptoError("Invalid nonce".to_owned()));
        }
        let nonce = first_bytes::<12>(nonce_bytes.as_slice());
        assert(nonce@ =~= nonce_bytes@);
        let ciphertext = match base64_decode(self.encrypted_secret_key.as_str()) {
            Some(bytes) => bytes,
            None => { return Err(ChainError::CryptoError("Invalid ciphertext".to_owned())); },
        };
        let plain = match aes_open(&key, &nonce, ciphertext.as_slice()) {
            Some(bytes) => bytes,
            None => {
                return Err(
                    ChainError::CryptoError("Decryption failed - wrong password?".to_owned()),
                );
            },
        };
        match string_from_utf8(plain) {
            Some(secret_key_hex) => Ok(
                Wallet {
                    name: clone_name(&self.name),
                    address: self.address.clone(),
                    secret_key_hex,
                    created: self.created.clone(),
                },
            ),
            None => Err(ChainError::CryptoError("Invalid UTF-8".to_owned())),
        }
    }
}

/// The path of the default wallet file in a wallet directory.
pub fn get_default_wallet_path(wallet_dir: &str) -> (path: String)
    ensures
        path@ == wallet_dir@ + "/wallet.json"@,
{
    wallet_dir.to_owned().concat("/wallet.json")
}

/// The path of the wallet file with a name in a wallet directory.
pub fn get_named_wallet_path(wallet_dir: &str, name: &str) -> (path: String)
    ensures
        path@ == wallet_dir@ + "/wallet_"@ + name@ + ".json"@,
{
    wallet_dir.to_owned().concat("/wallet_").concat(name).concat(".json")
}

/// The wallet directory below a home directory.
pub fn get_wallet_dir(home: &str) -> (dir: String)
    ensures
        dir@ == home@ + "/.trinitychain"@,
{
    home.to_owned().concat("/.trinitychain")
}

} // verus!
