//! Mnemonic phrases and seeds after BIP-39.

use crate::crypto::random_seed;
use vstd::prelude::*;

verus! {

/// The English BIP-39 phrase for an entropy: its bytes and a checksum,
/// eleven bits to a word. `None` for an entropy that is not 16, 20, 24, 28
/// or 32 bytes long.
pub uninterp spec fn bip39_phrase(entropy: Seq<u8>) -> Option<Seq<char>>;

/// The 64-byte BIP-39 seed of a phrase and a passphrase: PBKDF2 with
/// HMAC-SHA512 over the words. `None` for a text that is no valid phrase.
pub uninterp spec fn bip39_seed(phrase: Seq<char>, passphrase: Seq<char>) -> Option<Seq<u8>>;

/// Whether an entropy has a length that BIP-39 knows.
pub open spec fn entropy_length_valid(len: nat) -> bool {
    len % 4 == 0 && 16 <= len <= 32
}

/// The number of entropy bytes behind a phrase of `word_count` words.
pub open spec fn entropy_bytes_for(word_count: usize) -> Option<usize> {
    if word_count == 12 {
        Some(16usize)
    } else if word_count == 15 {
        Some(20usize)
    } else if word_count == 18 {
        Some(24usize)
    } else if word_count == 21 {
        Some(28usize)
    } else if word_count == 24 {
        Some(32usize)
    } else {
        None
    }
}

/// The characters of an optional string.
pub open spec fn phrase_view(o: Option<String>) -> Option<Seq<char>> {
    match o {
        Some(s) => Some(s@),
        None => None,
    }
}

/// The bytes of an optional seed.
pub open spec fn seed_view(o: Option<[u8; 64]>) -> Option<Seq<u8>> {
    match o {
        Some(bytes) => Some(bytes@),
        None => None,
    }
}

/// Makes the phrase with `bip39::Mnemonic::from_entropy` and writes it out
/// with its words separated by spaces. That function refuses an entropy
/// whose number of bits is no multiple of 32 or lies outside 128 to 256,
/// and no other.
#[verifier::external_body]
fn phrase_from_entropy(entropy: &[u8]) -> (r: Option<String>)
    ensures
        phrase_view(r) == bip39_phrase(entropy@),
        r is Some <==> entropy_length_valid(entropy@.len()),
{
    match bip39::Mnemonic::from_entropy(entropy) {
        Ok(mnemonic) => Some(mnemonic.to_string()),
        Err(_) => None,
    }
}

/// Parses the phrase with `bip39::Mnemonic::parse_normalized` and derives
/// the seed with `to_seed_normalized`.
#[verifier::external_body]
fn seed_from_phrase(phrase: &str, passphrase: &str) -> (r: Option<[u8; 64]>)
    ensures
        seed_view(r) == bip39_seed(phrase@, passphrase@),
{
    match bip39::Mnemonic::parse_normalized(phrase) {
        Ok(mnemonic) => Some(mnemonic.to_seed_normalized(passphrase)),
        Err(_) => None,
    }
}

/// Mnemonic generation and seed derivation after BIP-39.
#[derive(Debug, Clone, Copy)]
pub struct HDWallet;

impl HDWallet {
    /// The phrase for an entropy of 16, 20, 24, 28 or 32 bytes.
    pub fn mnemonic_for_entropy(entropy: &[u8]) -> (r: Result<String, String>)
        ensures
            match r {
                Ok(phrase) => entropy_length_valid(entropy@.len()) && Some(phrase@) == bip39_phrase(
                    entropy@,
                ),
                Err(reason) => !entropy_length_valid(entropy@.len()) && reason@
                    == "mnemonic generation failed"@,
            },
    {
        match phrase_from_entropy(entropy) {
            Some(phrase) => Ok(phrase),
            None => Err("mnemonic generation failed".to_owned()),
        }
    }

    /// A new phrase of `word_count` words from fresh random bytes: the
    /// phrase of some entropy of the length that belongs to the word count.
    /// The word counts 12, 15, 18, 21 and 24 are supported, and no other.
    pub fn generate_mnemonic(word_count: usize) -> (r: Result<String, String>)
        ensures
            match r {
                Ok(phrase) => entropy_bytes_for(word_count) matches Some(n) && exists|
                    entropy: Seq<u8>,
                |
                    entropy.len() == n && #[trigger] bip39_phrase(entropy) == Some(phrase@),
                Err(reason) => entropy_bytes_for(word_count) is None && reason@
                    == "unsupported word count; choose 12/15/18/21/24"@,
            },
    {
        let entropy_bytes: usize = if word_count == 12 {
            16
        } else if word_count == 15 {
            20
        } else if word_count == 18 {
            24
        } else if word_count == 21 {
            28
        } else if word_count == 24 {
            32
        } else {
            return Err("unsupported word count; choose 12/15/18/21/24".to_owned());
        };
        let seed = random_seed();
        let mut entropy: Vec<u8> = Vec::new();
        let mut i: usize = 0;
        while i < entropy_bytes
            invariant
                i <= entropy_bytes <= 32,
                entropy@.len() == i,
            decreases entropy_bytes - i,
        {
            entropy.push(seed[i]);
            i += 1;
        }
        match HDWallet::mnemonic_for_entropy(entropy.as_slice()) {
            Ok(phrase) => {
                assert(bip39_phrase(entropy@) == Some(phrase@));
                Ok(phrase)
            },
            Err(_) => Err("unsupported word count; choose 12/15/18/21/24".to_owned()),
        }
    }

    /// The BIP-39 seed of a phrase: 64 bytes. No passphrase counts as the
    /// empty one.
    pub fn seed_from_mnemonic(phrase: &str, passphrase: Option<&str>) -> (r: Result<
        Vec<u8>,
        String,
    >)
        ensures
            match bip39_seed(
                phrase@,
                match passphrase {
                    Some(p) => p@,
                    None => ""@,
                },
            ) {
                Some(seed) => r matches Ok(bytes) && bytes@ == seed && bytes@.len() == 64,
                None => r matches Err(reason) && reason@ == "invalid mnemonic phrase"@,
            },
    {
        let pass: &str = match passphrase {
            Some(p) => p,
            None => "",
        };
        match seed_from_phrase(phrase, pass) {
            Some(seed) => {
                let mut bytes: Vec<u8> = Vec::new();
                crate::bytes::append_bytes(&mut bytes, seed.as_slice());
                assert(bytes@ =~= seed@);
                Ok(bytes)
            },
            None => Err("invalid mnemonic phrase".to_owned()),
        }
    }
}

} // verus!
