//! The three kinds of transaction, their canonical bytes for hashing and
//! signing, and their validation rules.

use crate::bytes::append_bytes;
use crate::bytes::append_u64_le;
use crate::coord::Coord;
use crate::crypto::ecdsa_signature;
use crate::crypto::signature_valid;
use crate::crypto::KeyPair;
use crate::crypto::verify_signature;
use crate::digest::hex_encode;
use crate::digest::hex_string;
use crate::digest::sha256;
use crate::digest::sha256_digest;
use crate::digest::Sha256Hash;
use crate::error::as_invalid_transaction;
use crate::error::reports;
use crate::error::ChainError;
use crate::error::ErrorView;
use crate::geometry::coord_le_bytes;
use crate::geometry::lemma_triangle_hash_canonical;
use crate::geometry::Triangle;
use crate::geometry::TriangleView;
use crate::geometry::GEOMETRIC_TOLERANCE_BITS;
use crate::state::StateView;
use crate::state::TriangleState;
use vstd::bytes::spec_u64_to_le_bytes;
use vstd::prelude::*;
use vstd::string::StrSliceExecFns;
use vstd::utf8::encode_utf8;

verus! {

/// An address: the hexadecimal digest of a public key. Only equality of
/// addresses matters to the chain.
pub type Address = String;

/// Maximum size of an encoded transaction in bytes.
pub const MAX_TRANSACTION_SIZE: usize = 100_000;

/// Maximum length of a memo in characters.
pub const MAX_MEMO_LENGTH: usize = 256;

/// Stored integer of the largest reward a coinbase may claim: `1000`.
pub const MAX_REWARD_AREA_BITS: i64 = 0x3e8_0000_0000;

/// The bytes of an optional byte vector.
pub open spec fn bytes_option_view(o: Option<Vec<u8>>) -> Option<Seq<u8>> {
    match o {
        Some(v) => Some(v@),
        None => None,
    }
}

/// The characters of an optional string.
pub open spec fn string_option_view(o: Option<String>) -> Option<Seq<char>> {
    match o {
        Some(s) => Some(s@),
        None => None,
    }
}

/// The triangles of a vector, as plain values.
pub open spec fn triangles_view(v: Seq<Triangle>) -> Seq<TriangleView> {
    v.map_values(|t: Triangle| t@)
}

/// The canonical hashes of some triangles, one after the other.
pub open spec fn triangle_hashes(children: Seq<TriangleView>) -> Seq<u8>
    decreases children.len(),
{
    if children.len() == 0 {
        Seq::empty()
    } else {
        triangle_hashes(children.drop_last()) + children.last().hash()
    }
}

// ----------------------------------------------------------------------------
// Coinbase
// ----------------------------------------------------------------------------
/// Coinbase transaction: creates the block reward for a beneficiary.
#[derive(Debug)]
pub struct CoinbaseTx {
    pub reward_area: Coord,
    pub beneficiary_address: Address,
}

/// A coinbase transaction as plain values.
pub struct CoinbaseTxView {
    pub reward_area: Coord,
    pub beneficiary_address: Seq<char>,
}

impl View for CoinbaseTx {
    type V = CoinbaseTxView;

    open spec fn view(&self) -> CoinbaseTxView {
        CoinbaseTxView {
            reward_area: self.reward_area,
            beneficiary_address: self.beneficiary_address@,
        }
    }
}

impl Clone for CoinbaseTx {
    fn clone(&self) -> (tx: CoinbaseTx)
        ensures
            tx == *self,
    {
        CoinbaseTx {
            reward_area: self.reward_area,
            beneficiary_address: self.beneficiary_address.clone(),
        }
    }
}

impl CoinbaseTxView {
    /// The bytes the transaction is hashed from: the tag `coinbase`, the
    /// reward and the beneficiary.
    pub open spec fn hash_preimage(self) -> Seq<u8> {
        encode_utf8("coinbase"@) + coord_le_bytes(self.reward_area) + encode_utf8(
            self.beneficiary_address,
        )
    }

    /// Why the transaction is refused, or `None` where it is acceptable:
    /// the reward must be positive and at most the maximum, the beneficiary
    /// not empty.
    pub open spec fn fault(self) -> Option<Seq<char>> {
        if self.reward_area@ <= 0 {
            Some("Coinbase reward area must be greater than zero"@)
        } else if self.reward_area@ > MAX_REWARD_AREA_BITS {
            Some("Coinbase reward area exceeds maximum"@)
        } else if self.beneficiary_address.len() == 0 {
            Some("Coinbase beneficiary address cannot be empty"@)
        } else {
            None
        }
    }
}

/// The result that tells of `fault`: `Ok` for none, else an invalid
/// transaction with the fault as its reason.
pub open spec fn reports_fault(r: Result<(), ChainError>, fault: Option<Seq<char>>) -> bool {
    reports(r, as_invalid_transaction(fault))
}

impl CoinbaseTx {
    /// Checks the reward bounds and the beneficiary.
    pub fn validate(&self) -> (r: Result<(), ChainError>)
        ensures
            reports_fault(r, self@.fault()),
    {
        if self.reward_area.bits <= 0 {
            return Err(
                ChainError::InvalidTransaction(
                    "Coinbase reward area must be greater than zero".to_owned(),
                ),
            );
        }
        if self.reward_area.bits > MAX_REWARD_AREA_BITS {
            return Err(
                ChainError::InvalidTransaction("Coinbase reward area exceeds maximum".to_owned()),
            );
        }
        if self.beneficiary_address.as_str().is_empty() {
            return Err(
                ChainError::InvalidTransaction(
                    "Coinbase beneficiary address cannot be empty".to_owned(),
                ),
            );
        }
        Ok(())
    }
}

// ----------------------------------------------------------------------------
// Transfer
// ----------------------------------------------------------------------------
/// Transfer transaction: hands `amount` of a triangle's value to a new
/// owner; `fee_area` is deducted from the value as well.
#[derive(Debug)]
pub struct TransferTx {
    pub input_hash: Sha256Hash,
    pub new_owner: Address,
    pub sender: Address,
    /// Amount being sent to the new owner.
    pub amount: Coord,
    /// Geometric fee: area deducted from the triangle's value.
    pub fee_area: Coord,
    pub nonce: u64,
    pub signature: Option<Vec<u8>>,
    pub public_key: Option<Vec<u8>>,
    pub memo: Option<String>,
}

/// A transfer transaction as plain values.
pub struct TransferTxView {
    pub input_hash: Seq<u8>,
    pub new_owner: Seq<char>,
    pub sender: Seq<char>,
    pub amount: Coord,
    pub fee_area: Coord,
    pub nonce: u64,
    pub signature: Option<Seq<u8>>,
    pub public_key: Option<Seq<u8>>,
    pub memo: Option<Seq<char>>,
}

impl View for TransferTx {
    type V = TransferTxView;

    open spec fn view(&self) -> TransferTxView {
        TransferTxView {
            input_hash: self.input_hash@,
            new_owner: self.new_owner@,
            sender: self.sender@,
            amount: self.amount,
            fee_area: self.fee_area,
            nonce: self.nonce,
            signature: bytes_option_view(self.signature),
            public_key: bytes_option_view(self.public_key),
            memo: string_option_view(self.memo),
        }
    }
}

/// A copy of an optional byte vector.
pub fn clone_bytes_option(o: &Option<Vec<u8>>) -> (c: Option<Vec<u8>>)
    ensures
        bytes_option_view(c) == bytes_option_view(*o),
{
    match o {
        Some(v) => {
            let mut out: Vec<u8> = Vec::new();
            append_bytes(&mut out, v.as_slice());
            assert(out@ =~= v@);
            Some(out)
        },
        None => None,
    }
}

impl Clone for TransferTx {
    fn clone(&self) -> (tx: TransferTx)
        ensures
            tx@ == self@,
    {
        TransferTx {
            input_hash: self.input_hash,
            new_owner: self.new_owner.clone(),
            sender: self.sender.clone(),
            amount: self.amount,
            fee_area: self.fee_area,
            nonce: self.nonce,
            signature: clone_bytes_option(&self.signature),
            public_key: clone_bytes_option(&self.public_key),
            memo: match &self.memo {
                Some(m) => Some(m.clone()),
                None => None,
            },
        }
    }
}

/// The fields of a transfer that both its hash and its signed message
/// cover: input, new owner, sender, amount, fee and nonce.
pub open spec fn transfer_body(
    input_hash: Seq<u8>,
    new_owner: Seq<char>,
    sender: Seq<char>,
    amount: Coord,
    fee_area: Coord,
    nonce: u64,
) -> Seq<u8> {
    input_hash + encode_utf8(new_owner) + encode_utf8(sender) + coord_le_bytes(amount)
        + coord_le_bytes(fee_area) + spec_u64_to_le_bytes(nonce)
}

/// The bytes a transfer with these fields is hashed from: the tag
/// `transfer`, then the fields.
pub open spec fn transfer_hash_preimage(
    input_hash: Seq<u8>,
    new_owner: Seq<char>,
    sender: Seq<char>,
    amount: Coord,
    fee_area: Coord,
    nonce: u64,
) -> Seq<u8> {
    encode_utf8("transfer"@) + transfer_body(input_hash, new_owner, sender, amount, fee_area, nonce)
}

fn append_transfer_body(
    buf: &mut Vec<u8>,
    input_hash: &Sha256Hash,
    new_owner: &Address,
    sender: &Address,
    amount: Coord,
    fee_area: Coord,
    nonce: u64,
)
    ensures
        final(buf)@ == old(buf)@ + transfer_body(
            input_hash@,
            new_owner@,
            sender@,
            amount,
            fee_area,
            nonce,
        ),
{
    append_bytes(buf, input_hash.as_slice());
    append_bytes(buf, new_owner.as_str().as_bytes());
    append_bytes(buf, sender.as_str().as_bytes());
    append_u64_le(buf, amount.bits as u64);
    append_u64_le(buf, fee_area.bits as u64);
    append_u64_le(buf, nonce);
    assert(buf@ =~= old(buf)@ + transfer_body(
        input_hash@,
        new_owner@,
        sender@,
        amount,
        fee_area,
        nonce,
    ));
}

/// The hash of the transfer that has these fields.
pub fn transfer_hash(
    input_hash: &Sha256Hash,
    new_owner: &Address,
    sender: &Address,
    amount: Coord,
    fee_area: Coord,
    nonce: u64,
) -> (h: Sha256Hash)
    ensures
        h@ == sha256(
            transfer_hash_preimage(input_hash@, new_owner@, sender@, amount, fee_area, nonce),
        ),
{
    let mut buf: Vec<u8> = Vec::new();
    append_bytes(&mut buf, "transfer".as_bytes());
    append_transfer_body(&mut buf, input_hash, new_owner, sender, amount, fee_area, nonce);
    assert(buf@ =~= transfer_hash_preimage(
        input_hash@,
        new_owner@,
        sender@,
        amount,
        fee_area,
        nonce,
    ));
    sha256_digest(buf.as_slice())
}

impl TransferTxView {
    /// The message that the sender signs: the tag `TRANSFER:`, then the
    /// fields.
    pub open spec fn signable_message(self) -> Seq<u8> {
        encode_utf8("TRANSFER:"@) + transfer_body(
            self.input_hash,
            self.new_owner,
            self.sender,
            self.amount,
            self.fee_area,
            self.nonce,
        )
    }

    /// The bytes the transaction is hashed from.
    pub open spec fn hash_preimage(self) -> Seq<u8> {
        transfer_hash_preimage(
            self.input_hash,
            self.new_owner,
            self.sender,
            self.amount,
            self.fee_area,
            self.nonce,
        )
    }

    /// The first rule on the shape of the fields that the transfer breaks,
    /// or `None` where it breaks none. In this order: signed; sender and
    /// new owner not empty and not the same; amount and fee not negative and
    /// not both zero; the memo within its length.
    pub open spec fn field_fault(self) -> Option<Seq<char>> {
        if self.signature is None || self.public_key is None {
            Some("Transfer not signed"@)
        } else if self.sender.len() == 0 {
            Some("Sender address cannot be empty"@)
        } else if self.new_owner.len() == 0 {
            Some("New owner address cannot be empty"@)
        } else if self.sender == self.new_owner {
            Some("Sender and new owner cannot be the same"@)
        } else if self.amount@ < 0 {
            Some("Transfer amount cannot be negative"@)
        } else if self.fee_area@ < 0 {
            Some("Fee area cannot be negative"@)
        } else if self.amount@ == 0 && self.fee_area@ == 0 {
            Some("Amount and fee cannot both be zero"@)
        } else if self.memo matches Some(memo) && memo.len() > MAX_MEMO_LENGTH {
            Some("Memo exceeds maximum length of 256 characters"@)
        } else {
            None
        }
    }

    /// Whether the signature is a valid one of the signable message under
    /// the public key that the transfer carries.
    pub open spec fn signature_ok(self) -> bool {
        self.signature matches Some(signature) && self.public_key matches Some(public_key)
            && signature_valid(public_key, self.signable_message(), signature)
    }

    /// Why stateless validation refuses the transfer, or `None`: the first
    /// broken rule on the fields, else a signature that does not verify.
    pub open spec fn stateless_fault(self) -> Option<Seq<char>> {
        match self.field_fault() {
            Some(reason) => Some(reason),
            None => if self.signature_ok() {
                None
            } else {
                Some("Invalid signature"@)
            },
        }
    }
}

impl TransferTxView {
    /// Why the state refuses the transfer, or `None`: the input must exist,
    /// its effective value must leave at least the tolerance after amount
    /// and fee, and the sender must own it.
    pub open spec fn state_fault(self, state: StateView) -> Option<ErrorView> {
        if !state.contains(self.input_hash) {
            Some(ErrorView::TriangleNotFound("Transfer input not found in UTXO set"@))
        } else {
            let input = state.triangle(self.input_hash);
            match input.effective_value() {
                None => Some(ErrorView::InvalidTransaction("Input value cannot be computed"@)),
                Some(value) => if value@ - (self.amount@ + self.fee_area@)
                    < GEOMETRIC_TOLERANCE_BITS {
                    Some(ErrorView::InvalidTransaction("Insufficient triangle value"@))
                } else if input.owner != self.sender {
                    Some(ErrorView::InvalidTransaction("Sender does not own input triangle"@))
                } else {
                    None
                },
            }
        }
    }

    /// Why stateful validation refuses the transfer, or `None`: what
    /// stateless validation finds, else what the state finds.
    pub open spec fn stateful_fault(self, state: StateView) -> Option<ErrorView> {
        match self.stateless_fault() {
            Some(reason) => Some(ErrorView::InvalidTransaction(reason)),
            None => self.state_fault(state),
        }
    }
}

impl TransferTx {
    /// The rules that need the UTXO state: the input exists, is worth
    /// enough, and belongs to the sender.
    pub fn check_against_state(&self, state: &TriangleState) -> (r: Result<(), ChainError>)
        ensures
            reports(r, self@.state_fault(state@)),
    {
        let input = match state.get_utxo(&self.input_hash) {
            Some(t) => t,
            None => {
                return Err(
                    ChainError::TriangleNotFound(
                        "Transfer input not found in UTXO set".to_owned(),
                    ),
                );
            },
        };
        let value = match input.checked_effective_value() {
            Some(v) => v,
            None => {
                return Err(
                    ChainError::InvalidTransaction("Input value cannot be computed".to_owned()),
                );
            },
        };
        let remaining: i128 = value.bits as i128 - (self.amount.bits as i128
            + self.fee_area.bits as i128);
        if remaining < GEOMETRIC_TOLERANCE_BITS as i128 {
            return Err(ChainError::InvalidTransaction("Insufficient triangle value".to_owned()));
        }
        if input.owner != self.sender {
            return Err(
                ChainError::InvalidTransaction("Sender does not own input triangle".to_owned()),
            );
        }
        Ok(())
    }

    /// Full validation: stateless validation, then the rules that need the
    /// UTXO state.
    pub fn validate_with_state(&self, state: &TriangleState) -> (r: Result<(), ChainError>)
        ensures
            reports(r, self@.stateful_fault(state@)),
    {
        match self.validate() {
            Err(e) => { return Err(e); },
            Ok(()) => {},
        }
        self.check_against_state(state)
    }

    /// An unsigned transfer without a memo.
    pub fn new(
        input_hash: Sha256Hash,
        new_owner: Address,
        sender: Address,
        amount: Coord,
        fee_area: Coord,
        nonce: u64,
    ) -> (tx: TransferTx)
        ensures
            tx@ == (TransferTxView {
                input_hash: input_hash@,
                new_owner: new_owner@,
                sender: sender@,
                amount,
                fee_area,
                nonce,
                signature: None,
                public_key: None,
                memo: None,
            }),
    {
        TransferTx {
            input_hash,
            new_owner,
            sender,
            amount,
            fee_area,
            nonce,
            signature: None,
            public_key: None,
            memo: None,
        }
    }

    /// The transfer with `memo` attached; refused where the memo is longer
    /// than `MAX_MEMO_LENGTH` characters.
    pub fn with_memo(self, memo: String) -> (r: Result<TransferTx, ChainError>)
        ensures
            memo@.len() <= MAX_MEMO_LENGTH ==> (r matches Ok(tx) && tx@ == (TransferTxView {
                memo: Some(memo@),
                ..self@
            })),
            memo@.len() > MAX_MEMO_LENGTH ==> (r matches Err(
                ChainError::InvalidTransaction(msg),
            ) && msg@ == "Memo exceeds maximum length of 256 characters"@),
    {
        if memo.as_str().unicode_len() > MAX_MEMO_LENGTH {
            return Err(
                ChainError::InvalidTransaction(
                    "Memo exceeds maximum length of 256 characters".to_owned(),
                ),
            );
        }
        let mut tx = self;
        tx.memo = Some(memo);
        Ok(tx)
    }

    /// The message that the sender signs.
    pub fn signable_message(&self) -> (message: Vec<u8>)
        ensures
            message@ == self@.signable_message(),
    {
        let mut message: Vec<u8> = Vec::new();
        append_bytes(&mut message, "TRANSFER:".as_bytes());
        self.append_body(&mut message);
        assert(message@ =~= self@.signable_message());
        message
    }

    fn append_body(&self, buf: &mut Vec<u8>)
        ensures
            final(buf)@ == old(buf)@ + transfer_body(
                self@.input_hash,
                self@.new_owner,
                self@.sender,
                self@.amount,
                self@.fee_area,
                self@.nonce,
            ),
    {
        append_transfer_body(
            buf,
            &self.input_hash,
            &self.new_owner,
            &self.sender,
            self.amount,
            self.fee_area,
            self.nonce,
        );
    }

    /// Attaches a signature and the public key it is to be checked with.
    pub fn sign(&mut self, signature: Vec<u8>, public_key: Vec<u8>)
        ensures
            final(self)@ == (TransferTxView {
                signature: Some(signature@),
                public_key: Some(public_key@),
                ..old(self)@
            }),
    {
        self.signature = Some(signature);
        self.public_key = Some(public_key);
    }

    /// Signs the transfer with a key pair: the signature of the signable
    /// message and the public key of the pair are attached. Fails, and
    /// leaves the transfer as it was, where the secret bytes of the pair
    /// are no secret key.
    pub fn sign_with(&mut self, keypair: &KeyPair) -> (r: Result<(), ChainError>)
        ensures
            match ecdsa_signature(
                keypair.secret_key.bytes@,
                sha256(old(self)@.signable_message()),
            ) {
                Some(signature) => r is Ok && final(self)@ == (TransferTxView {
                    signature: Some(signature),
                    public_key: Some(keypair.public_key.bytes@),
                    ..old(self)@
                }),
                None => r matches Err(e) && e is CryptoError && final(self)@ == old(self)@,
            },
    {
        let message = self.signable_message();
        match keypair.sign(message.as_slice()) {
            Ok(signature) => {
                let mut public_key: Vec<u8> = Vec::new();
                append_bytes(&mut public_key, keypair.public_key.bytes.as_slice());
                assert(public_key@ =~= keypair.public_key.bytes@);
                self.sign(signature, public_key);
                Ok(())
            },
            Err(e) => Err(e),
        }
    }

    /// The rules on the shape of the fields: everything that stateless
    /// validation asks but for the signature check itself.
    pub fn validate_fields(&self) -> (r: Result<(), ChainError>)
        ensures
            reports_fault(r, self@.field_fault()),
    {
        if self.signature.is_none() || self.public_key.is_none() {
            return Err(ChainError::InvalidTransaction("Transfer not signed".to_owned()));
        }
        if self.sender.as_str().is_empty() {
            return Err(ChainError::InvalidTransaction("Sender address cannot be empty".to_owned()));
        }
        if self.new_owner.as_str().is_empty() {
            return Err(
                ChainError::InvalidTransaction("New owner address cannot be empty".to_owned()),
            );
        }
        if self.sender == self.new_owner {
            return Err(
                ChainError::InvalidTransaction(
                    "Sender and new owner cannot be the same".to_owned(),
                ),
            );
        }
        if self.amount.bits < 0 {
            return Err(
                ChainError::InvalidTransaction("Transfer amount cannot be negative".to_owned()),
            );
        }
        if self.fee_area.bits < 0 {
            return Err(ChainError::InvalidTransaction("Fee area cannot be negative".to_owned()));
        }
        if self.amount.bits == 0 && self.fee_area.bits == 0 {
            return Err(
                ChainError::InvalidTransaction("Amount and fee cannot both be zero".to_owned()),
            );
        }
        match &self.memo {
            Some(memo) => {
                if memo.as_str().unicode_len() > MAX_MEMO_LENGTH {
                    return Err(
                        ChainError::InvalidTransaction(
                            "Memo exceeds maximum length of 256 characters".to_owned(),
                        ),
                    );
                }
            },
            None => {},
        }
        Ok(())
    }

    /// Stateless validation: the rules on the fields, then the signature.
    /// The UTXO state is not consulted; `validate_with_state` does that.
    pub fn validate(&self) -> (r: Result<(), ChainError>)
        ensures
            reports_fault(r, self@.stateless_fault()),
    {
        match self.validate_fields() {
            Err(e) => { return Err(e); },
            Ok(()) => {},
        }
        let message = self.signable_message();
        let valid = match (&self.signature, &self.public_key) {
            (Some(signature), Some(public_key)) => verify_signature(
                public_key.as_slice(),
                message.as_slice(),
                signature.as_slice(),
            ),
            _ => false,
        };
        if !valid {
            return Err(ChainError::InvalidTransaction("Invalid signature".to_owned()));
        }
        Ok(())
    }
}

// ----------------------------------------------------------------------------
// Subdivision
// ----------------------------------------------------------------------------
/// Subdivision transaction: splits one parent triangle into three children.
#[derive(Debug)]
pub struct SubdivisionTx {
    pub parent_hash: Sha256Hash,
    pub children: Vec<Triangle>,
    pub owner_address: Address,
    pub fee_area: Coord,
    pub nonce: u64,
    pub signature: Option<Vec<u8>>,
    pub public_key: Option<Vec<u8>>,
}

/// A subdivision transaction as plain values.
pub struct SubdivisionTxView {
    pub parent_hash: Seq<u8>,
    pub children: Seq<TriangleView>,
    pub owner_address: Seq<char>,
    pub fee_area: Coord,
    pub nonce: u64,
    pub signature: Option<Seq<u8>>,
    pub public_key: Option<Seq<u8>>,
}

impl View for SubdivisionTx {
    type V = SubdivisionTxView;

    open spec fn view(&self) -> SubdivisionTxView {
        SubdivisionTxView {
            parent_hash: self.parent_hash@,
            children: triangles_view(self.children@),
            owner_address: self.owner_address@,
            fee_area: self.fee_area,
            nonce: self.nonce,
            signature: bytes_option_view(self.signature),
            public_key: bytes_option_view(self.public_key),
        }
    }
}

/// A copy of a vector of triangles.
pub fn clone_triangles(v: &Vec<Triangle>) -> (c: Vec<Triangle>)
    ensures
        c@ == v@,
{
    let mut out: Vec<Triangle> = Vec::new();
    let mut i: usize = 0;
    while i < v.len()
        invariant
            i <= v.len(),
            out@ == v@.subrange(0, i as int),
        decreases v.len() - i,
    {
        out.push(v[i].clone());
        assert(out@ =~= v@.subrange(0, i + 1));
        i += 1;
    }
    assert(out@ =~= v@);
    out
}

impl Clone for SubdivisionTx {
    fn clone(&self) -> (tx: SubdivisionTx)
        ensures
            tx@ == self@,
    {
        SubdivisionTx {
            parent_hash: self.parent_hash,
            children: clone_triangles(&self.children),
            owner_address: self.owner_address.clone(),
            fee_area: self.fee_area,
            nonce: self.nonce,
            signature: clone_bytes_option(&self.signature),
            public_key: clone_bytes_option(&self.public_key),
        }
    }
}

impl SubdivisionTxView {
    /// The message that the owner signs: parent, the children's hashes,
    /// owner, fee and nonce.
    pub open spec fn signable_message(self) -> Seq<u8> {
        self.parent_hash + triangle_hashes(self.children) + encode_utf8(self.owner_address)
            + coord_le_bytes(self.fee_area) + spec_u64_to_le_bytes(self.nonce)
    }

    /// The bytes the transaction is hashed from: the tag `subdivision`,
    /// then the signable fields.
    pub open spec fn hash_preimage(self) -> Seq<u8> {
        encode_utf8("subdivision"@) + self.signable_message()
    }

    /// Whether the transaction carries a signature and a public key.
    pub open spec fn is_signed(self) -> bool {
        self.signature is Some && self.public_key is Some
    }

    /// Whether the signature is a valid one of the signable message under
    /// the public key that the transaction carries.
    pub open spec fn signature_ok(self) -> bool {
        self.signature matches Some(signature) && self.public_key matches Some(public_key)
            && signature_valid(public_key, self.signable_message(), signature)
    }

    /// Why the signature check refuses the transaction, or `None`.
    pub open spec fn signature_fault(self) -> Option<Seq<char>> {
        if !self.is_signed() {
            Some("Transaction not signed"@)
        } else if !self.signature_ok() {
            Some("Invalid signature"@)
        } else {
            None
        }
    }
}

/// The sum of the effective values of some triangles; `None` where one of
/// them has no value that can be computed.
pub open spec fn children_total(children: Seq<TriangleView>) -> Option<int>
    decreases children.len(),
{
    if children.len() == 0 {
        Some(0)
    } else {
        match (children_total(children.drop_last()), children.last().effective_value()) {
            (Some(total), Some(value)) => Some(total + value@),
            _ => None,
        }
    }
}

/// Whether three children have the vertices of the midpoint subdivision of
/// `parent`, child by child.
pub open spec fn geometry_matches(parent: TriangleView, children: Seq<TriangleView>) -> bool {
    forall|i: int|
        0 <= i < 3 ==> (
            (#[trigger] children[i]).a, children[i].b, children[i].c) == parent.child_vertices(i)
}

/// Whether the children's values and the fee add up to the parent's value,
/// within the tolerance.
pub open spec fn value_conserved(parent_value: int, fee: int, total: int) -> bool {
    -GEOMETRIC_TOLERANCE_BITS <= total - (parent_value - fee) <= GEOMETRIC_TOLERANCE_BITS
}

impl SubdivisionTxView {
    /// Why the state refuses the subdivision, or `None`. In this order: the
    /// parent must exist and belong to the owner; there must be three
    /// children with the vertices of the parent's midpoint subdivision;
    /// their values and the fee must add up to the parent's value.
    pub open spec fn state_fault(self, state: StateView) -> Option<ErrorView> {
        if !state.contains(self.parent_hash) {
            Some(ErrorView::TriangleNotFound("Parent triangle not found in UTXO set"@))
        } else {
            let parent = state.triangle(self.parent_hash);
            if parent.owner != self.owner_address {
                Some(ErrorView::InvalidTransaction("Owner does not own parent triangle"@))
            } else if self.children.len() != 3 {
                Some(
                    ErrorView::InvalidTransaction("Subdivision must produce exactly 3 children"@),
                )
            } else if !geometry_matches(parent, self.children) {
                Some(
                    ErrorView::InvalidTransaction(
                        "Child geometry does not match expected subdivision"@,
                    ),
                )
            } else {
                match (parent.effective_value(), children_total(self.children)) {
                    (None, _) => Some(
                        ErrorView::InvalidTransaction("Parent value cannot be computed"@),
                    ),
                    (Some(_), None) => Some(
                        ErrorView::InvalidTransaction("Child value cannot be computed"@),
                    ),
                    (Some(value), Some(total)) => if value_conserved(
                        value@,
                        self.fee_area@,
                        total,
                    ) {
                        None
                    } else {
                        Some(ErrorView::InvalidTransaction("Value mismatch in subdivision"@))
                    },
                }
            }
        }
    }

    /// Why stateful validation refuses the subdivision, or `None`: what the
    /// signature check finds, else what the state finds.
    pub open spec fn stateful_fault(self, state: StateView) -> Option<ErrorView> {
        match self.signature_fault() {
            Some(reason) => Some(ErrorView::InvalidTransaction(reason)),
            None => self.state_fault(state),
        }
    }
}

/// Where some of the triangles have no sum of values, all of them have
/// none.
pub proof fn lemma_children_total_prefix(children: Seq<TriangleView>, n: int)
    requires
        0 <= n <= children.len(),
        children_total(children.take(n)) is None,
    ensures
        children_total(children) is None,
    decreases children.len() - n,
{
    if n < children.len() {
        assert(children.take(n + 1).drop_last() =~= children.take(n));
        lemma_children_total_prefix(children, n + 1);
    } else {
        assert(children.take(n) =~= children);
    }
}

/// The sum of the effective values of some triangles, in wide arithmetic.
pub fn sum_values(children: &Vec<Triangle>) -> (r: Option<i128>)
    ensures
        match children_total(triangles_view(children@)) {
            Some(total) => r == Some(total as i128) && i128::MIN < total < i128::MAX && -(
            children@.len() as int) * 0x8000_0000_0000_0000 <= total <= (children@.len() as int)
                * 0x8000_0000_0000_0000,
            None => r is None,
        },
{
    let ghost all = triangles_view(children@);
    let mut total: i128 = 0;
    let mut i: usize = 0;
    assert(all.take(0) =~= Seq::<TriangleView>::empty());
    while i < children.len()
        invariant
            i <= children.len(),
            all == triangles_view(children@),
            children_total(all.take(i as int)) == Some(total as int),
            -(i as int) * 0x8000_0000_0000_0000 <= total <= (i as int) * 0x8000_0000_0000_0000,
        decreases children.len() - i,
    {
        proof {
            assert(all.take(i + 1).drop_last() =~= all.take(i as int));
            assert(all.take(i + 1).last() == children@[i as int]@);
        }
        match children[i].checked_effective_value() {
            Some(v) => {
                total = total + v.bits as i128;
            },
            None => {
                proof {
                    lemma_children_total_prefix(all, i + 1);
                }
                return None;
            },
        }
        i += 1;
    }
    assert(all.take(i as int) =~= all);
    Some(total)
}

impl SubdivisionTx {
    /// The rules that need the UTXO state: the parent exists and belongs to
    /// the owner, the children are its midpoint subdivision, and value is
    /// conserved.
    #[verifier::loop_isolation(false)]
    pub fn check_against_state(&self, state: &TriangleState) -> (r: Result<(), ChainError>)
        ensures
            reports(r, self@.state_fault(state@)),
    {
        let parent = match state.get_utxo(&self.parent_hash) {
            Some(t) => t,
            None => {
                return Err(
                    ChainError::TriangleNotFound(
                        "Parent triangle not found in UTXO set".to_owned(),
                    ),
                );
            },
        };
        if parent.owner != self.owner_address {
            return Err(
                ChainError::InvalidTransaction("Owner does not own parent triangle".to_owned()),
            );
        }
        if self.children.len() != 3 {
            return Err(
                ChainError::InvalidTransaction(
                    "Subdivision must produce exactly 3 children".to_owned(),
                ),
            );
        }
        let ghost all = triangles_view(self.children@);
        let mut i: usize = 0;
        while i < 3
            invariant
                i <= 3,
                self.children@.len() == 3,
                all == triangles_view(self.children@),
                forall|j: int|
                    0 <= j < i ==> ((#[trigger] all[j]).a, all[j].b, all[j].c)
                        == parent@.child_vertices(j),
            decreases 3 - i,
        {
            let (a, b, c) = parent.child_vertices(i);
            let child = &self.children[i];
            assert(child@ == all[i as int]);
            if !child.a.equals(&a) || !child.b.equals(&b) || !child.c.equals(&c) {
                proof {
                    let k = i as int;
                    assert((all[k].a, all[k].b, all[k].c) != parent@.child_vertices(k));
                    assert(!geometry_matches(parent@, all));
                }
                return Err(
                    ChainError::InvalidTransaction(
                        "Child geometry does not match expected subdivision".to_owned(),
                    ),
                );
            }
            i += 1;
        }
        let value = match parent.checked_effective_value() {
            Some(v) => v,
            None => {
                return Err(
                    ChainError::InvalidTransaction("Parent value cannot be computed".to_owned()),
                );
            },
        };
        let total = match sum_values(&self.children) {
            Some(t) => t,
            None => {
                return Err(
                    ChainError::InvalidTransaction("Child value cannot be computed".to_owned()),
                );
            },
        };
        let difference: i128 = total - (value.bits as i128 - self.fee_area.bits as i128);
        if difference < -(GEOMETRIC_TOLERANCE_BITS as i128) || difference
            > GEOMETRIC_TOLERANCE_BITS as i128 {
            return Err(ChainError::InvalidTransaction("Value mismatch in subdivision".to_owned()));
        }
        Ok(())
    }

    /// Full validation: the signature, then the rules that need the UTXO
    /// state.
    pub fn validate(&self, state: &TriangleState) -> (r: Result<(), ChainError>)
        ensures
            reports(r, self@.stateful_fault(state@)),
    {
        match self.validate_signature() {
            Err(e) => { return Err(e); },
            Ok(()) => {},
        }
        self.check_against_state(state)
    }

    /// An unsigned subdivision.
    pub fn new(
        parent_hash: Sha256Hash,
        children: Vec<Triangle>,
        owner_address: Address,
        fee_area: Coord,
        nonce: u64,
    ) -> (tx: SubdivisionTx)
        ensures
            tx@ == (SubdivisionTxView {
                parent_hash: parent_hash@,
                children: triangles_view(children@),
                owner_address: owner_address@,
                fee_area,
                nonce,
                signature: None,
                public_key: None,
            }),
    {
        SubdivisionTx {
            parent_hash,
            children,
            owner_address,
            fee_area,
            nonce,
            signature: None,
            public_key: None,
        }
    }

    fn append_signable(&self, buf: &mut Vec<u8>)
        ensures
            final(buf)@ == old(buf)@ + self@.signable_message(),
    {
        append_bytes(buf, self.parent_hash.as_slice());
        let ghost base = buf@;
        let mut i: usize = 0;
        while i < self.children.len()
            invariant
                i <= self.children.len(),
                buf@ == base + triangle_hashes(triangles_view(self.children@).take(i as int)),
            decreases self.children.len() - i,
        {
            let h = self.children[i].hash();
            append_bytes(buf, h.as_slice());
            proof {
                let all = triangles_view(self.children@);
                assert(all.take(i + 1).drop_last() =~= all.take(i as int));
                assert(all.take(i + 1).last() == self.children@[i as int]@);
                assert(buf@ =~= base + triangle_hashes(all.take(i + 1)));
            }
            i += 1;
        }
        proof {
            let all = triangles_view(self.children@);
            assert(all.take(all.len() as int) =~= all);
        }
        append_bytes(buf, self.owner_address.as_str().as_bytes());
        append_u64_le(buf, self.fee_area.bits as u64);
        append_u64_le(buf, self.nonce);
        assert(buf@ =~= old(buf)@ + self@.signable_message());
    }

    /// The message that the owner signs.
    pub fn signable_message(&self) -> (message: Vec<u8>)
        ensures
            message@ == self@.signable_message(),
    {
        let mut message: Vec<u8> = Vec::new();
        self.append_signable(&mut message);
        assert(message@ =~= self@.signable_message());
        message
    }

    /// Attaches a signature and the public key it is to be checked with.
    pub fn sign(&mut self, signature: Vec<u8>, public_key: Vec<u8>)
        ensures
            final(self)@ == (SubdivisionTxView {
                signature: Some(signature@),
                public_key: Some(public_key@),
                ..old(self)@
            }),
    {
        self.signature = Some(signature);
        self.public_key = Some(public_key);
    }

    /// Signs the subdivision with a key pair: the signature of the
    /// signable message and the public key of the pair are attached. Fails,
    /// and leaves the subdivision as it was, where the secret bytes of the
    /// pair are no secret key.
    pub fn sign_with(&mut self, keypair: &KeyPair) -> (r: Result<(), ChainError>)
        ensures
            match ecdsa_signature(
                keypair.secret_key.bytes@,
                sha256(old(self)@.signable_message()),
            ) {
                Some(signature) => r is Ok && final(self)@ == (SubdivisionTxView {
                    signature: Some(signature),
                    public_key: Some(keypair.public_key.bytes@),
                    ..old(self)@
                }),
                None => r matches Err(e) && e is CryptoError && final(self)@ == old(self)@,
            },
    {
        let message = self.signable_message();
        match keypair.sign(message.as_slice()) {
            Ok(signature) => {
                let mut public_key: Vec<u8> = Vec::new();
                append_bytes(&mut public_key, keypair.public_key.bytes.as_slice());
                assert(public_key@ =~= keypair.public_key.bytes@);
                self.sign(signature, public_key);
                Ok(())
            },
            Err(e) => Err(e),
        }
    }

    /// Validates the signature alone, without the UTXO state.
    pub fn validate_signature(&self) -> (r: Result<(), ChainError>)
        ensures
            reports_fault(r, self@.signature_fault()),
    {
        let message = self.signable_message();
        let valid = match (&self.signature, &self.public_key) {
            (Some(signature), Some(public_key)) => verify_signature(
                public_key.as_slice(),
                message.as_slice(),
                signature.as_slice(),
            ),
            _ => {
                return Err(ChainError::InvalidTransaction("Transaction not signed".to_owned()));
            },
        };
        if !valid {
            return Err(ChainError::InvalidTransaction("Invalid signature".to_owned()));
        }
        Ok(())
    }
}

// ----------------------------------------------------------------------------
// Transaction
// ----------------------------------------------------------------------------
/// A transaction that can occur in a block.
#[derive(Debug)]
pub enum Transaction {
    Transfer(TransferTx),
    Subdivision(SubdivisionTx),
    Coinbase(CoinbaseTx),
}

/// A transaction as plain values.
pub enum TransactionView {
    Transfer(TransferTxView),
    Subdivision(SubdivisionTxView),
    Coinbase(CoinbaseTxView),
}

impl View for Transaction {
    type V = TransactionView;

    open spec fn view(&self) -> TransactionView {
        match self {
            Transaction::Transfer(tx) => TransactionView::Transfer(tx@),
            Transaction::Subdivision(tx) => TransactionView::Subdivision(tx@),
            Transaction::Coinbase(tx) => TransactionView::Coinbase(tx@),
        }
    }
}

impl Clone for Transaction {
    fn clone(&self) -> (tx: Transaction)
        ensures
            tx@ == self@,
    {
        match self {
            Transaction::Transfer(tx) => Transaction::Transfer(tx.clone()),
            Transaction::Subdivision(tx) => Transaction::Subdivision(tx.clone()),
            Transaction::Coinbase(tx) => Transaction::Coinbase(tx.clone()),
        }
    }
}

impl TransactionView {
    /// The variant-tagged bytes that the transaction is hashed from.
    pub open spec fn hash_preimage(self) -> Seq<u8> {
        match self {
            TransactionView::Transfer(tx) => tx.hash_preimage(),
            TransactionView::Subdivision(tx) => tx.hash_preimage(),
            TransactionView::Coinbase(tx) => tx.hash_preimage(),
        }
    }

    /// The hash by which mempools, blocks and Merkle roots name the
    /// transaction.
    pub open spec fn hash(self) -> Seq<u8> {
        sha256(self.hash_preimage())
    }

    /// The fee: zero for a coinbase.
    pub open spec fn fee_area(self) -> Coord {
        match self {
            TransactionView::Transfer(tx) => tx.fee_area,
            TransactionView::Subdivision(tx) => tx.fee_area,
            TransactionView::Coinbase(_) => Coord { bits: 0 },
        }
    }

    /// Why validation against `state` refuses the transaction, or `None`.
    pub open spec fn stateful_fault(self, state: StateView) -> Option<ErrorView> {
        match self {
            TransactionView::Transfer(tx) => tx.stateful_fault(state),
            TransactionView::Subdivision(tx) => tx.stateful_fault(state),
            TransactionView::Coinbase(tx) => as_invalid_transaction(tx.fault()),
        }
    }

    /// Why stateless validation refuses the transaction, or `None`: the
    /// rules on the fields and the signature of a transfer, the signature
    /// of a subdivision, the bounds of a coinbase.
    pub open spec fn stateless_fault(self) -> Option<ErrorView> {
        match self {
            TransactionView::Transfer(tx) => as_invalid_transaction(tx.stateless_fault()),
            TransactionView::Subdivision(tx) => as_invalid_transaction(tx.signature_fault()),
            TransactionView::Coinbase(tx) => as_invalid_transaction(tx.fault()),
        }
    }

    /// The UTXO that the transaction consumes, if it consumes one.
    pub open spec fn input(self) -> Option<Seq<u8>> {
        match self {
            TransactionView::Transfer(tx) => Some(tx.input_hash),
            TransactionView::Subdivision(tx) => Some(tx.parent_hash),
            TransactionView::Coinbase(_) => None,
        }
    }

    /// The address on whose behalf the transaction is made, if any.
    pub open spec fn sender(self) -> Option<Seq<char>> {
        match self {
            TransactionView::Transfer(tx) => Some(tx.sender),
            TransactionView::Subdivision(tx) => Some(tx.owner_address),
            TransactionView::Coinbase(_) => None,
        }
    }
}

/// Whether `u` is the triangle `t` with its vertices in some other order:
/// the same owner, value and parent, and the same three vertices.
pub open spec fn is_vertex_permutation(t: TriangleView, u: TriangleView) -> bool {
    &&& u.owner == t.owner
    &&& u.value == t.value
    &&& u.parent_hash == t.parent_hash
    &&& {
        ||| (u.a, u.b, u.c) == (t.a, t.b, t.c)
        ||| (u.a, u.b, u.c) == (t.a, t.c, t.b)
        ||| (u.a, u.b, u.c) == (t.b, t.a, t.c)
        ||| (u.a, u.b, u.c) == (t.b, t.c, t.a)
        ||| (u.a, u.b, u.c) == (t.c, t.a, t.b)
        ||| (u.a, u.b, u.c) == (t.c, t.b, t.a)
    }
}

/// Triangles that differ in the order of their vertices alone have the
/// same hashes.
pub proof fn lemma_triangle_hashes_ignore_vertex_order(
    children: Seq<TriangleView>,
    others: Seq<TriangleView>,
)
    requires
        children.len() == others.len(),
        forall|i: int|
            0 <= i < children.len() ==> is_vertex_permutation(#[trigger] children[i], others[i]),
    ensures
        triangle_hashes(children) == triangle_hashes(others),
    decreases children.len(),
{
    if children.len() > 0 {
        let front = children.drop_last();
        let other_front = others.drop_last();
        assert forall|i: int| 0 <= i < front.len() implies is_vertex_permutation(
            #[trigger] front[i],
            other_front[i],
        ) by {
            assert(is_vertex_permutation(children[i], others[i]));
        }
        lemma_triangle_hashes_ignore_vertex_order(front, other_front);
        let t = children.last();
        let u = others.last();
        assert(is_vertex_permutation(children[children.len() - 1], others[children.len() - 1]));
        lemma_triangle_hash_canonical(t);
        assert(u.hash() == t.hash());
    }
}

/// Hash determinism: the hash of a transaction is a function of its
/// fields alone, and it does not change where a triangle that the
/// transaction contains has its vertices in another order.
pub proof fn lemma_transaction_hash_ignores_vertex_order(
    tx: SubdivisionTxView,
    others: Seq<TriangleView>,
)
    requires
        tx.children.len() == others.len(),
        forall|i: int|
            0 <= i < tx.children.len() ==> is_vertex_permutation(
                #[trigger] tx.children[i],
                others[i],
            ),
    ensures
        TransactionView::Subdivision(SubdivisionTxView { children: others, ..tx }).hash()
            == TransactionView::Subdivision(tx).hash(),
        (SubdivisionTxView { children: others, ..tx }).signable_message() == tx.signable_message(),
{
    lemma_triangle_hashes_ignore_vertex_order(tx.children, others);
}

// ----------------------------------------------------------------------------
// Encoded size
// ----------------------------------------------------------------------------
/// The size of an encoded string or byte vector: a length of eight bytes,
/// then the bytes.
pub open spec fn encoded_bytes_len(len: nat) -> nat {
    8 + len
}

/// The size of an encoded optional value of `len` bytes: a tag of one
/// byte, then the value where there is one.
pub open spec fn encoded_option_len(len: Option<nat>) -> nat {
    match len {
        Some(n) => 1 + n,
        None => 1,
    }
}

/// The size of an encoded triangle: three points of sixteen bytes, the
/// optional parent hash, the owner and the optional value.
pub open spec fn encoded_triangle_len(t: TriangleView) -> nat {
    48 + encoded_option_len(
        match t.parent_hash {
            Some(_) => Some(32nat),
            None => None,
        },
    ) + encoded_bytes_len(encode_utf8(t.owner).len()) + encoded_option_len(
        match t.value {
            Some(_) => Some(8nat),
            None => None,
        },
    )
}

/// The size of some encoded triangles, one after the other.
pub open spec fn encoded_triangles_len(children: Seq<TriangleView>) -> nat
    decreases children.len(),
{
    if children.len() == 0 {
        0
    } else {
        encoded_triangles_len(children.drop_last()) + encoded_triangle_len(children.last())
    }
}

/// The size of an optional byte string.
pub open spec fn encoded_optional_bytes_len(o: Option<Seq<u8>>) -> nat {
    encoded_option_len(
        match o {
            Some(bytes) => Some(encoded_bytes_len(bytes.len())),
            None => None,
        },
    )
}

impl TransactionView {
    /// The size of the encoded transaction in bytes: a tag of four bytes
    /// for the variant, then every field in turn; an integer or a
    /// fixed-point number takes eight bytes, a hash 32.
    pub open spec fn encoded_len(self) -> nat {
        4 + match self {
            TransactionView::Transfer(tx) => 32 + encoded_bytes_len(
                encode_utf8(tx.new_owner).len(),
            ) + encoded_bytes_len(encode_utf8(tx.sender).len()) + 8 + 8 + 8
                + encoded_optional_bytes_len(tx.signature) + encoded_optional_bytes_len(
                tx.public_key,
            ) + encoded_option_len(
                match tx.memo {
                    Some(memo) => Some(encoded_bytes_len(encode_utf8(memo).len())),
                    None => None,
                },
            ),
            TransactionView::Subdivision(tx) => 32 + 8 + encoded_triangles_len(tx.children)
                + encoded_bytes_len(encode_utf8(tx.owner_address).len()) + 8 + 8
                + encoded_optional_bytes_len(tx.signature) + encoded_optional_bytes_len(
                tx.public_key,
            ),
            TransactionView::Coinbase(tx) => 8 + encoded_bytes_len(
                encode_utf8(tx.beneficiary_address).len(),
            ),
        }
    }

    /// Why the size limit refuses the transaction, or `None`.
    pub open spec fn size_fault(self) -> Option<ErrorView> {
        if self.encoded_len() > MAX_TRANSACTION_SIZE {
            Some(ErrorView::InvalidTransaction("Transaction too large"@))
        } else {
            None
        }
    }
}

/// A size that counts no further than one above the limit.
pub open spec fn capped(size: int) -> int {
    if size > MAX_TRANSACTION_SIZE {
        MAX_TRANSACTION_SIZE + 1
    } else {
        size
    }
}

fn add_capped(acc: usize, len: usize, Ghost(before): Ghost<int>) -> (r: usize)
    requires
        acc == capped(before),
    ensures
        r == capped(before + len),
{
    if len > MAX_TRANSACTION_SIZE || acc + len > MAX_TRANSACTION_SIZE {
        MAX_TRANSACTION_SIZE + 1
    } else {
        acc + len
    }
}

fn optional_bytes_size(o: &Option<Vec<u8>>, acc: usize, Ghost(before): Ghost<int>) -> (r: usize)
    requires
        acc == capped(before),
    ensures
        r == capped(before + encoded_optional_bytes_len(bytes_option_view(*o))),
{
    match o {
        Some(bytes) => {
            let a = add_capped(acc, 9, Ghost(before));
            add_capped(a, bytes.len(), Ghost(before + 9))
        },
        None => add_capped(acc, 1, Ghost(before)),
    }
}

fn string_size(s: &String, acc: usize, Ghost(before): Ghost<int>) -> (r: usize)
    requires
        acc == capped(before),
    ensures
        r == capped(before + encoded_bytes_len(encode_utf8(s@).len())),
{
    let a = add_capped(acc, 8, Ghost(before));
    add_capped(a, s.as_str().as_bytes().len(), Ghost(before + 8))
}

fn triangle_size(t: &Triangle, acc: usize, Ghost(before): Ghost<int>) -> (r: usize)
    requires
        acc == capped(before),
    ensures
        r == capped(before + encoded_triangle_len(t@)),
{
    let a = add_capped(acc, 48, Ghost(before));
    let parent: usize = match t.parent_hash {
        Some(_) => 33,
        None => 1,
    };
    let b = add_capped(a, parent, Ghost(before + 48));
    let c = string_size(&t.owner, b, Ghost(before + 48 + parent));
    let value: usize = match t.value {
        Some(_) => 9,
        None => 1,
    };
    add_capped(
        c,
        value,
        Ghost(before + 48 + parent + encoded_bytes_len(encode_utf8(t.owner@).len())),
    )
}

fn triangles_size(children: &Vec<Triangle>, acc: usize, Ghost(before): Ghost<int>) -> (r: usize)
    requires
        acc == capped(before),
    ensures
        r == capped(before + encoded_triangles_len(triangles_view(children@))),
{
    let ghost all = triangles_view(children@);
    let mut size = acc;
    let mut i: usize = 0;
    assert(all.take(0) =~= Seq::<TriangleView>::empty());
    while i < children.len()
        invariant
            i <= children.len(),
            all == triangles_view(children@),
            size == capped(before + encoded_triangles_len(all.take(i as int))),
        decreases children.len() - i,
    {
        proof {
            assert(all.take(i + 1).drop_last() =~= all.take(i as int));
            assert(all.take(i + 1).last() == children@[i as int]@);
        }
        size = triangle_size(
            &children[i],
            size,
            Ghost(before + encoded_triangles_len(all.take(i as int))),
        );
        i += 1;
    }
    assert(all.take(i as int) =~= all);
    size
}

impl Transaction {
    /// The hash of this transaction.
    pub fn hash(&self) -> (h: Sha256Hash)
        ensures
            h@ == self@.hash(),
    {
        let mut buf: Vec<u8> = Vec::new();
        match self {
            Transaction::Subdivision(tx) => {
                append_bytes(&mut buf, "subdivision".as_bytes());
                tx.append_signable(&mut buf);
            },
            Transaction::Coinbase(tx) => {
                append_bytes(&mut buf, "coinbase".as_bytes());
                append_u64_le(&mut buf, tx.reward_area.bits as u64);
                append_bytes(&mut buf, tx.beneficiary_address.as_str().as_bytes());
            },
            Transaction::Transfer(tx) => {
                append_bytes(&mut buf, "transfer".as_bytes());
                tx.append_body(&mut buf);
            },
        }
        assert(buf@ =~= self@.hash_preimage());
        sha256_digest(buf.as_slice())
    }

    /// The hash in hexadecimal.
    pub fn hash_str(&self) -> (s: String)
        ensures
            s@ == hex_string(self@.hash()),
    {
        let h = self.hash();
        hex_encode(h.as_slice())
    }

    /// The geometric fee of this transaction.
    pub fn fee_area(&self) -> (fee: Coord)
        ensures
            fee == self@.fee_area(),
    {
        match self {
            Transaction::Subdivision(tx) => tx.fee_area,
            Transaction::Transfer(tx) => tx.fee_area,
            Transaction::Coinbase(_) => Coord { bits: 0 },
        }
    }

    /// The whole units of the fee, for callers that count in integers. A
    /// negative fee has no such count.
    pub fn fee(&self) -> (fee: u64)
        requires
            self@.fee_area()@ >= 0,
        ensures
            fee == self@.fee_area()@ / 0x1_0000_0000,
    {
        let bits = self.fee_area().bits;
        (bits / 0x1_0000_0000) as u64
    }

    /// The size of the encoded transaction, counted no further than one
    /// above the limit.
    pub fn encoded_size(&self) -> (size: usize)
        ensures
            size == capped(self@.encoded_len() as int),
    {
        let start = add_capped(0, 4, Ghost(0));
        match self {
            Transaction::Transfer(tx) => {
                let a = add_capped(start, 32, Ghost(4));
                let b = string_size(&tx.new_owner, a, Ghost(36));
                let ghost nb: int = 36int + encoded_bytes_len(encode_utf8(tx.new_owner@).len());
                let c = string_size(&tx.sender, b, Ghost(nb));
                let ghost nc: int = nb + encoded_bytes_len(encode_utf8(tx.sender@).len());
                let d = add_capped(c, 24, Ghost(nc));
                let e = optional_bytes_size(&tx.signature, d, Ghost(nc + 24));
                let ghost ne: int = nc + 24 + encoded_optional_bytes_len(tx@.signature);
                let f = optional_bytes_size(&tx.public_key, e, Ghost(ne));
                let ghost nf: int = ne + encoded_optional_bytes_len(tx@.public_key);
                match &tx.memo {
                    Some(memo) => {
                        let g = add_capped(f, 1, Ghost(nf));
                        string_size(memo, g, Ghost(nf + 1))
                    },
                    None => add_capped(f, 1, Ghost(nf)),
                }
            },
            Transaction::Subdivision(tx) => {
                let a = add_capped(start, 40, Ghost(4));
                let b = triangles_size(&tx.children, a, Ghost(44));
                let ghost nb: int = 44int + encoded_triangles_len(tx@.children);
                let c = string_size(&tx.owner_address, b, Ghost(nb));
                let ghost nc: int = nb + encoded_bytes_len(encode_utf8(tx.owner_address@).len());
                let d = add_capped(c, 16, Ghost(nc));
                let e = optional_bytes_size(&tx.signature, d, Ghost(nc + 16));
                let ghost ne: int = nc + 16 + encoded_optional_bytes_len(tx@.signature);
                optional_bytes_size(&tx.public_key, e, Ghost(ne))
            },
            Transaction::Coinbase(tx) => {
                let a = add_capped(start, 8, Ghost(4));
                string_size(&tx.beneficiary_address, a, Ghost(12))
            },
        }
    }

    /// Checks that the encoded transaction is not larger than
    /// `MAX_TRANSACTION_SIZE` bytes.
    pub fn validate_size(&self) -> (r: Result<(), ChainError>)
        ensures
            reports(r, self@.size_fault()),
    {
        if self.encoded_size() > MAX_TRANSACTION_SIZE {
            return Err(ChainError::InvalidTransaction("Transaction too large".to_owned()));
        }
        Ok(())
    }

    /// Stateless validation: what can be checked without the UTXO state.
    pub fn validate_stateless(&self) -> (r: Result<(), ChainError>)
        ensures
            reports(r, self@.stateless_fault()),
    {
        match self {
            Transaction::Subdivision(tx) => tx.validate_signature(),
            Transaction::Coinbase(tx) => tx.validate(),
            Transaction::Transfer(tx) => tx.validate(),
        }
    }

    /// Validates this transaction against the current UTXO state.
    pub fn validate(&self, state: &TriangleState) -> (r: Result<(), ChainError>)
        ensures
            reports(r, self@.stateful_fault(state@)),
    {
        match self {
            Transaction::Subdivision(tx) => tx.validate(state),
            Transaction::Coinbase(tx) => tx.validate(),
            Transaction::Transfer(tx) => tx.validate_with_state(state),
        }
    }

    /// The UTXO that the transaction consumes, if it consumes one.
    pub fn input_hash(&self) -> (input: Option<Sha256Hash>)
        ensures
            crate::geometry::hash_option_view(input) == self@.input(),
    {
        match self {
            Transaction::Transfer(tx) => Some(tx.input_hash),
            Transaction::Subdivision(tx) => Some(tx.parent_hash),
            Transaction::Coinbase(_) => None,
        }
    }
}

} // verus!
