//! Error types of the chain.

use vstd::prelude::*;
use vstd::std_specs::convert::FromSpecImpl;

verus! {

/// Why the engine rejected a block, a transaction or a request. Every
/// variant that carries a string carries the reason in words.
#[derive(Debug)]
pub enum ChainError {
    InvalidBlockLinkage,
    NetworkError(String),
    DatabaseError(String),
    InvalidProofOfWork,
    InvalidMerkleRoot,
    InvalidTransaction(String),
    TriangleNotFound(String),
    CryptoError(String),
    WalletError(String),
    OrphanBlock,
    ApiError(String),
    AuthenticationError(String),
    MempoolFull,
    IoError(String),
    BincodeError(String),
    ForkNotFound,
    InvalidBlock(String),
    InternalError(String),
}

/// What the HTTP interface answers when a request fails.
#[derive(Debug)]
pub enum ApiError {
    InternalServerError,
    NotFound(String),
    BadRequest(String),
}

/// An error of the chain as plain values.
pub enum ErrorView {
    InvalidBlockLinkage,
    NetworkError(Seq<char>),
    DatabaseError(Seq<char>),
    InvalidProofOfWork,
    InvalidMerkleRoot,
    InvalidTransaction(Seq<char>),
    TriangleNotFound(Seq<char>),
    CryptoError(Seq<char>),
    WalletError(Seq<char>),
    OrphanBlock,
    ApiError(Seq<char>),
    AuthenticationError(Seq<char>),
    MempoolFull,
    IoError(Seq<char>),
    BincodeError(Seq<char>),
    ForkNotFound,
    InvalidBlock(Seq<char>),
    InternalError(Seq<char>),
}

impl View for ChainError {
    type V = ErrorView;

    open spec fn view(&self) -> ErrorView {
        match self {
            ChainError::InvalidBlockLinkage => ErrorView::InvalidBlockLinkage,
            ChainError::NetworkError(m) => ErrorView::NetworkError(m@),
            ChainError::DatabaseError(m) => ErrorView::DatabaseError(m@),
            ChainError::InvalidProofOfWork => ErrorView::InvalidProofOfWork,
            ChainError::InvalidMerkleRoot => ErrorView::InvalidMerkleRoot,
            ChainError::InvalidTransaction(m) => ErrorView::InvalidTransaction(m@),
            ChainError::TriangleNotFound(m) => ErrorView::TriangleNotFound(m@),
            ChainError::CryptoError(m) => ErrorView::CryptoError(m@),
            ChainError::WalletError(m) => ErrorView::WalletError(m@),
            ChainError::OrphanBlock => ErrorView::OrphanBlock,
            ChainError::ApiError(m) => ErrorView::ApiError(m@),
            ChainError::AuthenticationError(m) => ErrorView::AuthenticationError(m@),
            ChainError::MempoolFull => ErrorView::MempoolFull,
            ChainError::IoError(m) => ErrorView::IoError(m@),
            ChainError::BincodeError(m) => ErrorView::BincodeError(m@),
            ChainError::ForkNotFound => ErrorView::ForkNotFound,
            ChainError::InvalidBlock(m) => ErrorView::InvalidBlock(m@),
            ChainError::InternalError(m) => ErrorView::InternalError(m@),
        }
    }
}

/// The result that tells of `fault`: `Ok` for none, else that error.
pub open spec fn reports(r: Result<(), ChainError>, fault: Option<ErrorView>) -> bool {
    match fault {
        None => r is Ok,
        Some(error) => r matches Err(e) && e@ == error,
    }
}

/// An invalid transaction for the fault given, if one is given.
pub open spec fn as_invalid_transaction(fault: Option<Seq<char>>) -> Option<ErrorView> {
    match fault {
        Some(reason) => Some(ErrorView::InvalidTransaction(reason)),
        None => None,
    }
}

impl ChainError {
    /// The short, stable identifier of the kind of error.
    pub open spec fn spec_label(&self) -> Seq<char> {
        match self {
            ChainError::InvalidBlockLinkage => "Invalid block linkage"@,
            ChainError::NetworkError(_) => "Network error"@,
            ChainError::DatabaseError(_) => "Database error"@,
            ChainError::InvalidProofOfWork => "Invalid proof of work"@,
            ChainError::InvalidMerkleRoot => "Invalid Merkle root"@,
            ChainError::InvalidTransaction(_) => "Invalid transaction"@,
            ChainError::TriangleNotFound(_) => "Triangle not found"@,
            ChainError::CryptoError(_) => "Cryptographic error"@,
            ChainError::WalletError(_) => "Wallet error"@,
            ChainError::OrphanBlock => "Orphan block"@,
            ChainError::ApiError(_) => "API error"@,
            ChainError::AuthenticationError(_) => "Authentication error"@,
            ChainError::MempoolFull => "Mempool is full"@,
            ChainError::IoError(_) => "IO error"@,
            ChainError::BincodeError(_) => "Bincode error"@,
            ChainError::ForkNotFound => "Fork not found"@,
            ChainError::InvalidBlock(_) => "Invalid block"@,
            ChainError::InternalError(_) => "Internal error"@,
        }
    }

    /// The reason in words that the error carries, if it carries one.
    pub open spec fn spec_reason(&self) -> Option<Seq<char>> {
        match self {
            ChainError::NetworkError(m) => Some(m@),
            ChainError::DatabaseError(m) => Some(m@),
            ChainError::InvalidTransaction(m) => Some(m@),
            ChainError::TriangleNotFound(m) => Some(m@),
            ChainError::CryptoError(m) => Some(m@),
            ChainError::WalletError(m) => Some(m@),
            ChainError::ApiError(m) => Some(m@),
            ChainError::AuthenticationError(m) => Some(m@),
            ChainError::IoError(m) => Some(m@),
            ChainError::BincodeError(m) => Some(m@),
            ChainError::InvalidBlock(m) => Some(m@),
            ChainError::InternalError(m) => Some(m@),
            _ => None,
        }
    }

    /// The short, stable identifier of the kind of error.
    pub fn label(&self) -> (s: &'static str)
        ensures
            s@ == self.spec_label(),
    {
        match self {
            ChainError::InvalidBlockLinkage => "Invalid block linkage",
            ChainError::NetworkError(_) => "Network error",
            ChainError::DatabaseError(_) => "Database error",
            ChainError::InvalidProofOfWork => "Invalid proof of work",
            ChainError::InvalidMerkleRoot => "Invalid Merkle root",
            ChainError::InvalidTransaction(_) => "Invalid transaction",
            ChainError::TriangleNotFound(_) => "Triangle not found",
            ChainError::CryptoError(_) => "Cryptographic error",
            ChainError::WalletError(_) => "Wallet error",
            ChainError::OrphanBlock => "Orphan block",
            ChainError::ApiError(_) => "API error",
            ChainError::AuthenticationError(_) => "Authentication error",
            ChainError::MempoolFull => "Mempool is full",
            ChainError::IoError(_) => "IO error",
            ChainError::BincodeError(_) => "Bincode error",
            ChainError::ForkNotFound => "Fork not found",
            ChainError::InvalidBlock(_) => "Invalid block",
            ChainError::InternalError(_) => "Internal error",
        }
    }

    /// The error as one line: the identifier, and after a colon the reason
    /// where there is one.
    pub fn message(&self) -> (s: String)
        ensures
            s@ == match self.spec_reason() {
                Some(reason) => self.spec_label() + ": "@ + reason,
                None => self.spec_label(),
            },
    {
        let label = self.label().to_owned();
        let reason: &String = match self {
            ChainError::NetworkError(m) => m,
            ChainError::DatabaseError(m) => m,
            ChainError::InvalidTransaction(m) => m,
            ChainError::TriangleNotFound(m) => m,
            ChainError::CryptoError(m) => m,
            ChainError::WalletError(m) => m,
            ChainError::ApiError(m) => m,
            ChainError::AuthenticationError(m) => m,
            ChainError::IoError(m) => m,
            ChainError::BincodeError(m) => m,
            ChainError::InvalidBlock(m) => m,
            ChainError::InternalError(m) => m,
            _ => { return label; },
        };
        label.concat(": ").concat(reason.as_str())
    }
}

impl From<ChainError> for ApiError {
    /// A missing triangle is "not found", an invalid transaction a "bad
    /// request"; every other error is an internal one.
    fn from(err: ChainError) -> (api: ApiError) {
        match err {
            ChainError::TriangleNotFound(msg) => ApiError::NotFound(msg),
            ChainError::InvalidTransaction(msg) => ApiError::BadRequest(msg),
            _ => ApiError::InternalServerError,
        }
    }
}

impl FromSpecImpl<ChainError> for ApiError {
    open spec fn obeys_from_spec() -> bool {
        true
    }

    open spec fn from_spec(err: ChainError) -> ApiError {
        match err {
            ChainError::TriangleNotFound(msg) => ApiError::NotFound(msg),
            ChainError::InvalidTransaction(msg) => ApiError::BadRequest(msg),
            _ => ApiError::InternalServerError,
        }
    }
}

} // verus!
