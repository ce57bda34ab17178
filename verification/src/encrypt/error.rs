//! Why a token could not be opened.

use vstd::prelude::*;

verus! {

/// Why a token could not be opened.
#[derive(Debug, Clone, PartialEq, Eq)]
pub enum EncryptError {
    /// No key authenticates the token.
    DecryptionFailed,
    /// The token is not base64, too short, or its plaintext is not a payload.
    InvalidFormat(String),
    /// The token carries an expiry that has passed.
    Expired,
    /// The token was sealed for another purpose.
    WrongPurpose { expected: String, actual: String },
}

/// The content of an [`EncryptError`].
pub enum EncryptErrorView {
    DecryptionFailed,
    InvalidFormat(Seq<char>),
    Expired,
    WrongPurpose { expected: Seq<char>, actual: Seq<char> },
}

impl View for EncryptError {
    type V = EncryptErrorView;

    open spec fn view(&self) -> EncryptErrorView {
        match self {
            EncryptError::DecryptionFailed => EncryptErrorView::DecryptionFailed,
            EncryptError::InvalidFormat(m) => EncryptErrorView::InvalidFormat(m@),
            EncryptError::Expired => EncryptErrorView::Expired,
            EncryptError::WrongPurpose { expected, actual } => EncryptErrorView::WrongPurpose {
                expected: expected@,
                actual: actual@,
            },
        }
    }
}

impl EncryptError {
    /// An `InvalidFormat` error with the message `msg`.
    pub fn invalid_format(msg: &str) -> (e: EncryptError)
        ensures
            e@ == EncryptErrorView::InvalidFormat(msg@),
    {
        EncryptError::InvalidFormat(msg.to_owned())
    }
}

} // verus!
