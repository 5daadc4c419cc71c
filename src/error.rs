use vstd::prelude::*;

verus! {

/// The kinds of failure that the library reports.
#[derive(Debug, Clone, Copy, PartialEq, Eq, Structural)]
pub enum BunkeysError {
    /// The dictionary does not hold exactly 2048 words.
    WordListLength,
    /// A dictionary word is empty or holds whitespace.
    InvalidWord,
    /// A dictionary word occurs twice.
    DuplicateWord,
    /// The secret does not fit in 256 bits.
    SecretTooLarge,
    /// A mnemonic does not hold exactly 24 words.
    WrongWordCount,
    /// A mnemonic word is not in the dictionary.
    UnknownWord,
    /// The checksum embedded in a mnemonic does not match its entropy.
    ChecksumMismatch,
    /// An encryption key is not 32 bytes long.
    InvalidKeyLength,
    /// An encrypted blob is shorter than its 12-byte nonce.
    DataTooShort,
    /// The authentication tag of an encrypted blob does not verify.
    AuthenticationFailed,
    /// The cipher refused to seal the payload.
    EncryptionFailed,
    /// Two shares carry the same index.
    DuplicateShareIndex,
    /// A share coordinate is not an element of the field.
    ShareOutOfRange,
    /// A Lagrange denominator has no inverse modulo the field prime.
    NotInvertible,
    /// A raw key is neither 64 hex digits nor a valid mnemonic.
    InvalidKeyFormat,
}

impl BunkeysError {
    /// A short human-readable description of the error.
    pub fn message(&self) -> &'static str {
        match self {
            BunkeysError::WordListLength => "invalid word list length: expected 2048 words",
            BunkeysError::InvalidWord => "word list holds an empty word or a word with whitespace",
            BunkeysError::DuplicateWord => "word list holds a duplicate word",
            BunkeysError::SecretTooLarge => "input too large (max 256 bits)",
            BunkeysError::WrongWordCount => "wrong word count: expected 24 words",
            BunkeysError::UnknownWord => "unknown word in mnemonic",
            BunkeysError::ChecksumMismatch => "checksum mismatch",
            BunkeysError::InvalidKeyLength => "key must be 32 bytes long",
            BunkeysError::DataTooShort => "data too short: must contain at least 12-byte nonce",
            BunkeysError::AuthenticationFailed => "authentication failed",
            BunkeysError::EncryptionFailed => "encryption failed",
            BunkeysError::DuplicateShareIndex => "duplicate share index",
            BunkeysError::ShareOutOfRange => "share coordinate out of range",
            BunkeysError::NotInvertible => "denominator not invertible",
            BunkeysError::InvalidKeyFormat => "invalid key format: use hex (64 chars) or BIP39 mnemonic",
        }
    }
}

} // verus!
