//! Failure kinds of the key-file protocol.

use vstd::prelude::*;

verus! {

/// What can go wrong when deriving, sealing, unsealing or locating a key.
#[derive(Clone, Copy, Debug, PartialEq, Eq, Structural)]
pub enum KeyFileError {
    /// Stored or requested scrypt cost parameters are out of range.
    InvalidParameters,
    /// The derivation function could not produce the required output size.
    OutputLengthInvalid,
    /// Decryption's integrity check rejected the ciphertext.
    AuthenticationFailed,
    /// Bytes did not parse into the expected structure.
    DeserializationFailed,
    /// A record could not be canonically encoded.
    SerializationFailed,
    /// The backend could not supply the requested bytes.
    ReadingFromBackendFailed,
    /// No stored record unlocks with the given password.
    NoSuitableKeyFound,
}

impl KeyFileError {
    /// A short description, for callers that print failures.
    pub fn message(&self) -> &'static str {
        match self {
            KeyFileError::InvalidParameters => "invalid key derivation parameters",
            KeyFileError::OutputLengthInvalid => "invalid key derivation output length",
            KeyFileError::AuthenticationFailed => "authentication of key data failed",
            KeyFileError::DeserializationFailed => "deserialization failed",
            KeyFileError::SerializationFailed => "serialization failed",
            KeyFileError::ReadingFromBackendFailed => "reading from backend failed",
            KeyFileError::NoSuitableKeyFound => "no suitable key found",
        }
    }
}

} // verus!
