//! Password protection for a repository's master encryption key.
//!
//! A key record stores scrypt cost parameters, a random salt, and the
//! master key sealed under the password-derived key.  The library covers
//! key derivation, the record and envelope byte formats, the sealing
//! round trip, and the trial-decryption search across stored records.

pub mod error;
pub mod bytes;
pub mod crypto;
pub mod base64;
pub mod jsontext;
pub mod envelope;
pub mod kdf;
pub mod keyfile;
pub mod backend;
pub mod resolver;
pub mod laws;
