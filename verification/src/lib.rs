//! bcrypt_pbkdf: the password-based key derivation function used by OpenSSH
//! to stretch a passphrase and a salt into key material at a caller-chosen
//! cost.
//!
//! The derivation composes three pieces, bottom up:
//! - `bhash`, a Blowfish-based hash that stretches a 64-byte password digest
//!   and a 64-byte salt digest into 32 output bytes;
//! - `Bhash`, a keyed-MAC adaptor that feeds accumulated input through
//!   SHA-512 and then `bhash`;
//! - `bcrypt_pbkdf`, the driver that digests the passphrase, runs the
//!   standard PBKDF2 iteration with `Bhash` as its MAC, and de-interleaves
//!   the intermediate blocks into the caller's output buffer.

pub mod bhash;
pub mod bytes;
pub mod cipher;
pub mod kdf;
pub mod sha;

pub use bhash::bhash;
pub use bhash::bhash_spec;
pub use kdf::bcrypt_pbkdf;
pub use kdf::derived;
pub use kdf::Bhash;
pub use kdf::KdfError;
