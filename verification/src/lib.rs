//! Verified core of a hierarchical-deterministic key vault.
//!
//! The crate keeps encrypted extended private keys ("keys accounts") grouped
//! into keyrings, derives sub-accounts along BIP32 paths, signs digests and
//! partially signed transactions, and serializes the whole keyring set for a
//! pluggable storage driver.  Elliptic-curve operations, hashing, randomness
//! and ECDSA are performed by outside libraries behind trusted wrappers; the
//! blinding protocol, the key material layout, the keyring bookkeeping and
//! the persistence codec are verified here.

pub mod assets;
pub mod bip32;
pub mod bytes;
pub mod driver;
pub mod elgamal;
pub mod entropy;
pub mod error;
pub mod format;
pub mod hashes;
pub mod keymgm;
pub mod psbt;
pub mod rpc;
pub mod secp;
pub mod slip132;
pub mod vault;
