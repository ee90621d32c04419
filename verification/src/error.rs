//! The error surface the vault's embedding sees at run time.

use vstd::prelude::*;

use crate::driver;
use crate::keymgm;

verus! {

/// A failure of a running vault: a transport fault, a malformed message, a
/// storage-driver fault, or a key-management failure.
#[derive(Debug)]
pub enum RuntimeError {
    /// The byte pipe to the peer failed, or required data did not travel
    /// with the request.
    Transport,
    /// The request or one of its fields could not be read.
    Message,
    /// The storage driver failed.
    VaultDriver(driver::Error),
    /// A keyring or keys-account operation failed.
    KeyManagement(keymgm::Error),
}

} // verus!
