//! Presentation choices a command-line front end offers: how scripts are
//! rendered, which kind of key is exported, and which sighash flag a
//! signature commits to.

use vstd::prelude::*;

verus! {

/// How a script is rendered.
#[derive(Clone, Copy, PartialEq, Eq, Structural, Debug)]
pub enum Script {
    /// Binary script source encoded as a hexadecimal string.
    Hex,
    /// Binary script source encoded as a Base64 string.
    Base64,
    /// A miniscript string or descriptor.
    Miniscript,
    /// A string of opcodes.
    Opcode,
}

impl Default for Script {
    /// Miniscript is the default rendering.
    fn default() -> (r: Self)
        ensures
            r == Script::Miniscript,
    {
        Script::Miniscript
    }
}

/// Which kind of key an export works on.
#[derive(Clone, Copy, PartialEq, Eq, Structural, Debug)]
pub enum KeyType {
    A,
}

impl Default for KeyType {
    /// The single kind is the default.
    fn default() -> (r: Self)
        ensures
            r == KeyType::A,
    {
        KeyType::A
    }
}

/// The sighash flag a signature commits to.
#[derive(Clone, Copy, PartialEq, Eq, Structural, Debug)]
pub enum SigHashType {
    /// Commit to all outputs.
    All,
    /// Commit to no output.
    NoOutputs,
    /// Commit to the output paired with the input.
    Single,
    /// Let others add inputs.
    AnyoneCanPay,
}

impl SigHashType {
    /// The flag's numeric value in a transaction.
    pub fn as_u32(self) -> (r: u32)
        ensures
            r == (match self {
                SigHashType::All => 1u32,
                SigHashType::NoOutputs => 2u32,
                SigHashType::Single => 3u32,
                SigHashType::AnyoneCanPay => 0x80u32,
            }),
    {
        match self {
            SigHashType::All => 1,
            SigHashType::NoOutputs => 2,
            SigHashType::Single => 3,
            SigHashType::AnyoneCanPay => 0x80,
        }
    }
}

} // verus!
