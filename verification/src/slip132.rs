//! Blockchain networks, script scopes and the SLIP-132 table mapping them to
//! the version bytes of BIP32 extended keys.

use vstd::prelude::*;

verus! {

/// The blockchain network a keyring belongs to.
#[derive(Clone, Copy, PartialEq, Eq, Structural, Debug)]
pub enum Chain {
    Mainnet,
    Testnet3,
    Signet,
    Regtest,
}

/// The script scope an extended key is meant for; it determines the SLIP-132
/// version bytes.
#[derive(Clone, Copy, PartialEq, Eq, Structural, Debug)]
pub enum KeyApplication {
    /// Public-key hash outputs.
    Pkh,
    /// Script hash outputs.
    Sh,
    /// Native segwit single-key outputs.
    Wpkh,
    /// Native segwit script outputs.
    Wsh,
    /// Segwit single-key outputs nested in script hash.
    WpkhInSh,
    /// Segwit script outputs nested in script hash.
    WshInSh,
}

/// Whether the chain uses the mainnet or the testnet rows of the SLIP-132
/// table; signet and regtest share the testnet rows.
pub open spec fn is_main(chain: Chain) -> bool {
    chain is Mainnet
}

/// The SLIP-132 version bytes, as a big-endian integer, for a chain, a script
/// scope and a key side.
pub open spec fn version_for(chain: Chain, application: KeyApplication, is_private: bool) -> u32 {
    if is_main(chain) {
        match application {
            KeyApplication::Pkh => if is_private { 0x0488ADE4 } else { 0x0488B21E },
            KeyApplication::Sh => if is_private { 0x0488ADE4 } else { 0x0488B21E },
            KeyApplication::Wpkh => if is_private { 0x04B2430C } else { 0x04B24746 },
            KeyApplication::Wsh => if is_private { 0x02AA7A99 } else { 0x02AA7ED3 },
            KeyApplication::WpkhInSh => if is_private { 0x049D7878 } else { 0x049D7CB2 },
            KeyApplication::WshInSh => if is_private { 0x0295B005 } else { 0x0295B43F },
        }
    } else {
        match application {
            KeyApplication::Pkh => if is_private { 0x04358394 } else { 0x043587CF },
            KeyApplication::Sh => if is_private { 0x04358394 } else { 0x043587CF },
            KeyApplication::Wpkh => if is_private { 0x045F18BC } else { 0x045F1CF6 },
            KeyApplication::Wsh => if is_private { 0x02575048 } else { 0x02575483 },
            KeyApplication::WpkhInSh => if is_private { 0x044A4E28 } else { 0x044A5262 },
            KeyApplication::WshInSh => if is_private { 0x024285B5 } else { 0x024289EF },
        }
    }
}

/// Resolves the version bytes for the given chain, scope and side.
pub fn resolve_version(chain: Chain, application: KeyApplication, is_private: bool) -> (r: u32)
    ensures
        r == version_for(chain, application, is_private),
{
    let main = match chain {
        Chain::Mainnet => true,
        Chain::Testnet3 => false,
        Chain::Signet => false,
        Chain::Regtest => false,
    };
    if main {
        match application {
            KeyApplication::Pkh | KeyApplication::Sh => if is_private { 0x0488ADE4 } else { 0x0488B21E },
            KeyApplication::Wpkh => if is_private { 0x04B2430C } else { 0x04B24746 },
            KeyApplication::Wsh => if is_private { 0x02AA7A99 } else { 0x02AA7ED3 },
            KeyApplication::WpkhInSh => if is_private { 0x049D7878 } else { 0x049D7CB2 },
            KeyApplication::WshInSh => if is_private { 0x0295B005 } else { 0x0295B43F },
        }
    } else {
        match application {
            KeyApplication::Pkh | KeyApplication::Sh => if is_private { 0x04358394 } else { 0x043587CF },
            KeyApplication::Wpkh => if is_private { 0x045F18BC } else { 0x045F1CF6 },
            KeyApplication::Wsh => if is_private { 0x02575048 } else { 0x02575483 },
            KeyApplication::WpkhInSh => if is_private { 0x044A4E28 } else { 0x044A5262 },
            KeyApplication::WshInSh => if is_private { 0x024285B5 } else { 0x024289EF },
        }
    }
}

/// The public version bytes paired with the given private version bytes;
/// `None` when the value is not a private entry of the table.
pub open spec fn pub_version_of(version: u32) -> Option<u32> {
    if version == 0x0488ADE4 {
        Some(0x0488B21E)
    } else if version == 0x04B2430C {
        Some(0x04B24746)
    } else if version == 0x02AA7A99 {
        Some(0x02AA7ED3)
    } else if version == 0x049D7878 {
        Some(0x049D7CB2)
    } else if version == 0x0295B005 {
        Some(0x0295B43F)
    } else if version == 0x04358394 {
        Some(0x043587CF)
    } else if version == 0x045F18BC {
        Some(0x045F1CF6)
    } else if version == 0x02575048 {
        Some(0x02575483)
    } else if version == 0x044A4E28 {
        Some(0x044A5262)
    } else if version == 0x024285B5 {
        Some(0x024289EF)
    } else {
        None
    }
}

/// Looks the private version bytes up in the table and returns the public
/// counterpart.
pub fn neuter_version(version: u32) -> (r: Option<u32>)
    ensures
        r == pub_version_of(version),
{
    if version == 0x0488ADE4 {
        Some(0x0488B21E)
    } else if version == 0x04B2430C {
        Some(0x04B24746)
    } else if version == 0x02AA7A99 {
        Some(0x02AA7ED3)
    } else if version == 0x049D7878 {
        Some(0x049D7CB2)
    } else if version == 0x0295B005 {
        Some(0x0295B43F)
    } else if version == 0x04358394 {
        Some(0x043587CF)
    } else if version == 0x045F18BC {
        Some(0x045F1CF6)
    } else if version == 0x02575048 {
        Some(0x02575483)
    } else if version == 0x044A4E28 {
        Some(0x044A5262)
    } else if version == 0x024285B5 {
        Some(0x024289EF)
    } else {
        None
    }
}

/// Every version produced by the table for the private side has a public
/// counterpart, and it is the table's entry for the public side.
pub proof fn lemma_version_pairing(chain: Chain, application: KeyApplication)
    ensures
        pub_version_of(version_for(chain, application, true)) == Some(
            version_for(chain, application, false),
        ),
{
}

} // verus!
