//! The typed requests the vault consumes and the typed replies it produces.
//! Framing and transport are the embedding program's; this module holds the
//! message types, the account description record, and the dispatcher that
//! turns one request into one vault call and one reply.

use vstd::prelude::*;

use crate::assets::{asset_views, clone_assets, AssetId};
use crate::bip32::{xpub_fingerprint_of, xpub_id_of, XPriv, XPub};
use crate::error::RuntimeError;
use crate::keymgm::{clone_string, Error, KeySource, KeySourceView, KeysAccount, KeysAccountView};
use crate::psbt::Psbt;
use crate::slip132::{Chain, KeyApplication};
use crate::bytes::sk_valid;
use crate::hashes::sha256_of;
use crate::keymgm::{account_decryptable, account_fresh, account_xpriv, has_path, keyring_wf};
use crate::secp::ecdsa_der;
use crate::vault::{
    all_masters_decryptable, info_views, psbt_sign_err, vault_account_find, vault_keyring_find,
    vault_keyring_index, vault_list_spec, vault_wf, Vault,
};

verus! {

/// A numeric authorization code carried by every request and forwarded to
/// the vault opaquely.
pub type AuthCode = u32;

/// A failure reply: a numeric code and a printable rendering of the error.
pub struct Failure {
    pub code: u16,
    pub info: String,
}

/// The description of one stored account, as the list and derive replies
/// carry it.
#[derive(Debug)]
pub struct AccountInfo {
    pub id: Vec<u8>,
    pub name: String,
    pub details: Option<String>,
    pub key_id: Vec<u8>,
    pub fingerprint: [u8; 4],
    pub assets: Vec<AssetId>,
    pub application: Option<KeyApplication>,
    pub key_source: Option<KeySource>,
}

/// The mathematical content of an [`AccountInfo`].
#[verifier::ext_equal]
pub ghost struct AccountInfoView {
    pub id: Seq<u8>,
    pub name: Seq<char>,
    pub details: Option<Seq<char>>,
    pub key_id: Seq<u8>,
    pub fingerprint: Seq<u8>,
    pub assets: Seq<Seq<u8>>,
    pub application: Option<KeyApplication>,
    pub key_source: Option<KeySourceView>,
}

impl View for AccountInfo {
    type V = AccountInfoView;

    open spec fn view(&self) -> AccountInfoView {
        AccountInfoView {
            id: self.id@,
            name: self.name@,
            details: match self.details {
                Some(ref d) => Some(d@),
                None => None,
            },
            key_id: self.key_id@,
            fingerprint: self.fingerprint@,
            assets: asset_views(self.assets@),
            application: self.application,
            key_source: match self.key_source {
                Some(ref ks) => Some(ks@),
                None => None,
            },
        }
    }
}

/// The description the vault derives from an account: both identifier
/// fields carry the key's HASH160, empty details collapse to nothing, and
/// the application is left unresolved.
pub open spec fn info_of_account(a: KeysAccountView, ks: Option<KeySourceView>) -> AccountInfoView {
    AccountInfoView {
        id: xpub_id_of(a.xpubkey),
        name: a.name,
        details: if a.details.len() == 0 {
            None
        } else {
            Some(a.details)
        },
        key_id: xpub_id_of(a.xpubkey),
        fingerprint: xpub_fingerprint_of(a.xpubkey),
        assets: a.assets,
        application: None,
        key_source: ks,
    }
}

/// Builds the description of an account.
pub fn account_info(a: &KeysAccount, key_source: Option<KeySource>) -> (r: AccountInfo)
    ensures
        r@ == info_of_account(
            a@,
            match key_source {
                Some(ks) => Some(ks@),
                None => None::<KeySourceView>,
            },
        ),
{
    let id = a.identifier();
    let key_id = a.identifier();
    let fingerprint = a.fingerprint();
    let details = if a.details.as_str().unicode_len() == 0 {
        None
    } else {
        Some(clone_string(&a.details))
    };
    let r = AccountInfo {
        id,
        name: clone_string(&a.name),
        details,
        key_id,
        fingerprint,
        assets: clone_assets(&a.assets),
        application: None,
        key_source,
    };
    proof {
        assert(r@ =~= info_of_account(
            a@,
            match key_source {
                Some(ks) => Some(ks@),
                None => None::<KeySourceView>,
            },
        ));
    }
    r
}


/// A request to create a keyring from a fresh seed.
pub struct Seed {
    pub name: String,
    pub chain: Chain,
    pub application: KeyApplication,
    pub description: Option<String>,
    pub auth_code: AuthCode,
}

/// A request to export a key.
pub struct Export {
    pub key_id: Vec<u8>,
    pub decryption_key: [u8; 32],
    pub auth_code: AuthCode,
}

/// A request to derive a sub-account.
pub struct Derive {
    pub from: Vec<u8>,
    pub path: Vec<u32>,
    pub name: String,
    pub details: String,
    pub assets: Vec<AssetId>,
    pub decryption_key: [u8; 32],
    pub auth_code: AuthCode,
}

/// A request to sign a partially signed transaction.
pub struct SignPsbt {
    pub psbt: Psbt,
    pub decryption_key: [u8; 32],
    pub auth_code: AuthCode,
}

/// A request to sign a key's own digest.
pub struct SignKey {
    pub key_id: Vec<u8>,
    pub decryption_key: [u8; 32],
    pub auth_code: AuthCode,
}

/// A request to sign arbitrary data.
pub struct SignData {
    pub key_id: Vec<u8>,
    pub data: Vec<u8>,
    pub decryption_key: [u8; 32],
    pub auth_code: AuthCode,
}

/// One request to the vault.
pub enum Request {
    List,
    Seed(Seed),
    ExportXpub(Export),
    ExportXpriv(Export),
    Derive(Derive),
    SignPsbt(SignPsbt),
    SignKey(SignKey),
    SignData(SignData),
}

/// One reply from the vault.
pub enum Reply {
    Success,
    Failure(Failure),
    Keylist(Vec<AccountInfo>),
    AccountInfo(AccountInfo),
    XPriv(XPriv),
    XPub(XPub),
    Signature(Vec<u8>),
    Psbt(Psbt),
}

/// The printable rendering of a key-management failure.
pub open spec fn keymgm_error_text(e: Error) -> Seq<char> {
    match e {
        Error::PrivkeyGeneration => "PrivkeyGeneration"@,
        Error::GroupOverflow => "GroupOverflow"@,
        Error::HardenedDerivation => "HardenedDerivation"@,
        Error::SecretKeyCorrupted => "SecretKeyCorrupted"@,
        Error::NotEnoughMemory => "NotEnoughMemory"@,
        Error::Secp256k1Broken => "Secp256k1Broken"@,
        Error::DerivationAlreadyUsed => "DerivationAlreadyUsed"@,
        Error::NotFound => "NotFound"@,
        Error::AssetIds(_) => "AssetIds"@,
        Error::NoOp => "NoOp"@,
        Error::MasterAccount => "MasterAccount"@,
        Error::InvalidDerivationPath => "InvalidDerivationPath"@,
        Error::ResolverFailure => "ResolverFailure"@,
    }
}

/// Renders a key-management failure.
pub fn keymgm_error_message(e: &Error) -> (r: String)
    ensures
        r@ == keymgm_error_text(*e),
{
    match e {
        Error::PrivkeyGeneration => String::from_str("PrivkeyGeneration"),
        Error::GroupOverflow => String::from_str("GroupOverflow"),
        Error::HardenedDerivation => String::from_str("HardenedDerivation"),
        Error::SecretKeyCorrupted => String::from_str("SecretKeyCorrupted"),
        Error::NotEnoughMemory => String::from_str("NotEnoughMemory"),
        Error::Secp256k1Broken => String::from_str("Secp256k1Broken"),
        Error::DerivationAlreadyUsed => String::from_str("DerivationAlreadyUsed"),
        Error::NotFound => String::from_str("NotFound"),
        Error::AssetIds(_) => String::from_str("AssetIds"),
        Error::NoOp => String::from_str("NoOp"),
        Error::MasterAccount => String::from_str("MasterAccount"),
        Error::InvalidDerivationPath => String::from_str("InvalidDerivationPath"),
        Error::ResolverFailure => String::from_str("ResolverFailure"),
    }
}

/// The printable rendering of a runtime failure.
pub open spec fn runtime_error_text(e: RuntimeError) -> Seq<char> {
    match e {
        RuntimeError::Transport => "Transport"@,
        RuntimeError::Message => "Message"@,
        RuntimeError::VaultDriver(_) => "VaultDriver"@,
        RuntimeError::KeyManagement(ke) => keymgm_error_text(ke),
    }
}

/// Wraps a key-management failure into a failure reply with code zero.
pub fn failure_of(e: &Error) -> (r: Failure)
    ensures
        r.code == 0,
        r.info@ == keymgm_error_text(*e),
{
    Failure { code: 0, info: keymgm_error_message(e) }
}

/// Wraps a runtime failure into a failure reply with code zero.
pub fn failure_of_runtime(e: &RuntimeError) -> (r: Failure)
    ensures
        r.code == 0,
        r.info@ == runtime_error_text(*e),
{
    match e {
        RuntimeError::Transport => Failure { code: 0, info: String::from_str("Transport") },
        RuntimeError::Message => Failure { code: 0, info: String::from_str("Message") },
        RuntimeError::VaultDriver(_) => Failure {
            code: 0,
            info: String::from_str("VaultDriver"),
        },
        RuntimeError::KeyManagement(ke) => failure_of(ke),
    }
}

/// Dispatches one request to the vault and shapes the reply: one request,
/// one vault call, one reply.  A failure is wrapped into a failure reply with
/// code zero and the error's printable rendering; the numeric authorization
/// code is advisory and forwarded opaquely.  Seeding encrypts for the node's
/// own encryption key, which the embedding supplies.
pub fn process_request(vault: &mut Vault, request: Request, node_encryption_key: &[u8; 33]) -> (r:
    Reply)
    requires
        vault_wf(old(vault)@),
    ensures
        vault_wf(final(vault)@),
        !(request is Seed || request is Derive) ==> final(vault)@ == old(vault)@,
        request is List ==> (r matches Reply::Keylist(infos) && info_views(infos@)
            == vault_list_spec(old(vault)@)),
        r matches Reply::Failure(f) ==> f.code == 0,
        request matches Request::Seed(sd) ==> {
            &&& (r is Success || r is Failure)
            &&& (r matches Reply::Failure(f) ==> final(vault)@ == old(vault)@ && (f.info@
                == keymgm_error_text(Error::PrivkeyGeneration) || f.info@ == keymgm_error_text(
                Error::GroupOverflow,
            ) || f.info@ == keymgm_error_text(Error::Secp256k1Broken)))
            &&& (r is Success ==> final(vault)@.len() == old(vault)@.len() + 1 && final(vault)@.take(
                old(vault)@.len() as int,
            ) == old(vault)@ && keyring_wf(final(vault)@.last())
                && account_fresh(
                final(vault)@.last().master_account,
                sd.chain,
                sd.application,
                node_encryption_key@,
            ) && final(vault)@.last().master_account.name == sd.name@)
        },
        request matches Request::ExportXpub(ex) ==> (match vault_account_find(
            old(vault)@,
            ex.key_id@,
        ) {
            Some(a) => r matches Reply::XPub(x) && x@ == a.xpubkey,
            None => r matches Reply::Failure(f) && f.info@ == keymgm_error_text(Error::NotFound),
        }),
        request matches Request::ExportXpriv(ex) ==> {
            &&& (r is XPriv || r is Failure)
            &&& (vault_account_find(old(vault)@, ex.key_id@) is None ==> (r matches Reply::Failure(
                f,
            ) && f.info@ == keymgm_error_text(Error::NotFound)))
            &&& (match vault_account_find(old(vault)@, ex.key_id@) {
                Some(a) => sk_valid(ex.decryption_key@) && account_decryptable(
                    a,
                    ex.decryption_key@,
                ) ==> (r matches Reply::XPriv(x) && x@ == account_xpriv(a, ex.decryption_key@)),
                None => true,
            })
        },
        request matches Request::Derive(dv) ==> {
            &&& (r is AccountInfo || r is Failure)
            &&& (r is Failure ==> final(vault)@ == old(vault)@)
            &&& (vault_keyring_find(old(vault)@, dv.from@) is None ==> (r matches Reply::Failure(f)
                && f.info@ == keymgm_error_text(Error::NotFound)))
            &&& ((match vault_keyring_find(old(vault)@, dv.from@) {
                Some(k) => dv.path@.len() == 0 || has_path(k, dv.path@),
                None => false,
            }) ==> (r matches Reply::Failure(f) && f.info@ == keymgm_error_text(
                Error::DerivationAlreadyUsed,
            )))
            &&& (r matches Reply::AccountInfo(info) ==> {
                let j = vault_keyring_index(old(vault)@, dv.from@);
                &&& 0 <= j < old(vault)@.len()
                &&& final(vault)@ == old(vault)@.update(j, final(vault)@[j])
                &&& final(vault)@[j].sub_accounts == old(vault)@[j].sub_accounts.push(
                    (dv.path@, final(vault)@[j].sub_accounts.last().1),
                )
                &&& info@ == info_of_account(
                    final(vault)@[j].sub_accounts.last().1,
                    None::<KeySourceView>,
                )
            })
            &&& ((match vault_keyring_find(old(vault)@, dv.from@) {
                Some(k) => {
                    let (ap, aa) = crate::keymgm::ancestor_of(k, dv.path@);
                    dv.path@.len() > 0 && !has_path(k, dv.path@) && sk_valid(dv.decryption_key@)
                        && account_decryptable(aa, dv.decryption_key@) && crate::bip32::derive_ok(
                        account_xpriv(aa, dv.decryption_key@),
                        dv.path@.skip(ap.len() as int),
                    )
                },
                None => false,
            }) ==> (r is AccountInfo || (r matches Reply::Failure(f) && f.info@
                == keymgm_error_text(Error::PrivkeyGeneration))))
        },
        request matches Request::SignPsbt(sp) ==> {
            &&& (r is Psbt || r is Failure)
            &&& (sk_valid(sp.decryption_key@) && all_masters_decryptable(
                old(vault)@,
                sp.decryption_key@,
            ) ==> (match psbt_sign_err(old(vault)@, sp.decryption_key@, sp.psbt@) {
                None => r is Psbt,
                Some(e) => r matches Reply::Failure(f) && f.info@ == runtime_error_text(e),
            }))
        },
        request matches Request::SignKey(sg) ==> {
            &&& (r is Signature || r is Failure)
            &&& (vault_account_find(old(vault)@, sg.key_id@) is None ==> (r matches Reply::Failure(
                f,
            ) && f.info@ == keymgm_error_text(Error::NotFound)))
            &&& (match vault_account_find(old(vault)@, sg.key_id@) {
                Some(a) => sk_valid(sg.decryption_key@) && account_decryptable(
                    a,
                    sg.decryption_key@,
                ) ==> (r matches Reply::Signature(sig) && sig@ == ecdsa_der(
                    sha256_of(a.xpubkey.pubkey),
                    account_xpriv(a, sg.decryption_key@).seckey,
                )),
                None => true,
            })
        },
        request matches Request::SignData(sg) ==> {
            &&& (r is Signature || r is Failure)
            &&& (vault_account_find(old(vault)@, sg.key_id@) is None ==> (r matches Reply::Failure(
                f,
            ) && f.info@ == keymgm_error_text(Error::NotFound)))
            &&& (match vault_account_find(old(vault)@, sg.key_id@) {
                Some(a) => sk_valid(sg.decryption_key@) && account_decryptable(
                    a,
                    sg.decryption_key@,
                ) ==> (r matches Reply::Signature(sig) && sig@ == ecdsa_der(
                    sha256_of(sg.data@),
                    account_xpriv(a, sg.decryption_key@).seckey,
                )),
                None => true,
            })
        },
{
    match request {
        Request::List => Reply::Keylist(vault.list()),
        Request::Seed(seed) => {
            match vault.seed(
                seed.name,
                seed.description,
                seed.chain,
                seed.application,
                node_encryption_key,
            ) {
                Ok(()) => Reply::Success,
                Err(e) => Reply::Failure(failure_of(&e)),
            }
        },
        Request::ExportXpub(export) => {
            match vault.xpub(&export.key_id) {
                Ok(x) => Reply::XPub(x),
                Err(e) => Reply::Failure(failure_of(&e)),
            }
        },
        Request::ExportXpriv(export) => {
            let mut key = export.decryption_key;
            match vault.xpriv(&export.key_id, &mut key) {
                Ok(x) => Reply::XPriv(x),
                Err(e) => Reply::Failure(failure_of(&e)),
            }
        },
        Request::Derive(derive) => {
            let mut key = derive.decryption_key;
            match vault.derive(
                &derive.from,
                derive.path,
                derive.name,
                Some(derive.details),
                derive.assets,
                &mut key,
            ) {
                Ok(info) => Reply::AccountInfo(info),
                Err(e) => Reply::Failure(failure_of(&e)),
            }
        },
        Request::SignPsbt(sign) => {
            let mut key = sign.decryption_key;
            match vault.sign_psbt(sign.psbt, &mut key) {
                Ok(p) => Reply::Psbt(p),
                Err(e) => Reply::Failure(failure_of_runtime(&e)),
            }
        },
        Request::SignKey(sign) => {
            let mut key = sign.decryption_key;
            match vault.sign_key(&sign.key_id, &mut key) {
                Ok(s) => Reply::Signature(s),
                Err(e) => Reply::Failure(failure_of(&e)),
            }
        },
        Request::SignData(sign) => {
            let mut key = sign.decryption_key;
            match vault.sign_data(&sign.key_id, &sign.data, &mut key) {
                Ok(s) => Reply::Signature(s),
                Err(e) => Reply::Failure(failure_of(&e)),
            }
        },
    }
}

} // verus!
