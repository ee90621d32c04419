//! Keyrings and keys accounts: the encrypted capsules the vault stores.
//!
//! A keys account holds an extended public key together with the ElGamal
//! ciphertext of the matching extended private key and the unblinding point
//! needed to decrypt it.  A keyring is a master account plus its derived
//! sub-accounts, addressed by absolute derivation paths.  Every secret that
//! a method decrypts or draws is overwritten with fresh randomness before
//! the method returns, on success and failure alike.

use vstd::prelude::*;

use crate::assets::{
    add_assets, asset_views, assets_difference, assets_unique, clone_assets, contains_asset,
    dedup_assets, AssetId,
};
use crate::bip32::{
    all_unhardened, decode_xpriv, derive_ok, derive_priv, derive_xpriv, encode_xpriv, neuter,
    neuter_of, pub_derive_pk, xpub_eq, xpub_fingerprint, xpub_fingerprint_of, xpub_id_of,
    xpub_identifier, xpub_view_wf, xpriv_encode, xpriv_view_wf, new_master, XPriv, XPrivView,
    XPub, XPubView,
};
use crate::bytes::{bytes_eq, sk_valid};
use crate::elgamal;
use crate::elgamal::{eg_decrypt, lemma_eg_round_trip};
use crate::entropy::{fill_random, fill_random_32, random_32};
use crate::secp::{ecdsa_der, ecdsa_sign, gmul, mulp, pubkey_create, scalar_check};
use crate::slip132::{version_for, Chain, KeyApplication};

verus! {

/// Error cases of keyring and keys-account management.
#[derive(Clone, PartialEq, Eq, Debug)]
pub enum Error {
    /// Drawn entropy was not a member of the secp256k1 group; the caller may
    /// simply retry.
    PrivkeyGeneration,
    /// An elliptic-curve operation overflowed (for instance a tweak reached
    /// the point at infinity).
    GroupOverflow,
    /// A hardened derivation was requested where only a public key is in
    /// hand.
    HardenedDerivation,
    /// The stored ciphertext is corrupted: it has a wrong length, a wrong
    /// pad, or does not decrypt to a valid extended private key.
    SecretKeyCorrupted,
    /// Memory ran out while encrypting or decrypting.
    NotEnoughMemory,
    /// The curve library failed in an unexpected way.
    Secp256k1Broken,
    /// The derivation path is already used by another account, the master's
    /// empty path included.
    DerivationAlreadyUsed,
    /// No account with the requested identifier or path exists.
    NotFound,
    /// The asset identifiers for which the operation failed.
    AssetIds(Vec<AssetId>),
    /// The call carried nothing to do.
    NoOp,
    /// The operation cannot be applied to the master account.
    MasterAccount,
    /// The derivation path cannot be used: it is malformed or too deep.
    InvalidDerivationPath,
    /// No SLIP-132 version entry fits the requested key.
    ResolverFailure,
}

/// Maps an encryption-layer failure to the vault taxonomy: a malformed
/// ciphertext means the stored secret is corrupted.
pub fn from_elgamal_error(e: elgamal::Error) -> (r: Error)
    ensures
        r == (match e {
            elgamal::Error::UnpaddedLength => Error::SecretKeyCorrupted,
            elgamal::Error::InvalidEncryptedMessage => Error::SecretKeyCorrupted,
            elgamal::Error::GroupOverflow => Error::GroupOverflow,
            elgamal::Error::NotEnoughMemory => Error::NotEnoughMemory,
            elgamal::Error::Secp256k1Broken => Error::Secp256k1Broken,
        }),
{
    match e {
        elgamal::Error::UnpaddedLength => Error::SecretKeyCorrupted,
        elgamal::Error::InvalidEncryptedMessage => Error::SecretKeyCorrupted,
        elgamal::Error::GroupOverflow => Error::GroupOverflow,
        elgamal::Error::NotEnoughMemory => Error::NotEnoughMemory,
        elgamal::Error::Secp256k1Broken => Error::Secp256k1Broken,
    }
}

/// Maps a derivation failure to the vault taxonomy.
pub fn from_bip32_error(e: crate::bip32::Error) -> (r: Error)
    ensures
        r == (match e {
            crate::bip32::Error::KeyOutOfRange => Error::PrivkeyGeneration,
            crate::bip32::Error::GroupOverflow => Error::GroupOverflow,
            crate::bip32::Error::MaximumDepth => Error::InvalidDerivationPath,
            crate::bip32::Error::ResolverFailure => Error::ResolverFailure,
        }),
{
    match e {
        crate::bip32::Error::KeyOutOfRange => Error::PrivkeyGeneration,
        crate::bip32::Error::GroupOverflow => Error::GroupOverflow,
        crate::bip32::Error::MaximumDepth => Error::InvalidDerivationPath,
        crate::bip32::Error::ResolverFailure => Error::ResolverFailure,
    }
}

/// Mode for an asset-list update.
#[derive(Clone, Copy, PartialEq, Eq, Structural, Debug)]
pub enum UpdateMode {
    /// Add the given assets to the existing ones.
    Add,
    /// Replace the existing assets with the given ones.
    Replace,
    /// Remove the given assets; silently skip those that are absent.
    RemoveIgnore,
    /// Remove the given assets; fail without touching anything if one is
    /// absent.
    RemoveOrFail,
}

impl Default for UpdateMode {
    /// Adding is the default update mode.
    fn default() -> (r: Self)
        ensures
            r == UpdateMode::Add,
    {
        UpdateMode::Add
    }
}

/// Copies a derivation path.
pub fn clone_path(v: &Vec<u32>) -> (r: Vec<u32>)
    ensures
        r@ == v@,
{
    let mut out: Vec<u32> = Vec::new();
    let mut i: usize = 0;
    while i < v.len()
        invariant
            i <= v@.len(),
            out@ == v@.take(i as int),
        decreases v@.len() - i,
    {
        out.push(v[i]);
        proof {
            assert(out@ =~= v@.take(i as int + 1));
        }
        i = i + 1;
    }
    proof {
        assert(out@ =~= v@);
    }
    out
}

/// Whether two paths are equal.
pub fn paths_eq(a: &Vec<u32>, b: &Vec<u32>) -> (r: bool)
    ensures
        r == (a@ == b@),
{
    if a.len() != b.len() {
        proof {
            assert(a@ != b@);
        }
        return false;
    }
    let mut i: usize = 0;
    while i < a.len()
        invariant
            i <= a@.len(),
            a@.len() == b@.len(),
            forall|t: int| 0 <= t < i ==> a@[t] == b@[t],
        decreases a@.len() - i,
    {
        if a[i] != b[i] {
            proof {
                assert(a@[i as int] != b@[i as int]);
            }
            return false;
        }
        i = i + 1;
    }
    proof {
        assert(a@ =~= b@);
    }
    true
}

/// Whether `p` is a strict prefix of `t`.
pub open spec fn strict_prefix_of(p: Seq<u32>, t: Seq<u32>) -> bool {
    p.len() < t.len() && p == t.take(p.len() as int)
}

/// Decides whether `p` is a strict prefix of `t`.
pub fn is_strict_prefix(p: &Vec<u32>, t: &Vec<u32>) -> (r: bool)
    ensures
        r == strict_prefix_of(p@, t@),
{
    if p.len() >= t.len() {
        return false;
    }
    let mut i: usize = 0;
    while i < p.len()
        invariant
            i <= p@.len(),
            p@.len() < t@.len(),
            forall|j: int| 0 <= j < i ==> p@[j] == t@[j],
        decreases p@.len() - i,
    {
        if p[i] != t[i] {
            proof {
                assert(p@[i as int] != t@.take(p@.len() as int)[i as int]);
            }
            return false;
        }
        i = i + 1;
    }
    proof {
        assert(p@ =~= t@.take(p@.len() as int));
    }
    true
}

/// The tail of a path after its first `from` steps.
pub fn path_suffix(t: &Vec<u32>, from: usize) -> (r: Vec<u32>)
    requires
        from <= t@.len(),
    ensures
        r@ == t@.skip(from as int),
{
    let mut out: Vec<u32> = Vec::new();
    let mut i: usize = from;
    while i < t.len()
        invariant
            from <= i <= t@.len(),
            out@ == t@.subrange(from as int, i as int),
        decreases t@.len() - i,
    {
        out.push(t[i]);
        proof {
            assert(out@ =~= t@.subrange(from as int, i as int + 1));
        }
        i = i + 1;
    }
    proof {
        assert(out@ =~= t@.skip(from as int));
    }
    out
}

/// Copies a string.
pub fn clone_string(s: &String) -> (r: String)
    ensures
        r@ == s@,
{
    String::from_str(s.as_str())
}

/// The empty string.
pub fn empty_string() -> (r: String)
    ensures
        r@ == Seq::<char>::empty(),
{
    let s = String::from_str("");
    proof {
        reveal_strlit("");
        assert(s@ =~= Seq::<char>::empty());
    }
    s
}

/// A keys account: an extended public key, the ElGamal ciphertext of the
/// matching extended private key, the unblinding point of the one-time
/// blinding pair, descriptive text and the assets it signs for.
pub struct KeysAccount {
    pub xpubkey: XPub,
    pub name: String,
    pub details: String,
    pub assets: Vec<AssetId>,
    pub encrypted: Vec<u8>,
    pub unblinding: [u8; 33],
}

/// The mathematical content of a [`KeysAccount`].
#[verifier::ext_equal]
pub ghost struct KeysAccountView {
    pub xpubkey: XPubView,
    pub name: Seq<char>,
    pub details: Seq<char>,
    pub assets: Seq<Seq<u8>>,
    pub encrypted: Seq<u8>,
    pub unblinding: Seq<u8>,
}

impl View for KeysAccount {
    type V = KeysAccountView;

    open spec fn view(&self) -> KeysAccountView {
        KeysAccountView {
            xpubkey: self.xpubkey@,
            name: self.name@,
            details: self.details@,
            assets: asset_views(self.assets@),
            encrypted: self.encrypted@,
            unblinding: self.unblinding@,
        }
    }
}

/// Well-formedness of an account: serialized widths and distinct assets.
pub open spec fn account_wf(v: KeysAccountView) -> bool {
    xpub_view_wf(v.xpubkey) && v.unblinding.len() == 33 && assets_unique(v.assets)
}

/// The property an extended private key must have to be "the key inside" an
/// account under decryption key `d`: the ciphertext decrypts to its
/// serialization and its neutered form is the account's public key.
pub open spec fn account_xpriv_pred(v: KeysAccountView, d: Seq<u8>, xk: XPrivView) -> bool {
    xpriv_view_wf(xk) && sk_valid(xk.seckey) && eg_decrypt(v.encrypted, mulp(v.unblinding, d))
        == Some(xpriv_encode(xk)) && neuter_of(xk) == Some(v.xpubkey)
}

/// Whether the account's unblinding point is a true one-time public key.
pub open spec fn unblinding_ok(v: KeysAccountView) -> bool {
    exists|b: Seq<u8>| sk_valid(b) && v.unblinding == gmul(b)
}

/// Whether the account's ciphertext can be decrypted with key `d`: the
/// unblinding point is a true one-time public key and some extended private
/// key satisfies [`account_xpriv_pred`].
pub open spec fn account_decryptable(v: KeysAccountView, d: Seq<u8>) -> bool {
    unblinding_ok(v) && (exists|xk: XPrivView| account_xpriv_pred(v, d, xk))
}

/// Whether the ciphertext decrypts under key `d` to a well-formed 78-byte
/// extended-private-key blob.
pub open spec fn account_blob_ok(v: KeysAccountView, d: Seq<u8>) -> bool {
    match eg_decrypt(v.encrypted, mulp(v.unblinding, d)) {
        Some(p) => crate::bip32::xpriv_bytes_ok(p),
        None => false,
    }
}

/// The extended private key the decrypted blob holds; meaningful when
/// [`account_blob_ok`] holds.
pub open spec fn account_blob_xpriv(v: KeysAccountView, d: Seq<u8>) -> XPrivView {
    crate::bip32::xpriv_of_bytes(eg_decrypt(v.encrypted, mulp(v.unblinding, d)).unwrap())
}

/// Whether decryption under `d` yields a well-formed key whose neutered form
/// is exactly the stored extended public key.
pub open spec fn account_key_match(v: KeysAccountView, d: Seq<u8>) -> bool {
    account_blob_ok(v, d) && neuter_of(account_blob_xpriv(v, d)) == Some(v.xpubkey)
}

/// Decryptability is exactly a true one-time point together with a matching
/// decrypted key, and the key inside the account is the decrypted blob.
pub proof fn lemma_decryptable_blob(v: KeysAccountView, d: Seq<u8>)
    ensures
        account_decryptable(v, d) <==> (unblinding_ok(v) && account_key_match(v, d)),
        account_decryptable(v, d) ==> account_xpriv(v, d) == account_blob_xpriv(v, d),
{
    if account_decryptable(v, d) {
        let xk = choose|xk: XPrivView| account_xpriv_pred(v, d, xk);
        assert(account_xpriv_pred(v, d, xk));
        let p = xpriv_encode(xk);
        assert(p[45] == 0);
        assert(p.subrange(46, 78) =~= xk.seckey);
        assert(crate::bip32::xpriv_bytes_ok(p));
        crate::bip32::lemma_xpriv_of_encode(xk);
        assert(account_blob_xpriv(v, d) == xk);
        lemma_account_xpriv_unique(v, d, xk, account_xpriv(v, d));
    }
    if unblinding_ok(v) && account_key_match(v, d) {
        let p = eg_decrypt(v.encrypted, mulp(v.unblinding, d)).unwrap();
        crate::bip32::lemma_xpriv_of_bytes_encode(p);
        let xk = account_blob_xpriv(v, d);
        assert(account_xpriv_pred(v, d, xk));
    }
}

/// The extended private key inside a decryptable account; unique because the
/// serialization is injective.
pub open spec fn account_xpriv(v: KeysAccountView, d: Seq<u8>) -> XPrivView {
    choose|xk: XPrivView| account_xpriv_pred(v, d, xk)
}

/// Any two keys satisfying the decryption predicate are the same key.
pub proof fn lemma_account_xpriv_unique(v: KeysAccountView, d: Seq<u8>, a: XPrivView, b: XPrivView)
    requires
        account_xpriv_pred(v, d, a),
        account_xpriv_pred(v, d, b),
    ensures
        a == b,
{
    assert(Some(xpriv_encode(a)) == Some(xpriv_encode(b)));
    crate::bip32::lemma_xpriv_encode_injective(a, b);
}

/// The key inside a decryptable account is the stored public key's private
/// counterpart: decrypting the ciphertext with the paired decryption key
/// yields an extended private key whose neutered form is exactly the
/// account's extended public key.
pub proof fn lemma_account_key_pairing(a: KeysAccountView, d: Seq<u8>)
    requires
        account_decryptable(a, d),
    ensures
        account_xpriv_pred(a, d, account_xpriv(a, d)),
        neuter_of(account_xpriv(a, d)) == Some(a.xpubkey),
{
    let xk = choose|xk: XPrivView| account_xpriv_pred(a, d, xk);
    assert(account_xpriv_pred(a, d, xk));
    lemma_account_xpriv_unique(a, d, xk, account_xpriv(a, d));
}

/// A freshly created account for the given chain, scope and encryption key:
/// well-formed, carrying the public version bytes, and decryptable by every
/// secret counterpart of the encryption key.
pub open spec fn account_fresh(
    v: KeysAccountView,
    chain: Chain,
    application: KeyApplication,
    ek: Seq<u8>,
) -> bool {
    account_wf(v) && v.xpubkey.version == version_for(chain, application, false) && v.xpubkey.depth
        == 0 && v.xpubkey.child_number == 0 && (forall|d: Seq<u8>|
        sk_valid(d) && ek == gmul(d) ==> account_decryptable(v, d))
}

/// What an asset-list change leaves behind, by update mode.
pub open spec fn account_assets_post(
    olda: KeysAccountView,
    newa: KeysAccountView,
    list: Vec<AssetId>,
    mode: UpdateMode,
    r: Result<usize, Error>,
) -> bool {
    match mode {
        UpdateMode::Add => r matches Ok(c) && c == list@.len() && newa.assets.take(
            olda.assets.len() as int,
        ) == olda.assets && (forall|a: Seq<u8>|
            contains_asset(newa.assets, a) == (contains_asset(olda.assets, a) || contains_asset(
                asset_views(list@),
                a,
            ))),
        UpdateMode::Replace => r matches Ok(c) && c as int == (if olda.assets.len() + list@.len()
            <= usize::MAX {
            olda.assets.len() + list@.len() as int
        } else {
            usize::MAX as int
        }) && (forall|a: Seq<u8>|
            contains_asset(newa.assets, a) == contains_asset(asset_views(list@), a)),
        UpdateMode::RemoveIgnore => r matches Ok(c) && c == olda.assets.len() - newa.assets.len()
            && (forall|a: Seq<u8>|
            contains_asset(newa.assets, a) == (contains_asset(olda.assets, a) && !contains_asset(
                asset_views(list@),
                a,
            ))),
        UpdateMode::RemoveOrFail => if (forall|a: Seq<u8>|
            contains_asset(asset_views(list@), a) ==> contains_asset(olda.assets, a)) {
            r matches Ok(c) && c == olda.assets.len() - newa.assets.len() && (forall|a: Seq<u8>|
                contains_asset(newa.assets, a) == (contains_asset(olda.assets, a)
                    && !contains_asset(asset_views(list@), a)))
        } else {
            r matches Err(e) && e matches Error::AssetIds(m) && newa.assets == olda.assets && (
            forall|a: Seq<u8>|
                contains_asset(asset_views(m@), a) == (contains_asset(asset_views(list@), a)
                    && !contains_asset(olda.assets, a)))
        },
    }
}

/// What an account update leaves behind: the key material never changes;
/// with nothing to do the call fails as a no-op; otherwise name and details
/// are applied first and the asset list changes by mode.
pub open spec fn account_update_post(
    olda: KeysAccountView,
    newa: KeysAccountView,
    name: Option<String>,
    details: Option<String>,
    assets: Option<Vec<AssetId>>,
    mode: UpdateMode,
    r: Result<usize, Error>,
) -> bool {
    let noop = name is None && details is None && assets is None;
    &&& newa.xpubkey == olda.xpubkey
    &&& newa.encrypted == olda.encrypted
    &&& newa.unblinding == olda.unblinding
    &&& (noop <==> r == Err::<usize, Error>(Error::NoOp))
    &&& (noop ==> newa == olda)
    &&& (!noop ==> {
        &&& newa.name == (match name {
            Some(n) => n@,
            None => olda.name,
        })
        &&& newa.details == (match details {
            Some(d) => d@,
            None => olda.details,
        })
        &&& (match assets {
            None => newa.assets == olda.assets && r == Ok::<usize, Error>(0),
            Some(list) => account_assets_post(olda, newa, list, mode, r),
        })
    })
}

impl KeysAccount {
    /// Creates a master account from 32 bytes of fresh entropy, encrypting
    /// the new extended private key for the holder of `encryption_key`.  The
    /// seed, the blinding scalar and the private key are overwritten before
    /// the call returns, on every path.
    pub fn with(
        name: String,
        details: String,
        assets: Vec<AssetId>,
        chain: Chain,
        application: KeyApplication,
        encryption_key: &[u8; 33],
    ) -> (r: Result<KeysAccount, Error>)
        ensures
            r matches Ok(a) ==> account_fresh(a@, chain, application, encryption_key@) && a@.name
                == name@ && a@.details == details@ && (forall|x: Seq<u8>|
                contains_asset(a@.assets, x) == contains_asset(asset_views(assets@), x)),
            r matches Err(e) ==> (e == Error::PrivkeyGeneration || e == Error::GroupOverflow || e
                == Error::Secp256k1Broken),
    {
        let version = crate::slip132::resolve_version(chain, application, true);
        let mut seed: Vec<u8> = Vec::new();
        let mut si: usize = 0;
        while si < 32
            invariant
                seed@.len() == si,
            decreases 32 - si,
        {
            seed.push(0u8);
            si = si + 1;
        }
        fill_random(&mut seed);
        let mut xk = match new_master(&seed, version) {
            Ok(x) => x,
            Err(_) => {
                fill_random(&mut seed);
                return Err(Error::PrivkeyGeneration);
            },
        };
        fill_random(&mut seed);
        let xpub = match neuter(&xk) {
            Ok(p) => p,
            Err(_) => {
                fill_random_32(&mut xk.seckey);
                return Err(Error::Secp256k1Broken);
            },
        };
        proof {
            crate::slip132::lemma_version_pairing(chain, application);
        }
        let mut blinding = random_32();
        let mut valid = scalar_check(&blinding);
        let mut tries: usize = 0;
        while !valid && tries < 64
            invariant
                valid ==> sk_valid(blinding@),
            decreases 64 - tries,
        {
            blinding = random_32();
            valid = scalar_check(&blinding);
            tries = tries + 1;
        }
        if !valid {
            fill_random_32(&mut xk.seckey);
            fill_random_32(&mut blinding);
            return Err(Error::PrivkeyGeneration);
        }
        let unblinding = pubkey_create(&blinding);
        let mut plain = encode_xpriv(&xk);
        let ghost xkv = xk@;
        let ghost bv = blinding@;
        let encrypted = match elgamal::encrypt(&plain, encryption_key, &blinding) {
            Ok(c) => c,
            Err(e) => {
                fill_random(&mut plain);
                fill_random_32(&mut xk.seckey);
                fill_random_32(&mut blinding);
                return Err(from_elgamal_error(e));
            },
        };
        fill_random(&mut plain);
        fill_random_32(&mut xk.seckey);
        fill_random_32(&mut blinding);
        let account = KeysAccount {
            xpubkey: xpub,
            name,
            details,
            assets: dedup_assets(&assets),
            encrypted,
            unblinding,
        };
        proof {
            assert forall|d: Seq<u8>|
                sk_valid(d) && encryption_key@ == gmul(d) implies account_decryptable(
                account@,
                d,
            ) by {
                lemma_eg_round_trip(xpriv_encode(xkv), mulp(gmul(bv), d));
                assert(account@.unblinding == gmul(bv));
                assert(account_xpriv_pred(account@, d, xkv));
            }
        }
        Ok(account)
    }

    /// Decrypts the extended private key with `decryption_key`, overwriting
    /// the decryption key with fresh randomness immediately after the
    /// decryption, before the plaintext is even parsed.  With a valid key and
    /// a true one-time unblinding point the outcome is exact: the call
    /// succeeds if and only if the ciphertext decrypts to a well-formed
    /// extended-private-key blob, and fails with a corrupted-secret error
    /// otherwise.
    pub fn xprivkey(&self, decryption_key: &mut [u8; 32]) -> (r: Result<XPriv, Error>)
        ensures
            r matches Ok(x) ==> xpriv_view_wf(x@) && sk_valid(x@.seckey) && Some(xpriv_encode(x@))
                == eg_decrypt(self@.encrypted, mulp(self@.unblinding, old(decryption_key)@)),
            sk_valid(old(decryption_key)@) && account_decryptable(self@, old(decryption_key)@)
                ==> (r matches Ok(x) && x@ == account_xpriv(self@, old(decryption_key)@)
                && neuter_of(x@) == Some(self@.xpubkey)),
            r == Err::<XPriv, Error>(Error::PrivkeyGeneration) <==> !sk_valid(
                old(decryption_key)@,
            ),
            sk_valid(old(decryption_key)@) && unblinding_ok(self@) ==> {
                &&& (r is Ok <==> account_blob_ok(self@, old(decryption_key)@))
                &&& (r matches Ok(x) ==> x@ == account_blob_xpriv(self@, old(decryption_key)@))
                &&& (r is Err ==> r == Err::<XPriv, Error>(Error::SecretKeyCorrupted))
            },
            r matches Err(e) ==> (e == Error::PrivkeyGeneration || e == Error::SecretKeyCorrupted
                || e == Error::GroupOverflow || e == Error::NotEnoughMemory || e
                == Error::Secp256k1Broken),
    {
        if !scalar_check(decryption_key) {
            fill_random_32(decryption_key);
            return Err(Error::PrivkeyGeneration);
        }
        let ghost d0 = old(decryption_key)@;
        let decrypted = elgamal::decrypt(&self.encrypted, decryption_key, &self.unblinding);
        fill_random_32(decryption_key);
        let mut plain = match decrypted {
            Ok(p) => p,
            Err(e) => {
                proof {
                    if account_decryptable(self@, d0) {
                        let xk0 = choose|xk: XPrivView| account_xpriv_pred(self@, d0, xk);
                        assert(eg_decrypt(self@.encrypted, mulp(self@.unblinding, d0)) == Some(
                            xpriv_encode(xk0),
                        ));
                        assert(false);
                    }
                    if unblinding_ok(self@) {
                        if !(self@.encrypted.len() == 0 || self@.encrypted.len() % 32 != 0) {
                            assert(eg_decrypt(self@.encrypted, mulp(self@.unblinding, d0))
                                is None);
                            assert(e == elgamal::Error::InvalidEncryptedMessage);
                        }
                        assert(!account_blob_ok(self@, d0));
                        assert(e == elgamal::Error::UnpaddedLength || e
                            == elgamal::Error::InvalidEncryptedMessage);
                    }
                }
                return Err(from_elgamal_error(e));
            },
        };
        let ghost plain0 = plain@;
        let parsed = decode_xpriv(&plain);
        fill_random(&mut plain);
        proof {
            if unblinding_ok(self@) {
                assert(eg_decrypt(self@.encrypted, mulp(self@.unblinding, d0)) == Some(plain0));
                assert(account_blob_ok(self@, d0) == crate::bip32::xpriv_bytes_ok(plain0));
            }
        }
        match parsed {
            Some(x) => {
                proof {
                    if sk_valid(d0) && account_decryptable(self@, d0) {
                        let xk0 = choose|xk: XPrivView| account_xpriv_pred(self@, d0, xk);
                        lemma_account_xpriv_unique(self@, d0, xk0, account_xpriv(self@, d0));
                        crate::bip32::lemma_xpriv_encode_injective(x@, xk0);
                    }
                }
                Ok(x)
            },
            None => {
                proof {
                    if sk_valid(d0) && account_decryptable(self@, d0) {
                        let xk0 = choose|xk: XPrivView| account_xpriv_pred(self@, d0, xk);
                        let enc = xpriv_encode(xk0);
                        assert(enc[45] == 0);
                        assert(enc.subrange(46, 78) =~= xk0.seckey);
                        assert(crate::bip32::xpriv_bytes_ok(enc));
                        assert(false);
                    }
                }
                Err(Error::SecretKeyCorrupted)
            },
        }
    }

    /// The 20-byte identifier of the account's extended public key.
    pub fn identifier(&self) -> (r: Vec<u8>)
        ensures
            r@ == xpub_id_of(self@.xpubkey),
            r@.len() == 20,
    {
        xpub_identifier(&self.xpubkey)
    }

    /// The 4-byte fingerprint of the account's extended public key.
    pub fn fingerprint(&self) -> (r: [u8; 4])
        ensures
            r@ == xpub_fingerprint_of(self@.xpubkey),
    {
        xpub_fingerprint(&self.xpubkey)
    }

    /// Derives a new sub-account at the relative `path`, re-encrypting the
    /// derived key under the public counterpart of the caller's decryption
    /// key.  The decryption key and every intermediate secret are overwritten
    /// before the call returns, on every path.
    pub fn derive(
        &self,
        path: &Vec<u32>,
        name: String,
        details: String,
        assets: Vec<AssetId>,
        decryption_key: &mut [u8; 32],
    ) -> (r: Result<KeysAccount, Error>)
        ensures
            r matches Ok(a) ==> account_wf(a@) && a@.name == name@ && a@.details == details@ && (
            forall|x: Seq<u8>| contains_asset(a@.assets, x) == contains_asset(
                asset_views(assets@),
                x,
            )),
            sk_valid(old(decryption_key)@) && account_decryptable(self@, old(decryption_key)@)
                ==> (r matches Ok(a) ==> {
                let m = account_xpriv(self@, old(decryption_key)@);
                &&& derive_ok(m, path@)
                &&& neuter_of(derive_priv(m, path@)) == Some(a@.xpubkey)
                &&& account_decryptable(a@, old(decryption_key)@)
                &&& account_xpriv(a@, old(decryption_key)@) == derive_priv(m, path@)
                &&& (all_unhardened(path@) ==> a@.xpubkey.pubkey == pub_derive_pk(
                    self@.xpubkey.pubkey,
                    self@.xpubkey.chain_code,
                    path@,
                ))
            }),
            sk_valid(old(decryption_key)@) && unblinding_ok(self@) ==> (r == Err::<
                KeysAccount,
                Error,
            >(Error::SecretKeyCorrupted) <==> !account_key_match(self@, old(decryption_key)@)),
            sk_valid(old(decryption_key)@) && account_decryptable(self@, old(decryption_key)@)
                && derive_ok(account_xpriv(self@, old(decryption_key)@), path@) ==> (r matches Ok(
                _,
            ) || r == Err::<KeysAccount, Error>(Error::PrivkeyGeneration)),
            r matches Err(e) ==> (e == Error::PrivkeyGeneration || e == Error::SecretKeyCorrupted
                || e == Error::GroupOverflow || e == Error::NotEnoughMemory || e
                == Error::Secp256k1Broken || e == Error::InvalidDerivationPath || e
                == Error::ResolverFailure),
    {
        if !scalar_check(decryption_key) {
            fill_random_32(decryption_key);
            return Err(Error::PrivkeyGeneration);
        }
        let ghost d0 = old(decryption_key)@;
        proof {
            lemma_decryptable_blob(self@, d0);
        }
        // The encryption key of the new account is the public counterpart of
        // the caller's decryption key.
        let encryption_key = pubkey_create(decryption_key);
        let mut master = match self.xprivkey(decryption_key) {
            Ok(x) => x,
            Err(e) => {
                proof {
                    if unblinding_ok(self@) {
                        assert(!account_blob_ok(self@, d0) && e == Error::SecretKeyCorrupted);
                        assert(!account_key_match(self@, d0));
                    }
                }
                return Err(e);
            },
        };
        let ghost m0 = master@;
        // Guard against corrupted storage: the decrypted key must neuter to
        // the stored public key.
        let master_pub = match neuter(&master) {
            Ok(p) => p,
            Err(_) => {
                proof {
                    if account_decryptable(self@, d0) {
                        lemma_account_key_pairing(self@, d0);
                        assert(false);
                    }
                    if unblinding_ok(self@) {
                        assert(m0 == account_blob_xpriv(self@, d0));
                        assert(neuter_of(m0) is None);
                        assert(!account_key_match(self@, d0));
                    }
                }
                fill_random_32(&mut master.seckey);
                return Err(Error::SecretKeyCorrupted);
            },
        };
        if !xpub_eq(&master_pub, &self.xpubkey) {
            proof {
                if account_decryptable(self@, d0) {
                    lemma_account_key_pairing(self@, d0);
                    assert(false);
                }
                if unblinding_ok(self@) {
                    assert(neuter_of(account_blob_xpriv(self@, d0)) == Some(master_pub@));
                    assert(!account_key_match(self@, d0));
                }
            }
            fill_random_32(&mut master.seckey);
            return Err(Error::SecretKeyCorrupted);
        }
        proof {
            if unblinding_ok(self@) {
                assert(account_key_match(self@, d0));
            }
        }
        let mut child = match derive_xpriv(&master, path) {
            Ok(c) => c,
            Err(e) => {
                proof {
                    if account_decryptable(self@, d0) {
                        assert(m0 == account_xpriv(self@, d0));
                        assert(!derive_ok(account_xpriv(self@, d0), path@));
                    }
                    assert(e == crate::bip32::Error::GroupOverflow || e
                        == crate::bip32::Error::MaximumDepth);
                }
                fill_random_32(&mut master.seckey);
                return Err(from_bip32_error(e));
            },
        };
        fill_random_32(&mut master.seckey);
        let child_pub = match neuter(&child) {
            Ok(p) => p,
            Err(_) => {
                proof {
                    if account_decryptable(self@, d0) {
                        lemma_account_key_pairing(self@, d0);
                        crate::bip32::lemma_derive_priv_version(m0, path@);
                        assert(false);
                    }
                }
                fill_random_32(&mut child.seckey);
                return Err(Error::ResolverFailure);
            },
        };
        let mut blinding = random_32();
        let mut valid = scalar_check(&blinding);
        let mut tries: usize = 0;
        while !valid && tries < 64
            invariant
                valid ==> sk_valid(blinding@),
            decreases 64 - tries,
        {
            blinding = random_32();
            valid = scalar_check(&blinding);
            tries = tries + 1;
        }
        if !valid {
            fill_random_32(&mut child.seckey);
            fill_random_32(&mut blinding);
            return Err(Error::PrivkeyGeneration);
        }
        let unblinding = pubkey_create(&blinding);
        let mut plain = encode_xpriv(&child);
        let ghost childv = child@;
        let ghost bv = blinding@;
        let encrypted = match elgamal::encrypt(&plain, &encryption_key, &blinding) {
            Ok(c) => c,
            Err(e) => {
                proof {
                    assert(sk_valid(d0) && encryption_key@ == gmul(d0));
                    assert(exists|x: Seq<u8>| sk_valid(x) && encryption_key@ == gmul(x));
                    assert(false);
                }
                fill_random(&mut plain);
                fill_random_32(&mut child.seckey);
                fill_random_32(&mut blinding);
                return Err(from_elgamal_error(e));
            },
        };
        fill_random(&mut plain);
        fill_random_32(&mut child.seckey);
        fill_random_32(&mut blinding);
        let account = KeysAccount {
            xpubkey: child_pub,
            name,
            details,
            assets: dedup_assets(&assets),
            encrypted,
            unblinding,
        };
        proof {
            if sk_valid(d0) && account_decryptable(self@, d0) {
                lemma_eg_round_trip(xpriv_encode(childv), mulp(gmul(bv), d0));
                assert(account@.unblinding == gmul(bv));
                assert(account_xpriv_pred(account@, d0, childv));
                assert(account_decryptable(account@, d0));
                lemma_account_key_pairing(account@, d0);
                lemma_account_xpriv_unique(account@, d0, childv, account_xpriv(account@, d0));
                let m = account_xpriv(self@, d0);
                if all_unhardened(path@) {
                    assert(self@.xpubkey.pubkey == gmul(m.seckey));
                    assert(self@.xpubkey.chain_code == m.chain_code);
                }
            }
        }
        Ok(account)
    }

    /// Signs a 32-byte digest with the account's decrypted private key using
    /// deterministic ECDSA, wiping the key before returning.
    pub fn sign_digest(&self, digest: &[u8; 32], decryption_key: &mut [u8; 32]) -> (r: Result<
        Vec<u8>,
        Error,
    >)
        ensures
            sk_valid(old(decryption_key)@) && account_decryptable(self@, old(decryption_key)@)
                ==> (r matches Ok(s) && s@ == ecdsa_der(
                digest@,
                account_xpriv(self@, old(decryption_key)@).seckey,
            )),
            r matches Err(e) ==> (e == Error::PrivkeyGeneration || e == Error::SecretKeyCorrupted
                || e == Error::GroupOverflow || e == Error::NotEnoughMemory || e
                == Error::Secp256k1Broken),
    {
        let mut xk = match self.xprivkey(decryption_key) {
            Ok(x) => x,
            Err(e) => {
                return Err(e);
            },
        };
        let signed = ecdsa_sign(digest, &xk.seckey);
        fill_random_32(&mut xk.seckey);
        match signed {
            Ok(s) => Ok(s),
            Err(_) => Err(Error::Secp256k1Broken),
        }
    }

    /// Updates name, details and the asset list.  The asset-list change
    /// follows the update mode; name and details are applied first, as
    /// documented by [`account_update_post`].
    pub fn update(
        &mut self,
        name: Option<String>,
        details: Option<String>,
        assets: Option<Vec<AssetId>>,
        update_mode: UpdateMode,
    ) -> (r: Result<usize, Error>)
        requires
            account_wf(old(self)@),
        ensures
            account_wf(final(self)@),
            account_update_post(old(self)@, final(self)@, name, details, assets, update_mode, r),
    {
        if name.is_none() && details.is_none() && assets.is_none() {
            return Err(Error::NoOp);
        }
        match name {
            Some(n) => {
                self.name = n;
            },
            None => {},
        }
        match details {
            Some(d) => {
                self.details = d;
            },
            None => {},
        }
        let ghost olda = old(self)@;
        match assets {
            Some(list) => {
                match update_mode {
                    UpdateMode::Add => {
                        let ghost pre = self.assets@;
                        add_assets(&mut self.assets, &list);
                        proof {
                            assert(olda.assets =~= asset_views(pre));
                            assert(asset_views(self.assets@).take(pre.len() as int)
                                =~= asset_views(self.assets@.take(pre.len() as int)));
                            assert(asset_views(self.assets@.take(pre.len() as int)) == asset_views(
                                pre,
                            ));
                        }
                        Ok(list.len())
                    },
                    UpdateMode::Replace => {
                        let count = if list.len() <= usize::MAX - self.assets.len() {
                            self.assets.len() + list.len()
                        } else {
                            usize::MAX
                        };
                        self.assets = dedup_assets(&list);
                        Ok(count)
                    },
                    UpdateMode::RemoveIgnore => {
                        let kept = assets_difference(&self.assets, &list);
                        let count = self.assets.len() - kept.len();
                        self.assets = kept;
                        Ok(count)
                    },
                    UpdateMode::RemoveOrFail => {
                        let missing = assets_difference(&list, &self.assets);
                        if missing.len() > 0 {
                            proof {
                                let w = asset_views(missing@)[0];
                                assert(contains_asset(asset_views(missing@), w));
                                assert(contains_asset(asset_views(list@), w) && !contains_asset(
                                    olda.assets,
                                    w,
                                ));
                            }
                            return Err(Error::AssetIds(missing));
                        }
                        proof {
                            assert forall|a: Seq<u8>|
                                contains_asset(asset_views(list@), a) implies contains_asset(
                                olda.assets,
                                a,
                            ) by {
                                if !contains_asset(olda.assets, a) {
                                    assert(contains_asset(asset_views(missing@), a));
                                }
                            }
                        }
                        let kept = assets_difference(&self.assets, &list);
                        let count = self.assets.len() - kept.len();
                        self.assets = kept;
                        Ok(count)
                    },
                }
            },
            None => Ok(0),
        }
    }

    /// Copies the account.
    pub fn clone_account(&self) -> (r: KeysAccount)
        ensures
            r@ == self@,
    {
        let r = KeysAccount {
            xpubkey: self.xpubkey,
            name: clone_string(&self.name),
            details: clone_string(&self.details),
            assets: clone_assets(&self.assets),
            encrypted: crate::bytes::sub_vec(&self.encrypted, 0, self.encrypted.len()),
            unblinding: self.unblinding,
        };
        proof {
            assert(self.encrypted@.subrange(0, self.encrypted@.len() as int) =~= self.encrypted@);
            assert(r@ =~= self@);
        }
        r
    }
}

/// Where a keyring's master came from: the parent fingerprint and the
/// derivation path below it.
#[derive(Debug)]
pub struct KeySource {
    pub fingerprint: [u8; 4],
    pub path: Vec<u32>,
}

/// The mathematical content of a [`KeySource`].
#[verifier::ext_equal]
pub ghost struct KeySourceView {
    pub fingerprint: Seq<u8>,
    pub path: Seq<u32>,
}

impl View for KeySource {
    type V = KeySourceView;

    open spec fn view(&self) -> KeySourceView {
        KeySourceView { fingerprint: self.fingerprint@, path: self.path@ }
    }
}

impl KeySource {
    /// Copies the key source.
    pub fn clone_source(&self) -> (r: KeySource)
        ensures
            r@ == self@,
    {
        KeySource { fingerprint: self.fingerprint, path: clone_path(&self.path) }
    }
}

/// A keyring: a master account, its optional origin, and the sub-accounts
/// derived below the master, addressed by absolute derivation paths.
pub struct Keyring {
    pub master_account: KeysAccount,
    pub key_source: Option<KeySource>,
    pub sub_accounts: Vec<(Vec<u32>, KeysAccount)>,
}

/// The mathematical content of a [`Keyring`].
#[verifier::ext_equal]
pub ghost struct KeyringView {
    pub master_account: KeysAccountView,
    pub key_source: Option<KeySourceView>,
    pub sub_accounts: Seq<(Seq<u32>, KeysAccountView)>,
}

/// The views of the path-to-account pairs.
pub open spec fn sub_views(s: Seq<(Vec<u32>, KeysAccount)>) -> Seq<(Seq<u32>, KeysAccountView)> {
    s.map_values(|p: (Vec<u32>, KeysAccount)| (p.0@, p.1@))
}

impl View for Keyring {
    type V = KeyringView;

    open spec fn view(&self) -> KeyringView {
        KeyringView {
            master_account: self.master_account@,
            key_source: match self.key_source {
                Some(ks) => Some(ks@),
                None => None,
            },
            sub_accounts: sub_views(self.sub_accounts@),
        }
    }
}

/// Whether the path is used by a sub-account.
pub open spec fn has_path(v: KeyringView, path: Seq<u32>) -> bool {
    exists|i: int| 0 <= i < v.sub_accounts.len() && v.sub_accounts[i].0 == path
}

/// Well-formedness of a keyring: the master and every sub-account are
/// well-formed, no sub-account sits on the master's empty path, and no two
/// share a path.
pub open spec fn keyring_wf(v: KeyringView) -> bool {
    &&& account_wf(v.master_account)
    &&& (forall|i: int| 0 <= i < v.sub_accounts.len() ==> account_wf(
        #[trigger] v.sub_accounts[i].1,
    ))
    &&& (forall|i: int| 0 <= i < v.sub_accounts.len() ==> (#[trigger] v.sub_accounts[i].0).len()
        > 0)
    &&& (forall|i: int, j: int|
        0 <= i < j < v.sub_accounts.len() ==> v.sub_accounts[i].0 != v.sub_accounts[j].0)
}

/// The first account whose extended public key has the given identifier,
/// among the sub-accounts in storage order.
pub open spec fn find_sub(s: Seq<(Seq<u32>, KeysAccountView)>, id: Seq<u8>) -> Option<
    KeysAccountView,
>
    decreases s.len(),
{
    if s.len() == 0 {
        None
    } else if xpub_id_of(s[0].1.xpubkey) == id {
        Some(s[0].1)
    } else {
        find_sub(s.drop_first(), id)
    }
}

/// The account the keyring answers for an identifier: the master first, then
/// the sub-accounts in order.
pub open spec fn keyring_find(v: KeyringView, id: Seq<u8>) -> Option<KeysAccountView> {
    if xpub_id_of(v.master_account.xpubkey) == id {
        Some(v.master_account)
    } else {
        find_sub(v.sub_accounts, id)
    }
}

/// The search answers the first matching index.
proof fn lemma_find_sub_at(s: Seq<(Seq<u32>, KeysAccountView)>, id: Seq<u8>, i: int)
    requires
        0 <= i < s.len(),
        forall|t: int| 0 <= t < i ==> xpub_id_of(#[trigger] s[t].1.xpubkey) != id,
        xpub_id_of(s[i].1.xpubkey) == id,
    ensures
        find_sub(s, id) == Some(s[i].1),
    decreases i,
{
    if i > 0 {
        assert(forall|t: int|
            0 <= t < i - 1 ==> s.drop_first()[t] == s[t + 1] && xpub_id_of(
                #[trigger] s.drop_first()[t].1.xpubkey,
            ) != id);
        lemma_find_sub_at(s.drop_first(), id, i - 1);
    }
}

/// With no matching index the search answers nothing.
proof fn lemma_find_sub_none(s: Seq<(Seq<u32>, KeysAccountView)>, id: Seq<u8>)
    requires
        forall|t: int| 0 <= t < s.len() ==> xpub_id_of(#[trigger] s[t].1.xpubkey) != id,
    ensures
        find_sub(s, id) is None,
    decreases s.len(),
{
    if s.len() > 0 {
        assert(forall|t: int|
            0 <= t < s.len() - 1 ==> s.drop_first()[t] == s[t + 1] && xpub_id_of(
                #[trigger] s.drop_first()[t].1.xpubkey,
            ) != id);
        lemma_find_sub_none(s.drop_first(), id);
    }
}

/// One step of the ancestor search: the candidate replaces the best so far
/// when its path is a strict prefix of the target and longer than the best's.
pub open spec fn anc_step(
    best: (Seq<u32>, KeysAccountView),
    cand: (Seq<u32>, KeysAccountView),
    target: Seq<u32>,
) -> (Seq<u32>, KeysAccountView) {
    if strict_prefix_of(cand.0, target) && cand.0.len() > best.0.len() {
        cand
    } else {
        best
    }
}

/// The nearest ancestor of `target` among the candidates, starting from
/// `best` (ultimately the master at the empty path): the account whose path
/// is the longest strict prefix of the target.
pub open spec fn best_anc(
    s: Seq<(Seq<u32>, KeysAccountView)>,
    target: Seq<u32>,
    best: (Seq<u32>, KeysAccountView),
) -> (Seq<u32>, KeysAccountView)
    decreases s.len(),
{
    if s.len() == 0 {
        best
    } else {
        best_anc(s.drop_first(), target, anc_step(best, s[0], target))
    }
}

/// The ancestor account the keyring derives a new path from, and its path.
pub open spec fn ancestor_of(v: KeyringView, target: Seq<u32>) -> (Seq<u32>, KeysAccountView) {
    best_anc(v.sub_accounts, target, (Seq::empty(), v.master_account))
}

/// Unrolls the ancestor search at the back.
proof fn lemma_best_anc_push(
    s: Seq<(Seq<u32>, KeysAccountView)>,
    x: (Seq<u32>, KeysAccountView),
    target: Seq<u32>,
    best: (Seq<u32>, KeysAccountView),
)
    ensures
        best_anc(s.push(x), target, best) == anc_step(best_anc(s, target, best), x, target),
    decreases s.len(),
{
    if s.len() == 0 {
        assert(s.push(x).drop_first() =~= s);
        assert(s.push(x)[0] == x);
        assert(best_anc(s.push(x), target, best) == best_anc(s, target, anc_step(best, x, target)));
    } else {
        assert(s.push(x).drop_first() =~= s.drop_first().push(x));
        assert(s.push(x)[0] == s[0]);
        lemma_best_anc_push(s.drop_first(), x, target, anc_step(best, s[0], target));
    }
}

impl Keyring {
    /// Creates a keyring with a fresh master account and no sub-accounts.
    pub fn with(
        name: String,
        details: String,
        chain: Chain,
        application: KeyApplication,
        key_source: Option<KeySource>,
        encryption_key: &[u8; 33],
    ) -> (r: Result<Keyring, Error>)
        ensures
            r matches Ok(k) ==> keyring_wf(k@) && account_fresh(
                k@.master_account,
                chain,
                application,
                encryption_key@,
            ) && k@.master_account.name == name@ && k@.master_account.details == details@
                && k@.master_account.assets.len() == 0 && k@.sub_accounts.len() == 0 && k@.key_source
                == (match key_source {
                Some(ks) => Some(ks@),
                None => None::<KeySourceView>,
            }),
            r matches Err(e) ==> (e == Error::PrivkeyGeneration || e == Error::GroupOverflow || e
                == Error::Secp256k1Broken),
    {
        let master_account = match KeysAccount::with(
            name,
            details,
            Vec::new(),
            chain,
            application,
            encryption_key,
        ) {
            Ok(a) => a,
            Err(e) => {
                return Err(e);
            },
        };
        proof {
            assert(asset_views(Seq::<AssetId>::empty()) =~= Seq::<Seq<u8>>::empty());
        }
        let k = Keyring { master_account, key_source, sub_accounts: Vec::new() };
        proof {
            if k@.master_account.assets.len() > 0 {
                assert(contains_asset(k@.master_account.assets, k@.master_account.assets[0]));
            }
        }
        Ok(k)
    }

    /// The keyring's name: its master account's name.
    pub fn name(&self) -> (r: &String)
        ensures
            r@ == self@.master_account.name,
    {
        &self.master_account.name
    }

    /// The keyring's details: its master account's details.
    pub fn details(&self) -> (r: &String)
        ensures
            r@ == self@.master_account.details,
    {
        &self.master_account.details
    }

    /// The identifier of the master's extended public key.
    pub fn identifier(&self) -> (r: Vec<u8>)
        ensures
            r@ == xpub_id_of(self@.master_account.xpubkey),
            r@.len() == 20,
    {
        self.master_account.identifier()
    }

    /// The fingerprint of the master's extended public key.
    pub fn fingerprint(&self) -> (r: [u8; 4])
        ensures
            r@ == xpub_fingerprint_of(self@.master_account.xpubkey),
    {
        self.master_account.fingerprint()
    }

    /// The master's extended public key.
    pub fn master_xpubkey(&self) -> (r: &XPub)
        ensures
            r@ == self@.master_account.xpubkey,
    {
        &self.master_account.xpubkey
    }

    /// The account with the given key identifier: the master first, then the
    /// sub-accounts in order.
    pub fn account_by_id(&self, key_id: &Vec<u8>) -> (r: Option<&KeysAccount>)
        ensures
            r matches Some(a) ==> keyring_find(self@, key_id@) == Some(a@),
            r is Some <==> keyring_find(self@, key_id@) is Some,
    {
        let master_id = self.master_account.identifier();
        if bytes_eq(master_id.as_slice(), key_id.as_slice()) {
            return Some(&self.master_account);
        }
        let mut i: usize = 0;
        while i < self.sub_accounts.len()
            invariant
                i <= self.sub_accounts@.len(),
                xpub_id_of(self@.master_account.xpubkey) != key_id@,
                forall|t: int|
                    0 <= t < i ==> xpub_id_of(
                        #[trigger] sub_views(self.sub_accounts@)[t].1.xpubkey,
                    ) != key_id@,
            decreases self.sub_accounts@.len() - i,
        {
            let id = self.sub_accounts[i].1.identifier();
            if bytes_eq(id.as_slice(), key_id.as_slice()) {
                proof {
                    lemma_find_sub_at(sub_views(self.sub_accounts@), key_id@, i as int);
                }
                return Some(&self.sub_accounts[i].1);
            }
            i = i + 1;
        }
        proof {
            lemma_find_sub_none(sub_views(self.sub_accounts@), key_id@);
        }
        None
    }

    /// Creates a sub-account at the absolute `path`: rejects a used path,
    /// finds the nearest existing ancestor, derives the remaining steps from
    /// it, and appends the result.  Returns the new account.
    pub fn create_account(
        &mut self,
        path: Vec<u32>,
        name: String,
        details: String,
        assets: Vec<AssetId>,
        decryption_key: &mut [u8; 32],
    ) -> (r: Result<KeysAccount, Error>)
        requires
            keyring_wf(old(self)@),
        ensures
            keyring_wf(final(self)@),
            (path@.len() == 0 || has_path(old(self)@, path@)) <==> r == Err::<KeysAccount, Error>(
                Error::DerivationAlreadyUsed,
            ),
            r matches Err(e) ==> final(self)@ == old(self)@,
            r matches Err(e) ==> (e == Error::DerivationAlreadyUsed || e
                == Error::PrivkeyGeneration || e == Error::SecretKeyCorrupted || e
                == Error::GroupOverflow || e == Error::NotEnoughMemory || e
                == Error::Secp256k1Broken || e == Error::InvalidDerivationPath || e
                == Error::ResolverFailure),
            r matches Ok(a) ==> {
                &&& final(self)@.master_account == old(self)@.master_account
                &&& final(self)@.key_source == old(self)@.key_source
                &&& final(self)@.sub_accounts == old(self)@.sub_accounts.push((path@, a@))
                &&& account_wf(a@)
                &&& a@.name == name@
                &&& a@.details == details@
                &&& (forall|x: Seq<u8>| contains_asset(a@.assets, x) == contains_asset(
                    asset_views(assets@),
                    x,
                ))
                &&& {
                    let (apath, aacc) = ancestor_of(old(self)@, path@);
                    let rel = path@.skip(apath.len() as int);
                    sk_valid(old(decryption_key)@) && account_decryptable(
                        aacc,
                        old(decryption_key)@,
                    ) ==> {
                        let m = account_xpriv(aacc, old(decryption_key)@);
                        &&& derive_ok(m, rel)
                        &&& neuter_of(derive_priv(m, rel)) == Some(a@.xpubkey)
                        &&& account_decryptable(a@, old(decryption_key)@)
                        &&& account_xpriv(a@, old(decryption_key)@) == derive_priv(m, rel)
                        &&& (all_unhardened(rel) ==> a@.xpubkey.pubkey == pub_derive_pk(
                            aacc.xpubkey.pubkey,
                            aacc.xpubkey.chain_code,
                            rel,
                        ))
                    }
                }
            },
            ({
                let (apath, aacc) = ancestor_of(old(self)@, path@);
                let rel = path@.skip(apath.len() as int);
                path@.len() > 0 && !has_path(old(self)@, path@) && sk_valid(old(decryption_key)@)
                    && account_decryptable(aacc, old(decryption_key)@) && derive_ok(
                    account_xpriv(aacc, old(decryption_key)@),
                    rel,
                ) ==> (r matches Ok(_) || r == Err::<KeysAccount, Error>(Error::PrivkeyGeneration))
            }),
    {
        if path.len() == 0 {
            return Err(Error::DerivationAlreadyUsed);
        }
        // Reject a used path
        let mut i: usize = 0;
        while i < self.sub_accounts.len()
            invariant
                i <= self.sub_accounts@.len(),
                self@ == old(self)@,
                keyring_wf(self@),
                forall|t: int| 0 <= t < i ==> #[trigger] sub_views(self.sub_accounts@)[t].0
                    != path@,
            decreases self.sub_accounts@.len() - i,
        {
            if paths_eq(&self.sub_accounts[i].0, &path) {
                proof {
                    assert(sub_views(self.sub_accounts@)[i as int].0 == path@);
                }
                return Err(Error::DerivationAlreadyUsed);
            }
            i = i + 1;
        }
        proof {
            assert(!has_path(self@, path@));
        }
        // Find the nearest ancestor: the longest strict prefix of the target
        let mut best_idx: usize = 0;
        let mut best_is_master: bool = true;
        let mut best_len: usize = 0;
        let ghost subs = sub_views(self.sub_accounts@);
        let ghost master_best = (Seq::<u32>::empty(), self@.master_account);
        let mut j: usize = 0;
        proof {
            assert(strict_prefix_of(Seq::<u32>::empty(), path@)) by {
                assert(Seq::<u32>::empty() =~= path@.take(0));
            }
        }
        while j < self.sub_accounts.len()
            invariant
                j <= self.sub_accounts@.len(),
                self@ == old(self)@,
                keyring_wf(self@),
                path@.len() > 0,
                !has_path(self@, path@),
                best_len <= path@.len(),
                subs == sub_views(self.sub_accounts@),
                master_best == (Seq::<u32>::empty(), self@.master_account),
                best_is_master ==> best_anc(subs.take(j as int), path@, master_best) == master_best
                    && best_len == 0,
                !best_is_master ==> 0 <= best_idx < self.sub_accounts@.len() && best_anc(
                    subs.take(j as int),
                    path@,
                    master_best,
                ) == subs[best_idx as int] && best_len == subs[best_idx as int].0.len(),
            decreases self.sub_accounts@.len() - j,
    {
            let cand_len = self.sub_accounts[j].0.len();
            let is_pref = is_strict_prefix(&self.sub_accounts[j].0, &path);
            proof {
                assert(subs.take(j as int + 1) =~= subs.take(j as int).push(subs[j as int]));
                lemma_best_anc_push(subs.take(j as int), subs[j as int], path@, master_best);
            }
            if is_pref && cand_len > best_len {
                best_idx = j;
                best_is_master = false;
                best_len = cand_len;
            }
            j = j + 1;
        }
        proof {
            assert(subs.take(subs.len() as int) =~= subs);
        }
        let rel = path_suffix(&path, best_len);
        let derived = if best_is_master {
            self.master_account.derive(&rel, name, details, assets, decryption_key)
        } else {
            self.sub_accounts[best_idx].1.derive(&rel, name, details, assets, decryption_key)
        };
        let account = match derived {
            Ok(a) => a,
            Err(e) => {
                return Err(e);
            },
        };
        let ghost presubs = subs;
        let stored = account.clone_account();
        self.sub_accounts.push((path, stored));
        proof {
            assert(sub_views(self.sub_accounts@) =~= presubs.push((path@, account@)));
            assert(self@.sub_accounts =~= old(self)@.sub_accounts.push((path@, account@)));
            let ns = self@.sub_accounts;
            assert forall|x: int, y: int| 0 <= x < y < ns.len() implies ns[x].0 != ns[y].0 by {
                if y == ns.len() - 1 {
                    assert(ns[x] == presubs[x]);
                    assert(presubs[x].0 != path@);
                }
            }
            assert forall|x: int| 0 <= x < ns.len() implies account_wf(#[trigger] ns[x].1)
                && ns[x].0.len() > 0 by {
                if x < ns.len() - 1 {
                    assert(ns[x] == presubs[x]);
                }
            }
        }
        Ok(account)
    }

    /// Updates the name and details of the keyring's master account.
    pub fn update_master(&mut self, name: Option<String>, details: Option<String>) -> (r: Result<
        (),
        Error,
    >)
        requires
            keyring_wf(old(self)@),
        ensures
            keyring_wf(final(self)@),
            final(self)@.sub_accounts == old(self)@.sub_accounts,
            final(self)@.key_source == old(self)@.key_source,
            (name is None && details is None) <==> r == Err::<(), Error>(Error::NoOp),
            r is Ok <==> !(name is None && details is None),
            account_update_post(
                old(self)@.master_account,
                final(self)@.master_account,
                name,
                details,
                None,
                UpdateMode::Add,
                if r is Ok {
                    Ok(0)
                } else {
                    Err(Error::NoOp)
                },
            ),
    {
        let r = match self.master_account.update(name, details, None, UpdateMode::Add) {
            Ok(_) => Ok(()),
            Err(e) => Err(e),
        };
        proof {
            assert(account_wf(self@.master_account));
            assert(self@.sub_accounts =~= old(self)@.sub_accounts);
        }
        r
    }

    /// Updates the sub-account at the given path; the master's empty path is
    /// rejected.
    pub fn update_subaccount(
        &mut self,
        path: &Vec<u32>,
        name: Option<String>,
        details: Option<String>,
        assets: Option<Vec<AssetId>>,
        update_mode: UpdateMode,
    ) -> (r: Result<usize, Error>)
        requires
            keyring_wf(old(self)@),
        ensures
            keyring_wf(final(self)@),
            final(self)@.master_account == old(self)@.master_account,
            final(self)@.key_source == old(self)@.key_source,
            path@.len() == 0 ==> r == Err::<usize, Error>(Error::MasterAccount) && final(self)@
                == old(self)@,
            path@.len() > 0 && !has_path(old(self)@, path@) ==> r == Err::<usize, Error>(
                Error::NotFound,
            ) && final(self)@ == old(self)@,
            path@.len() > 0 && has_path(old(self)@, path@) ==> exists|j: int|
                {
                    &&& 0 <= j < old(self)@.sub_accounts.len()
                    &&& old(self)@.sub_accounts[j].0 == path@
                    &&& final(self)@.sub_accounts == old(self)@.sub_accounts.update(
                        j,
                        (path@, final(self)@.sub_accounts[j].1),
                    )
                    &&& account_update_post(
                        old(self)@.sub_accounts[j].1,
                        #[trigger] final(self)@.sub_accounts[j].1,
                        name,
                        details,
                        assets,
                        update_mode,
                        r,
                    )
                },
    {
        if path.len() == 0 {
            return Err(Error::MasterAccount);
        }
        let mut i: usize = 0;
        while i < self.sub_accounts.len()
            invariant
                i <= self.sub_accounts@.len(),
                self@ == old(self)@,
                keyring_wf(self@),
                path@.len() > 0,
                forall|t: int| 0 <= t < i ==> #[trigger] sub_views(self.sub_accounts@)[t].0
                    != path@,
            decreases self.sub_accounts@.len() - i,
        {
            if paths_eq(&self.sub_accounts[i].0, path) {
                let ghost pre = self@;
                let ghost j = i as int;
                proof {
                    assert(pre.sub_accounts[j].0 == path@);
                    assert(has_path(pre, path@));
                    assert(account_wf(pre.sub_accounts[j].1));
                }
                let account = &mut self.sub_accounts[i].1;
                let r = account.update(name, details, assets, update_mode);
                proof {
                    assert(self@.sub_accounts =~= pre.sub_accounts.update(
                        j,
                        (path@, self@.sub_accounts[j].1),
                    ));
                    assert forall|t: int| 0 <= t < self@.sub_accounts.len() implies account_wf(
                        #[trigger] self@.sub_accounts[t].1,
                    ) && self@.sub_accounts[t].0.len() > 0 by {
                        if t != j {
                            assert(self@.sub_accounts[t] == pre.sub_accounts[t]);
                        }
                    }
                    assert forall|x: int, y: int|
                        0 <= x < y < self@.sub_accounts.len() implies self@.sub_accounts[x].0
                        != self@.sub_accounts[y].0 by {
                        assert(self@.sub_accounts[x].0 == pre.sub_accounts[x].0);
                        assert(self@.sub_accounts[y].0 == pre.sub_accounts[y].0);
                    }
                }
                return r;
            }
            i = i + 1;
        }
        proof {
            if has_path(self@, path@) {
                let w = choose|w: int|
                    0 <= w < self@.sub_accounts.len() && self@.sub_accounts[w].0 == path@;
                assert(sub_views(self.sub_accounts@)[w].0 == path@);
                assert(false);
            }
        }
        Err(Error::NotFound)
    }
}

} // verus!
