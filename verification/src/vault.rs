//! The vault: the keyring set behind the service's public surface.  It owns
//! every keyring in memory, answers lookups by key identifier, creates
//! keyrings from fresh seeds, derives sub-accounts, exports keys and signs.
//! Persistence goes through the canonical codec of the driver module: the
//! embedding program reads and writes the configured backing store and is
//! expected to store the payload after every mutating call.

use vstd::prelude::*;

use crate::assets::AssetId;
use crate::bip32::{derive_ok, derive_priv, neuter_of, xpub_fingerprint_of, xpub_id_of, XPriv, XPub};
use crate::bytes::{bytes_eq, sk_valid, to_array_32};
use crate::driver::{decode_keyrings, enc_keyrings, encode_keyrings, keyring_views};
use crate::entropy::fill_random_32;
use crate::hashes::{sha256, sha256_of};
use crate::keymgm::{
    account_decryptable, account_fresh, account_wf, account_xpriv, ancestor_of, keyring_find,
    keyring_wf, Error, KeySource, KeySourceView, Keyring, KeyringView, KeysAccount,
    KeysAccountView,
};
use crate::error::RuntimeError;
use crate::psbt::{legacy_sighash, legacy_sighash_of, HintView, Psbt, PsbtInput, PsbtInputView, PsbtView};
use crate::rpc::{info_of_account, AccountInfo, AccountInfoView};
use crate::secp::ecdsa_der;
use crate::slip132::{Chain, KeyApplication};

verus! {

/// Well-formedness of the vault: every keyring is well-formed and no two
/// keyrings share a master identifier.
pub open spec fn vault_wf(s: Seq<KeyringView>) -> bool {
    &&& (forall|i: int| 0 <= i < s.len() ==> keyring_wf(#[trigger] s[i]))
    &&& (forall|i: int, j: int|
        0 <= i < j < s.len() ==> xpub_id_of(s[i].master_account.xpubkey) != xpub_id_of(
            s[j].master_account.xpubkey,
        ))
}

/// The first keyring whose master has the given identifier.
pub open spec fn vault_keyring_find(s: Seq<KeyringView>, id: Seq<u8>) -> Option<KeyringView>
    decreases s.len(),
{
    if s.len() == 0 {
        None
    } else if xpub_id_of(s[0].master_account.xpubkey) == id {
        Some(s[0])
    } else {
        vault_keyring_find(s.drop_first(), id)
    }
}

/// The first account any keyring answers for the identifier, keyrings in
/// order, master before sub-accounts.
pub open spec fn vault_account_find(s: Seq<KeyringView>, id: Seq<u8>) -> Option<KeysAccountView>
    decreases s.len(),
{
    if s.len() == 0 {
        None
    } else {
        match keyring_find(s[0], id) {
            Some(a) => Some(a),
            None => vault_account_find(s.drop_first(), id),
        }
    }
}

/// The keyring search answers the first matching index.
pub proof fn lemma_vault_keyring_find_at(s: Seq<KeyringView>, id: Seq<u8>, i: int)
    requires
        0 <= i < s.len(),
        forall|t: int| 0 <= t < i ==> xpub_id_of((#[trigger] s[t]).master_account.xpubkey) != id,
        xpub_id_of(s[i].master_account.xpubkey) == id,
    ensures
        vault_keyring_find(s, id) == Some(s[i]),
    decreases i,
{
    if i > 0 {
        assert(forall|t: int|
            0 <= t < i - 1 ==> s.drop_first()[t] == s[t + 1] && xpub_id_of(
                (#[trigger] s.drop_first()[t]).master_account.xpubkey,
            ) != id);
        lemma_vault_keyring_find_at(s.drop_first(), id, i - 1);
    }
}

/// With no matching master the keyring search answers nothing.
pub proof fn lemma_vault_keyring_find_none(s: Seq<KeyringView>, id: Seq<u8>)
    requires
        forall|t: int| 0 <= t < s.len() ==> xpub_id_of((#[trigger] s[t]).master_account.xpubkey)
            != id,
    ensures
        vault_keyring_find(s, id) is None,
    decreases s.len(),
{
    if s.len() > 0 {
        assert(forall|t: int|
            0 <= t < s.len() - 1 ==> s.drop_first()[t] == s[t + 1] && xpub_id_of(
                (#[trigger] s.drop_first()[t]).master_account.xpubkey,
            ) != id);
        lemma_vault_keyring_find_none(s.drop_first(), id);
    }
}

/// The position of the keyring whose master has the given identifier;
/// meaningful when the vault holds one, unique when the vault is
/// well-formed.
pub open spec fn vault_keyring_index(s: Seq<KeyringView>, id: Seq<u8>) -> int {
    choose|j: int| 0 <= j < s.len() && xpub_id_of(s[j].master_account.xpubkey) == id
}

/// In a well-formed vault the index of a master identifier is unique.
pub proof fn lemma_vault_keyring_index_unique(s: Seq<KeyringView>, id: Seq<u8>, i: int)
    requires
        vault_wf(s),
        0 <= i < s.len(),
        xpub_id_of(s[i].master_account.xpubkey) == id,
    ensures
        vault_keyring_index(s, id) == i,
{
    let j = vault_keyring_index(s, id);
    assert(0 <= j < s.len() && xpub_id_of(s[j].master_account.xpubkey) == id);
    if j != i {
        if j < i {
            assert(xpub_id_of(s[j].master_account.xpubkey) != xpub_id_of(
                s[i].master_account.xpubkey,
            ));
        } else {
            assert(xpub_id_of(s[i].master_account.xpubkey) != xpub_id_of(
                s[j].master_account.xpubkey,
            ));
        }
    }
}

/// The account search answers the first keyring that finds the identifier.
pub proof fn lemma_vault_account_find_at(s: Seq<KeyringView>, id: Seq<u8>, i: int)
    requires
        0 <= i < s.len(),
        forall|t: int| 0 <= t < i ==> keyring_find(#[trigger] s[t], id) is None,
        keyring_find(s[i], id) is Some,
    ensures
        vault_account_find(s, id) == keyring_find(s[i], id),
    decreases i,
{
    if i > 0 {
        assert(forall|t: int|
            0 <= t < i - 1 ==> s.drop_first()[t] == s[t + 1] && keyring_find(
                #[trigger] s.drop_first()[t],
                id,
            ) is None);
        lemma_vault_account_find_at(s.drop_first(), id, i - 1);
    }
}

/// With no keyring finding the identifier the account search answers
/// nothing.
pub proof fn lemma_vault_account_find_none(s: Seq<KeyringView>, id: Seq<u8>)
    requires
        forall|t: int| 0 <= t < s.len() ==> keyring_find(#[trigger] s[t], id) is None,
    ensures
        vault_account_find(s, id) is None,
    decreases s.len(),
{
    if s.len() > 0 {
        assert(forall|t: int|
            0 <= t < s.len() - 1 ==> s.drop_first()[t] == s[t + 1] && keyring_find(
                #[trigger] s.drop_first()[t],
                id,
            ) is None);
        lemma_vault_account_find_none(s.drop_first(), id);
    }
}

/// The vault: every keyring, owned in memory.
pub struct Vault {
    pub keyrings: Vec<Keyring>,
}

impl View for Vault {
    type V = Seq<KeyringView>;

    open spec fn view(&self) -> Seq<KeyringView> {
        keyring_views(self.keyrings@)
    }
}

impl Vault {
    /// An empty vault, for a backing store created on first use.
    pub fn new_empty() -> (r: Vault)
        ensures
            r@.len() == 0,
            vault_wf(r@),
    {
        let v = Vault { keyrings: Vec::new() };
        proof {
            assert(v@ =~= Seq::<KeyringView>::empty());
        }
        v
    }

    /// Opens a vault from the canonical binary artifact.  Succeeds on exactly
    /// the artifacts that serialize a well-formed vault: only on one whose
    /// keyrings carry distinct master identifiers, and on every such one, with
    /// the opened vault serializing back to the very bytes given.
    pub fn open(data: &Vec<u8>) -> (r: Option<Vault>)
        ensures
            r matches Some(v) ==> vault_wf(v@) && enc_keyrings(v@) == data@,
            forall|s: Seq<KeyringView>|
                crate::driver::keyrings_codec_wf(s) && vault_wf(s) && #[trigger] enc_keyrings(s)
                    == data@ ==> (r matches Some(v) && v@ == s),
    {
        let keyrings = match decode_keyrings(data) {
            Some(ks) => ks,
            None => {
                proof {
                    assert forall|s: Seq<KeyringView>|
                        crate::driver::keyrings_codec_wf(s) && vault_wf(s) && #[trigger]
                        enc_keyrings(s) == data@ implies false by {}
                }
                return None;
            },
        };
        // Master identifiers must be pairwise distinct
        let mut i: usize = 0;
        while i < keyrings.len()
            invariant
                i <= keyrings@.len(),
                forall|s: Seq<KeyringView>|
                    crate::driver::keyrings_codec_wf(s) && #[trigger] enc_keyrings(s) == data@
                        ==> keyring_views(keyrings@) == s,
                forall|x: int, y: int|
                    0 <= x < y < keyring_views(keyrings@).len() && y < i ==> xpub_id_of(
                        keyring_views(keyrings@)[x].master_account.xpubkey,
                    ) != xpub_id_of(keyring_views(keyrings@)[y].master_account.xpubkey),
            decreases keyrings@.len() - i,
        {
            let id_i = keyrings[i].identifier();
            let mut j: usize = 0;
            while j < i
                invariant
                    j <= i < keyrings@.len(),
                    forall|s: Seq<KeyringView>|
                        crate::driver::keyrings_codec_wf(s) && #[trigger] enc_keyrings(s) == data@
                            ==> keyring_views(keyrings@) == s,
                    id_i@ == xpub_id_of(keyring_views(keyrings@)[i as int].master_account.xpubkey),
                    forall|x: int|
                        0 <= x < j ==> xpub_id_of(
                            keyring_views(keyrings@)[x].master_account.xpubkey,
                        ) != xpub_id_of(keyring_views(keyrings@)[i as int].master_account.xpubkey),
                decreases i - j,
            {
                let id_j = keyrings[j].identifier();
                if bytes_eq(id_j.as_slice(), id_i.as_slice()) {
                    proof {
                        assert forall|s: Seq<KeyringView>|
                            crate::driver::keyrings_codec_wf(s) && vault_wf(s) && #[trigger]
                            enc_keyrings(s) == data@ implies false by {
                            assert(keyring_views(keyrings@) == s);
                            assert(xpub_id_of(s[j as int].master_account.xpubkey) == xpub_id_of(
                                s[i as int].master_account.xpubkey,
                            ));
                        }
                    }
                    return None;
                }
                j = j + 1;
            }
            i = i + 1;
        }
        Some(Vault { keyrings })
    }

    /// The canonical binary artifact for the current keyring set: what the
    /// driver must hold after every mutation.
    pub fn store_payload(&self) -> (r: Vec<u8>)
        requires
            vault_wf(self@),
        ensures
            r@ == enc_keyrings(self@),
    {
        encode_keyrings(&self.keyrings)
    }

    /// The first keyring whose master identifier is `key_id`.
    pub fn keyring_by_id(&self, key_id: &Vec<u8>) -> (r: Option<&Keyring>)
        ensures
            r matches Some(k) ==> vault_keyring_find(self@, key_id@) == Some(k@),
            r is Some <==> vault_keyring_find(self@, key_id@) is Some,
    {
        let mut i: usize = 0;
        while i < self.keyrings.len()
            invariant
                i <= self.keyrings@.len(),
                forall|t: int|
                    0 <= t < i ==> xpub_id_of(
                        (#[trigger] keyring_views(self.keyrings@)[t]).master_account.xpubkey,
                    ) != key_id@,
            decreases self.keyrings@.len() - i,
        {
            let id = self.keyrings[i].identifier();
            if bytes_eq(id.as_slice(), key_id.as_slice()) {
                proof {
                    lemma_vault_keyring_find_at(self@, key_id@, i as int);
                }
                return Some(&self.keyrings[i]);
            }
            i = i + 1;
        }
        proof {
            lemma_vault_keyring_find_none(self@, key_id@);
        }
        None
    }

    /// The first account, in keyring order, with the given key identifier.
    pub fn account_by_id(&self, key_id: &Vec<u8>) -> (r: Option<&KeysAccount>)
        ensures
            r matches Some(a) ==> vault_account_find(self@, key_id@) == Some(a@),
            r is Some <==> vault_account_find(self@, key_id@) is Some,
    {
        let mut i: usize = 0;
        while i < self.keyrings.len()
            invariant
                i <= self.keyrings@.len(),
                forall|t: int| 0 <= t < i ==> keyring_find(
                    #[trigger] keyring_views(self.keyrings@)[t],
                    key_id@,
                ) is None,
            decreases self.keyrings@.len() - i,
        {
            match self.keyrings[i].account_by_id(key_id) {
                Some(a) => {
                    proof {
                        lemma_vault_account_find_at(self@, key_id@, i as int);
                    }
                    return Some(a);
                },
                None => {},
            }
            i = i + 1;
        }
        proof {
            lemma_vault_account_find_none(self@, key_id@);
        }
        None
    }

    /// Creates a new keyring from a fresh seed and appends it.  The caller
    /// must persist the store payload afterwards.
    pub fn seed(
        &mut self,
        name: String,
        description: Option<String>,
        chain: Chain,
        application: KeyApplication,
        encryption_key: &[u8; 33],
    ) -> (r: Result<(), Error>)
        requires
            vault_wf(old(self)@),
        ensures
            vault_wf(final(self)@),
            r is Err ==> final(self)@ == old(self)@,
            r matches Err(e) ==> (e == Error::PrivkeyGeneration || e == Error::GroupOverflow || e
                == Error::Secp256k1Broken),
            r is Ok ==> final(self)@.len() == old(self)@.len() + 1 && final(self)@.take(
                old(self)@.len() as int,
            ) == old(self)@ && {
                let k = final(self)@.last();
                &&& keyring_wf(k)
                &&& account_fresh(k.master_account, chain, application, encryption_key@)
                &&& k.master_account.name == name@
                &&& k.master_account.details == (match description {
                    Some(d) => d@,
                    None => Seq::<char>::empty(),
                })
                &&& k.sub_accounts.len() == 0
                &&& k.key_source is None
            },
    {
        let details = match description {
            Some(d) => d,
            None => crate::keymgm::empty_string(),
        };
        let keyring = match Keyring::with(name, details, chain, application, None, encryption_key) {
            Ok(k) => k,
            Err(e) => {
                return Err(e);
            },
        };
        // A fresh master colliding with a stored identifier has negligible
        // probability; report it as a retriable generation failure.
        let new_id = keyring.identifier();
        let mut i: usize = 0;
        while i < self.keyrings.len()
            invariant
                i <= self.keyrings@.len(),
                self@ == old(self)@,
                vault_wf(self@),
                new_id@ == xpub_id_of(keyring@.master_account.xpubkey),
                forall|t: int|
                    0 <= t < i ==> xpub_id_of(
                        (#[trigger] keyring_views(self.keyrings@)[t]).master_account.xpubkey,
                    ) != new_id@,
            decreases self.keyrings@.len() - i,
        {
            let id = self.keyrings[i].identifier();
            if bytes_eq(id.as_slice(), new_id.as_slice()) {
                return Err(Error::PrivkeyGeneration);
            }
            i = i + 1;
        }
        let ghost pre = self@;
        self.keyrings.push(keyring);
        proof {
            assert(self@ =~= pre.push(self.keyrings@.last()@));
            assert(final(self)@.take(old(self)@.len() as int) =~= pre);
            let ns = self@;
            assert forall|x: int, y: int|
                0 <= x < y < ns.len() implies xpub_id_of(ns[x].master_account.xpubkey)
                != xpub_id_of(ns[y].master_account.xpubkey) by {
                if y == ns.len() - 1 {
                    assert(ns[x] == pre[x]);
                } else {
                    assert(ns[x] == pre[x] && ns[y] == pre[y]);
                }
            }
            assert forall|x: int| 0 <= x < ns.len() implies keyring_wf(#[trigger] ns[x]) by {
                if x < ns.len() - 1 {
                    assert(ns[x] == pre[x]);
                }
            }
        }
        Ok(())
    }

    /// Derives a new sub-account in the keyring whose master identifier is
    /// `root`, and answers its description.  The caller must persist the
    /// store payload afterwards.
    pub fn derive(
        &mut self,
        root: &Vec<u8>,
        path: Vec<u32>,
        name: String,
        details: Option<String>,
        assets: Vec<AssetId>,
        decryption_key: &mut [u8; 32],
    ) -> (r: Result<AccountInfo, Error>)
        requires
            vault_wf(old(self)@),
        ensures
            vault_wf(final(self)@),
            r is Err ==> final(self)@ == old(self)@,
            vault_keyring_find(old(self)@, root@) is None <==> r == Err::<AccountInfo, Error>(
                Error::NotFound,
            ),
            r == Err::<AccountInfo, Error>(Error::DerivationAlreadyUsed) <==> (match
                vault_keyring_find(old(self)@, root@) {
                Some(k) => path@.len() == 0 || crate::keymgm::has_path(k, path@),
                None => false,
            }),
            (match vault_keyring_find(old(self)@, root@) {
                Some(k) => {
                    let (apath, aacc) = ancestor_of(k, path@);
                    let rel = path@.skip(apath.len() as int);
                    path@.len() > 0 && !crate::keymgm::has_path(k, path@) && sk_valid(
                        old(decryption_key)@,
                    ) && account_decryptable(aacc, old(decryption_key)@) && derive_ok(
                        account_xpriv(aacc, old(decryption_key)@),
                        rel,
                    ) ==> (r matches Ok(_) || r == Err::<AccountInfo, Error>(
                        Error::PrivkeyGeneration,
                    ))
                },
                None => true,
            }),
            r matches Ok(info) ==> {
                let j = vault_keyring_index(old(self)@, root@);
                let acc = final(self)@[j].sub_accounts.last().1;
                &&& 0 <= j < old(self)@.len()
                &&& xpub_id_of(old(self)@[j].master_account.xpubkey) == root@
                &&& final(self)@ == old(self)@.update(j, final(self)@[j])
                &&& final(self)@[j].master_account == old(self)@[j].master_account
                &&& final(self)@[j].key_source == old(self)@[j].key_source
                &&& final(self)@[j].sub_accounts == old(self)@[j].sub_accounts.push((path@, acc))
                &&& info@ == info_of_account(acc, None::<KeySourceView>)
                &&& account_wf(acc)
                &&& acc.name == name@
                &&& (sk_valid(old(decryption_key)@) && account_decryptable(
                    ancestor_of(old(self)@[j], path@).1,
                    old(decryption_key)@,
                ) ==> {
                    let m = account_xpriv(
                        ancestor_of(old(self)@[j], path@).1,
                        old(decryption_key)@,
                    );
                    let rel = path@.skip(ancestor_of(old(self)@[j], path@).0.len() as int);
                    &&& derive_ok(m, rel)
                    &&& neuter_of(derive_priv(m, rel)) == Some(acc.xpubkey)
                    &&& account_decryptable(acc, old(decryption_key)@)
                    &&& account_xpriv(acc, old(decryption_key)@) == derive_priv(m, rel)
                })
            },
    {
        let mut j: usize = 0;
        let n = self.keyrings.len();
        while j < n
            invariant
                j <= n,
                n == self.keyrings@.len(),
                self@ == old(self)@,
                vault_wf(self@),
                decryption_key@ == old(decryption_key)@,
                forall|t: int|
                    0 <= t < j ==> xpub_id_of(
                        (#[trigger] keyring_views(self.keyrings@)[t]).master_account.xpubkey,
                    ) != root@,
            decreases n - j,
        {
            let id = self.keyrings[j].identifier();
            if bytes_eq(id.as_slice(), root.as_slice()) {
                let ghost pre = self@;
                let ghost ji = j as int;
                proof {
                    lemma_vault_keyring_find_at(pre, root@, ji);
                    assert(keyring_wf(pre[ji]));
                }
                let keyring = &mut self.keyrings[j];
                let created = keyring.create_account(
                    path,
                    name,
                    match details {
                        Some(d) => d,
                        None => crate::keymgm::empty_string(),
                    },
                    assets,
                    decryption_key,
                );
                let account = match created {
                    Ok(a) => a,
                    Err(e) => {
                        proof {
                            assert(self@ =~= pre);
                        }
                        return Err(e);
                    },
                };
                let info = crate::rpc::account_info(&account, None);
                proof {
                    lemma_vault_keyring_index_unique(pre, root@, ji);
                    assert(self@ =~= pre.update(ji, self@[ji]));
                    assert(self@[ji].sub_accounts == pre[ji].sub_accounts.push((path@, account@)));
                    assert(self@[ji].sub_accounts.last().1 == account@);
                    assert(self@[ji].master_account == pre[ji].master_account);
                    assert(self@[ji].key_source == pre[ji].key_source);
                    assert(info@ == info_of_account(account@, None::<KeySourceView>));
                    assert(account_wf(account@));
                    if sk_valid(old(decryption_key)@) && account_decryptable(
                        ancestor_of(pre[ji], path@).1,
                        old(decryption_key)@,
                    ) {
                        let m = account_xpriv(ancestor_of(pre[ji], path@).1, old(decryption_key)@);
                        let rel = path@.skip(ancestor_of(pre[ji], path@).0.len() as int);
                        assert(derive_ok(m, rel));
                        assert(neuter_of(derive_priv(m, rel)) == Some(account@.xpubkey));
                        assert(account_decryptable(account@, old(decryption_key)@));
                    }
                    let ns = self@;
                    assert forall|x: int| 0 <= x < ns.len() implies keyring_wf(
                        #[trigger] ns[x],
                    ) by {
                        if x != ji {
                            assert(ns[x] == pre[x]);
                        }
                    }
                    assert forall|x: int, y: int|
                        0 <= x < y < ns.len() implies xpub_id_of(ns[x].master_account.xpubkey)
                        != xpub_id_of(ns[y].master_account.xpubkey) by {
                        assert(ns[x].master_account == pre[x].master_account);
                        assert(ns[y].master_account == pre[y].master_account);
                    }
                }
                return Ok(info);
            }
            j = j + 1;
        }
        proof {
            lemma_vault_keyring_find_none(self@, root@);
        }
        fill_random_32(decryption_key);
        Err(Error::NotFound)
    }

    /// The extended public key of the account with identifier `id`.
    pub fn xpub(&self, id: &Vec<u8>) -> (r: Result<XPub, Error>)
        ensures
            (match vault_account_find(self@, id@) {
                Some(a) => r matches Ok(x) && x@ == a.xpubkey,
                None => r == Err::<XPub, Error>(Error::NotFound),
            }),
    {
        match self.account_by_id(id) {
            Some(account) => Ok(account.xpubkey),
            None => Err(Error::NotFound),
        }
    }

    /// Decrypts and answers the extended private key of the account with
    /// identifier `id`; the decryption key is overwritten before returning,
    /// on every path.
    pub fn xpriv(&self, id: &Vec<u8>, decryption_key: &mut [u8; 32]) -> (r: Result<XPriv, Error>)
        ensures
            vault_account_find(self@, id@) is None <==> r == Err::<XPriv, Error>(Error::NotFound),
            (match vault_account_find(self@, id@) {
                Some(a) => sk_valid(old(decryption_key)@) && account_decryptable(
                    a,
                    old(decryption_key)@,
                ) ==> (r matches Ok(x) && x@ == account_xpriv(a, old(decryption_key)@)
                    && neuter_of(x@) == Some(a.xpubkey)),
                None => true,
            }),
    {
        match self.account_by_id(id) {
            Some(account) => account.xprivkey(decryption_key),
            None => {
                fill_random_32(decryption_key);
                Err(Error::NotFound)
            },
        }
    }

    /// Signs the SHA-256 of the 33-byte public key of account `id` with that
    /// account's private key; deterministic, so two calls agree.
    pub fn sign_key(&self, id: &Vec<u8>, decryption_key: &mut [u8; 32]) -> (r: Result<
        Vec<u8>,
        Error,
    >)
        ensures
            vault_account_find(self@, id@) is None <==> r == Err::<Vec<u8>, Error>(
                Error::NotFound,
            ),
            (match vault_account_find(self@, id@) {
                Some(a) => sk_valid(old(decryption_key)@) && account_decryptable(
                    a,
                    old(decryption_key)@,
                ) ==> (r matches Ok(s) && s@ == ecdsa_der(
                    sha256_of(a.xpubkey.pubkey),
                    account_xpriv(a, old(decryption_key)@).seckey,
                )),
                None => true,
            }),
    {
        match self.account_by_id(id) {
            Some(account) => {
                let digest_vec = sha256(&account.xpubkey.pubkey);
                let digest = to_array_32(digest_vec.as_slice());
                account.sign_digest(&digest, decryption_key)
            },
            None => {
                fill_random_32(decryption_key);
                Err(Error::NotFound)
            },
        }
    }

    /// Signs the SHA-256 of `data` with the private key of account `id`;
    /// deterministic, so two calls agree.
    pub fn sign_data(&self, id: &Vec<u8>, data: &Vec<u8>, decryption_key: &mut [u8; 32]) -> (r:
        Result<Vec<u8>, Error>)
        ensures
            vault_account_find(self@, id@) is None <==> r == Err::<Vec<u8>, Error>(
                Error::NotFound,
            ),
            (match vault_account_find(self@, id@) {
                Some(a) => sk_valid(old(decryption_key)@) && account_decryptable(
                    a,
                    old(decryption_key)@,
                ) ==> (r matches Ok(s) && s@ == ecdsa_der(
                    sha256_of(data@),
                    account_xpriv(a, old(decryption_key)@).seckey,
                )),
                None => true,
            }),
    {
        match self.account_by_id(id) {
            Some(account) => {
                let digest_vec = sha256(data.as_slice());
                let digest = to_array_32(digest_vec.as_slice());
                account.sign_digest(&digest, decryption_key)
            },
            None => {
                fill_random_32(decryption_key);
                Err(Error::NotFound)
            },
        }
    }
}


/// The views of a description vector.
pub open spec fn info_views(s: Seq<AccountInfo>) -> Seq<AccountInfoView> {
    s.map_values(|x: AccountInfo| x@)
}

/// The description of one keyring's sub-accounts: each annotated with the
/// master's fingerprint and its absolute path.
pub open spec fn ring_sub_infos(k: KeyringView) -> Seq<AccountInfoView> {
    k.sub_accounts.map_values(
        |p: (Seq<u32>, KeysAccountView)|
            info_of_account(
                p.1,
                Some(
                    KeySourceView {
                        fingerprint: xpub_fingerprint_of(k.master_account.xpubkey),
                        path: p.0,
                    },
                ),
            ),
    )
}

/// The sub-account descriptions of all keyrings, keyring by keyring.
pub open spec fn all_sub_infos(s: Seq<KeyringView>) -> Seq<AccountInfoView>
    decreases s.len(),
{
    if s.len() == 0 {
        Seq::empty()
    } else {
        all_sub_infos(s.drop_last()) + ring_sub_infos(s.last())
    }
}

/// What the vault lists: every master, annotated with its keyring's origin,
/// then every sub-account, annotated with the master's fingerprint and its
/// path.
pub open spec fn vault_list_spec(s: Seq<KeyringView>) -> Seq<AccountInfoView> {
    s.map_values(|k: KeyringView| info_of_account(k.master_account, k.key_source)) + all_sub_infos(
        s,
    )
}

impl Vault {
    /// Describes every account: the keyring masters first, then every
    /// sub-account with its master's fingerprint and path as origin.
    pub fn list(&self) -> (r: Vec<AccountInfo>)
        ensures
            info_views(r@) == vault_list_spec(self@),
    {
        let ghost masters = self@.map_values(
            |k: KeyringView| info_of_account(k.master_account, k.key_source),
        );
        let mut out: Vec<AccountInfo> = Vec::new();
        let mut i: usize = 0;
        while i < self.keyrings.len()
            invariant
                i <= self.keyrings@.len(),
                masters == self@.map_values(
                    |k: KeyringView| info_of_account(k.master_account, k.key_source),
                ),
                info_views(out@) == masters.take(i as int),
            decreases self.keyrings@.len() - i,
        {
            let kr = &self.keyrings[i];
            let source = match &kr.key_source {
                Some(ks) => Some(ks.clone_source()),
                None => None,
            };
            let ghost srcv = match source {
                Some(ref ks2) => Some(ks2@),
                None => None,
            };
            proof {
                assert(kr@ == self@[i as int]);
                assert(srcv == kr@.key_source);
            }
            let info = crate::rpc::account_info(&kr.master_account, source);
            let ghost outpre = out@;
            let ghost infov = info@;
            let ghost infoval = info;
            out.push(info);
            proof {
                assert(out@ == outpre.push(infoval));
                assert(masters.len() == self@.len());
                assert(masters.take(i as int).len() == i);
                assert(info_views(outpre).len() == outpre.len());
                assert(info_views(outpre) == masters.take(i as int));
                assert(outpre.len() == i);
                assert(infov == info_of_account(
                    self@[i as int].master_account,
                    self@[i as int].key_source,
                ));
                assert(infov == masters[i as int]);
                assert forall|w: int| 0 <= w < i + 1 implies info_views(out@)[w] == masters.take(
                    i as int + 1,
                )[w] by {
                    if w < i {
                        assert(out@[w] == outpre[w]);
                        assert(info_views(outpre)[w] == outpre[w]@);
                    } else {
                        assert(out@[w]@ == infov);
                    }
                }
                assert(info_views(out@) =~= masters.take(i as int + 1));
            }
            i = i + 1;
        }
        proof {
            assert(masters.take(masters.len() as int) =~= masters);
        }
        let mut k: usize = 0;
        while k < self.keyrings.len()
            invariant
                k <= self.keyrings@.len(),
                masters == self@.map_values(
                    |kk: KeyringView| info_of_account(kk.master_account, kk.key_source),
                ),
                info_views(out@) == masters + all_sub_infos(self@.take(k as int)),
            decreases self.keyrings@.len() - k,
        {
            let kr = &self.keyrings[k];
            let fingerprint = kr.fingerprint();
            let ghost ring = self@[k as int];
            let mut t: usize = 0;
            while t < kr.sub_accounts.len()
                invariant
                    t <= kr.sub_accounts@.len(),
                    ring == self@[k as int],
                    ring.sub_accounts == crate::keymgm::sub_views(kr.sub_accounts@),
                    fingerprint@ == xpub_fingerprint_of(ring.master_account.xpubkey),
                    info_views(out@) == masters + all_sub_infos(self@.take(k as int))
                        + ring_sub_infos(ring).take(t as int),
                decreases kr.sub_accounts@.len() - t,
            {
                let source = KeySource {
                    fingerprint,
                    path: crate::keymgm::clone_path(&kr.sub_accounts[t].0),
                };
                let ghost srcv = Some(source@);
                let info = crate::rpc::account_info(&kr.sub_accounts[t].1, Some(source));
                let ghost outpre = out@;
                let ghost infov = info@;
                let ghost infoval = info;
                out.push(info);
                proof {
                    assert(out@ == outpre.push(infoval));
                    assert(info_views(outpre).len() == outpre.len());
                    assert(ring_sub_infos(ring).len() == ring.sub_accounts.len());
                    assert(ring.sub_accounts[t as int]
                        == crate::keymgm::sub_views(kr.sub_accounts@)[t as int]);
                    assert(infov == info_of_account(ring.sub_accounts[t as int].1, srcv));
                    assert(srcv == Some(KeySourceView {
                        fingerprint: xpub_fingerprint_of(ring.master_account.xpubkey),
                        path: ring.sub_accounts[t as int].0,
                    }));
                    assert(infov == ring_sub_infos(ring)[t as int]);
                    let target = masters + all_sub_infos(self@.take(k as int)) + ring_sub_infos(
                        ring,
                    ).take(t as int + 1);
                    assert forall|w: int| 0 <= w < out@.len() implies info_views(out@)[w]
                        == target[w] by {
                        if w < outpre.len() {
                            assert(out@[w] == outpre[w]);
                            assert(info_views(outpre)[w] == outpre[w]@);
                            let prev = masters + all_sub_infos(self@.take(k as int))
                                + ring_sub_infos(ring).take(t as int);
                            assert(info_views(outpre)[w] == prev[w]);
                            assert(prev[w] == target[w]);
                        } else {
                            assert(out@[w]@ == infov);
                            assert(target[w] == ring_sub_infos(ring).take(t as int + 1)[t as int]);
                        }
                    }
                    assert(info_views(out@) =~= target);
                }
                t = t + 1;
            }
            proof {
                assert(ring_sub_infos(ring).take(ring_sub_infos(ring).len() as int)
                    =~= ring_sub_infos(ring));
                assert(self@.take(k as int + 1).drop_last() =~= self@.take(k as int));
                assert(self@.take(k as int + 1).last() == ring);
                assert(masters + all_sub_infos(self@.take(k as int)) + ring_sub_infos(ring)
                    =~= masters + all_sub_infos(self@.take(k as int + 1)));
            }
            k = k + 1;
        }
        proof {
            assert(self@.take(self@.len() as int) =~= self@);
        }
        out
    }
}


/// The first keyring whose master has the given fingerprint.
pub open spec fn vault_fp_find(s: Seq<KeyringView>, fp: Seq<u8>) -> Option<KeyringView>
    decreases s.len(),
{
    if s.len() == 0 {
        None
    } else if xpub_fingerprint_of(s[0].master_account.xpubkey) == fp {
        Some(s[0])
    } else {
        vault_fp_find(s.drop_first(), fp)
    }
}

/// The fingerprint search answers the first matching index.
pub proof fn lemma_vault_fp_find_at(s: Seq<KeyringView>, fp: Seq<u8>, i: int)
    requires
        0 <= i < s.len(),
        forall|t: int| 0 <= t < i ==> xpub_fingerprint_of(
            (#[trigger] s[t]).master_account.xpubkey,
        ) != fp,
        xpub_fingerprint_of(s[i].master_account.xpubkey) == fp,
    ensures
        vault_fp_find(s, fp) == Some(s[i]),
    decreases i,
{
    if i > 0 {
        assert(forall|t: int|
            0 <= t < i - 1 ==> s.drop_first()[t] == s[t + 1] && xpub_fingerprint_of(
                (#[trigger] s.drop_first()[t]).master_account.xpubkey,
            ) != fp);
        lemma_vault_fp_find_at(s.drop_first(), fp, i - 1);
    }
}

/// With no matching fingerprint the search answers nothing.
pub proof fn lemma_vault_fp_find_none(s: Seq<KeyringView>, fp: Seq<u8>)
    requires
        forall|t: int| 0 <= t < s.len() ==> xpub_fingerprint_of(
            (#[trigger] s[t]).master_account.xpubkey,
        ) != fp,
    ensures
        vault_fp_find(s, fp) is None,
    decreases s.len(),
{
    if s.len() > 0 {
        assert(forall|t: int|
            0 <= t < s.len() - 1 ==> s.drop_first()[t] == s[t + 1] && xpub_fingerprint_of(
                (#[trigger] s.drop_first()[t]).master_account.xpubkey,
            ) != fp);
        lemma_vault_fp_find_none(s.drop_first(), fp);
    }
}

/// Whether every keyring master can be decrypted with key `d`.
pub open spec fn all_masters_decryptable(s: Seq<KeyringView>, d: Seq<u8>) -> bool {
    forall|i: int| 0 <= i < s.len() ==> account_decryptable(
        (#[trigger] s[i]).master_account,
        d,
    )
}

/// The script an input's signatures commit to: the consumed output's script
/// in the funding transaction; meaningful when the funding transaction
/// travels with the input.
pub open spec fn input_script(inp: PsbtInputView) -> Seq<u8> {
    match inp.non_witness_utxo_scripts {
        Some(ss) => ss[inp.prevout_vout as int],
        None => Seq::empty(),
    }
}

/// Whether some derivation hint names a stored master's fingerprint.
pub open spec fn any_hint_match(s: Seq<KeyringView>, hints: Seq<HintView>) -> bool {
    exists|j: int| 0 <= j < hints.len() && vault_fp_find(s, (#[trigger] hints[j]).fingerprint) is Some
}

/// The signatures one input collects, hint by hint: for every hint whose
/// fingerprint names a stored master, the deterministic ECDSA signature of
/// the input's legacy sighash under the key derived along the hint's path
/// from that master, with the sighash byte appended.
pub open spec fn hint_sigs(
    s: Seq<KeyringView>,
    d: Seq<u8>,
    tx: Seq<u8>,
    index: int,
    script: Seq<u8>,
    hints: Seq<HintView>,
) -> Seq<(Seq<u8>, Seq<u8>)>
    decreases hints.len(),
{
    if hints.len() == 0 {
        Seq::empty()
    } else {
        hint_sigs(s, d, tx, index, script, hints.drop_last()) + (match vault_fp_find(
            s,
            hints.last().fingerprint,
        ) {
            Some(kr) => seq![
                (
                    hints.last().pubkey,
                    ecdsa_der(
                        legacy_sighash_of(tx, index, script, 1),
                        derive_priv(
                            account_xpriv(kr.master_account, d),
                            hints.last().path,
                        ).seckey,
                    ).push(1u8),
                ),
            ],
            None => Seq::empty(),
        })
    }
}

/// What signing one derivation hint of one input reports, when the
/// decryption key opens every stored master: nothing for a fingerprint no
/// master carries; otherwise the first failure among underivable path,
/// missing funding outputs, out-of-range output index and uncomputable
/// sighash — or nothing when the hint signs.
pub open spec fn hint_fail(
    s: Seq<KeyringView>,
    d: Seq<u8>,
    tx: Seq<u8>,
    index: int,
    inp: PsbtInputView,
    h: HintView,
) -> Option<RuntimeError> {
    match vault_fp_find(s, h.fingerprint) {
        None => None,
        Some(kr) => {
            if !derive_ok(account_xpriv(kr.master_account, d), h.path) {
                Some(RuntimeError::Message)
            } else if inp.non_witness_utxo_scripts is None {
                Some(RuntimeError::Transport)
            } else if inp.prevout_vout as int >= inp.non_witness_utxo_scripts.unwrap().len() {
                Some(RuntimeError::Message)
            } else if !crate::psbt::legacy_sighash_ok(tx, index) {
                Some(RuntimeError::Message)
            } else {
                None
            }
        },
    }
}

/// The first failure among the first `k` derivation hints of one input.
pub open spec fn input_first_err(
    s: Seq<KeyringView>,
    d: Seq<u8>,
    tx: Seq<u8>,
    index: int,
    inp: PsbtInputView,
    k: int,
) -> Option<RuntimeError>
    decreases k,
{
    if k <= 0 {
        None
    } else {
        match input_first_err(s, d, tx, index, inp, k - 1) {
            Some(e) => Some(e),
            None => hint_fail(s, d, tx, index, inp, inp.bip32_derivation[k - 1]),
        }
    }
}

/// What signing one input reports, when the decryption key opens every
/// stored master: its first failing hint's error, or nothing.
pub open spec fn input_sign_err(
    s: Seq<KeyringView>,
    d: Seq<u8>,
    tx: Seq<u8>,
    index: int,
    inp: PsbtInputView,
) -> Option<RuntimeError> {
    input_first_err(s, d, tx, index, inp, inp.bip32_derivation.len() as int)
}

/// A failure among the first hints stays the failure of the whole input.
pub proof fn lemma_input_first_err_stable(
    s: Seq<KeyringView>,
    d: Seq<u8>,
    tx: Seq<u8>,
    index: int,
    inp: PsbtInputView,
    j: int,
    k: int,
)
    requires
        0 <= j <= k,
        input_first_err(s, d, tx, index, inp, j) is Some,
    ensures
        input_first_err(s, d, tx, index, inp, k) == input_first_err(s, d, tx, index, inp, j),
    decreases k - j,
{
    if j < k {
        lemma_input_first_err_stable(s, d, tx, index, inp, j, k - 1);
    }
}

/// The first failure among the first `k` inputs of an envelope.
pub open spec fn psbt_first_err(s: Seq<KeyringView>, d: Seq<u8>, v: PsbtView, k: int) -> Option<
    RuntimeError,
>
    decreases k,
{
    if k <= 0 {
        None
    } else {
        match psbt_first_err(s, d, v, k - 1) {
            Some(e) => Some(e),
            None => input_sign_err(s, d, v.unsigned_tx, k - 1, v.inputs[k - 1]),
        }
    }
}

/// What signing a whole envelope reports, when the decryption key opens
/// every stored master: its first failing input's error, or nothing.
pub open spec fn psbt_sign_err(s: Seq<KeyringView>, d: Seq<u8>, v: PsbtView) -> Option<
    RuntimeError,
> {
    psbt_first_err(s, d, v, v.inputs.len() as int)
}

/// A failure among the first inputs stays the failure of the whole envelope.
pub proof fn lemma_psbt_first_err_stable(
    s: Seq<KeyringView>,
    d: Seq<u8>,
    v: PsbtView,
    j: int,
    k: int,
)
    requires
        0 <= j <= k,
        psbt_first_err(s, d, v, j) is Some,
    ensures
        psbt_first_err(s, d, v, k) == psbt_first_err(s, d, v, j),
    decreases k - j,
{
    if j < k {
        lemma_psbt_first_err_stable(s, d, v, j, k - 1);
    }
}

/// The views of a signature vector.
pub open spec fn sig_views(s: Seq<([u8; 33], Vec<u8>)>) -> Seq<(Seq<u8>, Seq<u8>)> {
    s.map_values(|p: ([u8; 33], Vec<u8>)| (p.0@, p.1@))
}

/// The views of the derivation hints.
pub open spec fn hint_views(s: Seq<([u8; 33], [u8; 4], Vec<u32>)>) -> Seq<HintView> {
    s.map_values(
        |h: ([u8; 33], [u8; 4], Vec<u32>)|
            HintView { pubkey: h.0@, fingerprint: h.1@, path: h.2@ },
    )
}

impl Vault {
    /// Signs one input of the envelope: for each derivation hint whose
    /// fingerprint names a stored master, decrypts that master, derives along
    /// the hint's path, signs the input's legacy sighash and collects the
    /// signature; sets the sighash type when anything matched.
    #[verifier::loop_isolation(false)]
    fn sign_input(&self, tx: &Vec<u8>, index: usize, input: &mut PsbtInput, key: &[u8; 32]) -> (r:
        Result<(), RuntimeError>)
        ensures
            r matches Err(e) ==> (e is Transport || e is Message || e matches
                RuntimeError::KeyManagement(_)),
            sk_valid(key@) && all_masters_decryptable(self@, key@) ==> (match input_sign_err(
                self@,
                key@,
                tx@,
                index as int,
                old(input)@,
            ) {
                None => r is Ok,
                Some(e) => r == Err::<(), RuntimeError>(e),
            }),
            r is Ok ==> {
                &&& final(input)@.bip32_derivation == old(input)@.bip32_derivation
                &&& final(input)@.non_witness_utxo_scripts == old(input)@.non_witness_utxo_scripts
                &&& final(input)@.prevout_vout == old(input)@.prevout_vout
                &&& final(input)@.sighash_type == (if any_hint_match(
                    self@,
                    old(input)@.bip32_derivation,
                ) {
                    Some(1u32)
                } else {
                    old(input)@.sighash_type
                })
                &&& (sk_valid(key@) && all_masters_decryptable(self@, key@)
                    ==> final(input)@.partial_sigs == old(input)@.partial_sigs + hint_sigs(
                    self@,
                    key@,
                    tx@,
                    index as int,
                    input_script(old(input)@),
                    old(input)@.bip32_derivation,
                ))
            },
    {
        let nh = input.bip32_derivation.len();
        let ghost hints = input@.bip32_derivation;
        let ghost script0 = input_script(input@);
        let ghost good = sk_valid(key@) && all_masters_decryptable(self@, key@);
        let mut j: usize = 0;
        while j < nh
            invariant
                j <= nh,
                good ==> input_first_err(self@, key@, tx@, index as int, old(input)@, j as int)
                    is None,
                nh == input.bip32_derivation@.len(),
                input@.bip32_derivation == old(input)@.bip32_derivation,
                hints == old(input)@.bip32_derivation,
                script0 == input_script(old(input)@),
                input@.non_witness_utxo_scripts == old(input)@.non_witness_utxo_scripts,
                input@.prevout_vout == old(input)@.prevout_vout,
                input@.sighash_type == (if any_hint_match(self@, hints.take(j as int)) {
                    Some(1u32)
                } else {
                    old(input)@.sighash_type
                }),
                sk_valid(key@) && all_masters_decryptable(self@, key@)
                    ==> input@.partial_sigs == old(input)@.partial_sigs + hint_sigs(
                    self@,
                    key@,
                    tx@,
                    index as int,
                    script0,
                    hints.take(j as int),
                ),
            decreases nh - j,
        {
            let pk = input.bip32_derivation[j].0;
            let fp = input.bip32_derivation[j].1;
            let path = crate::keymgm::clone_path(&input.bip32_derivation[j].2);
            proof {
                assert(hints[j as int] == HintView { pubkey: pk@, fingerprint: fp@, path: path@ });
                assert(hints.take(j as int + 1).drop_last() =~= hints.take(j as int));
                assert(hints.take(j as int + 1).last() == hints[j as int]);
            }
            // Find the keyring whose master carries the hinted fingerprint
            let mut w: usize = 0;
            let nk = self.keyrings.len();
            let mut found: bool = false;
            while w < nk && !found
                invariant
                    w <= nk,
                    nk == self.keyrings@.len(),
                    found ==> w < nk && xpub_fingerprint_of(
                        self@[w as int].master_account.xpubkey,
                    ) == fp@,
                    forall|t: int|
                        0 <= t < w ==> xpub_fingerprint_of(
                            (#[trigger] self@[t]).master_account.xpubkey,
                        ) != fp@,
                decreases nk - w + (if found { 0int } else { 1int }),
            {
                let krfp = self.keyrings[w].fingerprint();
                if bytes_eq(&krfp, &fp) {
                    found = true;
                } else {
                    w = w + 1;
                }
            }
            if found {
                proof {
                    lemma_vault_fp_find_at(self@, fp@, w as int);
                }
                let kr = &self.keyrings[w];
                let mut k: [u8; 32] = *key;
                let mut xpriv = match kr.master_account.xprivkey(&mut k) {
                    Ok(x) => x,
                    Err(e) => {
                        proof {
                            if good {
                                assert(account_decryptable(self@[w as int].master_account, key@));
                                assert(false);
                            }
                        }
                        return Err(RuntimeError::KeyManagement(e));
                    },
                };
                let mut child = match crate::bip32::derive_xpriv(&xpriv, &path) {
                    Ok(c) => c,
                    Err(_) => {
                        proof {
                            if good {
                                assert(hint_fail(self@, key@, tx@, index as int, old(input)@,
                                    hints[j as int]) == Some(RuntimeError::Message));
                                lemma_input_first_err_stable(self@, key@, tx@, index as int,
                                    old(input)@, j as int + 1, hints.len() as int);
                            }
                        }
                        fill_random_32(&mut xpriv.seckey);
                        return Err(RuntimeError::Message);
                    },
                };
                fill_random_32(&mut xpriv.seckey);
                let script = match &input.non_witness_utxo_scripts {
                    None => {
                        proof {
                            if good {
                                assert(hint_fail(self@, key@, tx@, index as int, old(input)@,
                                    hints[j as int]) == Some(RuntimeError::Transport));
                                lemma_input_first_err_stable(self@, key@, tx@, index as int,
                                    old(input)@, j as int + 1, hints.len() as int);
                            }
                        }
                        fill_random_32(&mut child.seckey);
                        return Err(RuntimeError::Transport);
                    },
                    Some(ss) => {
                        let v = input.prevout_vout as usize;
                        if v >= ss.len() {
                            proof {
                                if good {
                                    assert(hint_fail(self@, key@, tx@, index as int, old(input)@,
                                        hints[j as int]) == Some(RuntimeError::Message));
                                    lemma_input_first_err_stable(self@, key@, tx@, index as int,
                                        old(input)@, j as int + 1, hints.len() as int);
                                }
                            }
                            fill_random_32(&mut child.seckey);
                            return Err(RuntimeError::Message);
                        }
                        crate::bytes::sub_vec(&ss[v], 0, ss[v].len())
                    },
                };
                proof {
                    assert(script@ =~= input_script(input@));
                }
                let digest = match legacy_sighash(tx, index, &script, 1) {
                    Ok(d) => d,
                    Err(_) => {
                        proof {
                            if good {
                                assert(hint_fail(self@, key@, tx@, index as int, old(input)@,
                                    hints[j as int]) == Some(RuntimeError::Message));
                                lemma_input_first_err_stable(self@, key@, tx@, index as int,
                                    old(input)@, j as int + 1, hints.len() as int);
                            }
                        }
                        fill_random_32(&mut child.seckey);
                        return Err(RuntimeError::Message);
                    },
                };
                let mut sig = match crate::secp::ecdsa_sign(&digest, &child.seckey) {
                    Ok(s) => s,
                    Err(_) => {
                        proof {
                            if good {
                                assert(false);
                            }
                        }
                        fill_random_32(&mut child.seckey);
                        return Err(RuntimeError::KeyManagement(Error::Secp256k1Broken));
                    },
                };
                fill_random_32(&mut child.seckey);
                sig.push(1u8);
                let ghost sigv = sig@;
                let ghost sigspre = input@.partial_sigs;
                input.partial_sigs.push((pk, sig));
                input.sighash_type = Some(1u32);
                proof {
                    assert(input@.partial_sigs =~= sigspre.push((pk@, sigv)));
                    assert(any_hint_match(self@, hints.take(j as int + 1))) by {
                        assert(hints.take(j as int + 1)[j as int] == hints[j as int]);
                    }
                    if good {
                        assert(hint_fail(self@, key@, tx@, index as int, old(input)@,
                            hints[j as int]) is None);
                    }
                    if sk_valid(key@) && all_masters_decryptable(self@, key@) {
                        assert(account_decryptable(self@[w as int].master_account, key@));
                        assert(input@.partial_sigs =~= old(input)@.partial_sigs + hint_sigs(
                            self@,
                            key@,
                            tx@,
                            index as int,
                            script0,
                            hints.take(j as int + 1),
                        ));
                    }
                }
            } else {
                proof {
                    lemma_vault_fp_find_none(self@, fp@);
                    if good {
                        assert(hint_fail(self@, key@, tx@, index as int, old(input)@,
                            hints[j as int]) is None);
                    }
                    if any_hint_match(self@, hints.take(j as int + 1)) {
                        let m = choose|m: int|
                            0 <= m < hints.take(j as int + 1).len() && vault_fp_find(
                                self@,
                                (#[trigger] hints.take(j as int + 1)[m]).fingerprint,
                            ) is Some;
                        if m < j {
                            assert(hints.take(j as int)[m] == hints.take(j as int + 1)[m]);
                            assert(any_hint_match(self@, hints.take(j as int)));
                        }
                    }
                    if sk_valid(key@) && all_masters_decryptable(self@, key@) {
                        assert(input@.partial_sigs =~= old(input)@.partial_sigs + hint_sigs(
                            self@,
                            key@,
                            tx@,
                            index as int,
                            script0,
                            hints.take(j as int + 1),
                        ));
                    }
                }
            }
            j = j + 1;
        }
        proof {
            assert(hints.take(hints.len() as int) =~= hints);
        }
        Ok(())
    }

    /// Signs every input of a partially signed transaction whose derivation
    /// hints name stored masters, per the legacy signature-hash rule.  The
    /// decryption key is overwritten once on entry; the internal copy is
    /// overwritten before returning, on every path.
    #[verifier::loop_isolation(false)]
    pub fn sign_psbt(&self, psbt: Psbt, decryption_key: &mut [u8; 32]) -> (r: Result<
        Psbt,
        RuntimeError,
    >)
        ensures
            r matches Err(e) ==> (e is Transport || e is Message || e matches
                RuntimeError::KeyManagement(_)),
            sk_valid(old(decryption_key)@) && all_masters_decryptable(
                self@,
                old(decryption_key)@,
            ) ==> (match psbt_sign_err(self@, old(decryption_key)@, psbt@) {
                None => r is Ok,
                Some(e) => r == Err::<Psbt, RuntimeError>(e),
            }),
            r matches Ok(p) ==> {
                &&& p@.unsigned_tx == psbt@.unsigned_tx
                &&& p@.inputs.len() == psbt@.inputs.len()
                &&& (forall|i: int|
                    0 <= i < psbt@.inputs.len() ==> {
                        let oi = psbt@.inputs[i];
                        let ni = #[trigger] p@.inputs[i];
                        &&& ni.bip32_derivation == oi.bip32_derivation
                        &&& ni.non_witness_utxo_scripts == oi.non_witness_utxo_scripts
                        &&& ni.prevout_vout == oi.prevout_vout
                        &&& ni.sighash_type == (if any_hint_match(self@, oi.bip32_derivation) {
                            Some(1u32)
                        } else {
                            oi.sighash_type
                        })
                        &&& (sk_valid(old(decryption_key)@) && all_masters_decryptable(
                            self@,
                            old(decryption_key)@,
                        ) ==> ni.partial_sigs == oi.partial_sigs + hint_sigs(
                            self@,
                            old(decryption_key)@,
                            psbt@.unsigned_tx,
                            i,
                            input_script(oi),
                            oi.bip32_derivation,
                        ))
                    })
            },
    {
        let mut psbt = psbt;
        let ghost orig = psbt@;
        let ghost good = sk_valid(old(decryption_key)@) && all_masters_decryptable(
            self@,
            old(decryption_key)@,
        );
        let mut key_copy: [u8; 32] = *decryption_key;
        fill_random_32(decryption_key);
        let n = psbt.inputs.len();
        let mut i: usize = 0;
        while i < n
            invariant
                i <= n,
                good ==> psbt_first_err(self@, old(decryption_key)@, orig, i as int) is None,
                n == psbt.inputs@.len(),
                psbt@.unsigned_tx == orig.unsigned_tx,
                psbt@.inputs.len() == orig.inputs.len(),
                key_copy@ == old(decryption_key)@,
                forall|t: int| i <= t < n ==> #[trigger] psbt@.inputs[t] == orig.inputs[t],
                forall|t: int|
                    0 <= t < i ==> {
                        let oi = orig.inputs[t];
                        let ni = #[trigger] psbt@.inputs[t];
                        &&& ni.bip32_derivation == oi.bip32_derivation
                        &&& ni.non_witness_utxo_scripts == oi.non_witness_utxo_scripts
                        &&& ni.prevout_vout == oi.prevout_vout
                        &&& ni.sighash_type == (if any_hint_match(self@, oi.bip32_derivation) {
                            Some(1u32)
                        } else {
                            oi.sighash_type
                        })
                        &&& (sk_valid(old(decryption_key)@) && all_masters_decryptable(
                            self@,
                            old(decryption_key)@,
                        ) ==> ni.partial_sigs == oi.partial_sigs + hint_sigs(
                            self@,
                            old(decryption_key)@,
                            orig.unsigned_tx,
                            t,
                            input_script(oi),
                            oi.bip32_derivation,
                        ))
                    },
            decreases n - i,
        {
            let ghost pre = psbt@;
            let signed = self.sign_input(&psbt.unsigned_tx, i, &mut psbt.inputs[i], &key_copy);
            match signed {
                Ok(()) => {
                    proof {
                        if good {
                            assert(input_sign_err(self@, old(decryption_key)@, orig.unsigned_tx,
                                i as int, orig.inputs[i as int]) is None);
                        }
                    }
                },
                Err(e) => {
                    proof {
                        if good {
                            assert(pre.inputs[i as int] == orig.inputs[i as int]);
                            assert(pre.unsigned_tx == orig.unsigned_tx);
                            assert(input_sign_err(self@, old(decryption_key)@, orig.unsigned_tx,
                                i as int, orig.inputs[i as int]) == Some(e));
                            assert(psbt_first_err(self@, old(decryption_key)@, orig, i as int + 1)
                                == Some(e));
                            lemma_psbt_first_err_stable(self@, old(decryption_key)@, orig,
                                i as int + 1, orig.inputs.len() as int);
                        }
                    }
                    fill_random_32(&mut key_copy);
                    return Err(e);
                },
            }
            proof {
                assert(psbt@.inputs =~= pre.inputs.update(i as int, psbt@.inputs[i as int]));
                assert(pre.inputs[i as int] == orig.inputs[i as int]);
            }
            i = i + 1;
        }
        fill_random_32(&mut key_copy);
        Ok(psbt)
    }
}

} // verus!
