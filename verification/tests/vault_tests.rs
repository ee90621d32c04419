//! End-to-end tests of the vault: seeding, listing, derivation, exports,
//! updates, deterministic signing and the secret-wiping discipline.

use keyring::assets::AssetId;
use keyring::keymgm::{Error, UpdateMode};
use keyring::rpc::{process_request, Derive, Reply, Request, Seed};
use keyring::slip132::{Chain, KeyApplication};
use keyring::vault::Vault;

fn secp_pub(scalar: [u8; 32]) -> [u8; 33] {
    let secp = bitcoin::secp256k1::Secp256k1::new();
    let sk = bitcoin::secp256k1::SecretKey::from_slice(&scalar).unwrap();
    bitcoin::secp256k1::PublicKey::from_secret_key(&secp, &sk).serialize()
}

fn hash160(data: &[u8]) -> Vec<u8> {
    let sha = <bitcoin::hashes::sha256::Hash as bitcoin::hashes::Hash>::hash(data);
    let rip = <bitcoin::hashes::ripemd160::Hash as bitcoin::hashes::Hash>::hash(
        bitcoin::hashes::Hash::as_byte_array(&sha),
    );
    bitcoin::hashes::Hash::as_byte_array(&rip).to_vec()
}

fn seeded_vault() -> Vault {
    let mut vault = Vault::new_empty();
    vault
        .seed(
            String::from("A"),
            None,
            Chain::Regtest,
            KeyApplication::Wpkh,
            &secp_pub([0x01u8; 32]),
        )
        .unwrap();
    vault
}

#[test]
fn seed_then_list() {
    let vault = seeded_vault();
    let infos = vault.list();
    assert_eq!(infos.len(), 1);
    assert_eq!(infos[0].name, "A");
    assert_eq!(infos[0].details, None);
    // the fingerprint is the first four bytes of HASH160 of the master's
    // 33-byte public key
    let master_pub = vault.keyrings[0].master_account.xpubkey.pubkey;
    let expected = hash160(&master_pub);
    assert_eq!(&infos[0].fingerprint[..], &expected[..4]);
    assert_eq!(&infos[0].id[..], &expected[..]);
}

#[test]
fn derive_then_export_xpub() {
    // plain key-hash scope, so the reference implementation can read the
    // serialized keys
    let mut vault = Vault::new_empty();
    vault
        .seed(
            String::from("A"),
            None,
            Chain::Regtest,
            KeyApplication::Pkh,
            &secp_pub([0x01u8; 32]),
        )
        .unwrap();
    let master_id = vault.keyrings[0].master_account.identifier();
    let mut key = [0x01u8; 32];
    let info = vault
        .derive(
            &master_id,
            vec![0, 1],
            String::from("sub"),
            Some(String::from("")),
            Vec::new(),
            &mut key,
        )
        .unwrap();
    // the decryption key was wiped
    assert_ne!(key, [0x01u8; 32]);
    // the derived account's key equals the reference public derivation of
    // the decrypted master key along m/0/1
    let mut key2 = [0x01u8; 32];
    let master_xpriv = vault.xpriv(&master_id, &mut key2).unwrap();
    let secp = bitcoin::secp256k1::Secp256k1::new();
    let reference = bitcoin::bip32::Xpriv::decode(&keyring::bip32::encode_xpriv(&master_xpriv))
        .unwrap()
        .derive_priv(
            &secp,
            &[
                bitcoin::bip32::ChildNumber::from_normal_idx(0).unwrap(),
                bitcoin::bip32::ChildNumber::from_normal_idx(1).unwrap(),
            ],
        )
        .unwrap();
    let reference_pub =
        bitcoin::secp256k1::PublicKey::from_secret_key(&secp, &reference.private_key).serialize();
    let sub = vault.xpub(&info.id).unwrap();
    assert_eq!(sub.pubkey, reference_pub);
    // the listing now shows the sub-account with the master's fingerprint
    let infos = vault.list();
    assert_eq!(infos.len(), 2);
    assert_eq!(infos[1].name, "sub");
    let ks = infos[1].key_source.as_ref().unwrap();
    assert_eq!(ks.path, vec![0, 1]);
    assert_eq!(ks.fingerprint, vault.keyrings[0].master_account.fingerprint());
}

#[test]
fn derive_used_path_is_rejected() {
    let mut vault = seeded_vault();
    let master_id = vault.keyrings[0].master_account.identifier();
    let mut key = [0x01u8; 32];
    vault
        .derive(&master_id, vec![0, 1], String::from("sub"), None, Vec::new(), &mut key)
        .unwrap();
    let mut key = [0x01u8; 32];
    let again = vault.derive(
        &master_id,
        vec![0, 1],
        String::from("sub2"),
        None,
        Vec::new(),
        &mut key,
    );
    assert_eq!(again.unwrap_err(), Error::DerivationAlreadyUsed);
    // the master (empty) path is rejected the same way
    let mut key = [0x01u8; 32];
    let master = vault.derive(
        &master_id,
        Vec::new(),
        String::from("m"),
        None,
        Vec::new(),
        &mut key,
    );
    assert_eq!(master.unwrap_err(), Error::DerivationAlreadyUsed);
}

#[test]
fn derive_unknown_root_not_found() {
    let mut vault = seeded_vault();
    let mut key = [0x01u8; 32];
    let bogus = vec![0u8; 20];
    let r = vault.derive(&bogus, vec![7], String::from("x"), None, Vec::new(), &mut key);
    assert_eq!(r.unwrap_err(), Error::NotFound);
}

#[test]
fn xpriv_round_trip_and_wiping() {
    let vault = seeded_vault();
    let master_id = vault.keyrings[0].master_account.identifier();
    let mut key = [0x01u8; 32];
    let xpriv = vault.xpriv(&master_id, &mut key).unwrap();
    assert_ne!(key, [0x01u8; 32], "the decryption key must be wiped");
    // the decrypted private key neuters to the stored public key
    let secp = bitcoin::secp256k1::Secp256k1::new();
    let sk = bitcoin::secp256k1::SecretKey::from_slice(&xpriv.seckey).unwrap();
    let pk = bitcoin::secp256k1::PublicKey::from_secret_key(&secp, &sk).serialize();
    assert_eq!(pk, vault.keyrings[0].master_account.xpubkey.pubkey);
}

#[test]
fn xpriv_wrong_key_is_corrupted_secret() {
    let vault = seeded_vault();
    let master_id = vault.keyrings[0].master_account.identifier();
    let mut wrong = [0x02u8; 32];
    let r = vault.xpriv(&master_id, &mut wrong);
    assert_eq!(r.unwrap_err(), Error::SecretKeyCorrupted);
    assert_ne!(wrong, [0x02u8; 32], "the decryption key must be wiped");
}

#[test]
fn xpub_not_found() {
    let vault = seeded_vault();
    let bogus = vec![9u8; 20];
    assert_eq!(vault.xpub(&bogus).unwrap_err(), Error::NotFound);
}

#[test]
fn sign_key_is_deterministic() {
    let vault = seeded_vault();
    let master_id = vault.keyrings[0].master_account.identifier();
    let mut k1 = [0x01u8; 32];
    let s1 = vault.sign_key(&master_id, &mut k1).unwrap();
    let mut k2 = [0x01u8; 32];
    let s2 = vault.sign_key(&master_id, &mut k2).unwrap();
    assert_eq!(s1, s2, "deterministic nonces make repeated signatures identical");
    // and the signature verifies against the SHA256 of the public key
    let secp = bitcoin::secp256k1::Secp256k1::new();
    let pubkey = bitcoin::secp256k1::PublicKey::from_slice(
        &vault.keyrings[0].master_account.xpubkey.pubkey,
    )
    .unwrap();
    let digest = <bitcoin::hashes::sha256::Hash as bitcoin::hashes::Hash>::hash(
        &vault.keyrings[0].master_account.xpubkey.pubkey,
    );
    let msg =
        bitcoin::secp256k1::Message::from_digest(*bitcoin::hashes::Hash::as_byte_array(&digest));
    let sig = bitcoin::secp256k1::ecdsa::Signature::from_der(&s1).unwrap();
    assert!(secp.verify_ecdsa(&msg, &sig, &pubkey).is_ok());
}

#[test]
fn sign_data_hashes_the_message() {
    let vault = seeded_vault();
    let master_id = vault.keyrings[0].master_account.identifier();
    let data = b"some payload".to_vec();
    let mut k = [0x01u8; 32];
    let s = vault.sign_data(&master_id, &data, &mut k).unwrap();
    let secp = bitcoin::secp256k1::Secp256k1::new();
    let pubkey = bitcoin::secp256k1::PublicKey::from_slice(
        &vault.keyrings[0].master_account.xpubkey.pubkey,
    )
    .unwrap();
    let digest = <bitcoin::hashes::sha256::Hash as bitcoin::hashes::Hash>::hash(&data);
    let msg =
        bitcoin::secp256k1::Message::from_digest(*bitcoin::hashes::Hash::as_byte_array(&digest));
    let sig = bitcoin::secp256k1::ecdsa::Signature::from_der(&s).unwrap();
    assert!(secp.verify_ecdsa(&msg, &sig, &pubkey).is_ok());
}

fn asset(tag: u8) -> AssetId {
    AssetId { bytes: [tag; 32] }
}

#[test]
fn update_modes() {
    let mut vault = seeded_vault();
    let account = &mut vault.keyrings[0].master_account;
    // nothing to do
    assert_eq!(account.update(None, None, None, UpdateMode::Add).unwrap_err(), Error::NoOp);
    // name and details
    let n = account
        .update(Some(String::from("B")), Some(String::from("desc")), None, UpdateMode::Add)
        .unwrap();
    assert_eq!(n, 0);
    assert_eq!(account.name, "B");
    assert_eq!(account.details, "desc");
    // add
    let n = account
        .update(None, None, Some(vec![asset(1), asset(2)]), UpdateMode::Add)
        .unwrap();
    assert_eq!(n, 2);
    assert_eq!(account.assets.len(), 2);
    // adding an existing asset does not duplicate it
    let n = account.update(None, None, Some(vec![asset(1)]), UpdateMode::Add).unwrap();
    assert_eq!(n, 1);
    assert_eq!(account.assets.len(), 2);
    // remove-or-fail with a missing asset changes nothing
    let r = account.update(None, None, Some(vec![asset(3)]), UpdateMode::RemoveOrFail);
    match r.unwrap_err() {
        Error::AssetIds(missing) => {
            assert_eq!(missing.len(), 1);
            assert_eq!(missing[0].bytes, [3u8; 32]);
        },
        other => panic!("expected AssetIds, got {:?}", other),
    }
    assert_eq!(account.assets.len(), 2);
    // remove-ignore skips the absent one
    let n = account
        .update(None, None, Some(vec![asset(2), asset(3)]), UpdateMode::RemoveIgnore)
        .unwrap();
    assert_eq!(n, 1);
    assert_eq!(account.assets.len(), 1);
    // replace
    let n = account
        .update(None, None, Some(vec![asset(7), asset(8)]), UpdateMode::Replace)
        .unwrap();
    assert_eq!(n, 3);
    assert_eq!(account.assets.len(), 2);
    // remove-or-fail removes when everything is present
    let n = account
        .update(None, None, Some(vec![asset(7)]), UpdateMode::RemoveOrFail)
        .unwrap();
    assert_eq!(n, 1);
    assert_eq!(account.assets.len(), 1);
    assert_eq!(account.assets[0].bytes, [8u8; 32]);
}

#[test]
fn update_subaccount_errors() {
    let mut vault = seeded_vault();
    let master_id = vault.keyrings[0].master_account.identifier();
    let mut key = [0x01u8; 32];
    vault
        .derive(&master_id, vec![0, 1], String::from("sub"), None, Vec::new(), &mut key)
        .unwrap();
    let keyring = &mut vault.keyrings[0];
    // the master path is rejected
    assert_eq!(
        keyring
            .update_subaccount(&Vec::new(), None, None, None, UpdateMode::Add)
            .unwrap_err(),
        Error::MasterAccount
    );
    // an unknown path is not found
    assert_eq!(
        keyring
            .update_subaccount(&vec![0, 2], None, None, None, UpdateMode::Add)
            .unwrap_err(),
        Error::NotFound
    );
    // nothing to do
    assert_eq!(
        keyring
            .update_subaccount(&vec![0, 1], None, None, None, UpdateMode::Add)
            .unwrap_err(),
        Error::NoOp
    );
    // a real update lands on the sub-account
    let n = keyring
        .update_subaccount(&vec![0, 1], Some(String::from("renamed")), None, None, UpdateMode::Add)
        .unwrap();
    assert_eq!(n, 0);
    assert_eq!(keyring.sub_accounts[0].1.name, "renamed");
}

#[test]
fn dispatcher_roundtrip() {
    let mut vault = Vault::new_empty();
    let node_key = secp_pub([0x01u8; 32]);
    let reply = process_request(
        &mut vault,
        Request::Seed(Seed {
            name: String::from("A"),
            chain: Chain::Regtest,
            application: KeyApplication::Wpkh,
            description: None,
            auth_code: 0,
        }),
        &node_key,
    );
    assert!(matches!(reply, Reply::Success));
    let reply = process_request(&mut vault, Request::List, &node_key);
    match reply {
        Reply::Keylist(infos) => assert_eq!(infos.len(), 1),
        _ => panic!("expected a key list"),
    }
    // a second derivation of the same path fails with the error's rendering
    let master_id = vault.keyrings[0].master_account.identifier();
    let derive = |id: &Vec<u8>| Request::Derive(Derive {
        from: id.clone(),
        path: vec![0, 1],
        name: String::from("sub"),
        details: String::from(""),
        assets: Vec::new(),
        decryption_key: [0x01u8; 32],
        auth_code: 0,
    });
    let reply = process_request(&mut vault, derive(&master_id), &node_key);
    assert!(matches!(reply, Reply::AccountInfo(_)));
    let reply = process_request(&mut vault, derive(&master_id), &node_key);
    match reply {
        Reply::Failure(f) => {
            assert_eq!(f.code, 0);
            assert_eq!(f.info, "DerivationAlreadyUsed");
        },
        _ => panic!("expected a failure reply"),
    }
}

#[test]
fn derive_from_nearest_ancestor() {
    // derive m/0, then m/0/1: the second derivation goes through the stored
    // ancestor at m/0 and still equals the direct derivation from the master
    let mut vault = Vault::new_empty();
    vault
        .seed(
            String::from("A"),
            None,
            Chain::Regtest,
            KeyApplication::Pkh,
            &secp_pub([0x01u8; 32]),
        )
        .unwrap();
    let master_id = vault.keyrings[0].master_account.identifier();
    let mut key = [0x01u8; 32];
    vault
        .derive(&master_id, vec![0], String::from("a"), None, Vec::new(), &mut key)
        .unwrap();
    let mut key = [0x01u8; 32];
    let info = vault
        .derive(&master_id, vec![0, 1], String::from("b"), None, Vec::new(), &mut key)
        .unwrap();
    let mut key = [0x01u8; 32];
    let master_xpriv = vault.xpriv(&master_id, &mut key).unwrap();
    let secp = bitcoin::secp256k1::Secp256k1::new();
    let reference = bitcoin::bip32::Xpriv::decode(&keyring::bip32::encode_xpriv(&master_xpriv))
        .unwrap()
        .derive_priv(
            &secp,
            &[
                bitcoin::bip32::ChildNumber::from_normal_idx(0).unwrap(),
                bitcoin::bip32::ChildNumber::from_normal_idx(1).unwrap(),
            ],
        )
        .unwrap();
    let reference_pub =
        bitcoin::secp256k1::PublicKey::from_secret_key(&secp, &reference.private_key).serialize();
    assert_eq!(vault.xpub(&info.id).unwrap().pubkey, reference_pub);
}

#[test]
fn seed_rejects_a_garbage_encryption_key() {
    let mut vault = Vault::new_empty();
    // 33 bytes that are no curve point
    let bogus = [0xffu8; 33];
    let r = vault.seed(
        String::from("A"),
        None,
        Chain::Regtest,
        KeyApplication::Pkh,
        &bogus,
    );
    assert!(r.is_err());
    assert_eq!(vault.keyrings.len(), 0);
}
