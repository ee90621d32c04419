//! Tests of the persistence codec: the store payload loads back to an equal
//! vault, loading is idempotent, and malformed artifacts are rejected.

use keyring::assets::AssetId;
use keyring::slip132::{Chain, KeyApplication};
use keyring::vault::Vault;

fn secp_pub(scalar: [u8; 32]) -> [u8; 33] {
    let secp = bitcoin::secp256k1::Secp256k1::new();
    let sk = bitcoin::secp256k1::SecretKey::from_slice(&scalar).unwrap();
    bitcoin::secp256k1::PublicKey::from_secret_key(&secp, &sk).serialize()
}

fn sample_vault() -> Vault {
    let mut vault = Vault::new_empty();
    vault
        .seed(
            String::from("first"),
            Some(String::from("ring one")),
            Chain::Mainnet,
            KeyApplication::Pkh,
            &secp_pub([0x01u8; 32]),
        )
        .unwrap();
    vault
        .seed(
            String::from("second"),
            None,
            Chain::Testnet3,
            KeyApplication::Wpkh,
            &secp_pub([0x05u8; 32]),
        )
        .unwrap();
    let master_id = vault.keyrings[0].master_account.identifier();
    let mut key = [0x01u8; 32];
    vault
        .derive(
            &master_id,
            vec![0x8000_002c, 0, 7],
            String::from("savings"),
            Some(String::from("cold")),
            vec![AssetId { bytes: [9u8; 32] }],
            &mut key,
        )
        .unwrap();
    vault
}

#[test]
fn store_then_load_gives_an_equal_vault() {
    let vault = sample_vault();
    let payload = vault.store_payload();
    let loaded = Vault::open(&payload).expect("the payload must load");
    // the loaded vault serializes to the same bytes, so the two hold the
    // same keyrings
    assert_eq!(loaded.store_payload(), payload);
    // and the listings agree
    let a = vault.list();
    let b = loaded.list();
    assert_eq!(a.len(), b.len());
    for (x, y) in a.iter().zip(b.iter()) {
        assert_eq!(x.id, y.id);
        assert_eq!(x.name, y.name);
        assert_eq!(x.details, y.details);
        assert_eq!(x.fingerprint, y.fingerprint);
    }
}

#[test]
fn load_is_idempotent_over_store() {
    let vault = sample_vault();
    let payload = vault.store_payload();
    let once = Vault::open(&payload).unwrap();
    let again = Vault::open(&once.store_payload()).unwrap();
    assert_eq!(once.store_payload(), again.store_payload());
}

#[test]
fn empty_vault_round_trips() {
    let vault = Vault::new_empty();
    let payload = vault.store_payload();
    let loaded = Vault::open(&payload).unwrap();
    assert_eq!(loaded.keyrings.len(), 0);
    assert_eq!(loaded.store_payload(), payload);
}

#[test]
fn malformed_artifacts_are_rejected() {
    assert!(Vault::open(&Vec::new()).is_none());
    assert!(Vault::open(&vec![0u8; 7]).is_none());
    // a count with no keyrings behind it
    let mut bogus = vec![0u8; 8];
    bogus[7] = 3;
    assert!(Vault::open(&bogus).is_none());
    // trailing garbage after a valid artifact
    let vault = sample_vault();
    let mut payload = vault.store_payload();
    payload.push(0);
    assert!(Vault::open(&payload).is_none());
}

#[test]
fn accounts_survive_the_round_trip() {
    let vault = sample_vault();
    let loaded = Vault::open(&vault.store_payload()).unwrap();
    // the derived sub-account still decrypts with its key after the round
    // trip
    let sub_path = &loaded.keyrings[0].sub_accounts[0];
    assert_eq!(sub_path.0, vec![0x8000_002c, 0, 7]);
    let sub_id = sub_path.1.identifier();
    let mut key = [0x01u8; 32];
    let xpriv = loaded.xpriv(&sub_id, &mut key).expect("the stored account must decrypt");
    let secp = bitcoin::secp256k1::Secp256k1::new();
    let sk = bitcoin::secp256k1::SecretKey::from_slice(&xpriv.seckey).unwrap();
    let pk = bitcoin::secp256k1::PublicKey::from_secret_key(&secp, &sk).serialize();
    assert_eq!(pk, sub_path.1.xpubkey.pubkey);
}
