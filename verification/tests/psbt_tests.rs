//! Tests of the transaction-signing path: a legacy input with a derivation
//! hint gets a verifiable signature committing to all outputs.

use keyring::psbt::{Psbt, PsbtInput};
use keyring::slip132::{Chain, KeyApplication};
use keyring::vault::Vault;

fn secp_pub(scalar: [u8; 32]) -> [u8; 33] {
    let secp = bitcoin::secp256k1::Secp256k1::new();
    let sk = bitcoin::secp256k1::SecretKey::from_slice(&scalar).unwrap();
    bitcoin::secp256k1::PublicKey::from_secret_key(&secp, &sk).serialize()
}

#[test]
fn sign_psbt_signs_hinted_legacy_inputs() {
    let mut vault = Vault::new_empty();
    vault
        .seed(
            String::from("A"),
            None,
            Chain::Regtest,
            KeyApplication::Pkh,
            &secp_pub([0x01u8; 32]),
        )
        .unwrap();
    let master_id = vault.keyrings[0].master_account.identifier();
    let master_fp = vault.keyrings[0].master_account.fingerprint();
    let mut key = [0x01u8; 32];
    let info = vault
        .derive(&master_id, vec![0, 1], String::from("sub"), None, Vec::new(), &mut key)
        .unwrap();
    let sub_pub = vault.xpub(&info.id).unwrap().pubkey;

    // A funding transaction paying to the derived key, and an unsigned
    // transaction spending its only output
    let sub_btc_pub = bitcoin::PublicKey::from_slice(&sub_pub).unwrap();
    let funding_script = bitcoin::ScriptBuf::new_p2pkh(&sub_btc_pub.pubkey_hash());
    let funding = bitcoin::Transaction {
        version: bitcoin::transaction::Version::ONE,
        lock_time: bitcoin::absolute::LockTime::ZERO,
        input: Vec::new(),
        output: vec![bitcoin::TxOut {
            value: bitcoin::Amount::from_sat(50_000),
            script_pubkey: funding_script.clone(),
        }],
    };
    let unsigned = bitcoin::Transaction {
        version: bitcoin::transaction::Version::ONE,
        lock_time: bitcoin::absolute::LockTime::ZERO,
        input: vec![bitcoin::TxIn {
            previous_output: bitcoin::OutPoint { txid: funding.compute_txid(), vout: 0 },
            script_sig: bitcoin::ScriptBuf::new(),
            sequence: bitcoin::Sequence::MAX,
            witness: bitcoin::Witness::new(),
        }],
        output: vec![bitcoin::TxOut {
            value: bitcoin::Amount::from_sat(49_000),
            script_pubkey: funding_script.clone(),
        }],
    };
    let psbt = Psbt {
        unsigned_tx: bitcoin::consensus::serialize(&unsigned),
        inputs: vec![PsbtInput {
            bip32_derivation: vec![(sub_pub, master_fp, vec![0, 1])],
            non_witness_utxo_scripts: Some(vec![funding_script.as_bytes().to_vec()]),
            prevout_vout: 0,
            partial_sigs: Vec::new(),
            sighash_type: None,
        }],
    };

    let mut key = [0x01u8; 32];
    let signed = vault.sign_psbt(psbt, &mut key).unwrap();
    assert_ne!(key, [0x01u8; 32], "the decryption key must be wiped");
    assert_eq!(signed.inputs.len(), 1);
    assert_eq!(signed.inputs[0].sighash_type, Some(1));
    assert_eq!(signed.inputs[0].partial_sigs.len(), 1);
    let (pk, sig) = &signed.inputs[0].partial_sigs[0];
    assert_eq!(pk, &sub_pub);
    assert_eq!(*sig.last().unwrap(), 1u8, "the sighash byte trails the signature");

    // The signature verifies against the input's legacy sighash
    let cache = bitcoin::sighash::SighashCache::new(&unsigned);
    let sighash = cache.legacy_signature_hash(0, &funding_script, 1).unwrap();
    let secp = bitcoin::secp256k1::Secp256k1::new();
    let msg = bitcoin::secp256k1::Message::from_digest(*bitcoin::hashes::Hash::as_byte_array(
        &sighash,
    ));
    let der = bitcoin::secp256k1::ecdsa::Signature::from_der(&sig[..sig.len() - 1]).unwrap();
    let pubkey = bitcoin::secp256k1::PublicKey::from_slice(&sub_pub).unwrap();
    assert!(secp.verify_ecdsa(&msg, &der, &pubkey).is_ok());
}

#[test]
fn sign_psbt_without_hints_changes_nothing() {
    let mut vault = Vault::new_empty();
    vault
        .seed(
            String::from("A"),
            None,
            Chain::Regtest,
            KeyApplication::Pkh,
            &secp_pub([0x01u8; 32]),
        )
        .unwrap();
    let unsigned = bitcoin::Transaction {
        version: bitcoin::transaction::Version::ONE,
        lock_time: bitcoin::absolute::LockTime::ZERO,
        input: Vec::new(),
        output: Vec::new(),
    };
    let psbt = Psbt {
        unsigned_tx: bitcoin::consensus::serialize(&unsigned),
        inputs: vec![PsbtInput {
            bip32_derivation: Vec::new(),
            non_witness_utxo_scripts: None,
            prevout_vout: 0,
            partial_sigs: Vec::new(),
            sighash_type: None,
        }],
    };
    let mut key = [0x01u8; 32];
    let signed = vault.sign_psbt(psbt, &mut key).unwrap();
    assert_eq!(signed.inputs[0].partial_sigs.len(), 0);
    assert_eq!(signed.inputs[0].sighash_type, None);
}

#[test]
fn sign_psbt_requires_the_funding_outputs() {
    let mut vault = Vault::new_empty();
    vault
        .seed(
            String::from("A"),
            None,
            Chain::Regtest,
            KeyApplication::Pkh,
            &secp_pub([0x01u8; 32]),
        )
        .unwrap();
    let master_fp = vault.keyrings[0].master_account.fingerprint();
    let master_pub = vault.keyrings[0].master_account.xpubkey.pubkey;
    let unsigned = bitcoin::Transaction {
        version: bitcoin::transaction::Version::ONE,
        lock_time: bitcoin::absolute::LockTime::ZERO,
        input: Vec::new(),
        output: Vec::new(),
    };
    let psbt = Psbt {
        unsigned_tx: bitcoin::consensus::serialize(&unsigned),
        inputs: vec![PsbtInput {
            bip32_derivation: vec![(master_pub, master_fp, Vec::new())],
            non_witness_utxo_scripts: None,
            prevout_vout: 0,
            partial_sigs: Vec::new(),
            sighash_type: None,
        }],
    };
    let mut key = [0x01u8; 32];
    assert!(matches!(
        vault.sign_psbt(psbt, &mut key),
        Err(keyring::error::RuntimeError::Transport)
    ));
}
