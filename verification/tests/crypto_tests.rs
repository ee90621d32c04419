//! Tests of the cryptographic layers: the blinding scheme's round trip, the
//! HMAC construction against a published vector, and BIP32 derivation against
//! an independent implementation.

use keyring::bip32;
use keyring::elgamal;
use keyring::hashes;
use keyring::slip132::{Chain, KeyApplication};

fn secp_pub(scalar: [u8; 32]) -> [u8; 33] {
    let secp = bitcoin::secp256k1::Secp256k1::new();
    let sk = bitcoin::secp256k1::SecretKey::from_slice(&scalar).unwrap();
    bitcoin::secp256k1::PublicKey::from_secret_key(&secp, &sk).serialize()
}

#[test]
fn elgamal_round_trip() {
    let d = [0x01u8; 32];
    let b = [0x02u8; 32];
    let encryption_key = secp_pub(d);
    let unblinding = secp_pub(b);
    let message: Vec<u8> = (0u8..78).collect();
    let cipher = elgamal::encrypt(&message, &encryption_key, &b).unwrap();
    assert_eq!(cipher.len(), 96);
    assert_ne!(&cipher[..78], &message[..]);
    let plain = elgamal::decrypt(&cipher, &d, &unblinding).unwrap();
    assert_eq!(plain, message);
}

#[test]
fn elgamal_round_trip_empty_and_block_sized() {
    let d = [0x11u8; 32];
    let b = [0x22u8; 32];
    let encryption_key = secp_pub(d);
    let unblinding = secp_pub(b);
    for len in [0usize, 1, 31, 32, 33, 64] {
        let message: Vec<u8> = vec![0xabu8; len];
        let cipher = elgamal::encrypt(&message, &encryption_key, &b).unwrap();
        assert_eq!(cipher.len() % 32, 0);
        let plain = elgamal::decrypt(&cipher, &d, &unblinding).unwrap();
        assert_eq!(plain, message);
    }
}

#[test]
fn elgamal_wrong_key_fails() {
    let d = [0x01u8; 32];
    let b = [0x02u8; 32];
    let wrong = [0x03u8; 32];
    let encryption_key = secp_pub(d);
    let unblinding = secp_pub(b);
    let message: Vec<u8> = (0u8..78).collect();
    let cipher = elgamal::encrypt(&message, &encryption_key, &b).unwrap();
    match elgamal::decrypt(&cipher, &wrong, &unblinding) {
        Ok(plain) => assert_ne!(plain, message),
        Err(_) => {},
    }
}

#[test]
fn elgamal_rejects_unpadded_length() {
    let d = [0x01u8; 32];
    let unblinding = secp_pub([0x02u8; 32]);
    let cipher = vec![0u8; 33];
    assert!(matches!(
        elgamal::decrypt(&cipher, &d, &unblinding),
        Err(elgamal::Error::UnpaddedLength)
    ));
    let empty: Vec<u8> = Vec::new();
    assert!(matches!(
        elgamal::decrypt(&empty, &d, &unblinding),
        Err(elgamal::Error::UnpaddedLength)
    ));
}

#[test]
fn hmac_sha512_rfc_vector() {
    // RFC 4231, test case 1
    let key = vec![0x0bu8; 20];
    let data = b"Hi There".to_vec();
    let mac = hashes::hmac_sha512(&key, &data);
    let expected = [
        0x87u8, 0xaa, 0x7c, 0xde, 0xa5, 0xef, 0x61, 0x9d, 0x4f, 0xf0, 0xb4, 0x24, 0x1a, 0x1d,
        0x6c, 0xb0, 0x23, 0x79, 0xf4, 0xe2, 0xce, 0x4e, 0xc2, 0x78, 0x7a, 0xd0, 0xb3, 0x05, 0x45,
        0xe1, 0x7c, 0xde, 0xda, 0xa8, 0x33, 0xb7, 0xd6, 0xb8, 0xa7, 0x02, 0x03, 0x8b, 0x27, 0x4e,
        0xae, 0xa3, 0xf4, 0xe4, 0xbe, 0x9d, 0x91, 0x4e, 0xeb, 0x61, 0xf1, 0x70, 0x2e, 0x69, 0x6c,
        0x20, 0x3a, 0x12, 0x68, 0x54,
    ];
    assert_eq!(mac, expected.to_vec());
}

#[test]
fn bip32_master_matches_reference_implementation() {
    // BIP32 test vector 1 seed
    let seed: Vec<u8> = vec![
        0x00, 0x01, 0x02, 0x03, 0x04, 0x05, 0x06, 0x07, 0x08, 0x09, 0x0a, 0x0b, 0x0c, 0x0d, 0x0e,
        0x0f,
    ];
    let version = keyring::slip132::resolve_version(Chain::Mainnet, KeyApplication::Pkh, true);
    assert_eq!(version, 0x0488ADE4);
    let mine = bip32::new_master(&seed, version).unwrap();
    let encoded = bip32::encode_xpriv(&mine);
    let reference =
        bitcoin::bip32::Xpriv::new_master(bitcoin::Network::Bitcoin, &seed).unwrap();
    assert_eq!(encoded, reference.encode().to_vec());
}

#[test]
fn bip32_derivation_matches_reference_implementation() {
    let seed: Vec<u8> = vec![
        0x00, 0x01, 0x02, 0x03, 0x04, 0x05, 0x06, 0x07, 0x08, 0x09, 0x0a, 0x0b, 0x0c, 0x0d, 0x0e,
        0x0f,
    ];
    let version = keyring::slip132::resolve_version(Chain::Mainnet, KeyApplication::Pkh, true);
    let master = bip32::new_master(&seed, version).unwrap();
    // m/0'/1/2'
    let path: Vec<u32> = vec![0x8000_0000, 1, 0x8000_0002];
    let child = bip32::derive_xpriv(&master, &path).unwrap();
    let secp = bitcoin::secp256k1::Secp256k1::new();
    let reference = bitcoin::bip32::Xpriv::new_master(bitcoin::Network::Bitcoin, &seed)
        .unwrap()
        .derive_priv(
            &secp,
            &[
                bitcoin::bip32::ChildNumber::from_hardened_idx(0).unwrap(),
                bitcoin::bip32::ChildNumber::from_normal_idx(1).unwrap(),
                bitcoin::bip32::ChildNumber::from_hardened_idx(2).unwrap(),
            ],
        )
        .unwrap();
    assert_eq!(bip32::encode_xpriv(&child), reference.encode().to_vec());
}

#[test]
fn bip32_codec_round_trip() {
    let seed: Vec<u8> = vec![0x42u8; 32];
    let version = keyring::slip132::resolve_version(Chain::Testnet3, KeyApplication::Wpkh, true);
    let master = bip32::new_master(&seed, version).unwrap();
    let encoded = bip32::encode_xpriv(&master);
    assert_eq!(encoded.len(), 78);
    let decoded = bip32::decode_xpriv(&encoded).unwrap();
    assert_eq!(bip32::encode_xpriv(&decoded), encoded);
    let xpub = bip32::neuter(&master).unwrap();
    let pe = bip32::encode_xpub(&xpub);
    let pd = bip32::decode_xpub(&pe).unwrap();
    assert_eq!(bip32::encode_xpub(&pd), pe);
}

#[test]
fn bip32_decode_rejects_bad_length_and_marker() {
    let short = vec![0u8; 77];
    assert!(bip32::decode_xpriv(&short).is_none());
    let mut bad = vec![0u8; 78];
    bad[45] = 1;
    assert!(bip32::decode_xpriv(&bad).is_none());
    // an all-zero scalar is outside the group
    let mut zero_key = vec![0u8; 78];
    zero_key[45] = 0;
    assert!(bip32::decode_xpriv(&zero_key).is_none());
}

#[test]
fn slip132_table_matches_standard() {
    assert_eq!(
        keyring::slip132::resolve_version(Chain::Mainnet, KeyApplication::Wpkh, false),
        0x04B24746
    );
    assert_eq!(
        keyring::slip132::resolve_version(Chain::Mainnet, KeyApplication::WpkhInSh, true),
        0x049D7878
    );
    assert_eq!(
        keyring::slip132::resolve_version(Chain::Signet, KeyApplication::Pkh, false),
        0x043587CF
    );
    assert_eq!(
        keyring::slip132::resolve_version(Chain::Regtest, KeyApplication::Wsh, true),
        0x02575048
    );
    assert_eq!(keyring::slip132::neuter_version(0x0488ADE4), Some(0x0488B21E));
    assert_eq!(keyring::slip132::neuter_version(0xDEADBEEF), None);
}
