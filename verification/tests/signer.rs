use ckb_default_impls::secp::SecretKey;
use ckb_default_impls::signer::{serialize_signature, SecpCkbRawKeySigner, SignerError};
use ckb_default_impls::table::Table;
use ckb_default_impls::views::TransactionView;
use ckb_types::prelude::Entity;
use secp256k1::recovery::{RecoverableSignature, RecoveryId};

fn key(byte: u8) -> SecretKey {
    SecretKey::from_slice(&[byte; 32]).unwrap()
}

fn outside_key(byte: u8) -> secp256k1::SecretKey {
    secp256k1::SecretKey::from_slice(&[byte; 32]).unwrap()
}

fn outside_public_key(byte: u8) -> secp256k1::PublicKey {
    secp256k1::PublicKey::from_secret_key(&secp256k1::Secp256k1::new(), &outside_key(byte))
}

fn id(byte: u8) -> Vec<u8> {
    ckb_hash::blake2b_256(&outside_public_key(byte).serialize()[..])[0..20].to_vec()
}

fn tx() -> TransactionView {
    TransactionView::from_slice(ckb_types::packed::Transaction::default().as_slice()).unwrap()
}

#[test]
fn ids_are_hashes_of_public_keys() {
    let mut signer = SecpCkbRawKeySigner::default();
    assert!(!signer.match_id(&id(1)));
    signer.add_secret_key(key(1));
    assert!(signer.match_id(&id(1)));
    assert!(!signer.match_id(&id(2)));
    signer.add_secret_key(key(2));
    signer.add_secret_key(key(2));
    assert!(signer.match_id(&id(1)));
    assert!(signer.match_id(&id(2)));
}

#[test]
fn ids_have_twenty_bytes() {
    let signer = SecpCkbRawKeySigner::new_with_secret_keys(vec![key(1)]);
    assert!(signer.match_id(&id(1)));
    assert!(!signer.match_id(&id(1)[..19]));
    assert!(!signer.match_id(&[]));
    let mut longer = id(1);
    longer.push(0);
    assert!(!signer.match_id(&longer));
}

#[test]
fn known_id_of_a_key() {
    // The id in the development chain's well-known genesis account.
    let secret = "d00c06bfd800d27397002dca6fb0993d5ba6399b4238b2f29ee9deb97593d2bc";
    let bytes: Vec<u8> = (0..32)
        .map(|i| u8::from_str_radix(&secret[2 * i..2 * i + 2], 16).unwrap())
        .collect();
    let expected = "c8328aabcd9b9e8e64fbc566c4385c3bdeb219d7";
    let id: Vec<u8> = (0..20)
        .map(|i| u8::from_str_radix(&expected[2 * i..2 * i + 2], 16).unwrap())
        .collect();
    let signer =
        SecpCkbRawKeySigner::new_with_secret_keys(vec![SecretKey::from_slice(&bytes).unwrap()]);
    assert!(signer.match_id(&id));
}

#[test]
fn signature_verifies() {
    let signer = SecpCkbRawKeySigner::new_with_secret_keys(vec![key(1), key(2)]);
    let message = [5; 32];
    let signature = signer.sign(&id(2), &message, false, &tx()).unwrap();
    assert_eq!(signature.len(), 64);
    let secp = secp256k1::Secp256k1::new();
    let msg = secp256k1::Message::from_slice(&message).unwrap();
    assert_eq!(
        signature,
        secp.sign(&msg, &outside_key(2)).serialize_compact().to_vec()
    );
    let parsed = secp256k1::Signature::from_compact(&signature).unwrap();
    assert!(secp.verify(&msg, &parsed, &outside_public_key(2)).is_ok());
    assert!(secp.verify(&msg, &parsed, &outside_public_key(1)).is_err());
}

#[test]
fn recoverable_signature_gives_the_public_key() {
    let signer = SecpCkbRawKeySigner::new_with_secret_keys(vec![key(1), key(2)]);
    for byte in [1, 2] {
        for message in [[5; 32], [6; 32], [0xff; 32], [0; 32]] {
            let signature = signer.sign(&id(byte), &message, true, &tx()).unwrap();
            assert_eq!(signature.len(), 65);
            let recovery_id = RecoveryId::from_i32(i32::from(signature[64])).unwrap();
            let parsed = RecoverableSignature::from_compact(&signature[..64], recovery_id).unwrap();
            let msg = secp256k1::Message::from_slice(&message).unwrap();
            assert_eq!(
                secp256k1::Secp256k1::new().recover(&msg, &parsed).unwrap(),
                outside_public_key(byte)
            );
        }
    }
}

#[test]
fn signing_again_gives_the_same() {
    let signer = SecpCkbRawKeySigner::new_with_secret_keys(vec![key(3)]);
    for recoverable in [false, true] {
        assert_eq!(
            signer.sign(&id(3), &[1; 32], recoverable, &tx()),
            signer.clone().sign(&id(3), &[1; 32], recoverable, &tx())
        );
    }
}

#[test]
fn unknown_id() {
    let signer = SecpCkbRawKeySigner::new_with_secret_keys(vec![key(1)]);
    assert_eq!(
        signer.sign(&id(2), &[0; 32], true, &tx()),
        Err(SignerError::IdNotFound)
    );
    assert_eq!(
        signer.sign(&id(2), &[0; 3], true, &tx()),
        Err(SignerError::IdNotFound)
    );
    assert_eq!(
        signer.sign(&[], &[0; 32], false, &tx()),
        Err(SignerError::IdNotFound)
    );
}

#[test]
fn message_of_another_length() {
    let signer = SecpCkbRawKeySigner::new_with_secret_keys(vec![key(1)]);
    for (len, text) in [
        (0, "expected length: 32, got: 0"),
        (31, "expected length: 32, got: 31"),
        (100, "expected length: 32, got: 100"),
    ] {
        assert_eq!(
            signer.sign(&id(1), &vec![0; len], true, &tx()),
            Err(SignerError::InvalidMessage(text.to_string()))
        );
    }
}

#[test]
fn keys_under_chosen_ids() {
    let mut keys = Table::new();
    keys.insert([9; 20], key(4));
    let signer = SecpCkbRawKeySigner::new(keys);
    assert!(signer.match_id(&[9; 20]));
    assert!(!signer.match_id(&id(4)));
    let by_own_id = SecpCkbRawKeySigner::new_with_secret_keys(vec![key(4)]);
    assert_eq!(
        signer.sign(&[9; 20], &[2; 32], true, &tx()),
        by_own_id.sign(&id(4), &[2; 32], true, &tx())
    );
}

#[test]
fn wiped_signer_knows_nothing() {
    let mut signer = SecpCkbRawKeySigner::new_with_secret_keys(vec![key(1), key(2), key(3)]);
    let copied = signer.clone();
    let overwritten = signer.wipe();
    for byte in [1, 2, 3] {
        let mut own_id = [0; 20];
        own_id.copy_from_slice(&id(byte));
        assert_eq!(*overwritten.get(&own_id).unwrap().as_bytes(), [0; 32]);
    }
    assert!(!overwritten.contains_key(&[9; 20]));
    for byte in [1, 2, 3] {
        assert!(!signer.match_id(&id(byte)));
        assert!(copied.match_id(&id(byte)));
    }
    signer.wipe();
    signer.add_secret_key(key(2));
    assert!(signer.match_id(&id(2)));
}

#[test]
fn keys_are_overwritten() {
    let mut keys = Table::new();
    for byte in 1..5 {
        keys.insert([byte; 20], key(byte));
        assert_eq!(*key(byte).as_bytes(), [byte; 32]);
    }
    keys.fill(&SecretKey::zeroed());
    for byte in 1..5 {
        assert_eq!(*keys.get(&[byte; 20]).unwrap().as_bytes(), [0; 32]);
    }
    assert!(!keys.contains_key(&[5; 20]));
}

#[test]
fn both_forms_carry_the_same_signature() {
    let signer = SecpCkbRawKeySigner::new_with_secret_keys(vec![key(1), key(2)]);
    let other_tx = TransactionView {
        data: vec![],
        hash: [1; 32],
        witness_hash: [2; 32],
    };
    for byte in [1, 2] {
        for message in [[5; 32], [6; 32], [0xff; 32], [0; 32]] {
            let recoverable = signer.sign(&id(byte), &message, true, &tx()).unwrap();
            let plain = signer.sign(&id(byte), &message, false, &other_tx).unwrap();
            assert_eq!(recoverable[..64], plain[..]);
        }
    }
}

#[test]
fn recovery_id_comes_last() {
    let mut data = [7; 64];
    data[0] = 1;
    data[63] = 2;
    let signature = serialize_signature(&data, 3);
    assert_eq!(signature[..64], data[..]);
    assert_eq!(signature[64], 3);
}

#[test]
fn secret_keys_are_below_the_order() {
    assert!(SecretKey::from_slice(&[0; 32]).is_none());
    assert!(SecretKey::from_slice(&[1; 31]).is_none());
    assert!(SecretKey::from_slice(&[1; 33]).is_none());
    assert!(SecretKey::from_slice(&[0xff; 32]).is_none());
    let order = [
        0xff, 0xff, 0xff, 0xff, 0xff, 0xff, 0xff, 0xff, 0xff, 0xff, 0xff, 0xff, 0xff, 0xff, 0xff,
        0xfe, 0xba, 0xae, 0xdc, 0xe6, 0xaf, 0x48, 0xa0, 0x3b, 0xbf, 0xd2, 0x5e, 0x8c, 0xd0, 0x36,
        0x41, 0x41,
    ];
    assert!(SecretKey::from_slice(&order).is_none());
    let mut below = order;
    below[31] = 0x40;
    assert!(SecretKey::from_slice(&below).is_some());
    let mut one = [0; 32];
    one[31] = 1;
    assert!(SecretKey::from_slice(&one).is_some());
}

#[test]
fn public_key_is_compressed() {
    assert_eq!(key(6).public_key(), outside_public_key(6).serialize());
}
