//! Signed transactions.

use sqnr::key::{PubKey, SigningKey};
use sqnr::protocol::{Action, Command};
use sqnr::{Error, Operation, SignedTransaction, Signer, SoftwareSigner, Transaction, TX_CONTEXT};

fn signer() -> SoftwareSigner {
    SoftwareSigner::new(SigningKey::from_bytes(&[9u8; 32]))
}

fn tx(server: PubKey) -> Transaction {
    Transaction {
        server,
        nonce: [3u8; 32],
        ops: vec![
            Operation {
                summary: "Enable the whitelist".into(),
                detail: vec![],
                payload: vec![0x01],
            },
            Operation {
                summary: "Add a peer".into(),
                detail: vec!["peer: abc".into()],
                payload: vec![0x03, 5, 5, 5],
            },
        ],
    }
}

fn one(op: Operation) -> Transaction {
    Transaction {
        server: PubKey::new([1u8; 32]),
        nonce: [0u8; 32],
        ops: vec![op],
    }
}

fn op(summary: String, detail: Vec<String>, payload: Vec<u8>) -> Operation {
    Operation {
        summary,
        detail,
        payload,
    }
}

fn recoded(t: Transaction) -> Result<SignedTransaction, String> {
    let signed = SignedTransaction::create(t, &signer());
    SignedTransaction::decode(&signed.encode()).map_err(|e| e.to_string())
}

#[test]
fn round_trip_multi_op() {
    let server = PubKey::new([1u8; 32]);
    let signed = SignedTransaction::create(tx(server), &signer());
    let bytes = signed.encode();
    let back = SignedTransaction::decode(&bytes).unwrap();
    assert_eq!(signed, back);
    assert_eq!(back.transaction.ops.len(), 2);
}

#[test]
fn tx_valid_signature_verifies() {
    let server = PubKey::new([1u8; 32]);
    let signed = SignedTransaction::create(tx(server), &signer());
    assert!(signed.verify(&server).is_ok());
}

#[test]
fn tx_rejects_wrong_server() {
    let server = PubKey::new([1u8; 32]);
    let other = PubKey::new([2u8; 32]);
    let signed = SignedTransaction::create(tx(server), &signer());
    assert!(matches!(signed.verify(&other), Err(Error::WrongServer)));
}

#[test]
fn rejects_tampered_payload() {
    let server = PubKey::new([1u8; 32]);
    let mut signed = SignedTransaction::create(tx(server), &signer());
    signed.transaction.ops[0].payload = vec![0x02]; // tamper after signing
    assert!(matches!(signed.verify(&server), Err(Error::BadSignature)));
}

#[test]
fn rejects_tampered_summary() {
    let server = PubKey::new([1u8; 32]);
    let mut signed = SignedTransaction::create(tx(server), &signer());
    signed.transaction.ops[0].summary = "Disable the whitelist".into();
    assert!(matches!(signed.verify(&server), Err(Error::BadSignature)));
}

#[test]
fn tx_rejects_signature_from_other_key() {
    let server = PubKey::new([1u8; 32]);
    let mut signed = SignedTransaction::create(tx(server), &signer());
    signed.admin = PubKey::new(
        SigningKey::from_bytes(&[11u8; 32])
            .verifying_key()
            .to_bytes(),
    );
    assert!(matches!(signed.verify(&server), Err(Error::BadSignature)));
}

#[test]
fn tx_decode_rejects_trailing_bytes() {
    let server = PubKey::new([1u8; 32]);
    let mut bytes = SignedTransaction::create(tx(server), &signer()).encode();
    bytes.push(0);
    assert!(SignedTransaction::decode(&bytes).is_err());
}

#[test]
fn empty_batch_round_trips() {
    let server = PubKey::new([7u8; 32]);
    let t = Transaction {
        server,
        nonce: [0u8; 32],
        ops: vec![],
    };
    let signed = SignedTransaction::create(t, &signer());
    let back = SignedTransaction::decode(&signed.encode()).unwrap();
    assert_eq!(signed, back);
}

#[test]
fn transaction_bytes() {
    let mut expected = vec![1u8; 32];
    expected.extend_from_slice(&[3u8; 32]);
    expected.extend_from_slice(&[0, 0, 0, 2]);
    expected.extend_from_slice(&[0, 0, 0, 20]);
    expected.extend_from_slice(b"Enable the whitelist");
    expected.extend_from_slice(&[0, 0, 0, 0]);
    expected.extend_from_slice(&[0, 0, 0, 1, 0x01]);
    expected.extend_from_slice(&[0, 0, 0, 10]);
    expected.extend_from_slice(b"Add a peer");
    expected.extend_from_slice(&[0, 0, 0, 1, 0, 0, 0, 9]);
    expected.extend_from_slice(b"peer: abc");
    expected.extend_from_slice(&[0, 0, 0, 4, 0x03, 5, 5, 5]);
    assert_eq!(tx(PubKey::new([1u8; 32])).encode(), expected);
}

#[test]
fn signing_bytes_are_context_and_hash() {
    let message = tx(PubKey::new([1u8; 32])).signing_bytes();
    assert_eq!(message.len(), 42);
    assert_eq!(&message[..10], b"sqnr-tx-v1");
    assert_eq!(&message[..10], &TX_CONTEXT[..]);
    assert_eq!(
        hex::encode(&message[10..]),
        "5458893e481fca3a1812e06891d41c327e5cd6c316c3e898623685c484c71633"
    );
    let empty = Transaction {
        server: PubKey::new([7u8; 32]),
        nonce: [0u8; 32],
        ops: vec![],
    };
    assert_eq!(
        hex::encode(&empty.signing_bytes()[10..]),
        "f8f01e3ab948d20d69642937729d1b7e333da869c6e1952b835ceee293373b5d"
    );
}

#[test]
fn a_transaction_decodes_to_what_encodes_it() {
    let bytes = SignedTransaction::create(tx(PubKey::new([1u8; 32])), &signer()).encode();
    assert_eq!(SignedTransaction::decode(&bytes).unwrap().encode(), bytes);
}

#[test]
fn detail_lines_tell_transactions_apart() {
    let a = one(op("s".into(), vec!["ab".into(), "c".into()], vec![]));
    let b = one(op("s".into(), vec!["a".into(), "bc".into()], vec![]));
    assert_ne!(a.encode(), b.encode());
    assert_ne!(a.signing_bytes(), b.signing_bytes());
}

#[test]
fn batches_beyond_the_bounds_are_told_apart_too() {
    // Neither decodes, and yet they do not share their signed bytes.
    let a = one(op("s".repeat(5000), vec!["d".into(); 40], vec![1]));
    let b = one(op("s".repeat(5000), vec!["d".into(); 40], vec![2]));
    let c = one(op("s".repeat(4999), vec!["sd".into(); 40], vec![1]));
    assert_ne!(a.encode(), b.encode());
    assert_ne!(a.signing_bytes(), b.signing_bytes());
    assert_ne!(a.signing_bytes(), c.signing_bytes());
    assert!(recoded(a.clone()).is_err());
    // No encoding begins with another.
    let mut longer = a.clone();
    longer.ops.push(op("t".into(), vec![], vec![]));
    assert!(!longer.encode().starts_with(&a.encode()));
    // What was signed verifies all the same.
    let signed = SignedTransaction::create(a, &signer());
    assert!(signed.verify(&PubKey::new([1u8; 32])).is_ok());
}

#[test]
fn a_signature_made_elsewhere_verifies_too() {
    // As a card does it: sign the message out of band, and put the parts together.
    let server = PubKey::new([1u8; 32]);
    let key = SigningKey::from_bytes(&[12u8; 32]);
    let transaction = tx(server);
    let signature = key.sign(&transaction.signing_bytes());
    let signed = SignedTransaction {
        transaction,
        admin: PubKey::from(key.verifying_key()),
        signature,
    };
    assert!(signed.verify(&server).is_ok());
    assert!(matches!(signed.verify(&PubKey::new([2u8; 32])), Err(Error::WrongServer)));
}

#[test]
fn no_message_is_signed_in_both_protocols() {
    let t = tx(PubKey::new([1u8; 32]));
    let c = Command {
        action: Action::Status,
        nonce: [3u8; 32],
        server: PubKey::new([1u8; 32]),
    };
    assert_ne!(t.signing_bytes(), c.signing_bytes());
    assert_ne!(t.signing_bytes()[2], c.signing_bytes()[2]);
}

#[test]
fn bounds_of_decoding_are_met_at_the_limit() {
    let full = op("s".repeat(4096), vec!["d".repeat(4096); 32], vec![7; 65536]);
    let t = one(full);
    let back = recoded(t.clone()).unwrap();
    assert_eq!(back.transaction, t);

    let many = Transaction {
        server: PubKey::new([1u8; 32]),
        nonce: [0u8; 32],
        ops: vec![op("s".into(), vec![], vec![]); 64],
    };
    assert_eq!(recoded(many.clone()).unwrap().transaction, many);
}

#[test]
fn bounds_of_decoding_are_kept_past_the_limit() {
    let too_many = Transaction {
        server: PubKey::new([1u8; 32]),
        nonce: [0u8; 32],
        ops: vec![op("s".into(), vec![], vec![]); 65],
    };
    assert_eq!(recoded(too_many).unwrap_err(), "malformed message: too many ops: 65");
    assert_eq!(
        recoded(one(op("s".into(), vec!["d".into(); 33], vec![]))).unwrap_err(),
        "malformed message: too many detail lines: 33"
    );
    assert_eq!(
        recoded(one(op("s".repeat(4097), vec![], vec![]))).unwrap_err(),
        "malformed message: field of 4097 bytes exceeds 4096"
    );
    assert_eq!(
        recoded(one(op("s".into(), vec!["d".repeat(5000)], vec![]))).unwrap_err(),
        "malformed message: field of 5000 bytes exceeds 4096"
    );
    assert_eq!(
        recoded(one(op("s".into(), vec![], vec![0; 65537]))).unwrap_err(),
        "malformed message: field of 65537 bytes exceeds 65536"
    );
}

#[test]
fn texts_have_to_be_utf8() {
    let t = one(op("\u{20ac}uro".into(), vec![], vec![]));
    assert_eq!(recoded(t.clone()).unwrap().transaction, t);

    let mut bytes = SignedTransaction::create(t, &signer()).encode();
    // The summary begins behind server, nonce, count and its own length.
    bytes[72] = 0xff;
    let e = SignedTransaction::decode(&bytes).unwrap_err();
    assert_eq!(e.to_string(), "malformed message: invalid utf-8");
}

#[test]
fn a_cut_message_is_refused_everywhere() {
    let bytes = SignedTransaction::create(tx(PubKey::new([1u8; 32])), &signer()).encode();
    for n in 0..bytes.len() {
        assert!(SignedTransaction::decode(&bytes[..n]).is_err());
    }
    let e = SignedTransaction::decode(&bytes[..10]).unwrap_err();
    assert_eq!(e.to_string(), "malformed message: unexpected end of message");
}

#[test]
fn trailing_bytes_are_counted() {
    let mut bytes = SignedTransaction::create(tx(PubKey::new([1u8; 32])), &signer()).encode();
    bytes.extend_from_slice(&[0; 12]);
    let e = SignedTransaction::decode(&bytes).unwrap_err();
    assert_eq!(e.to_string(), "malformed message: 12 trailing bytes");
}

#[test]
fn the_software_signer_gives_its_seed_and_key() {
    assert_eq!(signer().seed(), [9u8; 32]);
    let public = SigningKey::from_bytes(&[9u8; 32]).verifying_key().to_bytes();
    assert_eq!(signer().public(), public);
    let signed = SignedTransaction::create(tx(PubKey::new([1u8; 32])), &signer());
    assert_eq!(signed.admin, PubKey::new(public));
}

#[test]
fn a_key_that_is_no_point_verifies_nothing() {
    let server = PubKey::new([1u8; 32]);
    let mut signed = SignedTransaction::create(tx(server), &signer());
    let mut none = [0u8; 32];
    none[0] = 2;
    signed.admin = PubKey::new(none);
    assert!(matches!(signed.verify(&server), Err(Error::Key(_))));
}
