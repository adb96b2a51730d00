//! Signed commands.

use sqnr::key::{PubKey, SigningKey};
use sqnr::protocol::{Action, Command, SignedCommand, Signer, SoftwareSigner, SIG_CONTEXT};
use sqnr::Error;

fn signer() -> SoftwareSigner {
    SoftwareSigner::new(SigningKey::from_bytes(&[9u8; 32]))
}

fn cmd(action: Action, server: PubKey) -> Command {
    Command {
        action,
        nonce: [3u8; 32],
        server,
    }
}

fn actions() -> Vec<Action> {
    vec![
        Action::WhitelistEnable,
        Action::WhitelistDisable,
        Action::WhitelistAdd(PubKey::new([5u8; 32])),
        Action::WhitelistRemove(PubKey::new([6u8; 32])),
        Action::WhitelistList,
        Action::Status,
        Action::ReloadAdmins,
        Action::AuditTail(42),
    ]
}

#[test]
fn command_encode_round_trip() {
    let server = PubKey::new([1u8; 32]);
    for action in [
        Action::WhitelistEnable,
        Action::WhitelistDisable,
        Action::WhitelistAdd(PubKey::new([5u8; 32])),
        Action::WhitelistRemove(PubKey::new([6u8; 32])),
        Action::WhitelistList,
        Action::Status,
        Action::ReloadAdmins,
        Action::AuditTail(42),
    ] {
        let signed = SignedCommand::create(cmd(action.clone(), server), &signer());
        let bytes = signed.encode();
        let back = SignedCommand::decode(&bytes).unwrap();
        assert_eq!(signed, back);
        assert_eq!(back.command.action, action);
    }
}

#[test]
fn protocol_valid_signature_verifies() {
    let server = PubKey::new([1u8; 32]);
    let signed = SignedCommand::create(cmd(Action::Status, server), &signer());
    assert!(signed.verify(&server).is_ok());
}

#[test]
fn protocol_rejects_wrong_server() {
    let server = PubKey::new([1u8; 32]);
    let other = PubKey::new([2u8; 32]);
    let signed = SignedCommand::create(cmd(Action::Status, server), &signer());
    assert!(matches!(signed.verify(&other), Err(Error::WrongServer)));
}

#[test]
fn rejects_tampered_action() {
    let server = PubKey::new([1u8; 32]);
    let mut signed = SignedCommand::create(cmd(Action::WhitelistEnable, server), &signer());
    signed.command.action = Action::WhitelistDisable; // tamper after signing
    assert!(matches!(signed.verify(&server), Err(Error::BadSignature)));
}

#[test]
fn rejects_tampered_nonce() {
    let server = PubKey::new([1u8; 32]);
    let mut signed = SignedCommand::create(cmd(Action::Status, server), &signer());
    signed.command.nonce = [0xff; 32];
    assert!(matches!(signed.verify(&server), Err(Error::BadSignature)));
}

#[test]
fn protocol_rejects_signature_from_other_key() {
    let server = PubKey::new([1u8; 32]);
    let mut signed = SignedCommand::create(cmd(Action::Status, server), &signer());
    // Claim a different admin identity than the one that signed.
    signed.admin = PubKey::new(
        SigningKey::from_bytes(&[11u8; 32])
            .verifying_key()
            .to_bytes(),
    );
    assert!(matches!(signed.verify(&server), Err(Error::BadSignature)));
}

#[test]
fn protocol_decode_rejects_trailing_bytes() {
    let server = PubKey::new([1u8; 32]);
    let mut bytes = SignedCommand::create(cmd(Action::Status, server), &signer()).encode();
    bytes.push(0);
    assert!(SignedCommand::decode(&bytes).is_err());
}

#[test]
fn command_bytes_are_action_nonce_server() {
    let server = PubKey::new([1u8; 32]);
    let mut expected = vec![0x08, 0, 0, 0, 42];
    expected.extend_from_slice(&[3u8; 32]);
    expected.extend_from_slice(&[1u8; 32]);
    let command = cmd(Action::AuditTail(42), server);
    assert_eq!(command.encode(), expected);

    let mut message = b"sqex-admin-v1".to_vec();
    message.extend_from_slice(&expected);
    assert_eq!(command.signing_bytes(), message);
    assert_eq!(&SIG_CONTEXT[..], b"sqex-admin-v1");

    let mut with_key = vec![0x03];
    with_key.extend_from_slice(&[5u8; 32]);
    with_key.extend_from_slice(&[3u8; 32]);
    with_key.extend_from_slice(&[1u8; 32]);
    assert_eq!(cmd(Action::WhitelistAdd(PubKey::new([5u8; 32])), server).encode(), with_key);
}

#[test]
fn tags_follow_the_order_of_the_actions() {
    let server = PubKey::new([1u8; 32]);
    for (i, action) in actions().into_iter().enumerate() {
        assert_eq!(cmd(action, server).encode()[0], i as u8 + 1);
    }
}

#[test]
fn names_and_mutations() {
    let told: Vec<(&str, bool)> = actions().iter().map(|a| (a.name(), a.is_mutation())).collect();
    assert_eq!(
        told,
        vec![
            ("whitelist-enable", true),
            ("whitelist-disable", true),
            ("whitelist-add", true),
            ("whitelist-remove", true),
            ("whitelist-list", false),
            ("status", false),
            ("reload-admins", true),
            ("audit-tail", false),
        ]
    );
}

#[test]
fn command_decode_errors_in_words() {
    let server = PubKey::new([1u8; 32]);
    let good = SignedCommand::create(cmd(Action::Status, server), &signer()).encode();

    let mut bytes = good.clone();
    bytes.extend_from_slice(&[0, 0, 0]);
    let e = SignedCommand::decode(&bytes).unwrap_err();
    assert_eq!(e.to_string(), "malformed message: 3 trailing bytes");

    let e = SignedCommand::decode(&good[..good.len() - 1]).unwrap_err();
    assert_eq!(e.to_string(), "malformed message: unexpected end of message");

    let e = SignedCommand::decode(&[]).unwrap_err();
    assert_eq!(e.to_string(), "malformed message: unexpected end of message");

    let mut bytes = good.clone();
    bytes[0] = 0xff;
    let e = SignedCommand::decode(&bytes).unwrap_err();
    assert_eq!(e.to_string(), "malformed message: unknown action tag 0xff");

    bytes[0] = 0;
    let e = SignedCommand::decode(&bytes).unwrap_err();
    assert_eq!(e.to_string(), "malformed message: unknown action tag 0x0");
}

#[test]
fn a_command_decodes_to_what_encodes_it() {
    let bytes = SignedCommand::create(
        cmd(Action::AuditTail(0xdeadbeef), PubKey::new([8u8; 32])),
        &signer(),
    )
    .encode();
    let back = SignedCommand::decode(&bytes).unwrap();
    assert_eq!(back.command.action, Action::AuditTail(0xdeadbeef));
    assert_eq!(back.encode(), bytes);
}

#[test]
fn verify_names_a_bad_key_before_a_bad_signature() {
    let server = PubKey::new([1u8; 32]);
    let mut signed = SignedCommand::create(cmd(Action::Status, server), &signer());
    let mut none = [0u8; 32];
    none[0] = 2;
    signed.admin = PubKey::new(none);
    assert!(matches!(signed.verify(&server), Err(Error::Key(_))));
    // The server binding is looked at first.
    assert!(matches!(signed.verify(&PubKey::new([2u8; 32])), Err(Error::WrongServer)));
}

#[test]
fn the_signer_named_is_the_signer() {
    let server = PubKey::new([1u8; 32]);
    let signed = SignedCommand::create(cmd(Action::Status, server), &signer());
    assert_eq!(signed.admin, PubKey::new(signer().public()));
    assert_eq!(signed.signature, signer().sign(&signed.command.signing_bytes()));
}
