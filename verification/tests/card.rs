//! Conversations with the card, and the rules of the commands.

use sqnr::card::{
    begin, deliver, ed25519_fingerprint, is_comm_failure, resume, settle, Access, Answer, Call, Data,
    Kind, Link, Outcome, Pending, Request, Step,
};
use sqnr::cli::{
    identity_path, keygen_path, keygen_report, provision, IdentityPath, Keygen,
};
use sqnr::PubKey;

fn answer(step: Step) -> Answer {
    match step {
        Step::Answer(a) => a,
        Step::Call(call, _) => panic!("unexpected call {call:?}"),
    }
}

fn text(a: Answer) -> String {
    match a {
        Answer::Key(r) => r.unwrap_err(),
        Answer::Unlocked(r) => r.unwrap_err(),
        Answer::Signature(r) => r.unwrap_err(),
    }
}

#[test]
fn provision_refuses_without_yubikey_and_before_touching_a_card() {
    let err = provision(false).expect_err("provision without --yubikey must refuse");
    assert!(err.contains("--yubikey"), "{err}");
    // Points at the right alternative rather than only saying no: somebody
    // reaching for this usually wants a software identity.
    assert!(err.contains("keygen"), "{err}");
}

#[test]
fn provision_goes_on_with_a_yubikey() {
    assert!(provision(true).is_ok());
    assert_eq!(
        provision(false).unwrap_err(),
        "provision writes a key to a YubiKey; pass --yubikey to say so. For a \
         software identity you want `sqnr keygen`."
    );
}

#[test]
fn reading_the_key() {
    assert!(matches!(begin(Request::Pubkey), Step::Call(Call::ReadKey, Pending::ReadKey)));
    let a = answer(resume(Pending::ReadKey, Ok(Data::Ecc(vec![5; 32]))));
    assert!(matches!(a, Answer::Key(Ok(k)) if k == [5; 32]));
    let a = answer(resume(Pending::ReadKey, Ok(Data::Ecc(vec![5; 33]))));
    assert_eq!(text(a), "auth key is not a 32-byte Ed25519 point");
    let a = answer(resume(Pending::ReadKey, Ok(Data::Rsa)));
    assert_eq!(text(a), "auth key is RSA, not Ed25519");
    let a = answer(resume(Pending::ReadKey, Err("nothing there".to_string())));
    assert_eq!(
        text(a),
        "no Ed25519 auth key (nothing there); generate one with `sqnr --yubikey provision`"
    );
}

#[test]
fn unlocking() {
    let step = begin(Request::Unlock("123456".to_string()));
    assert!(matches!(step, Step::Call(Call::VerifyUser(pin), Pending::VerifyUser) if pin == "123456"));
    let a = answer(resume(Pending::VerifyUser, Ok(Data::Nothing)));
    assert!(matches!(a, Answer::Unlocked(Ok(()))));
    let a = answer(resume(Pending::VerifyUser, Err("2 tries left".to_string())));
    assert_eq!(text(a), "PIN rejected: 2 tries left");
}

#[test]
fn signing_on_the_card() {
    let step = begin(Request::Sign(vec![1, 2]));
    assert!(
        matches!(step, Step::Call(Call::Authenticate(m), Pending::Authenticate) if m == vec![1, 2])
    );
    let a = answer(resume(Pending::Authenticate, Ok(Data::Signature(vec![6; 64]))));
    assert!(matches!(a, Answer::Signature(Ok(s)) if s == [6; 64]));
    let a = answer(resume(Pending::Authenticate, Ok(Data::Signature(vec![6; 63]))));
    assert_eq!(text(a), "card returned a non-64-byte signature");
    let a = answer(resume(Pending::Authenticate, Err("no touch".to_string())));
    assert_eq!(text(a), "sign failed: no touch");
}

#[test]
fn provisioning_step_by_step() {
    let step = begin(Request::Provision("12345678".to_string()));
    assert!(
        matches!(step, Step::Call(Call::VerifyAdmin(pin), Pending::VerifyAdmin) if pin == "12345678")
    );
    let step = resume(Pending::VerifyAdmin, Ok(Data::Nothing));
    assert!(matches!(step, Step::Call(Call::SetEd25519, Pending::SetEd25519)));
    let step = resume(Pending::SetEd25519, Ok(Data::Nothing));
    assert!(matches!(step, Step::Call(Call::GenerateKey, Pending::GenerateKey)));
    let a = answer(resume(Pending::GenerateKey, Ok(Data::Ecc(vec![8; 32]))));
    assert!(matches!(a, Answer::Key(Ok(k)) if k == [8; 32]));
}

#[test]
fn provisioning_that_fails() {
    let a = answer(resume(Pending::VerifyAdmin, Err("blocked".to_string())));
    assert_eq!(text(a), "admin PIN rejected: blocked");
    let a = answer(resume(Pending::SetEd25519, Err("e".to_string())));
    assert_eq!(text(a), "could not set the slot to Ed25519: e");
    let a = answer(resume(Pending::GenerateKey, Err("e".to_string())));
    assert_eq!(text(a), "key generation failed: e");
    let a = answer(resume(Pending::GenerateKey, Ok(Data::Rsa)));
    assert_eq!(text(a), "card generated a non-ECC key");
    let a = answer(resume(Pending::GenerateKey, Ok(Data::Ecc(vec![8; 31]))));
    assert_eq!(text(a), "generated key is not a 32-byte Ed25519 point");
}

#[test]
fn a_user_pin_is_not_shown_to_the_card_as_admin_pin() {
    let a = answer(begin(Request::Provision("123456".to_string())));
    assert_eq!(
        text(a),
        "admin PIN is 6 characters; PW3 needs at least 8. That is the ADMIN \
         PIN (default 12345678), not the 6-digit user PIN."
    );
}

#[test]
fn communication_failures_by_their_words() {
    let gone = |e: &str| is_comm_failure::<()>(&Err(e.to_string()));
    for e in [
        "Card was REMOVED",
        "Reset by peer",
        "could not transmit",
        "No Smart Card in reader",
        "not transacted",
        "reader Disconnected",
    ] {
        assert!(gone(e), "{e}");
    }
    for e in ["PIN rejected: wrong PIN", "", "remove", "trans mit", "no smartcard"] {
        assert!(!gone(e), "{e}");
    }
    assert!(!is_comm_failure(&Ok(1)));
}

#[test]
fn the_connection_is_kept_unless_the_card_is_gone() {
    let (a, link) = settle(Kind::Key, Outcome::NotOpened("no card".to_string()));
    assert!(matches!(a, Answer::Key(Err(_))));
    assert_eq!((text(a), link), ("no card".to_string(), Link::Closed));

    let (a, link) = settle(Kind::Signature, Outcome::NoTransaction("busy".to_string()));
    assert!(matches!(a, Answer::Signature(Err(_))));
    assert_eq!((text(a), link), ("busy".to_string(), Link::Closed));

    let rejected = Answer::Unlocked(Err("PIN rejected: wrong".to_string()));
    let (a, link) = settle(Kind::Unlocked, Outcome::Answered(rejected));
    assert_eq!((text(a), link), ("PIN rejected: wrong".to_string(), Link::Open));

    let lost = Answer::Signature(Err("sign failed: card removed".to_string()));
    let (a, link) = settle(Kind::Signature, Outcome::Answered(lost));
    assert_eq!((text(a), link), ("sign failed: card removed".to_string(), Link::Closed));

    let fine = Answer::Key(Ok([1; 32]));
    let (a, link) = settle(Kind::Key, Outcome::Answered(fine));
    assert!(matches!(a, Answer::Key(Ok(k)) if k == [1; 32]));
    assert_eq!(link, Link::Open);
}

#[test]
fn a_connection_over_five_requests() {
    let ok = || Outcome::Answered(Answer::Key(Ok([1; 32])));
    let lost = Outcome::Answered(Answer::Key(Err("card removed".to_string())));
    let outcomes = vec![Outcome::NotOpened("no card".to_string()), ok(), ok(), lost, ok()];
    let mut link = Link::Closed;
    let mut accesses = Vec::new();
    for outcome in outcomes {
        accesses.push(link.access());
        link = settle(Kind::Key, outcome).1;
    }
    assert_eq!(
        accesses,
        vec![Access::Open, Access::Open, Access::Use, Access::Use, Access::Open]
    );
    assert_eq!(link, Link::Open);
}

#[test]
fn requests_fail_in_kind() {
    let failed = |r: Request| settle(r.kind(), Outcome::NotOpened("e".to_string())).0;
    assert!(matches!(failed(Request::Pubkey), Answer::Key(Err(_))));
    assert!(matches!(failed(Request::Provision("12345678".to_string())), Answer::Key(Err(_))));
    assert!(matches!(failed(Request::Unlock("123456".to_string())), Answer::Unlocked(Err(_))));
    assert!(matches!(failed(Request::Sign(vec![1])), Answer::Signature(Err(_))));
}

#[test]
fn replies_of_the_owner_of_the_card() {
    assert_eq!(deliver::<u8>(false, None), Err("card thread stopped".to_string()));
    assert_eq!(deliver::<u8>(true, None), Err("card thread dropped the request".to_string()));
    assert_eq!(deliver(true, Some(Ok(7))), Ok(7));
    assert_eq!(deliver::<u8>(true, Some(Err("e".to_string()))), Err("e".to_string()));
}

#[test]
fn fingerprint_of_a_known_key() {
    let f = ed25519_fingerprint(&Data::Ecc(vec![5; 32]), 1_700_000_000).unwrap();
    assert_eq!(hex::encode(f), "c59bedd6e9d82033a5a5c28eb7ebd13720478a82");
    let e = ed25519_fingerprint(&Data::Rsa, 0).unwrap_err();
    assert_eq!(e, "expected an ECC public key");
}

fn entered(texts: &[&str]) -> Keygen {
    let mut step = Keygen::start(false);
    for t in texts {
        step = step.entered(t.to_string());
    }
    step
}

#[test]
fn passphrases_are_long_enough_and_entered_twice() {
    assert_eq!(entered(&[]), Keygen::AskPassphrase);
    assert_eq!(entered(&["12345678"]), Keygen::AskAgain("12345678".to_string()));
    assert_eq!(
        entered(&["1234567"]),
        Keygen::Refuse("passphrase must be at least 8 characters".to_string())
    );
    // Length counts bytes.
    let euros = "\u{20ac}\u{20ac}\u{20ac}";
    assert_eq!(entered(&[euros, euros]), Keygen::Generate(Some(euros.to_string())));
    assert_eq!(
        entered(&["correct horse", "correct house"]),
        Keygen::Refuse("passphrases do not match".to_string())
    );
    assert_eq!(
        entered(&["correct horse", "correct horse"]),
        Keygen::Generate(Some("correct horse".to_string()))
    );
}

#[test]
fn a_plaintext_identity_is_generated_without_a_prompt() {
    assert_eq!(Keygen::start(true), Keygen::Generate(None));
    assert_eq!(Keygen::start(true).entered("x".to_string()), Keygen::Generate(None));
}

#[test]
fn keygen_says_what_it_did() {
    let k = PubKey::new([7u8; 32]);
    assert_eq!(
        keygen_report("/id", false, &k),
        "created /id\npublic key: US517G5965aydkZ46HS38QLi7UQiSojurfbQfKCELFx\n\nAdd this key to the server's `admins` list to authorize it.\n"
    );
    assert_eq!(
        keygen_report("/id", true, &k),
        "created /id\nWARNING: this key is UNENCRYPTED (no passphrase); protect the file.\npublic key: US517G5965aydkZ46HS38QLi7UQiSojurfbQfKCELFx\n\nAdd this key to the server's `admins` list to authorize it.\n"
    );
}

#[test]
fn flags_win_over_the_configuration() {
    assert_eq!(identity_path(Some(1), Some(2)), IdentityPath::Named(1));
    assert_eq!(identity_path(None, Some(2)), IdentityPath::Named(2));
    assert_eq!(identity_path::<u8>(None, None), IdentityPath::Default);
    assert_eq!(keygen_path(Some(0), Some(1), Some(2)), IdentityPath::Named(0));
    assert_eq!(keygen_path(None, Some(1), Some(2)), IdentityPath::Named(1));
    assert_eq!(keygen_path(None, None, Some(2)), IdentityPath::Named(2));
    assert_eq!(keygen_path::<u8>(None, None, None), IdentityPath::Default);
}
