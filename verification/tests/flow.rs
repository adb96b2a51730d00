//! The steps of an admin transaction, the dial and the configuration.

use sqnr::client::{Collector, DialOptions, Request, TransportDefaults};
use sqnr::config::{Config, FileOutcome};
use sqnr::flow::{read_reply, refusal, Batch};
use sqnr::key::{PubKey, SigningKey};
use sqnr::signer::Signing;
use sqnr::{Backend, Operation, SignedTransaction, Signer, SoftwareSigner};

fn ops() -> Vec<Operation> {
    vec![Operation {
        summary: "Enable the whitelist".into(),
        detail: vec![],
        payload: vec![0x01],
    }]
}

fn software() -> Backend<u32> {
    Backend::software(SoftwareSigner::new(SigningKey::from_bytes(&[9u8; 32])))
}

#[test]
fn nothing_to_sign() {
    let e = Batch::start(PubKey::new([1u8; 32]), vec![]).err().unwrap();
    assert_eq!(e, "nothing to sign (empty transaction)");
}

#[test]
fn the_challenge_is_asked_for() {
    let batch = Batch::start(PubKey::new([1u8; 32]), ops()).unwrap();
    let request = batch.request();
    assert_eq!(request.method, "GET");
    assert_eq!(request.uri, "https://sqex/admin/challenge");
    assert_eq!(request.body, None);
}

#[test]
fn a_challenge_is_a_success_of_32_bytes() {
    let start = || Batch::start(PubKey::new([1u8; 32]), ops()).unwrap();
    let e = start().challenged(Ok((503, vec![4; 32]))).err().unwrap();
    assert_eq!(e, "challenge failed (status 503)");
    let e = start().challenged(Ok((200, vec![4; 31]))).err().unwrap();
    assert_eq!(e, "challenge failed (status 200)");
    let e = start().challenged(Err("connection lost".to_string())).err().unwrap();
    assert_eq!(e, "connection lost");
    assert!(start().challenged(Ok((200, vec![4; 32]))).is_ok());
}

#[test]
fn a_software_batch_reaches_its_server() {
    let server = PubKey::new([1u8; 32]);
    let backend = software();
    let batch = Batch::start(server, ops()).unwrap();
    let challenged = batch.challenged(Ok((200, vec![4; 32]))).unwrap();
    assert_eq!(challenged.transaction().nonce, [4u8; 32]);
    assert_eq!(challenged.transaction().ops, ops());
    assert_eq!(challenged.message(), challenged.transaction().signing_bytes());

    let signature = match challenged.sign(&backend) {
        Signing::Done(sig) => sig,
        Signing::OnCard(_) => panic!("a software key signs at once"),
    };
    let request = challenged.submit(&backend, Ok(signature)).unwrap();
    assert_eq!(request.method, "POST");
    assert_eq!(request.uri, "https://sqex/admin/command");

    let signed = SignedTransaction::decode(&request.body.unwrap()).unwrap();
    assert_eq!(signed.transaction.server, server);
    assert_eq!(signed.transaction.nonce, [4u8; 32]);
    assert_eq!(signed.transaction.ops, ops());
    assert_eq!(signed.admin, backend.public());
    assert!(signed.verify(&server).is_ok());
}

#[test]
fn a_card_is_asked_to_sign() {
    let backend: Backend<u32> = Backend::yubikey(17, PubKey::new([2u8; 32]));
    assert!(backend.is_yubikey());
    assert_eq!(backend.public(), PubKey::new([2u8; 32]));
    let challenged = Batch::start(PubKey::new([1u8; 32]), ops())
        .unwrap()
        .challenged(Ok((200, vec![4; 32])))
        .unwrap();
    assert!(matches!(challenged.sign(&backend), Signing::OnCard(17)));
    let e = challenged.submit(&backend, Err("sign failed: gone".to_string())).err();
    assert_eq!(e.unwrap(), "sign failed: gone");
}

#[test]
fn a_software_backend_needs_no_touch() {
    let backend = software();
    assert!(!backend.is_yubikey());
    let signer = SoftwareSigner::new(SigningKey::from_bytes(&[9u8; 32]));
    assert_eq!(backend.public(), PubKey::new(signer.public()));
    assert!(matches!(backend.sign(b"m"), Signing::Done(sig) if sig == signer.sign(b"m")));
}

#[test]
fn a_success_is_its_json_value() {
    let value = read_reply(Ok((200, b"{\"ok\":true,\"n\":[1,2]}".to_vec()))).unwrap();
    assert_eq!(value["ok"], serde_json::Value::Bool(true));
    assert_eq!(value["n"][1].as_u64(), Some(2));
    assert_eq!(value, serde_json::from_str::<serde_json::Value>("{\"n\":[1,2],\"ok\":true}").unwrap());
    assert_eq!(read_reply(Ok((200, b"not json".to_vec()))), Ok(serde_json::Value::Null));
    assert_eq!(read_reply(Ok((200, vec![]))), Ok(serde_json::Value::Null));
    assert_eq!(read_reply(Err("gone".to_string())), Err("gone".to_string()));
}

#[test]
fn a_refusal_quotes_the_server() {
    let said = |body: &str| read_reply(Ok((403, body.as_bytes().to_vec()))).unwrap_err();
    assert_eq!(
        said("{\"error\":\"not_admin\",\"detail\":\"unknown key\"}"),
        "not_admin (403) unknown key"
    );
    assert_eq!(said("{\"error\":\"not_admin\"}"), "not_admin (403)");
    assert_eq!(said("{\"detail\":\"why\"}"), "error (403) why");
    assert_eq!(said("{\"error\":7,\"detail\":[]}"), "error (403)");
    assert_eq!(said("[\"error\"]"), "error (403)");
    assert_eq!(said("not json"), "error (403)");
    assert_eq!(said("{\"error\":\" \",\"detail\":\" spaced \"}"), "(403)  spaced");
}

#[test]
fn refusals_in_words() {
    assert_eq!(refusal(500, None, None), "error (500)");
    assert_eq!(
        refusal(409, Some("replay".to_string()), Some("nonce used".to_string())),
        "replay (409) nonce used"
    );
}

#[test]
fn dialing_anonymously_and_as_somebody() {
    let mut defaults = TransportDefaults::new();
    let options = DialOptions::connect(&defaults);
    assert_eq!(options.alpn_protocols, vec![b"h3".to_vec()]);
    assert_eq!(options.keep_alive_secs, 15);
    assert_eq!(options.handshake_timeout_secs, 5);
    assert_eq!(options.client_key, None);
    assert_eq!((options.advertise_identity, options.enable_datagrams), (None, None));
    assert_eq!(options.envelope_version, None);

    defaults.set_envelope_version(3);
    let options = DialOptions::connect_as(&defaults, &[0xab; 32]);
    assert_eq!(options.alpn_protocols, vec![b"h3".to_vec()]);
    assert_eq!(options.keep_alive_secs, 15);
    assert_eq!(options.handshake_timeout_secs, 5);
    assert_eq!(options.client_key, Some("ab".repeat(32)));
    assert_eq!((options.advertise_identity, options.enable_datagrams), (Some(true), Some(true)));
    assert_eq!(options.envelope_version, Some(3));
}

#[test]
fn requests_name_method_and_uri() {
    let r = Request::get("/x");
    assert_eq!((r.method, r.uri.as_str(), r.body), ("GET", "https://sqex/x", None));
    let r = Request::post("/y", vec![1, 2]);
    assert_eq!((r.method, r.uri.as_str(), r.body), ("POST", "https://sqex/y", Some(vec![1, 2])));
}

#[test]
fn a_reply_is_its_chunks_in_order() {
    let mut collector = Collector::new(200);
    collector.push(b"ab");
    collector.push(b"");
    collector.push(b"c");
    assert_eq!(collector.reply(), (200, b"abc".to_vec()));
    assert_eq!(Collector::new(404).reply(), (404, vec![]));
}

#[test]
fn where_the_configuration_is() {
    assert_eq!(Config::path(Some("/home/me")), Some("/home/me/.sqnr/config".to_string()));
    assert_eq!(Config::path(None), None);
}

fn config(envelope_version: Option<u8>) -> Config {
    Config {
        server: Some("127.0.0.1:5400".to_string()),
        server_key: None,
        identity: None,
        envelope_version,
    }
}

#[test]
fn a_configuration_that_is_there_is_used() {
    let mut defaults = TransportDefaults::new();
    let c = Config::load(Some(Ok(config(Some(3)))), &mut defaults);
    assert_eq!(c.server, Some("127.0.0.1:5400".to_string()));
    assert_eq!(defaults.envelope_version, Some(3));
}

#[test]
fn a_configuration_that_is_not_there_sets_nothing() {
    let mut defaults = TransportDefaults::new();
    defaults.set_envelope_version(2);
    for file in [None, Some(Err("parse: bad".to_string()))] {
        let c = Config::load(file, &mut defaults);
        assert!(c.server.is_none() && c.server_key.is_none() && c.identity.is_none());
        assert_eq!(defaults.envelope_version, Some(2));
    }
    config(None).apply_transport(&mut defaults);
    assert_eq!(defaults.envelope_version, Some(2));
    config(Some(4)).apply_transport(&mut defaults);
    assert_eq!(defaults.envelope_version, Some(4));
}

#[test]
fn configuration_files_in_words() {
    let e = Config::from_file("/c", FileOutcome::Unreadable("no".to_string())).unwrap_err();
    assert_eq!(e, "read /c: no");
    let e = Config::from_file("/c", FileOutcome::Unparsable("bad".to_string())).unwrap_err();
    assert_eq!(e, "parse /c: bad");
    let c = Config::from_file("/c", FileOutcome::Parsed(config(Some(1)))).unwrap();
    assert_eq!(c.envelope_version, Some(1));
}
