//! Keys and the texts that name them.

use sqnr::key::{PubKey, SigningKey};
use sqnr::Error;

fn rfc_seed() -> [u8; 32] {
    let raw = hex::decode("9d61b19deffd5a60ba844af492ec2cc44449c5697b326919703bac031cae7f60");
    raw.unwrap().try_into().unwrap()
}

#[test]
fn base58_round_trip() {
    let k = PubKey::new([7u8; 32]);
    let s = k.to_base58();
    assert_eq!(PubKey::from_base58(&s).unwrap(), k);
    assert_eq!(s.parse::<PubKey>().unwrap(), k);
}

#[test]
fn hex_parse() {
    let k = PubKey::new([0xabu8; 32]);
    assert_eq!(k.to_bytes(), [0xab; 32]);
    let hexed = hex::encode([0xab_u8; 32]);
    assert_eq!(hexed.parse::<PubKey>().unwrap(), k);
}

#[test]
fn rejects_wrong_length() {
    assert!(PubKey::from_base58(&bs58::encode([1u8; 31]).into_string()).is_err());
}

#[test]
fn base58_of_known_keys() {
    assert_eq!(
        PubKey::new([7u8; 32]).to_base58(),
        "US517G5965aydkZ46HS38QLi7UQiSojurfbQfKCELFx"
    );
    assert_eq!(PubKey::new([0u8; 32]).to_base58(), "11111111111111111111111111111111");
    assert_eq!(
        PubKey::new([255u8; 32]).to_string(),
        "JEKNVnkbo3jma5nREBBJCDoXFVeKkD56V3xKrvRmWxFG"
    );
    let mut zeros_first = [2u8; 32];
    zeros_first[0] = 0;
    zeros_first[1] = 0;
    zeros_first[2] = 1;
    let k = PubKey::new(zeros_first);
    assert_eq!(k.to_base58(), "11CiLozeguCA1swVEhydGX29b5RdmYB49Gni3ttgBT");
    assert_eq!(PubKey::from_str(&k.to_base58()).unwrap(), k);
}

#[test]
fn short_is_the_first_eight() {
    assert_eq!(PubKey::new([7u8; 32]).short(), "US517G59");
    assert_eq!(PubKey::new([0u8; 32]).short(), "11111111");
}

#[test]
fn bytes_in_and_out() {
    let k = PubKey::new([4u8; 32]);
    assert_eq!(k.as_bytes(), &[4u8; 32]);
    assert_eq!(k.to_bytes(), [4u8; 32]);
    assert!(k == PubKey::new([4u8; 32]));
    let mut other = [4u8; 32];
    other[31] = 5;
    assert!(k != PubKey::new(other));
}

#[test]
fn white_space_around_a_key_does_not_matter() {
    let k = PubKey::new([7u8; 32]);
    assert_eq!(format!("  {}\r\n", k.to_base58()).parse::<PubKey>().unwrap(), k);
    assert_eq!(format!("\t{}\u{3000}", "07".repeat(32)).parse::<PubKey>().unwrap(), k);
    assert!(PubKey::from_base58(&format!(" {}", k.to_base58())).is_err());
}

#[test]
fn hexadecimal_in_either_case() {
    let k = PubKey::new([0xabu8; 32]);
    assert_eq!(PubKey::from_hex(&"aB".repeat(32)).unwrap(), k);
    assert_eq!(PubKey::from_str(&"Ab".repeat(32)).unwrap(), k);
}

#[test]
fn sixty_two_hex_digits_are_not_hexadecimal() {
    // Too short for hexadecimal, so it is read as base58, where zero is no digit.
    let e = PubKey::from_str(&"00".repeat(31)).unwrap_err();
    assert!(e.to_string().starts_with("key: bad base58: "));
}

#[test]
fn key_errors_in_words() {
    let e = PubKey::from_base58("0").unwrap_err();
    let words = bs58::decode("0").into_vec().unwrap_err().to_string();
    assert_eq!(e.to_string(), format!("key: bad base58: {words}"));

    let e = PubKey::from_base58("").unwrap_err();
    assert_eq!(e.to_string(), "key: public key must be 32 bytes, got 0");

    let e = PubKey::from_hex("abc").unwrap_err();
    assert_eq!(e.to_string(), "key: bad hex: Odd number of digits");

    // One character of three bytes: the length counts bytes.
    let e = PubKey::from_hex("\u{20ac}").unwrap_err();
    assert_eq!(e.to_string(), "key: bad hex: Odd number of digits");

    let e = PubKey::from_hex("zz").unwrap_err();
    assert_eq!(e.to_string(), "key: bad hex: Invalid character 'z' at position 0");

    let e = PubKey::from_hex("abcd").unwrap_err();
    assert_eq!(e.to_string(), "key: public key must be 32 bytes, got 2");
}

#[test]
fn every_error_in_words() {
    assert_eq!(Error::Key("k".to_string()).to_string(), "key: k");
    assert_eq!(Error::Malformed("m".to_string()).to_string(), "malformed message: m");
    assert_eq!(Error::BadSignature.to_string(), "signature verification failed");
    assert_eq!(Error::BadChallenge.to_string(), "challenge invalid or expired");
    assert_eq!(Error::WrongServer.to_string(), "command was not addressed to this server");
    assert_eq!(Error::NotAdmin.to_string(), "signer is not an authorized administrator");
}

#[test]
fn known_key_pair_and_signature() {
    let key = SigningKey::from_bytes(&rfc_seed());
    assert_eq!(key.to_bytes(), rfc_seed());
    assert_eq!(
        hex::encode(key.verifying_key().to_bytes()),
        "d75a980182b10ab7d54bfed3c964073a0ee172f3daa62325af021a68f707511a"
    );
    let sig = key.sign(b"");
    assert_eq!(
        hex::encode(sig),
        "e5564300c360ac729086e2cc806e828a84877f1eb8e5d974d873e065224901555fb8821590a33bacc61e39701cf9b46bd25bf5f0595bbe24655141438e7a100b"
    );
    assert!(key.verifying_key().verify(b"", &sig));
    assert!(!key.verifying_key().verify(b"x", &sig));
}

#[test]
fn verifying_key_of_a_point_and_of_none() {
    let vk = SigningKey::from_bytes(&[9u8; 32]).verifying_key();
    let k = PubKey::from(vk);
    assert_eq!(k.verifying_key().unwrap().to_bytes(), vk.to_bytes());

    let mut none = [0u8; 32];
    none[0] = 2;
    let e = PubKey::new(none).verifying_key().unwrap_err();
    assert_eq!(
        e.to_string(),
        "key: not a valid Ed25519 public key: signature error: Cannot decompress Edwards point"
    );
}
