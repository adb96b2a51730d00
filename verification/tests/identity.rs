//! Identity files.

use sqnr::identity::{
    decrypt_seed, default_identity_path, encrypt_seed, file_content, generate, is_encrypted, load,
    read_public, sqnr_dir,
};
use sqnr::key::{PubKey, SigningKey};
use sqnr::Signer;

/// Key data that is sealed under "correct horse" and holds the seed of nines,
/// with small parameters: 32 KiB, two iterations, one lane.
const SMALL: &str = "000000200000000200000001000102030405060708090a0b0c0d0e0f000102030405060708090a0b22ee629ec8d377a533a6bde73b59c73f26e51677c75a85e1593caa0f6014977860b4f3e6b100dd09c1f233d23920162a";

/// The same with 64 KiB, one iteration, two lanes.
const TWO_LANES: &str = "000000400000000100000002000102030405060708090a0b0c0d0e0f000102030405060708090a0b14cdae8213c160e9763f1972fe48f84d119fba9bfa5b40ed9a40de11d0e2c5809a02cb2a91fc8efc099ead3a7a866d6e";

fn base58_of_hex(h: &str) -> String {
    bs58::encode(hex::decode(h).unwrap()).into_string()
}

fn nines() -> SigningKey {
    SigningKey::from_bytes(&[9u8; 32])
}

fn public_of_nines() -> String {
    PubKey::from(nines().verifying_key()).to_base58()
}

fn sealed_file(data_hex: &str) -> String {
    format!(
        "SQNR-ED25519-ENCRYPTED-KEY\n{}\n{}\n",
        base58_of_hex(data_hex),
        public_of_nines()
    )
}

fn failure(content: &str, passphrase: &str) -> String {
    load("/id", content, passphrase).err().unwrap()
}

#[test]
fn round_trip_and_public_without_passphrase() {
    let path = "identity";
    let (public, content) = generate(path, false, Some("correct horse")).unwrap();

    // Public key readable without the passphrase.
    assert_eq!(read_public(path, &content).unwrap(), public);

    // Load with the right passphrase, and the signer matches.
    let signer = load(path, &content, "correct horse").unwrap();
    assert_eq!(PubKey::new(signer.public()), public);
}

#[test]
fn wrong_passphrase_rejected() {
    let path = "identity";
    let (_, content) = generate(path, false, Some("right")).unwrap();
    assert!(load(path, &content, "wrong").is_err());
}

#[test]
fn refuses_overwrite() {
    let path = "identity";
    generate(path, false, Some("pw")).unwrap();
    assert!(generate(path, true, Some("pw")).is_err());
    assert_eq!(
        generate("/home/me/identity", true, None).unwrap_err(),
        "/home/me/identity already exists; refusing to overwrite"
    );
}

#[test]
fn a_sealed_seed_is_what_the_parameters_make_it() {
    let salt: [u8; 16] = [0, 1, 2, 3, 4, 5, 6, 7, 8, 9, 10, 11, 12, 13, 14, 15];
    let nonce: [u8; 12] = [0, 1, 2, 3, 4, 5, 6, 7, 8, 9, 10, 11];
    let blob = encrypt_seed(&[9u8; 32], "correct horse", &salt, &nonce).unwrap();
    let raw = bs58::decode(&blob).into_vec().unwrap();
    assert_eq!(
        hex::encode(raw),
        "000100000000000300000004000102030405060708090a0b0c0d0e0f000102030405060708090a0b444eb2197251d407793f49343f3e2f80b9308bd1adfbfe6af38891946c425223653234e1d7605694ad2412b8e012d891"
    );
}

#[test]
fn known_sealed_seeds_open() {
    for data in [SMALL, TWO_LANES] {
        let key = decrypt_seed(&base58_of_hex(data), "correct horse").unwrap();
        assert_eq!(key.to_bytes(), [9u8; 32]);
        let signer = load("/id", &sealed_file(data), "correct horse").unwrap();
        assert_eq!(signer.seed(), [9u8; 32]);
        assert_eq!(failure(&sealed_file(data), "correct house"), "decryption failed (wrong passphrase?)");
    }
}

#[test]
fn a_tampered_seed_does_not_open() {
    let mut data = SMALL.to_string();
    data.replace_range(data.len() - 1.., "b");
    assert_eq!(failure(&sealed_file(&data), "correct horse"), "decryption failed (wrong passphrase?)");
}

#[test]
fn a_plaintext_identity_takes_no_passphrase() {
    let (public, content) = generate("/id", false, None).unwrap();
    assert!(!is_encrypted("/id", &content).unwrap());
    assert_eq!(read_public("/id", &content).unwrap(), public);
    let signer = load("/id", &content, "").unwrap();
    assert_eq!(PubKey::new(signer.public()), public);
    assert_eq!(load("/id", &content, "anything").unwrap().seed(), signer.seed());
}

#[test]
fn the_text_of_a_plaintext_identity() {
    let content = file_content(&nines(), None, &[0; 16], &[0; 12]).unwrap();
    let seed = bs58::encode([9u8; 32]).into_string();
    assert_eq!(
        content,
        format!("SQNR-ED25519-PLAINTEXT-KEY\n{seed}\n{}\n", public_of_nines())
    );
}

#[test]
fn the_lines_of_a_sealed_identity() {
    let content = file_content(&nines(), Some("correct horse"), &[1; 16], &[2; 12]).unwrap();
    assert!(is_encrypted("/id", &content).unwrap());
    let lines: Vec<&str> = content.lines().collect();
    assert_eq!(lines.len(), 3);
    assert_eq!(lines[0], "SQNR-ED25519-ENCRYPTED-KEY");
    assert_eq!(lines[2], public_of_nines());
    let raw = bs58::decode(lines[1]).into_vec().unwrap();
    assert_eq!(raw.len(), 88);
    assert_eq!(&raw[..12], &[0, 1, 0, 0, 0, 0, 0, 3, 0, 0, 0, 4]);
    assert_eq!(&raw[12..28], &[1; 16]);
    assert_eq!(&raw[28..40], &[2; 12]);
    assert_ne!(&raw[40..72], &[9; 32]);
}

#[test]
fn two_identities_are_not_the_same() {
    let (a, first) = generate("/id", false, None).unwrap();
    let (b, second) = generate("/id", false, None).unwrap();
    assert_ne!(a, b);
    assert_ne!(first, second);
}

#[test]
fn not_an_identity_file() {
    for content in ["", "\n", "SQNR\na\nb\n", "\nSQNR-ED25519-ENCRYPTED-KEY\na\nb\n"] {
        assert_eq!(read_public("/id", content).unwrap_err(), "/id: not an sqnr identity file");
        assert_eq!(failure(content, ""), "/id: not an sqnr identity file");
        assert_eq!(is_encrypted("/id", content).unwrap_err(), "/id: not an sqnr identity file");
    }
}

#[test]
fn missing_lines() {
    assert_eq!(
        read_public("/id", "SQNR-ED25519-ENCRYPTED-KEY").unwrap_err(),
        "identity file missing key data"
    );
    assert_eq!(
        read_public("/id", "SQNR-ED25519-PLAINTEXT-KEY\nabc\n").unwrap_err(),
        "identity file missing public key"
    );
    assert_eq!(failure("SQNR-ED25519-ENCRYPTED-KEY\nabc", ""), "identity file missing public key");
}

#[test]
fn white_space_around_the_lines_does_not_matter() {
    let content = format!(
        " SQNR-ED25519-ENCRYPTED-KEY \r\n\t{}\r\n {} \r\n",
        base58_of_hex(SMALL),
        public_of_nines()
    );
    assert_eq!(load("/id", &content, "correct horse").unwrap().seed(), [9u8; 32]);
}

#[test]
fn bad_key_data() {
    let file = |data: &str| format!("SQNR-ED25519-ENCRYPTED-KEY\n{data}\n{}\n", public_of_nines());
    let words = bs58::decode("0").into_vec().unwrap_err().to_string();
    assert_eq!(failure(&file("0"), "p"), format!("bad base58 in identity: {words}"));
    assert_eq!(failure(&file("abc"), "p"), "encrypted key blob too short");
    let short = bs58::encode([1u8; 39]).into_string();
    assert_eq!(failure(&file(&short), "p"), "encrypted key blob too short");

    let plain = |data: &str| format!("SQNR-ED25519-PLAINTEXT-KEY\n{data}\n{}\n", public_of_nines());
    assert_eq!(failure(&plain("0"), ""), format!("bad base58 in identity: {words}"));
    assert_eq!(failure(&plain("abc"), ""), "plaintext seed is not 32 bytes");
}

#[test]
fn parameters_that_argon2_refuses() {
    let with = |m: u32, t: u32, p: u32| {
        let mut raw = Vec::new();
        raw.extend_from_slice(&m.to_be_bytes());
        raw.extend_from_slice(&t.to_be_bytes());
        raw.extend_from_slice(&p.to_be_bytes());
        raw.extend_from_slice(&[0; 76]);
        decrypt_seed(&bs58::encode(raw).into_string(), "p").err().unwrap()
    };
    assert_eq!(with(7, 1, 1), "argon2 params: memory cost is too small");
    assert_eq!(with(15, 1, 2), "argon2 params: memory cost is too small");
    assert_eq!(with(8, 0, 1), "argon2 params: time cost is too small");
    assert_eq!(with(8, 1, 0), "argon2 params: not enough threads");
    assert_eq!(with(0xffff_ffff, 1, 0x100_0000), "argon2 params: too many threads");
    assert_eq!(with(0xffff_ffff, 1, 0x2000_0000), "argon2 params: memory cost is too small");
    assert_eq!(with(8, 1, 1), "decryption failed (wrong passphrase?)");
}

#[test]
fn a_blob_that_holds_no_seed() {
    // Sealed with the parameters and the passphrase of the small blob, but what
    // was sealed is a byte short.
    let data = "000000200000000200000001000102030405060708090a0b0c0d0e0f000102030405060708090a0b22ee629ec8d377a533a6bde73b59c73f26e51677c75a85e1593caa0f601497fee069eeb863e4176c3c71841fec54e2";
    assert_eq!(failure(&sealed_file(data), "correct horse"), "decrypted seed is not 32 bytes");
    // No ciphertext at all.
    let data = &SMALL[..80];
    assert_eq!(failure(&sealed_file(data), "correct horse"), "decryption failed (wrong passphrase?)");
}

#[test]
fn a_file_whose_lines_disagree_does_not_load() {
    let other = PubKey::new([5u8; 32]).to_base58();
    let content = format!("SQNR-ED25519-ENCRYPTED-KEY\n{}\n{other}\n", base58_of_hex(SMALL));
    assert_eq!(
        failure(&content, "correct horse"),
        "identity file is inconsistent (public key does not match seed)"
    );
    let content = format!("SQNR-ED25519-ENCRYPTED-KEY\n{}\nabc\n", base58_of_hex(SMALL));
    assert_eq!(
        failure(&content, "correct horse"),
        "bad public key line: key: public key must be 32 bytes, got 3"
    );
    assert_eq!(
        read_public("/id", &content).unwrap_err(),
        "bad public key line: key: public key must be 32 bytes, got 3"
    );
}

#[test]
fn where_identities_are() {
    assert_eq!(sqnr_dir(Some("/home/me")).unwrap(), "/home/me/.sqnr");
    assert_eq!(default_identity_path(Some("/home/me")).unwrap(), "/home/me/.sqnr/identity");
    assert_eq!(default_identity_path(Some("/")).unwrap(), "/.sqnr/identity");
    assert_eq!(sqnr_dir(Some("")).unwrap(), ".sqnr");
    assert_eq!(sqnr_dir(None).unwrap_err(), "cannot locate home directory");
    assert_eq!(default_identity_path(None).unwrap_err(), "cannot locate home directory");
}
