//! The cryptography that the library rests on.
//!
//! Each primitive comes from a crate of its own. Where what it returns depends
//! on its arguments alone the result has a name, and the rest of the library
//! is stated over these names.

use vstd::prelude::*;

verus! {

// ---------------------------------------------------------------------------
// Ed25519
// ---------------------------------------------------------------------------

/// The public key of the Ed25519 key pair with this seed.
pub uninterp spec fn ed25519_public(seed: Seq<u8>) -> Seq<u8>;

/// The Ed25519 signature over `msg` by the key pair with this seed.
pub uninterp spec fn ed25519_signature(seed: Seq<u8>, msg: Seq<u8>) -> Seq<u8>;

/// Whether these 32 bytes are the compressed form of a point of the curve.
pub uninterp spec fn ed25519_point(key: Seq<u8>) -> bool;

/// Whether `sig` is a signature over `msg` that the public key `key` accepts.
pub uninterp spec fn ed25519_accepts(key: Seq<u8>, msg: Seq<u8>, sig: Seq<u8>) -> bool;

/// Calls `ed25519_dalek::SigningKey::from_bytes` and takes the verifying key's
/// bytes. They are a function of the seed, and always a point.
#[verifier::external_body]
pub(crate) fn ed25519_derive(seed: &[u8; 32]) -> (r: [u8; 32])
    ensures
        r@ == ed25519_public(seed@),
        ed25519_point(r@),
{
    ed25519_dalek::SigningKey::from_bytes(seed).verifying_key().to_bytes()
}

/// Calls `ed25519_dalek::SigningKey::sign`. Ed25519 is deterministic: the
/// signature is a function of seed and message. The public key of the seed
/// accepts it.
#[verifier::external_body]
pub(crate) fn ed25519_sign(seed: &[u8; 32], msg: &[u8]) -> (r: [u8; 64])
    ensures
        r@ == ed25519_signature(seed@, msg@),
        ed25519_accepts(ed25519_public(seed@), msg@, r@),
{
    let key = ed25519_dalek::SigningKey::from_bytes(seed);
    let sig: ed25519_dalek::Signature = ed25519_dalek::Signer::sign(&key, msg);
    sig.to_bytes()
}

/// Calls `ed25519_dalek::VerifyingKey::from_bytes`, which decompresses the
/// bytes. It has one way to fail.
#[verifier::external_body]
pub(crate) fn ed25519_decompress(key: &[u8; 32]) -> (r: Result<(), String>)
    ensures
        r is Ok <==> ed25519_point(key@),
        r matches Err(e) ==> e@ == "signature error: Cannot decompress Edwards point"@,
{
    match ed25519_dalek::VerifyingKey::from_bytes(key) {
        Ok(_) => Ok(()),
        Err(e) => Err(e.to_string()),
    }
}

/// Calls `ed25519_dalek::VerifyingKey::verify` on the key with these bytes.
/// The answer is a function of key, message and signature.
#[verifier::external_body]
pub(crate) fn ed25519_verify(key: &[u8; 32], msg: &[u8], sig: &[u8; 64]) -> (r: bool)
    requires
        ed25519_point(key@),
    ensures
        r == ed25519_accepts(key@, msg@, sig@),
{
    let sig = ed25519_dalek::Signature::from_bytes(sig);
    match ed25519_dalek::VerifyingKey::from_bytes(key) {
        Ok(vk) => ed25519_dalek::Verifier::verify(&vk, msg, &sig).is_ok(),
        Err(_) => false,
    }
}

/// Calls `ed25519_dalek::SigningKey::generate` on the system's random source
/// and takes the seed. Nothing is known of it but its length. The call panics
/// where the system has no randomness to give.
#[verifier::external_body]
pub(crate) fn ed25519_random_seed() -> (r: [u8; 32]) {
    ed25519_dalek::SigningKey::generate(&mut rand_core::OsRng).to_bytes()
}

// ---------------------------------------------------------------------------
// Hashes
// ---------------------------------------------------------------------------

/// The SHA-256 digest of `data`.
pub uninterp spec fn sha256(data: Seq<u8>) -> Seq<u8>;

/// The SHA-1 digest of `data`.
pub uninterp spec fn sha1(data: Seq<u8>) -> Seq<u8>;

/// Calls `sha2::Sha256::digest`.
#[verifier::external_body]
pub(crate) fn sha256_digest(data: &[u8]) -> (r: [u8; 32])
    ensures
        r@ == sha256(data@),
{
    <sha2::Sha256 as sha2::Digest>::digest(data).into()
}

/// Calls `sha1::Sha1::digest`.
#[verifier::external_body]
pub(crate) fn sha1_digest(data: &[u8]) -> (r: [u8; 20])
    ensures
        r@ == sha1(data@),
{
    <sha1::Sha1 as sha1::Digest>::digest(data).into()
}

// ---------------------------------------------------------------------------
// Passphrases
// ---------------------------------------------------------------------------

/// What `argon2` says of parameters that it refuses; `None` where it takes
/// them for a 32-byte result.
pub open spec fn argon2_refusal(m_cost: int, t_cost: int, p_cost: int) -> Option<Seq<char>> {
    if m_cost < 8 || m_cost < 8 * p_cost {
        Some("memory cost is too small"@)
    } else if t_cost < 1 {
        Some("time cost is too small"@)
    } else if p_cost < 1 {
        Some("not enough threads"@)
    } else if p_cost > 0xff_ffff {
        Some("too many threads"@)
    } else {
        None
    }
}

/// The 32 bytes that argon2id (version 0x13) derives.
pub uninterp spec fn argon2id(
    m_cost: u32,
    t_cost: u32,
    p_cost: u32,
    password: Seq<u8>,
    salt: Seq<u8>,
) -> Seq<u8>;

/// Calls `argon2::Params::new` for a 32-byte result. It computes eight times
/// the number of threads in 32 bits, hence the bound.
#[verifier::external_body]
pub(crate) fn argon2_check(m_cost: u32, t_cost: u32, p_cost: u32) -> (r: Result<(), String>)
    requires
        p_cost <= 0x1fff_ffff,
    ensures
        match r {
            Ok(_) => argon2_refusal(m_cost as int, t_cost as int, p_cost as int) is None,
            Err(e) => argon2_refusal(m_cost as int, t_cost as int, p_cost as int) == Some(e@),
        },
{
    match argon2::Params::new(m_cost, t_cost, p_cost, Some(32)) {
        Ok(_) => Ok(()),
        Err(e) => Err(e.to_string()),
    }
}

/// Calls `argon2::Argon2::hash_password_into` with argon2id, version 0x13. The
/// call works in `m_cost` blocks of a kibibyte, which must be addressable. With
/// accepted parameters and a salt of 16 bytes it refuses only a password of
/// more than 0xffffffff bytes.
#[verifier::external_body]
pub(crate) fn argon2_derive(
    m_cost: u32,
    t_cost: u32,
    p_cost: u32,
    password: &[u8],
    salt: &[u8; 16],
) -> (r: Result<[u8; 32], String>)
    requires
        argon2_refusal(m_cost as int, t_cost as int, p_cost as int) is None,
        m_cost * 1024 <= isize::MAX,
    ensures
        match r {
            Ok(key) => password@.len() <= 0xffff_ffff && key@ == argon2id(
                m_cost,
                t_cost,
                p_cost,
                password@,
                salt@,
            ),
            Err(e) => password@.len() > 0xffff_ffff && e@ == "password is too long"@,
        },
{
    let mut out = [0u8; 32];
    let params = argon2::Params::new(m_cost, t_cost, p_cost, Some(32)).map_err(|e| e.to_string())?;
    argon2::Argon2::new(argon2::Algorithm::Argon2id, argon2::Version::V0x13, params)
        .hash_password_into(password, salt, &mut out)
        .map_err(|e| e.to_string())?;
    Ok(out)
}

// ---------------------------------------------------------------------------
// Encryption
// ---------------------------------------------------------------------------

/// The ChaCha20-Poly1305 encryption of `plain`, tag included.
pub uninterp spec fn chacha_sealed(key: Seq<u8>, nonce: Seq<u8>, plain: Seq<u8>) -> Seq<u8>;

/// What ChaCha20-Poly1305 decrypts `sealed` to; `None` where the tag does not
/// fit.
pub uninterp spec fn chacha_opened(
    key: Seq<u8>,
    nonce: Seq<u8>,
    sealed: Seq<u8>,
) -> Option<Seq<u8>>;

/// Calls `encrypt` of `chacha20poly1305::ChaCha20Poly1305`, which refuses only
/// messages far longer than 32 bytes. The ciphertext is as long as the message
/// and a tag of 16 bytes, and decrypts to the message.
#[verifier::external_body]
pub(crate) fn chacha_encrypt(
    key: &[u8; 32],
    nonce: &[u8; 12],
    plain: &[u8; 32],
) -> (r: Result<Vec<u8>, String>)
    ensures
        match r {
            Ok(sealed) => sealed@ == chacha_sealed(key@, nonce@, plain@) && sealed@.len() == 48
                && chacha_opened(key@, nonce@, sealed@) == Some(plain@),
            Err(_) => false,
        },
{
    let cipher: chacha20poly1305::ChaCha20Poly1305 = chacha20poly1305::KeyInit::new(
        chacha20poly1305::Key::from_slice(key),
    );
    let nonce = chacha20poly1305::Nonce::from_slice(nonce);
    chacha20poly1305::aead::Aead::encrypt(&cipher, nonce, plain.as_ref()).map_err(|e| e.to_string())
}

/// Calls `decrypt` of `chacha20poly1305::ChaCha20Poly1305`. What it returns is
/// a function of its arguments; the message is 16 bytes shorter than the
/// ciphertext.
#[verifier::external_body]
pub(crate) fn chacha_decrypt(
    key: &[u8; 32],
    nonce: &[u8; 12],
    sealed: &[u8],
) -> (r: Option<Vec<u8>>)
    ensures
        match r {
            Some(plain) => chacha_opened(key@, nonce@, sealed@) == Some(plain@) && plain@.len() + 16
                == sealed@.len(),
            None => chacha_opened(key@, nonce@, sealed@) is None,
        },
{
    let cipher: chacha20poly1305::ChaCha20Poly1305 = chacha20poly1305::KeyInit::new(
        chacha20poly1305::Key::from_slice(key),
    );
    let nonce = chacha20poly1305::Nonce::from_slice(nonce);
    chacha20poly1305::aead::Aead::decrypt(&cipher, nonce, sealed).ok()
}

// ---------------------------------------------------------------------------
// Randomness and secrets in memory
// ---------------------------------------------------------------------------

/// Calls `fill_bytes` of `rand_core::OsRng`. Nothing is known of the bytes but
/// their number. The call panics where the system has no randomness to give.
#[verifier::external_body]
pub(crate) fn random_bytes<const N: usize>() -> (r: [u8; N]) {
    let mut out = [0u8; N];
    rand_core::RngCore::fill_bytes(&mut rand_core::OsRng, &mut out);
    out
}

/// Calls `zeroize` of `zeroize::Zeroize`, which overwrites the bytes with
/// zeros.
#[verifier::external_body]
pub(crate) fn wipe(secret: &mut [u8; 32])
    ensures
        forall|i: int| 0 <= i < 32 ==> final(secret)@[i] == 0,
{
    zeroize::Zeroize::zeroize(secret)
}

} // verus!
