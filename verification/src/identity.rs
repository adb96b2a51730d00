//! The software identity: an Ed25519 admin key kept in a file, sealed with a
//! passphrase (argon2id + ChaCha20-Poly1305) or, for unattended signing, in
//! plaintext.
//!
//! The file has three lines — a header, the base58 key data, and the base58
//! public key. The key data is the sealed seed or, under the plaintext header,
//! the seed itself. Storing the public key in the clear lets the admin identity
//! be reported without the passphrase; only signing needs to decrypt.
//!
//! The functions here take the text of the file and the name to call it by in
//! messages. Reading and writing it is the caller's part.

use vstd::prelude::*;
use vstd::slice::slice_subrange;
use vstd::utf8::encode_utf8;
use crate::crypto::{
    argon2_check, argon2_derive, argon2_refusal, argon2id, chacha_decrypt, chacha_encrypt,
    chacha_opened, chacha_sealed, ed25519_public, ed25519_random_seed, random_bytes, wipe,
};
use crate::encoding::{
    base58_decode, base58_decoded, base58_encode, base58_encoded, base58_error, base58_is_canonical,
    base58_round_trip, is_base58, lemma_base58_encoded_digits,
};
use crate::error::ErrorView;
use crate::key::{array_of, base58_names_the_key, key_of_base58, PubKey, SigningKey};
use crate::text::{
    is_white, joined, lemma_first_line, lemma_trimmed_solid, line_seq, lines, trim, trimmed,
};
use crate::tx::SoftwareSigner;
use crate::wire::{be32, be32_round_trip, be32_value, number, put_u32};

verus! {

/// The first line of a sealed identity file.
pub const HEADER: &'static str = "SQNR-ED25519-ENCRYPTED-KEY";

/// The first line of a plaintext identity file.
pub const PLAINTEXT_HEADER: &'static str = "SQNR-ED25519-PLAINTEXT-KEY";

// argon2id parameters, recorded in the blob so a future bump can still decrypt
// older files.

/// Memory, in kibibytes.
pub const ARGON_M_COST: u32 = 65536;

/// Iterations.
pub const ARGON_T_COST: u32 = 3;

/// Parallelism.
pub const ARGON_P_COST: u32 = 4;

// ---------------------------------------------------------------------------
// Where it is
// ---------------------------------------------------------------------------

/// The path of the entry called `name` under `base`.
pub open spec fn path_under(base: Seq<char>, name: Seq<char>) -> Seq<char> {
    if base.len() == 0 || base.last() == '/' {
        base + name
    } else {
        base + "/"@ + name
    }
}

pub(crate) fn under(base: &str, name: &str) -> (r: String)
    ensures
        r@ == path_under(base@, name@),
{
    let n: usize = base.unicode_len();
    if n == 0 || base.get_char(n - 1) == '/' {
        joined(base, name)
    } else {
        joined(joined(base, "/").as_str(), name)
    }
}

/// The `.sqnr` directory of the home directory `home`.
pub fn sqnr_dir(home: Option<&str>) -> (r: Result<String, String>)
    ensures
        match home {
            Some(h) => r matches Ok(dir) && dir@ == path_under(h@, ".sqnr"@),
            None => r matches Err(e) && e@ == "cannot locate home directory"@,
        },
{
    match home {
        Some(h) => Ok(under(h, ".sqnr")),
        None => Err("cannot locate home directory".to_string()),
    }
}

/// The default identity path, `identity` in the `.sqnr` directory.
pub fn default_identity_path(home: Option<&str>) -> (r: Result<String, String>)
    ensures
        match home {
            Some(h) => r matches Ok(path) && path@ == path_under(
                path_under(h@, ".sqnr"@),
                "identity"@,
            ),
            None => r matches Err(e) && e@ == "cannot locate home directory"@,
        },
{
    let dir = sqnr_dir(home)?;
    Ok(under(dir.as_str(), "identity"))
}

// ---------------------------------------------------------------------------
// The file
// ---------------------------------------------------------------------------

/// The three lines of an identity file.
pub open spec fn file_text(header: Seq<char>, data: Seq<char>, public: Seq<char>) -> Seq<char> {
    header + "\n"@ + (data + "\n"@ + (public + "\n"@))
}

/// What an identity file holds, white space around its lines aside.
pub struct FileView {
    /// Whether the key data is sealed with a passphrase.
    pub encrypted: bool,
    /// The second line.
    pub data: Seq<char>,
    /// The third line.
    pub public: Seq<char>,
}

/// The first line of `content`, or nothing where it has none.
pub open spec fn first_line(content: Seq<char>) -> Seq<char> {
    let ls = line_seq(content);
    trimmed(
        if ls.len() > 0 {
            ls[0]
        } else {
            Seq::empty()
        },
    )
}

/// What the file called `path` holds, or why it is no identity file.
pub open spec fn file_parts(path: Seq<char>, content: Seq<char>) -> Result<FileView, Seq<char>> {
    let ls = line_seq(content);
    let header = first_line(content);
    if header != HEADER@ && header != PLAINTEXT_HEADER@ {
        Err(path + ": not an sqnr identity file"@)
    } else if ls.len() < 2 {
        Err("identity file missing key data"@)
    } else if ls.len() < 3 {
        Err("identity file missing public key"@)
    } else {
        Ok(
            FileView {
                encrypted: header == HEADER@,
                data: trimmed(ls[1]),
                public: trimmed(ls[2]),
            },
        )
    }
}

/// The public key that the file called `path` states.
pub open spec fn stated_public(path: Seq<char>, content: Seq<char>) -> Result<
    Seq<u8>,
    Seq<char>,
> {
    match file_parts(path, content) {
        Err(e) => Err(e),
        Ok(f) => match key_of_base58(f.public) {
            Err(e) => Err("bad public key line: "@ + e.text()),
            Ok(k) => Ok(k),
        },
    }
}

/// The lines of an identity file, as read.
struct Parts {
    encrypted: bool,
    data: String,
    public: String,
}

impl View for Parts {
    type V = FileView;

    closed spec fn view(&self) -> FileView {
        FileView { encrypted: self.encrypted, data: self.data@, public: self.public@ }
    }
}

fn read_lines(path: &str, content: &str) -> (r: Result<Parts, String>)
    ensures
        match r {
            Ok(p) => file_parts(path@, content@) == Ok::<FileView, Seq<char>>(p@),
            Err(e) => file_parts(path@, content@) == Err::<FileView, Seq<char>>(e@),
        },
{
    let ls = lines(content);
    let header = if ls.len() > 0 {
        trim(ls[0].as_str()).to_string()
    } else {
        String::new()
    };
    let encrypted = header == HEADER.to_string();
    if !encrypted && header != PLAINTEXT_HEADER.to_string() {
        return Err(joined(path, ": not an sqnr identity file"));
    }
    if ls.len() < 2 {
        return Err("identity file missing key data".to_string());
    }
    if ls.len() < 3 {
        return Err("identity file missing public key".to_string());
    }
    let data = trim(ls[1].as_str()).to_string();
    let public = trim(ls[2].as_str()).to_string();
    Ok(Parts { encrypted, data, public })
}

fn public_of(line: &str) -> (r: Result<PubKey, String>)
    ensures
        match r {
            Ok(k) => key_of_base58(line@) == Ok::<Seq<u8>, ErrorView>(k@),
            Err(e) => key_of_base58(line@) matches Err(err) && e@ == "bad public key line: "@
                + err.text(),
        },
{
    match PubKey::from_base58(line) {
        Ok(k) => Ok(k),
        Err(e) => Err(joined("bad public key line: ", e.to_string().as_str())),
    }
}

/// Read the public key from the text of an identity file, without the
/// passphrase.
pub fn read_public(path: &str, content: &str) -> (r: Result<PubKey, String>)
    ensures
        match r {
            Ok(k) => stated_public(path@, content@) == Ok::<Seq<u8>, Seq<char>>(k@),
            Err(e) => stated_public(path@, content@) == Err::<Seq<u8>, Seq<char>>(e@),
        },
        r matches Ok(k) ==> line_seq(content@).len() >= 3 && trimmed(line_seq(content@)[2])
            == base58_encoded(k@),
{
    proof {
        identity_files_are_three_lines(path@, content@);
        if line_seq(content@).len() >= 3 {
            base58_is_canonical(trimmed(line_seq(content@)[2]));
        }
    }
    let parts = read_lines(path, content)?;
    public_of(parts.public.as_str())
}

/// Whether signing with this identity takes a passphrase.
pub fn is_encrypted(path: &str, content: &str) -> (r: Result<bool, String>)
    ensures
        match r {
            Ok(b) => file_parts(path@, content@) matches Ok(f) && b == f.encrypted,
            Err(e) => file_parts(path@, content@) == Err::<FileView, Seq<char>>(e@),
        },
        r matches Ok(b) ==> line_seq(content@).len() >= 3 && trimmed(line_seq(content@)[0]) == if b {
            HEADER@
        } else {
            PLAINTEXT_HEADER@
        },
{
    proof {
        identity_files_are_three_lines(path@, content@);
    }
    let parts = read_lines(path, content)?;
    Ok(parts.encrypted)
}

// ---------------------------------------------------------------------------
// Sealing the seed
// ---------------------------------------------------------------------------

/// The key that argon2id derives from a password, or why it does not. The
/// memory that the parameters ask for must be addressable.
pub open spec fn derived_key(
    m_cost: u32,
    t_cost: u32,
    p_cost: u32,
    password: Seq<u8>,
    salt: Seq<u8>,
) -> Result<Seq<u8>, Seq<char>> {
    match argon2_refusal(m_cost as int, t_cost as int, p_cost as int) {
        Some(e) => Err("argon2 params: "@ + e),
        None => if m_cost * 1024 > isize::MAX {
            Err("argon2 params: "@ + "memory cost is too large"@)
        } else if password.len() > 0xffff_ffff {
            Err("argon2 hash: "@ + "password is too long"@)
        } else {
            Ok(argon2id(m_cost, t_cost, p_cost, password, salt))
        },
    }
}

fn argon2(
    m_cost: u32,
    t_cost: u32,
    p_cost: u32,
    passphrase: &str,
    salt: &[u8; 16],
) -> (r: Result<[u8; 32], String>)
    ensures
        match r {
            Ok(key) => derived_key(m_cost, t_cost, p_cost, encode_utf8(passphrase@), salt@) == Ok::<
                Seq<u8>,
                Seq<char>,
            >(key@),
            Err(e) => derived_key(m_cost, t_cost, p_cost, encode_utf8(passphrase@), salt@) == Err::<
                Seq<u8>,
                Seq<char>,
            >(e@),
        },
        r matches Ok(key) ==> key@ == argon2id(
            m_cost,
            t_cost,
            p_cost,
            encode_utf8(passphrase@),
            salt@,
        ),
{
    if p_cost > 0x1fff_ffff {
        return Err(joined("argon2 params: ", "memory cost is too small"));
    }
    match argon2_check(m_cost, t_cost, p_cost) {
        Ok(_) => {},
        Err(e) => return Err(joined("argon2 params: ", e.as_str())),
    }
    if m_cost as u64 * 1024 > isize::MAX as u64 {
        return Err(joined("argon2 params: ", "memory cost is too large"));
    }
    match argon2_derive(m_cost, t_cost, p_cost, passphrase.as_bytes(), salt) {
        Ok(key) => Ok(key),
        Err(e) => Err(joined("argon2 hash: ", e.as_str())),
    }
}

/// The key that seals an identity under `passphrase` and `salt`.
pub open spec fn sealing_key(passphrase: Seq<char>, salt: Seq<u8>) -> Seq<u8> {
    argon2id(ARGON_M_COST, ARGON_T_COST, ARGON_P_COST, encode_utf8(passphrase), salt)
}

/// The sealed seed: `[4 m_cost][4 t_cost][4 p_cost][16 salt][12 nonce][ct]`.
pub open spec fn sealed_blob(
    seed: Seq<u8>,
    passphrase: Seq<char>,
    salt: Seq<u8>,
    nonce: Seq<u8>,
) -> Seq<u8> {
    be32(ARGON_M_COST as nat) + be32(ARGON_T_COST as nat) + be32(ARGON_P_COST as nat) + salt + nonce
        + chacha_sealed(sealing_key(passphrase, salt), nonce, seed)
}

/// The seed that sealed key data holds, or why it does not open.
pub open spec fn opened_seed(data: Seq<char>, passphrase: Seq<char>) -> Result<
    Seq<u8>,
    Seq<char>,
> {
    match base58_decoded(data) {
        None => Err("bad base58 in identity: "@ + base58_error(data)),
        Some(d) => if d.len() < 40 {
            Err("encrypted key blob too short"@)
        } else {
            match derived_key(
                be32_value(d.subrange(0, 4)) as u32,
                be32_value(d.subrange(4, 8)) as u32,
                be32_value(d.subrange(8, 12)) as u32,
                encode_utf8(passphrase),
                d.subrange(12, 28),
            ) {
                Err(e) => Err(e),
                Ok(key) => match chacha_opened(
                    key,
                    d.subrange(28, 40),
                    d.subrange(40, d.len() as int),
                ) {
                    None => Err("decryption failed (wrong passphrase?)"@),
                    Some(seed) => if seed.len() != 32 {
                        Err("decrypted seed is not 32 bytes"@)
                    } else {
                        Ok(seed)
                    },
                },
            }
        },
    }
}

/// The seed that plaintext key data holds, or why it holds none.
pub open spec fn plain_seed(data: Seq<char>) -> Result<Seq<u8>, Seq<char>> {
    match base58_decoded(data) {
        None => Err("bad base58 in identity: "@ + base58_error(data)),
        Some(seed) => if seed.len() != 32 {
            Err("plaintext seed is not 32 bytes"@)
        } else {
            Ok(seed)
        },
    }
}

/// Seals a seed under `passphrase`, with this salt and this nonce. The blob has
/// 88 bytes, the last 48 of them ciphertext, and opens under the same
/// passphrase.
pub fn encrypt_seed(
    seed: &[u8; 32],
    passphrase: &str,
    salt: &[u8; 16],
    nonce: &[u8; 12],
) -> (r: Result<String, String>)
    ensures
        match r {
            Ok(s) => encode_utf8(passphrase@).len() <= 0xffff_ffff && s@ == base58_encoded(
                sealed_blob(seed@, passphrase@, salt@, nonce@),
            ) && opened_seed(s@, passphrase@) == Ok::<Seq<u8>, Seq<char>>(seed@)
                && chacha_sealed(sealing_key(passphrase@, salt@), nonce@, seed@).len() == 48
                && sealed_blob(seed@, passphrase@, salt@, nonce@).len() == 88,
            Err(e) => encode_utf8(passphrase@).len() > 0xffff_ffff && e@
                == "argon2 hash: password is too long"@,
        },
        r matches Ok(s) ==> s@ == base58_encoded(
            be32(65536) + be32(3) + be32(4) + salt@ + nonce@ + chacha_sealed(
                argon2id(65536, 3, 4, encode_utf8(passphrase@), salt@),
                nonce@,
                seed@,
            ),
        ),
{
    let mut derived = match argon2(ARGON_M_COST, ARGON_T_COST, ARGON_P_COST, passphrase, salt) {
        Ok(key) => key,
        Err(e) => {
            proof {
                reveal_strlit("argon2 hash: ");
                reveal_strlit("password is too long");
                reveal_strlit("argon2 hash: password is too long");
                assert("argon2 hash: "@ + "password is too long"@
                    =~= "argon2 hash: password is too long"@);
            }
            return Err(e);
        },
    };
    let sealed = chacha_encrypt(&derived, nonce, seed);
    wipe(&mut derived);
    let ciphertext = match sealed {
        Ok(c) => c,
        Err(e) => return Err(joined("encrypt: ", e.as_str())),
    };
    let mut out: Vec<u8> = Vec::new();
    put_u32(&mut out, ARGON_M_COST as usize);
    put_u32(&mut out, ARGON_T_COST as usize);
    put_u32(&mut out, ARGON_P_COST as usize);
    out.extend_from_slice(salt);
    out.extend_from_slice(nonce);
    out.extend_from_slice(ciphertext.as_slice());
    proof {
        let d = sealed_blob(seed@, passphrase@, salt@, nonce@);
        assert(out@ =~= d);
        base58_round_trip(d);
        be32_round_trip(ARGON_M_COST as nat, d.subrange(0, 4));
        be32_round_trip(ARGON_T_COST as nat, d.subrange(4, 8));
        be32_round_trip(ARGON_P_COST as nat, d.subrange(8, 12));
        assert(d.subrange(0, 4) =~= be32(ARGON_M_COST as nat));
        assert(d.subrange(4, 8) =~= be32(ARGON_T_COST as nat));
        assert(d.subrange(8, 12) =~= be32(ARGON_P_COST as nat));
        assert(d.subrange(12, 28) =~= salt@);
        assert(d.subrange(28, 40) =~= nonce@);
        assert(d.subrange(40, d.len() as int) =~= ciphertext@);
    }
    Ok(base58_encode(out.as_slice()))
}

/// Opens sealed key data under `passphrase`.
pub fn decrypt_seed(data: &str, passphrase: &str) -> (r: Result<SigningKey, String>)
    ensures
        match r {
            Ok(key) => opened_seed(data@, passphrase@) == Ok::<Seq<u8>, Seq<char>>(key@),
            Err(e) => opened_seed(data@, passphrase@) == Err::<Seq<u8>, Seq<char>>(e@),
        },
        r matches Ok(key) ==> {
            &&& base58_decoded(data@) matches Some(d)
            &&& d.len() >= 40
            &&& chacha_opened(
                argon2id(
                    be32_value(d.subrange(0, 4)) as u32,
                    be32_value(d.subrange(4, 8)) as u32,
                    be32_value(d.subrange(8, 12)) as u32,
                    encode_utf8(passphrase@),
                    d.subrange(12, 28),
                ),
                d.subrange(28, 40),
                d.subrange(40, d.len() as int),
            ) == Some(key@)
        },
{
    let raw = match base58_decode(data) {
        Ok(raw) => raw,
        Err(e) => return Err(joined("bad base58 in identity: ", e.as_str())),
    };
    let d = raw.as_slice();
    if d.len() < 40 {
        return Err("encrypted key blob too short".to_string());
    }
    let m_cost: u32 = number(slice_subrange(d, 0, 4));
    let t_cost: u32 = number(slice_subrange(d, 4, 8));
    let p_cost: u32 = number(slice_subrange(d, 8, 12));
    let salt: [u8; 16] = array_of(slice_subrange(d, 12, 28));
    let nonce: [u8; 12] = array_of(slice_subrange(d, 28, 40));
    let ciphertext = slice_subrange(d, 40, d.len());
    let mut derived = argon2(m_cost, t_cost, p_cost, passphrase, &salt)?;
    let opened = chacha_decrypt(&derived, &nonce, ciphertext);
    wipe(&mut derived);
    let seed = match opened {
        Some(seed) => seed,
        None => return Err("decryption failed (wrong passphrase?)".to_string()),
    };
    if seed.len() != 32 {
        return Err("decrypted seed is not 32 bytes".to_string());
    }
    let mut arr: [u8; 32] = array_of(seed.as_slice());
    let key = SigningKey::from_bytes(&arr);
    wipe(&mut arr);
    Ok(key)
}

/// Reads plaintext key data.
fn plaintext_seed(data: &str) -> (r: Result<SigningKey, String>)
    ensures
        match r {
            Ok(key) => plain_seed(data@) == Ok::<Seq<u8>, Seq<char>>(key@),
            Err(e) => plain_seed(data@) == Err::<Seq<u8>, Seq<char>>(e@),
        },
{
    let raw = match base58_decode(data) {
        Ok(raw) => raw,
        Err(e) => return Err(joined("bad base58 in identity: ", e.as_str())),
    };
    if raw.len() != 32 {
        return Err("plaintext seed is not 32 bytes".to_string());
    }
    let mut arr: [u8; 32] = array_of(raw.as_slice());
    let key = SigningKey::from_bytes(&arr);
    wipe(&mut arr);
    Ok(key)
}

// ---------------------------------------------------------------------------
// Loading and generating
// ---------------------------------------------------------------------------

/// The seed that the file called `path` holds, or why it gives none. The
/// stated public key is held against the seed.
pub open spec fn loaded_seed(
    path: Seq<char>,
    content: Seq<char>,
    passphrase: Seq<char>,
) -> Result<Seq<u8>, Seq<char>> {
    match file_parts(path, content) {
        Err(e) => Err(e),
        Ok(f) => match if f.encrypted {
            opened_seed(f.data, passphrase)
        } else {
            plain_seed(f.data)
        } {
            Err(e) => Err(e),
            Ok(seed) => match key_of_base58(f.public) {
                Err(e) => Err("bad public key line: "@ + e.text()),
                Ok(k) => if k != ed25519_public(seed) {
                    Err("identity file is inconsistent (public key does not match seed)"@)
                } else {
                    Ok(seed)
                },
            },
        },
    }
}

/// Open the identity under `passphrase` and return a signer over it; a plaintext
/// identity needs none and ignores it. The stored public key is checked against
/// the key as a tamper guard.
pub fn load(path: &str, content: &str, passphrase: &str) -> (r: Result<SoftwareSigner, String>)
    ensures
        match r {
            Ok(signer) => loaded_seed(path@, content@, passphrase@) == Ok::<Seq<u8>, Seq<char>>(
                signer@,
            ),
            Err(e) => loaded_seed(path@, content@, passphrase@) == Err::<Seq<u8>, Seq<char>>(e@),
        },
        r matches Ok(signer) ==> {
            let ls = line_seq(content@);
            &&& ls.len() >= 3
            &&& trimmed(ls[2]) == base58_encoded(ed25519_public(signer@))
            &&& trimmed(ls[0]) == HEADER@ && opened_seed(trimmed(ls[1]), passphrase@) == Ok::<
                Seq<u8>,
                Seq<char>,
            >(signer@) || trimmed(ls[0]) == PLAINTEXT_HEADER@ && trimmed(ls[1]) == base58_encoded(
                signer@,
            )
        },
{
    proof {
        identity_files_are_three_lines(path@, content@);
        if line_seq(content@).len() >= 3 {
            base58_is_canonical(trimmed(line_seq(content@)[1]));
            base58_is_canonical(trimmed(line_seq(content@)[2]));
        }
    }
    let parts = read_lines(path, content)?;
    let key = if parts.encrypted {
        decrypt_seed(parts.data.as_str(), passphrase)?
    } else {
        plaintext_seed(parts.data.as_str())?
    };
    let derived = PubKey::new(key.verifying_key().to_bytes());
    let stored = public_of(parts.public.as_str())?;
    if derived != stored {
        return Err(
            "identity file is inconsistent (public key does not match seed)".to_string(),
        );
    }
    Ok(SoftwareSigner::new(key))
}

/// The passphrase as characters.
pub open spec fn phrase(passphrase: Option<&str>) -> Option<Seq<char>> {
    match passphrase {
        Some(p) => Some(p@),
        None => None,
    }
}

/// Whether argon2 refuses the passphrase for its length.
pub open spec fn too_long(passphrase: Option<Seq<char>>) -> bool {
    passphrase matches Some(p) && encode_utf8(p).len() > 0xffff_ffff
}

/// The text of an identity file that holds `seed`: sealed under the passphrase,
/// or in plaintext where there is none.
pub open spec fn identity_file(
    seed: Seq<u8>,
    passphrase: Option<Seq<char>>,
    salt: Seq<u8>,
    nonce: Seq<u8>,
) -> Seq<char> {
    let public = base58_encoded(ed25519_public(seed));
    match passphrase {
        Some(p) => file_text(HEADER@, base58_encoded(sealed_blob(seed, p, salt, nonce)), public),
        None => file_text(PLAINTEXT_HEADER@, base58_encoded(seed), public),
    }
}

/// What an identity file is for: it states the public key of `seed` to anybody,
/// tells whether it takes a passphrase, and gives the seed to whoever has the
/// passphrase, if it has one.
pub open spec fn holds(content: Seq<char>, passphrase: Option<Seq<char>>, seed: Seq<u8>) -> bool {
    &&& forall|path: Seq<char>| #[trigger]
        stated_public(path, content) == Ok::<Seq<u8>, Seq<char>>(ed25519_public(seed))
    &&& forall|path: Seq<char>|
        (#[trigger] file_parts(path, content) matches Ok(f) && f.encrypted == (passphrase is Some))
    &&& match passphrase {
        Some(p) => forall|path: Seq<char>| #[trigger]
            loaded_seed(path, content, p) == Ok::<Seq<u8>, Seq<char>>(seed),
        None => forall|path: Seq<char>, p: Seq<char>| #[trigger]
            loaded_seed(path, content, p) == Ok::<Seq<u8>, Seq<char>>(seed),
    }
}

/// Writes the three lines of an identity file.
fn compose(header: &str, data: &str, public: &PubKey) -> (r: String)
    ensures
        r@ == file_text(header@, data@, base58_encoded(public@)),
{
    let mut out = header.to_string();
    out.append("\n");
    out.append(data);
    out.append("\n");
    out.append(public.to_base58().as_str());
    out.append("\n");
    assert(out@ =~= file_text(header@, data@, base58_encoded(public@)));
    out
}

/// The text of an identity file that holds `key`: sealed under the passphrase
/// with this salt and this nonce, or in plaintext where there is no passphrase.
pub fn file_content(
    key: &SigningKey,
    passphrase: Option<&str>,
    salt: &[u8; 16],
    nonce: &[u8; 12],
) -> (r: Result<String, String>)
    ensures
        match r {
            Ok(content) => !too_long(phrase(passphrase)) && content@ == identity_file(
                key@,
                phrase(passphrase),
                salt@,
                nonce@,
            ) && holds(content@, phrase(passphrase), key@),
            Err(e) => too_long(phrase(passphrase)) && e@ == "argon2 hash: password is too long"@,
        },
        match passphrase {
            Some(p) => match r {
                Ok(content) => encode_utf8(p@).len() <= 0xffff_ffff && content@ == HEADER@ + "\n"@ + (
                base58_encoded(
                    be32(65536) + be32(3) + be32(4) + salt@ + nonce@ + chacha_sealed(
                        argon2id(65536, 3, 4, encode_utf8(p@), salt@),
                        nonce@,
                        key@,
                    ),
                ) + "\n"@ + (base58_encoded(ed25519_public(key@)) + "\n"@)),
                Err(_) => encode_utf8(p@).len() > 0xffff_ffff,
            },
            None => r matches Ok(content) && content@ == PLAINTEXT_HEADER@ + "\n"@ + (
            base58_encoded(key@) + "\n"@ + (base58_encoded(ed25519_public(key@)) + "\n"@)),
        },
{
    let public = PubKey::from(key.verifying_key());
    let mut seed = key.to_bytes();
    assert(key@.len() == 32);
    match passphrase {
        Some(p) => {
            let sealed = encrypt_seed(&seed, p, salt, nonce);
            wipe(&mut seed);
            let blob = sealed?;
            let content = compose(HEADER, blob.as_str(), &public);
            proof {
                lemma_base58_encoded_digits(sealed_blob(key@, p@, salt@, nonce@));
                lemma_file_parts(HEADER@, blob@, public);
            }
            Ok(content)
        },
        None => {
            let data = base58_encode(&seed);
            wipe(&mut seed);
            let content = compose(PLAINTEXT_HEADER, data.as_str(), &public);
            proof {
                lemma_base58_encoded_digits(key@);
                lemma_headers();
                lemma_file_parts(PLAINTEXT_HEADER@, data@, public);
                base58_round_trip(key@);
            }
            Ok(content)
        },
    }
}

/// Generate a fresh Ed25519 identity for the file called `path`, which must not
/// be there yet: sealed under the passphrase, or in plaintext where there is
/// none. Returns the new public key and the text of the file.
pub fn generate(
    path: &str,
    exists: bool,
    passphrase: Option<&str>,
) -> (r: Result<(PubKey, String), String>)
    ensures
        match r {
            Ok((public, content)) => !exists && !too_long(phrase(passphrase)) && exists|
                seed: Seq<u8>,
                salt: Seq<u8>,
                nonce: Seq<u8>,
            |
                seed.len() == 32 && salt.len() == 16 && nonce.len() == 12 && public@
                    == ed25519_public(seed) && content@ == #[trigger] identity_file(
                    seed,
                    phrase(passphrase),
                    salt,
                    nonce,
                ) && holds(content@, phrase(passphrase), seed),
            Err(e) => if exists {
                e@ == path@ + " already exists; refusing to overwrite"@
            } else {
                too_long(phrase(passphrase)) && e@ == "argon2 hash: password is too long"@
            },
        },
        match passphrase {
            Some(p) => r matches Ok((public, content)) ==> encode_utf8(p@).len() <= 0xffff_ffff
                && exists|seed: Seq<u8>, salt: Seq<u8>, nonce: Seq<u8>|
                public@ == ed25519_public(seed) && seed.len() == 32 && content@
                    == #[trigger] identity_file(seed, Some(p@), salt, nonce) && loaded_seed(
                    path@,
                    content@,
                    p@,
                ) == Ok::<Seq<u8>, Seq<char>>(seed),
            None => r matches Ok((public, content)) ==> exists|
                seed: Seq<u8>,
                salt: Seq<u8>,
                nonce: Seq<u8>,
            |
                public@ == ed25519_public(seed) && seed.len() == 32 && content@
                    == #[trigger] identity_file(seed, None, salt, nonce),
        },
        r is Ok <==> (!exists && (passphrase matches Some(p) ==> encode_utf8(p@).len()
            <= 0xffff_ffff)),
{
    if exists {
        return Err(joined(path, " already exists; refusing to overwrite"));
    }
    let mut seed = ed25519_random_seed();
    let key = SigningKey::from_bytes(&seed);
    assert(key@.len() == 32);
    wipe(&mut seed);
    let public = PubKey::from(key.verifying_key());
    let salt: [u8; 16] = random_bytes();
    let nonce: [u8; 12] = random_bytes();
    let content = file_content(&key, passphrase, &salt, &nonce)?;
    proof {
        match passphrase {
            Some(p) => {
                assert(content@ == identity_file(key@, Some(p@), salt@, nonce@));
                assert(loaded_seed(path@, content@, p@) == Ok::<Seq<u8>, Seq<char>>(key@));
            },
            None => {
                assert(content@ == identity_file(key@, None, salt@, nonce@));
            },
        }
    }
    Ok((public, content))
}

/// The tamper guard: an identity that loads signs for the public key that its
/// file states.
pub proof fn loading_confirms_the_stated_key(
    path: Seq<char>,
    content: Seq<char>,
    passphrase: Seq<char>,
)
    ensures
        loaded_seed(path, content, passphrase) matches Ok(seed) ==> stated_public(path, content)
            == Ok::<Seq<u8>, Seq<char>>(ed25519_public(seed)),
{
}

/// Base58 text holds no white space.
proof fn lemma_base58_solid(s: Seq<char>)
    requires
        forall|i: int| 0 <= i < s.len() ==> is_base58(#[trigger] s[i]),
    ensures
        trimmed(s) == s,
        !s.contains('\n'),
{
    assert forall|i: int| 0 <= i < s.len() implies !is_white(#[trigger] s[i]) by {
        assert(is_base58(s[i]));
    }
    lemma_trimmed_solid(s);
}

/// The lines of an identity file are those it was composed of.
proof fn lemma_file_lines(header: Seq<char>, data: Seq<char>, public: Seq<char>)
    requires
        !header.contains('\n'),
        !data.contains('\n'),
        !public.contains('\n'),
    ensures
        line_seq(file_text(header, data, public)) == seq![header, data, public],
{
    reveal_strlit("\n");
    assert("\n"@ =~= seq!['\n']);
    let rest = public + "\n"@;
    assert(rest =~= public + seq!['\n'] + Seq::<char>::empty());
    lemma_first_line(public, Seq::empty());
    lemma_first_line(data, rest);
    lemma_first_line(header, data + "\n"@ + rest);
    assert(line_seq(Seq::<char>::empty()) =~= Seq::<Seq<char>>::empty());
    assert(line_seq(file_text(header, data, public)) =~= seq![header, data, public]);
}

/// A composed identity file reads as what it was composed of.
proof fn lemma_file_parts(header: Seq<char>, data: Seq<char>, public: PubKey)
    requires
        header == HEADER@ || header == PLAINTEXT_HEADER@,
        forall|i: int| 0 <= i < data.len() ==> is_base58(#[trigger] data[i]),
    ensures
        forall|path: Seq<char>| #[trigger]
            file_parts(path, file_text(header, data, base58_encoded(public@))) == Ok::<
                FileView,
                Seq<char>,
            >(
                FileView {
                    encrypted: header == HEADER@,
                    data,
                    public: base58_encoded(public@),
                },
            ),
        key_of_base58(base58_encoded(public@)) == Ok::<Seq<u8>, ErrorView>(public@),
{
    lemma_headers();
    lemma_base58_solid(data);
    lemma_base58_encoded_digits(public@);
    lemma_base58_solid(base58_encoded(public@));
    lemma_file_lines(header, data, base58_encoded(public@));
    base58_names_the_key(public);
}

/// The headers hold no white space, and differ.
proof fn lemma_headers()
    ensures
        trimmed(HEADER@) == HEADER@,
        !HEADER@.contains('\n'),
        trimmed(PLAINTEXT_HEADER@) == PLAINTEXT_HEADER@,
        !PLAINTEXT_HEADER@.contains('\n'),
        HEADER@ != PLAINTEXT_HEADER@,
{
    reveal_strlit("SQNR-ED25519-ENCRYPTED-KEY");
    reveal_strlit("SQNR-ED25519-PLAINTEXT-KEY");
    assert(HEADER@[13] != PLAINTEXT_HEADER@[13]);
    lemma_trimmed_solid(HEADER@);
    lemma_trimmed_solid(PLAINTEXT_HEADER@);
}

/// A path is its directory and its name with one slash between them, or with the
/// slash that the directory ends with.
pub proof fn paths_are_joined_by_one_slash(base: Seq<char>, name: Seq<char>)
    ensures
        base.len() == 0 ==> path_under(base, name) == name,
        base.len() > 0 && base.last() == '/' ==> path_under(base, name) == base + name,
        base.len() > 0 && base.last() != '/' ==> path_under(base, name) == base.push('/') + name,
{
    reveal_strlit("/");
    if base.len() == 0 {
        assert(base + name =~= name);
    } else if base.last() != '/' {
        assert(base + "/"@ + name =~= base.push('/') + name);
    }
}

/// A key is derived from all bytes of the password, whatever its length, with
/// the parameters and the salt as they are, or not at all.
pub proof fn keys_are_derived_from_the_whole_password(
    m_cost: u32,
    t_cost: u32,
    p_cost: u32,
    password: Seq<u8>,
    salt: Seq<u8>,
)
    ensures
        derived_key(m_cost, t_cost, p_cost, password, salt) matches Ok(key) ==> key == argon2id(
            m_cost,
            t_cost,
            p_cost,
            password,
            salt,
        ),
        derived_key(m_cost, t_cost, p_cost, password, salt) is Ok <==> {
            &&& m_cost >= 8
            &&& m_cost >= 8 * p_cost
            &&& t_cost >= 1
            &&& 1 <= p_cost <= 0xff_ffff
            &&& m_cost * 1024 <= isize::MAX
            &&& password.len() <= 0xffff_ffff
        },
        argon2_refusal(m_cost as int, t_cost as int, p_cost as int) matches Some(e) ==> derived_key(
            m_cost,
            t_cost,
            p_cost,
            password,
            salt,
        ) == Err::<Seq<u8>, Seq<char>>("argon2 params: "@ + e),
        argon2_refusal(m_cost as int, t_cost as int, p_cost as int) is None && m_cost * 1024
            > isize::MAX ==> derived_key(m_cost, t_cost, p_cost, password, salt) == Err::<
            Seq<u8>,
            Seq<char>,
        >("argon2 params: "@ + "memory cost is too large"@),
        argon2_refusal(m_cost as int, t_cost as int, p_cost as int) is None && m_cost * 1024
            <= isize::MAX && password.len() > 0xffff_ffff ==> derived_key(
            m_cost,
            t_cost,
            p_cost,
            password,
            salt,
        ) == Err::<Seq<u8>, Seq<char>>("argon2 hash: "@ + "password is too long"@),
{
}

/// A sealed seed is its parameters, its salt, its nonce, and the encryption of
/// the seed under the key of the whole passphrase.
pub proof fn a_sealed_seed_is_under_the_whole_passphrase(
    seed: Seq<u8>,
    passphrase: Seq<char>,
    salt: Seq<u8>,
    nonce: Seq<u8>,
)
    requires
        salt.len() == 16,
        nonce.len() == 12,
    ensures
        ({
            let d = sealed_blob(seed, passphrase, salt, nonce);
            let key = argon2id(65536, 3, 4, encode_utf8(passphrase), salt);
            &&& d.subrange(0, 4) == be32(65536)
            &&& d.subrange(4, 8) == be32(3)
            &&& d.subrange(8, 12) == be32(4)
            &&& d.subrange(12, 28) == salt
            &&& d.subrange(28, 40) == nonce
            &&& d.skip(40) == chacha_sealed(key, nonce, seed)
        }),
{
    let d = sealed_blob(seed, passphrase, salt, nonce);
    let key = argon2id(65536, 3, 4, encode_utf8(passphrase), salt);
    assert(d.subrange(0, 4) =~= be32(65536));
    assert(d.subrange(4, 8) =~= be32(3));
    assert(d.subrange(8, 12) =~= be32(4));
    assert(d.subrange(12, 28) =~= salt);
    assert(d.subrange(28, 40) =~= nonce);
    assert(d.skip(40) =~= chacha_sealed(key, nonce, seed));
}

/// Sealed key data opens if and only if it is base58 of at least 40 bytes, a key
/// can be derived from the whole passphrase with the parameters and the salt in
/// it, and that key decrypts the rest to 32 bytes: these are the seed. Else the
/// first of these that fails is named.
pub proof fn opening_takes_the_whole_passphrase(
    data: Seq<char>,
    passphrase: Seq<char>,
    d: Seq<u8>,
    m_cost: u32,
    t_cost: u32,
    p_cost: u32,
    seed: Seq<u8>,
)
    requires
        base58_decoded(data) == Some(d),
        d.len() >= 40 ==> m_cost == be32_value(d.subrange(0, 4)) && t_cost == be32_value(
            d.subrange(4, 8),
        ) && p_cost == be32_value(d.subrange(8, 12)),
    ensures
        opened_seed(data, passphrase) == Ok::<Seq<u8>, Seq<char>>(seed) <==> {
            &&& d.len() >= 40
            &&& derived_key(
                m_cost,
                t_cost,
                p_cost,
                encode_utf8(passphrase),
                d.subrange(12, 28),
            ) is Ok
            &&& chacha_opened(
                argon2id(m_cost, t_cost, p_cost, encode_utf8(passphrase), d.subrange(12, 28)),
                d.subrange(28, 40),
                d.skip(40),
            ) == Some(seed)
            &&& seed.len() == 32
        },
        d.len() < 40 ==> opened_seed(data, passphrase) == Err::<Seq<u8>, Seq<char>>(
            "encrypted key blob too short"@,
        ),
        d.len() >= 40 ==> (derived_key(
            m_cost,
            t_cost,
            p_cost,
            encode_utf8(passphrase),
            d.subrange(12, 28),
        ) matches Err(e) ==> opened_seed(data, passphrase) == Err::<Seq<u8>, Seq<char>>(e)),
        d.len() >= 40 && derived_key(
            m_cost,
            t_cost,
            p_cost,
            encode_utf8(passphrase),
            d.subrange(12, 28),
        ) is Ok ==> match chacha_opened(
            argon2id(m_cost, t_cost, p_cost, encode_utf8(passphrase), d.subrange(12, 28)),
            d.subrange(28, 40),
            d.skip(40),
        ) {
            None => opened_seed(data, passphrase) == Err::<Seq<u8>, Seq<char>>(
                "decryption failed (wrong passphrase?)"@,
            ),
            Some(x) => x.len() != 32 ==> opened_seed(data, passphrase) == Err::<
                Seq<u8>,
                Seq<char>,
            >("decrypted seed is not 32 bytes"@),
        },
{
    if d.len() >= 40 {
        assert(d.skip(40) =~= d.subrange(40, d.len() as int));
        be32_round_trip(0, d.subrange(0, 4));
        be32_round_trip(0, d.subrange(4, 8));
        be32_round_trip(0, d.subrange(8, 12));
    }
}

/// Key data that is not base58 is refused with what is wrong with it, sealed or
/// not; plaintext key data is the base58 of 32 bytes, and these are the seed.
pub proof fn plaintext_key_data_is_the_seed(data: Seq<char>, passphrase: Seq<char>, seed: Seq<u8>)
    ensures
        plain_seed(data) == Ok::<Seq<u8>, Seq<char>>(seed) <==> seed.len() == 32 && data
            == base58_encoded(seed),
        base58_decoded(data) is None ==> plain_seed(data) == Err::<Seq<u8>, Seq<char>>(
            "bad base58 in identity: "@ + base58_error(data),
        ) && opened_seed(data, passphrase) == Err::<Seq<u8>, Seq<char>>(
            "bad base58 in identity: "@ + base58_error(data),
        ),
        base58_decoded(data) matches Some(d) ==> d.len() != 32 ==> plain_seed(data) == Err::<
            Seq<u8>,
            Seq<char>,
        >("plaintext seed is not 32 bytes"@),
{
    base58_round_trip(seed);
    base58_is_canonical(data);
}

/// An identity file has a header, key data and a public key on its first three
/// lines, white space around them aside; what follows does not matter. Else the
/// first of them that is missing is named.
pub proof fn identity_files_are_three_lines(path: Seq<char>, content: Seq<char>)
    ensures
        ({
            let ls = line_seq(content);
            let known = ls.len() > 0 && (trimmed(ls[0]) == HEADER@ || trimmed(ls[0])
                == PLAINTEXT_HEADER@);
            &&& !known ==> file_parts(path, content) == Err::<FileView, Seq<char>>(
                path + ": not an sqnr identity file"@,
            )
            &&& known && ls.len() < 2 ==> file_parts(path, content) == Err::<FileView, Seq<char>>(
                "identity file missing key data"@,
            )
            &&& known && ls.len() == 2 ==> file_parts(path, content) == Err::<FileView, Seq<char>>(
                "identity file missing public key"@,
            )
            &&& known && ls.len() >= 3 ==> (file_parts(path, content) matches Ok(f) && f.data
                == trimmed(ls[1]) && f.public == trimmed(ls[2]) && (f.encrypted <==> trimmed(ls[0])
                == HEADER@))
        }),
{
    lemma_headers();
    lemma_trimmed_solid(Seq::<char>::empty());
    reveal_strlit("SQNR-ED25519-ENCRYPTED-KEY");
    reveal_strlit("SQNR-ED25519-PLAINTEXT-KEY");
    assert(HEADER@.len() == 26 && PLAINTEXT_HEADER@.len() == 26);
}

/// The public key that a file states is the one on its third line.
pub proof fn the_stated_key_is_the_third_line(path: Seq<char>, content: Seq<char>, k: Seq<u8>)
    ensures
        stated_public(path, content) == Ok::<Seq<u8>, Seq<char>>(k) <==> k.len() == 32 && (
        file_parts(path, content) matches Ok(f) && f.public == base58_encoded(k)),
        file_parts(path, content) matches Err(e) ==> stated_public(path, content) == Err::<
            Seq<u8>,
            Seq<char>,
        >(e),
        file_parts(path, content) matches Ok(f) ==> (key_of_base58(f.public) matches Err(e)
            ==> stated_public(path, content) == Err::<Seq<u8>, Seq<char>>(
            "bad public key line: "@ + e.text(),
        )),
{
    if let Ok(f) = file_parts(path, content) {
        base58_is_canonical(f.public);
        base58_round_trip(k);
    }
}

/// A file gives a seed if and only if its key data does, under the passphrase
/// where it is sealed, and its third line is the public key of that seed. The
/// key data is looked at first.
pub proof fn loading_takes_matching_lines(
    path: Seq<char>,
    content: Seq<char>,
    passphrase: Seq<char>,
    seed: Seq<u8>,
)
    requires
        ed25519_public(seed).len() == 32,
    ensures
        loaded_seed(path, content, passphrase) == Ok::<Seq<u8>, Seq<char>>(seed) <==> {
            &&& file_parts(path, content) matches Ok(f)
            &&& f.encrypted ==> opened_seed(f.data, passphrase) == Ok::<Seq<u8>, Seq<char>>(seed)
            &&& !f.encrypted ==> plain_seed(f.data) == Ok::<Seq<u8>, Seq<char>>(seed)
            &&& f.public == base58_encoded(ed25519_public(seed))
        },
        file_parts(path, content) matches Err(e) ==> loaded_seed(path, content, passphrase)
            == Err::<Seq<u8>, Seq<char>>(e),
        file_parts(path, content) matches Ok(f) ==> f.encrypted ==> (opened_seed(f.data, passphrase)
            matches Err(e) ==> loaded_seed(path, content, passphrase) == Err::<Seq<u8>, Seq<char>>(
            e,
        )),
        file_parts(path, content) matches Ok(f) ==> !f.encrypted ==> (plain_seed(f.data) matches
            Err(e) ==> loaded_seed(path, content, passphrase) == Err::<Seq<u8>, Seq<char>>(e)),
        file_parts(path, content) matches Ok(f) ==> (if f.encrypted {
            opened_seed(f.data, passphrase)
        } else {
            plain_seed(f.data)
        }) == Ok::<Seq<u8>, Seq<char>>(seed) ==> match key_of_base58(f.public) {
            Err(e) => loaded_seed(path, content, passphrase) == Err::<Seq<u8>, Seq<char>>(
                "bad public key line: "@ + e.text(),
            ),
            Ok(k) => k != ed25519_public(seed) ==> loaded_seed(path, content, passphrase) == Err::<
                Seq<u8>,
                Seq<char>,
            >("identity file is inconsistent (public key does not match seed)"@),
        },
{
    if let Ok(f) = file_parts(path, content) {
        base58_is_canonical(f.public);
        base58_round_trip(ed25519_public(seed));
    }
}

/// A composed file is its header, its key data and the public key of its seed,
/// one to a line; the passphrase decides which header and which data.
pub proof fn identity_files_are_composed_of_lines(
    seed: Seq<u8>,
    p: Seq<char>,
    salt: Seq<u8>,
    nonce: Seq<u8>,
)
    requires
        ed25519_public(seed).len() == 32,
    ensures
        line_seq(identity_file(seed, Some(p), salt, nonce)) == seq![
            HEADER@,
            base58_encoded(sealed_blob(seed, p, salt, nonce)),
            base58_encoded(ed25519_public(seed)),
        ],
        line_seq(identity_file(seed, None, salt, nonce)) == seq![
            PLAINTEXT_HEADER@,
            base58_encoded(seed),
            base58_encoded(ed25519_public(seed)),
        ],
        HEADER@ == "SQNR-ED25519-ENCRYPTED-KEY"@,
        PLAINTEXT_HEADER@ == "SQNR-ED25519-PLAINTEXT-KEY"@,
{
    let public = base58_encoded(ed25519_public(seed));
    let blob = base58_encoded(sealed_blob(seed, p, salt, nonce));
    lemma_headers();
    lemma_base58_encoded_digits(sealed_blob(seed, p, salt, nonce));
    lemma_base58_solid(blob);
    lemma_base58_encoded_digits(seed);
    lemma_base58_solid(base58_encoded(seed));
    lemma_base58_encoded_digits(ed25519_public(seed));
    lemma_base58_solid(public);
    lemma_file_lines(HEADER@, blob, public);
    lemma_file_lines(PLAINTEXT_HEADER@, base58_encoded(seed), public);
}

} // verus!
