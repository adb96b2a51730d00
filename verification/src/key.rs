//! Ed25519 public keys and the base58 form that names them.

use vstd::prelude::*;
use vstd::std_specs::cmp::PartialEqSpecImpl;
use vstd::std_specs::convert::FromSpecImpl;
use vstd::utf8::encode_utf8;
use crate::crypto::{
    ed25519_accepts, ed25519_decompress, ed25519_derive, ed25519_point, ed25519_public,
    ed25519_sign, ed25519_signature, ed25519_verify,
};
use crate::encoding::{
    all_hex, base58_decode, base58_decoded, base58_encode, base58_encoded, base58_error,
    base58_is_canonical, base58_is_not_shorter, base58_round_trip, hex_character_error, hex_decode, hex_decoded, hex_digit, hex_encoded, hex_error, hex_round_trip,
    is_base58, lemma_base58_encoded_digits, lemma_base58_length,
};
use crate::error::{Error, ErrorView, Result};
use crate::text::{
    all_white, decimal, decimal_digits, is_white, joined, lemma_trimmed_solid, trim, trimmed,
    trimming_ignores_white_space_around,
};

verus! {

/// Compares two arrays.
pub(crate) fn arrays_equal<const N: usize>(a: &[u8; N], b: &[u8; N]) -> (r: bool)
    ensures
        r == (a@ == b@),
{
    let mut i: usize = 0;
    while i < N
        invariant
            i <= N,
            a@.len() == N,
            b@.len() == N,
            forall|j: int| 0 <= j < i ==> a@[j] == b@[j],
        decreases N - i,
    {
        if a[i] != b[i] {
            return false;
        }
        i += 1;
    }
    assert(a@ =~= b@);
    true
}

/// Copies a slice into an array of the same length.
pub(crate) fn array_of<const N: usize>(s: &[u8]) -> (r: [u8; N])
    requires
        s@.len() == N,
    ensures
        r@ == s@,
{
    let mut out = [0u8; N];
    let mut i: usize = 0;
    while i < N
        invariant
            i <= N,
            s@.len() == N,
            out@.len() == N,
            forall|j: int| 0 <= j < i ==> out@[j] == s@[j],
        decreases N - i,
    {
        out[i] = s[i];
        i += 1;
    }
    assert(out@ =~= s@);
    out
}

/// An Ed25519 public key.
#[derive(Debug, Clone, Copy, Eq, Hash, PartialOrd, Ord)]
pub struct PubKey([u8; 32]);

impl View for PubKey {
    type V = Seq<u8>;

    closed spec fn view(&self) -> Seq<u8> {
        self.0@
    }
}

impl PartialEq for PubKey {
    fn eq(&self, other: &Self) -> (r: bool) {
        arrays_equal(&self.0, &other.0)
    }
}

impl PartialEqSpecImpl for PubKey {
    open spec fn obeys_eq_spec() -> bool {
        true
    }

    open spec fn eq_spec(&self, other: &Self) -> bool {
        self@ == other@
    }
}

/// The key with these bytes, of which there must be 32.
pub open spec fn key_of_bytes(raw: Seq<u8>) -> std::result::Result<Seq<u8>, ErrorView> {
    if raw.len() == 32 {
        Ok(raw)
    } else {
        Err(ErrorView::Key("public key must be 32 bytes, got "@ + decimal_digits(raw.len())))
    }
}

/// The key that `s` writes in base58.
pub open spec fn key_of_base58(s: Seq<char>) -> std::result::Result<Seq<u8>, ErrorView> {
    match base58_decoded(s) {
        Some(raw) => key_of_bytes(raw),
        None => Err(ErrorView::Key("bad base58: "@ + base58_error(s))),
    }
}

/// The key that `s` writes in hexadecimal.
pub open spec fn key_of_hex(s: Seq<char>) -> std::result::Result<Seq<u8>, ErrorView> {
    match hex_decoded(s) {
        Some(raw) => key_of_bytes(raw),
        None => Err(ErrorView::Key("bad hex: "@ + hex_error(s))),
    }
}

/// The key that `s` writes, white space around it aside: 64 hexadecimal digits
/// are hexadecimal, all else is base58.
pub open spec fn key_of_text(s: Seq<char>) -> std::result::Result<Seq<u8>, ErrorView> {
    let t = trimmed(s);
    if t.len() == 64 && all_hex(t) {
        key_of_hex(t)
    } else {
        key_of_base58(t)
    }
}

/// The error for bytes that are not a point of the curve.
pub open spec fn not_a_point() -> ErrorView {
    ErrorView::Key(
        "not a valid Ed25519 public key: "@
            + "signature error: Cannot decompress Edwards point"@,
    )
}

impl PubKey {
    /// The key with these bytes.
    pub fn new(bytes: [u8; 32]) -> (r: Self)
        ensures
            r@ == bytes@,
    {
        Self(bytes)
    }

    /// The bytes of the key.
    pub fn as_bytes(&self) -> (r: &[u8; 32])
        ensures
            r@ == self@,
    {
        &self.0
    }

    /// The bytes of the key.
    pub fn to_bytes(self) -> (r: [u8; 32])
        ensures
            r@ == self@,
    {
        self.0
    }

    /// Writes the key in base58.
    pub fn to_base58(&self) -> (r: String)
        ensures
            r@ == base58_encoded(self@),
    {
        base58_encode(&self.0)
    }

    /// Writes the key in base58, the form that names it.
    pub fn to_string(&self) -> (r: String)
        ensures
            r@ == base58_encoded(self@),
    {
        self.to_base58()
    }

    /// First 8 base58 characters — for logs, never for identity decisions.
    pub fn short(&self) -> (r: String)
        ensures
            r@ == base58_encoded(self@).take(8),
            r@.len() == 8,
    {
        let s = self.to_base58();
        proof {
            key_length(*self);
            base58_is_not_shorter(self@);
        }
        s.as_str().substring_char(0, 8).to_string()
    }

    /// The Ed25519 verifying key, or an error if the bytes are not a valid
    /// point. Checked lazily so a `PubKey` can name a key without paying the
    /// decompression until a signature is actually verified.
    pub fn verifying_key(&self) -> (r: Result<VerifyingKey>)
        ensures
            match r {
                Ok(vk) => ed25519_point(self@) && vk@ == self@,
                Err(e) => !ed25519_point(self@) && e@ == not_a_point(),
            },
            r matches Err(e) ==> (e matches Error::Key(text) && text@
                == "not a valid Ed25519 public key: "@
                + "signature error: Cannot decompress Edwards point"@),
    {
        match ed25519_decompress(&self.0) {
            Ok(_) => Ok(VerifyingKey { bytes: self.0 }),
            Err(e) => Err(Error::Key(joined("not a valid Ed25519 public key: ", e.as_str()))),
        }
    }

    /// Reads a key in base58.
    pub fn from_base58(s: &str) -> (r: Result<Self>)
        ensures
            match r {
                Ok(k) => key_of_base58(s@) == Ok::<Seq<u8>, ErrorView>(k@),
                Err(e) => key_of_base58(s@) == Err::<Seq<u8>, ErrorView>(e@),
            },
            match base58_decoded(s@) {
                Some(raw) => if raw.len() == 32 {
                    r matches Ok(k) && k@ == raw
                } else {
                    r matches Err(Error::Key(text)) && text@
                        == "public key must be 32 bytes, got "@ + decimal_digits(raw.len())
                },
                None => r matches Err(Error::Key(text)) && text@ == "bad base58: "@ + base58_error(
                    s@,
                ),
            },
    {
        match base58_decode(s) {
            Ok(raw) => Self::from_slice(raw.as_slice()),
            Err(e) => Err(Error::Key(joined("bad base58: ", e.as_str()))),
        }
    }

    /// Reads a key in hexadecimal.
    pub fn from_hex(s: &str) -> (r: Result<Self>)
        ensures
            match r {
                Ok(k) => key_of_hex(s@) == Ok::<Seq<u8>, ErrorView>(k@),
                Err(e) => key_of_hex(s@) == Err::<Seq<u8>, ErrorView>(e@),
            },
            match hex_decoded(s@) {
                Some(raw) => if raw.len() == 32 {
                    r matches Ok(k) && k@ == raw
                } else {
                    r matches Err(Error::Key(text)) && text@
                        == "public key must be 32 bytes, got "@ + decimal_digits(raw.len())
                },
                None => r matches Err(Error::Key(text)) && text@ == "bad hex: "@ + (if encode_utf8(
                    s@,
                ).len() % 2 != 0 {
                    "Odd number of digits"@
                } else {
                    hex_character_error(s@)
                }),
            },
    {
        match hex_decode(s) {
            Ok(raw) => Self::from_slice(raw.as_slice()),
            Err(e) => Err(Error::Key(joined("bad hex: ", e.as_str()))),
        }
    }

    fn from_slice(raw: &[u8]) -> (r: Result<Self>)
        ensures
            match r {
                Ok(k) => key_of_bytes(raw@) == Ok::<Seq<u8>, ErrorView>(k@),
                Err(e) => key_of_bytes(raw@) == Err::<Seq<u8>, ErrorView>(e@),
            },
    {
        if raw.len() != 32 {
            let n = decimal(raw.len() as u64);
            return Err(Error::Key(joined("public key must be 32 bytes, got ", n.as_str())));
        }
        Ok(Self(array_of(raw)))
    }

    /// Accepts base58 (canonical) or 64 hex characters.
    pub fn from_str(s: &str) -> (r: Result<Self>)
        ensures
            match r {
                Ok(k) => key_of_text(s@) == Ok::<Seq<u8>, ErrorView>(k@),
                Err(e) => key_of_text(s@) == Err::<Seq<u8>, ErrorView>(e@),
            },
            r matches Ok(k) ==> (if trimmed(s@).len() == 64 && all_hex(trimmed(s@)) {
                hex_decoded(trimmed(s@)) == Some(k@)
            } else {
                trimmed(s@) == base58_encoded(k@)
            }),
    {
        let t = trim(s);
        proof {
            base58_is_canonical(t@);
        }
        if t.unicode_len() == 64 && hex_only(t) {
            Self::from_hex(t)
        } else {
            Self::from_base58(t)
        }
    }
}

/// A key has 32 bytes.
pub proof fn key_length(k: PubKey)
    ensures
        k@.len() == 32,
{
}

/// The base58 text of a key names that key, read as base58 or as either form.
pub proof fn base58_names_the_key(k: PubKey)
    ensures
        key_of_base58(base58_encoded(k@)) == Ok::<Seq<u8>, ErrorView>(k@),
        key_of_text(base58_encoded(k@)) == Ok::<Seq<u8>, ErrorView>(k@),
{
    let s = base58_encoded(k@);
    key_length(k);
    base58_round_trip(k@);
    lemma_base58_encoded_digits(k@);
    lemma_base58_length(k@);
    assert forall|i: int| 0 <= i < s.len() implies !is_white(#[trigger] s[i]) by {
        assert(is_base58(s[i]));
    }
    lemma_trimmed_solid(s);
}

/// Every hexadecimal text of a key, in either case, names that key, read as
/// hexadecimal or as either form; the lowercase one is such a text.
pub proof fn hex_names_the_key(k: PubKey, t: Seq<char>)
    requires
        hex_decoded(t) == Some(k@),
    ensures
        key_of_hex(t) == Ok::<Seq<u8>, ErrorView>(k@),
        key_of_text(t) == Ok::<Seq<u8>, ErrorView>(k@),
        hex_decoded(hex_encoded(k@)) == Some(k@),
{
    key_length(k);
    hex_round_trip(k@);
    assert forall|i: int| 0 <= i < t.len() implies !is_white(#[trigger] t[i]) by {
        assert(hex_digit(t[i]) >= 0);
    }
    lemma_trimmed_solid(t);
}

/// A key is read from its base58 text and from each of its hexadecimal texts,
/// whatever white space stands around it.
pub proof fn key_is_read_amid_white_space(
    k: PubKey,
    before: Seq<char>,
    t: Seq<char>,
    after: Seq<char>,
)
    requires
        all_white(before),
        all_white(after),
        t == base58_encoded(k@) || hex_decoded(t) == Some(k@),
    ensures
        key_of_text(before + t + after) == Ok::<Seq<u8>, ErrorView>(k@),
{
    trimming_ignores_white_space_around(before, t, after);
    if t == base58_encoded(k@) {
        base58_names_the_key(k);
    } else {
        hex_names_the_key(k, t);
    }
}

/// Two keys with the same base58 text are the same key.
pub proof fn base58_tells_keys_apart(a: PubKey, b: PubKey)
    requires
        base58_encoded(a@) == base58_encoded(b@),
    ensures
        a@ == b@,
{
    base58_round_trip(a@);
    base58_round_trip(b@);
}

/// Whether every character is a hexadecimal digit.
fn hex_only(s: &str) -> (r: bool)
    ensures
        r == all_hex(s@),
{
    for c in it: s.chars()
        invariant
            it.seq() == s@,
            forall|i: int| 0 <= i < it.index() ==> hex_digit(#[trigger] s@[i]) >= 0,
    {
        let digit = ('0' <= c && c <= '9') || ('a' <= c && c <= 'f') || ('A' <= c && c <= 'F');
        if !digit {
            assert(hex_digit(s@[it.index() as int]) < 0);
            return false;
        }
    }
    true
}

impl std::str::FromStr for PubKey {
    type Err = Error;

    fn from_str(s: &str) -> (r: Result<Self>)
        ensures
            match r {
                Ok(k) => key_of_text(s@) == Ok::<Seq<u8>, ErrorView>(k@),
                Err(e) => key_of_text(s@) == Err::<Seq<u8>, ErrorView>(e@),
            },
            r matches Ok(k) ==> (if trimmed(s@).len() == 64 && all_hex(trimmed(s@)) {
                hex_decoded(trimmed(s@)) == Some(k@)
            } else {
                trimmed(s@) == base58_encoded(k@)
            }),
    {
        PubKey::from_str(s)
    }
}

/// An Ed25519 public key that is known to be a point of the curve.
#[derive(Debug, Clone, Copy)]
pub struct VerifyingKey {
    bytes: [u8; 32],
}

impl View for VerifyingKey {
    type V = Seq<u8>;

    closed spec fn view(&self) -> Seq<u8> {
        self.bytes@
    }
}

impl VerifyingKey {
    #[verifier::type_invariant]
    spec fn is_point(self) -> bool {
        ed25519_point(self.bytes@)
    }

    /// The bytes of the key.
    pub fn to_bytes(&self) -> (r: [u8; 32])
        ensures
            r@ == self@,
    {
        self.bytes
    }

    /// Whether the key accepts `sig` as a signature over `msg`.
    pub fn verify(&self, msg: &[u8], sig: &[u8; 64]) -> (r: bool)
        ensures
            r == ed25519_accepts(self@, msg@, sig@),
    {
        proof {
            use_type_invariant(self);
        }
        ed25519_verify(&self.bytes, msg, sig)
    }
}

impl From<VerifyingKey> for PubKey {
    fn from(vk: VerifyingKey) -> (r: Self)
        ensures
            r@ == vk@,
    {
        PubKey(vk.bytes)
    }
}

impl FromSpecImpl<VerifyingKey> for PubKey {
    open spec fn obeys_from_spec() -> bool {
        true
    }

    closed spec fn from_spec(vk: VerifyingKey) -> Self {
        PubKey(vk.bytes)
    }
}

/// An Ed25519 key pair, made from its 32-byte seed. Its view is the seed.
pub struct SigningKey {
    seed: [u8; 32],
    public: [u8; 32],
}

impl View for SigningKey {
    type V = Seq<u8>;

    closed spec fn view(&self) -> Seq<u8> {
        self.seed@
    }
}

/// Whether `sig` over `msg` stands up to the public key `key`.
pub open spec fn verifies(key: Seq<u8>, msg: Seq<u8>, sig: Seq<u8>) -> bool {
    ed25519_point(key) && ed25519_accepts(key, msg, sig)
}

impl SigningKey {
    #[verifier::type_invariant]
    spec fn is_pair(self) -> bool {
        self.public@ == ed25519_public(self.seed@) && ed25519_point(self.public@)
    }

    /// The key pair with this seed.
    pub fn from_bytes(seed: &[u8; 32]) -> (r: Self)
        ensures
            r@ == seed@,
    {
        SigningKey { seed: *seed, public: ed25519_derive(seed) }
    }

    /// The seed.
    pub fn to_bytes(&self) -> (r: [u8; 32])
        ensures
            r@ == self@,
    {
        self.seed
    }

    /// The public half.
    pub fn verifying_key(&self) -> (r: VerifyingKey)
        ensures
            r@ == ed25519_public(self@),
    {
        proof {
            use_type_invariant(self);
        }
        VerifyingKey { bytes: self.public }
    }

    /// Signs `msg`.
    pub fn sign(&self, msg: &[u8]) -> (r: [u8; 64])
        ensures
            r@ == ed25519_signature(self@, msg@),
            verifies(ed25519_public(self@), msg@, r@),
    {
        proof {
            use_type_invariant(self);
        }
        ed25519_sign(&self.seed, msg)
    }
}

/// A text is read as a key only if it writes that key: its base58 text, or 64
/// hexadecimal digits of it. Which of the two is looked at is settled by the
/// text alone, and a text of the wrong length is refused with that length.
pub proof fn only_texts_of_a_key_name_it(s: Seq<char>, k: Seq<u8>)
    ensures
        key_of_base58(s) == Ok::<Seq<u8>, ErrorView>(k) <==> k.len() == 32 && s == base58_encoded(
            k,
        ),
        key_of_hex(s) == Ok::<Seq<u8>, ErrorView>(k) <==> k.len() == 32 && hex_decoded(s) == Some(
            k,
        ),
        key_of_text(s) == if trimmed(s).len() == 64 && all_hex(trimmed(s)) {
            key_of_hex(trimmed(s))
        } else {
            key_of_base58(trimmed(s))
        },
        base58_decoded(s) matches Some(raw) ==> raw.len() != 32 ==> key_of_base58(s) == Err::<
            Seq<u8>,
            ErrorView,
        >(ErrorView::Key("public key must be 32 bytes, got "@ + decimal_digits(raw.len()))),
        hex_decoded(s) matches Some(raw) ==> raw.len() != 32 ==> key_of_hex(s) == Err::<
            Seq<u8>,
            ErrorView,
        >(ErrorView::Key("public key must be 32 bytes, got "@ + decimal_digits(raw.len()))),
        base58_decoded(s) is None ==> key_of_base58(s) == Err::<Seq<u8>, ErrorView>(
            ErrorView::Key("bad base58: "@ + base58_error(s)),
        ),
        hex_decoded(s) is None ==> key_of_hex(s) == Err::<Seq<u8>, ErrorView>(
            ErrorView::Key("bad hex: "@ + hex_error(s)),
        ),
{
    base58_is_canonical(s);
    base58_round_trip(k);
}

/// A signature stands up to a key just where the key is a point and accepts it.
pub proof fn verifying_takes_a_point_that_accepts(key: Seq<u8>, msg: Seq<u8>, sig: Seq<u8>)
    ensures
        verifies(key, msg, sig) <==> ed25519_point(key) && ed25519_accepts(key, msg, sig),
{
}

} // verus!
