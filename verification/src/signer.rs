//! The signing seam over both backends: a software identity and a YubiKey. Both
//! produce a raw Ed25519 signature over the same bytes; the software path never
//! blocks, the YubiKey path may prompt for a PIN and block on a physical touch.

use vstd::prelude::*;
use crate::crypto::{ed25519_public, ed25519_signature};
use crate::key::{verifies, PubKey};
use crate::tx::{Signer, SoftwareSigner};

verus! {

/// A resolved admin signer over a software key or a card that `C` is a handle
/// to. Its public key is fixed at construction so callers can name the admin
/// identity without a round-trip to the card.
pub struct Backend<C> {
    public: PubKey,
    inner: Inner<C>,
}

enum Inner<C> {
    Software(Box<SoftwareSigner>),
    Yubi(C),
}

/// What a [`Backend`] signs with.
pub enum Custody<C> {
    /// The seed of the software key.
    Software(Seq<u8>),
    /// The card.
    Yubi(C),
}

/// How a signature comes about.
pub enum Signing<'a, C> {
    /// The software key has signed.
    Done([u8; 64]),
    /// The card has to be asked.
    OnCard(&'a C),
}

impl<C> Backend<C> {
    /// The public key that was fixed at construction.
    pub closed spec fn public_key(self) -> Seq<u8> {
        self.public@
    }

    /// What signs.
    pub closed spec fn custody(self) -> Custody<C> {
        match self.inner {
            Inner::Software(s) => Custody::Software(s@),
            Inner::Yubi(card) => Custody::Yubi(card),
        }
    }

    #[verifier::type_invariant]
    spec fn names_its_key(self) -> bool {
        self.inner matches Inner::Software(s) ==> self.public@ == ed25519_public(s@)
    }

    /// A software identity that has already been decrypted into a signer.
    pub fn software(signer: SoftwareSigner) -> (r: Self)
        ensures
            r.public_key() == ed25519_public(signer@),
            r.custody() == Custody::<C>::Software(signer@),
    {
        let public = PubKey::new(signer.public());
        Self { public, inner: Inner::Software(Box::new(signer)) }
    }

    /// A YubiKey whose Authentication-slot public key has already been read.
    pub fn yubikey(card: C, public: PubKey) -> (r: Self)
        ensures
            r.public_key() == public@,
            r.custody() == Custody::Yubi(card),
    {
        Self { public, inner: Inner::Yubi(card) }
    }

    /// The admin's Ed25519 public key. That of a software identity is the public
    /// key of its seed.
    pub fn public(&self) -> (r: PubKey)
        ensures
            r@ == self.public_key(),
            self.custody() matches Custody::Software(seed) ==> r@ == ed25519_public(seed),
    {
        proof {
            use_type_invariant(self);
        }
        self.public
    }

    /// Whether signing this backend requires a physical touch (a YubiKey).
    pub fn is_yubikey(&self) -> (r: bool)
        ensures
            r == (self.custody() is Yubi),
    {
        match self.inner {
            Inner::Software(_) => false,
            Inner::Yubi(_) => true,
        }
    }

    /// Produce a raw RFC 8032 Ed25519 signature over `msg`, or name the card
    /// that has to. What a software identity signs stands up to the backend's own
    /// public key.
    pub fn sign(&self, msg: &[u8]) -> (r: Signing<C>)
        ensures
            match self.custody() {
                Custody::Software(seed) => r matches Signing::Done(sig) && sig@
                    == ed25519_signature(seed, msg@) && verifies(
                    self.public_key(),
                    msg@,
                    sig@,
                ),
                Custody::Yubi(card) => r matches Signing::OnCard(c) && *c == card,
            },
    {
        proof {
            use_type_invariant(self);
        }
        match &self.inner {
            Inner::Software(s) => Signing::Done(s.sign(msg)),
            Inner::Yubi(card) => Signing::OnCard(card),
        }
    }
}

} // verus!
