//! The decisions behind a YubiKey: which calls a request makes on the card, what
//! their results mean, and when the connection has to be opened anew.
//!
//! The connection is held open in *shared* mode (so other tools can still reach
//! the card), and each request runs in its own brief transaction. PW1 (the user
//! PIN) persists across those transactions, so it is verified once and later
//! signatures need only a touch. A communication failure drops the connection
//! and the next request reopens it, re-locking.
//!
//! Whoever owns the card runs each request as a conversation: [`begin`] gives
//! the first call, [`resume`] takes what the card returned and gives the next
//! call or the answer, and [`settle`] says what is answered in the end and
//! whether the connection is kept.

use vstd::prelude::*;
use vstd::utf8::encode_utf8;
use crate::crypto::{sha1, sha1_digest};
use crate::key::array_of;
use crate::text::{ascii_lower, contains, decimal, decimal_digits, joined, lowered, occurs, occurs_at};
use crate::wire::{be32, put_u32};

verus! {

/// What can be asked of the card.
#[derive(Debug)]
pub enum Request {
    /// Read the Authentication slot's Ed25519 public key (no PIN).
    Pubkey,
    /// Verify the user PIN once for the session.
    Unlock(String),
    /// Sign a message with the Authentication key. Requires an earlier unlock;
    /// with touch enabled the card blocks until tapped.
    Sign(Vec<u8>),
    /// Generate an Ed25519 key in the Authentication slot, given the **admin**
    /// PIN (PW3), not the user PIN.
    ///
    /// **This overwrites whatever is in the Authentication slot, permanently.**
    Provision(String),
}

/// What a request is answered.
#[derive(Debug)]
pub enum Answer {
    /// The public key that was read or generated.
    Key(Result<[u8; 32], String>),
    /// Whether the user PIN was taken.
    Unlocked(Result<(), String>),
    /// The signature.
    Signature(Result<[u8; 64], String>),
}

/// The kinds of answer.
#[derive(Debug, Clone, Copy, PartialEq, Eq, Structural)]
pub enum Kind {
    Key,
    Unlocked,
    Signature,
}

/// A call on the card.
#[derive(Debug)]
pub enum Call {
    /// Read the public key of the Authentication slot.
    ReadKey,
    /// Verify the user PIN (PW1).
    VerifyUser(String),
    /// Sign with INTERNAL AUTHENTICATE.
    Authenticate(Vec<u8>),
    /// Verify the admin PIN (PW3).
    VerifyAdmin(String),
    /// Set the Authentication slot to Ed25519.
    SetEd25519,
    /// Generate a key in the Authentication slot.
    GenerateKey,
}

/// Which call was made, and so what its result means.
#[derive(Debug, Clone, Copy, PartialEq, Eq, Structural)]
pub enum Pending {
    ReadKey,
    VerifyUser,
    Authenticate,
    VerifyAdmin,
    SetEd25519,
    GenerateKey,
}

/// What a call on the card returned.
#[derive(Debug)]
pub enum Data {
    /// Nothing but success.
    Nothing,
    /// The point of an elliptic-curve public key.
    Ecc(Vec<u8>),
    /// An RSA public key.
    Rsa,
    /// A signature.
    Signature(Vec<u8>),
}

/// How a conversation goes on.
#[derive(Debug)]
pub enum Step {
    /// Make this call, and resume with its result.
    Call(Call, Pending),
    /// The request is answered.
    Answer(Answer),
}

// ---------------------------------------------------------------------------
// The model
// ---------------------------------------------------------------------------

/// An [`Answer`] as sequences.
pub enum AnswerView {
    Key(Result<Seq<u8>, Seq<char>>),
    Unlocked(Result<(), Seq<char>>),
    Signature(Result<Seq<u8>, Seq<char>>),
}

/// A [`Call`] as sequences.
pub enum CallView {
    ReadKey,
    VerifyUser(Seq<char>),
    Authenticate(Seq<u8>),
    VerifyAdmin(Seq<char>),
    SetEd25519,
    GenerateKey,
}

/// A [`Step`] as sequences.
pub enum StepView {
    Call(CallView, Pending),
    Answer(AnswerView),
}

impl View for Answer {
    type V = AnswerView;

    open spec fn view(&self) -> AnswerView {
        match self {
            Answer::Key(Ok(k)) => AnswerView::Key(Ok(k@)),
            Answer::Key(Err(e)) => AnswerView::Key(Err(e@)),
            Answer::Unlocked(Ok(_)) => AnswerView::Unlocked(Ok(())),
            Answer::Unlocked(Err(e)) => AnswerView::Unlocked(Err(e@)),
            Answer::Signature(Ok(s)) => AnswerView::Signature(Ok(s@)),
            Answer::Signature(Err(e)) => AnswerView::Signature(Err(e@)),
        }
    }
}

impl View for Call {
    type V = CallView;

    open spec fn view(&self) -> CallView {
        match self {
            Call::ReadKey => CallView::ReadKey,
            Call::VerifyUser(pin) => CallView::VerifyUser(pin@),
            Call::Authenticate(msg) => CallView::Authenticate(msg@),
            Call::VerifyAdmin(pin) => CallView::VerifyAdmin(pin@),
            Call::SetEd25519 => CallView::SetEd25519,
            Call::GenerateKey => CallView::GenerateKey,
        }
    }
}

impl View for Step {
    type V = StepView;

    open spec fn view(&self) -> StepView {
        match self {
            Step::Call(call, pending) => StepView::Call(call@, *pending),
            Step::Answer(answer) => StepView::Answer(answer@),
        }
    }
}

impl AnswerView {
    /// The error, where the answer is one.
    pub open spec fn error(self) -> Option<Seq<char>> {
        match self {
            AnswerView::Key(Err(e)) => Some(e),
            AnswerView::Unlocked(Err(e)) => Some(e),
            AnswerView::Signature(Err(e)) => Some(e),
            _ => None,
        }
    }
}

impl AnswerView {
    /// The kind of the answer.
    pub open spec fn kind(self) -> Kind {
        match self {
            AnswerView::Key(_) => Kind::Key,
            AnswerView::Unlocked(_) => Kind::Unlocked,
            AnswerView::Signature(_) => Kind::Signature,
        }
    }
}

impl Request {
    /// The kind of answer that the request asks for.
    pub open spec fn asks_for(self) -> Kind {
        match self {
            Request::Pubkey => Kind::Key,
            Request::Provision(_) => Kind::Key,
            Request::Unlock(_) => Kind::Unlocked,
            Request::Sign(_) => Kind::Signature,
        }
    }
}

impl Kind {
    /// The answer of this kind that the request failed with `error`.
    pub open spec fn failed(self, error: Seq<char>) -> AnswerView {
        match self {
            Kind::Key => AnswerView::Key(Err(error)),
            Kind::Unlocked => AnswerView::Unlocked(Err(error)),
            Kind::Signature => AnswerView::Signature(Err(error)),
        }
    }
}

/// `raw`, where it has `n` bytes; else `error`.
pub open spec fn sized(raw: Seq<u8>, n: nat, error: Seq<char>) -> Result<Seq<u8>, Seq<char>> {
    if raw.len() == n {
        Ok(raw)
    } else {
        Err(error)
    }
}

/// What is said of an admin PIN that is too short.
pub open spec fn short_pin_text(len: nat) -> Seq<char> {
    "admin PIN is "@ + decimal_digits(len)
        + " characters; PW3 needs at least 8. That is the ADMIN PIN (default 12345678), not the 6-digit user PIN."@
}

/// What a request begins with. An admin PIN of fewer than 8 bytes is not shown
/// to the card: the commonest mistake — entering the 6-digit *user* PIN — costs
/// no retry.
pub open spec fn begun(request: Request) -> StepView {
    match request {
        Request::Pubkey => StepView::Call(CallView::ReadKey, Pending::ReadKey),
        Request::Unlock(pin) => StepView::Call(CallView::VerifyUser(pin@), Pending::VerifyUser),
        Request::Sign(msg) => StepView::Call(
            CallView::Authenticate(msg@),
            Pending::Authenticate,
        ),
        Request::Provision(pin) => if encode_utf8(pin@).len() < 8 {
            StepView::Answer(AnswerView::Key(Err(short_pin_text(encode_utf8(pin@).len()))))
        } else {
            StepView::Call(CallView::VerifyAdmin(pin@), Pending::VerifyAdmin)
        },
    }
}

/// What follows when the pending call succeeded with `data`.
pub open spec fn succeeded(pending: Pending, data: Data) -> StepView {
    match pending {
        Pending::ReadKey => StepView::Answer(
            AnswerView::Key(
                match data {
                    Data::Ecc(raw) => sized(
                        raw@,
                        32,
                        "auth key is not a 32-byte Ed25519 point"@,
                    ),
                    _ => Err("auth key is RSA, not Ed25519"@),
                },
            ),
        ),
        Pending::VerifyUser => StepView::Answer(AnswerView::Unlocked(Ok(()))),
        Pending::Authenticate => StepView::Answer(
            AnswerView::Signature(
                match data {
                    Data::Signature(raw) => sized(
                        raw@,
                        64,
                        "card returned a non-64-byte signature"@,
                    ),
                    _ => Err("card returned a non-64-byte signature"@),
                },
            ),
        ),
        Pending::VerifyAdmin => StepView::Call(CallView::SetEd25519, Pending::SetEd25519),
        Pending::SetEd25519 => StepView::Call(CallView::GenerateKey, Pending::GenerateKey),
        Pending::GenerateKey => StepView::Answer(
            AnswerView::Key(
                match data {
                    Data::Ecc(raw) => sized(
                        raw@,
                        32,
                        "generated key is not a 32-byte Ed25519 point"@,
                    ),
                    _ => Err("card generated a non-ECC key"@),
                },
            ),
        ),
    }
}

/// What follows when the pending call failed with `e`.
pub open spec fn call_failed(pending: Pending, e: Seq<char>) -> AnswerView {
    match pending {
        Pending::ReadKey => AnswerView::Key(
            Err(
                "no Ed25519 auth key ("@ + e
                    + "); generate one with `sqnr --yubikey provision`"@,
            ),
        ),
        Pending::VerifyUser => AnswerView::Unlocked(Err("PIN rejected: "@ + e)),
        Pending::Authenticate => AnswerView::Signature(Err("sign failed: "@ + e)),
        Pending::VerifyAdmin => AnswerView::Key(Err("admin PIN rejected: "@ + e)),
        Pending::SetEd25519 => AnswerView::Key(
            Err("could not set the slot to Ed25519: "@ + e),
        ),
        Pending::GenerateKey => AnswerView::Key(Err("key generation failed: "@ + e)),
    }
}

// ---------------------------------------------------------------------------
// A conversation
// ---------------------------------------------------------------------------

/// Begins a request.
pub fn begin(request: Request) -> (r: Step)
    ensures
        r@ == begun(request),
        match request {
            Request::Pubkey => r == Step::Call(Call::ReadKey, Pending::ReadKey),
            Request::Unlock(pin) => r matches Step::Call(Call::VerifyUser(p), Pending::VerifyUser)
                && p@ == pin@,
            Request::Sign(msg) => r matches Step::Call(Call::Authenticate(m), Pending::Authenticate)
                && m@ == msg@,
            Request::Provision(pin) => if encode_utf8(pin@).len() >= 8 {
                r matches Step::Call(Call::VerifyAdmin(p), Pending::VerifyAdmin) && p@ == pin@
            } else {
                r matches Step::Answer(Answer::Key(Err(_)))
            },
        },
{
    match request {
        Request::Pubkey => Step::Call(Call::ReadKey, Pending::ReadKey),
        Request::Unlock(pin) => Step::Call(Call::VerifyUser(pin), Pending::VerifyUser),
        Request::Sign(msg) => Step::Call(Call::Authenticate(msg), Pending::Authenticate),
        Request::Provision(pin) => provision_auth(pin),
    }
}

/// Begins to set the Authentication slot to Ed25519 and generate a key on-card.
///
/// The card generates the key itself, so the private half never exists off the
/// card and cannot be backed up — which is the point, and also why this is
/// irreversible.
fn provision_auth(pin: String) -> (r: Step)
    ensures
        r@ == begun(Request::Provision(pin)),
        encode_utf8(pin@).len() >= 8 <==> r is Call,
{
    let n: usize = pin.as_str().as_bytes().len();
    if n < 8 {
        let mut text = joined("admin PIN is ", decimal(n as u64).as_str());
        text.append(
            " characters; PW3 needs at least 8. That is the ADMIN PIN (default 12345678), not the 6-digit user PIN.",
        );
        return Step::Answer(Answer::Key(Err(text)));
    }
    Step::Call(Call::VerifyAdmin(pin), Pending::VerifyAdmin)
}

/// Goes on with what the pending call returned.
pub fn resume(pending: Pending, result: Result<Data, String>) -> (r: Step)
    ensures
        r@ == match result {
            Ok(data) => succeeded(pending, data),
            Err(e) => StepView::Answer(call_failed(pending, e@)),
        },
        result matches Ok(data) ==> match pending {
            Pending::ReadKey => match data {
                Data::Ecc(raw) => if raw@.len() == 32 {
                    r matches Step::Answer(Answer::Key(Ok(k))) && forall|i: int|
                        0 <= i < 32 ==> #[trigger] k@[i] == raw@[i]
                } else {
                    r matches Step::Answer(Answer::Key(Err(_)))
                },
                _ => r matches Step::Answer(Answer::Key(Err(_))),
            },
            Pending::VerifyUser => r matches Step::Answer(Answer::Unlocked(Ok(_))),
            Pending::Authenticate => match data {
                Data::Signature(raw) => if raw@.len() == 64 {
                    r matches Step::Answer(Answer::Signature(Ok(s))) && forall|i: int|
                        0 <= i < 64 ==> #[trigger] s@[i] == raw@[i]
                } else {
                    r matches Step::Answer(Answer::Signature(Err(_)))
                },
                _ => r matches Step::Answer(Answer::Signature(Err(_))),
            },
            Pending::VerifyAdmin => r == Step::Call(Call::SetEd25519, Pending::SetEd25519),
            Pending::SetEd25519 => r == Step::Call(Call::GenerateKey, Pending::GenerateKey),
            Pending::GenerateKey => match data {
                Data::Ecc(raw) => if raw@.len() == 32 {
                    r matches Step::Answer(Answer::Key(Ok(k))) && forall|i: int|
                        0 <= i < 32 ==> #[trigger] k@[i] == raw@[i]
                } else {
                    r matches Step::Answer(Answer::Key(Err(_)))
                },
                _ => r matches Step::Answer(Answer::Key(Err(_))),
            },
        },
        result matches Err(e) ==> match pending {
            Pending::ReadKey => r matches Step::Answer(Answer::Key(Err(t))) && t@
                == "no Ed25519 auth key ("@ + e@
                + "); generate one with `sqnr --yubikey provision`"@,
            Pending::VerifyUser => r matches Step::Answer(Answer::Unlocked(Err(t))) && t@
                == "PIN rejected: "@ + e@,
            Pending::Authenticate => r matches Step::Answer(Answer::Signature(Err(t))) && t@
                == "sign failed: "@ + e@,
            Pending::VerifyAdmin => r matches Step::Answer(Answer::Key(Err(t))) && t@
                == "admin PIN rejected: "@ + e@,
            Pending::SetEd25519 => r matches Step::Answer(Answer::Key(Err(t))) && t@
                == "could not set the slot to Ed25519: "@ + e@,
            Pending::GenerateKey => r matches Step::Answer(Answer::Key(Err(t))) && t@
                == "key generation failed: "@ + e@,
        },
{
    match result {
        Ok(data) => match pending {
            Pending::ReadKey => Step::Answer(Answer::Key(read_pubkey(data))),
            Pending::VerifyUser => Step::Answer(Answer::Unlocked(Ok(()))),
            Pending::Authenticate => Step::Answer(Answer::Signature(read_signature(data))),
            Pending::VerifyAdmin => Step::Call(Call::SetEd25519, Pending::SetEd25519),
            Pending::SetEd25519 => Step::Call(Call::GenerateKey, Pending::GenerateKey),
            Pending::GenerateKey => Step::Answer(Answer::Key(read_generated(data))),
        },
        Err(e) => Step::Answer(fail_call(pending, e.as_str())),
    }
}

fn fail_call(pending: Pending, e: &str) -> (r: Answer)
    ensures
        r@ == call_failed(pending, e@),
{
    match pending {
        Pending::ReadKey => {
            let mut text = joined("no Ed25519 auth key (", e);
            text.append("); generate one with `sqnr --yubikey provision`");
            Answer::Key(Err(text))
        },
        Pending::VerifyUser => Answer::Unlocked(Err(joined("PIN rejected: ", e))),
        Pending::Authenticate => Answer::Signature(Err(joined("sign failed: ", e))),
        Pending::VerifyAdmin => Answer::Key(Err(joined("admin PIN rejected: ", e))),
        Pending::SetEd25519 => Answer::Key(
            Err(joined("could not set the slot to Ed25519: ", e)),
        ),
        Pending::GenerateKey => Answer::Key(Err(joined("key generation failed: ", e))),
    }
}

fn sized_array<const N: usize>(raw: &Vec<u8>, error: &str) -> (r: Result<[u8; N], String>)
    ensures
        match r {
            Ok(a) => sized(raw@, N as nat, error@) == Ok::<Seq<u8>, Seq<char>>(a@),
            Err(e) => sized(raw@, N as nat, error@) == Err::<Seq<u8>, Seq<char>>(e@),
        },
{
    if raw.len() == N {
        Ok(array_of(raw.as_slice()))
    } else {
        Err(error.to_string())
    }
}

fn read_pubkey(data: Data) -> (r: Result<[u8; 32], String>)
    ensures
        StepView::Answer(Answer::Key(r)@) == succeeded(Pending::ReadKey, data),
{
    match data {
        Data::Ecc(raw) => sized_array(&raw, "auth key is not a 32-byte Ed25519 point"),
        _ => Err("auth key is RSA, not Ed25519".to_string()),
    }
}

fn read_signature(data: Data) -> (r: Result<[u8; 64], String>)
    ensures
        StepView::Answer(Answer::Signature(r)@) == succeeded(Pending::Authenticate, data),
{
    match data {
        Data::Signature(raw) => sized_array(&raw, "card returned a non-64-byte signature"),
        _ => Err("card returned a non-64-byte signature".to_string()),
    }
}

fn read_generated(data: Data) -> (r: Result<[u8; 32], String>)
    ensures
        StepView::Answer(Answer::Key(r)@) == succeeded(Pending::GenerateKey, data),
{
    match data {
        Data::Ecc(raw) => sized_array(&raw, "generated key is not a 32-byte Ed25519 point"),
        _ => Err("card generated a non-ECC key".to_string()),
    }
}

// ---------------------------------------------------------------------------
// The connection
// ---------------------------------------------------------------------------

/// The words in an error that tell that the card is gone.
pub open spec fn tells_comm_failure(error: Seq<char>) -> bool {
    let e = error.map_values(|c: char| ascii_lower(c));
    ||| occurs("removed"@, e)
    ||| occurs("reset"@, e)
    ||| occurs("transmit"@, e)
    ||| occurs("no smart card"@, e)
    ||| occurs("not transacted"@, e)
    ||| occurs("disconnected"@, e)
}

/// Whether an error looks like the card is gone (removed/reset/transport lost),
/// as opposed to a logical rejection like a bad PIN. Only the former should
/// tear down and reopen the session.
pub fn is_comm_failure<T>(r: &Result<T, String>) -> (b: bool)
    ensures
        b == (r matches Err(e) && tells_comm_failure(e@)),
        r is Ok ==> !b,
{
    match r {
        Ok(_) => false,
        Err(e) => {
            let e = lowered(e.as_str());
            contains(&e, "removed") || contains(&e, "reset") || contains(&e, "transmit")
                || contains(&e, "no smart card") || contains(&e, "not transacted") || contains(
                &e,
                "disconnected",
            )
        },
    }
}

/// Whether the connection to the card is held.
#[derive(Debug, Clone, Copy, PartialEq, Eq, Structural)]
pub enum Link {
    /// It has to be opened before the next request.
    Closed,
    /// The next request can use it.
    Open,
}

/// What a request needs of the connection.
#[derive(Debug, Clone, Copy, PartialEq, Eq, Structural)]
pub enum Access {
    /// Open the card.
    Open,
    /// Use the connection that is held.
    Use,
}

impl Link {
    /// What the next request needs of the connection.
    pub open spec fn needs(self) -> Access {
        match self {
            Link::Closed => Access::Open,
            Link::Open => Access::Use,
        }
    }

    /// What the next request needs of the connection. Only a request asks, so
    /// the card is not opened speculatively.
    pub fn access(self) -> (r: Access)
        ensures
            r == self.needs(),
            r == Access::Open <==> self == Link::Closed,
    {
        match self {
            Link::Closed => Access::Open,
            Link::Open => Access::Use,
        }
    }
}

/// How far a request came.
#[derive(Debug)]
pub enum Outcome {
    /// The card could not be opened.
    NotOpened(String),
    /// The card was open and gave no transaction.
    NoTransaction(String),
    /// The conversation came to an answer.
    Answered(Answer),
}

impl Request {
    /// The kind of answer that the request asks for, to settle it by after the
    /// request itself was handed to [`begin`].
    pub fn kind(&self) -> (r: Kind)
        ensures
            r == self.asks_for(),
            r == Kind::Key <==> self is Pubkey || self is Provision,
            r == Kind::Unlocked <==> self is Unlock,
            r == Kind::Signature <==> self is Sign,
    {
        match self {
            Request::Pubkey => Kind::Key,
            Request::Provision(_) => Kind::Key,
            Request::Unlock(_) => Kind::Unlocked,
            Request::Sign(_) => Kind::Signature,
        }
    }
}

fn reply_err(kind: Kind, error: String) -> (r: Answer)
    ensures
        r@ == kind.failed(error@),
{
    match kind {
        Kind::Key => Answer::Key(Err(error)),
        Kind::Unlocked => Answer::Unlocked(Err(error)),
        Kind::Signature => Answer::Signature(Err(error)),
    }
}

/// An [`Outcome`] as sequences.
pub enum OutcomeView {
    NotOpened(Seq<char>),
    NoTransaction(Seq<char>),
    Answered(AnswerView),
}

impl View for Outcome {
    type V = OutcomeView;

    open spec fn view(&self) -> OutcomeView {
        match self {
            Outcome::NotOpened(e) => OutcomeView::NotOpened(e@),
            Outcome::NoTransaction(e) => OutcomeView::NoTransaction(e@),
            Outcome::Answered(a) => OutcomeView::Answered(a@),
        }
    }
}

impl OutcomeView {
    /// What a request for this kind of answer is answered.
    pub open spec fn answer(self, kind: Kind) -> AnswerView {
        match self {
            OutcomeView::NotOpened(e) => kind.failed(e),
            OutcomeView::NoTransaction(e) => kind.failed(e),
            OutcomeView::Answered(a) => a,
        }
    }

    /// Whether there is no connection to go on with: the card was not opened,
    /// gave no transaction, or is gone.
    pub open spec fn lost(self) -> bool {
        match self {
            OutcomeView::NotOpened(_) => true,
            OutcomeView::NoTransaction(_) => true,
            OutcomeView::Answered(a) => a.error() matches Some(e) && tells_comm_failure(e),
        }
    }

    /// The connection after the request.
    pub open spec fn link(self) -> Link {
        if self.lost() {
            Link::Closed
        } else {
            Link::Open
        }
    }
}

/// Whether `answer` says that a request for this kind of answer failed with just
/// this error.
pub open spec fn is_failure(answer: Answer, kind: Kind, error: Seq<char>) -> bool {
    match kind {
        Kind::Key => answer matches Answer::Key(Err(e)) && e@ == error,
        Kind::Unlocked => answer matches Answer::Unlocked(Err(e)) && e@ == error,
        Kind::Signature => answer matches Answer::Signature(Err(e)) && e@ == error,
    }
}

/// What a request for this kind of answer is answered in the end, and whether
/// the connection is kept: a card that could not be opened, gave no transaction
/// or went away is opened anew for the next request.
pub fn settle(kind: Kind, outcome: Outcome) -> (r: (Answer, Link))
    ensures
        r.0@ == outcome@.answer(kind),
        r.1 == outcome@.link(),
        match outcome {
            Outcome::NotOpened(e) => r.1 == Link::Closed && is_failure(r.0, kind, e@),
            Outcome::NoTransaction(e) => r.1 == Link::Closed && is_failure(r.0, kind, e@),
            Outcome::Answered(a) => r.0 == a && (r.1 == Link::Closed <==> match a {
                Answer::Key(Err(e)) => tells_comm_failure(e@),
                Answer::Unlocked(Err(e)) => tells_comm_failure(e@),
                Answer::Signature(Err(e)) => tells_comm_failure(e@),
                _ => false,
            }),
        },
{
    match outcome {
        Outcome::NotOpened(e) => (reply_err(kind, e), Link::Closed),
        Outcome::NoTransaction(e) => (reply_err(kind, e), Link::Closed),
        Outcome::Answered(a) => {
            let gone = match &a {
                Answer::Key(r) => is_comm_failure(r),
                Answer::Unlocked(r) => is_comm_failure(r),
                Answer::Signature(r) => is_comm_failure(r),
            };
            if gone {
                (a, Link::Closed)
            } else {
                (a, Link::Open)
            }
        },
    }
}

/// What a caller of the card's owner gets: `sent` tells whether the request
/// reached the owner, `reply` is what came back from it.
pub fn deliver<T>(sent: bool, reply: Option<Result<T, String>>) -> (r: Result<T, String>)
    ensures
        if !sent {
            r matches Err(e) && e@ == "card thread stopped"@
        } else {
            match reply {
                Some(answer) => r == answer,
                None => r matches Err(e) && e@ == "card thread dropped the request"@,
            }
        },
{
    if !sent {
        return Err("card thread stopped".to_string());
    }
    match reply {
        Some(answer) => answer,
        None => Err("card thread dropped the request".to_string()),
    }
}

// ---------------------------------------------------------------------------
// The fingerprint
// ---------------------------------------------------------------------------

/// The object identifier of Ed25519 in OpenPGP.
pub const ED25519_OID: [u8; 9] = [0x2b, 0x06, 0x01, 0x04, 0x01, 0xda, 0x47, 0x0f, 0x01];

/// The low 16 bits of `n` as two bytes, most significant first.
pub open spec fn be16(n: nat) -> Seq<u8> {
    seq![(n / 256 % 256) as u8, (n % 256) as u8]
}

/// The v4 public-key packet body for EdDSA (RFC 4880bis): version, creation
/// time, algorithm 22, the object identifier with its length, and the point as
/// a multiprecision integer of 263 bits (a 0x40 prefix and 32 bytes).
pub open spec fn packet_body(point: Seq<u8>, created: u32) -> Seq<u8> {
    seq![0x04u8] + be32(created as nat) + seq![0x16u8, 9u8] + ED25519_OID@ + be16(263) + seq![0x40u8]
        + point
}

/// What the fingerprint is a hash of: the packet body behind its tag and length.
pub open spec fn fingerprint_input(point: Seq<u8>, created: u32) -> Seq<u8> {
    let body = packet_body(point, created);
    seq![0x99u8] + be16(body.len()) + body
}

/// The OpenPGP v4 fingerprint of an Ed25519 public key that was created at
/// `created`, in seconds.
///
/// The card stores it as metadata. `INTERNAL AUTHENTICATE` — the operation
/// every signature here uses — does not depend on it, but a correct value keeps
/// the card legible to `gpg` and `ykman`.
///
/// SHA-1 is not a choice: RFC 4880 defines the v4 fingerprint that way, and a
/// different hash would produce metadata no other tool could read. Nothing is
/// authenticated by it here.
pub fn ed25519_fingerprint(key: &Data, created: u32) -> (r: Result<[u8; 20], String>)
    ensures
        match key {
            Data::Ecc(point) => r matches Ok(f) && f@ == sha1(fingerprint_input(point@, created)),
            _ => r matches Err(e) && e@ == "expected an ECC public key"@,
        },
        key matches Data::Ecc(point) ==> (r matches Ok(f) && f@ == sha1(
            seq![0x99u8] + be16((19 + point@.len()) as nat) + seq![0x04u8] + be32(created as nat)
                + seq![0x16u8, 9u8] + ED25519_OID@ + seq![0x01u8, 0x07u8, 0x40u8] + point@,
        )),
{
    let point = match key {
        Data::Ecc(point) => point,
        _ => return Err("expected an ECC public key".to_string()),
    };
    let mut body: Vec<u8> = Vec::new();
    body.push(0x04);
    put_u32(&mut body, created as usize);
    body.push(0x16);
    body.push(9);
    body.extend_from_slice(&ED25519_OID);
    put_u16(&mut body, 263);
    body.push(0x40);
    body.extend_from_slice(point.as_slice());
    assert(body@ =~= packet_body(point@, created));
    let mut input: Vec<u8> = Vec::new();
    input.push(0x99);
    put_u16(&mut input, body.len());
    input.extend_from_slice(body.as_slice());
    assert(input@ =~= fingerprint_input(point@, created));
    proof {
        fingerprints_hash_the_whole_key(point@, created);
    }
    Ok(sha1_digest(input.as_slice()))
}

/// Appends the low 16 bits of `n`.
fn put_u16(out: &mut Vec<u8>, n: usize)
    ensures
        final(out)@ == old(out)@ + be16(n as nat),
{
    out.push((n / 256 % 256) as u8);
    out.push((n % 256) as u8);
    assert(out@ =~= old(out)@ + be16(n as nat));
}

// ---------------------------------------------------------------------------
// Laws
// ---------------------------------------------------------------------------

/// Whether a conversation about `request` can have this call pending.
pub open spec fn pending_for(request: Request, pending: Pending) -> bool {
    match request {
        Request::Pubkey => pending == Pending::ReadKey,
        Request::Unlock(_) => pending == Pending::VerifyUser,
        Request::Sign(_) => pending == Pending::Authenticate,
        Request::Provision(_) => pending == Pending::VerifyAdmin || pending == Pending::SetEd25519
            || pending == Pending::GenerateKey,
    }
}

/// How many more calls a conversation can make at most.
pub open spec fn calls_left(pending: Pending) -> nat {
    match pending {
        Pending::VerifyAdmin => 2,
        Pending::SetEd25519 => 1,
        _ => 0,
    }
}

/// A step of a conversation about `request`: a call of that conversation, or an
/// answer of the kind that was asked for.
pub open spec fn stays_on(request: Request, step: StepView) -> bool {
    match step {
        StepView::Call(_, pending) => pending_for(request, pending),
        StepView::Answer(answer) => answer.kind() == request.asks_for(),
    }
}

/// Every request is answered in kind, after at most three calls: a conversation
/// stays on its request, and each call brings it nearer to its end.
pub proof fn conversations_end_in_kind(request: Request, pending: Pending, data: Data, e: Seq<char>)
    requires
        pending_for(request, pending),
    ensures
        stays_on(request, begun(request)),
        stays_on(request, succeeded(pending, data)),
        call_failed(pending, e).kind() == request.asks_for(),
        succeeded(pending, data) matches StepView::Call(_, next) ==> calls_left(next) < calls_left(
            pending,
        ),
        calls_left(pending) <= 2,
{
}

/// A key is generated only after the admin PIN was verified and the slot set to
/// Ed25519, and neither is tried before the PIN could be right.
pub proof fn provisioning_keeps_its_order(request: Request, pending: Pending, data: Data)
    ensures
        begun(request) matches StepView::Call(call, _) ==> !(call is SetEd25519)
            && !(call is GenerateKey),
        begun(request) matches StepView::Call(CallView::VerifyAdmin(pin), _) ==> encode_utf8(
            pin,
        ).len() >= 8,
        succeeded(pending, data) matches StepView::Call(call, _) ==> {
            &&& call is SetEd25519 ==> pending == Pending::VerifyAdmin
            &&& call is GenerateKey ==> pending == Pending::SetEd25519
        },
{
}

/// A call that fails ends the request with an error that quotes the card.
pub proof fn failures_quote_the_card(pending: Pending, e: Seq<char>)
    ensures
        call_failed(pending, e).error() matches Some(text) && occurs(e, text),
{
    let (head, tail) = match pending {
        Pending::ReadKey => (
            "no Ed25519 auth key ("@,
            "); generate one with `sqnr --yubikey provision`"@,
        ),
        Pending::VerifyUser => ("PIN rejected: "@, Seq::<char>::empty()),
        Pending::Authenticate => ("sign failed: "@, Seq::<char>::empty()),
        Pending::VerifyAdmin => ("admin PIN rejected: "@, Seq::<char>::empty()),
        Pending::SetEd25519 => ("could not set the slot to Ed25519: "@, Seq::<char>::empty()),
        Pending::GenerateKey => ("key generation failed: "@, Seq::<char>::empty()),
    };
    let text = call_failed(pending, e).error().unwrap();
    assert(text =~= head + e + tail);
    let at = head.len() as int;
    assert(text.subrange(at, at + e.len()) =~= e);
    assert(occurs_at(e, text, at));
}

/// A request that the card's owner received: the kind of answer that it asks for,
/// and how far it came.
pub struct Served {
    pub kind: Kind,
    pub outcome: OutcomeView,
}

/// What the card's owner does over a sequence of requests, received one after
/// the other with the connection as `link` says: for each, what it needs of the
/// connection, and what it is answered.
pub open spec fn serving(link: Link, requests: Seq<Served>) -> Seq<(Access, AnswerView)>
    decreases requests.len(),
{
    if requests.len() == 0 {
        Seq::empty()
    } else {
        let first = requests[0];
        seq![(link.needs(), first.outcome.answer(first.kind))] + serving(
            first.outcome.link(),
            requests.drop_first(),
        )
    }
}

/// The connection before request `i` of the sequence.
pub open spec fn link_before(link: Link, requests: Seq<Served>, i: int) -> Link {
    if i == 0 {
        link
    } else {
        requests[i - 1].outcome.link()
    }
}

proof fn lemma_serving(link: Link, requests: Seq<Served>)
    ensures
        serving(link, requests).len() == requests.len(),
        forall|i: int|
            0 <= i < requests.len() ==> #[trigger] serving(link, requests)[i] == (
                link_before(link, requests, i).needs(),
                requests[i].outcome.answer(requests[i].kind),
            ),
    decreases requests.len(),
{
    if requests.len() > 0 {
        let rest = requests.drop_first();
        let next = requests[0].outcome.link();
        lemma_serving(next, rest);
        assert forall|i: int| 0 <= i < requests.len() implies #[trigger] serving(
            link,
            requests,
        )[i] == (
            link_before(link, requests, i).needs(),
            requests[i].outcome.answer(requests[i].kind),
        ) by {
            if i > 0 {
                assert(serving(link, requests)[i] == serving(next, rest)[i - 1]);
                assert(rest[i - 1] == requests[i]);
            }
        }
    }
}

/// The owner of the card starts without a connection. Every request gets one
/// answer, in order, and of the kind it asks for where its conversation ended in
/// kind. The first request opens the card; a later one opens it if and only if
/// the one before it lost the connection, so a failed opening is answered with
/// its error and tried again by the next request, and an open connection serves
/// until it is lost.
pub proof fn every_request_is_served_in_order(requests: Seq<Served>)
    ensures
        serving(Link::Closed, requests).len() == requests.len(),
        requests.len() > 0 ==> serving(Link::Closed, requests)[0].0 == Access::Open,
        forall|i: int|
            0 < i < requests.len() ==> ((#[trigger] serving(Link::Closed, requests)[i]).0
                == Access::Open <==> requests[i - 1].outcome.lost()),
        forall|i: int|
            0 <= i < requests.len() ==> (#[trigger] serving(Link::Closed, requests)[i]).1
                == requests[i].outcome.answer(requests[i].kind),
        forall|i: int|
            #![trigger requests[i]]
            0 <= i < requests.len() && (requests[i].outcome matches OutcomeView::Answered(a)
                ==> a.kind() == requests[i].kind) ==> serving(Link::Closed, requests)[i].1.kind()
                == requests[i].kind,
        forall|i: int|
            #![trigger requests[i]]
            0 <= i < requests.len() ==> (requests[i].outcome matches OutcomeView::NotOpened(e)
                ==> serving(Link::Closed, requests)[i].1 == requests[i].kind.failed(e)),
{
    lemma_serving(Link::Closed, requests);
}

/// A connection that was opened serves every later request up to the one that
/// loses it.
pub proof fn a_connection_serves_until_it_is_lost(requests: Seq<Served>, i: int, j: int)
    requires
        0 <= i < j < requests.len(),
        forall|k: int| i <= k < j ==> !(#[trigger] requests[k]).outcome.lost(),
    ensures
        forall|k: int|
            i < k <= j ==> (#[trigger] serving(Link::Closed, requests)[k]).0 == Access::Use,
{
    lemma_serving(Link::Closed, requests);
    assert forall|k: int| i < k <= j implies (#[trigger] serving(Link::Closed, requests)[k]).0
        == Access::Use by {
        assert(!requests[k - 1].outcome.lost());
    }
}

/// What was done for the requests so far does not depend on those to come: when
/// no more come, the owner has done just that.
pub proof fn serving_goes_request_by_request(link: Link, past: Seq<Served>, more: Seq<Served>)
    ensures
        serving(link, past).is_prefix_of(serving(link, past + more)),
{
    let all = past + more;
    lemma_serving(link, past);
    lemma_serving(link, all);
    assert forall|i: int| 0 <= i < past.len() implies serving(link, past)[i] == serving(
        link,
        all,
    )[i] by {
        assert(all[i] == past[i]);
        if i > 0 {
            assert(all[i - 1] == past[i - 1]);
        }
    }
    assert(serving(link, past) =~= serving(link, all).subrange(0, past.len() as int));
}

/// What a request begins with shows the card exactly what the request carries:
/// the message to sign from its first to its last byte, and a PIN as it was
/// entered. Requests that carry different things begin with different calls.
pub proof fn requests_reach_the_card_unchanged(a: Request, b: Request)
    ensures
        a matches Request::Sign(msg) ==> (begun(a) matches StepView::Call(
            CallView::Authenticate(m),
            Pending::Authenticate,
        ) && m.len() == msg@.len() && forall|i: int|
            0 <= i < msg@.len() ==> #[trigger] m[i] == msg@[i]),
        a matches Request::Unlock(pin) ==> (begun(a) matches StepView::Call(
            CallView::VerifyUser(p),
            Pending::VerifyUser,
        ) && p == pin@),
        a matches Request::Provision(pin) ==> encode_utf8(pin@).len() >= 8 ==> (begun(
            a,
        ) matches StepView::Call(CallView::VerifyAdmin(p), Pending::VerifyAdmin) && p == pin@),
        a matches Request::Provision(pin) ==> encode_utf8(pin@).len() < 8 ==> begun(a)
            == StepView::Answer(
            AnswerView::Key(
                Err(
                    "admin PIN is "@ + decimal_digits(encode_utf8(pin@).len())
                        + " characters; PW3 needs at least 8. That is the ADMIN PIN (default 12345678), not the 6-digit user PIN."@,
                ),
            ),
        ),
        a is Pubkey ==> begun(a) == StepView::Call(CallView::ReadKey, Pending::ReadKey),
        (a matches Request::Sign(m) && (b matches Request::Sign(n) && m@ != n@)) ==> begun(a)
            != begun(b),
{
}

/// What the card returned is what is answered, byte for byte: the key that was
/// read or generated, where it is a point of 32 bytes, and the signature, where
/// it has 64; all else is named for what it is.
pub proof fn answers_are_what_the_card_returned(data: Data)
    ensures
        data matches Data::Ecc(raw) ==> raw@.len() == 32 ==> {
            &&& succeeded(Pending::ReadKey, data) matches StepView::Answer(AnswerView::Key(Ok(k)))
            &&& succeeded(Pending::GenerateKey, data) matches StepView::Answer(
                AnswerView::Key(Ok(g)),
            )
            &&& k.len() == 32
            &&& forall|i: int| 0 <= i < 32 ==> #[trigger] k[i] == raw@[i]
            &&& g.len() == 32
            &&& forall|i: int| 0 <= i < 32 ==> #[trigger] g[i] == raw@[i]
        },
        data matches Data::Ecc(raw) ==> raw@.len() != 32 ==> {
            &&& succeeded(Pending::ReadKey, data) == StepView::Answer(
                AnswerView::Key(Err("auth key is not a 32-byte Ed25519 point"@)),
            )
            &&& succeeded(Pending::GenerateKey, data) == StepView::Answer(
                AnswerView::Key(Err("generated key is not a 32-byte Ed25519 point"@)),
            )
        },
        !(data is Ecc) ==> {
            &&& succeeded(Pending::ReadKey, data) == StepView::Answer(
                AnswerView::Key(Err("auth key is RSA, not Ed25519"@)),
            )
            &&& succeeded(Pending::GenerateKey, data) == StepView::Answer(
                AnswerView::Key(Err("card generated a non-ECC key"@)),
            )
        },
        data matches Data::Signature(raw) ==> raw@.len() == 64 ==> {
            &&& succeeded(Pending::Authenticate, data) matches StepView::Answer(
                AnswerView::Signature(Ok(s)),
            )
            &&& s.len() == 64
            &&& forall|i: int| 0 <= i < 64 ==> #[trigger] s[i] == raw@[i]
        },
        (data matches Data::Signature(raw) ==> raw@.len() != 64) ==> succeeded(
            Pending::Authenticate,
            data,
        ) == StepView::Answer(
            AnswerView::Signature(Err("card returned a non-64-byte signature"@)),
        ),
        succeeded(Pending::VerifyUser, data) == StepView::Answer(AnswerView::Unlocked(Ok(()))),
        succeeded(Pending::VerifyAdmin, data) == StepView::Call(
            CallView::SetEd25519,
            Pending::SetEd25519,
        ),
        succeeded(Pending::SetEd25519, data) == StepView::Call(
            CallView::GenerateKey,
            Pending::GenerateKey,
        ),
{
}

/// A failed call is answered with its own words around the card's, and with
/// nothing of the card's left out.
pub proof fn failures_say_which_call_failed(e: Seq<char>)
    ensures
        call_failed(Pending::ReadKey, e) == AnswerView::Key(
            Err("no Ed25519 auth key ("@ + e + "); generate one with `sqnr --yubikey provision`"@),
        ),
        call_failed(Pending::VerifyUser, e) == AnswerView::Unlocked(Err("PIN rejected: "@ + e)),
        call_failed(Pending::Authenticate, e) == AnswerView::Signature(Err("sign failed: "@ + e)),
        call_failed(Pending::VerifyAdmin, e) == AnswerView::Key(Err("admin PIN rejected: "@ + e)),
        call_failed(Pending::SetEd25519, e) == AnswerView::Key(
            Err("could not set the slot to Ed25519: "@ + e),
        ),
        call_failed(Pending::GenerateKey, e) == AnswerView::Key(
            Err("key generation failed: "@ + e),
        ),
{
}

/// Answers, calls, steps and outcomes are viewed whole.
pub proof fn conversations_are_viewed_whole(a: Answer, c: Call, p: Pending, o: Outcome)
    ensures
        match a {
            Answer::Key(Ok(k)) => a@ == AnswerView::Key(Ok(k@)),
            Answer::Key(Err(e)) => a@ == AnswerView::Key(Err(e@)),
            Answer::Unlocked(Ok(_)) => a@ == AnswerView::Unlocked(Ok(())),
            Answer::Unlocked(Err(e)) => a@ == AnswerView::Unlocked(Err(e@)),
            Answer::Signature(Ok(s)) => a@ == AnswerView::Signature(Ok(s@)),
            Answer::Signature(Err(e)) => a@ == AnswerView::Signature(Err(e@)),
        },
        match c {
            Call::ReadKey => c@ == CallView::ReadKey,
            Call::VerifyUser(pin) => c@ == CallView::VerifyUser(pin@),
            Call::Authenticate(msg) => c@ == CallView::Authenticate(msg@),
            Call::VerifyAdmin(pin) => c@ == CallView::VerifyAdmin(pin@),
            Call::SetEd25519 => c@ == CallView::SetEd25519,
            Call::GenerateKey => c@ == CallView::GenerateKey,
        },
        Step::Call(c, p)@ == StepView::Call(c@, p),
        Step::Answer(a)@ == StepView::Answer(a@),
        match o {
            Outcome::NotOpened(e) => o@ == OutcomeView::NotOpened(e@),
            Outcome::NoTransaction(e) => o@ == OutcomeView::NoTransaction(e@),
            Outcome::Answered(x) => o@ == OutcomeView::Answered(x@),
        },
{
}

/// A connection is lost with the card that was not opened or gave no
/// transaction, and with an answer that is a communication failure; every other
/// answer keeps it. What failed is answered with its error, in kind.
pub proof fn outcomes_settle_answer_and_connection(o: OutcomeView, kind: Kind, e: Seq<char>)
    ensures
        o is NotOpened || o is NoTransaction ==> o.link() == Link::Closed,
        o matches OutcomeView::Answered(a) ==> o.answer(kind) == a && (o.link() == Link::Closed
            <==> match a {
            AnswerView::Key(Err(x)) => tells_comm_failure(x),
            AnswerView::Unlocked(Err(x)) => tells_comm_failure(x),
            AnswerView::Signature(Err(x)) => tells_comm_failure(x),
            _ => false,
        }),
        OutcomeView::NotOpened(e).answer(Kind::Key) == AnswerView::Key(Err(e)),
        OutcomeView::NotOpened(e).answer(Kind::Unlocked) == AnswerView::Unlocked(Err(e)),
        OutcomeView::NotOpened(e).answer(Kind::Signature) == AnswerView::Signature(Err(e)),
        OutcomeView::NoTransaction(e).answer(Kind::Key) == AnswerView::Key(Err(e)),
        OutcomeView::NoTransaction(e).answer(Kind::Unlocked) == AnswerView::Unlocked(Err(e)),
        OutcomeView::NoTransaction(e).answer(Kind::Signature) == AnswerView::Signature(Err(e)),
        Link::Closed.needs() == Access::Open,
        Link::Open.needs() == Access::Use,
{
}

/// Whether the card is gone is told by any of six words, wherever in the error
/// it stands and in whichever case; without one of them the card is there.
pub proof fn six_words_tell_that_the_card_is_gone(
    before: Seq<char>,
    word: Seq<char>,
    after: Seq<char>,
)
    ensures
        ({
            let low = word.map_values(|c: char| ascii_lower(c));
            low == "removed"@ || low == "reset"@ || low == "transmit"@ || low == "no smart card"@
                || low == "not transacted"@ || low == "disconnected"@
        }) ==> tells_comm_failure(before + word + after),
        tells_comm_failure(word) ==> {
            let low = word.map_values(|c: char| ascii_lower(c));
            occurs("removed"@, low) || occurs("reset"@, low) || occurs("transmit"@, low) || occurs(
                "no smart card"@,
                low,
            ) || occurs("not transacted"@, low) || occurs("disconnected"@, low)
        },
{
    let whole = before + word + after;
    let low = word.map_values(|c: char| ascii_lower(c));
    let all = whole.map_values(|c: char| ascii_lower(c));
    let at = before.len() as int;
    assert(all.subrange(at, at + low.len()) =~= low);
    assert(occurs_at(low, all, at));
}

/// Two bytes write the low 16 bits of a number, most significant first.
pub proof fn be16_is_big_endian(n: nat)
    ensures
        be16(n).len() == 2,
        256 * be16(n)[0] + be16(n)[1] == n % 65536,
{
    let q = n / 256;
    let p = q / 256;
    let low = 256 * (q % 256) + n % 256;
    assert(n == 65536 * p + low);
    assert(n % 65536 == low);
}

/// A fingerprint is the hash of the creation time and of the whole point, in the
/// one form that other tools compute.
pub proof fn fingerprints_hash_the_whole_key(point: Seq<u8>, created: u32)
    ensures
        fingerprint_input(point, created) == seq![0x99u8] + be16((19 + point.len()) as nat)
            + seq![0x04u8] + be32(created as nat) + seq![0x16u8, 9u8] + ED25519_OID@
            + seq![0x01u8, 0x07u8, 0x40u8] + point,
        ED25519_OID@ == seq![0x2bu8, 0x06u8, 0x01u8, 0x04u8, 0x01u8, 0xdau8, 0x47u8, 0x0fu8, 0x01u8],
{
    assert(ED25519_OID@ =~= seq![0x2bu8, 0x06u8, 0x01u8, 0x04u8, 0x01u8, 0xdau8, 0x47u8, 0x0fu8, 0x01u8]);
    assert(be16(263) =~= seq![0x01u8, 0x07u8]);
    assert(packet_body(point, created).len() == 19 + point.len());
    assert(fingerprint_input(point, created) =~= seq![0x99u8] + be16((19 + point.len()) as nat)
        + seq![0x04u8] + be32(created as nat) + seq![0x16u8, 9u8] + ED25519_OID@
        + seq![0x01u8, 0x07u8, 0x40u8] + point);
}

} // verus!
